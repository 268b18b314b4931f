//! The settings of a session, and where they and the graph are kept by default.

use vstd::prelude::*;
use vstd::string::*;

verus! {

/// The settings of a session.
#[derive(Debug, Clone, PartialEq)]
pub struct Config {
    pub storage_file: String,
    pub ipv4: bool,
    pub port: u16,
}

/// What the command line gives.
#[derive(Debug)]
pub struct Args {
    pub config: Config,
    pub color: bool,
}

/// `dir` and `rest`, joined by a slash.
pub open spec fn below(dir: Seq<char>, rest: Seq<char>) -> Seq<char> {
    dir + "/"@ + rest
}

/// `dir` and `rest`, joined by a slash.
fn join(dir: &str, rest: &str) -> (path: String)
    ensures
        path@ == below(dir@, rest@),
{
    let mut path = dir.to_owned();
    path.append("/");
    path.append(rest);
    path
}

/// The directory of the user's data: the one that the environment names, and
/// `.local/share` below the home directory where it names none.
pub fn data_home(named: Option<&str>, home: &str) -> (dir: String)
    ensures
        dir@ == match named {
            Some(dir) => dir@,
            None => below(home@, ".local/share"@),
        },
{
    match named {
        Some(dir) => dir.to_owned(),
        None => join(home, ".local/share"),
    }
}

/// The directory of the user's settings: the one that the environment names,
/// and `.config` below the home directory where it names none.
pub fn config_home(named: Option<&str>, home: &str) -> (dir: String)
    ensures
        dir@ == match named {
            Some(dir) => dir@,
            None => below(home@, ".config"@),
        },
{
    match named {
        Some(dir) => dir.to_owned(),
        None => join(home, ".config"),
    }
}

/// The file that is read for the settings where the command line names none.
pub fn default_config_path(config_home: &str) -> (path: String)
    ensures
        path@ == below(config_home@, "markov-music/config.toml"@),
{
    join(config_home, "markov-music/config.toml")
}

impl Config {
    /// The settings of a session that was given none: the graph is kept below
    /// `data_home`, and the player is reached over IPv6 on port 6600.
    pub fn with_data_home(data_home: &str) -> (config: Config)
        ensures
            config.storage_file@ == below(data_home@, "markov-music/chain.db"@),
            !config.ipv4,
            config.port == 6600,
    {
        Config { storage_file: join(data_home, "markov-music/chain.db"), ipv4: false, port: 6600 }
    }
}

} // verus!
