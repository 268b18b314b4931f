//! Songs and their tags. A song is known by its path below the music directory.

use vstd::prelude::*;
use vstd::string::*;

verus! {

/// What a file says about the song it holds.
#[derive(Debug, Hash, Clone, Eq, PartialEq)]
pub struct Tags {
    pub title: String,
    pub artist: String,
}

/// Whether `path` is relative: it does not begin at the root of the file system.
pub open spec fn is_relative(path: Seq<char>) -> bool {
    path.len() == 0 || path[0] != '/'
}

/// A song, known by its relative path.
#[derive(Debug, Hash, Clone, Eq, PartialEq)]
pub struct Song {
    path: String,
}

impl View for Song {
    type V = Seq<char>;

    closed spec fn view(&self) -> Seq<char> {
        self.path@
    }
}

impl Song {
    /// Whether `path` can name a song.
    pub fn accepts(path: &str) -> (relative: bool)
        ensures
            relative == is_relative(path@),
    {
        path.is_empty() || path.get_char(0) != '/'
    }

    /// The song at `path`, which is relative.
    pub fn new(path: &str) -> (song: Song)
        requires
            is_relative(path@),
        ensures
            song@ == path@,
            is_relative(song@),
    {
        Song { path: path.to_owned() }
    }

    /// The song's path.
    pub fn path(&self) -> (path: &str)
        ensures
            path@ == self@,
    {
        self.path.as_str()
    }
}

} // verus!
