//! The commands of the daemon's socket: what a datagram asks for and what is
//! answered. A command is a verb and, behind the first space, its argument.
//! Verbs and arguments count the same in capitals and in small letters.

use vstd::prelude::*;
use vstd::slice::slice_subrange;
use vstd::string::*;

verus! {

/// What the daemon does with a command.
#[derive(Debug, Clone, Copy, PartialEq, Eq, Structural)]
pub enum Reply {
    /// The answer to `PING`.
    Pong,
    /// Recommending was switched on or off.
    Recommend(bool),
    /// The verb is known, its argument is not.
    InvalidArgument,
    /// The verb is not known.
    NoCommand,
    /// The daemon ends without an answer.
    Quit,
}

/// The place of the first space in `bytes`, and the length of `bytes` where
/// they hold none.
pub open spec fn first_space(bytes: Seq<u8>) -> int
    decreases bytes.len(),
{
    if bytes.len() == 0 {
        0
    } else if bytes[0] == 0x20 {
        0
    } else {
        1 + first_space(bytes.drop_first())
    }
}

/// The verb of a command: what stands before the first space.
pub open spec fn verb_of(bytes: Seq<u8>) -> Seq<u8> {
    bytes.take(first_space(bytes))
}

/// The argument of a command: what stands behind the first space.
pub open spec fn arg_of(bytes: Seq<u8>) -> Seq<u8> {
    if first_space(bytes) < bytes.len() {
        bytes.skip(first_space(bytes) + 1)
    } else {
        Seq::empty()
    }
}

/// A small letter as its capital, every other byte as it is.
pub open spec fn upper(byte: u8) -> u8 {
    if 0x61 <= byte <= 0x7a {
        (byte - 0x20) as u8
    } else {
        byte
    }
}

/// `bytes` spell `word` when small letters count as capitals.
pub open spec fn spells(bytes: Seq<u8>, word: Seq<char>) -> bool {
    &&& bytes.len() == word.len()
    &&& forall|i: int| 0 <= i < bytes.len() ==> upper(#[trigger] bytes[i]) == word[i] as u8
}

/// The answer to the argument of `RECOMMEND`.
pub open spec fn setting_of(arg: Seq<u8>) -> Reply {
    if spells(arg, "ON"@) {
        Reply::Recommend(true)
    } else if spells(arg, "OFF"@) {
        Reply::Recommend(false)
    } else {
        Reply::InvalidArgument
    }
}

/// The answer to a command.
pub open spec fn reply_to(command: Seq<u8>) -> Reply {
    if spells(verb_of(command), "PING"@) {
        Reply::Pong
    } else if spells(verb_of(command), "RECOMMEND"@) {
        setting_of(arg_of(command))
    } else if spells(verb_of(command), "QUIT"@) {
        Reply::Quit
    } else {
        Reply::NoCommand
    }
}

/// The first space of `bytes` is the least place at which a space stands.
pub proof fn lemma_first_space(bytes: Seq<u8>)
    ensures
        0 <= first_space(bytes) <= bytes.len(),
        forall|i: int| 0 <= i < first_space(bytes) ==> #[trigger] bytes[i] != 0x20,
        first_space(bytes) < bytes.len() ==> bytes[first_space(bytes)] == 0x20,
    decreases bytes.len(),
{
    if bytes.len() > 0 && bytes[0] != 0x20 {
        let rest = bytes.drop_first();
        lemma_first_space(rest);
        assert forall|i: int| 0 <= i < first_space(bytes) implies #[trigger] bytes[i] != 0x20 by {
            if i > 0 {
                assert(bytes[i] == rest[i - 1]);
            }
        }
        if first_space(bytes) < bytes.len() {
            assert(bytes[first_space(bytes)] == rest[first_space(rest)]);
        }
    }
}

/// A place with a space before which no space stands is the first space.
pub proof fn lemma_first_space_is(bytes: Seq<u8>, at: int)
    requires
        0 <= at <= bytes.len(),
        forall|i: int| 0 <= i < at ==> #[trigger] bytes[i] != 0x20,
        at < bytes.len() ==> bytes[at] == 0x20,
    ensures
        first_space(bytes) == at,
{
    lemma_first_space(bytes);
}

/// Splits a command into its verb and its argument.
pub fn split_cmd(command: &[u8]) -> (parts: (&[u8], &[u8]))
    ensures
        parts.0@ == verb_of(command@),
        parts.1@ == arg_of(command@),
{
    let mut at: usize = 0;
    while at < command.len() && command[at] != 0x20
        invariant
            at <= command@.len(),
            forall|i: int| 0 <= i < at ==> #[trigger] command@[i] != 0x20,
        decreases command@.len() - at,
    {
        at += 1;
    }
    proof {
        lemma_first_space_is(command@, at as int);
    }
    let verb = slice_subrange(command, 0, at);
    if at < command.len() {
        let arg = slice_subrange(command, at + 1, command.len());
        assert(arg@ =~= arg_of(command@));
        assert(verb@ =~= verb_of(command@));
        (verb, arg)
    } else {
        let arg = slice_subrange(command, at, at);
        assert(arg@ =~= arg_of(command@));
        assert(verb@ =~= verb_of(command@));
        (verb, arg)
    }
}

/// Whether `bytes` spell `word`, which is in capitals of ASCII.
fn spelled(bytes: &[u8], word: &str) -> (same: bool)
    requires
        is_ascii(word),
    ensures
        same == spells(bytes@, word@),
{
    broadcast use is_ascii_spec_bytes;

    let letters = word.as_bytes();
    assert(letters@.len() == word@.len());
    if bytes.len() != letters.len() {
        return false;
    }
    let mut i: usize = 0;
    while i < bytes.len()
        invariant
            i <= bytes@.len(),
            bytes@.len() == letters@.len(),
            letters@.len() == word@.len(),
            forall|j: int| 0 <= j < letters@.len() ==> #[trigger] letters@[j] == word@[j] as u8,
            forall|j: int| 0 <= j < i ==> upper(#[trigger] bytes@[j]) == word@[j] as u8,
        decreases bytes@.len() - i,
    {
        let byte = bytes[i];
        let capital: u8 = if 0x61 <= byte && byte <= 0x7a {
            byte - 0x20
        } else {
            byte
        };
        if capital != letters[i] {
            assert(upper(bytes@[i as int]) != word@[i as int] as u8);
            return false;
        }
        i += 1;
    }
    true
}

/// Answers the argument of `RECOMMEND`: `ON` and `OFF` are settings, anything
/// else is an invalid argument.
pub fn set_recommend(arg: &[u8]) -> (reply: Reply)
    ensures
        reply == setting_of(arg@),
{
    proof {
        reveal_strlit("ON");
        reveal_strlit("OFF");
    }
    if spelled(arg, "ON") {
        Reply::Recommend(true)
    } else if spelled(arg, "OFF") {
        Reply::Recommend(false)
    } else {
        Reply::InvalidArgument
    }
}

/// Answers a command.
pub fn respond(command: &[u8]) -> (reply: Reply)
    ensures
        reply == reply_to(command@),
{
    proof {
        reveal_strlit("PING");
        reveal_strlit("RECOMMEND");
        reveal_strlit("QUIT");
    }
    let (call, arg) = split_cmd(command);
    if spelled(call, "PING") {
        Reply::Pong
    } else if spelled(call, "RECOMMEND") {
        set_recommend(arg)
    } else if spelled(call, "QUIT") {
        Reply::Quit
    } else {
        Reply::NoCommand
    }
}

impl Reply {
    /// The text that is sent back; none where the daemon ends.
    pub fn text(&self) -> (text: Option<&'static str>)
        ensures
            text is None <==> *self == Reply::Quit,
            match *self {
                Reply::Pong => text == Some("PONG"),
                Reply::Recommend(_) => text == Some("RECOMMEND"),
                Reply::InvalidArgument => text == Some("INVARG"),
                Reply::NoCommand => text == Some("NOCMD"),
                Reply::Quit => true,
            },
    {
        match self {
            Reply::Pong => Some("PONG"),
            Reply::Recommend(_) => Some("RECOMMEND"),
            Reply::InvalidArgument => Some("INVARG"),
            Reply::NoCommand => Some("NOCMD"),
            Reply::Quit => None,
        }
    }
}

} // verus!
