//! The entries of a directory listing.

pub mod entries;
pub mod iterator;

pub use self::entries::Entries;
pub use self::iterator::EntryIterator;

use crate::text::{str_le, str_precedes};
use vstd::prelude::*;

verus! {

/// What an entry is.
#[derive(Debug, Hash, Clone, Copy, PartialEq, Eq, Structural)]
pub enum EntryType {
    File,
    Directory,
}

/// An entry in specifications: its path and what it is.
pub type EntryView = (Seq<char>, EntryType);

/// An entry of a listing.
#[derive(Debug, Clone)]
pub struct Entry {
    pub path: String,
    pub ftype: EntryType,
}

impl View for Entry {
    type V = EntryView;

    open spec fn view(&self) -> EntryView {
        (self.path@, self.ftype)
    }
}

impl PartialEq for Entry {
    /// Two entries are the same entry when they have the same path.
    fn eq(&self, other: &Entry) -> (same: bool) {
        self.path == other.path
    }
}

impl vstd::std_specs::cmp::PartialEqSpecImpl for Entry {
    open spec fn obeys_eq_spec() -> bool {
        true
    }

    open spec fn eq_spec(&self, other: &Entry) -> bool {
        self.path@ == other.path@
    }
}

impl Eq for Entry {

}

impl Entry {
    /// Whether this entry stands no later than `other` in a listing: entries are
    /// ordered by their paths.
    pub fn precedes(&self, other: &Entry) -> (le: bool)
        ensures
            le == str_le(self@.0, other@.0),
    {
        str_precedes(self.path.as_str(), other.path.as_str())
    }
}

/// What reading a directory gives for one of its files: the file's name, its
/// path, and what it is, if it is a file or a directory.
#[derive(Debug, Clone)]
pub struct Listed {
    pub name: String,
    pub path: String,
    pub kind: Option<EntryType>,
}

impl View for Listed {
    type V = (Seq<char>, Seq<char>, Option<EntryType>);

    open spec fn view(&self) -> (Seq<char>, Seq<char>, Option<EntryType>) {
        (self.name@, self.path@, self.kind)
    }
}

} // verus!
