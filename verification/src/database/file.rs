//! The store that is a snapshot file. A change is kept in memory only; the
//! store counts the changes that no snapshot holds yet, so that the caller knows
//! when one is due.

use crate::database::Database;
use vstd::prelude::*;

verus! {

/// The store behind a snapshot file: the number of changes since the file was
/// last written.
#[derive(Debug, Clone, Copy, PartialEq, Eq)]
pub struct FileDatabase {
    unsaved: usize,
}

impl View for FileDatabase {
    type V = nat;

    /// The number of changes that no snapshot holds. A count that a `usize`
    /// cannot hold stays at the greatest that it can.
    closed spec fn view(&self) -> nat {
        self.unsaved as nat
    }
}

/// One more than `count`, as far as a `usize` can count.
pub open spec fn counted(count: nat) -> nat {
    if count < usize::MAX {
        count + 1
    } else {
        count
    }
}

impl FileDatabase {
    /// The store of a file that holds everything.
    pub fn new() -> (store: FileDatabase)
        ensures
            store@ == 0,
    {
        FileDatabase { unsaved: 0 }
    }

    /// The number of changes that no snapshot holds.
    pub fn unsaved(&self) -> (count: usize)
        ensures
            count == self@,
    {
        self.unsaved
    }

    /// Whether a snapshot is due when one is written after every `every`
    /// changes. None is due while nothing has changed.
    pub fn checkpoint_due(&self, every: usize) -> (due: bool)
        ensures
            due == (self@ > 0 && self@ >= every),
    {
        self.unsaved > 0 && self.unsaved >= every
    }

    /// Notes that a snapshot was written.
    pub fn written(&mut self)
        ensures
            final(self)@ == 0,
    {
        self.unsaved = 0;
    }

    fn count(&mut self)
        ensures
            final(self)@ == counted(old(self)@),
    {
        if self.unsaved < usize::MAX {
            self.unsaved += 1;
        }
    }
}

impl Database for FileDatabase {
    type Error = ();

    fn modify_weight(&mut self, _prev: &str, _next: &str, _diff: i32) -> (done: Result<(), ()>)
        ensures
            done is Ok,
            final(self)@ == counted(old(self)@),
    {
        self.count();
        Ok(())
    }

    fn clear(&mut self, _prev: &str) -> (done: Result<(), ()>)
        ensures
            done is Ok,
            final(self)@ == counted(old(self)@),
    {
        self.count();
        Ok(())
    }
}

} // verus!
