//! Walking the entries of a listing from a given place.

use crate::handle::entry::entries::Entries;
use crate::handle::entry::Entry;
use vstd::prelude::*;

verus! {

/// A walk through a listing. Each step gives the next entry with its place.
#[derive(Debug)]
pub struct EntryIterator<'a> {
    entries: &'a Entries,
    index: usize,
}

impl<'a> EntryIterator<'a> {
    /// The listing that is walked.
    pub closed spec fn listing(&self) -> &'a Entries {
        self.entries
    }

    /// The place of the entry that the next step gives.
    pub closed spec fn place(&self) -> int {
        self.index as int
    }

    /// A walk through `entries` that begins at place `start`.
    pub fn new(entries: &'a Entries, start: usize) -> (walk: EntryIterator<'a>)
        ensures
            walk.listing() == entries,
            walk.place() == start,
    {
        EntryIterator { entries, index: start }
    }

    /// The next entry with its place; none when the walk has passed the last
    /// entry, and then the walk stays where it is.
    pub fn next(&mut self) -> (item: Option<(usize, &'a Entry)>)
        requires
            old(self).listing().wf(),
        ensures
            final(self).listing() == old(self).listing(),
            match item {
                Some((place, entry)) => {
                    &&& place == old(self).place()
                    &&& place < old(self).listing()@.len()
                    &&& entry@ == old(self).listing()@[place as int]
                    &&& final(self).place() == place + 1
                },
                None => {
                    &&& old(self).place() >= old(self).listing()@.len()
                    &&& final(self).place() == old(self).place()
                },
            },
    {
        let count = self.entries.len();
        if self.index >= count {
            return None;
        }
        let item = (self.index, self.entries.get(self.index));
        self.index += 1;
        Some(item)
    }
}

} // verus!
