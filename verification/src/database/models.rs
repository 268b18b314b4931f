//! The rows of the two tables that hold the graph: one row for each edge, one
//! for each start weight.

use crate::assoc::Key;
use vstd::prelude::*;

verus! {

/// A row of the table of edges, as it is read.
#[derive(Debug, Clone, PartialEq)]
pub struct Association {
    pub prev_song: String,
    pub next_song: String,
    pub weight: i32,
}

impl View for Association {
    type V = (Key, Key, int);

    open spec fn view(&self) -> (Key, Key, int) {
        (self.prev_song@, self.next_song@, self.weight as int)
    }
}

/// A row of the table of edges, as it is written.
#[derive(Debug, Copy, Clone, PartialEq)]
pub struct NewAssociation<'a> {
    pub prev_song: &'a str,
    pub next_song: &'a str,
    pub weight: i32,
}

impl<'a> View for NewAssociation<'a> {
    type V = (Key, Key, int);

    open spec fn view(&self) -> (Key, Key, int) {
        (self.prev_song@, self.next_song@, self.weight as int)
    }
}

/// A row of the table of start weights, as it is read.
#[derive(Debug, Clone, PartialEq)]
pub struct Start {
    pub song: String,
    pub weight: i32,
}

impl View for Start {
    type V = (Key, int);

    open spec fn view(&self) -> (Key, int) {
        (self.song@, self.weight as int)
    }
}

/// A row of the table of start weights, as it is written.
#[derive(Debug, Copy, Clone, PartialEq)]
pub struct NewStart<'a> {
    pub song: &'a str,
    pub weight: i32,
}

impl<'a> View for NewStart<'a> {
    type V = (Key, int);

    open spec fn view(&self) -> (Key, int) {
        (self.song@, self.weight as int)
    }
}

/// The weight that a row read from a table holds: zero where no row was found.
pub open spec fn stored_weight(found: Option<i32>) -> int {
    match found {
        Some(weight) => weight as int,
        None => 0,
    }
}

impl<'a> NewAssociation<'a> {
    /// The row to write for the edge from `prev` to `next` when `diff` is added
    /// to the weight that was read for it; `found` is that weight, and `None`
    /// where the table has no row for the edge. There is no row to write where
    /// the sum is not an `i32`.
    pub fn updated(prev: &'a str, next: &'a str, found: Option<i32>, diff: i32) -> (row: Option<
        NewAssociation<'a>,
    >)
        ensures
            row is Some <==> i32::MIN <= stored_weight(found) + diff <= i32::MAX,
            match row {
                Some(r) => r@ == (
                    prev@,
                    next@,
                    stored_weight(found) + diff,
                ),
                None => true,
            },
    {
        let old: i32 = match found {
            Some(weight) => weight,
            None => 0,
        };
        match old.checked_add(diff) {
            Some(weight) => Some(NewAssociation { prev_song: prev, next_song: next, weight }),
            None => None,
        }
    }
}

impl<'a> NewStart<'a> {
    /// The row to write for the start weight of `song` when `diff` is added to
    /// the weight that was read for it. There is no row to write where the sum is
    /// not an `i32`.
    pub fn updated(song: &'a str, found: Option<i32>, diff: i32) -> (row: Option<NewStart<'a>>)
        ensures
            row is Some <==> i32::MIN <= stored_weight(found) + diff <= i32::MAX,
            match row {
                Some(r) => r@ == (
                    song@,
                    stored_weight(found) + diff,
                ),
                None => true,
            },
    {
        let old: i32 = match found {
            Some(weight) => weight,
            None => 0,
        };
        match old.checked_add(diff) {
            Some(weight) => Some(NewStart { song, weight }),
            None => None,
        }
    }
}

} // verus!
