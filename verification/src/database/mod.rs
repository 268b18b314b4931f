//! Durable stores of the graph: what every store offers, the rows that a store
//! of tables holds, the store behind a snapshot file, and the store that keeps
//! nothing.

pub mod file;
pub mod models;
pub mod null;

use vstd::prelude::*;

verus! {

/// What a durable store of the graph offers. Each call either makes its whole
/// change or none of it.
pub trait Database {
    /// What a failed call reports.
    type Error;

    /// Adds `diff` to the stored weight of the edge from `prev` to `next`; an
    /// edge that is not stored counts with weight zero.
    fn modify_weight(&mut self, prev: &str, next: &str, diff: i32) -> Result<(), Self::Error>;

    /// Removes every stored edge that goes out of `prev`.
    fn clear(&mut self, prev: &str) -> Result<(), Self::Error>;
}

} // verus!
