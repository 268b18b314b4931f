//! The store that keeps nothing.

use crate::database::Database;
use vstd::prelude::*;

verus! {

/// A store for sessions that need no durability: every change succeeds and
/// leaves no trace.
#[derive(Debug, Copy, Clone, Hash, PartialEq, Eq)]
pub struct NullDatabase;

impl Database for NullDatabase {
    type Error = ();

    fn modify_weight(&mut self, _this: &str, _next: &str, _diff: i32) -> (done: Result<(), ()>)
        ensures
            done is Ok,
    {
        Ok(())
    }

    fn clear(&mut self, _this: &str) -> (done: Result<(), ()>)
        ensures
            done is Ok,
    {
        Ok(())
    }
}

} // verus!
