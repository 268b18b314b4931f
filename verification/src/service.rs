//! The graph together with a durable store. Every change is made in memory
//! first, so that the next choice sees it, and is then handed to the store.

use crate::database::Database;
use crate::markov::{Chain, ChainView};
use vstd::prelude::*;

verus! {

/// A graph in memory and the store that keeps it.
pub struct ChainService<D: Database> {
    chain: Chain,
    backend: D,
}

impl<D: Database> View for ChainService<D> {
    type V = ChainView;

    closed spec fn view(&self) -> ChainView {
        self.chain@
    }
}

impl<D: Database> ChainService<D> {
    /// The store.
    pub closed spec fn store(&self) -> D {
        self.backend
    }

    /// The service's invariant: that of its graph.
    pub open spec fn wf(&self) -> bool {
        self@.keyed()
    }

    /// A service over `chain`, which was loaded from `backend` or is empty.
    pub fn new(chain: Chain, backend: D) -> (service: Self)
        requires
            chain.wf(),
        ensures
            service.wf(),
            service@ == chain@,
            service.store() == backend,
    {
        ChainService { chain, backend }
    }

    /// The store.
    pub fn backend(&self) -> (backend: &D)
        ensures
            *backend == self.store(),
    {
        &self.backend
    }

    /// The store, for what it offers besides the changes of the graph. The
    /// graph in memory stays as it is.
    pub fn backend_mut(&mut self) -> (backend: &mut D)
        ensures
            *backend == old(self).store(),
            final(self).store() == *final(backend),
            final(self)@ == old(self)@,
    {
        &mut self.backend
    }

    /// The graph and the store, apart again.
    pub fn into_parts(self) -> (parts: (Chain, D))
        ensures
            parts.0@ == self@,
            parts.1 == self.store(),
    {
        (self.chain, self.backend)
    }

    /// The graph in memory.
    pub fn chain(&self) -> (chain: &Chain)
        ensures
            chain@ == self@,
    {
        &self.chain
    }

    /// Whether `modify_weight` may be called with these arguments: the new
    /// weight is an `i32`.
    pub fn accepts(&self, prev: &str, next: &str, diff: i32) -> (fits: bool)
        requires
            self.wf(),
        ensures
            fits == (i32::MIN <= self@.weight(prev@, next@) + diff <= i32::MAX),
    {
        self.chain.accepts(prev, next, diff)
    }

    /// Adds `diff` to the weight of the edge from `prev` to `next`, in memory and
    /// then in the store. The graph in memory has the change whatever the store
    /// answers; the store's answer is handed back, and an error says that the
    /// change may not last.
    pub fn modify_weight(&mut self, prev: &str, next: &str, diff: i32) -> (stored: Result<
        (),
        D::Error,
    >)
        requires
            old(self).wf(),
            i32::MIN <= old(self)@.weight(prev@, next@) + diff <= i32::MAX,
        ensures
            final(self).wf(),
            final(self)@ == old(self)@.modify_weight(prev@, next@, diff as int),
    {
        self.chain.modify_weight(prev, next, diff);
        self.backend.modify_weight(prev, next, diff)
    }

    /// Removes all edges that go out of `prev`, in memory and then in the
    /// store. The graph in memory has the change whatever the store answers.
    pub fn clear(&mut self, prev: &str) -> (stored: Result<(), D::Error>)
        requires
            old(self).wf(),
        ensures
            final(self).wf(),
            final(self)@ == old(self)@.clear(prev@),
    {
        self.chain.clear(prev);
        self.backend.clear(prev)
    }
}

} // verus!
