//! The graph as rows: one row for each edge and one for each start weight. A
//! store of tables holds these rows, and a snapshot file holds the same values.
//! Taking the rows of a graph and loading them again gives the graph back.

use crate::assoc::{distinct_keys, has_key, key_index, lemma_key_index, lemma_put, lookup, put, Assoc, Key};
use crate::database::models::{Association, Start};
use crate::markov::{Chain, ChainView};
use vstd::prelude::*;

verus! {

/// The rows of the edges that go out of `prev`, in their order.
pub open spec fn rows_of(prev: Key, edges: Assoc<int>) -> Seq<(Key, Key, int)> {
    Seq::new(edges.len(), |i: int| (prev, edges[i].0, edges[i].1))
}

/// The rows of all edges: item by item, and for each item edge by edge.
pub open spec fn edge_rows(assocs: Assoc<Assoc<int>>) -> Seq<(Key, Key, int)>
    decreases assocs.len(),
{
    if assocs.len() == 0 {
        Seq::empty()
    } else {
        edge_rows(assocs.drop_last()) + rows_of(assocs.last().0, assocs.last().1)
    }
}

/// The graph `v` after the edges of `rows` were set one after the other. Of two
/// rows for one edge the later one counts.
pub open spec fn load_edges(v: ChainView, rows: Seq<(Key, Key, int)>) -> ChainView
    decreases rows.len(),
{
    if rows.len() == 0 {
        v
    } else {
        load_edges(v, rows.drop_last()).set_weight(rows.last().0, rows.last().1, rows.last().2)
    }
}

/// The start weights `start` after those of `rows` were set one after the other.
pub open spec fn load_starters(start: Assoc<int>, rows: Seq<(Key, int)>) -> Assoc<int>
    decreases rows.len(),
{
    if rows.len() == 0 {
        start
    } else {
        put(load_starters(start, rows.drop_last()), rows.last().0, rows.last().1)
    }
}

/// The graph that the rows of two tables stand for.
pub open spec fn loaded(edges: Seq<(Key, Key, int)>, starters: Seq<(Key, int)>) -> ChainView {
    ChainView {
        assocs: load_edges(ChainView::empty(), edges).assocs,
        start: load_starters(Seq::empty(), starters),
    }
}

/// Loading rows keeps the keys of the graph distinct and leaves the start
/// weights alone.
pub proof fn lemma_load_edges(v: ChainView, rows: Seq<(Key, Key, int)>)
    requires
        v.keyed(),
    ensures
        load_edges(v, rows).keyed(),
        load_edges(v, rows).start == v.start,
    decreases rows.len(),
{
    if rows.len() > 0 {
        lemma_load_edges(v, rows.drop_last());
        load_edges(v, rows.drop_last()).lemma_set_weight(
            rows.last().0,
            rows.last().1,
            rows.last().2,
        );
    }
}

/// Loading two lists of rows one after the other is loading both as one list.
pub proof fn lemma_load_edges_in_turn(
    v: ChainView,
    first: Seq<(Key, Key, int)>,
    second: Seq<(Key, Key, int)>,
)
    ensures
        load_edges(v, first + second) == load_edges(load_edges(v, first), second),
    decreases second.len(),
{
    if second.len() == 0 {
        assert(first + second =~= first);
    } else {
        assert((first + second).drop_last() =~= first + second.drop_last());
        assert((first + second).last() == second.last());
        lemma_load_edges_in_turn(v, first, second.drop_last());
    }
}

/// Loading the first `k` rows of an item that the graph does not know yet adds
/// the item at the end, with the first `k` of its edges.
proof fn lemma_load_rows_of(v: ChainView, prev: Key, edges: Assoc<int>, k: int)
    requires
        v.keyed(),
        !has_key(v.assocs, prev),
        distinct_keys(edges),
        1 <= k <= edges.len(),
    ensures
        load_edges(v, rows_of(prev, edges).take(k)).assocs == v.assocs.push((prev, edges.take(k))),
        load_edges(v, rows_of(prev, edges).take(k)).start == v.start,
    decreases k,
{
    let rows = rows_of(prev, edges).take(k);
    let row = rows.last();
    assert(row == (prev, edges[k - 1].0, edges[k - 1].1));
    let before = load_edges(v, rows.drop_last());
    let after = before.set_weight(row.0, row.1, row.2);
    assert(load_edges(v, rows) == after);
    if k == 1 {
        assert(rows.drop_last() =~= Seq::<(Key, Key, int)>::empty());
        assert(before == v);
        assert(v.edges(prev) == Seq::<(Key, int)>::empty());
        assert(!has_key(v.edges(prev), row.1));
        assert(put(v.edges(prev), row.1, row.2) =~= edges.take(1));
        assert(after.assocs =~= v.assocs.push((prev, edges.take(k))));
    } else {
        assert(rows.drop_last() =~= rows_of(prev, edges).take(k - 1));
        lemma_load_rows_of(v, prev, edges, k - 1);
        let last = v.assocs.len() as int;
        assert(before.assocs == v.assocs.push((prev, edges.take(k - 1))));
        assert(before.assocs[last] == (prev, edges.take(k - 1)));
        lemma_load_edges(v, rows.drop_last());
        lemma_key_index(before.assocs, last);
        assert(before.edges(prev) == edges.take(k - 1));
        assert(!has_key(edges.take(k - 1), row.1)) by {
            if has_key(edges.take(k - 1), row.1) {
                let i = key_index(edges.take(k - 1), row.1);
                assert(edges.take(k - 1)[i] == edges[i]);
                assert(edges[i].0 == edges[k - 1].0);
            }
        }
        assert(put(edges.take(k - 1), row.1, row.2) =~= edges.take(k));
        assert(after.assocs =~= v.assocs.push((prev, edges.take(k))));
    }
}

/// The rows of a graph's edges, loaded into an empty graph, give the edges back
/// in their order.
pub proof fn lemma_edges_round_trip(assocs: Assoc<Assoc<int>>)
    requires
        (ChainView { assocs, start: Seq::empty() }).keyed(),
    ensures
        load_edges(ChainView::empty(), edge_rows(assocs)).assocs == assocs,
        load_edges(ChainView::empty(), edge_rows(assocs)).start == Seq::<(Key, int)>::empty(),
    decreases assocs.len(),
{
    let whole = ChainView { assocs, start: Seq::empty() };
    if assocs.len() == 0 {
        assert(assocs =~= Seq::<(Key, Assoc<int>)>::empty());
    } else {
        let rest = assocs.drop_last();
        let last = assocs.len() - 1;
        let (prev, edges) = assocs.last();
        let part = ChainView { assocs: rest, start: Seq::empty() };
        assert(part.keyed()) by {
            assert forall|i: int| 0 <= i < rest.len() implies rest[i] == assocs[i] by {}
            assert forall|i: int, j: int|
                0 <= i < rest.len() && 0 <= j < rest.len() && i != j implies (#[trigger] rest[i]).0
                != (#[trigger] rest[j]).0 by {
                assert(rest[i] == assocs[i]);
                assert(rest[j] == assocs[j]);
            }
            assert forall|i: int| 0 <= i < rest.len() implies distinct_keys((#[trigger] rest[i]).1)
                && rest[i].1.len() > 0 by {
                assert(rest[i] == assocs[i]);
            }
        }
        lemma_edges_round_trip(rest);
        let loaded_rest = load_edges(ChainView::empty(), edge_rows(rest));
        assert(loaded_rest == part);
        assert(!has_key(rest, prev)) by {
            if has_key(rest, prev) {
                let i = key_index(rest, prev);
                assert(rest[i] == assocs[i]);
                assert(assocs[i].0 == assocs[last].0);
            }
        }
        assert(assocs[last] == (prev, edges));
        assert(distinct_keys(edges) && edges.len() > 0);
        lemma_load_edges_in_turn(ChainView::empty(), edge_rows(rest), rows_of(prev, edges));
        assert(rows_of(prev, edges).take(edges.len() as int) =~= rows_of(prev, edges));
        assert(edges.take(edges.len() as int) =~= edges);
        lemma_load_rows_of(part, prev, edges, edges.len() as int);
        assert(rest.push((prev, edges)) =~= assocs);
    }
}

/// The rows of the start weights, loaded into an empty list, give the start
/// weights back in their order.
pub proof fn lemma_starters_round_trip(start: Assoc<int>)
    requires
        distinct_keys(start),
    ensures
        load_starters(Seq::empty(), start) == start,
    decreases start.len(),
{
    if start.len() == 0 {
        assert(start =~= Seq::<(Key, int)>::empty());
    } else {
        let rest = start.drop_last();
        let last = start.len() - 1;
        assert forall|i: int, j: int|
            0 <= i < rest.len() && 0 <= j < rest.len() && i != j implies (#[trigger] rest[i]).0 != (
        #[trigger] rest[j]).0 by {
            assert(rest[i] == start[i]);
            assert(rest[j] == start[j]);
        }
        lemma_starters_round_trip(rest);
        assert(!has_key(rest, start.last().0)) by {
            if has_key(rest, start.last().0) {
                let i = key_index(rest, start.last().0);
                assert(rest[i] == start[i]);
                assert(start[i].0 == start[last].0);
            }
        }
        assert(put(rest, start.last().0, start.last().1) =~= start);
    }
}

/// A graph written out as rows and loaded again is the same graph: the same
/// edges with the same weights, the same start weights, and all in the same
/// order.
pub proof fn lemma_round_trip(v: ChainView)
    requires
        v.keyed(),
    ensures
        loaded(edge_rows(v.assocs), v.start) == v,
{
    lemma_edges_round_trip(v.assocs);
    lemma_starters_round_trip(v.start);
}

/// The weight that the last row for the edge from `prev` to `next` gives, if
/// `rows` has a row for that edge.
pub open spec fn last_weight(rows: Seq<(Key, Key, int)>, prev: Key, next: Key) -> Option<int>
    decreases rows.len(),
{
    if rows.len() == 0 {
        None
    } else if rows.last().0 == prev && rows.last().1 == next {
        Some(rows.last().2)
    } else {
        last_weight(rows.drop_last(), prev, next)
    }
}

/// The weight that the last row for `item` gives, if `rows` has a row for it.
pub open spec fn last_start(rows: Seq<(Key, int)>, item: Key) -> Option<int>
    decreases rows.len(),
{
    if rows.len() == 0 {
        None
    } else if rows.last().0 == item {
        Some(rows.last().1)
    } else {
        last_start(rows.drop_last(), item)
    }
}

/// After loading, an edge has the weight of the last row for it, and where
/// there is no row for it, the weight that it had. So the weights of a loaded
/// graph do not depend on the order of the rows of different edges.
pub proof fn lemma_loaded_weight(v: ChainView, rows: Seq<(Key, Key, int)>, prev: Key, next: Key)
    requires
        v.keyed(),
    ensures
        load_edges(v, rows).keyed(),
        load_edges(v, rows).weight(prev, next) == match last_weight(rows, prev, next) {
            Some(weight) => weight,
            None => v.weight(prev, next),
        },
        has_key(load_edges(v, rows).edges(prev), next) == (last_weight(rows, prev, next) is Some
            || has_key(v.edges(prev), next)),
    decreases rows.len(),
{
    if rows.len() > 0 {
        let before = load_edges(v, rows.drop_last());
        let row = rows.last();
        lemma_loaded_weight(v, rows.drop_last(), prev, next);
        before.lemma_set_weight(row.0, row.1, row.2);
        before.lemma_edges(row.0);
        lemma_put(before.edges(row.0), row.1, row.2);
        let after = before.set_weight(row.0, row.1, row.2);
        if row.0 != prev {
            assert(after.edges(prev) == before.edges(prev));
        }
    }
}

/// After loading, a start weight is that of the last row for its item, and
/// zero where there is no row for it.
pub proof fn lemma_loaded_start(rows: Seq<(Key, int)>, item: Key)
    ensures
        distinct_keys(load_starters(Seq::empty(), rows)),
        lookup(load_starters(Seq::empty(), rows), item) == last_start(rows, item),
    decreases rows.len(),
{
    if rows.len() > 0 {
        lemma_loaded_start(rows.drop_last(), item);
        lemma_put(load_starters(Seq::empty(), rows.drop_last()), rows.last().0, rows.last().1);
    }
}

/// The rows of a table of edges in specifications.
pub open spec fn association_rows(rows: Seq<Association>) -> Seq<(Key, Key, int)> {
    Seq::new(rows.len(), |i: int| rows[i]@)
}

/// The rows of a table of start weights in specifications.
pub open spec fn start_rows(rows: Seq<Start>) -> Seq<(Key, int)> {
    Seq::new(rows.len(), |i: int| rows[i]@)
}

impl Chain {
    /// The edges of the graph as rows: item by item in the order in which the
    /// items first got an edge, and for each item edge by edge.
    pub fn associations(&self) -> (rows: Vec<Association>)
        requires
            self.wf(),
        ensures
            association_rows(rows@) == edge_rows(self@.assocs),
    {
        let mut rows: Vec<Association> = Vec::new();
        let count = self.len();
        let mut i: usize = 0;
        proof {
            assert(self@.assocs.take(0) =~= Seq::<(Key, Assoc<int>)>::empty());
            assert(association_rows(rows@) =~= edge_rows(self@.assocs.take(0)));
        }
        while i < count
            invariant
                self.wf(),
                count == self@.assocs.len(),
                i <= count,
                association_rows(rows@) == edge_rows(self@.assocs.take(i as int)),
            decreases count - i,
        {
            let item = self.key_at(i);
            let edges = self.edges_at(i);
            let width = edges.len();
            let ghost done = association_rows(rows@);
            let mut j: usize = 0;
            proof {
                assert(done + rows_of(item@, edges@).take(0) =~= done);
            }
            while j < width
                invariant
                    width == edges@.len(),
                    j <= width,
                    association_rows(rows@) == done + rows_of(item@, edges@).take(j as int),
                decreases width - j,
            {
                let row = Association {
                    prev_song: item.clone(),
                    next_song: edges.key_at(j).clone(),
                    weight: edges.weight_at(j),
                };
                proof {
                    assert(row@ == rows_of(item@, edges@)[j as int]);
                    assert(association_rows(rows@.push(row)) =~= association_rows(rows@).push(
                        row@,
                    ));
                    assert(rows_of(item@, edges@).take(j + 1) =~= rows_of(item@, edges@).take(
                        j as int,
                    ).push(row@));
                    assert(done + rows_of(item@, edges@).take(j + 1) =~= (done + rows_of(
                        item@,
                        edges@,
                    ).take(j as int)).push(row@));
                }
                rows.push(row);
                j += 1;
            }
            proof {
                assert(rows_of(item@, edges@).take(width as int) =~= rows_of(item@, edges@));
                let upto = self@.assocs.take(i + 1);
                assert(upto.drop_last() =~= self@.assocs.take(i as int));
                assert(upto.last() == self@.assocs[i as int]);
            }
            i += 1;
        }
        proof {
            assert(self@.assocs.take(count as int) =~= self@.assocs);
        }
        rows
    }

    /// The start weights as rows, in their order.
    pub fn starters(&self) -> (rows: Vec<Start>)
        requires
            self.wf(),
        ensures
            start_rows(rows@) == self@.start,
    {
        let start = self.possible_start();
        let mut rows: Vec<Start> = Vec::new();
        let count = start.len();
        let mut i: usize = 0;
        while i < count
            invariant
                count == start@.len(),
                i <= count,
                start_rows(rows@) == start@.take(i as int),
            decreases count - i,
        {
            let row = Start { song: start.key_at(i).clone(), weight: start.weight_at(i) };
            proof {
                assert(start_rows(rows@.push(row)) =~= start_rows(rows@).push(row@));
                assert(start@.take(i + 1) =~= start@.take(i as int).push(row@));
            }
            rows.push(row);
            i += 1;
        }
        proof {
            assert(start@.take(count as int) =~= start@);
        }
        rows
    }

    /// The graph that the rows of the two tables stand for. Of two rows for one
    /// edge, or for one start weight, the later one counts.
    pub fn load(edges: &Vec<Association>, starters: &Vec<Start>) -> (chain: Chain)
        ensures
            chain.wf(),
            chain@ == loaded(association_rows(edges@), start_rows(starters@)),
    {
        let mut chain = Chain::new();
        let mut i: usize = 0;
        proof {
            assert(association_rows(edges@).take(0) =~= Seq::<(Key, Key, int)>::empty());
        }
        while i < edges.len()
            invariant
                chain.wf(),
                i <= edges@.len(),
                chain@ == load_edges(ChainView::empty(), association_rows(edges@).take(i as int)),
            decreases edges@.len() - i,
        {
            let row = &edges[i];
            proof {
                let upto = association_rows(edges@).take(i + 1);
                assert(upto.drop_last() =~= association_rows(edges@).take(i as int));
                assert(upto.last() == row@);
            }
            chain.set_weight(row.prev_song.as_str(), row.next_song.as_str(), row.weight);
            i += 1;
        }
        proof {
            assert(association_rows(edges@).take(edges@.len() as int) =~= association_rows(edges@));
            lemma_load_edges(ChainView::empty(), association_rows(edges@));
            assert(start_rows(starters@).take(0) =~= Seq::<(Key, int)>::empty());
        }
        let ghost assocs = chain@.assocs;
        let mut j: usize = 0;
        while j < starters.len()
            invariant
                chain.wf(),
                j <= starters@.len(),
                chain@.assocs == assocs,
                chain@.start == load_starters(Seq::empty(), start_rows(starters@).take(j as int)),
            decreases starters@.len() - j,
        {
            let row = &starters[j];
            proof {
                let upto = start_rows(starters@).take(j + 1);
                assert(upto.drop_last() =~= start_rows(starters@).take(j as int));
                assert(upto.last() == row@);
            }
            chain.set_start(row.song.as_str(), row.weight);
            j += 1;
        }
        proof {
            assert(start_rows(starters@).take(starters@.len() as int) =~= start_rows(starters@));
        }
        chain
    }
}

} // verus!
