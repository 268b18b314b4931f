//! The preference graph: for each item the weights of the items that may follow
//! it, and the weights of the items that may open a session.

use crate::assoc::{
    distinct_keys, has_key, key_index, lemma_key_index, lemma_put, lemma_without, lookup, put,
    without, Assoc, Key,
};
use crate::sampler::{roulette_wheel, roulette_wheel_at, total_weight, wheel_stops, clamped_draw};
use crate::text::str_eq;
use crate::weights::{weight_of, WeightMap};
use rand::rngs::StdRng;
use vstd::prelude::*;

verus! {

/// The graph in specifications: for each item that has edges going out, the
/// weights of those edges by the item they lead to, and the start weights.
pub struct ChainView {
    pub assocs: Assoc<Assoc<int>>,
    pub start: Assoc<int>,
}

impl ChainView {
    /// The graph without items.
    pub open spec fn empty() -> ChainView {
        ChainView { assocs: Seq::empty(), start: Seq::empty() }
    }

    /// No item stands twice in a list, and an item with edges has at least one.
    pub open spec fn keyed(self) -> bool {
        &&& distinct_keys(self.assocs)
        &&& forall|i: int|
            0 <= i < self.assocs.len() ==> {
                &&& distinct_keys((#[trigger] self.assocs[i]).1)
                &&& self.assocs[i].1.len() > 0
            }
        &&& distinct_keys(self.start)
    }

    /// The edges that go out of `prev`: none where the graph does not know the item.
    pub open spec fn edges(self, prev: Key) -> Assoc<int> {
        match lookup(self.assocs, prev) {
            Some(edges) => edges,
            None => Seq::empty(),
        }
    }

    /// The weight of the edge from `prev` to `next`: zero where there is none.
    pub open spec fn weight(self, prev: Key, next: Key) -> int {
        weight_of(self.edges(prev), next)
    }

    /// The weights among which the item after `prev` is chosen when a session may
    /// start anew: the edges that go out of `prev` where one of them has a weight
    /// above zero, else the start weights.
    pub open spec fn wheel_after(self, prev: Key) -> Assoc<int> {
        if total_weight(self.edges(prev)) > 0 {
            self.edges(prev)
        } else {
            self.start
        }
    }

    /// The graph after the weight of the edge from `prev` to `next` was set to
    /// `weight`.
    pub open spec fn set_weight(self, prev: Key, next: Key, weight: int) -> ChainView {
        ChainView {
            assocs: put(self.assocs, prev, put(self.edges(prev), next, weight)),
            start: self.start,
        }
    }

    /// The graph after `diff` was added to the weight of the edge from `prev` to
    /// `next`.
    pub open spec fn modify_weight(self, prev: Key, next: Key, diff: int) -> ChainView {
        self.set_weight(prev, next, self.weight(prev, next) + diff)
    }

    /// The graph after all edges that go out of `prev` were removed.
    pub open spec fn clear(self, prev: Key) -> ChainView {
        ChainView { assocs: without(self.assocs, prev), start: self.start }
    }

    /// The graph after `diff` was added to the start weight of `item`.
    pub open spec fn modify_start(self, item: Key, diff: int) -> ChainView {
        ChainView {
            assocs: self.assocs,
            start: put(self.start, item, weight_of(self.start, item) + diff),
        }
    }

    /// The edges that go out of an item are a list without a repeated key.
    pub proof fn lemma_edges(self, prev: Key)
        requires
            self.keyed(),
        ensures
            distinct_keys(self.edges(prev)),
            has_key(self.assocs, prev) ==> self.edges(prev).len() > 0,
            !has_key(self.assocs, prev) ==> self.edges(prev).len() == 0,
    {
        if has_key(self.assocs, prev) {
            let i = key_index(self.assocs, prev);
            assert(self.edges(prev) == self.assocs[i].1);
        }
    }

    /// Setting the weight of an edge gives that edge the weight, creates the edge
    /// where it was not there, and changes no other edge and no start weight.
    pub proof fn lemma_set_weight(self, prev: Key, next: Key, weight: int)
        requires
            self.keyed(),
        ensures
            self.set_weight(prev, next, weight).keyed(),
            self.set_weight(prev, next, weight).edges(prev) == put(self.edges(prev), next, weight),
            has_key(self.set_weight(prev, next, weight).edges(prev), next),
            self.set_weight(prev, next, weight).weight(prev, next) == weight,
            forall|p: Key, n: Key|
                p != prev || n != next ==> #[trigger] self.set_weight(prev, next, weight).weight(
                    p,
                    n,
                ) == self.weight(p, n),
            forall|p: Key|
                p != prev ==> #[trigger] self.set_weight(prev, next, weight).edges(p) == self.edges(
                    p,
                ),
            self.set_weight(prev, next, weight).start == self.start,
    {
        let after = self.set_weight(prev, next, weight);
        let edges = put(self.edges(prev), next, weight);
        self.lemma_edges(prev);
        lemma_put(self.edges(prev), next, weight);
        lemma_put(self.assocs, prev, edges);
        assert(after.edges(prev) == edges);
        assert forall|i: int| 0 <= i < after.assocs.len() implies distinct_keys(
            (#[trigger] after.assocs[i]).1,
        ) && after.assocs[i].1.len() > 0 by {
            if has_key(self.assocs, prev) {
                if i != key_index(self.assocs, prev) {
                    assert(after.assocs[i] == self.assocs[i]);
                }
            } else {
                if i < self.assocs.len() {
                    assert(after.assocs[i] == self.assocs[i]);
                }
            }
        }
        assert forall|p: Key| p != prev implies #[trigger] after.edges(p) == self.edges(p) by {
            assert(lookup(after.assocs, p) == lookup(self.assocs, p));
        }
        assert forall|p: Key, n: Key| p != prev || n != next implies #[trigger] after.weight(p, n)
            == self.weight(p, n) by {
            if p != prev {
                assert(after.edges(p) == self.edges(p));
            } else {
                assert(lookup(edges, n) == lookup(self.edges(prev), n));
            }
        }
    }

    /// Adding to the weight of an edge changes that weight by what was added,
    /// creates the edge where it was not there, and changes no other edge and no
    /// start weight.
    pub proof fn lemma_modify_weight(self, prev: Key, next: Key, diff: int)
        requires
            self.keyed(),
        ensures
            self.modify_weight(prev, next, diff).keyed(),
            has_key(self.modify_weight(prev, next, diff).edges(prev), next),
            self.modify_weight(prev, next, diff).weight(prev, next) == self.weight(prev, next)
                + diff,
            forall|p: Key, n: Key|
                p != prev || n != next ==> #[trigger] self.modify_weight(prev, next, diff).weight(
                    p,
                    n,
                ) == self.weight(p, n),
            self.modify_weight(prev, next, diff).start == self.start,
    {
        self.lemma_set_weight(prev, next, self.weight(prev, next) + diff);
    }

    /// After the edges of an item were cleared the graph knows no edge that goes
    /// out of it, however many there were, and so none to choose from. The edges
    /// of every other item, those that lead to the cleared item among them, and
    /// the start weights are as before.
    pub proof fn lemma_clear(self, prev: Key)
        requires
            self.keyed(),
        ensures
            self.clear(prev).keyed(),
            lookup(self.clear(prev).assocs, prev) == None::<Assoc<int>>,
            self.clear(prev).edges(prev) == Seq::<(Key, int)>::empty(),
            total_weight(self.clear(prev).edges(prev)) == 0,
            forall|n: Key| #[trigger] self.clear(prev).weight(prev, n) == 0,
            forall|p: Key| p != prev ==> #[trigger] self.clear(prev).edges(p) == self.edges(p),
            self.clear(prev).start == self.start,
    {
        let after = self.clear(prev);
        lemma_without(self.assocs, prev);
        assert forall|i: int| 0 <= i < after.assocs.len() implies distinct_keys(
            (#[trigger] after.assocs[i]).1,
        ) && after.assocs[i].1.len() > 0 by {
            if has_key(self.assocs, prev) {
                let at = key_index(self.assocs, prev);
                let from = if i < at {
                    i
                } else {
                    i + 1
                };
                assert(after.assocs[i] == self.assocs[from]);
            }
        }
        assert forall|n: Key| #[trigger] after.weight(prev, n) == 0 by {
            assert(lookup(Seq::<(Key, int)>::empty(), n) == None::<int>);
        }
        assert forall|p: Key| p != prev implies #[trigger] after.edges(p) == self.edges(p) by {
            assert(lookup(after.assocs, p) == lookup(self.assocs, p));
        }
    }

    /// The graph after the changes of `updates` were made one after the other.
    /// A change is the item an edge comes from, the item it leads to, and what
    /// is added to its weight.
    pub open spec fn modify_all(self, updates: Seq<(Key, Key, int)>) -> ChainView
        decreases updates.len(),
    {
        if updates.len() == 0 {
            self
        } else {
            self.modify_all(updates.drop_last()).modify_weight(
                updates.last().0,
                updates.last().1,
                updates.last().2,
            )
        }
    }

    /// What the changes of `updates` add to the edge from `prev` to `next`, all
    /// together.
    pub open spec fn sum_of_diffs(updates: Seq<(Key, Key, int)>, prev: Key, next: Key) -> int
        decreases updates.len(),
    {
        if updates.len() == 0 {
            0
        } else {
            Self::sum_of_diffs(updates.drop_last(), prev, next) + if updates.last().0 == prev
                && updates.last().1 == next {
                updates.last().2
            } else {
                0
            }
        }
    }

    /// After any number of changes with no clearing in between, the weight of an
    /// edge is what it was before plus the sum of what the changes added to that
    /// edge. In a graph that was empty before, it is that sum.
    pub proof fn lemma_modify_all(self, updates: Seq<(Key, Key, int)>, prev: Key, next: Key)
        requires
            self.keyed(),
        ensures
            self.modify_all(updates).keyed(),
            self.modify_all(updates).weight(prev, next) == self.weight(prev, next)
                + Self::sum_of_diffs(updates, prev, next),
            ChainView::empty().weight(prev, next) == 0,
        decreases updates.len(),
    {
        assert(lookup(Seq::<(Key, int)>::empty(), next) == None::<int>);
        if updates.len() > 0 {
            let before = self.modify_all(updates.drop_last());
            self.lemma_modify_all(updates.drop_last(), prev, next);
            before.lemma_modify_weight(updates.last().0, updates.last().1, updates.last().2);
        }
    }

    /// The same change, `count` times.
    pub open spec fn repeated(prev: Key, next: Key, diff: int, count: nat) -> Seq<
        (Key, Key, int),
    > {
        Seq::new(count, |i: int| (prev, next, diff))
    }

    /// When the same change is made `count` times, by whichever callers and in
    /// whichever turn, as long as one is made after the other, the weight of the
    /// edge has grown by `count` times the change: no change is lost.
    pub proof fn lemma_repeated(self, prev: Key, next: Key, diff: int, count: nat)
        requires
            self.keyed(),
        ensures
            self.modify_all(Self::repeated(prev, next, diff, count)).weight(prev, next)
                == self.weight(prev, next) + count * diff,
    {
        self.lemma_modify_all(Self::repeated(prev, next, diff, count), prev, next);
        Self::lemma_sum_repeated(prev, next, diff, count);
    }

    /// The sum of what `count` equal changes add.
    proof fn lemma_sum_repeated(prev: Key, next: Key, diff: int, count: nat)
        ensures
            Self::sum_of_diffs(Self::repeated(prev, next, diff, count), prev, next) == count
                * diff,
        decreases count,
    {
        let updates = Self::repeated(prev, next, diff, count);
        if count > 0 {
            assert(updates.drop_last() =~= Self::repeated(prev, next, diff, (count - 1) as nat));
            Self::lemma_sum_repeated(prev, next, diff, (count - 1) as nat);
            assert((count - 1) * diff + diff == count * diff) by (nonlinear_arith);
        } else {
            assert(count * diff == 0) by (nonlinear_arith)
                requires
                    count == 0,
            ;
        }
    }
}

/// The preference graph.
#[derive(Debug, Clone)]
pub struct Chain {
    nodes: Vec<(String, WeightMap)>,
    start: WeightMap,
}

impl View for Chain {
    type V = ChainView;

    closed spec fn view(&self) -> ChainView {
        ChainView {
            assocs: Seq::new(self.nodes@.len(), |i: int| (self.nodes@[i].0@, self.nodes@[i].1@)),
            start: self.start@,
        }
    }
}

impl Chain {
    /// The graph's invariant.
    pub open spec fn wf(&self) -> bool {
        self@.keyed()
    }

    /// The graph without items.
    pub fn new() -> (chain: Chain)
        ensures
            chain.wf(),
            chain@ == ChainView::empty(),
    {
        let chain = Chain { nodes: Vec::new(), start: WeightMap::new() };
        assert(chain@.assocs =~= Seq::<(Key, Assoc<int>)>::empty());
        chain
    }

    /// The place of `item` among the items with edges going out.
    fn position(&self, item: &str) -> (place: Option<usize>)
        requires
            self.wf(),
        ensures
            match place {
                Some(i) => has_key(self@.assocs, item@) && i == key_index(self@.assocs, item@)
                    && i < self.nodes@.len(),
                None => !has_key(self@.assocs, item@),
            },
    {
        let mut i: usize = 0;
        while i < self.nodes.len()
            invariant
                self.wf(),
                i <= self.nodes.len(),
                forall|j: int| 0 <= j < i ==> (#[trigger] self@.assocs[j]).0 != item@,
            decreases self.nodes.len() - i,
        {
            if str_eq(self.nodes[i].0.as_str(), item) {
                proof {
                    assert(self@.assocs[i as int].0 == item@);
                    lemma_key_index(self@.assocs, i as int);
                }
                return Some(i);
            }
            i += 1;
        }
        None
    }

    /// The weights of the items that may follow `current`, if any edge goes out of it.
    pub fn possible_next(&self, current: &str) -> (edges: Option<&WeightMap>)
        requires
            self.wf(),
        ensures
            match edges {
                Some(map) => map.wf() && map@.len() > 0 && lookup(self@.assocs, current@) == Some(
                    map@,
                ),
                None => lookup(self@.assocs, current@) == None::<Assoc<int>>,
            },
    {
        match self.position(current) {
            Some(i) => {
                assert(self@.assocs[i as int].1 == self.nodes@[i as int].1@);
                Some(&self.nodes[i].1)
            },
            None => None,
        }
    }

    /// The weight of the edge from `prev` to `next`, zero where there is none.
    pub fn weight(&self, prev: &str, next: &str) -> (weight: i32)
        requires
            self.wf(),
        ensures
            weight == self@.weight(prev@, next@),
    {
        match self.possible_next(prev) {
            Some(map) => map.weight(next),
            None => {
                assert(lookup(Seq::<(Key, int)>::empty(), next@) == None::<int>);
                0
            },
        }
    }

    /// Whether `diff` can be added to the weight of the edge from `prev` to `next`
    /// without leaving the range of an `i32`.
    pub fn accepts(&self, prev: &str, next: &str, diff: i32) -> (fits: bool)
        requires
            self.wf(),
        ensures
            fits == (i32::MIN <= self@.weight(prev@, next@) + diff <= i32::MAX),
    {
        self.weight(prev, next).checked_add(diff).is_some()
    }

    /// The number of items that have edges going out.
    pub fn len(&self) -> (count: usize)
        ensures
            count == self@.assocs.len(),
    {
        self.nodes.len()
    }

    /// The item at place `i` among those that have edges going out.
    pub fn key_at(&self, i: usize) -> (item: &String)
        requires
            i < self@.assocs.len(),
        ensures
            item@ == self@.assocs[i as int].0,
    {
        &self.nodes[i].0
    }

    /// The edges that go out of the item at place `i`.
    pub fn edges_at(&self, i: usize) -> (edges: &WeightMap)
        requires
            self.wf(),
            i < self@.assocs.len(),
        ensures
            edges.wf(),
            edges@ == self@.assocs[i as int].1,
    {
        assert(self@.assocs[i as int].1 == self.nodes@[i as int].1@);
        &self.nodes[i].1
    }

    /// Sets the weight of the edge from `prev` to `next`, and creates the edge
    /// where it is not there yet.
    pub fn set_weight(&mut self, prev: &str, next: &str, weight: i32)
        requires
            old(self).wf(),
        ensures
            final(self).wf(),
            final(self)@ == old(self)@.set_weight(prev@, next@, weight as int),
    {
        let ghost before = self@;
        let ghost edges = before.edges(prev@);
        let ghost after = put(edges, next@, weight as int);
        proof {
            lemma_put(before.assocs, prev@, after);
            before.lemma_set_weight(prev@, next@, weight as int);
        }
        match self.position(prev) {
            Some(i) => {
                assert(before.assocs[i as int].1 == self.nodes@[i as int].1@);
                self.nodes[i].1.set(next, weight);
                assert(self.nodes@[i as int].1@ == after);
            },
            None => {
                let mut map = WeightMap::new();
                map.set(next, weight);
                self.nodes.push((prev.to_owned(), map));
            },
        }
        assert(self@.assocs =~= put(before.assocs, prev@, after));
    }

    /// Adds `diff` to the weight of the edge from `prev` to `next`. An edge that
    /// is not there yet counts with weight zero and is created.
    pub fn modify_weight(&mut self, prev: &str, next: &str, diff: i32)
        requires
            old(self).wf(),
            i32::MIN <= old(self)@.weight(prev@, next@) + diff <= i32::MAX,
        ensures
            final(self).wf(),
            final(self)@ == old(self)@.modify_weight(prev@, next@, diff as int),
            final(self)@.weight(prev@, next@) == old(self)@.weight(prev@, next@) + diff,
    {
        proof {
            self@.lemma_modify_weight(prev@, next@, diff as int);
        }
        let weight = self.weight(prev, next);
        self.set_weight(prev, next, weight + diff);
    }

    /// Records that `next` was played after `prev`: the weight of that edge grows
    /// by one.
    pub fn associate(&mut self, prev: &str, next: &str)
        requires
            old(self).wf(),
            i32::MIN <= old(self)@.weight(prev@, next@) + 1 <= i32::MAX,
        ensures
            final(self).wf(),
            final(self)@ == old(self)@.modify_weight(prev@, next@, 1),
    {
        self.modify_weight(prev, next, 1);
    }

    /// Removes all edges that go out of `item`; those that lead to it stay. An
    /// item that the graph does not know is left alone.
    pub fn clear(&mut self, item: &str)
        requires
            old(self).wf(),
        ensures
            final(self).wf(),
            final(self)@ == old(self)@.clear(item@),
            lookup(final(self)@.assocs, item@) == None::<Assoc<int>>,
    {
        let ghost before = self@;
        proof {
            lemma_without(before.assocs, item@);
            before.lemma_clear(item@);
        }
        match self.position(item) {
            Some(i) => {
                self.nodes.remove(i);
                assert(self@.assocs =~= without(before.assocs, item@));
            },
            None => {},
        }
    }

    /// The start weights.
    pub fn possible_start(&self) -> (map: &WeightMap)
        requires
            self.wf(),
        ensures
            map.wf(),
            map@ == self@.start,
    {
        &self.start
    }

    /// Whether `diff` can be added to the start weight of `item` without leaving
    /// the range of an `i32`.
    pub fn accepts_start(&self, item: &str, diff: i32) -> (fits: bool)
        requires
            self.wf(),
        ensures
            fits == (i32::MIN <= weight_of(self@.start, item@) + diff <= i32::MAX),
    {
        self.start.accepts(item, diff)
    }

    /// Adds `diff` to the start weight of `item`, which counts as zero where the
    /// item has none yet.
    pub fn modify_start(&mut self, item: &str, diff: i32)
        requires
            old(self).wf(),
            i32::MIN <= weight_of(old(self)@.start, item@) + diff <= i32::MAX,
        ensures
            final(self).wf(),
            final(self)@ == old(self)@.modify_start(item@, diff as int),
    {
        self.start.modify(item, diff);
        assert(self@.assocs =~= old(self)@.assocs);
    }

    /// Sets the start weight of `item`.
    pub fn set_start(&mut self, item: &str, weight: i32)
        requires
            old(self).wf(),
        ensures
            final(self).wf(),
            final(self)@ == (ChainView {
                assocs: old(self)@.assocs,
                start: put(old(self)@.start, item@, weight as int),
            }),
    {
        self.start.set(item, weight);
        assert(self@.assocs =~= old(self)@.assocs);
    }

    /// The item that opens a session when the draw on the wheel of the start
    /// weights is `draw`.
    pub fn start_at(&self, draw: u128) -> (chosen: Option<&String>)
        requires
            self.wf(),
        ensures
            match chosen {
                Some(key) => exists|i: int|
                    #[trigger] wheel_stops(self@.start, clamped_draw(self@.start, draw as int), i)
                        && self@.start[i].0 == key@,
                None => total_weight(self@.start) == 0,
            },
    {
        roulette_wheel_at(&self.start, draw)
    }

    /// An item to open a session with, chosen at random by its start weight.
    /// There is none exactly where no start weight is above zero.
    pub fn start(&self, rng: &mut StdRng) -> (chosen: Option<&String>)
        requires
            self.wf(),
        ensures
            chosen is None <==> forall|i: int|
                0 <= i < self@.start.len() ==> (#[trigger] self@.start[i]).1 <= 0,
            match chosen {
                Some(key) => exists|r: int, i: int|
                    0 <= r < total_weight(self@.start) && #[trigger] wheel_stops(self@.start, r, i)
                        && self@.start[i].0 == key@ && self@.start[i].1 > 0,
                None => total_weight(self@.start) == 0,
            },
    {
        roulette_wheel(&self.start, rng)
    }

    /// The item that follows `current` when the draw on the wheel of its edges is
    /// `draw`.
    pub fn next_at(&self, current: &str, draw: u128) -> (chosen: Option<&String>)
        requires
            self.wf(),
        ensures
            match chosen {
                Some(key) => exists|i: int|
                    #[trigger] wheel_stops(
                        self@.edges(current@),
                        clamped_draw(self@.edges(current@), draw as int),
                        i,
                    ) && self@.edges(current@)[i].0 == key@,
                None => total_weight(self@.edges(current@)) == 0,
            },
    {
        match self.possible_next(current) {
            Some(map) => {
                assert(self@.edges(current@) == map@);
                roulette_wheel_at(map, draw)
            },
            None => {
                assert(self@.edges(current@) == Seq::<(Key, int)>::empty());
                None
            },
        }
    }

    /// An item to play after `current`, chosen at random by the weight of the
    /// edge that leads to it. There is none exactly where no edge goes out of
    /// `current` with a weight above zero.
    pub fn next(&self, current: &str, rng: &mut StdRng) -> (chosen: Option<&String>)
        requires
            self.wf(),
        ensures
            chosen is None <==> forall|i: int|
                0 <= i < self@.edges(current@).len() ==> (#[trigger] self@.edges(current@)[i]).1
                    <= 0,
            match chosen {
                Some(key) => exists|r: int, i: int|
                    0 <= r < total_weight(self@.edges(current@)) && #[trigger] wheel_stops(
                        self@.edges(current@),
                        r,
                        i,
                    ) && self@.edges(current@)[i].0 == key@ && self@.edges(current@)[i].1 > 0,
                None => total_weight(self@.edges(current@)) == 0,
            },
    {
        match self.possible_next(current) {
            Some(map) => {
                assert(self@.edges(current@) == map@);
                roulette_wheel(map, rng)
            },
            None => {
                assert(self@.edges(current@) == Seq::<(Key, int)>::empty());
                None
            },
        }
    }

    /// An item to play after `current` as `next` gives it, and where that gives
    /// none, an item to start anew with as `start` gives it.
    pub fn next_or_restart(&self, current: &str, rng: &mut StdRng) -> (chosen: Option<&String>)
        requires
            self.wf(),
        ensures
            chosen is None <==> total_weight(self@.edges(current@)) == 0 && total_weight(
                self@.start,
            ) == 0,
            match chosen {
                Some(key) => exists|r: int, i: int|
                    0 <= r < total_weight(self@.wheel_after(current@)) && #[trigger] wheel_stops(
                        self@.wheel_after(current@),
                        r,
                        i,
                    ) && self@.wheel_after(current@)[i].0 == key@ && self@.wheel_after(
                        current@,
                    )[i].1 > 0,
                None => true,
            },
    {
        match self.next(current, rng) {
            Some(key) => {
                assert(self@.wheel_after(current@) == self@.edges(current@));
                Some(key)
            },
            None => {
                assert(self@.wheel_after(current@) == self@.start);
                self.start(rng)
            },
        }
    }
}

} // verus!
