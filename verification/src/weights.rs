//! A map from items to integer weights that remembers the order in which its
//! items were first given a weight.

use crate::assoc::{distinct_keys, has_key, key_index, lemma_key_index, lemma_put, lookup, put, Assoc, Key};
use crate::text::str_eq;
use vstd::prelude::*;

verus! {

/// The weight that `e` gives to `k`: zero where `k` has none.
pub open spec fn weight_of(e: Assoc<int>, k: Key) -> int {
    match lookup(e, k) {
        Some(w) => w,
        None => 0,
    }
}

/// Weights by item, in the order in which the items were first seen.
#[derive(Debug, Clone)]
pub struct WeightMap {
    slots: Vec<(String, i32)>,
}

impl View for WeightMap {
    type V = Assoc<int>;

    closed spec fn view(&self) -> Assoc<int> {
        Seq::new(self.slots@.len(), |i: int| (self.slots@[i].0@, self.slots@[i].1 as int))
    }
}

impl WeightMap {
    /// The map's invariant: no item stands twice in it.
    pub open spec fn wf(&self) -> bool {
        distinct_keys(self@)
    }

    /// A map without items.
    pub fn new() -> (map: WeightMap)
        ensures
            map.wf(),
            map@ == Seq::<(Key, int)>::empty(),
    {
        let map = WeightMap { slots: Vec::new() };
        map
    }

    /// The number of items.
    pub fn len(&self) -> (n: usize)
        ensures
            n == self@.len(),
    {
        self.slots.len()
    }

    /// Whether the map has no item.
    pub fn is_empty(&self) -> (empty: bool)
        ensures
            empty == (self@.len() == 0),
    {
        self.slots.len() == 0
    }

    /// The place of `key`, if the map has it.
    pub fn position(&self, key: &str) -> (place: Option<usize>)
        requires
            self.wf(),
        ensures
            match place {
                Some(i) => has_key(self@, key@) && i == key_index(self@, key@),
                None => !has_key(self@, key@),
            },
    {
        let mut i: usize = 0;
        while i < self.slots.len()
            invariant
                self.wf(),
                i <= self.slots.len(),
                forall|j: int| 0 <= j < i ==> (#[trigger] self@[j]).0 != key@,
            decreases self.slots.len() - i,
        {
            if str_eq(self.slots[i].0.as_str(), key) {
                proof {
                    lemma_key_index(self@, i as int);
                }
                return Some(i);
            }
            i += 1;
        }
        None
    }

    /// The item at place `i`.
    pub fn key_at(&self, i: usize) -> (key: &String)
        requires
            i < self@.len(),
        ensures
            key@ == self@[i as int].0,
    {
        &self.slots[i].0
    }

    /// The weight at place `i`.
    pub fn weight_at(&self, i: usize) -> (weight: i32)
        requires
            i < self@.len(),
        ensures
            weight == self@[i as int].1,
    {
        self.slots[i].1
    }

    /// The weight of `key`, if the map has it.
    pub fn get(&self, key: &str) -> (weight: Option<i32>)
        requires
            self.wf(),
        ensures
            match weight {
                Some(w) => lookup(self@, key@) == Some(w as int),
                None => lookup(self@, key@) == None::<int>,
            },
    {
        match self.position(key) {
            Some(i) => Some(self.slots[i].1),
            None => None,
        }
    }

    /// The weight of `key`, zero where the map does not have it.
    pub fn weight(&self, key: &str) -> (weight: i32)
        requires
            self.wf(),
        ensures
            weight == weight_of(self@, key@),
    {
        match self.position(key) {
            Some(i) => self.slots[i].1,
            None => 0,
        }
    }

    /// Binds `key` to `weight`: in place where the map has the item, else at the end.
    pub fn set(&mut self, key: &str, weight: i32)
        requires
            old(self).wf(),
        ensures
            final(self).wf(),
            final(self)@ == put(old(self)@, key@, weight as int),
    {
        match self.position(key) {
            Some(i) => {
                self.slots[i].1 = weight;
            },
            None => {
                self.slots.push((key.to_owned(), weight));
            },
        }
        assert(self@ =~= put(old(self)@, key@, weight as int));
    }

    /// Whether adding `diff` to the weight of `key` gives a weight that the map can hold.
    pub fn accepts(&self, key: &str, diff: i32) -> (fits: bool)
        requires
            self.wf(),
        ensures
            fits == (i32::MIN <= weight_of(self@, key@) + diff <= i32::MAX),
    {
        self.weight(key).checked_add(diff).is_some()
    }

    /// Adds `diff` to the weight of `key`, which counts as zero where the map does
    /// not have the item yet.
    pub fn modify(&mut self, key: &str, diff: i32)
        requires
            old(self).wf(),
            i32::MIN <= weight_of(old(self)@, key@) + diff <= i32::MAX,
        ensures
            final(self).wf(),
            final(self)@ == put(old(self)@, key@, weight_of(old(self)@, key@) + diff),
    {
        let weight = self.weight(key);
        self.set(key, weight + diff);
    }
}

} // verus!
