//! Random choice among the items of a weight map: the roulette wheel, on which an
//! item's share is its weight, and the uniform choice of a key.
//!
//! Each choice comes in two forms. The one that ends in `_at` takes the draw as a
//! number and is a function of its arguments. The other takes the draw from a
//! random number generator and says what holds of every draw.

use crate::assoc::Assoc;
use crate::weights::WeightMap;
use rand::rngs::StdRng;
use rand::Rng;
use vstd::prelude::*;

verus! {

/// `rand::rngs::StdRng`, the random number generator that the draws are taken
/// from. Nothing is said of its state: it is handed on to `gen_range`.
#[verifier::external_type_specification]
#[verifier::external_body]
pub struct ExStdRng(StdRng);

/// The share of a weight on the wheel: the weight itself, and nothing for a
/// weight below zero.
pub open spec fn floor_weight(w: int) -> int {
    if w > 0 {
        w
    } else {
        0
    }
}

/// The size of the wheel: the sum of the shares of all weights of `e`.
pub open spec fn total_weight(e: Assoc<int>) -> int
    decreases e.len(),
{
    if e.len() == 0 {
        0
    } else {
        total_weight(e.drop_last()) + floor_weight(e.last().1)
    }
}

/// The draw `r` stops the wheel at place `i`: the shares before `i` sum to at
/// most `r`, and with the share of `i` they sum to more.
pub open spec fn wheel_stops(e: Assoc<int>, r: int, i: int) -> bool {
    &&& 0 <= i < e.len()
    &&& total_weight(e.take(i)) <= r < total_weight(e.take(i + 1))
}

/// A draw beyond the wheel counts as the last draw on it.
pub open spec fn clamped_draw(e: Assoc<int>, r: int) -> int {
    if r < total_weight(e) {
        r
    } else {
        total_weight(e) - 1
    }
}

/// One more pair makes the wheel larger by that pair's share.
pub proof fn lemma_total_step(e: Assoc<int>, i: int)
    requires
        0 <= i < e.len(),
    ensures
        total_weight(e.take(i + 1)) == total_weight(e.take(i)) + floor_weight(e[i].1),
{
    assert(e.take(i + 1).drop_last() =~= e.take(i));
}

/// The sum of the shares does not shrink when more pairs are taken.
proof fn lemma_total_steps(e: Assoc<int>, i: int, j: int)
    requires
        0 <= i <= j <= e.len(),
    ensures
        total_weight(e.take(i)) <= total_weight(e.take(j)),
    decreases j - i,
{
    if i < j {
        lemma_total_step(e, j - 1);
        lemma_total_steps(e, i, j - 1);
    }
}

/// The sum of the shares grows with the number of pairs taken, from zero to the
/// size of the wheel.
pub proof fn lemma_total_grows(e: Assoc<int>, i: int, j: int)
    requires
        0 <= i <= j <= e.len(),
    ensures
        0 <= total_weight(e.take(i)) <= total_weight(e.take(j)) <= total_weight(e),
{
    assert(e.take(e.len() as int) =~= e);
    lemma_total_steps(e, 0, i);
    lemma_total_steps(e, i, j);
    lemma_total_steps(e, j, e.len() as int);
}

/// The wheel is empty exactly when no weight is above zero.
pub proof fn lemma_total_zero(e: Assoc<int>)
    ensures
        total_weight(e) >= 0,
        total_weight(e) == 0 <==> forall|i: int| 0 <= i < e.len() ==> (#[trigger] e[i]).1 <= 0,
    decreases e.len(),
{
    if e.len() > 0 {
        let rest = e.drop_last();
        lemma_total_zero(rest);
        if total_weight(e) == 0 {
            assert forall|i: int| 0 <= i < e.len() implies (#[trigger] e[i]).1 <= 0 by {
                if i < rest.len() {
                    assert(rest[i] == e[i]);
                }
            }
        }
        if forall|i: int| 0 <= i < e.len() ==> (#[trigger] e[i]).1 <= 0 {
            assert forall|i: int| 0 <= i < rest.len() implies (#[trigger] rest[i]).1 <= 0 by {}
        }
    }
}

/// A draw stops the wheel at no more than one place.
pub proof fn lemma_wheel_stops_once(e: Assoc<int>, r: int, i: int, j: int)
    requires
        wheel_stops(e, r, i),
        wheel_stops(e, r, j),
    ensures
        i == j,
{
    if i < j {
        lemma_total_grows(e, i + 1, j);
    }
    if j < i {
        lemma_total_grows(e, j + 1, i);
    }
}

/// Every draw on the wheel stops it somewhere, at an item with a weight above zero.
pub proof fn lemma_wheel_stops_somewhere(e: Assoc<int>, r: int) -> (i: int)
    requires
        0 <= r < total_weight(e),
    ensures
        wheel_stops(e, r, i),
        e[i].1 > 0,
    decreases e.len(),
{
    let rest = e.drop_last();
    let last = e.len() - 1;
    assert(e.take(last + 1) =~= e);
    if r < total_weight(rest) {
        let i = lemma_wheel_stops_somewhere(rest, r);
        assert(rest.take(i) =~= e.take(i));
        assert(rest.take(i + 1) =~= e.take(i + 1));
        i
    } else {
        last
    }
}

/// The draws that stop the wheel at place `i` are as many as the share of `i`:
/// they are the numbers from the sum of the shares before `i` up to, and without,
/// that sum plus the share of `i`. So among the draws on the wheel, taken with
/// equal chance, an item comes with a chance of its share by the wheel's size.
pub proof fn lemma_share_of_draws(e: Assoc<int>, i: int, r: int)
    requires
        0 <= i < e.len(),
    ensures
        wheel_stops(e, r, i) <==> total_weight(e.take(i)) <= r < total_weight(e.take(i))
            + floor_weight(e[i].1),
        0 <= total_weight(e.take(i)),
        total_weight(e.take(i)) + floor_weight(e[i].1) <= total_weight(e),
{
    lemma_total_step(e, i);
    lemma_total_grows(e, i, i + 1);
}

/// `rand::Rng::gen_range` of a `StdRng`, on the half-open range from zero to
/// `bound`. The range must not be empty, or the call panics. What comes back lies
/// in the range; which number it is depends on the generator's state.
#[verifier::external_body]
fn draw_below(rng: &mut StdRng, bound: u128) -> (draw: u128)
    requires
        bound > 0,
    ensures
        draw < bound,
{
    rng.gen_range(0..bound)
}

/// The size of the wheel of `map`.
pub fn wheel_size(map: &WeightMap) -> (size: u128)
    requires
        map.wf(),
    ensures
        size == total_weight(map@),
{
    let count = map.len();
    let mut size: u128 = 0;
    let mut i: usize = 0;
    while i < count
        invariant
            map.wf(),
            count == map@.len(),
            i <= count,
            size == total_weight(map@.take(i as int)),
            size <= i * i32::MAX,
        decreases count - i,
    {
        let weight = map.weight_at(i);
        let share: u128 = if weight > 0 {
            weight as u128
        } else {
            0
        };
        proof {
            lemma_total_step(map@, i as int);
            assert(i * i32::MAX + i32::MAX == (i + 1) * i32::MAX) by (nonlinear_arith);
            assert((i + 1) * i32::MAX <= 0x1_0000_0000_0000_0000 * i32::MAX) by (nonlinear_arith)
                requires
                    i + 1 <= 0x1_0000_0000_0000_0000,
            ;
        }
        size = size + share;
        i += 1;
    }
    proof {
        assert(map@.take(count as int) =~= map@);
    }
    size
}

/// The item at which the draw `draw` stops the wheel of `map`. A draw beyond the
/// wheel counts as the last draw on it. There is no item where the wheel is empty:
/// where the map has no item, or no weight above zero.
pub fn roulette_wheel_at<'a>(map: &'a WeightMap, draw: u128) -> (chosen: Option<&'a String>)
    requires
        map.wf(),
    ensures
        match chosen {
            Some(key) => exists|i: int|
                #[trigger] wheel_stops(map@, clamped_draw(map@, draw as int), i) && map@[i].0
                    == key@,
            None => total_weight(map@) == 0,
        },
{
    let size = wheel_size(map);
    if size == 0 {
        return None;
    }
    let r = if draw < size {
        draw
    } else {
        size - 1
    };
    let count = map.len();
    let mut passed: u128 = 0;
    let mut i: usize = 0;
    while i < count
        invariant
            map.wf(),
            count == map@.len(),
            i <= count,
            size == total_weight(map@),
            r == clamped_draw(map@, draw as int),
            passed == total_weight(map@.take(i as int)),
            passed <= r < size,
        decreases count - i,
    {
        let weight = map.weight_at(i);
        let share: u128 = if weight > 0 {
            weight as u128
        } else {
            0
        };
        proof {
            lemma_total_step(map@, i as int);
            lemma_total_grows(map@, i as int, i + 1);
        }
        if r < passed + share {
            assert(wheel_stops(map@, r as int, i as int));
            return Some(map.key_at(i));
        }
        passed = passed + share;
        i += 1;
    }
    proof {
        assert(map@.take(count as int) =~= map@);
    }
    None
}

/// An item of `map`, chosen at random with a chance in proportion to its weight.
/// There is none exactly where no weight of the map is above zero. The item that
/// comes is one at which some draw on the wheel stops, so its weight is above zero.
pub fn roulette_wheel<'a>(map: &'a WeightMap, rng: &mut StdRng) -> (chosen: Option<&'a String>)
    requires
        map.wf(),
    ensures
        chosen is None <==> forall|i: int| 0 <= i < map@.len() ==> (#[trigger] map@[i]).1 <= 0,
        match chosen {
            Some(key) => exists|r: int, i: int|
                0 <= r < total_weight(map@) && #[trigger] wheel_stops(map@, r, i) && map@[i].0
                    == key@ && map@[i].1 > 0,
            None => total_weight(map@) == 0,
        },
{
    proof {
        lemma_total_zero(map@);
    }
    let size = wheel_size(map);
    if size == 0 {
        return None;
    }
    let draw = draw_below(rng, size);
    let chosen = roulette_wheel_at(map, draw);
    proof {
        let r = draw as int;
        let i = choose|i: int| #[trigger] wheel_stops(map@, r, i) && map@[i].0 == chosen.unwrap()@;
        let j = lemma_wheel_stops_somewhere(map@, r);
        lemma_wheel_stops_once(map@, r, i, j);
    }
    chosen
}

/// The key at place `draw` of `map`; a draw beyond the last place counts as the
/// last place. There is none where the map has no item.
pub fn random_key_at<'a>(map: &'a WeightMap, draw: u128) -> (chosen: Option<&'a String>)
    ensures
        match chosen {
            Some(key) => map@.len() > 0 && key@ == map@[if draw < map@.len() {
                draw as int
            } else {
                map@.len() - 1
            }].0,
            None => map@.len() == 0,
        },
{
    let count = map.len();
    if count == 0 {
        return None;
    }
    let place: usize = if draw < count as u128 {
        draw as usize
    } else {
        count - 1
    };
    Some(map.key_at(place))
}

/// A key of `map`, chosen at random with the same chance for each, whatever the
/// weights. There is none exactly where the map has no item.
pub fn random_key<'a>(map: &'a WeightMap, rng: &mut StdRng) -> (chosen: Option<&'a String>)
    ensures
        match chosen {
            Some(key) => exists|i: int| 0 <= i < map@.len() && (#[trigger] map@[i]).0 == key@,
            None => map@.len() == 0,
        },
{
    let count = map.len();
    if count == 0 {
        return None;
    }
    let draw = draw_below(rng, count as u128);
    let chosen = random_key_at(map, draw);
    chosen
}

} // verus!
