use markov_music::sampler::{random_key, random_key_at, roulette_wheel, roulette_wheel_at, wheel_size};
use markov_music::weights::WeightMap;
use rand::rngs::StdRng;
use rand::SeedableRng;

fn map_of(pairs: &[(&str, i32)]) -> WeightMap {
    let mut map = WeightMap::new();
    for (k, w) in pairs.iter() {
        map.set(k, *w);
    }
    map
}

#[test]
fn three_to_one_comes_out_at_three_quarters() {
    let map = map_of(&[("A", 3), ("B", 1)]);
    let mut rng = StdRng::seed_from_u64(2024);
    let n = 20000;
    let mut a = 0;
    for _ in 0..n {
        if roulette_wheel(&map, &mut rng).map(|s| s.as_str()) == Some("A") {
            a += 1;
        }
    }
    assert!(a * 100 > n * 72, "A came {} times of {}", a, n);
    assert!(a * 100 < n * 78, "A came {} times of {}", a, n);
}

#[test]
fn the_wheel_reaches_every_item_with_a_weight_above_zero() {
    let map = map_of(&[("first", 1), ("none", 0), ("below", -5), ("last", 1)]);
    let mut rng = StdRng::seed_from_u64(9);
    let mut first = 0;
    let mut last = 0;
    for _ in 0..400 {
        match roulette_wheel(&map, &mut rng).map(|s| s.as_str()) {
            Some("first") => first += 1,
            Some("last") => last += 1,
            other => panic!("unexpected choice {:?}", other),
        }
    }
    assert!(first > 100, "first came {} times", first);
    assert!(last > 100, "last came {} times", last);
}

#[test]
fn wheel_size_floors_weights_at_zero() {
    assert_eq!(wheel_size(&WeightMap::new()), 0);
    assert_eq!(wheel_size(&map_of(&[("a", 3), ("b", 1)])), 4);
    assert_eq!(wheel_size(&map_of(&[("a", -3), ("b", 0)])), 0);
    assert_eq!(wheel_size(&map_of(&[("a", -3), ("b", 5), ("c", -1)])), 5);
    assert_eq!(
        wheel_size(&map_of(&[("a", i32::MAX), ("b", i32::MAX), ("c", i32::MAX)])),
        3 * (i32::MAX as u128)
    );
}

#[test]
fn roulette_wheel_is_none_on_an_empty_wheel() {
    let mut rng = StdRng::seed_from_u64(0);
    assert_eq!(roulette_wheel(&WeightMap::new(), &mut rng), None);
    assert_eq!(roulette_wheel(&map_of(&[("a", 0), ("b", -1)]), &mut rng), None);
    assert_eq!(roulette_wheel_at(&WeightMap::new(), 0), None);
    assert_eq!(roulette_wheel_at(&map_of(&[("a", 0), ("b", -1)]), 0), None);
}

#[test]
fn roulette_wheel_at_gives_each_item_its_share_of_the_draws() {
    let map = map_of(&[("a", 2), ("skip", 0), ("b", 3), ("neg", -7), ("c", 1)]);
    let expected = ["a", "a", "b", "b", "b", "c"];
    for (draw, want) in expected.iter().enumerate() {
        assert_eq!(roulette_wheel_at(&map, draw as u128).map(|s| s.as_str()), Some(*want));
    }
    assert_eq!(roulette_wheel_at(&map, 6).map(|s| s.as_str()), Some("c"));
}

#[test]
fn a_draw_beyond_the_wheel_stops_at_the_last_share() {
    let map = map_of(&[("a", 2), ("b", 1), ("tail", 0)]);
    assert_eq!(roulette_wheel_at(&map, 3).map(|s| s.as_str()), Some("b"));
    assert_eq!(roulette_wheel_at(&map, u128::MAX).map(|s| s.as_str()), Some("b"));
}

#[test]
fn random_key_ignores_the_weights() {
    let map = map_of(&[("a", 0), ("b", -1), ("c", 1000)]);
    let mut rng = StdRng::seed_from_u64(77);
    let mut seen = [0usize; 3];
    for _ in 0..3000 {
        match random_key(&map, &mut rng).map(|s| s.as_str()) {
            Some("a") => seen[0] += 1,
            Some("b") => seen[1] += 1,
            Some("c") => seen[2] += 1,
            other => panic!("unexpected key {:?}", other),
        }
    }
    for n in seen.iter() {
        assert!(*n > 800 && *n < 1200, "a key came {} times of 3000", n);
    }
}

#[test]
fn random_key_of_an_empty_map_is_none() {
    let mut rng = StdRng::seed_from_u64(0);
    assert_eq!(random_key(&WeightMap::new(), &mut rng), None);
    assert_eq!(random_key_at(&WeightMap::new(), 0), None);
}

#[test]
fn random_key_at_is_the_key_at_the_place() {
    let map = map_of(&[("a", 0), ("b", -1), ("c", 1000)]);
    assert_eq!(random_key_at(&map, 0).map(|s| s.as_str()), Some("a"));
    assert_eq!(random_key_at(&map, 1).map(|s| s.as_str()), Some("b"));
    assert_eq!(random_key_at(&map, 2).map(|s| s.as_str()), Some("c"));
    assert_eq!(random_key_at(&map, 3).map(|s| s.as_str()), Some("c"));
}

#[test]
fn weight_map_keeps_the_order_of_first_sight() {
    let mut map = WeightMap::new();
    assert!(map.is_empty());
    map.modify("x", 1);
    map.modify("y", 2);
    map.modify("x", 3);
    map.set("z", -1);
    map.set("y", 9);
    assert_eq!(map.len(), 3);
    assert_eq!(map.key_at(0), "x");
    assert_eq!(map.key_at(1), "y");
    assert_eq!(map.key_at(2), "z");
    assert_eq!(map.weight_at(0), 4);
    assert_eq!(map.weight_at(1), 9);
    assert_eq!(map.weight_at(2), -1);
    assert_eq!(map.position("y"), Some(1));
    assert_eq!(map.position("w"), None);
    assert_eq!(map.weight("w"), 0);
    assert_eq!(map.get("w"), None);
    assert_eq!(map.get("z"), Some(-1));
    assert!(map.accepts("x", i32::MAX - 4));
    assert!(!map.accepts("x", i32::MAX - 3));
}
