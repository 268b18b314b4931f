use markov_music::database::models::{Association, Start};
use markov_music::markov::Chain;
use rand::rngs::StdRng;
use rand::SeedableRng;

fn three_to_one() -> Chain {
    let mut chain = Chain::new();
    chain.associate("A", "B");
    chain.associate("A", "B");
    chain.associate("A", "B");
    chain.associate("A", "C");
    chain
}

#[test]
fn associate_counts_transitions() {
    let chain = three_to_one();
    let next = chain.possible_next("A").expect("edges of A");
    assert_eq!(next.len(), 2);
    assert_eq!(next.get("B"), Some(3));
    assert_eq!(next.get("C"), Some(1));
    assert_eq!(next.key_at(0), "B");
    assert_eq!(next.key_at(1), "C");
}

#[test]
fn sampling_follows_the_weights() {
    let chain = three_to_one();
    let mut rng = StdRng::seed_from_u64(17);
    let mut b = 0;
    let mut c = 0;
    for _ in 0..1000 {
        match chain.next("A", &mut rng).map(|s| s.as_str()) {
            Some("B") => b += 1,
            Some("C") => c += 1,
            other => panic!("unexpected choice {:?}", other),
        }
    }
    assert_eq!(b + c, 1000);
    assert!(b > 2 * c, "B came {} times, C {} times", b, c);
    assert!(b < 4 * c, "B came {} times, C {} times", b, c);
}

#[test]
fn a_new_chain_is_empty() {
    let chain = Chain::new();
    assert_eq!(chain.len(), 0);
    assert!(chain.possible_next("A").is_none());
    assert!(chain.possible_start().is_empty());
    assert_eq!(chain.weight("A", "B"), 0);
}

#[test]
fn weight_is_the_sum_of_the_diffs() {
    let mut chain = Chain::new();
    let diffs = [5, -2, 7, -11, 3, 0, 40];
    let mut sum = 0;
    for d in diffs.iter() {
        chain.modify_weight("p", "n", *d);
        chain.modify_weight("p", "other", 1);
        chain.modify_weight("q", "n", -1);
        sum += *d;
        assert_eq!(chain.weight("p", "n"), sum);
    }
    assert_eq!(chain.weight("p", "n"), 42);
    assert_eq!(chain.weight("p", "other"), 7);
    assert_eq!(chain.weight("q", "n"), -7);
    assert_eq!(chain.weight("n", "p"), 0);
}

#[test]
fn modify_weight_creates_the_edge_lazily() {
    let mut chain = Chain::new();
    chain.modify_weight("a", "b", 0);
    let next = chain.possible_next("a").expect("edges of a");
    assert_eq!(next.get("b"), Some(0));
    assert_eq!(next.get("c"), None);
    assert!(chain.possible_next("b").is_none());
}

#[test]
fn clear_removes_outgoing_edges_only() {
    let mut chain = Chain::new();
    for i in 0..50 {
        chain.associate("p", &format!("n{}", i));
    }
    chain.associate("q", "p");
    chain.associate("r", "s");
    chain.clear("p");
    assert!(chain.possible_next("p").map_or(true, |m| m.is_empty()));
    assert_eq!(chain.weight("p", "n3"), 0);
    assert_eq!(chain.weight("q", "p"), 1);
    assert_eq!(chain.weight("r", "s"), 1);
    let mut rng = StdRng::seed_from_u64(1);
    assert_eq!(chain.next("p", &mut rng), None);
    assert_eq!(chain.next_at("p", 0), None);
}

#[test]
fn clear_of_an_unknown_item_changes_nothing() {
    let mut chain = three_to_one();
    chain.clear("nobody");
    assert_eq!(chain.len(), 1);
    assert_eq!(chain.weight("A", "B"), 3);
    assert_eq!(chain.weight("A", "C"), 1);
}

#[test]
fn an_edge_comes_back_after_clear() {
    let mut chain = three_to_one();
    chain.clear("A");
    chain.associate("A", "C");
    let next = chain.possible_next("A").expect("edges of A");
    assert_eq!(next.len(), 1);
    assert_eq!(next.get("C"), Some(1));
    assert_eq!(next.get("B"), None);
}

#[test]
fn next_is_none_without_a_weight_above_zero() {
    let mut chain = Chain::new();
    let mut rng = StdRng::seed_from_u64(3);
    assert_eq!(chain.next("x", &mut rng), None);
    chain.modify_weight("x", "y", 0);
    chain.modify_weight("x", "z", -4);
    assert_eq!(chain.next("x", &mut rng), None);
    chain.modify_weight("x", "z", 5);
    assert_eq!(chain.next("x", &mut rng).map(|s| s.as_str()), Some("z"));
}

#[test]
fn start_is_none_exactly_without_a_weight_above_zero() {
    let mut chain = Chain::new();
    let mut rng = StdRng::seed_from_u64(4);
    assert_eq!(chain.start(&mut rng), None);
    chain.modify_start("s", -1);
    assert_eq!(chain.start(&mut rng), None);
    chain.modify_start("s", 1);
    assert_eq!(chain.start(&mut rng), None);
    chain.modify_start("t", 2);
    for _ in 0..20 {
        assert_eq!(chain.start(&mut rng).map(|s| s.as_str()), Some("t"));
    }
}

#[test]
fn next_at_walks_the_wheel_in_order() {
    let chain = three_to_one();
    assert_eq!(chain.next_at("A", 0).map(|s| s.as_str()), Some("B"));
    assert_eq!(chain.next_at("A", 1).map(|s| s.as_str()), Some("B"));
    assert_eq!(chain.next_at("A", 2).map(|s| s.as_str()), Some("B"));
    assert_eq!(chain.next_at("A", 3).map(|s| s.as_str()), Some("C"));
    // a draw beyond the wheel counts as the last draw on it
    assert_eq!(chain.next_at("A", 4).map(|s| s.as_str()), Some("C"));
    assert_eq!(chain.next_at("A", u128::MAX).map(|s| s.as_str()), Some("C"));
    assert_eq!(chain.next_at("B", 0), None);
}

#[test]
fn start_at_skips_weights_that_are_not_above_zero() {
    let mut chain = Chain::new();
    chain.modify_start("a", 2);
    chain.modify_start("b", -3);
    chain.modify_start("c", 0);
    chain.modify_start("d", 1);
    chain.modify_start("e", 0);
    assert_eq!(chain.start_at(0).map(|s| s.as_str()), Some("a"));
    assert_eq!(chain.start_at(1).map(|s| s.as_str()), Some("a"));
    assert_eq!(chain.start_at(2).map(|s| s.as_str()), Some("d"));
    assert_eq!(chain.start_at(3).map(|s| s.as_str()), Some("d"));
    assert_eq!(chain.start_at(1000).map(|s| s.as_str()), Some("d"));
}

#[test]
fn next_or_restart_falls_back_to_the_start_weights() {
    let mut chain = three_to_one();
    let mut rng = StdRng::seed_from_u64(5);
    assert_eq!(chain.next_or_restart("C", &mut rng), None);
    chain.modify_start("A", 1);
    assert_eq!(chain.next_or_restart("C", &mut rng).map(|s| s.as_str()), Some("A"));
    for _ in 0..50 {
        let after_a = chain.next_or_restart("A", &mut rng).map(|s| s.as_str());
        assert!(after_a == Some("B") || after_a == Some("C"));
    }
}

#[test]
fn accepts_tells_when_a_weight_would_leave_the_range() {
    let mut chain = Chain::new();
    assert!(chain.accepts("a", "b", i32::MAX));
    chain.modify_weight("a", "b", i32::MAX);
    assert_eq!(chain.weight("a", "b"), i32::MAX);
    assert!(!chain.accepts("a", "b", 1));
    assert!(chain.accepts("a", "b", -1));
    assert!(chain.accepts("a", "c", i32::MIN));
    chain.modify_weight("a", "c", i32::MIN);
    assert!(!chain.accepts("a", "c", -1));
    assert!(chain.accepts_start("s", i32::MIN));
    chain.modify_start("s", i32::MIN);
    assert!(!chain.accepts_start("s", -1));
    assert!(chain.accepts_start("s", i32::MAX));
}

#[test]
fn set_weight_replaces_the_weight() {
    let mut chain = three_to_one();
    chain.set_weight("A", "B", -9);
    chain.set_weight("Z", "A", 4);
    assert_eq!(chain.weight("A", "B"), -9);
    assert_eq!(chain.weight("A", "C"), 1);
    assert_eq!(chain.weight("Z", "A"), 4);
    assert_eq!(chain.key_at(0), "A");
    assert_eq!(chain.key_at(1), "Z");
    assert_eq!(chain.edges_at(1).len(), 1);
}

#[test]
fn rows_list_every_edge_in_order() {
    let mut chain = three_to_one();
    chain.associate("C", "A");
    chain.modify_start("A", 2);
    let rows = chain.associations();
    let expected = vec![
        Association { prev_song: "A".to_string(), next_song: "B".to_string(), weight: 3 },
        Association { prev_song: "A".to_string(), next_song: "C".to_string(), weight: 1 },
        Association { prev_song: "C".to_string(), next_song: "A".to_string(), weight: 1 },
    ];
    assert_eq!(rows, expected);
    assert_eq!(chain.starters(), vec![Start { song: "A".to_string(), weight: 2 }]);
}

#[test]
fn rows_round_trip() {
    let mut chain = Chain::new();
    let names = ["a.ogg", "b/c.mp3", "d e.flac", "\u{e9}t\u{e9}.ogg"];
    let mut w = -3;
    for p in names.iter() {
        for n in names.iter() {
            if p != n {
                chain.modify_weight(p, n, w);
                w += 2;
            }
        }
        chain.modify_start(p, w);
    }
    chain.clear("b/c.mp3");
    let edges = chain.associations();
    let starts = chain.starters();
    let again = Chain::load(&edges, &starts);
    assert_eq!(again.associations(), edges);
    assert_eq!(again.starters(), starts);
    assert_eq!(again.len(), chain.len());
    for p in names.iter() {
        for n in names.iter() {
            assert_eq!(again.weight(p, n), chain.weight(p, n));
        }
        assert_eq!(again.possible_start().get(p), chain.possible_start().get(p));
    }
    assert!(again.possible_next("b/c.mp3").is_none());
}

#[test]
fn load_lets_the_later_row_count() {
    let edges = vec![
        Association { prev_song: "a".to_string(), next_song: "b".to_string(), weight: 1 },
        Association { prev_song: "c".to_string(), next_song: "b".to_string(), weight: 2 },
        Association { prev_song: "a".to_string(), next_song: "b".to_string(), weight: 7 },
    ];
    let starts = vec![
        Start { song: "a".to_string(), weight: 1 },
        Start { song: "a".to_string(), weight: 5 },
    ];
    let chain = Chain::load(&edges, &starts);
    assert_eq!(chain.weight("a", "b"), 7);
    assert_eq!(chain.weight("c", "b"), 2);
    assert_eq!(chain.len(), 2);
    assert_eq!(chain.possible_start().get("a"), Some(5));
    assert_eq!(chain.possible_start().len(), 1);
}

#[test]
fn no_increment_is_lost_between_two_callers() {
    let k = 250;
    let mut chain = Chain::new();
    chain.modify_weight("p", "n", 7);
    // the calls of two callers, taking turns unevenly
    let mut first = 0;
    let mut second = 0;
    let mut turn = 0usize;
    while first < k || second < k {
        let first_goes = second == k || (first < k && turn % 3 != 0);
        if first_goes {
            first += 1;
        } else {
            second += 1;
        }
        chain.modify_weight("p", "n", 1);
        turn += 1;
    }
    assert_eq!(chain.weight("p", "n"), 7 + 2 * k);
}
