use markov_music::handle::cursor::{ceildiv, Cursor};
use markov_music::handle::entry::{Entries, Entry, EntryIterator, EntryType, Listed};

fn file(name: &str) -> Listed {
    Listed { name: name.to_string(), path: format!("/music/{}", name), kind: Some(EntryType::File) }
}

fn dir(name: &str) -> Listed {
    Listed {
        name: name.to_string(),
        path: format!("/music/{}", name),
        kind: Some(EntryType::Directory),
    }
}

fn listing(count: usize) -> Vec<Listed> {
    (0..count).map(|i| file(&format!("song{:03}.ogg", i))).collect()
}

fn cursor_over(count: usize) -> Cursor {
    // the parent directory is the first entry, so the listing has count + 1 entries
    Cursor::new(Entries::new("/music".to_string(), &listing(count)), Some(0))
}

#[test]
fn ceildiv_rounds_up() {
    assert_eq!(ceildiv(0, 3), 0);
    assert_eq!(ceildiv(1, 3), 1);
    assert_eq!(ceildiv(3, 3), 1);
    assert_eq!(ceildiv(4, 3), 2);
    assert_eq!(ceildiv(9, 1), 9);
    assert_eq!(ceildiv(usize::MAX, 1), usize::MAX);
}

#[test]
fn entries_are_sorted_and_hidden_files_left_out() {
    let read = vec![
        file("zebra.ogg"),
        file(".hidden"),
        dir("albums"),
        Listed { name: "socket".to_string(), path: "/music/socket".to_string(), kind: None },
        file("Alpha.ogg"),
        dir(".git"),
        file("beta.ogg"),
    ];
    let entries = Entries::new("/music".to_string(), &read);
    assert_eq!(entries.path(), "/music");
    assert_eq!(entries.len(), 5);
    assert_eq!(entries.get(0).path, "..");
    assert_eq!(entries.get(0).ftype, EntryType::Directory);
    let paths: Vec<&str> = (1..5).map(|i| entries.get(i).path.as_str()).collect();
    assert_eq!(
        paths,
        vec!["/music/Alpha.ogg", "/music/albums", "/music/beta.ogg", "/music/zebra.ogg"]
    );
    assert_eq!(entries.get(2).ftype, EntryType::Directory);
    assert_eq!(entries.get(1).ftype, EntryType::File);
}

#[test]
fn update_lists_another_directory() {
    let mut entries = Entries::new("/music".to_string(), &listing(3));
    assert_eq!(entries.len(), 4);
    entries.update("/other".to_string(), &vec![file("b"), file("a")]);
    assert_eq!(entries.path(), "/other");
    assert_eq!(entries.len(), 3);
    assert_eq!(entries.get(1).path, "/music/a");
    assert_eq!(entries.get(2).path, "/music/b");
    entries.update("/empty".to_string(), &Vec::new());
    assert_eq!(entries.len(), 1);
}

#[test]
fn entries_with_equal_paths_both_stay() {
    let entries = Entries::new("/music".to_string(), &vec![file("a"), dir("a"), file("a")]);
    assert_eq!(entries.len(), 4);
    assert_eq!(entries.get(1).ftype, EntryType::File);
    assert_eq!(entries.get(2).ftype, EntryType::Directory);
    assert_eq!(entries.get(3).ftype, EntryType::File);
}

#[test]
fn entry_is_known_by_its_path() {
    let a = Entry { path: "x".to_string(), ftype: EntryType::File };
    let b = Entry { path: "x".to_string(), ftype: EntryType::Directory };
    let c = Entry { path: "y".to_string(), ftype: EntryType::File };
    assert!(a == b);
    assert!(a != c);
    assert!(a.precedes(&b));
    assert!(a.precedes(&c));
    assert!(!c.precedes(&a));
}

#[test]
fn paths_are_ordered_by_their_bytes() {
    let e = |p: &str| Entry { path: p.to_string(), ftype: EntryType::File };
    assert!(e("").precedes(&e("a")));
    assert!(!e("a").precedes(&e("")));
    assert!(e("a").precedes(&e("ab")));
    assert!(e("B").precedes(&e("a")));
    assert!(e("ab").precedes(&e("b")));
    assert!(e("z").precedes(&e("\u{e9}")));
    assert!(!e("\u{e9}").precedes(&e("z")));
}

#[test]
fn iterator_walks_from_its_start() {
    let entries = Entries::new("/music".to_string(), &listing(3));
    let mut walk = EntryIterator::new(&entries, 2);
    let (i, e) = walk.next().expect("third entry");
    assert_eq!(i, 2);
    assert_eq!(e.path, "/music/song001.ogg");
    let (i, e) = walk.next().expect("fourth entry");
    assert_eq!(i, 3);
    assert_eq!(e.path, "/music/song002.ogg");
    assert!(walk.next().is_none());
    assert!(walk.next().is_none());
    let mut past = EntryIterator::new(&entries, 9);
    assert!(past.next().is_none());
}

#[test]
fn new_cursor_stands_where_it_is_told() {
    let entries = || Entries::new("/music".to_string(), &listing(4));
    let c = Cursor::new(entries(), None);
    assert_eq!(c.current_index(), 1);
    assert_eq!(c.current_top(), 0);
    assert_eq!(c.get_path(), "/music");
    assert_eq!(c.current().path, "/music/song000.ogg");
    assert_eq!(Cursor::new(entries(), Some(3)).current_index(), 3);
    assert_eq!(Cursor::new(entries(), Some(5)).current_index(), 5);
    assert_eq!(Cursor::new(entries(), Some(99)).current_index(), 5);
}

#[test]
fn down_moves_the_view_by_whole_screens() {
    let mut c = cursor_over(99);
    let rows = 11; // the view moves by 10 entries
    c.down(5, rows);
    assert_eq!((c.current_index(), c.current_top()), (5, 0));
    c.down(5, rows);
    assert_eq!((c.current_index(), c.current_top()), (10, 10));
    c.down(1, rows);
    assert_eq!((c.current_index(), c.current_top()), (11, 10));
    c.down(30, rows);
    assert_eq!((c.current_index(), c.current_top()), (41, 40));
    c.down(1000, rows);
    assert_eq!((c.current_index(), c.current_top()), (99, 90));
    assert!(c.sanity(rows));
}

#[test]
fn up_moves_the_view_by_whole_screens() {
    let mut c = cursor_over(99);
    let rows = 11;
    c.jump_bottom(rows);
    assert_eq!((c.current_index(), c.current_top()), (99, 90));
    c.up(1, rows);
    assert_eq!((c.current_index(), c.current_top()), (98, 90));
    c.up(8, rows);
    assert_eq!((c.current_index(), c.current_top()), (90, 90));
    c.up(1, rows);
    assert_eq!((c.current_index(), c.current_top()), (89, 80));
    c.up(25, rows);
    assert_eq!((c.current_index(), c.current_top()), (64, 60));
    c.up(1000, rows);
    assert_eq!((c.current_index(), c.current_top()), (0, 0));
    assert!(c.sanity(rows));
}

#[test]
fn the_view_stops_at_the_first_line() {
    let mut c = cursor_over(50);
    c.down(7, 6); // moves by 5: top 5
    assert_eq!((c.current_index(), c.current_top()), (7, 5));
    c.up(4, 8); // another screen size: moves by 7, which would lie above the listing
    assert_eq!((c.current_index(), c.current_top()), (3, 0));
}

#[test]
fn jump_top_and_bottom() {
    let mut c = cursor_over(20);
    c.jump_bottom(5);
    assert_eq!((c.current_index(), c.current_top()), (20, 20));
    assert_eq!(c.current().path, "/music/song019.ogg");
    c.jump_top();
    assert_eq!((c.current_index(), c.current_top()), (0, 0));
    assert_eq!(c.current().path, "..");
    let shown: Vec<usize> = {
        let mut walk = c.entries();
        let mut seen = Vec::new();
        while let Some((i, _)) = walk.next() {
            seen.push(i);
        }
        seen
    };
    assert_eq!(shown, (0..21).collect::<Vec<usize>>());
}

#[test]
fn sanity_tells_a_cursor_off_the_listing() {
    let c = Cursor::new(Entries::new("/music".to_string(), &listing(2)), Some(3));
    assert!(!c.sanity(10));
    let c = Cursor::new(Entries::new("/music".to_string(), &listing(2)), Some(2));
    assert!(c.sanity(10));
    assert!(c.sanity(2));
    assert!(!c.sanity(1));
}

#[test]
fn set_path_keeps_cursor_and_view() {
    let mut c = cursor_over(30);
    c.down(12, 6);
    assert_eq!((c.current_index(), c.current_top()), (12, 10));
    c.set_path("/other".to_string(), &listing(40));
    assert_eq!(c.get_path(), "/other");
    assert_eq!((c.current_index(), c.current_top()), (12, 10));
    let mut walk = c.entries();
    assert_eq!(walk.next().map(|(i, _)| i), Some(10));
}

#[test]
fn can_follow_tells_what_the_moves_need() {
    let c = cursor_over(9);
    assert_eq!(c.len(), 10);
    assert!(c.can_follow(0, 2));
    assert!(c.can_follow(9, 2));
    assert!(!c.can_follow(10, 2));
    assert!(!c.can_follow(0, 1));
    assert!(!c.can_follow(0, 0));
    assert!(c.can_follow(3, usize::MAX));
    let mut c = cursor_over(9);
    c.jump_bottom(3);
    assert_eq!((c.current_index(), c.current_top()), (9, 8));
    // the way back from line 8 to line 0 and a whole screen more must be countable
    assert!(c.can_follow(0, usize::MAX - 6));
    assert!(!c.can_follow(0, usize::MAX - 5));
    assert!(c.can_follow(8, usize::MAX));
}
