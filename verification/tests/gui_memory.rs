use piki::gui::recency::RecentPages;
use piki::gui::scroll_memory::{ScrollMemory, CAPACITY};

#[test]
fn scroll_memory_remembers_and_returns_position() {
    let mut m = ScrollMemory::new();
    assert_eq!(m.get("a"), None);
    m.remember("a", 42);
    assert_eq!(m.get("a"), Some(42));
}

#[test]
fn scroll_memory_updates_existing_position() {
    let mut m = ScrollMemory::new();
    m.remember("a", 10);
    m.remember("a", 99);
    assert_eq!(m.get("a"), Some(99));
}

#[test]
fn scroll_memory_evicts_least_recently_remembered_beyond_capacity() {
    let mut m = ScrollMemory::new();
    for i in 0..CAPACITY {
        m.remember(&format!("p{i}"), i as i32);
    }
    assert_eq!(m.get("p0"), Some(0));
    m.remember("new", 123);
    assert_eq!(m.get("p0"), None);
    assert_eq!(m.get("new"), Some(123));
    assert_eq!(m.get("p1"), Some(1));
}

#[test]
fn scroll_memory_re_remembering_refreshes_recency() {
    let mut m = ScrollMemory::new();
    for i in 0..CAPACITY {
        m.remember(&format!("p{i}"), i as i32);
    }
    m.remember("p0", 7);
    m.remember("new", 1);
    assert_eq!(m.get("p0"), Some(7));
    assert_eq!(m.get("p1"), None);
}

#[test]
fn scroll_memory_never_tracks_more_than_capacity() {
    let mut m = ScrollMemory::new();
    for i in 0..(3 * CAPACITY) {
        m.remember(&format!("p{i}"), i as i32);
    }
    let kept = (0..3 * CAPACITY)
        .filter(|i| m.get(&format!("p{i}")).is_some())
        .count();
    assert_eq!(kept, CAPACITY);
    assert_eq!(m.get(&format!("p{}", 3 * CAPACITY - 1)), Some((3 * CAPACITY - 1) as i32));
}

#[test]
fn mark_opened_then_last_opened_is_set() {
    let mut r = RecentPages::default();
    assert_eq!(r.last_opened("x"), None);
    r.mark_opened("x");
    assert!(r.last_opened("x").is_some());
}

#[test]
fn rename_moves_entry_preserving_time() {
    let mut r = RecentPages::default();
    r.mark_opened("old");
    let t = r.last_opened("old").unwrap();
    r.rename("old", "new");
    assert_eq!(r.last_opened("old"), None);
    assert_eq!(r.last_opened("new"), Some(t));
}

#[test]
fn rename_unknown_page_is_noop() {
    let mut r = RecentPages::default();
    r.rename("missing", "new");
    assert_eq!(r.last_opened("new"), None);
}

#[test]
fn marking_at_a_time_records_exactly_that_time() {
    let mut r = RecentPages::default();
    r.mark_opened_at("a", 5);
    r.mark_opened_at("b", 7);
    r.mark_opened_at("a", 9);
    assert_eq!(r.last_opened("a"), Some(9));
    assert_eq!(r.last_opened("b"), Some(7));
    let mut entries = r.entries();
    entries.sort();
    assert_eq!(entries, vec![("a".to_string(), 9), ("b".to_string(), 7)]);
}

#[test]
fn entries_round_trip_with_slashes_in_names() {
    let r = RecentPages::from_entries(&[
        ("project-a/standup".to_string(), 42),
        ("x".to_string(), 1),
        ("x".to_string(), 2),
    ]);
    assert_eq!(r.last_opened("project-a/standup"), Some(42));
    assert_eq!(r.last_opened("x"), Some(2));
    let back = RecentPages::from_entries(&r.entries());
    assert_eq!(back.last_opened("project-a/standup"), Some(42));
    assert_eq!(back.last_opened("x"), Some(2));
}

#[test]
fn rename_onto_an_opened_page_keeps_the_moved_time() {
    let mut r = RecentPages::default();
    r.mark_opened_at("a", 1);
    r.mark_opened_at("b", 2);
    r.rename("a", "b");
    assert_eq!(r.last_opened("a"), None);
    assert_eq!(r.last_opened("b"), Some(1));
}

#[test]
fn scroll_position_survives_nine_other_pages() {
    let mut m = ScrollMemory::new();
    m.remember("a", 7);
    for round in 0..3 {
        for i in 0..9 {
            m.remember(&format!("p{i}"), round);
        }
    }
    assert_eq!(m.get("a"), Some(7));
    m.remember("p9", 0);
    assert_eq!(m.get("a"), None);
}
