use piki::git::report::SyncReport;
use piki::gui::git_sync::{Event, GitState, COMMIT_DELAY_MS};
use piki::gui::history::{History, MAX_HISTORY_SIZE};
use piki::gui::position_memory::PositionMemory;
use piki::gui::scroll_memory::CAPACITY;

/// Where the user was in a note: scroll offset and, when known, a caret.
#[derive(Debug, Clone, PartialEq, Default)]
struct NotePosition {
    scroll: i32,
    cursor: Option<(usize, usize)>,
}

fn scroll(n: i32) -> NotePosition {
    NotePosition { scroll: n, cursor: None }
}

fn at(scroll: i32) -> NotePosition {
    NotePosition { scroll, cursor: None }
}

#[test]
fn test_push_and_navigate() {
    let mut history = History::new();
    history.push("note1".to_string(), scroll(0));
    history.push("note2".to_string(), scroll(10));
    history.push("note3".to_string(), scroll(20));

    assert_eq!(history.current().unwrap().note_name, "note3");
    assert!(history.can_go_back());
    assert!(!history.can_go_forward());

    history.go_back();
    assert_eq!(history.current().unwrap().note_name, "note2");
    assert_eq!(history.current().unwrap().position.scroll, 10);
    assert!(history.can_go_back());
    assert!(history.can_go_forward());

    history.go_forward();
    assert_eq!(history.current().unwrap().note_name, "note3");
}

#[test]
fn test_push_clears_forward_history() {
    let mut history = History::new();
    history.push("note1".to_string(), scroll(0));
    history.push("note2".to_string(), scroll(0));
    history.push("note3".to_string(), scroll(0));
    history.go_back();
    history.go_back();
    assert_eq!(history.current().unwrap().note_name, "note1");
    history.push("note4".to_string(), scroll(0));
    assert_eq!(history.current().unwrap().note_name, "note4");
    assert!(!history.can_go_forward());
}

#[test]
fn test_max_size() {
    let mut history = History::new();
    for i in 0..150 {
        history.push(format!("note{}", i), scroll(i));
    }
    assert_eq!(history.len(), MAX_HISTORY_SIZE);
    assert_eq!(history.current().unwrap().note_name, "note149");
}

#[test]
fn test_rename_note_updates_all_matching_entries() {
    let mut history = History::new();
    history.push("untitled_x".to_string(), scroll(0));
    history.push("other".to_string(), scroll(0));
    history.push("untitled_x".to_string(), scroll(0));
    history.rename_note("untitled_x", "real-name");
    assert_eq!(history.current().unwrap().note_name, "real-name");
    history.go_back();
    assert_eq!(history.current().unwrap().note_name, "other");
    history.go_back();
    assert_eq!(history.current().unwrap().note_name, "real-name");
}

#[test]
fn test_remove_note_drops_entries_and_tracks_current() {
    let mut history = History::new();
    history.push("a".to_string(), scroll(0));
    history.push("b".to_string(), scroll(0));
    history.push("c".to_string(), scroll(0));
    history.remove_note("b");
    assert_eq!(history.current().unwrap().note_name, "c");
    history.go_back();
    assert_eq!(history.current().unwrap().note_name, "a");
    assert!(!history.can_go_back());
}

#[test]
fn test_remove_note_when_current_is_removed() {
    let mut history = History::new();
    history.push("a".to_string(), scroll(0));
    history.push("b".to_string(), scroll(0));
    history.push("c".to_string(), scroll(0));
    history.go_back();
    history.remove_note("b");
    assert_eq!(history.current().unwrap().note_name, "a");
    history.go_forward();
    assert_eq!(history.current().unwrap().note_name, "c");
}

#[test]
fn test_remove_note_all_entries_leaves_empty() {
    let mut history = History::new();
    history.push("only".to_string(), scroll(0));
    history.remove_note("only");
    assert!(history.current().is_none());
    assert!(!history.can_go_back());
    assert!(!history.can_go_forward());
}

#[test]
fn test_update_position() {
    let mut history = History::new();
    history.push("note1".to_string(), scroll(0));
    assert_eq!(history.current().unwrap().position.scroll, 0);
    let updated = NotePosition {
        scroll: 42,
        cursor: Some((1, 3)),
    };
    history.update_position(updated.clone());
    assert_eq!(history.current().unwrap().position, updated);
}

#[test]
fn removing_the_first_entries_keeps_the_position_on_the_first_survivor() {
    let mut history = History::new();
    history.push("a".to_string(), scroll(0));
    history.push("a".to_string(), scroll(1));
    history.push("b".to_string(), scroll(2));
    history.go_back();
    history.go_back();
    history.remove_note("a");
    assert_eq!(history.current().unwrap().note_name, "b");
    assert_eq!(history.len(), 1);
    assert!(history.go_back().is_none());
    assert!(history.go_forward().is_none());
}

#[test]
fn position_memory_remembers_and_returns_position() {
    let mut m = PositionMemory::new();
    assert_eq!(m.get("a"), None);
    m.remember("a", at(42));
    assert_eq!(m.get("a"), Some(at(42)));
}

#[test]
fn remembers_cursor_alongside_scroll() {
    let mut m = PositionMemory::new();
    let pos = NotePosition {
        scroll: 10,
        cursor: Some((2, 5)),
    };
    m.remember("a", pos.clone());
    assert_eq!(m.get("a"), Some(pos));
}

#[test]
fn position_memory_updates_existing_position() {
    let mut m = PositionMemory::new();
    m.remember("a", at(10));
    m.remember("a", at(99));
    assert_eq!(m.get("a"), Some(at(99)));
}

#[test]
fn position_memory_evicts_least_recently_remembered_beyond_capacity() {
    let mut m = PositionMemory::new();
    for i in 0..CAPACITY {
        m.remember(&format!("p{i}"), at(i as i32));
    }
    assert_eq!(m.get("p0"), Some(at(0)));
    m.remember("new", at(123));
    assert_eq!(m.get("p0"), None);
    assert_eq!(m.get("new"), Some(at(123)));
    assert_eq!(m.get("p1"), Some(at(1)));
}

#[test]
fn rename_preserves_position() {
    let mut m = PositionMemory::new();
    m.remember("old", at(42));
    m.rename("old", "new");
    assert_eq!(m.get("old"), None);
    assert_eq!(m.get("new"), Some(at(42)));
}

#[test]
fn rename_unknown_note_is_noop() {
    let mut m = PositionMemory::new();
    m.remember("a", at(1));
    m.rename("missing", "new");
    assert_eq!(m.get("new"), None);
    assert_eq!(m.get("a"), Some(at(1)));
}

#[test]
fn position_memory_re_remembering_refreshes_recency() {
    let mut m = PositionMemory::new();
    for i in 0..CAPACITY {
        m.remember(&format!("p{i}"), at(i as i32));
    }
    m.remember("p0", at(7));
    m.remember("new", at(1));
    assert_eq!(m.get("p0"), Some(at(7)));
    assert_eq!(m.get("p1"), None);
}

#[test]
fn commit_is_debounced_after_saves() {
    let mut st = GitState::new(false, None);
    let t0 = 1_000_000u64;
    assert!(!st.observe(0, t0));
    assert!(!st.has_pending_commit(), "nothing saved yet");

    st.observe(1, t0);
    assert!(st.has_pending_commit(), "a save starts the timer");
    st.observe(1, t0 + COMMIT_DELAY_MS / 2);
    assert!(st.has_pending_commit(), "not yet due");
    st.observe(2, t0 + COMMIT_DELAY_MS / 2);
    st.observe(2, t0 + COMMIT_DELAY_MS + 1);
    assert!(st.has_pending_commit(), "restarted by the second save");
    st.observe(2, t0 + COMMIT_DELAY_MS / 2 + COMMIT_DELAY_MS);
    assert!(!st.has_pending_commit(), "committed once due");
}

#[test]
fn commit_now_clears_pending_and_tracks_generation() {
    let mut st = GitState::new(false, None);
    st.observe(3, 5);
    st.commit_now(3);
    assert!(!st.has_pending_commit());
    st.observe(4, 6);
    assert!(st.has_pending_commit());
}

#[test]
fn sync_requires_a_worker() {
    let mut st = GitState::new(false, Some("disabled".into()));
    assert!(!st.is_available());
    assert!(!st.request_sync());
    let before = st.syncing;
    st.apply_events(&[]);
    assert_eq!(st.syncing, before);
}

#[test]
fn a_worker_is_asked_to_commit_only_when_due() {
    let mut st = GitState::new(true, None);
    assert!(!st.observe(1, 100));
    assert!(!st.observe(1, 100 + COMMIT_DELAY_MS - 1));
    assert!(st.observe(1, 100 + COMMIT_DELAY_MS));
    assert!(!st.observe(1, 100 + 2 * COMMIT_DELAY_MS));
    assert!(!st.commit_now(1));
    assert!(st.commit_now(2));
}

#[test]
fn sync_flag_and_errors_follow_the_worker() {
    let mut st = GitState::new(true, None);
    assert!(st.request_sync());
    st.apply_events(&[Event::SyncStarted]);
    assert!(st.syncing);
    assert!(!st.request_sync());
    st.apply_events(&[Event::Synced(Err("offline".to_string()))]);
    assert!(!st.syncing);
    assert_eq!(st.last_error.as_deref(), Some("offline"));
    st.apply_events(&[Event::Committed(Ok(None))]);
    assert_eq!(st.last_error.as_deref(), Some("offline"));
    let report = SyncReport {
        committed: None,
        outcomes: vec![],
        changed_paths: vec![],
    };
    st.apply_events(&[Event::SyncStarted, Event::Synced(Ok(report))]);
    assert!(!st.syncing);
    assert_eq!(st.last_error, None);
}
