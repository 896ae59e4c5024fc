use piki::config::{Config, GitConfig};
use piki::document::{document_walk_step, WalkStep};
use piki::git::lock::{exhausted, is_stale_age, lock_step, LockAttempt, LockStep};
use piki::gui::rtf::{cp1252_c1_char, inject_paragraph_sentinels, repair_cp1252_c1, RtfImportError};
use piki::gui::settings::Settings;
use piki::gui::window_state::{recent_notes_file, recent_notes_file_name, state_file_path};
use piki::home::{default_notes_dir, home_dir_from};
use piki::pager::{should_page, PagerKey, PagerState};
use std::borrow::Cow;

#[test]
fn injects_sentinels_after_par_control() {
    let raw = r"{\rtf1 Foo\par Bar\par
}";
    let normalized = inject_paragraph_sentinels(raw);
    assert_eq!(normalized, "{\\rtf1 Foo\\par \\'1eBar\\par\\'1e\n}");
}

#[test]
fn sentinels_skip_longer_control_words_and_tagged_breaks() {
    let raw = r"\pard x\PAR y\par \'1ez\parx";
    assert_eq!(
        inject_paragraph_sentinels(raw),
        r"\pard x\PAR \'1ey\par \'1ez\parx"
    );
    assert!(matches!(
        inject_paragraph_sentinels(r"\par\'1e done"),
        Cow::Borrowed(_)
    ));
    assert!(matches!(inject_paragraph_sentinels("\\pa"), Cow::Borrowed(_)));
}

#[test]
fn windows_1252_c1_characters_are_repaired() {
    assert_eq!(cp1252_c1_char('\u{92}'), Some('\u{2019}'));
    assert_eq!(cp1252_c1_char('\u{81}'), None);
    assert_eq!(cp1252_c1_char('a'), Some('a'));
    assert_eq!(
        repair_cp1252_c1("It\u{92}s done\u{85} or\u{97}maybe\u{81}."),
        "It\u{2019}s done\u{2026} or\u{2014}maybe."
    );
    assert!(matches!(repair_cp1252_c1("plain ÄÖÜ"), Cow::Borrowed(_)));
    assert_eq!(RtfImportError::Decode.message(), "RTF data was not valid UTF-8");
    assert_eq!(
        RtfImportError::Parse("bad".to_string()).message(),
        "RTF parse error: bad"
    );
}

#[test]
fn pager_scrolls_within_the_content() {
    let mut p = PagerState::new(10, 4);
    assert_eq!(p.max_scroll(), 6);
    assert!(p.handle_key(PagerKey::Up));
    assert_eq!(p.scroll_offset, 0);
    p.handle_key(PagerKey::PageDown);
    assert_eq!(p.scroll_offset, 4);
    p.handle_key(PagerKey::PageDown);
    assert_eq!(p.scroll_offset, 6);
    p.handle_key(PagerKey::Down);
    assert_eq!(p.scroll_offset, 6);
    p.handle_key(PagerKey::PageUp);
    assert_eq!(p.scroll_offset, 2);
    p.handle_key(PagerKey::Home);
    assert_eq!(p.scroll_offset, 0);
    p.handle_key(PagerKey::End);
    assert_eq!(p.scroll_offset, 6);
    assert_eq!(p.visible_range(), (6, 10));
    assert_eq!(p.status_text(), " Line 7/10 (100%)");
    p.handle_key(PagerKey::Up);
    assert_eq!(p.status_text(), " Line 6/10 (83%)");
    assert!(!p.handle_key(PagerKey::Quit));
    assert_eq!(PagerState::new(0, 5).status_text(), " (empty)");
    assert_eq!(PagerState::new(3, 5).status_text(), " Line 1/3 (100%)");
}

#[test]
fn pager_is_used_only_when_the_lines_do_not_fit() {
    assert!(!should_page(false, Some(24), 100));
    assert!(!should_page(true, None, 100));
    assert!(!should_page(true, Some(24), 21));
    assert!(should_page(true, Some(24), 22));
    assert!(should_page(true, Some(2), 1));
}

#[test]
fn walking_the_store_lists_markdown_files_and_descends_into_folders() {
    assert_eq!(
        document_walk_step("", "standup.md", true, false),
        WalkStep::Document("standup".to_string())
    );
    assert_eq!(
        document_walk_step("project-a", "sprint-q2.6.md", true, false),
        WalkStep::Document("project-a/sprint-q2.6".to_string())
    );
    assert_eq!(
        document_walk_step("project-a", "assets", false, true),
        WalkStep::Descend("project-a/assets".to_string())
    );
    assert_eq!(document_walk_step("", "photo.png", true, false), WalkStep::Skip);
    assert_eq!(document_walk_step("", ".md", true, false), WalkStep::Skip);
    assert_eq!(document_walk_step("", "notes.MD", true, false), WalkStep::Skip);
    assert_eq!(
        document_walk_step("", "a.b.md", true, false),
        WalkStep::Document("a.b".to_string())
    );
}

#[test]
fn config_defaults_and_locations() {
    let cfg = Config::load(None).unwrap();
    assert!(cfg.aliases.is_empty());
    assert!(cfg.git.enabled);
    assert_eq!(cfg.git.remotes, None);
    assert_eq!(cfg.git, GitConfig::default());
    assert_eq!(Config::load(Some(Err("boom".to_string()))), Err("boom".to_string()));
    assert_eq!(Config::path(Some("/home/rob")), Some("/home/rob/.pikirc".to_string()));
    assert_eq!(Config::path(None), None);
    assert_eq!(
        Config::parse_error("/home/rob/.pikirc", "bad key"),
        "Invalid config file /home/rob/.pikirc: bad key"
    );
    assert_eq!(
        Config::read_error("/x", "denied"),
        "Failed to read /x: denied"
    );
}

#[test]
fn home_is_used_when_set() {
    let home = home_dir_from(&[Some("/home/rob".to_string()), None]);
    assert_eq!(home, Some("/home/rob".to_string()));
}

#[test]
fn userprofile_is_used_when_home_is_unset() {
    let home = home_dir_from(&[None, Some(r"C:\Users\rob".to_string())]);
    assert_eq!(home, Some(r"C:\Users\rob".to_string()));
}

#[test]
fn empty_values_are_skipped() {
    let home = home_dir_from(&[Some(String::new()), Some(r"C:\Users\rob".to_string())]);
    assert_eq!(home, Some(r"C:\Users\rob".to_string()));
}

#[test]
fn no_home_yields_none_rather_than_a_relative_path() {
    assert_eq!(home_dir_from(&[None, None]), None);
    assert_eq!(default_notes_dir(None), None);
}

#[test]
fn the_notes_dir_is_dot_piki_under_the_home_dir() {
    assert_eq!(
        default_notes_dir(Some("/home/rob")),
        Some("/home/rob/.piki".to_string())
    );
}

#[test]
fn lock_attempts_reclaim_a_stale_file_once() {
    assert!(matches!(lock_step(0, LockAttempt::Created, "/r/.git/piki.lock"), LockStep::Acquired));
    assert!(matches!(
        lock_step(0, LockAttempt::AlreadyExists { stale: true }, "/p"),
        LockStep::Reclaim
    ));
    match lock_step(1, LockAttempt::AlreadyExists { stale: true }, "/p") {
        LockStep::Refuse(m) => assert!(m.starts_with("Another Piki process")),
        _ => panic!("second attempt must refuse"),
    }
    match lock_step(0, LockAttempt::Failed("denied".to_string()), "/p/piki.lock") {
        LockStep::Refuse(m) => assert_eq!(m, "Failed to create lock file /p/piki.lock: denied"),
        _ => panic!("failure must refuse"),
    }
    assert!(is_stale_age(601));
    assert!(!is_stale_age(600));
    assert_eq!(
        exhausted(),
        "Another Piki process is committing or syncing this notes directory."
    );
}

#[test]
fn state_files_live_in_the_data_directory() {
    assert_eq!(
        state_file_path(Some("/data/piki")),
        Some("/data/piki/window_state.toml".to_string())
    );
    assert_eq!(state_file_path(None), None);
    assert_eq!(recent_notes_file_name(0xab), "recent_notes_00000000000000ab.toml");
    assert_eq!(
        recent_notes_file_name(u64::MAX),
        "recent_notes_ffffffffffffffff.toml"
    );
    assert_eq!(
        recent_notes_file(Some("/d"), 0x0123456789abcdef),
        Some("/d/recent_notes_0123456789abcdef.toml".to_string())
    );
    assert_eq!(
        Settings::path(Some("/d")),
        Some("/d/settings.toml".to_string())
    );
    assert!(Settings::default().style_boundary_stops);
    assert!(!Settings::from_loaded(Some(Settings { style_boundary_stops: false })).style_boundary_stops);
    assert!(Settings::from_loaded(None).style_boundary_stops);
}

#[test]
fn sentinels_are_written_once() {
    let raw = r"{\rtf1 a\par b\PAR\'1e c\pard d\par}";
    let once = inject_paragraph_sentinels(raw).into_owned();
    assert_eq!(once, r"{\rtf1 a\par \'1eb\PAR\'1e c\pard d\par\'1e}");
    let twice = inject_paragraph_sentinels(&once);
    assert!(matches!(twice, std::borrow::Cow::Borrowed(_)));
    assert_eq!(twice, once);
}
