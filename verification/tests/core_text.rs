use piki::document::{
    ensure_md_extension, has_md_extension, numbered_attachment_name, sanitize_attachment_name,
    DocumentStore,
};
use piki::git::message::{commit_message, describe_change, Change};
use piki::git::report::{regex_escape, RemoteOutcome, SyncReport};
use piki::search::{contains_all_terms, first_snippet, matching_lines, parse_terms, search_store};
use std::path::PathBuf;

#[test]
fn test_md_extension_helpers() {
    assert!(has_md_extension("notes.md"));
    assert!(has_md_extension("notes.MD"));
    assert!(!has_md_extension("sprint-q2.6"));
    assert!(!has_md_extension("md"));

    assert_eq!(ensure_md_extension("sprint-q2.6"), "sprint-q2.6.md");
    assert_eq!(ensure_md_extension("notes.md"), "notes.md");
    assert_eq!(ensure_md_extension("notes.MD"), "notes.MD");
}

#[test]
fn test_sanitize_attachment_name() {
    assert_eq!(sanitize_attachment_name("My Report.pdf"), "My-Report.pdf");
    assert_eq!(sanitize_attachment_name("photo (1).png"), "photo-1.png");
    assert_eq!(sanitize_attachment_name("a  b   c.txt"), "a-b-c.txt");
    assert_eq!(sanitize_attachment_name("clean_name-1.PNG"), "clean_name-1.PNG");
    assert_eq!(sanitize_attachment_name("***"), "attachment");
    assert_eq!(sanitize_attachment_name("café.png"), "café.png");
}

#[test]
fn test_attachments_dir_is_page_sibling() {
    let store = DocumentStore::new("/vault".to_string());
    assert_eq!(
        PathBuf::from(store.attachments_dir("frontpage")),
        PathBuf::from("/vault/assets")
    );
    assert_eq!(
        PathBuf::from(store.attachments_dir("work/projects/q4")),
        PathBuf::from("/vault/work/projects/assets")
    );
}

#[test]
fn numbered_attachment_names_keep_the_extension() {
    assert_eq!(numbered_attachment_name("source.png", 1), "source-1.png");
    assert_eq!(numbered_attachment_name("README", 12), "README-12");
    assert_eq!(numbered_attachment_name(".hidden", 2), ".hidden-2");
}

#[test]
fn attachment_candidates_skip_pages_and_blanks() {
    let store = DocumentStore::new("/vault".to_string());
    assert_eq!(
        store.attachment_candidate("work/q4", " assets/report.pdf "),
        Some("/vault/work/assets/report.pdf".to_string())
    );
    assert_eq!(store.attachment_candidate("work/q4", "other.md"), None);
    assert_eq!(store.attachment_candidate("work/q4", "   "), None);
    assert_eq!(store.page_path("project-a/standup"), "/vault/project-a/standup.md");
    assert_eq!(store.page_path("notes.md"), "/vault/notes.md");
}

#[test]
fn single_changes_have_specific_titles() {
    assert_eq!(
        commit_message(&[Change::Added("recipes.md".into())]).unwrap(),
        "New note: recipes"
    );
    assert_eq!(
        commit_message(&[Change::Modified("work/standup.md".into())]).unwrap(),
        "Note work/standup edited"
    );
    assert_eq!(
        commit_message(&[Change::Deleted("old.md".into())]).unwrap(),
        "Note old deleted"
    );
    assert_eq!(
        commit_message(&[Change::Renamed("untitled_1.md".into(), "recipes.md".into())]).unwrap(),
        "Note untitled_1 renamed to recipes"
    );
}

#[test]
fn non_note_files_are_called_files() {
    assert_eq!(
        commit_message(&[Change::Added("img/photo.png".into())]).unwrap(),
        "New file: img/photo.png"
    );
    assert_eq!(
        commit_message(&[Change::Modified(".gitignore".into())]).unwrap(),
        "File .gitignore edited"
    );
}

#[test]
fn dotted_note_names_keep_their_dots() {
    assert_eq!(
        describe_change(&Change::Modified("sprint-q2.6.md".into())),
        "Note sprint-q2.6 edited"
    );
}

#[test]
fn several_changes_get_a_summary_title_and_a_body() {
    let msg = commit_message(&[
        Change::Modified("a.md".into()),
        Change::Added("b.md".into()),
        Change::Deleted("c.md".into()),
    ])
    .unwrap();
    let mut lines = msg.lines();
    assert_eq!(lines.next(), Some("Note a edited (+2 more)"));
    assert_eq!(lines.next(), Some(""));
    assert_eq!(lines.next(), Some("* Note a edited"));
    assert_eq!(lines.next(), Some("* New note: b"));
    assert_eq!(lines.next(), Some("* Note c deleted"));
    assert_eq!(lines.next(), None);
}

#[test]
fn no_changes_no_message() {
    assert_eq!(commit_message(&[]), None);
}

#[test]
fn regex_escaping() {
    assert_eq!(regex_escape("laptop"), "laptop");
    assert_eq!(regex_escape("a.b"), r"a\.b");
    assert_eq!(regex_escape("x(1)"), r"x\(1\)");
}

#[test]
fn outcome_descriptions() {
    let mut o = RemoteOutcome {
        remote: "laptop".into(),
        ..Default::default()
    };
    assert_eq!(o.describe(), "laptop: already up to date");
    o.pushed = true;
    assert_eq!(o.describe(), "laptop: pushed changes");
    o.pulled = true;
    assert_eq!(o.describe(), "laptop: pulled and pushed changes");
    o.merged = true;
    assert_eq!(o.describe(), "laptop: merged remote changes and pushed");
    o.pushed = false;
    assert_eq!(o.describe(), "laptop: merged remote changes");
}

#[test]
fn report_summary_prefers_errors() {
    let report = SyncReport {
        committed: None,
        outcomes: vec![
            Ok(RemoteOutcome {
                remote: "a".into(),
                pushed: true,
                ..Default::default()
            }),
            Err("boom".into()),
        ],
        changed_paths: vec![],
    };
    assert!(report.has_errors());
    assert_eq!(report.summary(), "Sync failed: boom");
    let ok = SyncReport {
        outcomes: vec![Ok(RemoteOutcome {
            remote: "a".into(),
            ..Default::default()
        })],
        ..Default::default()
    };
    assert_eq!(ok.summary(), "Synced. a: already up to date");
    assert_eq!(SyncReport::default().summary(), "Nothing to sync with.");
}

#[test]
fn report_summary_joins_outcomes_and_counts_errors() {
    let two_ok = SyncReport {
        outcomes: vec![
            Ok(RemoteOutcome { remote: "a".into(), ..Default::default() }),
            Ok(RemoteOutcome { remote: "b".into(), pulled: true, ..Default::default() }),
        ],
        ..Default::default()
    };
    assert_eq!(two_ok.summary(), "Synced. a: already up to date; b: pulled changes");
    assert!(two_ok.pulled());
    assert!(!two_ok.has_errors());
    let two_err = SyncReport {
        outcomes: vec![Err("x".into()), Err("y".into())],
        ..Default::default()
    };
    assert_eq!(two_err.summary(), "Sync failed for 2 remotes: x");
    assert_eq!(two_err.errors(), vec!["x", "y"]);
}

#[test]
fn parse_terms_lowercases_and_splits() {
    assert_eq!(parse_terms("  Hello   World "), vec!["hello", "world"]);
    assert!(parse_terms("   ").is_empty());
}

#[test]
fn contains_all_terms_is_and_semantics() {
    let hay = "the quick brown fox".to_string();
    assert!(contains_all_terms(&hay, &parse_terms("quick fox")));
    assert!(contains_all_terms(&hay, &parse_terms("QUICK FOX")));
    assert!(!contains_all_terms(&hay, &parse_terms("quick cat")));
    assert!(contains_all_terms(&hay, &[]));
}

#[test]
fn matching_lines_reports_line_numbers_for_any_term() {
    let content = "alpha line\nbeta here\ngamma and beta\n";
    let terms = parse_terms("beta");
    assert_eq!(
        matching_lines(content, &terms),
        vec![(2, "beta here".to_string()), (3, "gamma and beta".to_string())]
    );
}

#[test]
fn matching_lines_matches_any_of_multiple_terms() {
    let content = "has alpha\nhas beta\nhas neither\n";
    let terms = parse_terms("alpha beta");
    assert_eq!(
        matching_lines(content, &terms),
        vec![(1, "has alpha".to_string()), (2, "has beta".to_string())]
    );
}

#[test]
fn first_snippet_prefers_the_line_with_most_terms() {
    let content = "just alpha here\nalpha and beta together\nbeta alone\n";
    let terms = parse_terms("alpha beta");
    assert_eq!(
        first_snippet(content, &terms),
        Some((2, "alpha and beta together".to_string()))
    );
}

#[test]
fn first_snippet_trims_and_falls_back_to_none() {
    assert_eq!(
        first_snippet("   padded match  \n", &parse_terms("match")),
        Some((1, "padded match".to_string()))
    );
    assert_eq!(first_snippet("nothing here", &parse_terms("zzz")), None);
}

#[test]
fn search_store_finds_notes_with_all_terms() {
    let notes = vec![
        ("a".to_string(), "the quick brown fox".to_string()),
        ("b".to_string(), "quick notes only".to_string()),
        ("sub/c".to_string(), "a fox is quick and brown".to_string()),
    ];
    let results = search_store(&notes, "quick brown");
    let names: Vec<_> = results.iter().map(|r| r.name.as_str()).collect();
    assert_eq!(names, vec!["a", "sub/c"]);
    assert_eq!(results[0].lines, vec![(1, "the quick brown fox".to_string())]);
    assert!(search_store(&notes, "   ").is_empty());
}

#[test]
fn sanitized_names_keep_only_safe_characters() {
    let names = [
        "photo (1).png",
        "..--..",
        "a--.b",
        "Über Straße.jpg",
        "  ",
        "report.final.PDF",
        "-x-",
    ];
    for name in names {
        let safe = sanitize_attachment_name(name);
        assert!(!safe.is_empty(), "{name:?}");
        assert!(
            safe.chars().all(|c| c.is_alphanumeric() || matches!(c, '.' | '-' | '_')),
            "{name:?} gave {safe:?}"
        );
        assert!(!safe.starts_with(['-', '.']) && !safe.ends_with(['-', '.']), "{safe:?}");
    }
    assert_eq!(sanitize_attachment_name("..--.."), "attachment");
    assert_eq!(sanitize_attachment_name("-x-"), "x");
    assert_eq!(sanitize_attachment_name("a--.b"), "a-.b");
}

#[test]
fn md_extension_is_added_once() {
    for name in ["notes", "sprint-q2.6", "README.MD", "a.md", ""] {
        let once = ensure_md_extension(name);
        assert!(has_md_extension(&once), "{name:?}");
        assert_eq!(ensure_md_extension(&once), once);
    }
}

#[test]
fn first_snippet_counts_each_term_once() {
    let terms = vec!["a".to_string(), "a".to_string(), "b".to_string()];
    assert_eq!(first_snippet("b\na", &terms), Some((1, "b".to_string())));
}

#[test]
fn search_store_lists_results_by_name() {
    let notes = vec![
        ("zeta".to_string(), "x here".to_string()),
        ("alpha".to_string(), "no".to_string()),
        ("beta".to_string(), "X there".to_string()),
    ];
    let results = search_store(&notes, "x");
    let names: Vec<&str> = results.iter().map(|r| r.name.as_str()).collect();
    assert_eq!(names, vec!["beta", "zeta"]);
    assert_eq!(results[0].lines, vec![(1, "X there".to_string())]);
}
