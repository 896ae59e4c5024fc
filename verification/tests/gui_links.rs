use piki::gui::link_handler::{find_link_at_position, is_external_link, Link};
use piki::gui::percent::percent_decode;
use piki::gui::section_link::{
    build_piki_url, heading_anchors, heading_slug, normalize_link_target, split_target,
};

#[test]
fn slug_basics() {
    assert_eq!(heading_slug("Hello World"), "hello-world");
    assert_eq!(heading_slug("Security Model"), "security-model");
    assert_eq!(heading_slug("  Trailing spaces  "), "trailing-spaces");
    assert_eq!(heading_slug("Notes: Meeting!"), "notes-meeting");
    assert_eq!(heading_slug("Q4 — Budget (2026)"), "q4-budget-2026");
    assert_eq!(heading_slug("under_score and-dash"), "under-score-and-dash");
    assert_eq!(heading_slug("multiple   spaces"), "multiple-spaces");
    assert_eq!(heading_slug("---"), "");
    assert_eq!(heading_slug(""), "");
}

#[test]
fn anchors_disambiguate_duplicates() {
    let headings = ["Notes", "Details", "Notes", "notes"];
    let anchors = heading_anchors(&headings);
    assert_eq!(anchors, vec!["notes", "details", "notes-1", "notes-2"]);
}

#[test]
fn anchors_skip_suffixes_already_taken() {
    assert_eq!(heading_anchors(&["a", "a", "a-1"]), vec!["a", "a-1", "a-1-1"]);
    assert_eq!(heading_anchors(&["a-1", "a", "a"]), vec!["a-1", "a", "a-2"]);
}

#[test]
fn anchors_count_each_slug_separately() {
    let headings = ["A", "B", "a", "b", "A", "C"];
    let anchors = heading_anchors(&headings);
    assert_eq!(anchors, vec!["a", "b", "a-1", "b-1", "a-2", "c"]);
    let empty: [&str; 0] = [];
    assert!(heading_anchors(&empty).is_empty());
}

#[test]
fn split_target_splits_on_first_hash() {
    assert_eq!(split_target("note"), ("note", None));
    assert_eq!(split_target("note#sec"), ("note", Some("sec")));
    assert_eq!(
        split_target("path/to/note#sec-tion"),
        ("path/to/note", Some("sec-tion"))
    );
    assert_eq!(split_target("note#a#b"), ("note", Some("a#b")));
    assert_eq!(split_target("note#"), ("note", Some("")));
}

#[test]
fn build_url_roundtrips_through_normalize() {
    let url = build_piki_url("work/auth-refactor", Some("security-model"));
    assert_eq!(url, "piki://work/auth-refactor#security-model");
    assert_eq!(normalize_link_target(&url), "work/auth-refactor#security-model");

    let url = build_piki_url("frontpage", None);
    assert_eq!(url, "piki://frontpage");
    assert_eq!(normalize_link_target(&url), "frontpage");

    assert_eq!(build_piki_url("frontpage", Some("")), "piki://frontpage");
}

#[test]
fn build_url_percent_encodes_spaces() {
    let url = build_piki_url("Notes: Meeting", Some("agenda"));
    assert_eq!(url, "piki://Notes%3A%20Meeting#agenda");
    assert_eq!(normalize_link_target(&url), "Notes: Meeting#agenda");
}

#[test]
fn roundtrip_keeps_non_ascii_and_reserved_characters() {
    let note = "Ärger/über ~100%";
    let anchor = "a/b c#d";
    let url = build_piki_url(note, Some(anchor));
    assert!(url.is_ascii());
    assert_eq!(url, "piki://%C3%84rger/%C3%BCber%20~100%25#a%2Fb%20c%23d");
    assert_eq!(normalize_link_target(&url), format!("{note}#{anchor}"));
}

#[test]
fn normalize_leaves_non_piki_untouched() {
    assert_eq!(normalize_link_target("note#sec"), "note#sec");
    assert_eq!(normalize_link_target("path/to/note"), "path/to/note");
    assert_eq!(
        normalize_link_target("https://example.com/x"),
        "https://example.com/x"
    );
    assert_eq!(normalize_link_target("  note "), "  note ");
}

#[test]
fn normalize_handles_scheme_case_and_missing_slashes() {
    assert_eq!(normalize_link_target("PIKI://frontpage"), "frontpage");
    assert_eq!(normalize_link_target("piki:frontpage#top"), "frontpage#top");
    assert_eq!(normalize_link_target("  piki://a%20b  "), "a b");
}

#[test]
fn percent_decode_tolerates_stray_percent() {
    assert_eq!(percent_decode("100%"), "100%");
    assert_eq!(percent_decode("a%2"), "a%2");
    assert_eq!(percent_decode("a%zz"), "a%zz");
    assert_eq!(percent_decode("%41%42"), "AB");
}

#[test]
fn percent_decode_replaces_invalid_utf8() {
    assert_eq!(percent_decode("%C3%A4"), "ä");
    assert_eq!(percent_decode("a%FFb"), "a\u{fffd}b");
}

#[test]
fn test_is_external_link() {
    assert!(is_external_link("http://example.com"));
    assert!(is_external_link("https://example.com/path?q=1"));
    assert!(is_external_link("ftp://files.example.com"));
    assert!(is_external_link("file:///etc/hosts"));
    assert!(is_external_link("HTTPS://EXAMPLE.COM"));
    assert!(is_external_link("  https://example.com"));

    assert!(is_external_link("mailto:user@example.com"));
    assert!(is_external_link("tel:+1234567890"));

    assert!(!is_external_link("frontpage"));
    assert!(!is_external_link("some/page.md"));
    assert!(!is_external_link("[[WikiPage]]"));
    assert!(!is_external_link("Notes: Meeting"));
    assert!(!is_external_link("C:\\path\\file"));
}

#[test]
fn external_link_scheme_must_start_with_a_letter() {
    assert!(!is_external_link("1http://example.com"));
    assert!(!is_external_link("://example.com"));
    assert!(is_external_link("svn+ssh://host/repo"));
    assert!(is_external_link("MailTo:someone@example.com"));
}

fn link(start: usize, end: usize, dest: &str) -> Link {
    Link {
        start,
        end,
        destination: dest.to_string(),
        text: dest.to_string(),
    }
}

#[test]
fn link_at_position_is_the_first_covering_one() {
    let links = vec![link(0, 5, "a"), link(3, 9, "b"), link(12, 14, "c")];
    assert_eq!(find_link_at_position(&links, 0).unwrap().destination, "a");
    assert_eq!(find_link_at_position(&links, 4).unwrap().destination, "a");
    assert_eq!(find_link_at_position(&links, 5).unwrap().destination, "b");
    assert!(find_link_at_position(&links, 9).is_none());
    assert_eq!(find_link_at_position(&links, 13).unwrap().destination, "c");
    assert!(find_link_at_position(&links, 14).is_none());
    assert!(find_link_at_position(&[], 0).is_none());
}

#[test]
fn wiki_links_match_leftmost_and_run_to_the_first_bracket() {
    let links = piki::gui::link_handler::extract_links("é [[[a]] x [[b]c]] [[d]]");
    let pages: Vec<(&str, usize, usize)> =
        links.iter().map(|l| (l.destination.as_str(), l.start, l.end)).collect();
    assert_eq!(pages, vec![("[a", 3, 9), ("d", 20, 25)]);
}
