use piki::cli::{parse_note, render_for_terminal, render_for_width};
use piki::cli::{
    configure_style_for_width, first_positional, highlight_terms, highlight_terms_checked,
    is_absolute_url,
    link_candidates, view_source, wants_help, ViewSource, C_MATCH, C_RESET,
};

fn terms(t: &[&str]) -> Vec<String> {
    t.iter().map(|s| s.to_string()).collect()
}

#[test]
fn highlight_marks_every_case_insensitive_occurrence() {
    let out = highlight_terms("Apple pie and apple tart", &terms(&["apple"]), true);
    assert_eq!(
        out,
        format!("{C_MATCH}Apple{C_RESET} pie and {C_MATCH}apple{C_RESET} tart")
    );
}

#[test]
fn highlight_merges_overlapping_and_touching_matches() {
    let out = highlight_terms("abcdef", &terms(&["abc", "bcd"]), true);
    assert_eq!(out, format!("{C_MATCH}abcd{C_RESET}ef"));
    let out = highlight_terms("abcdef", &terms(&["ab", "cd"]), true);
    assert_eq!(out, format!("{C_MATCH}abcd{C_RESET}ef"));
}

#[test]
fn highlight_resumes_each_search_after_the_previous_match() {
    // "aa" matches at 0 only; the search resumes at 2, where one "a" is left.
    let out = highlight_terms("aaa", &terms(&["aa"]), true);
    assert_eq!(out, format!("{C_MATCH}aa{C_RESET}a"));
}

#[test]
fn highlight_off_or_without_terms_leaves_the_line() {
    assert_eq!(highlight_terms("Apple", &terms(&["apple"]), false), "Apple");
    assert_eq!(highlight_terms("Apple", &[], true), "Apple");
    assert_eq!(highlight_terms("pear", &terms(&["apple"]), true), "pear");
}

#[test]
fn highlight_skips_lines_whose_lowercase_changes_length() {
    // 'İ' lowercases to two characters, three bytes instead of two.
    assert_eq!(highlight_terms("İstanbul", &terms(&["stan"]), true), "İstanbul");
}

#[test]
fn highlight_keeps_multibyte_characters_intact() {
    let out = highlight_terms("Café au lait", &terms(&["café"]), true);
    assert_eq!(out, format!("{C_MATCH}Café{C_RESET} au lait"));
}

#[test]
fn view_source_of_plugins_and_notes() {
    assert_eq!(view_source("!index"), ViewSource::Plugin("index".to_string()));
    assert_eq!(view_source("notes"), ViewSource::Note("notes".to_string()));
}

#[test]
fn terminal_layout_by_width() {
    assert_eq!(configure_style_for_width(40), (39, 0));
    assert_eq!(configure_style_for_width(80), (78, 2));
    assert_eq!(configure_style_for_width(140), (116, 24));
}

#[test]
fn absolute_urls_are_recognised() {
    assert!(is_absolute_url("https://example.com"));
    assert!(is_absolute_url("mailto:a@b.c"));
    assert!(is_absolute_url("//host/path"));
    assert!(!is_absolute_url("notes/page"));
    assert!(!is_absolute_url("page.md"));
}

#[test]
fn link_candidates_for_relative_and_absolute_targets() {
    let c = link_candidates("/n", "/real/n", Some("/real/n/dir/cur.md"), " sub/page#sec ").unwrap();
    assert_eq!(c.plugin, None);
    assert_eq!(c.files, vec!["/real/n/dir/sub/page.md".to_string(), "/real/n/dir/sub/page".to_string()]);

    let c = link_candidates("/n", "/real/n", None, "//x").map(|c| c.files);
    assert_eq!(c, None);

    let c = link_candidates("/n", "/real/n", None, "/top/page.md").unwrap();
    assert_eq!(c.files, vec!["/n/top/page.md".to_string()]);

    let c = link_candidates("/n", "/real/n", None, "!todo").unwrap();
    assert_eq!(c.plugin, Some("todo".to_string()));
    assert_eq!(c.files, vec!["/real/n/!todo.md".to_string(), "/real/n/!todo".to_string()]);
}

#[test]
fn links_not_followed() {
    assert!(link_candidates("/n", "/n", None, "   ").is_none());
    assert!(link_candidates("/n", "/n", None, "#section").is_none());
    assert!(link_candidates("/n", "/n", None, "https://example.com").is_none());
    assert!(link_candidates("/n", "/n", None, " #x").is_none());
}

#[test]
fn help_and_positional_arguments() {
    let a = |v: &[&str]| v.iter().map(|s| s.to_string()).collect::<Vec<_>>();
    assert!(wants_help(&a(&["piki", "help"])));
    assert!(wants_help(&a(&["piki", "-h"])));
    assert!(!wants_help(&a(&["piki", "view", "--help"])));
    assert_eq!(first_positional(&a(&["piki", "-d", "dir", "today"])), Some(3));
    assert_eq!(first_positional(&a(&["piki", "--directory=dir", "x"])), Some(2));
    assert_eq!(first_positional(&a(&["piki", "-d"])), None);
    assert_eq!(first_positional(&a(&["piki"])), None);
}

#[test]
fn empty_term_is_harmless_when_not_highlighting() {
    assert_eq!(highlight_terms("Apple", &terms(&[""]), false), "Apple");
    assert_eq!(highlight_terms_checked("Apple", &terms(&[""]), false), Some("Apple".to_string()));
}

#[test]
fn empty_term_is_refused_when_highlighting() {
    assert_eq!(highlight_terms_checked("abc", &terms(&[""]), true), None);
    assert_eq!(
        highlight_terms_checked("abc", &terms(&["b"]), true),
        Some(format!("a{C_MATCH}b{C_RESET}c"))
    );
}

#[test]
fn notes_parse_and_render_for_the_terminal() {

    let doc = parse_note("# Title\n\nSome *text*.\n").unwrap();
    let wide = render_for_width(&doc, 120).unwrap();
    assert!(wide.contains("Title"), "{wide}");
    assert!(wide.contains("text"), "{wide}");
    let narrow = render_for_width(&doc, 40).unwrap();
    assert!(narrow.contains("Title"), "{narrow}");
    let default = render_for_terminal(&doc, None).unwrap();
    assert!(default.contains("Title"), "{default}");
    assert_eq!(render_for_terminal(&doc, Some(120)).unwrap(), wide);
}
