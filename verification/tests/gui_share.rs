use piki::gui::share_page::{assemble_fragment, not_found_page, page_html, render_sectioned_html, RenderedBlock};
use piki::gui::clipboard::{classify_plaintext, looks_like_markdown, ClipboardDocumentError, PlainPaste};
use piki::gui::live_share::{
    html_escape_attr, html_escape_text, inject_heading_ids, is_valid_note_name, json_string,
    mark_block_root, mark_lis, query_param, rewrite_link_target, version_token, HighlightTarget,
};
use piki::gui::nonprintable::{printable, sanitize_key_text};
use std::borrow::Cow;

#[test]
fn valid_note_names() {
    assert!(is_valid_note_name("frontpage"));
    assert!(is_valid_note_name("project-a/standup"));
    assert!(is_valid_note_name("sprint-q2.6"));

    assert!(!is_valid_note_name(""));
    assert!(!is_valid_note_name("/etc/passwd"));
    assert!(!is_valid_note_name(".."));
    assert!(!is_valid_note_name("a/../b"));
    assert!(!is_valid_note_name("a/./b"));
    assert!(!is_valid_note_name("a//b"));
    assert!(!is_valid_note_name("a\\b"));
    assert!(!is_valid_note_name("a\nb"));
}

#[test]
fn rewrites_internal_links_to_server_paths() {
    assert_eq!(rewrite_link_target("other"), Some("/other".into()));
    assert_eq!(rewrite_link_target("path/to/note"), Some("/path/to/note".into()));
    assert_eq!(rewrite_link_target("note#section"), Some("/note#section".into()));
    assert_eq!(
        rewrite_link_target("piki://work/auth#security-model"),
        Some("/work/auth#security-model".into())
    );
    assert_eq!(
        rewrite_link_target("Notes: Meeting"),
        Some("/Notes%3A%20Meeting".into())
    );
}

#[test]
fn leaves_external_and_anchor_links_untouched() {
    assert_eq!(rewrite_link_target("https://example.com/x"), None);
    assert_eq!(rewrite_link_target("http://example.com"), None);
    assert_eq!(rewrite_link_target("mailto:a@b.com"), None);
    assert_eq!(rewrite_link_target("#section"), None);
    assert_eq!(rewrite_link_target("   "), None);
}

#[test]
fn rewritten_fragment_is_encoded_as_a_component() {
    assert_eq!(rewrite_link_target(" a b#c/d "), Some("/a%20b#c%2Fd".into()));
    assert_eq!(rewrite_link_target("note#"), Some("/note".into()));
    assert_eq!(rewrite_link_target("#"), None);
}

#[test]
fn injects_heading_ids_in_order() {
    let html = "<h1>Title</h1>\n<p>x</p>\n<h2>Sub</h2>";
    let out = inject_heading_ids(html, &["title".into(), "sub".into()]);
    assert!(out.contains("<h1 id=\"title\">Title</h1>"), "{out}");
    assert!(out.contains("<h2 id=\"sub\">Sub</h2>"), "{out}");
}

#[test]
fn injects_heading_ids_alongside_active_class() {
    let html = "<h1 class=\"piki-active\">Title</h1>\n<h2>Sub</h2>";
    let out = inject_heading_ids(html, &["title".into(), "sub".into()]);
    assert!(
        out.contains("<h1 id=\"title\" class=\"piki-active\">Title</h1>"),
        "{out}"
    );
    assert!(out.contains("<h2 id=\"sub\">Sub</h2>"), "{out}");
}

#[test]
fn heading_ids_are_escaped_and_extra_anchors_ignored() {
    let out = inject_heading_ids("<h3>x</h3>", &["a\"b<".into(), "unused".into()]);
    assert_eq!(out, "<h3 id=\"a&quot;b&lt;\">x</h3>");
    assert_eq!(inject_heading_ids("<h1>a</h1><h2>b</h2>", &["x".into()]), "<h1 id=\"x\">a</h1><h2>b</h2>");
    assert_eq!(inject_heading_ids("<h4>a</h4>", &["x".into()]), "<h4>a</h4>");
}

#[test]
fn marks_block_roots_and_list_items() {
    assert_eq!(mark_block_root("<p>x</p>", true), "<p class=\"piki-active piki-lead\">x</p>");
    assert_eq!(mark_block_root("<p>x</p>", false), "<p class=\"piki-active\">x</p>");
    assert_eq!(mark_block_root("no tag", true), "no tag");
    let list = "<ul>\n  <li>one</li>\n  <li>two</li>\n  <li>three</li>\n</ul>";
    assert_eq!(
        mark_lis(list, &[1, 2, 9], Some(1)),
        "<ul>\n  <li>one</li>\n  <li class=\"piki-active piki-lead\">two</li>\n  <li class=\"piki-active\">three</li>\n</ul>"
    );
    assert_eq!(mark_lis(list, &[], Some(0)), list);
    assert_eq!(mark_lis(list, &[7], None), list);
}

#[test]
fn query_param_decodes_values() {
    assert_eq!(query_param("note=a%2Fb", "note"), Some("a/b".into()));
    assert_eq!(query_param("raw=1", "raw"), Some("1".into()));
    assert_eq!(query_param("note=x&raw=1", "raw"), Some("1".into()));
    assert_eq!(query_param("note=x", "raw"), None);
}

#[test]
fn query_param_reads_plus_as_space_and_takes_the_first_match() {
    assert_eq!(query_param("q=a+b%2B&q=c", "q"), Some("a b+".into()));
    assert_eq!(query_param("raw", "raw"), Some("".into()));
    assert_eq!(query_param("", "raw"), None);
}

#[test]
fn escaping_and_json() {
    assert_eq!(html_escape_text("a<b>&c\""), "a&lt;b&gt;&amp;c\"");
    assert_eq!(html_escape_attr("a<b>&c\""), "a&lt;b&gt;&amp;c&quot;");
    assert_eq!(json_string("g1"), "\"g1\"");
    assert_eq!(json_string("a\"b\\c\nd\u{1}\t"), "\"a\\\"b\\\\c\\nd\\u0001\\t\"");
}

#[test]
fn version_tokens() {
    assert_eq!(version_token("cur", "cur", 7, 123), "g7");
    assert_eq!(version_token("gone", "cur", 7, 0), "m0");
    assert_eq!(version_token("other", "cur", 7, 1_700_000_000_000_000_000), "m1700000000000000000");
    assert_eq!(version_token("../x", "cur", 7, 5), "invalid");
}

#[test]
fn prose_with_incidental_markdown_lookalikes_stays_literal() {
    assert!(!looks_like_markdown(
        "Ein Absatz.\n- ein einzelner Strich\nNoch ein Absatz."
    ));
    assert!(!looks_like_markdown(
        "Termin\n1. Juli 2010 ist der Stichtag\nDanach nicht mehr."
    ));
    assert!(!looks_like_markdown(
        "list_all_documents() liefert alles.\nDas ist die snake_case Variante."
    ));
    assert!(!looks_like_markdown(
        "Preis 5 * 3 Euro\nZahlung* bis Freitag\n* Fußnote"
    ));
}

#[test]
fn decisive_markdown_syntax_is_detected() {
    assert!(looks_like_markdown("# Überschrift\n\nEtwas Text."));
    assert!(looks_like_markdown("see [the docs](https://example.test) for more"));
    assert!(looks_like_markdown("Setup\n\n```sh\ncargo build\n```\n"));
    assert!(looks_like_markdown("- [ ] offen\n- [x] erledigt"));
    assert!(looks_like_markdown("| a | b |\n|---|---|\n| 1 | 2 |"));
    assert!(looks_like_markdown("[docs]: https://example.test"));
    assert!(looks_like_markdown("Hello **World**!"));
    assert!(!looks_like_markdown("- Milch"));
    assert!(!looks_like_markdown("1. Juli 2010 ist der Stichtag"));
    assert!(looks_like_markdown("- Milch\n- Eier\n- Brot"));
    assert!(looks_like_markdown("# Titel\n\nEin Absatz.\n\n- eins\n- zwei\n"));
}

#[test]
fn printable_leaves_ordinary_text_borrowed() {
    assert!(matches!(printable("Deployment [RL]"), Cow::Borrowed(_)));
    assert_eq!(printable("Ünïcödé — 😀\tok\n"), "Ünïcödé — 😀\tok\n");
}

#[test]
fn printable_substitutes_control_pictures() {
    assert_eq!(printable("Depl\u{1b}oyment"), "Depl␛oyment");
    assert_eq!(printable("\u{0}\u{7}\u{1f}"), "␀␇␟");
    assert_eq!(printable("\u{7f}"), "␡");
    assert_eq!(printable("\u{85}"), "\u{fffd}");
}

#[test]
fn printable_preserves_char_count_so_measurements_stay_aligned() {
    let text = "a\u{1b}b\u{7f}c";
    assert_eq!(printable(text).chars().count(), text.chars().count());
}

#[test]
fn sanitize_key_text_keeps_ordinary_typed_text() {
    assert_eq!(sanitize_key_text("a"), "a");
    assert_eq!(sanitize_key_text("Ünïcödé — ok 😀"), "Ünïcödé — ok 😀");
    assert_eq!(sanitize_key_text(" "), " ");
}

#[test]
fn sanitize_key_text_drops_control_and_function_key_codepoints() {
    assert_eq!(sanitize_key_text("\u{1b}"), "");
    assert_eq!(sanitize_key_text("\t"), "");
    assert_eq!(sanitize_key_text("\r"), "");
    assert_eq!(sanitize_key_text("\u{f704}"), "");
    assert_eq!(sanitize_key_text("a\u{1b}b"), "ab");
}

fn block(is_heading: bool, html: &str) -> RenderedBlock {
    RenderedBlock { is_heading, html: html.to_string() }
}

#[test]
fn sections_group_each_heading_with_what_follows() {
    let blocks = vec![
        block(false, "<p>intro</p>"),
        block(true, "<h1>One</h1>"),
        block(false, "<p>a</p>"),
        block(true, "<h2>Two</h2>"),
    ];
    let html = render_sectioned_html(&blocks, &[]);
    assert_eq!(
        html,
        "<p>intro</p>\n<section class=\"piki-sec\">\n<h1>One</h1>\n<p>a</p>\n</section>\n<section class=\"piki-sec\">\n<h2>Two</h2>\n</section>\n"
    );
}

#[test]
fn sectioned_html_marks_only_the_highlighted_paragraph() {
    let blocks = vec![
        block(true, "<h1>Title</h1>"),
        block(false, "<p>First para</p>"),
        block(false, "<p>Second para</p>"),
    ];
    let f = render_sectioned_html(&blocks, &[HighlightTarget { block: 2, li: None }]);
    assert!(f.contains("<p class=\"piki-active piki-lead\">Second para</p>"), "{f}");
    assert!(f.contains("<p>First para</p>"), "{f}");
    assert_eq!(f.matches("piki-active").count(), 1, "{f}");
}

#[test]
fn sectioned_html_gives_the_arrow_to_the_first_in_document_order() {
    let list = "<ul>\n  <li>\n    <p>one</p>\n  </li>\n  <li>\n    <p>two</p>\n  </li>\n  <li>\n    <p>three</p>\n  </li>\n</ul>";
    let blocks = vec![block(false, list)];
    let f = render_sectioned_html(
        &blocks,
        &[HighlightTarget { block: 0, li: Some(2) }, HighlightTarget { block: 0, li: Some(1) }],
    );
    assert_eq!(f.matches("piki-active").count(), 2, "{f}");
    assert_eq!(f.matches("piki-lead").count(), 1, "{f}");
    assert!(f.contains("<li class=\"piki-active piki-lead\">\n    <p>two</p>"), "{f}");
    assert!(f.contains("<li class=\"piki-active\">\n    <p>three</p>"), "{f}");
    assert!(f.contains("<li>\n    <p>one</p>"), "{f}");
}

#[test]
fn sectioned_html_ignores_highlights_out_of_range() {
    let blocks = vec![block(false, "<ul>\n  <li>\n    <p>one</p>\n  </li>\n</ul>")];
    let f = render_sectioned_html(
        &blocks,
        &[HighlightTarget { block: 0, li: Some(9) }, HighlightTarget { block: 7, li: None }],
    );
    assert!(!f.contains("piki-active"), "{f}");
}

#[test]
fn assembled_fragment_has_heading_ids_and_highlight() {
    let blocks = vec![block(true, "<h1>Title</h1>"), block(false, "<p>Body</p>")];
    let f = assemble_fragment(&blocks, &["title".to_string()], &[HighlightTarget { block: 0, li: None }]);
    assert!(f.contains("<h1 id=\"title\" class=\"piki-active piki-lead\">Title</h1>"), "{f}");
    assert!(f.contains("<section class=\"piki-sec\">"), "{f}");
}

#[test]
fn page_shell_carries_styles_scripts_and_footer() {
    let page = page_html("front<page>", "<h1 id=\"hi\">Hi</h1>", "g1");
    assert!(page.starts_with("<!doctype html>\n<html lang=\"en\">"), "{page}");
    assert!(page.contains("<title>front&lt;page&gt;</title>"), "{page}");
    assert!(page.contains("<div id=\"piki-doc\">\n<h1 id=\"hi\">Hi</h1>\n</div>"), "{page}");
    assert!(page.contains("window.__pikiInitialVersion = \"g1\";"), "{page}");
    assert!(page.contains(".piki-active"), "{page}");
    assert!(page.contains("li.piki-lead::before"), "{page}");
    assert!(page.contains("rgba(240, 140, 0, 0.22)"), "{page}");
    assert!(page.contains("scrollIntoView"), "{page}");
    assert!(page.contains("@keyframes piki-active-band"), "{page}");
    assert!(page.contains("@keyframes piki-active-arrow"), "{page}");
    assert!(page.contains("prefers-reduced-motion"), "{page}");
    assert!(page.contains("id=\"piki-footer\""), "{page}");
    assert!(page.contains("Shared by Piki v0.1.0"), "{page}");
    assert!(page.contains("data-cols=\"1\""), "{page}");
    assert!(page.contains("data-cols=\"2\""), "{page}");
    assert!(page.contains("data-spacing=\"wide\""), "{page}");
    assert!(page.contains("data-spacing=\"compact\""), "{page}");
    assert!(page.contains("body.compact"), "{page}");
    assert!(page.contains("#piki-footer.piki-faded"), "{page}");
    assert!(page.contains("body.cols-2"), "{page}");
    assert!(page.contains("avoid-column"), "{page}");
    assert!(page.contains("<meta name=\"color-scheme\" content=\"light dark\" />"), "{page}");
    assert!(page.contains("color-scheme: light dark;"), "{page}");
    assert!(page.contains("@media (prefers-color-scheme: dark)"), "{page}");
}

#[test]
fn not_found_page_names_the_note() {
    let page = not_found_page("a<b");
    assert!(page.contains("<code>a&lt;b</code> is not being shared."), "{page}");
    assert!(page.contains("<title>Not found</title>"), "{page}");
}

fn lines_of_paste(text: &str) -> Vec<String> {
    match classify_plaintext(text) {
        Ok(PlainPaste::Lines(ls)) => ls,
        Ok(PlainPaste::Markdown(m)) => panic!("read as Markdown: {m:?}"),
        Err(e) => panic!("no document: {e:?}"),
    }
}

#[test]
fn plain_paste_is_one_line_per_paragraph() {
    assert_eq!(lines_of_paste("Dear Anna,\nthanks.\n\nBest"), vec!["Dear Anna,", "thanks.", "", "Best"]);
}

#[test]
fn plain_paste_normalizes_crlf_and_cr_and_one_trailing_newline() {
    assert_eq!(lines_of_paste("a\r\nb\rc\n"), vec!["a", "b", "c"]);
    assert_eq!(lines_of_paste("a\n\n"), vec!["a", ""]);
}

#[test]
fn blank_paste_is_empty_and_markdown_is_kept_whole() {
    assert!(matches!(classify_plaintext("  \n\t"), Err(ClipboardDocumentError::Empty)));
    match classify_plaintext("# Title\r\n\r\nbody\r\n") {
        Ok(PlainPaste::Markdown(m)) => assert_eq!(m, "# Title\n\nbody"),
        _ => panic!("expected Markdown"),
    }
}
