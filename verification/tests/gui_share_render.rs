use piki::gui::live_share::HighlightTarget;
use piki::gui::share_render::{render_fragment, render_page};

fn at(block: usize, li: Option<usize>) -> HighlightTarget {
    HighlightTarget { block, li }
}

#[test]
fn render_fragment_rewrites_links_and_adds_anchors() {
    let md = "# Hello World\n\nSee [other](other) and [ext](https://example.com).\n";
    let fragment = render_fragment(md, &[]);
    assert!(fragment.contains("<h1 id=\"hello-world\">"), "{fragment}");
    assert!(fragment.contains("<section class=\"piki-sec\">"), "{fragment}");
    assert!(fragment.contains("href=\"/other\""), "{fragment}");
    assert!(fragment.contains("href=\"https://example.com\""), "{fragment}");
}

#[test]
fn marks_active_paragraph_only() {
    let md = "# Title\n\nFirst para\n\nSecond para\n";
    let f = render_fragment(md, &[at(2, None)]);
    assert!(f.contains("<p class=\"piki-active piki-lead\">Second para</p>"), "{f}");
    assert!(f.contains("<p>First para</p>"), "{f}");
    assert_eq!(f.matches("piki-active").count(), 1, "{f}");
    assert_eq!(f.matches("piki-lead").count(), 1, "{f}");
}

#[test]
fn marks_active_heading_and_keeps_its_id() {
    let md = "# Title\n\nBody\n";
    let f = render_fragment(md, &[at(0, None)]);
    assert!(
        f.contains("<h1 id=\"title\" class=\"piki-active piki-lead\">Title</h1>"),
        "{f}"
    );
}

#[test]
fn marks_active_list_item() {
    let md = "- one\n- two\n- three\n";
    let f = render_fragment(md, &[at(0, Some(1))]);
    assert_eq!(f.matches("piki-active").count(), 1, "{f}");
    assert!(f.contains("<li class=\"piki-active piki-lead\">\n    <p>two</p>"), "{f}");
}

#[test]
fn marks_multiple_selected_paragraphs_with_one_lead() {
    let md = "one\n\ntwo\n\nthree\n";
    let f = render_fragment(md, &[at(0, None), at(1, None), at(2, None)]);
    assert!(f.contains("<p class=\"piki-active piki-lead\">one</p>"), "{f}");
    assert!(f.contains("<p class=\"piki-active\">two</p>"), "{f}");
    assert!(f.contains("<p class=\"piki-active\">three</p>"), "{f}");
    assert_eq!(f.matches("piki-active").count(), 3, "{f}");
    assert_eq!(f.matches("piki-lead").count(), 1, "{f}");
}

#[test]
fn marks_multiple_selected_list_items_with_one_lead() {
    let md = "- one\n- two\n- three\n";
    let f = render_fragment(md, &[at(0, Some(1)), at(0, Some(2))]);
    assert_eq!(f.matches("piki-active").count(), 2, "{f}");
    assert_eq!(f.matches("piki-lead").count(), 1, "{f}");
    assert!(f.contains("<li class=\"piki-active piki-lead\">\n    <p>two</p>"), "{f}");
    assert!(f.contains("<li class=\"piki-active\">\n    <p>three</p>"), "{f}");
    assert!(f.contains("<li>\n    <p>one</p>"), "{f}");
}

#[test]
fn out_of_range_highlight_is_a_no_op() {
    let li_oob = render_fragment("- one\n- two\n", &[at(0, Some(9))]);
    assert!(!li_oob.contains("piki-active"), "{li_oob}");
    let block_oob = render_fragment("# T\n\nBody\n", &[at(9, None)]);
    assert!(!block_oob.contains("piki-active"), "{block_oob}");
}

#[test]
fn page_styles_and_scrolls_the_active_highlight() {
    let page = render_page("frontpage", "# Hi\n", "g1", &[]);
    assert!(page.contains(".piki-active"), "{page}");
    assert!(page.contains("li.piki-lead::before"), "{page}");
    assert!(page.contains("rgba(240, 140, 0, 0.22)"), "{page}");
    assert!(page.contains("scrollIntoView"), "{page}");
    assert!(page.contains("@keyframes piki-active-band"), "{page}");
    assert!(page.contains("@keyframes piki-active-arrow"), "{page}");
    assert!(page.contains("prefers-reduced-motion"), "{page}");
}

#[test]
fn page_has_footer_with_version_and_column_toggle() {
    let page = render_page("frontpage", "# Hi\n", "g1", &[]);
    assert!(page.contains("id=\"piki-footer\""), "{page}");
    assert!(page.contains("Shared by Piki v0.1.0"), "{page}");
    assert!(page.contains("data-cols=\"1\""), "{page}");
    assert!(page.contains("data-cols=\"2\""), "{page}");
    assert!(page.contains("data-spacing=\"wide\""), "{page}");
    assert!(page.contains("data-spacing=\"compact\""), "{page}");
    assert!(page.contains("body.compact"), "{page}");
    assert!(page.contains("#piki-footer.piki-faded"), "{page}");
    assert!(page.contains("piki-faded"), "{page}");
    assert!(page.contains("body.cols-2"), "{page}");
    assert!(page.contains("avoid-column"), "{page}");
    assert!(!render_fragment("# Hi\n", &[]).contains("piki-footer"));
}

#[test]
fn page_supports_native_dark_mode() {
    let page = render_page("frontpage", "# Hi\n", "g1", &[]);
    assert!(page.contains("<meta name=\"color-scheme\" content=\"light dark\" />"), "{page}");
    assert!(page.contains("color-scheme: light dark;"), "{page}");
    assert!(page.contains("@media (prefers-color-scheme: dark)"), "{page}");
}

#[test]
fn links_nested_in_lists_quotes_and_tables_are_rewritten() {
    let md = "- see [a](note-a)\n\n> [b](piki://note-b#sec)\n\n| x |\n|---|\n| [c](c) |\n\n[web](https://w.org)\n";
    let f = render_fragment(md, &[]);
    assert!(f.contains("href=\"/note-a\""), "{f}");
    assert!(f.contains("href=\"/note-b#sec\""), "{f}");
    assert!(f.contains("href=\"/c\""), "{f}");
    assert!(f.contains("href=\"https://w.org\""), "{f}");
}

#[test]
fn nested_headings_get_unique_anchors_in_order() {
    let f = render_fragment("# A\n\n> # A\n\n# A-1\n", &[]);
    let first = f.find("id=\"a\"").unwrap();
    let second = f.find("id=\"a-1\"").unwrap();
    let third = f.find("id=\"a-1-1\"").unwrap();
    assert!(first < second && second < third, "{f}");
}

#[test]
fn highlights_addressing_nothing_render_as_no_highlight() {
    let plain = render_fragment("- one\n- two\n", &[]);
    assert_eq!(render_fragment("- one\n- two\n", &[at(0, Some(9)), at(3, None)]), plain);
    let plain = render_fragment("# T\n\nBody\n", &[]);
    assert_eq!(render_fragment("# T\n\nBody\n", &[at(9, None), at(1, Some(0))]), plain);
}
