use piki::gui::markdown_converter::{
    document_to_html, document_to_markdown, markdown_to_document, stored_text,
};
use tdoc::{Document, Paragraph};

#[test]
fn seeded_empty_paragraph_serializes_to_empty_string() {
    let mut doc = Document::new();
    doc.add_paragraph(Paragraph::new_text());
    assert_eq!(document_to_markdown(&doc), "");
}

#[test]
fn empty_document_serializes_to_empty_string() {
    assert_eq!(document_to_markdown(&Document::new()), "");
}

#[test]
fn real_content_round_trips_unchanged() {
    let doc = markdown_to_document("# Title\n\nBody text\n");
    assert_eq!(document_to_markdown(&doc), "# Title\n\nBody text\n");
}

#[test]
fn whitespace_only_markdown_is_stored_empty() {
    assert_eq!(stored_text("\n".to_string()), "");
    assert_eq!(stored_text(" \t\n\n".to_string()), "");
    assert_eq!(stored_text("x\n".to_string()), "x\n");
}

#[test]
fn parsed_markdown_renders_as_html() {
    let doc = markdown_to_document("# Title\n\nBody *text*\n");
    assert_eq!(doc.paragraphs.len(), 2);
    let html = document_to_html(&doc);
    assert!(html.contains("<h1") && html.contains("Title"), "{html}");
    assert!(html.contains("Body"), "{html}");
}
