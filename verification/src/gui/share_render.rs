//! A parsed note's top-level blocks, each written as HTML on its own, put
//! together into the sectioned body of the web view.
use vstd::prelude::*;
use tdoc::Document as TdocDocument;
use tdoc::Paragraph as TdocParagraph;
use crate::gui::doc_tree::{
    heading_texts, headings, is_heading_kind, paragraph_fields, paragraph_parts, rewrite_links,
    rw_paragraphs, InlineKind, ParagraphParts, ParagraphView, NESTING_LIMIT,
};
use crate::gui::live_share::{inject_heading_ids, with_ids, HighlightTarget};
use crate::gui::markdown_converter::{
    document_to_html, html_bytes, markdown_document, markdown_to_document, written_text,
};
use crate::gui::section_link::{anchors, heading_anchors, str_views};
use crate::gui::share_page::{page_html, page_text};
use crate::text::string_views;
use crate::gui::rtf::{document_of, document_of_paragraphs, into_paragraphs, paragraphs_of};
use crate::gui::share_page::{
    addresses_nothing, block_views, render_sectioned_html, sectioned, unaddressed_highlights_change_nothing,
    RenderedBlock,
};

verus! {

/// A heading of level one to three.
pub open spec fn is_heading_view(v: ParagraphView) -> bool {
    v matches ParagraphView::Inline(k, _) && is_heading_kind(k)
}

/// A paragraph as a rendered block: whether it is a heading, and the HTML of
/// the document holding just it.
pub open spec fn paragraph_block(p: TdocParagraph) -> (bool, Seq<char>) {
    (
        is_heading_view(paragraph_fields(p)),
        written_text(html_bytes(document_of_paragraphs(seq![p]))),
    )
}

/// The rendered blocks of a document's top-level paragraphs.
pub open spec fn document_block_views(ps: Seq<TdocParagraph>) -> Seq<(bool, Seq<char>)> {
    ps.map_values(|p: TdocParagraph| paragraph_block(p))
}

/// Each top-level paragraph of `doc` rendered on its own: whether it is a
/// heading, and the HTML `tdoc` writes for the document holding just it (the
/// empty text when writing fails).
pub fn document_blocks(doc: TdocDocument) -> (r: Vec<RenderedBlock>)
    ensures
        block_views(r@) == document_block_views(paragraphs_of(doc)),
{
    let ghost all = paragraphs_of(doc);
    let mut ps = into_paragraphs(doc);
    let mut out: Vec<RenderedBlock> = Vec::new();
    let ghost mut i: int = 0;
    assert(block_views(out@) =~= document_block_views(all.subrange(0, 0)));
    while ps.len() > 0
        invariant
            0 <= i <= all.len(),
            ps@ == all.subrange(i, all.len() as int),
            block_views(out@) == document_block_views(all.subrange(0, i)),
        decreases ps.len(),
    {
        let p = ps.remove(0);
        assert(p == all[i]);
        let copy = p.clone();
        let heading = match paragraph_parts(copy) {
            ParagraphParts::Inline(InlineKind::Header1, _) => true,
            ParagraphParts::Inline(InlineKind::Header2, _) => true,
            ParagraphParts::Inline(InlineKind::Header3, _) => true,
            _ => false,
        };
        let mut single: Vec<TdocParagraph> = Vec::new();
        single.push(p);
        assert(single@ =~= seq![all[i]]);
        let html = document_to_html(&document_of(single));
        let ghost before = out@;
        out.push(RenderedBlock { is_heading: heading, html });
        proof {
            assert(block_views(out@) =~= block_views(before).push(paragraph_block(all[i])));
            assert(all.subrange(0, i + 1) =~= all.subrange(0, i).push(all[i]));
            assert(document_block_views(all.subrange(0, i + 1)) =~= document_block_views(
                all.subrange(0, i),
            ).push(paragraph_block(all[i])));
            i = i + 1;
            assert(ps@ =~= all.subrange(i, all.len() as int));
        }
    }
    assert(all.subrange(0, i) =~= all);
    out
}

/// A parsed note as the sectioned body of the web view: its top-level
/// paragraphs rendered one by one (see `document_blocks`), every heading
/// opening a section, and the highlighted blocks and list items marked (see
/// `render_sectioned_html`).
pub fn render_document_sections(doc: TdocDocument, highlight: &[HighlightTarget]) -> (r: String)
    ensures
        r@ == sectioned(document_block_views(paragraphs_of(doc)), highlight@, 0, false),
{
    let blocks = document_blocks(doc);
    render_sectioned_html(blocks.as_slice(), highlight)
}

/// The document Markdown text parses into; an empty one when the parser
/// reports an error.
pub open spec fn parsed_or_empty(md: Seq<char>) -> TdocDocument {
    match markdown_document(md) {
        Some(doc) => doc,
        None => document_of_paragraphs(Seq::empty()),
    }
}

/// The body of the web view for Markdown text: its top-level paragraphs with
/// every internal link rewritten to a server path, rendered in sections with
/// the highlighted blocks and list items marked, and each heading given the
/// `id` of its unique anchor.
pub open spec fn fragment_of(md: Seq<char>, highlight: Seq<HighlightTarget>) -> Seq<char> {
    let ps = rw_paragraphs(paragraphs_of(parsed_or_empty(md)), NESTING_LIMIT as nat);
    with_ids(
        sectioned(fragment_blocks(md), highlight, 0, false),
        anchors(headings(ps, NESTING_LIMIT as nat)),
    )
}

/// The rendered top-level blocks of Markdown text, its links rewritten.
pub open spec fn fragment_blocks(md: Seq<char>) -> Seq<(bool, Seq<char>)> {
    document_block_views(rw_paragraphs(paragraphs_of(parsed_or_empty(md)), NESTING_LIMIT as nat))
}

/// Highlights that point at no element of the note (past its last block, or
/// at a list item past the last of its block) render the body exactly as no
/// highlight does.
pub proof fn unaddressed_highlights_render_unmarked(md: Seq<char>, highlight: Seq<HighlightTarget>)
    requires
        forall|k: int|
            0 <= k < highlight.len() ==> addresses_nothing(fragment_blocks(md), #[trigger] highlight[k]),
    ensures
        fragment_of(md, highlight) == fragment_of(md, Seq::empty()),
{
    unaddressed_highlights_change_nothing(fragment_blocks(md), highlight, 0, false);
}

/// Render just the note body: the inner HTML of the page's document
/// element. Each highlighted element is marked with the `piki-active` class,
/// the first in document order also with `piki-lead`.
pub fn render_fragment(markdown: &str, highlight: &[HighlightTarget]) -> (r: String)
    ensures
        r@ == fragment_of(markdown@, highlight@),
{
    let doc = markdown_to_document(markdown);
    let ps = rewrite_links(into_paragraphs(doc));
    let texts = heading_texts(&ps);
    let mut refs: Vec<&str> = Vec::new();
    let mut i: usize = 0;
    while i < texts.len()
        invariant
            i <= texts@.len(),
            str_views(refs@) == string_views(texts@).subrange(0, i as int),
        decreases texts.len() - i,
    {
        let ghost before = refs@;
        refs.push(texts[i].as_str());
        assert(str_views(refs@) =~= str_views(before).push(texts@[i as int]@));
        assert(string_views(texts@).subrange(0, i + 1) =~= string_views(texts@).subrange(
            0,
            i as int,
        ).push(texts@[i as int]@));
        i += 1;
    }
    assert(string_views(texts@).subrange(0, i as int) =~= string_views(texts@));
    let ids = heading_anchors(refs.as_slice());
    let sections = render_document_sections(document_of(ps), highlight);
    inject_heading_ids(sections.as_str(), ids.as_slice())
}

/// The complete, styled page for `note` showing `markdown` (see
/// `render_fragment` and `page_html`).
pub fn render_page(note: &str, markdown: &str, version: &str, highlight: &[HighlightTarget]) -> (r: String)
    ensures
        r@ == page_text(note@, fragment_of(markdown@, highlight@), version@),
{
    let body = render_fragment(markdown, highlight);
    page_html(note, body.as_str(), version)
}

} // verus!
