//! Walking a parsed note's tree: rewriting its link targets for the web view
//! and collecting the texts of its headings.
//!
//! The walks read and rebuild `tdoc` values one level at a time through the
//! items below, each moving the fields of one node out or in. How deep they
//! go is bounded by `NESTING_LIMIT`, more levels than a tree in memory can
//! have (each level is a node of its own), so the bound is never reached.
use vstd::prelude::*;
use tdoc::{
    ChecklistItem as TdocChecklistItem, DefinitionItem as TdocDefinitionItem, InlineStyle,
    Paragraph as TdocParagraph, Span as TdocSpan, TableCell as TdocTableCell,
    TableRow as TdocTableRow,
};
use crate::gui::live_share::{rewrite_link_target, rewritten_target};
use crate::text::{opt_view, string_of, string_views};

verus! {

/// `tdoc::ChecklistItem` as a type the library carries.
#[verifier::external_type_specification]
#[verifier::external_body]
pub struct ExTdocChecklistItem(TdocChecklistItem);

/// `tdoc::TableRow` as a type the library carries.
#[verifier::external_type_specification]
#[verifier::external_body]
pub struct ExTdocTableRow(TdocTableRow);

/// `tdoc::TableCell` as a type the library carries.
#[verifier::external_type_specification]
#[verifier::external_body]
pub struct ExTdocTableCell(TdocTableCell);

/// `tdoc::DefinitionItem` as a type the library carries.
#[verifier::external_type_specification]
#[verifier::external_body]
pub struct ExTdocDefinitionItem(TdocDefinitionItem);

/// How many levels of nesting the walks follow.
pub const NESTING_LIMIT: u64 = 18446744073709551615;

/// The style of a span (`tdoc::InlineStyle`).
#[derive(Debug, Clone, Copy, PartialEq, Eq, Structural)]
pub enum SpanStyle {
    Plain,
    Bold,
    Italic,
    Highlight,
    Underline,
    Strike,
    Link,
    Code,
}

/// The fields of a span.
pub struct SpanParts {
    pub style: SpanStyle,
    pub text: String,
    pub link_target: Option<String>,
    pub children: Vec<TdocSpan>,
}

/// A span's fields: style, text, link target and children.
pub uninterp spec fn span_fields(s: TdocSpan) -> (SpanStyle, Seq<char>, Option<Seq<char>>, Seq<TdocSpan>);

/// The fields of a span moved out, as `span_fields` names them.
#[verifier::external_body]
fn span_parts(s: TdocSpan) -> (r: SpanParts)
    ensures
        (r.style, r.text@, opt_view(r.link_target), r.children@) == span_fields(s),
{
    let style = match s.style {
        InlineStyle::None => SpanStyle::Plain,
        InlineStyle::Bold => SpanStyle::Bold,
        InlineStyle::Italic => SpanStyle::Italic,
        InlineStyle::Highlight => SpanStyle::Highlight,
        InlineStyle::Underline => SpanStyle::Underline,
        InlineStyle::Strike => SpanStyle::Strike,
        InlineStyle::Link => SpanStyle::Link,
        InlineStyle::Code => SpanStyle::Code,
    };
    SpanParts { style, text: s.text, link_target: s.link_target, children: s.children }
}

/// The span `Span { style, text, link_target, children }`.
pub uninterp spec fn span_built(
    style: SpanStyle,
    text: Seq<char>,
    link_target: Option<Seq<char>>,
    children: Seq<TdocSpan>,
) -> TdocSpan;

/// A span made of its fields, the one `span_built` names; its fields read
/// back are those it was made of.
#[verifier::external_body]
pub(crate) fn span_of_parts(p: SpanParts) -> (r: TdocSpan)
    ensures
        r == span_built(p.style, p.text@, opt_view(p.link_target), p.children@),
        span_fields(r) == (p.style, p.text@, opt_view(p.link_target), p.children@),
{
    let style = match p.style {
        SpanStyle::Plain => InlineStyle::None,
        SpanStyle::Bold => InlineStyle::Bold,
        SpanStyle::Italic => InlineStyle::Italic,
        SpanStyle::Highlight => InlineStyle::Highlight,
        SpanStyle::Underline => InlineStyle::Underline,
        SpanStyle::Strike => InlineStyle::Strike,
        SpanStyle::Link => InlineStyle::Link,
        SpanStyle::Code => InlineStyle::Code,
    };
    TdocSpan { style, text: p.text, link_target: p.link_target, children: p.children }
}

/// The link target a span has in the web view: a link's internal target
/// rewritten (see `rewritten_target`), anything else as it was.
pub open spec fn new_target(style: SpanStyle, target: Option<Seq<char>>) -> Option<Seq<char>> {
    if style == SpanStyle::Link && target is Some && rewritten_target(target->0) is Some {
        rewritten_target(target->0)
    } else {
        target
    }
}

/// The spans with their links rewritten, `depth` levels down.
pub open spec fn rw_spans(ss: Seq<TdocSpan>, depth: nat) -> Seq<TdocSpan>
    decreases depth, ss.len(),
{
    if ss.len() == 0 {
        Seq::empty()
    } else {
        rw_spans(ss.drop_last(), depth).push(rw_span(ss.last(), depth))
    }
}

/// A span with its link rewritten, and those of its children.
pub open spec fn rw_span(s: TdocSpan, depth: nat) -> TdocSpan
    decreases depth, 0nat,
{
    if depth == 0 {
        s
    } else {
        let (style, text, target, children) = span_fields(s);
        span_built(style, text, new_target(style, target), rw_spans(children, (depth - 1) as nat))
    }
}

fn rw_span_exec(s: TdocSpan, depth: u64) -> (r: TdocSpan)
    ensures
        r == rw_span(s, depth as nat),
    decreases depth, 0nat,
{
    if depth == 0 {
        return s;
    }
    let p = span_parts(s);
    let target = match &p.link_target {
        Some(t) => if p.style == SpanStyle::Link {
            match rewrite_link_target(t.as_str()) {
                Some(n) => Some(n),
                None => Some(t.clone()),
            }
        } else {
            Some(t.clone())
        },
        None => None,
    };
    proof {
        assert(opt_view(target) == new_target(p.style, opt_view(p.link_target)));
    }
    let children = rw_spans_exec(p.children, depth - 1);
    span_of_parts(SpanParts { style: p.style, text: p.text, link_target: target, children })
}

fn rw_spans_exec(ss: Vec<TdocSpan>, depth: u64) -> (r: Vec<TdocSpan>)
    ensures
        r@ == rw_spans(ss@, depth as nat),
    decreases depth, 1nat,
{
    let ghost all = ss@;
    let mut rest = ss;
    let mut out: Vec<TdocSpan> = Vec::new();
    let ghost mut i: int = 0;
    assert(out@ =~= rw_spans(all.subrange(0, 0), depth as nat));
    while rest.len() > 0
        invariant
            0 <= i <= all.len(),
            rest@ == all.subrange(i, all.len() as int),
            out@ == rw_spans(all.subrange(0, i), depth as nat),
        decreases rest.len(),
    {
        let s = rest.remove(0);
        assert(s == all[i]);
        let t = rw_span_exec(s, depth);
        out.push(t);
        proof {
            assert(all.subrange(0, i + 1).drop_last() =~= all.subrange(0, i));
            i = i + 1;
            assert(rest@ =~= all.subrange(i, all.len() as int));
        }
    }
    assert(all.subrange(0, i) =~= all);
    out
}

/// The plain text of the spans: each span's text, then its children's,
/// `depth` levels down.
pub open spec fn spans_text(ss: Seq<TdocSpan>, depth: nat) -> Seq<char>
    decreases depth, ss.len(),
{
    if ss.len() == 0 {
        Seq::empty()
    } else {
        spans_text(ss.drop_last(), depth) + span_text(ss.last(), depth)
    }
}

/// The plain text of a span and its children.
pub open spec fn span_text(s: TdocSpan, depth: nat) -> Seq<char>
    decreases depth, 0nat,
{
    if depth == 0 {
        Seq::empty()
    } else {
        span_fields(s).1 + spans_text(span_fields(s).3, (depth - 1) as nat)
    }
}

fn span_text_exec(s: TdocSpan, depth: u64, out: &mut Vec<char>)
    ensures
        final(out)@ == old(out)@ + span_text(s, depth as nat),
    decreases depth, 0nat,
{
    if depth == 0 {
        return;
    }
    let p = span_parts(s);
    crate::text::push_str(out, p.text.as_str());
    spans_text_exec(p.children, depth - 1, out);
}

fn spans_text_exec(ss: Vec<TdocSpan>, depth: u64, out: &mut Vec<char>)
    ensures
        final(out)@ == old(out)@ + spans_text(ss@, depth as nat),
    decreases depth, 1nat,
{
    let ghost all = ss@;
    let ghost start = out@;
    let mut rest = ss;
    let ghost mut i: int = 0;
    assert(out@ =~= start + spans_text(all.subrange(0, 0), depth as nat));
    while rest.len() > 0
        invariant
            0 <= i <= all.len(),
            rest@ == all.subrange(i, all.len() as int),
            out@ == start + spans_text(all.subrange(0, i), depth as nat),
        decreases rest.len(),
    {
        let s = rest.remove(0);
        assert(s == all[i]);
        span_text_exec(s, depth, out);
        proof {
            assert(all.subrange(0, i + 1).drop_last() =~= all.subrange(0, i));
            assert(all.subrange(0, i + 1).last() == all[i]);
            i = i + 1;
            assert(rest@ =~= all.subrange(i, all.len() as int));
        }
    }
    assert(all.subrange(0, i) =~= all);
}

/// The fields of a checklist item.
pub struct ItemParts {
    pub checked: bool,
    pub content: Vec<TdocSpan>,
    pub children: Vec<TdocChecklistItem>,
}

/// A checklist item's fields: checked, content and nested items.
pub uninterp spec fn item_fields(i: TdocChecklistItem) -> (bool, Seq<TdocSpan>, Seq<TdocChecklistItem>);

/// The fields of a checklist item moved out, as `item_fields` names them.
#[verifier::external_body]
fn item_parts(i: TdocChecklistItem) -> (r: ItemParts)
    ensures
        (r.checked, r.content@, r.children@) == item_fields(i),
{
    ItemParts { checked: i.checked, content: i.content, children: i.children }
}

/// The item `ChecklistItem { checked, content, children }`.
pub uninterp spec fn item_built(
    checked: bool,
    content: Seq<TdocSpan>,
    children: Seq<TdocChecklistItem>,
) -> TdocChecklistItem;

/// A checklist item made of its fields, the one `item_built` names; its
/// fields read back are those it was made of.
#[verifier::external_body]
fn item_of_parts(p: ItemParts) -> (r: TdocChecklistItem)
    ensures
        r == item_built(p.checked, p.content@, p.children@),
        item_fields(r) == (p.checked, p.content@, p.children@),
{
    TdocChecklistItem { checked: p.checked, content: p.content, children: p.children }
}

/// The checklist items with their links rewritten.
pub open spec fn rw_items(is: Seq<TdocChecklistItem>, depth: nat) -> Seq<TdocChecklistItem>
    decreases depth, is.len(),
{
    if is.len() == 0 {
        Seq::empty()
    } else {
        rw_items(is.drop_last(), depth).push(rw_item(is.last(), depth))
    }
}

/// A checklist item with its links rewritten, and those of nested items.
pub open spec fn rw_item(i: TdocChecklistItem, depth: nat) -> TdocChecklistItem
    decreases depth, 0nat,
{
    if depth == 0 {
        i
    } else {
        let (checked, content, children) = item_fields(i);
        item_built(
            checked,
            rw_spans(content, (depth - 1) as nat),
            rw_items(children, (depth - 1) as nat),
        )
    }
}

fn rw_item_exec(i: TdocChecklistItem, depth: u64) -> (r: TdocChecklistItem)
    ensures
        r == rw_item(i, depth as nat),
    decreases depth, 0nat,
{
    if depth == 0 {
        return i;
    }
    let p = item_parts(i);
    let content = rw_spans_exec(p.content, depth - 1);
    let children = rw_items_exec(p.children, depth - 1);
    item_of_parts(ItemParts { checked: p.checked, content, children })
}

fn rw_items_exec(is: Vec<TdocChecklistItem>, depth: u64) -> (r: Vec<TdocChecklistItem>)
    ensures
        r@ == rw_items(is@, depth as nat),
    decreases depth, 1nat,
{
    let ghost all = is@;
    let mut rest = is;
    let mut out: Vec<TdocChecklistItem> = Vec::new();
    let ghost mut i: int = 0;
    assert(out@ =~= rw_items(all.subrange(0, 0), depth as nat));
    while rest.len() > 0
        invariant
            0 <= i <= all.len(),
            rest@ == all.subrange(i, all.len() as int),
            out@ == rw_items(all.subrange(0, i), depth as nat),
        decreases rest.len(),
    {
        let x = rest.remove(0);
        assert(x == all[i]);
        let t = rw_item_exec(x, depth);
        out.push(t);
        proof {
            assert(all.subrange(0, i + 1).drop_last() =~= all.subrange(0, i));
            i = i + 1;
            assert(rest@ =~= all.subrange(i, all.len() as int));
        }
    }
    assert(all.subrange(0, i) =~= all);
    out
}

/// A table cell's fields: whether it is a header cell, and its content.
pub uninterp spec fn cell_fields(c: TdocTableCell) -> (bool, Seq<TdocSpan>);

/// The fields of a table cell moved out, as `cell_fields` names them.
#[verifier::external_body]
fn cell_parts(c: TdocTableCell) -> (r: (bool, Vec<TdocSpan>))
    ensures
        (r.0, r.1@) == cell_fields(c),
{
    (c.is_header, c.content)
}

/// The cell `TableCell { is_header, content }`.
pub uninterp spec fn cell_built(is_header: bool, content: Seq<TdocSpan>) -> TdocTableCell;

/// A table cell made of its fields, the one `cell_built` names; its fields
/// read back are those it was made of.
#[verifier::external_body]
fn cell_of_parts(is_header: bool, content: Vec<TdocSpan>) -> (r: TdocTableCell)
    ensures
        r == cell_built(is_header, content@),
        cell_fields(r) == (is_header, content@),
{
    TdocTableCell { is_header, content }
}

/// A table row's cells.
pub uninterp spec fn row_fields(r: TdocTableRow) -> Seq<TdocTableCell>;

/// The cells of a table row moved out, as `row_fields` names them.
#[verifier::external_body]
fn row_parts(row: TdocTableRow) -> (r: Vec<TdocTableCell>)
    ensures
        r@ == row_fields(row),
{
    row.cells
}

/// The row `TableRow { cells }`.
pub uninterp spec fn row_built(cells: Seq<TdocTableCell>) -> TdocTableRow;

/// A table row made of its cells, the one `row_built` names; its cells read
/// back are those it was made of.
#[verifier::external_body]
fn row_of_parts(cells: Vec<TdocTableCell>) -> (r: TdocTableRow)
    ensures
        r == row_built(cells@),
        row_fields(r) == cells@,
{
    TdocTableRow { cells }
}

/// A cell with the links of its content rewritten.
pub open spec fn rw_cell(c: TdocTableCell, depth: nat) -> TdocTableCell {
    cell_built(cell_fields(c).0, rw_spans(cell_fields(c).1, depth))
}

/// The cells with their links rewritten.
pub open spec fn rw_cells(cs: Seq<TdocTableCell>, depth: nat) -> Seq<TdocTableCell>
    decreases cs.len(),
{
    if cs.len() == 0 {
        Seq::empty()
    } else {
        rw_cells(cs.drop_last(), depth).push(rw_cell(cs.last(), depth))
    }
}

/// The rows with the links of their cells rewritten.
pub open spec fn rw_rows(rs: Seq<TdocTableRow>, depth: nat) -> Seq<TdocTableRow>
    decreases rs.len(),
{
    if rs.len() == 0 {
        Seq::empty()
    } else {
        rw_rows(rs.drop_last(), depth).push(row_built(rw_cells(row_fields(rs.last()), depth)))
    }
}

fn rw_cells_exec(cs: Vec<TdocTableCell>, depth: u64) -> (r: Vec<TdocTableCell>)
    ensures
        r@ == rw_cells(cs@, depth as nat),
{
    let ghost all = cs@;
    let mut rest = cs;
    let mut out: Vec<TdocTableCell> = Vec::new();
    let ghost mut i: int = 0;
    assert(out@ =~= rw_cells(all.subrange(0, 0), depth as nat));
    while rest.len() > 0
        invariant
            0 <= i <= all.len(),
            rest@ == all.subrange(i, all.len() as int),
            out@ == rw_cells(all.subrange(0, i), depth as nat),
        decreases rest.len(),
    {
        let c = rest.remove(0);
        assert(c == all[i]);
        let (h, content) = cell_parts(c);
        let content = rw_spans_exec(content, depth);
        out.push(cell_of_parts(h, content));
        proof {
            assert(all.subrange(0, i + 1).drop_last() =~= all.subrange(0, i));
            i = i + 1;
            assert(rest@ =~= all.subrange(i, all.len() as int));
        }
    }
    assert(all.subrange(0, i) =~= all);
    out
}

fn rw_rows_exec(rs: Vec<TdocTableRow>, depth: u64) -> (r: Vec<TdocTableRow>)
    ensures
        r@ == rw_rows(rs@, depth as nat),
{
    let ghost all = rs@;
    let mut rest = rs;
    let mut out: Vec<TdocTableRow> = Vec::new();
    let ghost mut i: int = 0;
    assert(out@ =~= rw_rows(all.subrange(0, 0), depth as nat));
    while rest.len() > 0
        invariant
            0 <= i <= all.len(),
            rest@ == all.subrange(i, all.len() as int),
            out@ == rw_rows(all.subrange(0, i), depth as nat),
        decreases rest.len(),
    {
        let row = rest.remove(0);
        assert(row == all[i]);
        let cells = rw_cells_exec(row_parts(row), depth);
        out.push(row_of_parts(cells));
        proof {
            assert(all.subrange(0, i + 1).drop_last() =~= all.subrange(0, i));
            i = i + 1;
            assert(rest@ =~= all.subrange(i, all.len() as int));
        }
    }
    assert(all.subrange(0, i) =~= all);
    out
}

/// The kinds of paragraph that hold spans directly.
#[derive(Debug, Clone, Copy, PartialEq, Eq, Structural)]
pub enum InlineKind {
    Text,
    Header1,
    Header2,
    Header3,
    CodeBlock,
}

/// The fields of a paragraph, by kind.
pub enum ParagraphParts {
    Inline(InlineKind, Vec<TdocSpan>),
    /// A list, ordered or not, with its entries.
    List(bool, Vec<Vec<TdocParagraph>>),
    Checklist(Vec<TdocChecklistItem>),
    Quote(Vec<TdocParagraph>),
    Table(Vec<TdocTableRow>),
    Rule,
    Definitions(Vec<TdocDefinitionItem>),
}

/// The fields of a paragraph as values.
pub enum ParagraphView {
    Inline(InlineKind, Seq<TdocSpan>),
    List(bool, Seq<Seq<TdocParagraph>>),
    Checklist(Seq<TdocChecklistItem>),
    Quote(Seq<TdocParagraph>),
    Table(Seq<TdocTableRow>),
    Rule,
    Definitions(Seq<TdocDefinitionItem>),
}

pub open spec fn parts_view(p: ParagraphParts) -> ParagraphView {
    match p {
        ParagraphParts::Inline(k, c) => ParagraphView::Inline(k, c@),
        ParagraphParts::List(o, es) => ParagraphView::List(
            o,
            es@.map_values(|e: Vec<TdocParagraph>| e@),
        ),
        ParagraphParts::Checklist(is) => ParagraphView::Checklist(is@),
        ParagraphParts::Quote(ch) => ParagraphView::Quote(ch@),
        ParagraphParts::Table(rs) => ParagraphView::Table(rs@),
        ParagraphParts::Rule => ParagraphView::Rule,
        ParagraphParts::Definitions(ds) => ParagraphView::Definitions(ds@),
    }
}

/// A paragraph's kind and fields.
pub uninterp spec fn paragraph_fields(p: TdocParagraph) -> ParagraphView;

/// The fields of a paragraph moved out, one arm per variant, as
/// `paragraph_fields` names them.
#[verifier::external_body]
pub(crate) fn paragraph_parts(p: TdocParagraph) -> (r: ParagraphParts)
    ensures
        parts_view(r) == paragraph_fields(p),
{
    match p {
        TdocParagraph::Text { content } => ParagraphParts::Inline(InlineKind::Text, content),
        TdocParagraph::Header1 { content } => ParagraphParts::Inline(InlineKind::Header1, content),
        TdocParagraph::Header2 { content } => ParagraphParts::Inline(InlineKind::Header2, content),
        TdocParagraph::Header3 { content } => ParagraphParts::Inline(InlineKind::Header3, content),
        TdocParagraph::CodeBlock { content } => ParagraphParts::Inline(InlineKind::CodeBlock, content),
        TdocParagraph::OrderedList { entries } => ParagraphParts::List(true, entries),
        TdocParagraph::UnorderedList { entries } => ParagraphParts::List(false, entries),
        TdocParagraph::Checklist { items } => ParagraphParts::Checklist(items),
        TdocParagraph::Quote { children } => ParagraphParts::Quote(children),
        TdocParagraph::Table { rows } => ParagraphParts::Table(rows),
        TdocParagraph::HorizontalRule => ParagraphParts::Rule,
        TdocParagraph::DefinitionList { items } => ParagraphParts::Definitions(items),
    }
}

/// The paragraph of the kind and fields given.
pub uninterp spec fn paragraph_built(v: ParagraphView) -> TdocParagraph;

/// A paragraph made of its kind and fields, one arm per variant, the one
/// `paragraph_built` names; its kind and fields read back are those it was
/// made of.
#[verifier::external_body]
pub(crate) fn paragraph_of_parts(p: ParagraphParts) -> (r: TdocParagraph)
    ensures
        r == paragraph_built(parts_view(p)),
        paragraph_fields(r) == parts_view(p),
{
    match p {
        ParagraphParts::Inline(InlineKind::Text, content) => TdocParagraph::Text { content },
        ParagraphParts::Inline(InlineKind::Header1, content) => TdocParagraph::Header1 { content },
        ParagraphParts::Inline(InlineKind::Header2, content) => TdocParagraph::Header2 { content },
        ParagraphParts::Inline(InlineKind::Header3, content) => TdocParagraph::Header3 { content },
        ParagraphParts::Inline(InlineKind::CodeBlock, content) => TdocParagraph::CodeBlock { content },
        ParagraphParts::List(true, entries) => TdocParagraph::OrderedList { entries },
        ParagraphParts::List(false, entries) => TdocParagraph::UnorderedList { entries },
        ParagraphParts::Checklist(items) => TdocParagraph::Checklist { items },
        ParagraphParts::Quote(children) => TdocParagraph::Quote { children },
        ParagraphParts::Table(rows) => TdocParagraph::Table { rows },
        ParagraphParts::Rule => TdocParagraph::HorizontalRule,
        ParagraphParts::Definitions(items) => TdocParagraph::DefinitionList { items },
    }
}

/// A paragraph with the links in it rewritten for the web view (see
/// `new_target`): in its spans, list entries, checklist items, quoted
/// paragraphs and table cells. A rule and a definition list are rebuilt as
/// they were.
pub open spec fn rw_paragraph(p: TdocParagraph, depth: nat) -> TdocParagraph
    decreases depth, 0nat, 0nat,
{
    if depth == 0 {
        p
    } else {
        let d = (depth - 1) as nat;
        paragraph_built(
            match paragraph_fields(p) {
                ParagraphView::Inline(k, c) => ParagraphView::Inline(k, rw_spans(c, d)),
                ParagraphView::List(o, es) => ParagraphView::List(o, rw_entries(es, d)),
                ParagraphView::Checklist(is) => ParagraphView::Checklist(rw_items(is, d)),
                ParagraphView::Quote(ch) => ParagraphView::Quote(rw_paragraphs(ch, d)),
                ParagraphView::Table(rs) => ParagraphView::Table(rw_rows(rs, d)),
                ParagraphView::Rule => ParagraphView::Rule,
                ParagraphView::Definitions(ds) => ParagraphView::Definitions(ds),
            },
        )
    }
}

/// The paragraphs with their links rewritten.
pub open spec fn rw_paragraphs(ps: Seq<TdocParagraph>, depth: nat) -> Seq<TdocParagraph>
    decreases depth, 1nat, ps.len(),
{
    if ps.len() == 0 {
        Seq::empty()
    } else {
        rw_paragraphs(ps.drop_last(), depth).push(rw_paragraph(ps.last(), depth))
    }
}

/// The list entries with their links rewritten.
pub open spec fn rw_entries(es: Seq<Seq<TdocParagraph>>, depth: nat) -> Seq<Seq<TdocParagraph>>
    decreases depth, 2nat, es.len(),
{
    if es.len() == 0 {
        Seq::empty()
    } else {
        rw_entries(es.drop_last(), depth).push(rw_paragraphs(es.last(), depth))
    }
}

fn rw_paragraph_exec(p: TdocParagraph, depth: u64) -> (r: TdocParagraph)
    ensures
        r == rw_paragraph(p, depth as nat),
    decreases depth, 0nat, 0nat,
{
    if depth == 0 {
        return p;
    }
    let d = depth - 1;
    let parts = paragraph_parts(p);
    let rebuilt = match parts {
        ParagraphParts::Inline(k, c) => ParagraphParts::Inline(k, rw_spans_exec(c, d)),
        ParagraphParts::List(o, es) => ParagraphParts::List(o, rw_entries_exec(es, d)),
        ParagraphParts::Checklist(is) => ParagraphParts::Checklist(rw_items_exec(is, d)),
        ParagraphParts::Quote(ch) => ParagraphParts::Quote(rw_paragraphs_exec(ch, d)),
        ParagraphParts::Table(rs) => ParagraphParts::Table(rw_rows_exec(rs, d)),
        ParagraphParts::Rule => ParagraphParts::Rule,
        ParagraphParts::Definitions(ds) => ParagraphParts::Definitions(ds),
    };
    paragraph_of_parts(rebuilt)
}

fn rw_paragraphs_exec(ps: Vec<TdocParagraph>, depth: u64) -> (r: Vec<TdocParagraph>)
    ensures
        r@ == rw_paragraphs(ps@, depth as nat),
    decreases depth, 1nat, 0nat,
{
    let ghost all = ps@;
    let mut rest = ps;
    let mut out: Vec<TdocParagraph> = Vec::new();
    let ghost mut i: int = 0;
    assert(out@ =~= rw_paragraphs(all.subrange(0, 0), depth as nat));
    while rest.len() > 0
        invariant
            0 <= i <= all.len(),
            rest@ == all.subrange(i, all.len() as int),
            out@ == rw_paragraphs(all.subrange(0, i), depth as nat),
        decreases rest.len(),
    {
        let x = rest.remove(0);
        assert(x == all[i]);
        let t = rw_paragraph_exec(x, depth);
        out.push(t);
        proof {
            assert(all.subrange(0, i + 1).drop_last() =~= all.subrange(0, i));
            i = i + 1;
            assert(rest@ =~= all.subrange(i, all.len() as int));
        }
    }
    assert(all.subrange(0, i) =~= all);
    out
}

fn rw_entries_exec(es: Vec<Vec<TdocParagraph>>, depth: u64) -> (r: Vec<Vec<TdocParagraph>>)
    ensures
        r@.map_values(|e: Vec<TdocParagraph>| e@) == rw_entries(
            es@.map_values(|e: Vec<TdocParagraph>| e@),
            depth as nat,
        ),
    decreases depth, 2nat, 0nat,
{
    let ghost all = es@.map_values(|e: Vec<TdocParagraph>| e@);
    let mut rest = es;
    let mut out: Vec<Vec<TdocParagraph>> = Vec::new();
    let ghost mut i: int = 0;
    assert(out@.map_values(|e: Vec<TdocParagraph>| e@) =~= rw_entries(all.subrange(0, 0), depth as nat));
    while rest.len() > 0
        invariant
            0 <= i <= all.len(),
            rest@.map_values(|e: Vec<TdocParagraph>| e@) == all.subrange(i, all.len() as int),
            out@.map_values(|e: Vec<TdocParagraph>| e@) == rw_entries(all.subrange(0, i), depth as nat),
        decreases rest.len(),
    {
        let ghost rv = rest@;
        proof {
            let mv = rv.map_values(|e: Vec<TdocParagraph>| e@);
            assert(mv.len() == rv.len());
            assert(mv[0] == rv[0]@);
            assert(mv[0] == all[i]);
        }
        let x = rest.remove(0);
        assert(x@ == all[i]);
        let ghost before = out@;
        let t = rw_paragraphs_exec(x, depth);
        out.push(t);
        proof {
            assert(out@.map_values(|e: Vec<TdocParagraph>| e@) =~= before.map_values(
                |e: Vec<TdocParagraph>| e@,
            ).push(t@));
            assert(all.subrange(0, i + 1).drop_last() =~= all.subrange(0, i));
            let mv = rv.map_values(|e: Vec<TdocParagraph>| e@);
            assert(rest@ =~= rv.subrange(1, rv.len() as int));
            assert forall|k: int| 0 <= k < rest@.len() implies rest@[k]@ == all[i + 1 + k] by {
                assert(rest@[k] == rv[k + 1]);
                assert(mv[k + 1] == rv[k + 1]@);
            }
            i = i + 1;
            assert(rest@.map_values(|e: Vec<TdocParagraph>| e@) =~= all.subrange(i, all.len() as int));
        }
    }
    assert(all.subrange(0, i) =~= all);
    out
}

/// `Clone::clone` of a paragraph (derived): a copy of every field, so the
/// same paragraph.
pub assume_specification[ <TdocParagraph as Clone>::clone ](p: &TdocParagraph) -> (r: TdocParagraph)
    ensures
        r == *p,
;

/// A heading of level one to three.
pub open spec fn is_heading_kind(k: InlineKind) -> bool {
    k == InlineKind::Header1 || k == InlineKind::Header2 || k == InlineKind::Header3
}

/// The texts of the headings in a paragraph, in document order: the
/// paragraph itself when it is a heading, else those in its quoted
/// paragraphs or list entries.
pub open spec fn para_headings(p: TdocParagraph, depth: nat) -> Seq<Seq<char>>
    decreases depth, 0nat, 0nat,
{
    if depth == 0 {
        Seq::empty()
    } else {
        let d = (depth - 1) as nat;
        match paragraph_fields(p) {
            ParagraphView::Inline(k, c) => if is_heading_kind(k) {
                seq![spans_text(c, d)]
            } else {
                Seq::empty()
            },
            ParagraphView::List(_, es) => entries_headings(es, d),
            ParagraphView::Quote(ch) => headings(ch, d),
            _ => Seq::empty(),
        }
    }
}

/// The texts of the headings in the paragraphs, in document order.
pub open spec fn headings(ps: Seq<TdocParagraph>, depth: nat) -> Seq<Seq<char>>
    decreases depth, 1nat, ps.len(),
{
    if ps.len() == 0 {
        Seq::empty()
    } else {
        headings(ps.drop_last(), depth) + para_headings(ps.last(), depth)
    }
}

/// The texts of the headings in the list entries, in document order.
pub open spec fn entries_headings(es: Seq<Seq<TdocParagraph>>, depth: nat) -> Seq<Seq<char>>
    decreases depth, 2nat, es.len(),
{
    if es.len() == 0 {
        Seq::empty()
    } else {
        entries_headings(es.drop_last(), depth) + headings(es.last(), depth)
    }
}

fn para_headings_exec(p: TdocParagraph, depth: u64, out: &mut Vec<String>)
    ensures
        string_views(final(out)@) == string_views(old(out)@) + para_headings(p, depth as nat),
    decreases depth, 0nat, 0nat,
{
    let ghost start = string_views(out@);
    if depth == 0 {
        assert(string_views(out@) =~= start + para_headings(p, depth as nat));
        return;
    }
    let d = depth - 1;
    match paragraph_parts(p) {
        ParagraphParts::Inline(k, c) => {
            match k {
                InlineKind::Header1 | InlineKind::Header2 | InlineKind::Header3 => {
                    let mut cs: Vec<char> = Vec::new();
                    spans_text_exec(c, d, &mut cs);
                    assert(cs@ =~= spans_text(c@, d as nat));
                    out.push(string_of(cs.as_slice()));
                    assert(string_views(out@) =~= start + seq![cs@]);
                },
                _ => {
                    assert(string_views(out@) =~= start + Seq::<Seq<char>>::empty());
                },
            }
        },
        ParagraphParts::List(_, es) => entries_headings_exec(es, d, out),
        ParagraphParts::Quote(ch) => headings_exec(ch, d, out),
        _ => {
            assert(string_views(out@) =~= start + Seq::<Seq<char>>::empty());
        },
    }
}

fn headings_exec(ps: Vec<TdocParagraph>, depth: u64, out: &mut Vec<String>)
    ensures
        string_views(final(out)@) == string_views(old(out)@) + headings(ps@, depth as nat),
    decreases depth, 1nat, 0nat,
{
    let ghost all = ps@;
    let ghost start = string_views(out@);
    let mut rest = ps;
    let ghost mut i: int = 0;
    assert(string_views(out@) =~= start + headings(all.subrange(0, 0), depth as nat));
    while rest.len() > 0
        invariant
            0 <= i <= all.len(),
            rest@ == all.subrange(i, all.len() as int),
            string_views(out@) == start + headings(all.subrange(0, i), depth as nat),
        decreases rest.len(),
    {
        let x = rest.remove(0);
        assert(x == all[i]);
        para_headings_exec(x, depth, out);
        proof {
            assert(all.subrange(0, i + 1).drop_last() =~= all.subrange(0, i));
            assert(all.subrange(0, i + 1).last() == all[i]);
            i = i + 1;
            assert(rest@ =~= all.subrange(i, all.len() as int));
        }
    }
    assert(all.subrange(0, i) =~= all);
}

fn entries_headings_exec(es: Vec<Vec<TdocParagraph>>, depth: u64, out: &mut Vec<String>)
    ensures
        string_views(final(out)@) == string_views(old(out)@) + entries_headings(
            es@.map_values(|e: Vec<TdocParagraph>| e@),
            depth as nat,
        ),
    decreases depth, 2nat, 0nat,
{
    let ghost all = es@.map_values(|e: Vec<TdocParagraph>| e@);
    let ghost start = string_views(out@);
    let mut rest = es;
    let ghost mut i: int = 0;
    assert(string_views(out@) =~= start + entries_headings(all.subrange(0, 0), depth as nat));
    while rest.len() > 0
        invariant
            0 <= i <= all.len(),
            rest@.map_values(|e: Vec<TdocParagraph>| e@) == all.subrange(i, all.len() as int),
            string_views(out@) == start + entries_headings(all.subrange(0, i), depth as nat),
        decreases rest.len(),
    {
        let ghost rv = rest@;
        proof {
            let mv = rv.map_values(|e: Vec<TdocParagraph>| e@);
            assert(mv.len() == rv.len());
            assert(mv[0] == rv[0]@);
            assert(mv[0] == all[i]);
        }
        let x = rest.remove(0);
        assert(x@ == all[i]);
        headings_exec(x, depth, out);
        proof {
            let mv = rv.map_values(|e: Vec<TdocParagraph>| e@);
            assert(rest@ =~= rv.subrange(1, rv.len() as int));
            assert forall|k: int| 0 <= k < rest@.len() implies rest@[k]@ == all[i + 1 + k] by {
                assert(rest@[k] == rv[k + 1]);
                assert(mv[k + 1] == rv[k + 1]@);
            }
            assert(all.subrange(0, i + 1).drop_last() =~= all.subrange(0, i));
            assert(all.subrange(0, i + 1).last() == all[i]);
            i = i + 1;
            assert(rest@.map_values(|e: Vec<TdocParagraph>| e@) =~= all.subrange(i, all.len() as int));
        }
    }
    assert(all.subrange(0, i) =~= all);
}

/// The paragraphs with every link rewritten for the web view (see
/// `rw_paragraph`).
pub fn rewrite_links(ps: Vec<TdocParagraph>) -> (r: Vec<TdocParagraph>)
    ensures
        r@ == rw_paragraphs(ps@, NESTING_LIMIT as nat),
{
    rw_paragraphs_exec(ps, NESTING_LIMIT)
}

/// The texts of the headings in the paragraphs, in the order the HTML
/// writer emits them (depth first, in document order): a heading's text is
/// that of its spans and their children.
pub fn heading_texts(ps: &Vec<TdocParagraph>) -> (r: Vec<String>)
    ensures
        string_views(r@) == headings(ps@, NESTING_LIMIT as nat),
{
    let mut out: Vec<String> = Vec::new();
    let mut i: usize = 0;
    assert(string_views(out@) =~= headings(ps@.subrange(0, 0), NESTING_LIMIT as nat));
    while i < ps.len()
        invariant
            i <= ps@.len(),
            string_views(out@) == headings(ps@.subrange(0, i as int), NESTING_LIMIT as nat),
        decreases ps.len() - i,
    {
        let p = ps[i].clone();
        para_headings_exec(p, NESTING_LIMIT, &mut out);
        assert(ps@.subrange(0, i + 1).drop_last() =~= ps@.subrange(0, i as int));
        i += 1;
    }
    assert(ps@.subrange(0, i as int) =~= ps@);
    out
}

} // verus!
