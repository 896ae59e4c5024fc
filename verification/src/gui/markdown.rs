//! The events of the Markdown parser (`pulldown-cmark`), reduced to what
//! the link finder and the note previews read, with their byte ranges in
//! the source.
use vstd::prelude::*;
use pulldown_cmark::{Event, Parser, Tag, TagEnd};

verus! {

/// A parser event.
pub enum MdEvent {
    /// The start of a link, with its destination.
    LinkStart(String),
    /// The end of a link.
    LinkEnd,
    /// The end of any other element.
    OtherEnd,
    /// A text node.
    Text(String),
    /// An inline code node.
    Code(String),
    SoftBreak,
    HardBreak,
    /// Any other event.
    Other,
}

/// A parser event as a value.
pub enum MdEventView {
    LinkStart(Seq<char>),
    LinkEnd,
    OtherEnd,
    Text(Seq<char>),
    Code(Seq<char>),
    SoftBreak,
    HardBreak,
    Other,
}

/// An event and the byte range of the source it covers.
pub struct MdItem {
    pub event: MdEvent,
    pub start: usize,
    pub end: usize,
}

pub open spec fn event_view(e: MdEvent) -> MdEventView {
    match e {
        MdEvent::LinkStart(d) => MdEventView::LinkStart(d@),
        MdEvent::LinkEnd => MdEventView::LinkEnd,
        MdEvent::OtherEnd => MdEventView::OtherEnd,
        MdEvent::Text(t) => MdEventView::Text(t@),
        MdEvent::Code(t) => MdEventView::Code(t@),
        MdEvent::SoftBreak => MdEventView::SoftBreak,
        MdEvent::HardBreak => MdEventView::HardBreak,
        MdEvent::Other => MdEventView::Other,
    }
}

pub open spec fn item_view(i: MdItem) -> (MdEventView, usize, usize) {
    (event_view(i.event), i.start, i.end)
}

pub open spec fn item_views(v: Seq<MdItem>) -> Seq<(MdEventView, usize, usize)> {
    v.map_values(|i: MdItem| item_view(i))
}

/// The events `pulldown_cmark::Parser::new` yields for a text (no extensions
/// enabled), with their byte ranges.
pub uninterp spec fn markdown_items(text: Seq<char>) -> Seq<(MdEventView, usize, usize)>;

/// `Parser::new(text).into_offset_iter()`: each event, reduced to its kind
/// (and destination or text where the event carries one), with its range.
/// The events are the parser's, named by `markdown_items`.
#[verifier::external_body]
pub(crate) fn markdown_events(text: &str) -> (r: Vec<MdItem>)
    ensures
        item_views(r@) == markdown_items(text@),
{
    let mut out = Vec::new();
    for (ev, range) in Parser::new(text).into_offset_iter() {
        let event = match ev {
            Event::Start(Tag::Link { dest_url, .. }) => MdEvent::LinkStart(dest_url.to_string()),
            Event::End(TagEnd::Link) => MdEvent::LinkEnd,
            Event::End(_) => MdEvent::OtherEnd,
            Event::Text(t) => MdEvent::Text(t.to_string()),
            Event::Code(t) => MdEvent::Code(t.to_string()),
            Event::SoftBreak => MdEvent::SoftBreak,
            Event::HardBreak => MdEvent::HardBreak,
            _ => MdEvent::Other,
        };
        out.push(MdItem { event, start: range.start, end: range.end });
    }
    out
}

} // verus!
