//! Markdown and HTML text to and from `tdoc` documents, for the clipboard and
//! for loading and saving notes.
use vstd::prelude::*;
use vstd::utf8::*;
use tdoc::Document as TdocDocument;
use crate::gui::rtf::{document_of, document_of_paragraphs};
use crate::text::{chars_of, trim, trimmed};

verus! {

/// The document `tdoc::markdown::parse` reads from a text, or `None` when it
/// reports an error.
pub uninterp spec fn markdown_document(text: Seq<char>) -> Option<TdocDocument>;

/// The text of the error `tdoc::markdown::parse` reports for a text it
/// cannot read.
pub uninterp spec fn markdown_error(text: Seq<char>) -> Seq<char>;

/// `tdoc::markdown::parse` over the text's UTF-8 bytes: the document, or the
/// text of the error it reports; the document is named by
/// `markdown_document`, the error by `markdown_error`. The library does not
/// look inside the document. The parser's `unreachable!` and `expect` calls
/// each come right after a push onto, or a check of, the same stack or list
/// (`start_paragraph`, `ensure_paragraph`, `add_definition_term`,
/// `add_definition_description`), so no text reaches them.
#[verifier::external_body]
pub(crate) fn parse_markdown(src: &str) -> (r: Result<TdocDocument, String>)
    ensures
        match r {
            Ok(d) => markdown_document(src@) == Some(d),
            Err(e) => markdown_document(src@) is None && e@ == markdown_error(src@),
        },
{
    tdoc::markdown::parse(std::io::Cursor::new(src.as_bytes())).map_err(|e| e.to_string())
}

/// The bytes `tdoc::markdown::write` writes for a document, or `None` when
/// it reports an error.
pub uninterp spec fn markdown_bytes(doc: TdocDocument) -> Option<Seq<u8>>;

/// `tdoc::markdown::write` into a byte buffer: the bytes written, or `None`
/// when the writer reports an error, as `markdown_bytes` names them. The
/// writer's one `expect` decodes as UTF-8 bytes it wrote from `str` values,
/// which always succeeds.
#[verifier::external_body]
fn write_markdown(doc: &TdocDocument) -> (r: Option<Vec<u8>>)
    ensures
        match r {
            Some(b) => markdown_bytes(*doc) == Some(b@),
            None => markdown_bytes(*doc) is None,
        },
{
    let mut buffer: Vec<u8> = Vec::new();
    match tdoc::markdown::write(&mut buffer, doc) {
        Ok(()) => Some(buffer),
        Err(_) => None,
    }
}

/// The bytes `tdoc::html::write` writes for a document, or `None` when it
/// reports an error.
pub uninterp spec fn html_bytes(doc: TdocDocument) -> Option<Seq<u8>>;

/// `tdoc::html::write` into a byte buffer: the bytes written, or `None` when
/// the writer reports an error, as `html_bytes` names them. The writer it
/// runs (`ftml::Writer::new_html`) unwraps only the compiling of its constant
/// regular expressions; the `expect` calls in `html/mod.rs` belong to the
/// HTML parser.
#[verifier::external_body]
fn write_html(doc: &TdocDocument) -> (r: Option<Vec<u8>>)
    ensures
        match r {
            Some(b) => html_bytes(*doc) == Some(b@),
            None => html_bytes(*doc) is None,
        },
{
    let mut buffer: Vec<u8> = Vec::new();
    match tdoc::html::write(&mut buffer, doc) {
        Ok(()) => Some(buffer),
        Err(_) => None,
    }
}

/// The text of the error `String::from_utf8` reports for bytes that are not
/// valid UTF-8.
pub uninterp spec fn utf8_error(bytes: Seq<u8>) -> Seq<char>;

/// `String::from_utf8`: the text valid UTF-8 bytes encode; for bytes that
/// are not valid UTF-8, the text of the error, named by `utf8_error`.
#[verifier::external_body]
pub(crate) fn utf8_text(bytes: Vec<u8>) -> (r: Result<String, String>)
    ensures
        valid_utf8(bytes@) ==> r is Ok && r->Ok_0@ == decode_utf8(bytes@),
        !valid_utf8(bytes@) ==> r is Err && r->Err_0@ == utf8_error(bytes@),
{
    String::from_utf8(bytes).map_err(|e| e.to_string())
}

/// The text of written bytes: their UTF-8 decoding, or the empty text when
/// there are none or they are not valid UTF-8.
pub open spec fn written_text(bytes: Option<Seq<u8>>) -> Seq<char> {
    match bytes {
        Some(b) => if valid_utf8(b) {
            decode_utf8(b)
        } else {
            Seq::empty()
        },
        None => Seq::empty(),
    }
}

fn text_or_empty(bytes: Option<Vec<u8>>) -> (r: String)
    ensures
        r@ == written_text(match bytes {
            Some(b) => Some(b@),
            None => None,
        }),
{
    match bytes {
        Some(b) => match utf8_text(b) {
            Ok(text) => text,
            Err(_) => String::new(),
        },
        None => String::new(),
    }
}

/// Parse Markdown text into a document; an empty document when the parser
/// reports an error.
pub fn markdown_to_document(src: &str) -> (r: TdocDocument)
    ensures
        r == match markdown_document(src@) {
            Some(doc) => doc,
            None => document_of_paragraphs(Seq::empty()),
        },
{
    match parse_markdown(src) {
        Ok(doc) => doc,
        Err(_) => {
            let none: Vec<tdoc::Paragraph> = Vec::new();
            assert(none@ =~= Seq::<tdoc::Paragraph>::empty());
            document_of(none)
        },
    }
}

/// How written Markdown is stored: as written, except that a text of only
/// whitespace (such as the lone newline an untouched note's empty paragraph
/// writes) is stored as the empty text, so a new note stays empty on disk.
pub open spec fn stored_markdown(written: Seq<char>) -> Seq<char> {
    if trim(written).len() == 0 {
        Seq::empty()
    } else {
        written
    }
}

/// The text to store for written Markdown (see `stored_markdown`).
pub fn stored_text(written: String) -> (r: String)
    ensures
        r@ == stored_markdown(written@),
{
    let v = chars_of(written.as_str());
    let t = trimmed(v.as_slice());
    if t.len() == 0 {
        String::new()
    } else {
        written
    }
}

/// Serialize a document as Markdown, to be stored: what the writer produces,
/// as `stored_text` stores it; the empty text when writing fails.
pub fn document_to_markdown(doc: &TdocDocument) -> (r: String)
    ensures
        r@ == stored_markdown(written_text(markdown_bytes(*doc))),
{
    let written = text_or_empty(write_markdown(doc));
    stored_text(written)
}

/// Serialize a document as an HTML fragment; the empty text when writing
/// fails.
pub fn document_to_html(doc: &TdocDocument) -> (r: String)
    ensures
        r@ == written_text(html_bytes(*doc)),
{
    text_or_empty(write_html(doc))
}

} // verus!
