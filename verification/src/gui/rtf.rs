//! Importing RTF from the clipboard: the text repairs around the parser.
//!
//! Paragraph breaks (`\par`) are tagged with a sentinel before parsing so
//! they survive as line breaks, and characters mis-decoded from the
//! Windows-1252 C1 block are mapped back to the glyphs they stand for.
use vstd::prelude::*;
use std::borrow::Cow;
use tdoc::Document as TdocDocument;
use tdoc::{Paragraph as TdocParagraph, Span as TdocSpan};
use crate::gui::rtf_check::{rtf_safe, rtf_text_safe};
use crate::gui::doc_tree::{
    paragraph_built, paragraph_of_parts, span_built, span_of_parts, InlineKind, ParagraphParts,
    ParagraphView, SpanParts, SpanStyle,
};
use crate::text::{
    ascii_lower, chars_of, is_ascii_alpha, push_all, slice, starts_with, string_of,
};

verus! {

/// The character a paragraph break is tagged with.
pub const PARAGRAPH_BREAK_SENTINEL: char = '\u{001E}';

/// Why RTF could not be imported.
#[derive(Debug)]
pub enum RtfImportError {
    Decode,
    Parse(String),
}

impl RtfImportError {
    /// The error as a message.
    pub fn message(&self) -> (r: String)
        ensures
            r@ == match self {
                RtfImportError::Decode => "RTF data was not valid UTF-8"@,
                RtfImportError::Parse(msg) => "RTF parse error: "@ + msg@,
            },
    {
        match self {
            RtfImportError::Decode => string_of(chars_of("RTF data was not valid UTF-8").as_slice()),
            RtfImportError::Parse(msg) => {
                let mut out = chars_of("RTF parse error: ");
                let m = chars_of(msg.as_str());
                push_all(&mut out, m.as_slice());
                string_of(out.as_slice())
            },
        }
    }
}

// ---------------------------------------------------------------------------
// Windows-1252
// ---------------------------------------------------------------------------

/// The C1 control block, U+0080..U+009F.
pub open spec fn is_c1(ch: char) -> bool {
    0x80 <= ch as u32 <= 0x9F
}

/// The Windows-1252 reading of a C1 code point: the glyph that byte stands
/// for, `None` for the five bytes the code page leaves undefined; anything
/// outside the block is itself.
pub open spec fn cp1252(ch: char) -> Option<char> {
    let u = ch as u32;
    if u == 0x80 { Some('\u{20AC}') }
    else if u == 0x82 { Some('\u{201A}') }
    else if u == 0x83 { Some('\u{0192}') }
    else if u == 0x84 { Some('\u{201E}') }
    else if u == 0x85 { Some('\u{2026}') }
    else if u == 0x86 { Some('\u{2020}') }
    else if u == 0x87 { Some('\u{2021}') }
    else if u == 0x88 { Some('\u{02C6}') }
    else if u == 0x89 { Some('\u{2030}') }
    else if u == 0x8A { Some('\u{0160}') }
    else if u == 0x8B { Some('\u{2039}') }
    else if u == 0x8C { Some('\u{0152}') }
    else if u == 0x8E { Some('\u{017D}') }
    else if u == 0x91 { Some('\u{2018}') }
    else if u == 0x92 { Some('\u{2019}') }
    else if u == 0x93 { Some('\u{201C}') }
    else if u == 0x94 { Some('\u{201D}') }
    else if u == 0x95 { Some('\u{2022}') }
    else if u == 0x96 { Some('\u{2013}') }
    else if u == 0x97 { Some('\u{2014}') }
    else if u == 0x98 { Some('\u{02DC}') }
    else if u == 0x99 { Some('\u{2122}') }
    else if u == 0x9A { Some('\u{0161}') }
    else if u == 0x9B { Some('\u{203A}') }
    else if u == 0x9C { Some('\u{0153}') }
    else if u == 0x9E { Some('\u{017E}') }
    else if u == 0x9F { Some('\u{0178}') }
    else if u == 0x81 || u == 0x8D || u == 0x8F || u == 0x90 || u == 0x9D { None }
    else { Some(ch) }
}

/// Map one character through the Windows-1252 C1 remap.
pub fn cp1252_c1_char(ch: char) -> (r: Option<char>)
    ensures
        r == cp1252(ch),
{
    match ch {
        '\u{80}' => Some('\u{20AC}'),
        '\u{82}' => Some('\u{201A}'),
        '\u{83}' => Some('\u{0192}'),
        '\u{84}' => Some('\u{201E}'),
        '\u{85}' => Some('\u{2026}'),
        '\u{86}' => Some('\u{2020}'),
        '\u{87}' => Some('\u{2021}'),
        '\u{88}' => Some('\u{02C6}'),
        '\u{89}' => Some('\u{2030}'),
        '\u{8A}' => Some('\u{0160}'),
        '\u{8B}' => Some('\u{2039}'),
        '\u{8C}' => Some('\u{0152}'),
        '\u{8E}' => Some('\u{017D}'),
        '\u{91}' => Some('\u{2018}'),
        '\u{92}' => Some('\u{2019}'),
        '\u{93}' => Some('\u{201C}'),
        '\u{94}' => Some('\u{201D}'),
        '\u{95}' => Some('\u{2022}'),
        '\u{96}' => Some('\u{2013}'),
        '\u{97}' => Some('\u{2014}'),
        '\u{98}' => Some('\u{02DC}'),
        '\u{99}' => Some('\u{2122}'),
        '\u{9A}' => Some('\u{0161}'),
        '\u{9B}' => Some('\u{203A}'),
        '\u{9C}' => Some('\u{0153}'),
        '\u{9E}' => Some('\u{017E}'),
        '\u{9F}' => Some('\u{0178}'),
        '\u{81}' | '\u{8D}' | '\u{8F}' | '\u{90}' | '\u{9D}' => None,
        other => Some(other),
    }
}

/// The text with every character mapped through `cp1252`, the undefined
/// ones dropped.
pub open spec fn repaired(s: Seq<char>) -> Seq<char>
    decreases s.len(),
{
    if s.len() == 0 {
        seq![]
    } else {
        repaired(s.drop_last()) + match cp1252(s.last()) {
            Some(c) => seq![c],
            None => seq![],
        }
    }
}

/// Repair mis-decoded Windows-1252 C1 characters; the text is borrowed
/// unchanged when it holds none.
pub fn repair_cp1252_c1(text: &str) -> (r: Cow<'_, str>)
    ensures
        r@ == repaired(text@),
        (r matches Cow::Borrowed(_)) <==> forall|i: int|
            0 <= i < text@.len() ==> !is_c1(#[trigger] text@[i]),
{
    let v = chars_of(text);
    let mut out: Vec<char> = Vec::new();
    let mut any_c1 = false;
    let mut i: usize = 0;
    while i < v.len()
        invariant
            i <= v@.len(),
            v@ == text@,
            out@ == repaired(v@.take(i as int)),
            any_c1 <==> exists|j: int| 0 <= j < i && is_c1(#[trigger] v@[j]),
            !any_c1 ==> out@ == v@.take(i as int),
        decreases v.len() - i,
    {
        let c = v[i];
        let ghost before = out@;
        assert(v@.take(i + 1).drop_last() =~= v@.take(i as int));
        assert(v@.take(i + 1).last() == c);
        let u = c as u32;
        if 0x80 <= u && u <= 0x9F {
            any_c1 = true;
        }
        match cp1252_c1_char(c) {
            Some(m) => {
                out.push(m);
                assert(out@ =~= before + seq![m]);
            },
            None => {
                assert(out@ =~= before + Seq::<char>::empty());
            },
        }
        i += 1;
    }
    assert(v@.take(v@.len() as int) =~= v@);
    if !any_c1 {
        Cow::Borrowed(text)
    } else {
        Cow::Owned(string_of(out.as_slice()))
    }
}

// ---------------------------------------------------------------------------
// Paragraph sentinels
// ---------------------------------------------------------------------------

/// `\'1e`, the RTF escape of the sentinel character.
pub open spec fn sentinel_escape() -> Seq<char> {
    seq!['\\', '\'', '1', 'e']
}

/// A `\par` control word (any ASCII case) starts `s`: not `\pard` or any
/// longer word.
pub open spec fn par_at_start(s: Seq<char>) -> bool {
    &&& s.len() >= 4
    &&& s[0] == '\\'
    &&& ascii_lower(s[1]) == 'p' && ascii_lower(s[2]) == 'a' && ascii_lower(s[3]) == 'r'
    &&& !(s.len() > 4 && is_ascii_alpha(s[4]))
}

/// Where the text after a `\par` at the start of `s` begins: after the word
/// and the single space that may end it.
pub open spec fn after_par(s: Seq<char>) -> int {
    if s.len() > 4 && s[4] == ' ' {
        5
    } else {
        4
    }
}

/// `s` with the sentinel escape written after every `\par` that does not
/// already carry one.
pub open spec fn with_sentinels(s: Seq<char>) -> Seq<char>
    decreases s.len(),
{
    if s.len() < 4 {
        s
    } else if par_at_start(s) {
        let k = after_par(s);
        if starts_with(s.skip(k), sentinel_escape()) {
            s.take(k) + with_sentinels(s.skip(k))
        } else {
            s.take(k) + sentinel_escape() + with_sentinels(s.skip(k))
        }
    } else {
        seq![s[0]] + with_sentinels(s.drop_first())
    }
}

/// Whether some `\par` still lacks its sentinel.
pub open spec fn needs_sentinel(s: Seq<char>) -> bool
    decreases s.len(),
{
    if s.len() < 4 {
        false
    } else if par_at_start(s) {
        let k = after_par(s);
        !starts_with(s.skip(k), sentinel_escape()) || needs_sentinel(s.skip(k))
    } else {
        needs_sentinel(s.drop_first())
    }
}

/// Writing the sentinels leaves the first four characters as they were and
/// never shortens the text.
proof fn lemma_sentinels_keep_head(s: Seq<char>)
    ensures
        with_sentinels(s).len() >= s.len(),
        forall|i: int| 0 <= i < 4 && i < s.len() ==> #[trigger] with_sentinels(s)[i] == s[i],
    decreases s.len(),
{
    if s.len() < 4 {
    } else if par_at_start(s) {
        let k = after_par(s);
        lemma_sentinels_keep_head(s.skip(k));
    } else {
        lemma_sentinels_keep_head(s.drop_first());
    }
}

/// Where no `\par` starts, the first character is copied and the rest is
/// read on its own.
proof fn lemma_sentinels_step(s: Seq<char>)
    requires
        s.len() >= 1,
        !par_at_start(s),
    ensures
        with_sentinels(s) == seq![s[0]] + with_sentinels(s.drop_first()),
{
    if s.len() < 4 {
        assert(seq![s[0]] + s.drop_first() =~= s);
    }
}

/// The sentinel escape itself holds no `\par`.
proof fn lemma_sentinels_over_escape(x: Seq<char>)
    ensures
        with_sentinels(sentinel_escape() + x) == sentinel_escape() + with_sentinels(x),
{
    let e = sentinel_escape();
    let s0 = e + x;
    let s1 = s0.drop_first();
    let s2 = s1.drop_first();
    let s3 = s2.drop_first();
    assert(s3.drop_first() =~= x);
    lemma_sentinels_step(s0);
    lemma_sentinels_step(s1);
    lemma_sentinels_step(s2);
    lemma_sentinels_step(s3);
    assert(with_sentinels(s0) =~= e + with_sentinels(x));
}

/// Writing the sentinels twice gives what writing them once gives: every
/// `\par` already carries its sentinel after the first pass.
pub proof fn sentinels_idempotent(s: Seq<char>)
    ensures
        with_sentinels(with_sentinels(s)) == with_sentinels(s),
    decreases s.len(),
{
    if s.len() < 4 {
    } else if par_at_start(s) {
        let k = after_par(s);
        let rest = s.skip(k);
        let u = with_sentinels(s);
        lemma_sentinels_keep_head(rest);
        sentinels_idempotent(rest);
        if starts_with(rest, sentinel_escape()) {
            assert(u == s.take(k) + with_sentinels(rest));
            assert(u.skip(k) =~= with_sentinels(rest));
            assert(u.take(k) =~= s.take(k));
            assert(with_sentinels(rest).subrange(0, 4) =~= rest.subrange(0, 4));
            assert(u[k] == rest[0]);
            assert(par_at_start(u));
            assert(after_par(u) == k);
            assert(starts_with(u.skip(k), sentinel_escape()));
        } else {
            let e = sentinel_escape();
            assert(u == s.take(k) + e + with_sentinels(rest));
            assert(u.skip(k) =~= e + with_sentinels(rest));
            assert(u.take(k) =~= s.take(k));
            assert(u[k] == '\\');
            assert(par_at_start(u));
            assert(after_par(u) == k);
            assert((e + with_sentinels(rest)).subrange(0, 4) =~= e);
            assert(starts_with(u.skip(k), e));
            lemma_sentinels_over_escape(with_sentinels(rest));
            assert(with_sentinels(u) =~= s.take(k) + (e + with_sentinels(rest)));
        }
    } else {
        let rest = s.drop_first();
        let u = with_sentinels(s);
        lemma_sentinels_keep_head(rest);
        sentinels_idempotent(rest);
        assert(u == seq![s[0]] + with_sentinels(rest));
        assert(u[0] == s[0]);
        assert(u[1] == s[1] && u[2] == s[2] && u[3] == s[3]);
        assert(s.len() > 4 ==> u[4] == s[4]);
        assert(!par_at_start(u));
        lemma_sentinels_step(u);
        assert(u.drop_first() =~= with_sentinels(rest));
    }
}

fn par_here(s: &[char], i: usize) -> (r: bool)
    requires
        i <= s@.len(),
    ensures
        r == par_at_start(s@.skip(i as int)),
{
    let n = s.len();
    if n - i < 4 {
        return false;
    }
    let r = s[i] == '\\' && crate::text::to_ascii_lower(s[i + 1]) == 'p'
        && crate::text::to_ascii_lower(s[i + 2]) == 'a' && crate::text::to_ascii_lower(s[i + 3])
        == 'r' && !(n - i > 4 && crate::text::is_ascii_alphabetic(s[i + 4]));
    r
}

fn escape_at(s: &[char], k: usize) -> (r: bool)
    requires
        k <= s@.len(),
    ensures
        r == starts_with(s@.skip(k as int), sentinel_escape()),
{
    let n = s.len();
    if n - k < 4 {
        return false;
    }
    let r = s[k] == '\\' && s[k + 1] == '\'' && s[k + 2] == '1' && s[k + 3] == 'e';
    proof {
        if r {
            assert(s@.skip(k as int).subrange(0, 4) =~= sentinel_escape());
        }
        if starts_with(s@.skip(k as int), sentinel_escape()) {
            assert(s@.skip(k as int).subrange(0, 4)[3] == 'e');
            assert(s@.skip(k as int).subrange(0, 4)[0] == '\\');
            assert(s@.skip(k as int).subrange(0, 4)[1] == '\'');
            assert(s@.skip(k as int).subrange(0, 4)[2] == '1');
        }
    }
    r
}

/// Tag every `\par` control word with the sentinel escape, so paragraph
/// breaks survive parsing as line breaks; borrowed unchanged when every one
/// is tagged already.
pub fn inject_paragraph_sentinels(input: &str) -> (r: Cow<'_, str>)
    ensures
        r@ == with_sentinels(input@),
        (r matches Cow::Borrowed(_)) <==> !needs_sentinel(input@),
{
    let s = chars_of(input);
    let n = s.len();
    let mut out: Vec<char> = Vec::new();
    let mut changed = false;
    let mut i: usize = 0;
    assert(s@.skip(0) =~= s@);
    while n - i >= 4
        invariant
            n == s@.len(),
            s@ == input@,
            i <= n,
            out@ + with_sentinels(s@.skip(i as int)) == with_sentinels(s@),
            needs_sentinel(s@) == (changed || needs_sentinel(s@.skip(i as int))),
        decreases n - i,
    {
        let ghost t = s@.skip(i as int);
        if par_here(s.as_slice(), i) {
            let k = if n - i > 4 && s[i + 4] == ' ' {
                i + 5
            } else {
                i + 4
            };
            assert(k - i == after_par(t));
            assert(t.take(k - i) =~= s@.subrange(i as int, k as int));
            assert(t.skip(k - i) =~= s@.skip(k as int));
            let head = slice(s.as_slice(), i, k);
            push_all(&mut out, head.as_slice());
            if !escape_at(s.as_slice(), k) {
                out.push('\\');
                out.push('\'');
                out.push('1');
                out.push('e');
                changed = true;
            }
            i = k;
        } else {
            assert(t.drop_first() =~= s@.skip(i + 1));
            out.push(s[i]);
            i += 1;
        }
    }
    proof {
        let t = s@.skip(i as int);
        assert(with_sentinels(t) == t);
        assert(!needs_sentinel(t));
    }
    let tail = slice(s.as_slice(), i, n);
    assert(tail@ =~= s@.skip(i as int));
    push_all(&mut out, tail.as_slice());
    if !changed {
        proof {
            lemma_no_sentinel_needed(s@);
        }
        Cow::Borrowed(input)
    } else {
        Cow::Owned(string_of(out.as_slice()))
    }
}

proof fn lemma_no_sentinel_needed(s: Seq<char>)
    requires
        !needs_sentinel(s),
    ensures
        with_sentinels(s) == s,
    decreases s.len(),
{
    if s.len() >= 4 {
        if par_at_start(s) {
            let k = after_par(s);
            lemma_no_sentinel_needed(s.skip(k));
            assert(s.take(k) + s.skip(k) =~= s);
        } else {
            lemma_no_sentinel_needed(s.drop_first());
            assert(seq![s[0]] + s.drop_first() =~= s);
        }
    }
}


// ---------------------------------------------------------------------------
// From parsed RTF to paragraphs
// ---------------------------------------------------------------------------

/// An inline style of imported text.
#[derive(Debug, Clone, Copy, PartialEq, Eq, Structural)]
pub enum Style {
    Bold,
    Italic,
    Underline,
    Strike,
}

/// A run of text the parser found with one set of styles, and the layout of
/// the paragraph it stands in (as text: two runs belong to the same
/// paragraph layout exactly when these are equal).
pub struct RtfBlock {
    pub text: String,
    pub bold: bool,
    pub italic: bool,
    pub underline: bool,
    pub strike: bool,
    pub paragraph: String,
}

/// A block as a value: text, the four style flags, the paragraph layout.
pub type RtfBlockView = (Seq<char>, (bool, bool, bool, bool), Seq<char>);

/// The blocks as values.
pub open spec fn rtf_block_views(v: Seq<RtfBlock>) -> Seq<RtfBlockView> {
    v.map_values(|b: RtfBlock| (b.text@, (b.bold, b.italic, b.underline, b.strike), b.paragraph@))
}

/// The style blocks `rtf_parser` reads from a text, or `None` when it
/// cannot parse it.
pub uninterp spec fn rtf_body(text: Seq<char>) -> Option<Seq<RtfBlockView>>;

/// `RtfDocument::try_from(text)`: its body's style blocks, each with its
/// text, the bold/italic/underline/strike flags of its painter and its
/// paragraph settings written out with `Debug`; the parser's result is named
/// by `rtf_body`. On failure, the parser's error message. The texts on which
/// the parser panics rather than report an error are left out (see
/// `rtf_safe`).
#[verifier::external_body]
fn parse_rtf(text: &str) -> (r: Result<Vec<RtfBlock>, String>)
    requires
        rtf_safe(text@),
    ensures
        match r {
            Ok(v) => rtf_body(text@) == Some(rtf_block_views(v@)),
            Err(_) => rtf_body(text@) is None,
        },
{
    match rtf_parser::RtfDocument::try_from(text) {
        Ok(doc) => Ok(doc.body.iter().map(|b| RtfBlock {
            text: b.text.clone(),
            bold: b.painter.bold,
            italic: b.painter.italic,
            underline: b.painter.underline,
            strike: b.painter.strike,
            paragraph: format!("{:?}", b.paragraph),
        }).collect()),
        Err(e) => Err(e.to_string()),
    }
}

/// A span of imported text and its styles, outermost first.
pub struct Run {
    pub text: String,
    pub styles: Vec<Style>,
}

/// A run as a value.
pub open spec fn run_view(r: Run) -> (Seq<char>, Seq<Style>) {
    (r.text@, r.styles@)
}

/// Runs as values.
pub open spec fn runs_view(v: Seq<Run>) -> Seq<(Seq<char>, Seq<Style>)> {
    v.map_values(|r: Run| run_view(r))
}

/// Paragraphs of runs as values.
pub open spec fn paragraphs_view(v: Seq<Vec<Run>>) -> Seq<Seq<(Seq<char>, Seq<Style>)>> {
    v.map_values(|p: Vec<Run>| runs_view(p@))
}

/// The styles of a block, outermost first: bold, italic, underline, strike.
pub open spec fn style_list(f: (bool, bool, bool, bool)) -> Seq<Style> {
    (if f.0 { seq![Style::Bold] } else { Seq::empty() }) + (if f.1 { seq![Style::Italic] } else { Seq::empty() })
        + (if f.2 { seq![Style::Underline] } else { Seq::empty() }) + (if f.3 {
        seq![Style::Strike]
    } else {
        Seq::empty()
    })
}

/// Paragraphs finished so far and the runs of the one being built.
pub type Import = (Seq<Seq<(Seq<char>, Seq<Style>)>>, Seq<(Seq<char>, Seq<Style>)>);

/// Adding a piece of text to the paragraph being built: nothing for empty
/// text or text the Windows-1252 repair empties; otherwise a run of the
/// repaired text. Also tells whether a run was added.
pub open spec fn with_span(cur: Seq<(Seq<char>, Seq<Style>)>, seg: Seq<char>, styles: Seq<Style>) -> (
    Seq<(Seq<char>, Seq<Style>)>,
    bool,
) {
    if seg.len() == 0 || repaired(seg).len() == 0 {
        (cur, false)
    } else {
        (cur.push((repaired(seg), styles)), true)
    }
}

/// Finishing the paragraph being built: it joins the finished ones unless it
/// is empty, in which case an empty paragraph is added only when allowed.
pub open spec fn finished(st: Import, allow_empty: bool) -> Import {
    if st.1.len() == 0 {
        (if allow_empty { st.0.push(Seq::empty()) } else { st.0 }, st.1)
    } else {
        (st.0.push(st.1), Seq::empty())
    }
}

/// A block's text with paragraph-break sentinels read as newlines.
pub open spec fn unsentinel(t: Seq<char>) -> Seq<char> {
    t.map_values(|c: char| if c == PARAGRAPH_BREAK_SENTINEL { '\n' } else { c })
}

/// Reading a block's text from `i` on, with `seg` the text since the last
/// break: a carriage return ends a run, a newline ends a run and the
/// paragraph (an empty one too), the end of the text ends a run. Also
/// tells whether any run was added (`appended` so far).
pub open spec fn text_import(
    t: Seq<char>,
    styles: Seq<Style>,
    i: int,
    seg: Seq<char>,
    st: Import,
    appended: bool,
) -> (Import, bool)
    decreases t.len() - i,
{
    if i < 0 || i >= t.len() {
        let (c, a) = with_span(st.1, seg, styles);
        ((st.0, c), appended || a)
    } else if t[i] == '\r' {
        let (c, a) = with_span(st.1, seg, styles);
        text_import(t, styles, i + 1, Seq::empty(), (st.0, c), appended || a)
    } else if t[i] == '\n' {
        let (c, a) = with_span(st.1, seg, styles);
        text_import(t, styles, i + 1, Seq::empty(), finished((st.0, c), true), appended || a)
    } else {
        text_import(t, styles, i + 1, seg.push(t[i]), st, appended)
    }
}

/// Importing the blocks from `i` on. The paragraph being built is finished
/// before a block whose paragraph layout differs from the last block that
/// added text; at the end it is finished too (dropped if empty).
pub open spec fn blocks_import(
    blocks: Seq<RtfBlockView>,
    i: int,
    st: Import,
    last: Option<Seq<char>>,
) -> Seq<Seq<(Seq<char>, Seq<Style>)>>
    decreases blocks.len() - i,
{
    if i < 0 || i >= blocks.len() {
        finished(st, false).0
    } else {
        let b = blocks[i];
        let st1 = if last is Some && last != Some(b.2) && st.1.len() > 0 {
            finished(st, false)
        } else {
            st
        };
        let (st2, appended) = text_import(unsentinel(b.0), style_list(b.1), 0, Seq::empty(), st1, false);
        blocks_import(blocks, i + 1, st2, if appended { Some(b.2) } else { last })
    }
}

/// The paragraphs imported from RTF bytes: read as UTF-8 (replacing what is
/// not valid), paragraph breaks tagged, parsed, and the style blocks turned
/// into paragraphs of runs; `None` when the parser refuses the text.
pub open spec fn rtf_import(bytes: Seq<u8>) -> Option<Seq<Seq<(Seq<char>, Seq<Style>)>>> {
    match rtf_body(with_sentinels(crate::gui::percent::lossy_utf8(bytes))) {
        Some(blocks) => Some(blocks_import(blocks, 0, (Seq::empty(), Seq::empty()), None)),
        None => None,
    }
}

fn cow_chars(c: &Cow<'_, str>) -> (r: Vec<char>)
    ensures
        r@ == c@,
{
    match c {
        Cow::Borrowed(s) => chars_of(s),
        Cow::Owned(s) => chars_of(s.as_str()),
    }
}

fn styles_of(bold: bool, italic: bool, underline: bool, strike: bool) -> (r: Vec<Style>)
    ensures
        r@ == style_list((bold, italic, underline, strike)),
{
    let mut v: Vec<Style> = Vec::new();
    if bold {
        v.push(Style::Bold);
    }
    if italic {
        v.push(Style::Italic);
    }
    if underline {
        v.push(Style::Underline);
    }
    if strike {
        v.push(Style::Strike);
    }
    assert(v@ =~= style_list((bold, italic, underline, strike)));
    v
}

fn push_span(seg: &[char], f: (bool, bool, bool, bool), spans: &mut Vec<Run>) -> (r: bool)
    ensures
        (runs_view(final(spans)@), r) == with_span(runs_view(old(spans)@), seg@, style_list(f)),
{
    if seg.len() == 0 {
        return false;
    }
    let s = string_of(seg);
    let text = repair_cp1252_c1(s.as_str());
    let tv = cow_chars(&text);
    if tv.len() == 0 {
        return false;
    }
    let ghost before = runs_view(spans@);
    spans.push(Run { text: string_of(tv.as_slice()), styles: styles_of(f.0, f.1, f.2, f.3) });
    assert(runs_view(spans@) =~= before.push((repaired(seg@), style_list(f))));
    true
}

fn finalize_paragraph(spans: &mut Vec<Run>, paragraphs: &mut Vec<Vec<Run>>, allow_empty: bool)
    ensures
        (paragraphs_view(final(paragraphs)@), runs_view(final(spans)@)) == finished(
            (paragraphs_view(old(paragraphs)@), runs_view(old(spans)@)),
            allow_empty,
        ),
{
    let ghost before = paragraphs_view(paragraphs@);
    if spans.len() == 0 {
        if allow_empty {
            let e: Vec<Run> = Vec::new();
            assert(runs_view(e@) =~= Seq::<(Seq<char>, Seq<Style>)>::empty());
            paragraphs.push(e);
            assert(paragraphs_view(paragraphs@) =~= before.push(Seq::empty()));
        }
        return;
    }
    let mut taken: Vec<Run> = Vec::new();
    std::mem::swap(&mut taken, spans);
    let ghost tv = runs_view(taken@);
    paragraphs.push(taken);
    assert(paragraphs_view(paragraphs@) =~= before.push(tv));
    assert(runs_view(spans@) =~= Seq::<(Seq<char>, Seq<Style>)>::empty());
}

fn append_style_block(
    text: &str,
    f: (bool, bool, bool, bool),
    spans: &mut Vec<Run>,
    paragraphs: &mut Vec<Vec<Run>>,
) -> (r: bool)
    ensures
        ((paragraphs_view(final(paragraphs)@), runs_view(final(spans)@)), r) == text_import(
            unsentinel(text@),
            style_list(f),
            0,
            Seq::empty(),
            (paragraphs_view(old(paragraphs)@), runs_view(old(spans)@)),
            false,
        ),
{
    let src = chars_of(text);
    let mut t: Vec<char> = Vec::new();
    let mut k: usize = 0;
    while k < src.len()
        invariant
            k <= src@.len(),
            t@ == unsentinel(src@.take(k as int)),
        decreases src.len() - k,
    {
        t.push(if src[k] == PARAGRAPH_BREAK_SENTINEL { '\n' } else { src[k] });
        assert(t@ =~= unsentinel(src@.take(k + 1)));
        k += 1;
    }
    assert(src@.take(src@.len() as int) =~= src@);
    let ghost tv = t@;
    let ghost styles = style_list(f);
    let ghost goal = text_import(
        tv,
        styles,
        0,
        Seq::empty(),
        (paragraphs_view(paragraphs@), runs_view(spans@)),
        false,
    );
    let mut seg: Vec<char> = Vec::new();
    let mut appended = false;
    let mut i: usize = 0;
    while i < t.len()
        invariant
            tv == t@,
            styles == style_list(f),
            i <= t@.len(),
            text_import(tv, styles, i as int, seg@, (paragraphs_view(paragraphs@), runs_view(spans@)), appended)
                == goal,
        decreases t.len() - i,
    {
        let c = t[i];
        if c == '\r' {
            let a = push_span(seg.as_slice(), f, spans);
            appended = appended || a;
            seg = Vec::new();
        } else if c == '\n' {
            let a = push_span(seg.as_slice(), f, spans);
            appended = appended || a;
            finalize_paragraph(spans, paragraphs, true);
            seg = Vec::new();
        } else {
            seg.push(c);
        }
        i += 1;
    }
    let a = push_span(seg.as_slice(), f, spans);
    appended || a
}

fn same_layout(a: &String, b: &String) -> (r: bool)
    ensures
        r == (a@ == b@),
{
    crate::text::same_text(a.as_str(), b.as_str())
}

/// The paragraphs of RTF bytes, each a list of styled runs (see
/// `rtf_import`): the parser's error when it refuses the text.
pub fn rtf_paragraphs(bytes: &[u8]) -> (r: Result<Vec<Vec<Run>>, RtfImportError>)
    requires
        rtf_safe(with_sentinels(crate::gui::percent::lossy_utf8(bytes@))),
    ensures
        match r {
            Ok(ps) => rtf_import(bytes@) == Some(paragraphs_view(ps@)),
            Err(e) => rtf_import(bytes@) is None && e is Parse,
        },
{
    let decoded = crate::gui::percent::utf8_lossy(bytes);
    let normalized = inject_paragraph_sentinels(decoded.as_str());
    let nv = cow_chars(&normalized);
    let ns = string_of(nv.as_slice());
    let blocks = match parse_rtf(ns.as_str()) {
        Ok(b) => b,
        Err(msg) => return Err(RtfImportError::Parse(msg)),
    };
    let ghost bv = rtf_block_views(blocks@);
    let mut paragraphs: Vec<Vec<Run>> = Vec::new();
    let mut spans: Vec<Run> = Vec::new();
    let mut last: Option<&String> = None;
    let mut i: usize = 0;
    assert(paragraphs_view(paragraphs@) =~= Seq::<Seq<(Seq<char>, Seq<Style>)>>::empty());
    assert(runs_view(spans@) =~= Seq::<(Seq<char>, Seq<Style>)>::empty());
    while i < blocks.len()
        invariant
            bv == rtf_block_views(blocks@),
            rtf_body(ns@) == Some(bv),
            i <= blocks@.len(),
            blocks_import(
                bv,
                i as int,
                (paragraphs_view(paragraphs@), runs_view(spans@)),
                match last {
                    Some(l) => Some(l@),
                    None => None,
                },
            ) == blocks_import(bv, 0, (Seq::empty(), Seq::empty()), None),
        decreases blocks.len() - i,
    {
        let b = &blocks[i];
        assert(bv[i as int] == (b.text@, (b.bold, b.italic, b.underline, b.strike), b.paragraph@));
        let changed = match last {
            Some(l) => !same_layout(l, &b.paragraph),
            None => false,
        };
        if changed && spans.len() > 0 {
            finalize_paragraph(&mut spans, &mut paragraphs, false);
        }
        let appended = append_style_block(
            b.text.as_str(),
            (b.bold, b.italic, b.underline, b.strike),
            &mut spans,
            &mut paragraphs,
        );
        if appended {
            last = Some(&b.paragraph);
        }
        i += 1;
    }
    finalize_paragraph(&mut spans, &mut paragraphs, false);
    Ok(paragraphs)
}

/// `tdoc::Document` as a type the library carries.
#[verifier::external_type_specification]
#[verifier::external_body]
pub struct ExTdocDocument(TdocDocument);

/// `tdoc::Span` as a type the library carries.
#[verifier::external_type_specification]
#[verifier::external_body]
pub struct ExTdocSpan(TdocSpan);

/// `tdoc::Paragraph` as a type the library carries.
#[verifier::external_type_specification]
#[verifier::external_body]
pub struct ExTdocParagraph(TdocParagraph);

/// The span style a `Style` stands for.
pub open spec fn span_style(style: Style) -> SpanStyle {
    match style {
        Style::Bold => SpanStyle::Bold,
        Style::Italic => SpanStyle::Italic,
        Style::Underline => SpanStyle::Underline,
        Style::Strike => SpanStyle::Strike,
    }
}

fn span_style_exec(style: Style) -> (r: SpanStyle)
    ensures
        r == span_style(style),
{
    match style {
        Style::Bold => SpanStyle::Bold,
        Style::Italic => SpanStyle::Italic,
        Style::Underline => SpanStyle::Underline,
        Style::Strike => SpanStyle::Strike,
    }
}

/// The plain span of a text (what `Span::new_text` makes).
pub open spec fn text_span_of(text: Seq<char>) -> TdocSpan {
    span_built(SpanStyle::Plain, text, None, Seq::empty())
}

/// The text paragraph holding the spans.
pub open spec fn text_paragraph_of(spans: Seq<TdocSpan>) -> TdocParagraph {
    paragraph_built(ParagraphView::Inline(InlineKind::Text, spans))
}

/// The document `Document { metadata: None, paragraphs }` holding the
/// paragraphs.
pub uninterp spec fn document_of_paragraphs(paragraphs: Seq<TdocParagraph>) -> TdocDocument;

/// `Document { metadata: None, paragraphs }` (what
/// `Document::new().with_paragraphs(paragraphs)` builds): the document of
/// `paragraphs` without metadata, the one `document_of_paragraphs` names.
#[verifier::external_body]
pub(crate) fn document_of(paragraphs: Vec<TdocParagraph>) -> (r: TdocDocument)
    ensures
        r == document_of_paragraphs(paragraphs@),
        paragraphs_of(r) == paragraphs@,
{
    TdocDocument { metadata: None, paragraphs }
}

/// The top-level paragraphs of a document (its `paragraphs` field).
pub uninterp spec fn paragraphs_of(doc: TdocDocument) -> Seq<TdocParagraph>;

/// The `paragraphs` field of a document, moved out, as `paragraphs_of`
/// names it.
#[verifier::external_body]
pub(crate) fn into_paragraphs(doc: TdocDocument) -> (r: Vec<TdocParagraph>)
    ensures
        r@ == paragraphs_of(doc),
{
    doc.paragraphs
}

/// A text wrapped in one styled span per style, the first style outermost.
pub open spec fn styled_text(text: Seq<char>, styles: Seq<Style>) -> TdocSpan
    decreases styles.len(),
{
    if styles.len() == 0 {
        text_span_of(text)
    } else {
        span_built(
            span_style(styles[0]),
            Seq::empty(),
            None,
            seq![styled_text(text, styles.drop_first())],
        )
    }
}

/// The spans of a paragraph's runs (as values).
pub open spec fn run_spans(runs: Seq<(Seq<char>, Seq<Style>)>) -> Seq<TdocSpan> {
    runs.map_values(|r: (Seq<char>, Seq<Style>)| styled_text(r.0, r.1))
}

/// The document of text paragraphs made of paragraphs of runs (as values).
pub open spec fn runs_document(paragraphs: Seq<Seq<(Seq<char>, Seq<Style>)>>) -> TdocDocument {
    document_of_paragraphs(
        paragraphs.map_values(|p: Seq<(Seq<char>, Seq<Style>)>| text_paragraph_of(run_spans(p))),
    )
}

/// A run as a span: its text wrapped in one styled span per style, the first
/// style outermost.
fn apply_styles(run: &Run) -> (r: TdocSpan)
    ensures
        r == styled_text(run.text@, run.styles@),
{
    let mut span = span_of_parts(
        SpanParts {
            style: SpanStyle::Plain,
            text: run.text.clone(),
            link_target: None,
            children: Vec::new(),
        },
    );
    let mut i = run.styles.len();
    let ghost st = run.styles@;
    assert(st.subrange(st.len() as int, st.len() as int) =~= Seq::<Style>::empty());
    while i > 0
        invariant
            i <= run.styles@.len(),
            st == run.styles@,
            span == styled_text(run.text@, st.subrange(i as int, st.len() as int)),
        decreases i,
    {
        i -= 1;
        let style = span_style_exec(run.styles[i]);
        assert(st.subrange(i as int, st.len() as int).drop_first() =~= st.subrange(
            i + 1,
            st.len() as int,
        ));
        let mut children: Vec<TdocSpan> = Vec::new();
        children.push(span);
        assert(children@ =~= seq![styled_text(run.text@, st.subrange(i + 1, st.len() as int))]);
        let empty = String::new();
        assert(empty@ =~= Seq::<char>::empty());
        span = span_of_parts(SpanParts { style, text: empty, link_target: None, children });
    }
    assert(st.subrange(0, st.len() as int) =~= st);
    span
}

/// The document of text paragraphs made of the runs, one paragraph per list.
fn text_document(paragraphs: &Vec<Vec<Run>>) -> (r: TdocDocument)
    ensures
        r == runs_document(paragraphs_view(paragraphs@)),
{
    let ghost pv = paragraphs_view(paragraphs@);
    let mut paras: Vec<TdocParagraph> = Vec::new();
    let mut i: usize = 0;
    while i < paragraphs.len()
        invariant
            i <= paragraphs@.len(),
            pv == paragraphs_view(paragraphs@),
            paras@ =~= pv.take(i as int).map_values(
                |p: Seq<(Seq<char>, Seq<Style>)>| text_paragraph_of(run_spans(p)),
            ),
        decreases paragraphs.len() - i,
    {
        let runs = &paragraphs[i];
        let ghost rv = runs_view(runs@);
        let mut spans: Vec<TdocSpan> = Vec::new();
        let mut j: usize = 0;
        while j < runs.len()
            invariant
                j <= runs@.len(),
                rv == runs_view(runs@),
                spans@ =~= run_spans(rv.take(j as int)),
            decreases runs.len() - j,
        {
            let sp = apply_styles(&runs[j]);
            assert(rv[j as int] == run_view(runs@[j as int]));
            spans.push(sp);
            assert(run_spans(rv.take(j + 1)) =~= run_spans(rv.take(j as int)).push(sp));
            j += 1;
        }
        assert(rv.take(runs@.len() as int) =~= rv);
        assert(pv[i as int] == rv);
        let para = paragraph_of_parts(ParagraphParts::Inline(InlineKind::Text, spans));
        paras.push(para);
        assert(pv.take(i + 1).map_values(
            |p: Seq<(Seq<char>, Seq<Style>)>| text_paragraph_of(run_spans(p)),
        ) =~= pv.take(i as int).map_values(
            |p: Seq<(Seq<char>, Seq<Style>)>| text_paragraph_of(run_spans(p)),
        ).push(para));
        i += 1;
    }
    assert(pv.take(paragraphs@.len() as int) =~= pv);
    document_of(paras)
}

/// Convert raw RTF bytes into a document of text paragraphs (see
/// `rtf_paragraphs`; styling covers bold, italic, underline and
/// strikethrough).
pub fn parse_rtf_document(bytes: &[u8]) -> (r: Result<TdocDocument, RtfImportError>)
    requires
        rtf_safe(with_sentinels(crate::gui::percent::lossy_utf8(bytes@))),
    ensures
        r is Ok <==> rtf_import(bytes@) is Some,
        r matches Ok(d) ==> d == runs_document(rtf_import(bytes@)->0),
        r matches Err(e) ==> e is Parse,
{
    match rtf_paragraphs(bytes) {
        Ok(ps) => Ok(text_document(&ps)),
        Err(e) => Err(e),
    }
}

/// Convert raw RTF bytes into a document (see `parse_rtf_document`), or
/// `None` for a text the parser cannot read without panicking (see
/// `rtf_safe`): an escape run that leaves a surrogate unpaired, a negative
/// `\ucN`, and the like.
pub fn try_parse_rtf_document(bytes: &[u8]) -> (r: Option<Result<TdocDocument, RtfImportError>>)
    ensures
        r is None <==> !rtf_safe(with_sentinels(crate::gui::percent::lossy_utf8(bytes@))),
        r matches Some(res) ==> {
            &&& (res is Ok <==> rtf_import(bytes@) is Some)
            &&& (res matches Ok(d) ==> d == runs_document(rtf_import(bytes@)->0))
            &&& (res matches Err(e) ==> e is Parse)
        },
{
    let decoded = crate::gui::percent::utf8_lossy(bytes);
    let normalized = inject_paragraph_sentinels(decoded.as_str());
    let nv = cow_chars(&normalized);
    let ns = string_of(nv.as_slice());
    if !rtf_text_safe(ns.as_str()) {
        None
    } else {
        Some(parse_rtf_document(bytes))
    }
}

} // verus!
