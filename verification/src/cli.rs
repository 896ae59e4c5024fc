//! Decisions of the command-line program: search-hit highlighting, what
//! `piki view` shows for a name, and where a link in a viewed note leads.
//!
//! Everything that talks to the terminal, the file system or other programs
//! stays with the program itself; this module computes on plain values.
use vstd::prelude::*;
use vstd::utf8::*;
use crate::gui::percent::utf8_lossy;
use crate::gui::markdown_converter::{markdown_document, markdown_error, parse_markdown, utf8_error, utf8_text};
use tdoc::Document as TdocDocument;
use crate::document::{has_md_chars, has_md_ext, join_path, parent_path, path_join, path_parent};
use crate::text::{
    chars_of, find_char, first_index_of, lowercase, push_str, slice, str_to_lowercase, string_of,
    string_views, trim, trimmed,
};

verus! {

/// Colour for a note name in search output (bold cyan).
pub const C_NAME: &'static str = "\x1b[1;36m";
/// Colour for a line number in search output (green).
pub const C_LINE: &'static str = "\x1b[32m";
/// Colour for a matched term (bold red).
pub const C_MATCH: &'static str = "\x1b[1;31m";
/// Back to the terminal's default colours.
pub const C_RESET: &'static str = "\x1b[0m";

// ---------------------------------------------------------------------------
// Highlighting search terms
// ---------------------------------------------------------------------------

/// `t` occurs in `w` at byte offset `i`.
pub open spec fn bytes_at(w: Seq<u8>, t: Seq<u8>, i: int) -> bool {
    0 <= i && i + t.len() <= w.len() && w.subrange(i, i + t.len()) == t
}

/// Scanning `w` from offset `pos` for successive occurrences of `t`, each
/// search resuming where the previous match ended: whether one of the matches
/// covers offset `k`.
pub open spec fn scan_covers(w: Seq<u8>, t: Seq<u8>, pos: int, k: int) -> bool
    decreases w.len() - pos,
{
    if t.len() == 0 || pos < 0 || pos + t.len() > w.len() {
        false
    } else if bytes_at(w, t, pos) {
        (pos <= k < pos + t.len()) || scan_covers(w, t, pos + t.len(), k)
    } else {
        scan_covers(w, t, pos + 1, k)
    }
}

/// Offset `k` of `w` lies in a match of one of the first `upto` terms.
pub open spec fn covered_by(w: Seq<u8>, terms: Seq<Seq<u8>>, upto: int, k: int) -> bool {
    exists|j: int| 0 <= j < upto && #[trigger] scan_covers(w, terms[j], 0, k)
}

/// For each offset of `w`, whether a match of some term covers it.
pub open spec fn cover_mask(w: Seq<u8>, terms: Seq<Seq<u8>>) -> Seq<bool> {
    Seq::new(w.len(), |k: int| covered_by(w, terms, terms.len() as int, k))
}

/// The end of the run of `true` in `m` that starts at `i`.
pub open spec fn run_end(m: Seq<bool>, i: int) -> int
    decreases m.len() - i,
{
    if i < 0 || i >= m.len() || !m[i] {
        i
    } else {
        run_end(m, i + 1)
    }
}

/// A run of covered offsets reaches up to, not including, its end.
pub proof fn lemma_run_end(m: Seq<bool>, i: int)
    requires
        0 <= i <= m.len(),
    ensures
        i <= run_end(m, i) <= m.len(),
        i < m.len() && m[i] ==> i < run_end(m, i),
        forall|k: int| i <= k < run_end(m, i) ==> m[k],
        run_end(m, i) < m.len() ==> !m[run_end(m, i)],
    decreases m.len() - i,
{
    if i < m.len() && m[i] {
        lemma_run_end(m, i + 1);
    }
}

/// The bytes of `l` from offset `i` on, each maximal run of covered offsets
/// wrapped in the match colour when both of its ends fall on character
/// boundaries, with `l[cursor..i]` still to be copied before them.
pub open spec fn emit(l: Seq<u8>, m: Seq<bool>, i: int, cursor: int) -> Seq<u8>
    decreases l.len() - i,
{
    if i < 0 || i >= l.len() || m.len() != l.len() {
        l.subrange(cursor, l.len() as int)
    } else if !m[i] {
        emit(l, m, i + 1, cursor)
    } else {
        let e = run_end(m, i);
        proof {
            lemma_run_end(m, i);
        }
        if is_char_boundary(l, i) && is_char_boundary(l, e) {
            l.subrange(cursor, i) + encode_utf8(C_MATCH@) + l.subrange(i, e) + encode_utf8(
                C_RESET@,
            ) + emit(l, m, e, e)
        } else {
            emit(l, m, e, cursor)
        }
    }
}

/// The UTF-8 bytes of a search hit as shown on a terminal: every
/// case-insensitive occurrence of a term (found in the lower-cased line, each
/// term's search resuming after its previous match) is wrapped in the match
/// colour, overlapping and touching matches merged. The line stays as it is
/// when highlighting is off, there are no terms, or lower-casing changed the
/// line's length in bytes (offsets would not line up); a merged match whose
/// ends are not character boundaries of the line is left unmarked.
pub open spec fn highlighted(line: Seq<char>, terms: Seq<Seq<char>>, enabled: bool) -> Seq<u8> {
    let l = encode_utf8(line);
    let w = encode_utf8(lowercase(line));
    let ts = terms.map_values(|t: Seq<char>| encode_utf8(t));
    if !enabled || terms.len() == 0 || w.len() != l.len() {
        l
    } else {
        emit(l, cover_mask(w, ts), 0, 0)
    }
}

proof fn lemma_scan_from(w: Seq<u8>, t: Seq<u8>, pos: int, k: int)
    requires
        scan_covers(w, t, pos, k),
    ensures
        pos <= k,
    decreases w.len() - pos,
{
    if bytes_at(w, t, pos) {
        if !(pos <= k < pos + t.len()) {
            lemma_scan_from(w, t, pos + t.len(), k);
        }
    } else {
        lemma_scan_from(w, t, pos + 1, k);
    }
}

/// A slice of valid UTF-8 between two character boundaries is valid UTF-8.
proof fn lemma_valid_slice(l: Seq<u8>, a: int, b: int)
    requires
        valid_utf8(l),
        0 <= a <= b <= l.len(),
        is_char_boundary(l, a),
        is_char_boundary(l, b),
    ensures
        valid_utf8(l.subrange(a, b)),
{
    valid_utf8_split(l, a);
    let s = l.subrange(a, l.len() as int);
    if b < l.len() {
        is_char_boundary_iff_not_is_continuation_byte(l, b);
        is_char_boundary_iff_not_is_continuation_byte(s, b - a);
        assert(s[b - a] == l[b]);
    } else {
        is_char_boundary_start_end_of_seq(s);
    }
    valid_utf8_split(s, b - a);
    assert(s.subrange(0, b - a) =~= l.subrange(a, b));
}

/// Whether byte offset `i` of valid UTF-8 starts a character or is the end.
fn boundary_at(b: &[u8], i: usize) -> (r: bool)
    requires
        valid_utf8(b@),
        i <= b@.len(),
    ensures
        r == is_char_boundary(b@, i as int),
{
    proof {
        is_char_boundary_start_end_of_seq(b@);
        if i < b@.len() {
            is_char_boundary_iff_not_is_continuation_byte(b@, i as int);
        }
    }
    if i == b.len() {
        true
    } else {
        !(0x80 <= b[i] && b[i] <= 0xbf)
    }
}

fn bytes_match_at(w: &[u8], t: &[u8], i: usize) -> (r: bool)
    requires
        i + t@.len() <= w@.len(),
    ensures
        r == bytes_at(w@, t@, i as int),
{
    let mut j: usize = 0;
    while j < t.len()
        invariant
            i + t@.len() <= w@.len(),
            j <= t@.len(),
            w@.subrange(i as int, i + j) == t@.subrange(0, j as int),
        decreases t.len() - j,
    {
        let wl = w.len();
        assert(i + j < wl);
        if w[i + j] != t[j] {
            assert(w@.subrange(i as int, i + t@.len())[j as int] != t@[j as int]);
            return false;
        }
        assert(w@.subrange(i as int, i + j + 1) =~= w@.subrange(i as int, i + j).push(w@[i + j]));
        assert(t@.subrange(0, j + 1) =~= t@.subrange(0, j as int).push(t@[j as int]));
        j += 1;
    }
    assert(t@.subrange(0, t@.len() as int) =~= t@);
    true
}

/// Set `mask[k]` for every offset `k` covered by a match of `t` in `w`.
fn mark_term(mask: &mut Vec<bool>, w: &[u8], t: &[u8])
    requires
        old(mask)@.len() == w@.len(),
        t@.len() > 0,
    ensures
        final(mask)@.len() == w@.len(),
        forall|k: int|
            0 <= k < w@.len() ==> #[trigger] final(mask)@[k] == (old(mask)@[k] || scan_covers(
                w@,
                t@,
                0,
                k,
            )),
{
    let ghost init = mask@;
    let n = w.len();
    let m = t.len();
    let mut pos: usize = 0;
    while pos <= n && m <= n - pos
        invariant
            n == w@.len(),
            m == t@.len(),
            m > 0,
            pos <= n,
            mask@.len() == n,
            init.len() == n,
            forall|k: int|
                0 <= k < n ==> #[trigger] mask@[k] == (init[k] || (k < pos && scan_covers(
                    w@,
                    t@,
                    0,
                    k,
                ))),
            forall|k: int|
                pos <= k < n ==> #[trigger] scan_covers(w@, t@, 0, k) == scan_covers(
                    w@,
                    t@,
                    pos as int,
                    k,
                ),
        decreases n - pos,
    {
        if bytes_match_at(w, t, pos) {
            let mut k: usize = pos;
            while k < pos + m
                invariant
                    n == w@.len(),
                    m == t@.len(),
                    pos + m <= n,
                    pos <= k <= pos + m,
                    mask@.len() == n,
                    init.len() == n,
                    bytes_at(w@, t@, pos as int),
                    forall|q: int|
                        0 <= q < n ==> #[trigger] mask@[q] == (init[q] || (q < pos
                            && scan_covers(w@, t@, 0, q)) || (pos <= q < k)),
                    forall|q: int|
                        pos <= q < n ==> #[trigger] scan_covers(w@, t@, 0, q) == scan_covers(
                            w@,
                            t@,
                            pos as int,
                            q,
                        ),
                decreases pos + m - k,
            {
                mask.set(k, true);
                k += 1;
            }
            proof {
                assert forall|q: int| pos + m <= q < n implies #[trigger] scan_covers(
                    w@,
                    t@,
                    0,
                    q,
                ) == scan_covers(w@, t@, pos + m, q) by {
                    assert(scan_covers(w@, t@, 0, q) == scan_covers(w@, t@, pos as int, q));
                }
                assert forall|q: int| 0 <= q < n implies #[trigger] mask@[q] == (init[q] || (q
                    < pos + m && scan_covers(w@, t@, 0, q))) by {
                    if pos <= q < pos + m {
                        assert(scan_covers(w@, t@, 0, q) == scan_covers(w@, t@, pos as int, q));
                    }
                }
            }
            pos = pos + m;
        } else {
            proof {
                assert forall|q: int| pos + 1 <= q < n implies #[trigger] scan_covers(
                    w@,
                    t@,
                    0,
                    q,
                ) == scan_covers(w@, t@, pos + 1, q) by {
                    assert(scan_covers(w@, t@, 0, q) == scan_covers(w@, t@, pos as int, q));
                }
                assert forall|q: int| 0 <= q < n implies #[trigger] mask@[q] == (init[q] || (q
                    < pos + 1 && scan_covers(w@, t@, 0, q))) by {
                    if q == pos {
                        assert(scan_covers(w@, t@, 0, q) == scan_covers(w@, t@, pos as int, q));
                        if scan_covers(w@, t@, pos + 1, q) {
                            lemma_scan_from(w@, t@, pos + 1, q);
                        }
                    }
                }
            }
            pos = pos + 1;
        }
    }
    proof {
        assert forall|k: int| 0 <= k < n implies #[trigger] mask@[k] == (init[k]
            || scan_covers(w@, t@, 0, k)) by {
            if k >= pos {
                assert(scan_covers(w@, t@, 0, k) == scan_covers(w@, t@, pos as int, k));
            }
        }
    }
}

fn push_bytes(out: &mut Vec<u8>, b: &[u8], from: usize, to: usize)
    requires
        from <= to <= b@.len(),
    ensures
        final(out)@ == old(out)@ + b@.subrange(from as int, to as int),
{
    let mut i: usize = from;
    while i < to
        invariant
            from <= i <= to <= b@.len(),
            out@ == old(out)@ + b@.subrange(from as int, i as int),
        decreases to - i,
    {
        out.push(b[i]);
        assert(b@.subrange(from as int, i + 1) =~= b@.subrange(from as int, i as int).push(
            b@[i as int],
        ));
        i += 1;
    }
}

/// Whether `highlight_terms` looks for the terms at all: highlighting is
/// enabled, there are terms, and lower-casing the line kept its length in
/// bytes.
pub open spec fn highlights(line: Seq<char>, n_terms: nat, enabled: bool) -> bool {
    enabled && n_terms > 0 && encode_utf8(lowercase(line)).len() == encode_utf8(line).len()
}

/// Wrap every case-insensitive occurrence of any term in `line` with the match
/// colour, when `enabled`. Offsets are found in the lower-cased line and used
/// on the line only when lower-casing kept its length in bytes; a match whose
/// ends are not character boundaries stays unmarked rather than split a
/// character. Where it does highlight, no term may be empty (the terms are
/// the lower-case words of a search query).
pub fn highlight_terms(line: &str, terms: &[String], enabled: bool) -> (r: String)
    requires
        highlights(line@, terms@.len(), enabled) ==> forall|j: int|
            0 <= j < terms@.len() ==> (#[trigger] terms@[j])@.len() > 0,
    ensures
        encode_utf8(r@) == highlighted(line@, string_views(terms@), enabled),
{
    let ghost tv = string_views(terms@);
    let ghost ts = tv.map_values(|t: Seq<char>| encode_utf8(t));
    if !enabled || terms.len() == 0 {
        return line.to_owned();
    }
    let lower = str_to_lowercase(line);
    let lb = line.as_bytes();
    let wb = lower.as_str().as_bytes();
    if wb.len() != lb.len() {
        return line.to_owned();
    }
    let n = wb.len();
    let mut mask: Vec<bool> = Vec::new();
    while mask.len() < n
        invariant
            mask@.len() <= n,
            forall|k: int| 0 <= k < mask@.len() ==> !#[trigger] mask@[k],
        decreases n - mask@.len(),
    {
        mask.push(false);
    }
    let mut j: usize = 0;
    while j < terms.len()
        invariant
            n == wb@.len(),
            wb@ == encode_utf8(lowercase(line@)),
            tv == string_views(terms@),
            ts == tv.map_values(|t: Seq<char>| encode_utf8(t)),
            forall|q: int| 0 <= q < terms@.len() ==> (#[trigger] terms@[q])@.len() > 0,
            j <= terms@.len(),
            mask@.len() == n,
            forall|k: int|
                0 <= k < n ==> #[trigger] mask@[k] == covered_by(wb@, ts, j as int, k),
        decreases terms.len() - j,
    {
        let tb = terms[j].as_str().as_bytes();
        assert(tb@ == ts[j as int]);
        let ghost before = mask@;
        mark_term(&mut mask, wb, tb);
        proof {
            assert forall|k: int| 0 <= k < n implies #[trigger] mask@[k] == covered_by(
                wb@,
                ts,
                j + 1,
                k,
            ) by {
                if scan_covers(wb@, ts[j as int], 0, k) {
                    assert(covered_by(wb@, ts, j + 1, k));
                }
                if covered_by(wb@, ts, j + 1, k) {
                    let q = choose|q: int| 0 <= q < j + 1 && #[trigger] scan_covers(wb@, ts[q], 0, k);
                    if q < j {
                        assert(covered_by(wb@, ts, j as int, k));
                    }
                }
            }
        }
        j += 1;
    }
    let ghost m = cover_mask(wb@, ts);
    assert(mask@ =~= m);
    let ghost l = lb@;
    proof {
        encode_utf8_valid_utf8(line@);
        is_char_boundary_start_end_of_seq(l);
    }
    let mut out: Vec<u8> = Vec::new();
    let mut i: usize = 0;
    let mut cursor: usize = 0;
    while i < n
        invariant
            n == l.len(),
            l == lb@,
            mask@ == m,
            m.len() == n,
            valid_utf8(l),
            cursor <= i <= n,
            is_char_boundary(l, cursor as int),
            valid_utf8(out@),
            out@ + emit(l, m, i as int, cursor as int) == emit(l, m, 0, 0),
        decreases n - i,
    {
        if !mask[i] {
            i += 1;
        } else {
            let mut e: usize = i + 1;
            while e < n && mask[e]
                invariant
                    mask@ == m,
                    m.len() == n,
                    i < e <= n,
                    run_end(m, i as int) == run_end(m, e as int),
                decreases n - e,
            {
                e += 1;
            }
            proof {
                lemma_run_end(m, i as int);
            }
            if boundary_at(lb, i) && boundary_at(lb, e) {
                proof {
                    lemma_valid_slice(l, cursor as int, i as int);
                    lemma_valid_slice(l, i as int, e as int);
                    encode_utf8_valid_utf8(C_MATCH@);
                    encode_utf8_valid_utf8(C_RESET@);
                }
                let ghost o0 = out@;
                push_bytes(&mut out, lb, cursor, i);
                let ghost o1 = out@;
                let mb = C_MATCH.as_bytes();
                push_bytes(&mut out, mb, 0, mb.len());
                assert(mb@.subrange(0, mb@.len() as int) =~= mb@);
                let ghost o2 = out@;
                push_bytes(&mut out, lb, i, e);
                let ghost o3 = out@;
                let rb = C_RESET.as_bytes();
                push_bytes(&mut out, rb, 0, rb.len());
                assert(rb@.subrange(0, rb@.len() as int) =~= rb@);
                proof {
                    valid_utf8_concat(o0, l.subrange(cursor as int, i as int));
                    valid_utf8_concat(o1, mb@);
                    valid_utf8_concat(o2, l.subrange(i as int, e as int));
                    valid_utf8_concat(o3, rb@);
                    assert(out@ + emit(l, m, e as int, e as int) =~= o0 + emit(
                        l,
                        m,
                        i as int,
                        cursor as int,
                    ));
                }
                cursor = e;
            }
            i = e;
        }
    }
    proof {
        lemma_valid_slice(l, cursor as int, n as int);
        valid_utf8_concat(out@, l.subrange(cursor as int, n as int));
    }
    push_bytes(&mut out, lb, cursor, n);
    let r = utf8_lossy(out.as_slice());
    proof {
        decode_utf8_encode_utf8(out@);
    }
    r
}

/// `highlight_terms`, or `None` where highlighting would look for an empty
/// term.
pub fn highlight_terms_checked(line: &str, terms: &[String], enabled: bool) -> (r: Option<String>)
    ensures
        r is None <==> (highlights(line@, terms@.len(), enabled) && exists|j: int|
            0 <= j < terms@.len() && (#[trigger] terms@[j])@.len() == 0),
        r matches Some(s) ==> encode_utf8(s@) == highlighted(line@, string_views(terms@), enabled),
{
    if enabled && terms.len() > 0 {
        let lower = str_to_lowercase(line);
        if lower.as_str().as_bytes().len() == line.as_bytes().len() {
            assert(highlights(line@, terms@.len(), enabled));
            let mut j: usize = 0;
            while j < terms.len()
                invariant
                    j <= terms@.len(),
                    highlights(line@, terms@.len(), enabled),
                    forall|q: int| 0 <= q < j ==> (#[trigger] terms@[q])@.len() > 0,
                decreases terms.len() - j,
            {
                let t = chars_of(terms[j].as_str());
                if t.len() == 0 {
                    assert(terms@[j as int]@.len() == 0);
                    return None;
                }
                j += 1;
            }
        }
    }
    Some(highlight_terms(line, terms, enabled))
}

// ---------------------------------------------------------------------------
// What `piki view` shows
// ---------------------------------------------------------------------------

/// What a name given to `piki view` stands for.
#[derive(Debug, Clone, PartialEq, Eq)]
pub enum ViewSource {
    /// A page generated by the plugin of this name (the name was `!plugin`).
    Plugin(String),
    /// The note of this name.
    Note(String),
}

/// A name starting with `!` asks for a generated page; any other is a note.
pub fn view_source(name: &str) -> (r: ViewSource)
    ensures
        match r {
            ViewSource::Plugin(p) => name@.len() > 0 && name@[0] == '!' && p@ == name@.drop_first(),
            ViewSource::Note(n) => !(name@.len() > 0 && name@[0] == '!') && n@ == name@,
        },
{
    let v = chars_of(name);
    if v.len() > 0 && v[0] == '!' {
        let rest = slice(v.as_slice(), 1, v.len());
        assert(rest@ =~= name@.drop_first());
        ViewSource::Plugin(string_of(rest.as_slice()))
    } else {
        ViewSource::Note(name.to_owned())
    }
}

/// The note that `piki index` views.
pub const INDEX_PAGE: &'static str = "!index";

/// The note that `piki todo` views.
pub const TODO_PAGE: &'static str = "!todo";

/// How wide the text of a viewed note is on a terminal `width` columns wide,
/// and how far it is indented: narrow terminals use all but the scrollbar's
/// column, medium ones keep a margin of two, wide ones centre a 100-column
/// page with at least four columns of padding.
pub open spec fn layout_for_width(width: int) -> (int, int) {
    if width < 60 {
        (width - 1, 0)
    } else if width < 100 {
        (width - 2, 2)
    } else {
        let padding = (width - 100) / 2 + 4;
        (width - padding, padding)
    }
}

/// Wrap width and left padding for a terminal `width` columns wide.
pub fn configure_style_for_width(width: usize) -> (r: (usize, usize))
    requires
        width > 0,
    ensures
        r.0 == layout_for_width(width as int).0,
        r.1 == layout_for_width(width as int).1,
{
    if width < 60 {
        (width - 1, 0)
    } else if width < 100 {
        (width - 2, 2)
    } else {
        let padding = (width - 100) / 2 + 4;
        (width - padding, padding)
    }
}

// ---------------------------------------------------------------------------
// Reading and rendering a viewed note
// ---------------------------------------------------------------------------

/// Parse a note's Markdown text (or a generated page) for viewing: the
/// document, or the parser's error behind "Error parsing FTML: ".
pub fn parse_note(text: &str) -> (r: Result<TdocDocument, String>)
    ensures
        r is Ok <==> markdown_document(text@) is Some,
        r matches Ok(d) ==> markdown_document(text@) == Some(d),
        r matches Err(m) ==> m@ == "Error parsing FTML: "@ + markdown_error(text@),
{
    match parse_markdown(text) {
        Ok(d) => Ok(d),
        Err(e) => {
            let mut out = chars_of("Error parsing FTML: ");
            push_str(&mut out, e.as_str());
            Err(string_of(out.as_slice()))
        },
    }
}

/// What `tdoc`'s ANSI formatter writes for a document: the bytes, or the
/// text of the error it reports. `layout` is the wrap width and left padding
/// set on the style; `None` keeps those of `FormattingStyle::ansi()`.
pub uninterp spec fn ansi_output(doc: TdocDocument, layout: Option<(usize, usize)>) -> Result<Seq<u8>, Seq<char>>;

/// `Formatter::write_document` with `FormattingStyle::ansi()` (its wrap
/// width and left padding set to `layout` when given) into a byte buffer:
/// the bytes, or the text of the error, as `ansi_output` names them.
#[verifier::external_body]
fn write_ansi(doc: &TdocDocument, layout: Option<(usize, usize)>) -> (r: Result<Vec<u8>, String>)
    ensures
        match r {
            Ok(b) => ansi_output(*doc, layout) == Ok::<Seq<u8>, Seq<char>>(b@),
            Err(e) => ansi_output(*doc, layout) == Err::<Seq<u8>, Seq<char>>(e@),
        },
{
    let mut style = tdoc::formatter::FormattingStyle::ansi();
    if let Some((wrap_width, left_padding)) = layout {
        style.wrap_width = wrap_width;
        style.left_padding = left_padding;
    }
    let mut buffer: Vec<u8> = Vec::new();
    let written = tdoc::formatter::Formatter::new(&mut buffer, style).write_document(doc);
    written.map(|()| buffer).map_err(|e| e.to_string())
}

/// The text of a rendering: the formatter's output decoded as UTF-8, or the
/// error ("Unable to write document: ..." when the formatter fails, "UTF-8
/// error: ..." when its output does not decode).
pub open spec fn rendered(out: Result<Seq<u8>, Seq<char>>) -> Result<Seq<char>, Seq<char>> {
    match out {
        Ok(b) => if valid_utf8(b) {
            Ok(decode_utf8(b))
        } else {
            Err("UTF-8 error: "@ + utf8_error(b))
        },
        Err(e) => Err("Unable to write document: "@ + e),
    }
}

/// A result of texts as values.
pub open spec fn text_result(r: Result<String, String>) -> Result<Seq<char>, Seq<char>> {
    match r {
        Ok(s) => Ok(s@),
        Err(e) => Err(e@),
    }
}

fn render_with_layout(doc: &TdocDocument, layout: Option<(usize, usize)>) -> (r: Result<String, String>)
    ensures
        text_result(r) == rendered(ansi_output(*doc, layout)),
{
    match write_ansi(doc, layout) {
        Ok(bytes) => match utf8_text(bytes) {
            Ok(s) => Ok(s),
            Err(e) => {
                let mut out = chars_of("UTF-8 error: ");
                push_str(&mut out, e.as_str());
                Err(string_of(out.as_slice()))
            },
        },
        Err(e) => {
            let mut out = chars_of("Unable to write document: ");
            push_str(&mut out, e.as_str());
            Err(string_of(out.as_slice()))
        },
    }
}

/// Render a document with ANSI styling for a terminal `width` columns wide
/// (wrap width and padding as `configure_style_for_width` gives them).
pub fn render_for_width(doc: &TdocDocument, width: usize) -> (r: Result<String, String>)
    requires
        width > 0,
    ensures
        text_result(r) == rendered(
            ansi_output(
                *doc,
                Some(
                    (layout_for_width(width as int).0 as usize, layout_for_width(width as int).1 as usize),
                ),
            ),
        ),
{
    let layout = configure_style_for_width(width);
    render_with_layout(doc, Some(layout))
}

/// Render a document with ANSI styling for the terminal: laid out for its
/// width when known (`width`), else with the formatter's own layout.
pub fn render_for_terminal(doc: &TdocDocument, width: Option<usize>) -> (r: Result<String, String>)
    requires
        width != Some(0usize),
    ensures
        text_result(r) == rendered(
            ansi_output(
                *doc,
                match width {
                    Some(w) => Some(
                        (layout_for_width(w as int).0 as usize, layout_for_width(w as int).1 as usize),
                    ),
                    None => None,
                },
            ),
        ),
{
    match width {
        Some(w) => render_for_width(doc, w),
        None => render_with_layout(doc, None),
    }
}

// ---------------------------------------------------------------------------
// Following links in a viewed note
// ---------------------------------------------------------------------------

/// What `url::Url::parse` decides: whether the text parses as an absolute URL.
pub uninterp spec fn parses_as_url(s: Seq<char>) -> bool;

/// `url::Url::parse(s).is_ok()`: whether the text is an absolute URL by the
/// WHATWG URL rules that the `url` crate implements, named by `parses_as_url`.
#[verifier::external_body]
fn url_parses(s: &str) -> (r: bool)
    ensures
        r == parses_as_url(s@),
{
    url::Url::parse(s).is_ok()
}

/// A link target that leaves the notes: a scheme-relative `//host` reference
/// or anything that parses as an absolute URL.
pub open spec fn absolute_url(s: Seq<char>) -> bool {
    (s.len() >= 2 && s[0] == '/' && s[1] == '/') || parses_as_url(s)
}

/// Whether a link target is an absolute URL.
pub fn is_absolute_url(value: &str) -> (r: bool)
    ensures
        r == absolute_url(value@),
{
    let v = chars_of(value);
    if v.len() >= 2 && v[0] == '/' && v[1] == '/' {
        return true;
    }
    url_parses(value)
}

/// The part of a link target before its first `#`.
pub open spec fn before_hash(s: Seq<char>) -> Seq<char> {
    match first_index_of(s, '#') {
        Some(i) => s.subrange(0, i),
        None => s,
    }
}

/// A path with its leading `/`s removed.
pub open spec fn strip_root(s: Seq<char>) -> Seq<char>
    decreases s.len(),
{
    if s.len() > 0 && s[0] == '/' {
        strip_root(s.drop_first())
    } else {
        s
    }
}

/// The directory relative links of the current page start from: the
/// directory of the note file being viewed, or the notes directory for a
/// generated page (or a file path without a parent).
pub open spec fn link_base(canonical_notes_dir: Seq<char>, current_file: Option<Seq<char>>) -> Seq<
    char,
> {
    match current_file {
        Some(f) => if f.len() == 0 || f == seq!['/'] {
            canonical_notes_dir
        } else {
            path_parent(f)
        },
        None => canonical_notes_dir,
    }
}

/// Where a link in a viewed page may lead, before the file system is asked:
/// `None` for an empty target, a same-page `#anchor` or an absolute URL (those
/// are not followed here); otherwise the plugin the target names when it is
/// `!name` (used when such a plugin exists), and the files to try in order —
/// the path with `.md` appended unless it has that extension, then the path
/// itself. An absolute path is taken from the notes directory, a relative one
/// from the current page's directory.
pub open spec fn link_plan(
    notes_dir: Seq<char>,
    canonical_notes_dir: Seq<char>,
    current_file: Option<Seq<char>>,
    target: Seq<char>,
) -> Option<(Option<Seq<char>>, Seq<Seq<char>>)> {
    let t = trim(target);
    if t.len() == 0 || t[0] == '#' || absolute_url(t) {
        None
    } else {
        let p = trim(before_hash(t));
        if p.len() == 0 {
            None
        } else {
            let plugin = if p[0] == '!' {
                Some(p.drop_first())
            } else {
                None
            };
            let resolved = if p[0] == '/' {
                path_join(notes_dir, strip_root(p))
            } else {
                path_join(link_base(canonical_notes_dir, current_file), p)
            };
            let files = if has_md_ext(p) {
                seq![resolved]
            } else {
                seq![resolved + seq!['.', 'm', 'd'], resolved]
            };
            Some((plugin, files))
        }
    }
}

/// The places a link may lead to, to be checked in order.
pub struct LinkCandidates {
    /// The plugin a `!name` target names.
    pub plugin: Option<String>,
    /// The files to try, in order.
    pub files: Vec<String>,
}

/// The plan a `LinkCandidates` holds.
pub open spec fn candidates_view(c: LinkCandidates) -> (Option<Seq<char>>, Seq<Seq<char>>) {
    (
        match c.plugin {
            Some(p) => Some(p@),
            None => None,
        },
        string_views(c.files@),
    )
}

fn strip_root_chars(s: &[char]) -> (r: Vec<char>)
    ensures
        r@ == strip_root(s@),
{
    let mut i: usize = 0;
    assert(s@.subrange(0, s@.len() as int) =~= s@);
    while i < s.len() && s[i] == '/'
        invariant
            i <= s@.len(),
            strip_root(s@) == strip_root(s@.subrange(i as int, s@.len() as int)),
        decreases s.len() - i,
    {
        assert(s@.subrange(i + 1, s@.len() as int) =~= s@.subrange(
            i as int,
            s@.len() as int,
        ).drop_first());
        i += 1;
    }
    let r = slice(s, i, s.len());
    r
}

/// Where a link in a viewed page may lead (see `link_plan`); the caller
/// follows the plugin when it exists, else the first candidate file that
/// exists inside the notes directory.
pub fn link_candidates(
    notes_dir: &str,
    canonical_notes_dir: &str,
    current_file: Option<&str>,
    target: &str,
) -> (r: Option<LinkCandidates>)
    ensures
        match r {
            Some(c) => link_plan(
                notes_dir@,
                canonical_notes_dir@,
                match current_file {
                    Some(f) => Some(f@),
                    None => None,
                },
                target@,
            ) == Some(candidates_view(c)),
            None => link_plan(
                notes_dir@,
                canonical_notes_dir@,
                match current_file {
                    Some(f) => Some(f@),
                    None => None,
                },
                target@,
            ) is None,
        },
{
    let tv = chars_of(target);
    let t = trimmed(tv.as_slice());
    if t.len() == 0 || t[0] == '#' {
        return None;
    }
    let ts = string_of(t.as_slice());
    if is_absolute_url(ts.as_str()) {
        return None;
    }
    let head = match find_char(t.as_slice(), '#') {
        Some(i) => slice(t.as_slice(), 0, i),
        None => slice(t.as_slice(), 0, t.len()),
    };
    assert(head@ =~= before_hash(t@));
    let p = trimmed(head.as_slice());
    if p.len() == 0 {
        return None;
    }
    let plugin = if p[0] == '!' {
        let rest = slice(p.as_slice(), 1, p.len());
        assert(rest@ =~= p@.drop_first());
        Some(string_of(rest.as_slice()))
    } else {
        None
    };
    let resolved = if p[0] == '/' {
        let nd = chars_of(notes_dir);
        let stripped = strip_root_chars(p.as_slice());
        join_path(nd.as_slice(), stripped.as_slice())
    } else {
        let base = match current_file {
            Some(f) => {
                let fv = chars_of(f);
                if fv.len() == 0 || (fv.len() == 1 && fv[0] == '/') {
                    proof {
                        if fv@.len() == 1 {
                            assert(fv@ =~= seq!['/']);
                        }
                    }
                    chars_of(canonical_notes_dir)
                } else {
                    proof {
                        if fv@ == seq!['/'] {
                            assert(fv@.len() == 1);
                        }
                    }
                    parent_path(fv.as_slice())
                }
            },
            None => chars_of(canonical_notes_dir),
        };
        join_path(base.as_slice(), p.as_slice())
    };
    let ghost cur = match current_file {
        Some(f) => Some(f@),
        None => None,
    };
    assert(resolved@ == (if p@[0] == '/' {
        path_join(notes_dir@, strip_root(p@))
    } else {
        path_join(link_base(canonical_notes_dir@, cur), p@)
    }));
    let mut files: Vec<String> = Vec::new();
    if !has_md_chars(p.as_slice()) {
        let mut with_md = slice(resolved.as_slice(), 0, resolved.len());
        assert(with_md@ =~= resolved@);
        push_str(&mut with_md, ".md");
        proof {
            reveal_strlit(".md");
        }
        assert(with_md@ =~= resolved@ + seq!['.', 'm', 'd']);
        let w = string_of(with_md.as_slice());
        files.push(w);
        assert(string_views(files@) =~= seq![resolved@ + seq!['.', 'm', 'd']]);
    } else {
        assert(string_views(files@) =~= Seq::<Seq<char>>::empty());
    }
    let ghost before = string_views(files@);
    let last = string_of(resolved.as_slice());
    files.push(last);
    assert(string_views(files@) =~= before.push(resolved@));
    assert(string_views(files@) =~= (if has_md_ext(p@) {
        seq![resolved@]
    } else {
        seq![resolved@ + seq!['.', 'm', 'd'], resolved@]
    }));
    assert(p@ == trim(before_hash(trim(target@))));
    let r = LinkCandidates { plugin, files };
    proof {
        assert(resolved@.subrange(0, resolved@.len() as int) =~= resolved@);
        assert(string_views(r.files@) =~= link_plan(
            notes_dir@,
            canonical_notes_dir@,
            match current_file {
                Some(f) => Some(f@),
                None => None,
            },
            target@,
        ).unwrap().1);
    }
    Some(r)
}

// ---------------------------------------------------------------------------
// Command-line arguments
// ---------------------------------------------------------------------------

/// The first argument asks for help: `help`, `--help` or `-h`.
pub open spec fn asks_for_help(args: Seq<Seq<char>>) -> bool {
    args.len() > 1 && (args[1] == "help"@ || args[1] == "--help"@ || args[1] == "-h"@)
}

/// Whether the command line (program name first) asks for help.
pub fn wants_help(args: &[String]) -> (r: bool)
    ensures
        r == asks_for_help(string_views(args@)),
{
    proof {
        reveal_strlit("help");
        reveal_strlit("--help");
        reveal_strlit("-h");
    }
    if args.len() <= 1 {
        return false;
    }
    let a = chars_of(args[1].as_str());
    let h1 = chars_of("help");
    let h2 = chars_of("--help");
    let h3 = chars_of("-h");
    crate::text::same_chars(a.as_slice(), h1.as_slice()) || crate::text::same_chars(
        a.as_slice(),
        h2.as_slice(),
    ) || crate::text::same_chars(a.as_slice(), h3.as_slice())
}

/// Scanning the arguments from `i` (the one before was `-d`/`--directory`
/// when `skip`): the index of the first that is neither an option nor the
/// value of the directory option.
pub open spec fn positional_from(args: Seq<Seq<char>>, i: int, skip: bool) -> Option<int>
    decreases args.len() - i,
{
    if i < 0 || i >= args.len() {
        None
    } else if skip {
        positional_from(args, i + 1, false)
    } else if args[i] == "-d"@ || args[i] == "--directory"@ {
        positional_from(args, i + 1, true)
    } else if args[i].len() > 0 && args[i][0] == '-' {
        positional_from(args, i + 1, false)
    } else {
        Some(i)
    }
}

/// The index of the first positional argument after the program name, which
/// may name an alias; `-d DIR`/`--directory DIR` and other options are skipped.
pub fn first_positional(args: &[String]) -> (r: Option<usize>)
    ensures
        match r {
            Some(i) => positional_from(string_views(args@), 1, false) == Some(i as int),
            None => positional_from(string_views(args@), 1, false) is None,
        },
{
    proof {
        reveal_strlit("-d");
        reveal_strlit("--directory");
    }
    let ghost a = string_views(args@);
    let d1 = chars_of("-d");
    let d2 = chars_of("--directory");
    let mut i: usize = 1;
    let mut skip = false;
    while i < args.len()
        invariant
            a == string_views(args@),
            d1@ == "-d"@,
            d2@ == "--directory"@,
            1 <= i,
            positional_from(a, 1, false) == positional_from(a, i as int, skip),
        decreases args.len() - i,
    {
        if skip {
            skip = false;
            i += 1;
        } else {
            let v = chars_of(args[i].as_str());
            assert(v@ == a[i as int]);
            if crate::text::same_chars(v.as_slice(), d1.as_slice()) || crate::text::same_chars(
                v.as_slice(),
                d2.as_slice(),
            ) {
                skip = true;
                i += 1;
            } else if v.len() > 0 && v[0] == '-' {
                i += 1;
            } else {
                return Some(i);
            }
        }
    }
    None
}

} // verus!
