//! Live note sharing: the rules behind the localhost web view of the open
//! note.
//!
//! The server itself (threads, sockets, files) lives in the application; what
//! it decides is here: which note names may be read from disk, how links are
//! rewritten for the browser, how headings get their anchors and highlighted
//! elements their classes, how a request's query is read, and the version
//! token the page polls to reload.
use vstd::prelude::*;
use vstd::utf8::*;
use crate::gui::link_handler::{external, is_external_link};
use crate::gui::percent::{
    ascii_text, encode_fragment, encode_path, escaped, percent_decode, percent_decoded,
    read_utf8,
};
use crate::gui::section_link::{normalize_link_target, normalized_target, split_at_hash, split_target};
use crate::text::{
    chars_of, decimal, decimal_u128, find_char, find_from, first_index_of, first_occurrence,
    is_control, is_ctrl, lemma_first_occurrence_skip, lemma_no_occurrence_skip, opt_view,
    push_all, push_str, replace_all, replace_char, same_chars, slice, split_char, split_on,
    string_of, string_views, trim, trimmed, views,
};

verus! {

/// One element the web view spotlights, mirroring the presenter's selection:
/// the top-level block, and within a list the document-order index of the
/// `<li>` (`None` highlights the whole block).
#[derive(Clone, Copy, PartialEq, Eq, Structural, Hash, Debug, Default)]
pub struct HighlightTarget {
    pub block: usize,
    pub li: Option<usize>,
}

// ---------------------------------------------------------------------------
// Note names
// ---------------------------------------------------------------------------

/// A path component that would leave or stay put: empty, `.` or `..`.
pub open spec fn is_dot_component(c: Seq<char>) -> bool {
    c.len() == 0 || c == seq!['.'] || c == seq!['.', '.']
}

/// A safe relative note path: not empty, not absolute, no backslash, no
/// control character, and no empty, `.` or `..` component.
pub open spec fn valid_note_name(s: Seq<char>) -> bool {
    &&& s.len() > 0
    &&& s[0] != '/'
    &&& forall|i: int| 0 <= i < s.len() ==> #[trigger] s[i] != '\\' && !is_ctrl(s[i])
    &&& forall|k: int|
        0 <= k < split_on(s, '/').len() ==> !is_dot_component(#[trigger] split_on(s, '/')[k])
}

/// Whether `name` is a safe relative note path, which gates loading a note
/// from disk so that a crafted URL cannot leave the notes directory.
pub fn is_valid_note_name(name: &str) -> (r: bool)
    ensures
        r == valid_note_name(name@),
{
    let cs = chars_of(name);
    if cs.len() == 0 || cs[0] == '/' {
        return false;
    }
    let mut i: usize = 0;
    while i < cs.len()
        invariant
            cs@ == name@,
            i <= cs@.len(),
            forall|j: int| 0 <= j < i ==> #[trigger] cs@[j] != '\\' && !is_ctrl(cs@[j]),
        decreases cs.len() - i,
    {
        if cs[i] == '\\' || is_control(cs[i]) {
            assert(!(cs@[i as int] != '\\' && !is_ctrl(cs@[i as int])));
            return false;
        }
        i += 1;
    }
    let parts = split_char(cs.as_slice(), '/');
    let mut k: usize = 0;
    while k < parts.len()
        invariant
            cs@ == name@,
            views(parts@) == split_on(cs@, '/'),
            k <= parts@.len(),
            forall|m: int| 0 <= m < k ==> !is_dot_component(#[trigger] split_on(cs@, '/')[m]),
        decreases parts.len() - k,
    {
        let p = &parts[k];
        assert(split_on(cs@, '/')[k as int] == p@);
        let n = p.len();
        if n == 0 || (n == 1 && p[0] == '.') || (n == 2 && p[0] == '.' && p[1] == '.') {
            proof {
                if n == 1 {
                    assert(p@ =~= seq!['.']);
                }
                if n == 2 {
                    assert(p@ =~= seq!['.', '.']);
                }
                assert(is_dot_component(split_on(cs@, '/')[k as int]));
            }
            return false;
        }
        proof {
            if p@ == seq!['.'] {
                assert(p@[0] == '.');
            }
            if p@ == seq!['.', '.'] {
                assert(p@[0] == '.' && p@[1] == '.');
            }
        }
        k += 1;
    }
    true
}

// ---------------------------------------------------------------------------
// Link rewriting
// ---------------------------------------------------------------------------

/// Where a stored link destination points in the web view: `None` (left as
/// it is) for an empty destination, a bare `#anchor` or an external link;
/// otherwise the server-absolute `/<note>[#section]`, percent-encoded.
pub open spec fn rewritten_target(target: Seq<char>) -> Option<Seq<char>> {
    let t = trim(target);
    if t.len() == 0 || t[0] == '#' {
        None
    } else {
        let n = normalized_target(t);
        if external(n) {
            None
        } else {
            let parts = split_at_hash(n);
            if parts.0.len() == 0 {
                None
            } else {
                let path = seq!['/'] + ascii_text(escaped(encode_utf8(parts.0), true));
                Some(
                    match parts.1 {
                        Some(f) => if f.len() > 0 {
                            path + seq!['#'] + ascii_text(escaped(encode_utf8(f), false))
                        } else {
                            path
                        },
                        None => path,
                    },
                )
            }
        }
    }
}

/// Map a stored link destination to what it should point at in the web view;
/// `None` leaves it unchanged.
pub fn rewrite_link_target(target: &str) -> (r: Option<String>)
    ensures
        opt_view(r) == rewritten_target(target@),
{
    let cs = chars_of(target);
    let t = trimmed(cs.as_slice());
    if t.len() == 0 || t[0] == '#' {
        return None;
    }
    let ts = string_of(t.as_slice());
    let normalized = normalize_link_target(ts.as_str());
    if is_external_link(normalized.as_str()) {
        return None;
    }
    let (note, fragment) = split_target(normalized.as_str());
    if note.is_empty() {
        return None;
    }
    let mut out: Vec<char> = Vec::new();
    out.push('/');
    let path = encode_path(note);
    push_all(&mut out, path.as_slice());
    if let Some(f) = fragment {
        if !f.is_empty() {
            out.push('#');
            let enc = encode_fragment(f);
            push_all(&mut out, enc.as_slice());
        }
    }
    Some(string_of(out.as_slice()))
}

// ---------------------------------------------------------------------------
// HTML text
// ---------------------------------------------------------------------------

/// `&`, `<` and `>` escaped for HTML text.
pub open spec fn text_escaped(s: Seq<char>) -> Seq<char> {
    replace_char(replace_char(replace_char(s, '&', "&amp;"@), '<', "&lt;"@), '>', "&gt;"@)
}

/// Text escaped for an HTML attribute value: as for text, and `"` too.
pub open spec fn attr_escaped(s: Seq<char>) -> Seq<char> {
    replace_char(text_escaped(s), '"', "&quot;"@)
}

pub fn html_escape_text(s: &str) -> (r: String)
    ensures
        r@ == text_escaped(s@),
{
    let cs = chars_of(s);
    let amp = chars_of("&amp;");
    let lt = chars_of("&lt;");
    let gt = chars_of("&gt;");
    let a = replace_all(cs.as_slice(), '&', amp.as_slice());
    let b = replace_all(a.as_slice(), '<', lt.as_slice());
    let c = replace_all(b.as_slice(), '>', gt.as_slice());
    string_of(c.as_slice())
}

pub fn html_escape_attr(s: &str) -> (r: String)
    ensures
        r@ == attr_escaped(s@),
{
    let t = html_escape_text(s);
    let cs = chars_of(t.as_str());
    let quot = chars_of("&quot;");
    let r = replace_all(cs.as_slice(), '"', quot.as_slice());
    string_of(r.as_slice())
}

/// The lower-case hex digit for `n < 16`.
pub open spec fn lower_hex(n: u32) -> char {
    if n < 10 {
        ((48 + n) as u32) as char
    } else {
        ((87 + n) as u32) as char
    }
}

/// How one character is written inside a JSON string literal.
pub open spec fn json_char(c: char) -> Seq<char> {
    if c == '"' {
        seq!['\\', '"']
    } else if c == '\\' {
        seq!['\\', '\\']
    } else if c == '\n' {
        seq!['\\', 'n']
    } else if c == '\r' {
        seq!['\\', 'r']
    } else if c == '\t' {
        seq!['\\', 't']
    } else if (c as u32) < 0x20 {
        seq!['\\', 'u', '0', '0', lower_hex((c as u32) / 16), lower_hex((c as u32) % 16)]
    } else {
        seq![c]
    }
}

/// The escaped characters of a JSON string literal.
pub open spec fn json_body(s: Seq<char>) -> Seq<char>
    decreases s.len(),
{
    if s.len() == 0 {
        seq![]
    } else {
        json_body(s.drop_last()) + json_char(s.last())
    }
}

fn lower_hex_char(n: u32) -> (c: char)
    requires
        n < 16,
    ensures
        c == lower_hex(n),
{
    if n < 10 {
        crate::text::char_from_ascii(48 + n)
    } else {
        crate::text::char_from_ascii(87 + n)
    }
}

/// `s` as a quoted JSON string literal.
pub fn json_string(s: &str) -> (r: String)
    ensures
        r@ == seq!['"'] + json_body(s@) + seq!['"'],
{
    let cs = chars_of(s);
    let mut body: Vec<char> = Vec::new();
    let mut i: usize = 0;
    while i < cs.len()
        invariant
            i <= cs@.len(),
            body@ == json_body(cs@.take(i as int)),
        decreases cs.len() - i,
    {
        let c = cs[i];
        let ghost before = body@;
        assert(cs@.take(i + 1).drop_last() =~= cs@.take(i as int));
        assert(cs@.take(i + 1).last() == c);
        if c == '"' {
            body.push('\\');
            body.push('"');
        } else if c == '\\' {
            body.push('\\');
            body.push('\\');
        } else if c == '\n' {
            body.push('\\');
            body.push('n');
        } else if c == '\r' {
            body.push('\\');
            body.push('r');
        } else if c == '\t' {
            body.push('\\');
            body.push('t');
        } else if (c as u32) < 0x20 {
            body.push('\\');
            body.push('u');
            body.push('0');
            body.push('0');
            body.push(lower_hex_char((c as u32) / 16));
            body.push(lower_hex_char((c as u32) % 16));
        } else {
            body.push(c);
        }
        assert(body@ =~= before + json_char(c));
        i += 1;
    }
    assert(cs@.take(cs@.len() as int) =~= cs@);
    let mut out: Vec<char> = Vec::new();
    out.push('"');
    push_all(&mut out, body.as_slice());
    out.push('"');
    assert(out@ =~= seq!['"'] + json_body(s@) + seq!['"']);
    string_of(out.as_slice())
}

// ---------------------------------------------------------------------------
// Highlight classes
// ---------------------------------------------------------------------------

/// The class attribute of a highlighted element: the tint always, and the
/// pointing arrow for the single document-order-first one.
pub open spec fn active_class_text(is_lead: bool) -> Seq<char> {
    if is_lead {
        "class=\"piki-active piki-lead\""@
    } else {
        "class=\"piki-active\""@
    }
}

pub fn active_class(is_lead: bool) -> (r: &'static str)
    ensures
        r@ == active_class_text(is_lead),
{
    if is_lead {
        "class=\"piki-active piki-lead\""
    } else {
        "class=\"piki-active\""
    }
}

/// A block's HTML with the active class spliced in before the first `>`
/// (the end of its root tag); unchanged when there is none.
pub open spec fn marked_root(html: Seq<char>, is_lead: bool) -> Seq<char> {
    match first_index_of(html, '>') {
        Some(p) => html.take(p) + seq![' '] + active_class_text(is_lead) + html.skip(p),
        None => html,
    }
}

/// Add the active class to the root element of a single block's HTML.
pub fn mark_block_root(html: &str, is_lead: bool) -> (r: String)
    ensures
        r@ == marked_root(html@, is_lead),
{
    let cs = chars_of(html);
    match find_char(cs.as_slice(), '>') {
        Some(pos) => {
            let mut out = slice(cs.as_slice(), 0, pos);
            out.push(' ');
            push_str(&mut out, active_class(is_lead));
            let tail = slice(cs.as_slice(), pos, cs.len());
            push_all(&mut out, tail.as_slice());
            string_of(out.as_slice())
        },
        None => string_of(cs.as_slice()),
    }
}

pub open spec fn li_open() -> Seq<char> {
    seq!['<', 'l', 'i', '>']
}

/// Whether `c` is one of the selected list-item indices.
pub open spec fn has_index(indices: Seq<usize>, c: int) -> bool {
    exists|k: int| 0 <= k < indices.len() && indices[k] as int == c
}

/// How the `count`-th `<li>` is written.
pub open spec fn li_tag(indices: Seq<usize>, lead: Option<usize>, count: int) -> Seq<char> {
    if has_index(indices, count) {
        seq!['<', 'l', 'i', ' '] + active_class_text(
            lead matches Some(l) && l as int == count,
        ) + seq!['>']
    } else {
        li_open()
    }
}

/// `s` with each `<li>`, counted from `count` in document order, marked when
/// its index is selected.
pub open spec fn marked_lis(s: Seq<char>, indices: Seq<usize>, lead: Option<usize>, count: int) -> Seq<
    char,
>
    decreases s.len(),
{
    match first_occurrence(s, li_open()) {
        Some(p) => if 0 <= p && p + 4 <= s.len() {
            s.take(p) + li_tag(indices, lead, count) + marked_lis(
                s.skip(p + 4),
                indices,
                lead,
                count + 1,
            )
        } else {
            s
        },
        None => s,
    }
}

proof fn lemma_marked_lis_step(
    cs: Seq<char>,
    from: int,
    pos: int,
    indices: Seq<usize>,
    lead: Option<usize>,
    count: int,
)
    requires
        0 <= from <= pos,
        pos + 4 <= cs.len(),
        first_occurrence(cs.skip(from), li_open()) == Some(pos - from),
    ensures
        marked_lis(cs.skip(from), indices, lead, count) == cs.subrange(from, pos) + li_tag(
            indices,
            lead,
            count,
        ) + marked_lis(cs.skip(pos + 4), indices, lead, count + 1),
{
    let t = cs.skip(from);
    assert(t.take(pos - from) =~= cs.subrange(from, pos));
    assert(t.skip(pos - from + 4) =~= cs.skip(pos + 4));
}

proof fn lemma_marked_lis_none(
    cs: Seq<char>,
    from: int,
    indices: Seq<usize>,
    lead: Option<usize>,
    count: int,
)
    requires
        0 <= from <= cs.len(),
        first_occurrence(cs.skip(from), li_open()) is None,
    ensures
        marked_lis(cs.skip(from), indices, lead, count) == cs.subrange(from, cs.len() as int),
{
    assert(cs.skip(from) =~= cs.subrange(from, cs.len() as int));
}

fn index_selected(indices: &[usize], c: usize) -> (r: bool)
    ensures
        r == has_index(indices@, c as int),
{
    let mut k: usize = 0;
    while k < indices.len()
        invariant
            k <= indices@.len(),
            forall|m: int| 0 <= m < k ==> indices@[m] != c,
        decreases indices.len() - k,
    {
        if indices[k] == c {
            return true;
        }
        k += 1;
    }
    false
}

/// Add the active class to each `<li>` whose 0-based document-order index is
/// in `indices` (the one equal to `lead` also gets the arrow), in one list
/// block's HTML. Indices beyond the items are ignored.
pub fn mark_lis(html: &str, indices: &[usize], lead: Option<usize>) -> (r: String)
    ensures
        r@ == (if indices@.len() == 0 {
            html@
        } else {
            marked_lis(html@, indices@, lead, 0)
        }),
{
    let cs = chars_of(html);
    if indices.len() == 0 {
        return string_of(cs.as_slice());
    }
    let li = chars_of("<li>");
    proof {
        reveal_strlit("<li>");
        assert(li@ =~= li_open());
    }
    let n = cs.len();
    let mut out: Vec<char> = Vec::new();
    let mut count: usize = 0;
    let mut from: usize = 0;
    let mut done = false;
    assert(cs@.skip(0) =~= cs@);
    while !done
        invariant
            n == cs@.len(),
            li@ == li_open(),
            from <= n,
            count <= from,
            done ==> from == n,
            out@ + marked_lis(cs@.skip(from as int), indices@, lead, count as int) == marked_lis(
                cs@,
                indices@,
                lead,
                0,
            ),
        decreases n - from, (if done {
            0int
        } else {
            1int
        }),
    {
        match find_from(cs.as_slice(), li.as_slice(), from) {
            Some(pos) => {
                proof {
                    lemma_first_occurrence_skip(cs@, li_open(), from as int, pos as int);
                    lemma_marked_lis_step(cs@, from as int, pos as int, indices@, lead, count as int);
                }
                let part = slice(cs.as_slice(), from, pos);
                push_all(&mut out, part.as_slice());
                let ghost before = out@;
                if index_selected(indices, count) {
                    out.push('<');
                    out.push('l');
                    out.push('i');
                    out.push(' ');
                    let is_lead = match lead {
                        Some(l) => l == count,
                        None => false,
                    };
                    push_str(&mut out, active_class(is_lead));
                    out.push('>');
                } else {
                    push_all(&mut out, li.as_slice());
                }
                assert(out@ =~= before + li_tag(indices@, lead, count as int));
                count += 1;
                from = pos + 4;
            },
            None => {
                proof {
                    lemma_no_occurrence_skip(cs@, li_open(), from as int);
                    lemma_marked_lis_none(cs@, from as int, indices@, lead, count as int);
                }
                let tail = slice(cs.as_slice(), from, n);
                push_all(&mut out, tail.as_slice());
                from = n;
                done = true;
            },
        }
    }
    assert(cs@.skip(n as int) =~= Seq::<char>::empty());
    string_of(out.as_slice())
}

// ---------------------------------------------------------------------------
// Heading ids
// ---------------------------------------------------------------------------

/// A heading's opening tag (`<h1`, `<h2` or `<h3`) starts at `i`.
pub open spec fn heading_open_at(s: Seq<char>, i: int) -> bool {
    0 <= i && i + 3 <= s.len() && s[i] == '<' && s[i + 1] == 'h' && ('1' <= s[i + 2] <= '3')
}

/// The first heading opening tag in `s`.
#[verifier::opaque]
pub open spec fn first_heading_open(s: Seq<char>) -> Option<int> {
    if exists|i: int| heading_open_at(s, i) {
        Some(
            choose|i: int|
                heading_open_at(s, i) && forall|j: int| 0 <= j < i ==> !heading_open_at(s, j),
        )
    } else {
        None
    }
}

/// ` id="<anchor>"`.
pub open spec fn id_attr(anchor: Seq<char>) -> Seq<char> {
    " id=\""@ + attr_escaped(anchor) + seq!['"']
}

/// `s` with the i-th heading opening tag given the i-th anchor as its `id`.
pub open spec fn with_ids(s: Seq<char>, anchors: Seq<Seq<char>>) -> Seq<char>
    decreases anchors.len(),
{
    if anchors.len() == 0 {
        s
    } else {
        match first_heading_open(s) {
            Some(p) => if 0 <= p && p + 3 <= s.len() {
                s.take(p + 3) + id_attr(anchors[0]) + with_ids(s.skip(p + 3), anchors.drop_first())
            } else {
                s
            },
            None => s,
        }
    }
}

proof fn lemma_first_heading_open_at(t: Seq<char>, q: int)
    requires
        heading_open_at(t, q),
        forall|j: int| 0 <= j < q ==> !heading_open_at(t, j),
    ensures
        first_heading_open(t) == Some(q),
{
    reveal(first_heading_open);
    let c = choose|k: int| heading_open_at(t, k) && forall|j: int| 0 <= j < k ==> !heading_open_at(t, j);
    assert(heading_open_at(t, c) && forall|j: int| 0 <= j < c ==> !heading_open_at(t, j));
    if c < q {
        assert(!heading_open_at(t, c));
    } else if c > q {
        assert(!heading_open_at(t, q));
    }
}

proof fn lemma_no_heading_open(t: Seq<char>)
    requires
        forall|j: int| 0 <= j < t.len() ==> !heading_open_at(t, j),
    ensures
        first_heading_open(t) is None,
{
    reveal(first_heading_open);
    assert forall|j: int| !heading_open_at(t, j) by {
        if 0 <= j < t.len() {
            assert(!heading_open_at(t, j));
        }
    }
}

fn find_heading_open(s: &[char], from: usize) -> (r: Option<usize>)
    requires
        from <= s@.len(),
    ensures
        match r {
            Some(p) => from <= p && p + 3 <= s@.len() && first_heading_open(s@.skip(from as int))
                == Some(p - from),
            None => first_heading_open(s@.skip(from as int)) is None,
        },
{
    let n = s.len();
    let ghost t = s@.skip(from as int);
    let mut i = from;
    while i < n
        invariant
            n == s@.len(),
            from <= i <= n,
            t == s@.skip(from as int),
            forall|j: int| 0 <= j < i - from ==> !heading_open_at(t, j),
        decreases n - i,
    {
        if n - i >= 3 && s[i] == '<' && s[i + 1] == 'h' && '1' <= s[i + 2] && s[i + 2] <= '3' {
            proof {
                assert(heading_open_at(t, i - from));
                lemma_first_heading_open_at(t, i - from);
            }
            return Some(i);
        }
        proof {
            assert(!heading_open_at(t, i - from));
        }
        i += 1;
    }
    proof {
        lemma_no_heading_open(t);
    }
    None
}

/// Splice `id` attributes into the heading tags of `html`, pairing the i-th
/// `<h1>`/`<h2>`/`<h3>` opening tag (in output order) with `anchors[i]`.
/// Inserting right after the tag's name keeps any attributes already there.
pub fn inject_heading_ids(html: &str, anchors: &[String]) -> (r: String)
    ensures
        r@ == with_ids(html@, string_views(anchors@)),
{
    let cs = chars_of(html);
    let ghost av = string_views(anchors@);
    let n = cs.len();
    let id_open = chars_of(" id=\"");
    let mut out: Vec<char> = Vec::new();
    let mut from: usize = 0;
    let mut idx: usize = 0;
    let mut done = false;
    assert(cs@.skip(0) =~= cs@);
    assert(av.skip(0) =~= av);
    while !done
        invariant
            n == cs@.len(),
            cs@ == html@,
            id_open@ == " id=\""@,
            av == string_views(anchors@),
            from <= n,
            idx <= anchors@.len(),
            out@ + with_ids(cs@.skip(from as int), av.skip(idx as int)) == with_ids(cs@, av),
            done ==> from == n,
        decreases anchors@.len() - idx, (if done {
            0int
        } else {
            1int
        }),
    {
        if idx >= anchors.len() {
            proof {
                lemma_with_ids_done(cs@, from as int, av.skip(idx as int));
            }
            let tail = slice(cs.as_slice(), from, n);
            push_all(&mut out, tail.as_slice());
            from = n;
            done = true;
        } else {
            match find_heading_open(cs.as_slice(), from) {
                Some(pos) => {
                    proof {
                        lemma_with_ids_step(cs@, from as int, pos as int, av, idx as int);
                    }
                    let part = slice(cs.as_slice(), from, pos + 3);
                    push_all(&mut out, part.as_slice());
                    push_all(&mut out, id_open.as_slice());
                    let esc = html_escape_attr(anchors[idx].as_str());
                    push_str(&mut out, esc.as_str());
                    out.push('"');
                    from = pos + 3;
                    idx += 1;
                },
                None => {
                    proof {
                        lemma_with_ids_done(cs@, from as int, av.skip(idx as int));
                    }
                    let tail = slice(cs.as_slice(), from, n);
                    push_all(&mut out, tail.as_slice());
                    from = n;
                    done = true;
                },
            }
        }
    }
    assert(cs@.skip(n as int) =~= Seq::<char>::empty());
    assert(with_ids(Seq::<char>::empty(), av.skip(idx as int)) =~= Seq::<char>::empty()) by {
        lemma_with_ids_done(cs@, n as int, av.skip(idx as int));
    }
    assert(out@ =~= with_ids(cs@, av));
    string_of(out.as_slice())
}

proof fn lemma_with_ids_step(cs: Seq<char>, from: int, pos: int, av: Seq<Seq<char>>, idx: int)
    requires
        0 <= from <= pos,
        pos + 3 <= cs.len(),
        0 <= idx < av.len(),
        first_heading_open(cs.skip(from)) == Some(pos - from),
    ensures
        with_ids(cs.skip(from), av.skip(idx)) == cs.subrange(from, pos + 3) + id_attr(av[idx])
            + with_ids(cs.skip(pos + 3), av.skip(idx + 1)),
{
    let t = cs.skip(from);
    assert(t.take(pos - from + 3) =~= cs.subrange(from, pos + 3));
    assert(t.skip(pos - from + 3) =~= cs.skip(pos + 3));
    assert(av.skip(idx).drop_first() =~= av.skip(idx + 1));
    assert(av.skip(idx)[0] == av[idx]);
}

proof fn lemma_with_ids_done(cs: Seq<char>, from: int, rest: Seq<Seq<char>>)
    requires
        0 <= from <= cs.len(),
        rest.len() == 0 || from == cs.len() || first_heading_open(cs.skip(from)) is None,
    ensures
        with_ids(cs.skip(from), rest) == cs.subrange(from, cs.len() as int),
{
    if from == cs.len() {
        lemma_no_heading_open(cs.skip(from));
    }
    assert(cs.skip(from) =~= cs.subrange(from, cs.len() as int));
}

// ---------------------------------------------------------------------------
// Queries and version tokens
// ---------------------------------------------------------------------------

/// The key of a `key=value` pair (the whole pair when there is no `=`).
pub open spec fn pair_key(p: Seq<char>) -> Seq<char> {
    match first_index_of(p, '=') {
        Some(i) => p.take(i),
        None => p,
    }
}

/// The value of a `key=value` pair (empty when there is no `=`).
pub open spec fn pair_value(p: Seq<char>) -> Seq<char> {
    match first_index_of(p, '=') {
        Some(i) => p.skip(i + 1),
        None => seq![],
    }
}

/// A query value decoded: `+` is a space, then percent-decoding.
pub open spec fn decoded_value(v: Seq<char>) -> Seq<char> {
    read_utf8(percent_decoded(encode_utf8(replace_char(v, '+', seq![' ']))))
}

/// The decoded value of the first pair whose key is `key`.
pub open spec fn lookup_param(pairs: Seq<Seq<char>>, key: Seq<char>) -> Option<Seq<char>>
    decreases pairs.len(),
{
    if pairs.len() == 0 {
        None
    } else if pair_key(pairs[0]) == key {
        Some(decoded_value(pair_value(pairs[0])))
    } else {
        lookup_param(pairs.drop_first(), key)
    }
}

/// The decoded value of `key` in a URL query string (`a=1&b=2`).
pub fn query_param(query: &str, key: &str) -> (r: Option<String>)
    ensures
        opt_view(r) == lookup_param(split_on(query@, '&'), key@),
{
    let cs = chars_of(query);
    let k = chars_of(key);
    let pairs = split_char(cs.as_slice(), '&');
    let ghost pv = views(pairs@);
    let mut i: usize = 0;
    assert(pv.skip(0) =~= pv);
    while i < pairs.len()
        invariant
            cs@ == query@,
            pv == views(pairs@),
            pv == split_on(cs@, '&'),
            k@ == key@,
            i <= pairs@.len(),
            lookup_param(pv.skip(i as int), key@) == lookup_param(pv, key@),
        decreases pairs.len() - i,
    {
        let pair = &pairs[i];
        assert(pv.skip(i as int)[0] == pair@);
        assert(pv.skip(i as int).drop_first() =~= pv.skip(i + 1));
        let plen = pair.len();
        let (pk, val) = match find_char(pair.as_slice(), '=') {
            Some(e) => (slice(pair.as_slice(), 0, e), slice(pair.as_slice(), e + 1, plen)),
            None => (slice(pair.as_slice(), 0, plen), Vec::new()),
        };
        assert(pk@ == pair_key(pair@)) by {
            assert(pair@.take(pair@.len() as int) =~= pair@);
        }
        assert(val@ == pair_value(pair@)) by {
            if first_index_of(pair@, '=') is None {
                assert(val@ =~= Seq::<char>::empty());
            }
        }
        if same_chars(pk.as_slice(), k.as_slice()) {
            let mut space: Vec<char> = Vec::new();
            space.push(' ');
            assert(space@ =~= seq![' ']);
            let plain = replace_all(val.as_slice(), '+', space.as_slice());
            let text = string_of(plain.as_slice());
            let value = percent_decode(text.as_str());
            assert(value@ == decoded_value(pair_value(pair@)));
            assert(pair_key(pv.skip(i as int)[0]) == key@);
            assert(lookup_param(pv.skip(i as int), key@) == Some(decoded_value(pair_value(pair@))));
            return Some(value);
        }
        i += 1;
    }
    assert(pv.skip(i as int).len() == 0);
    None
}

/// The version token the browser compares to notice changes: `g<generation>`
/// for the current note, `invalid` for a name that may not be read, and
/// `m<nanos>` (the file's modification time) for any other note.
pub open spec fn version_token_text(
    note: Seq<char>,
    current_note: Seq<char>,
    generation: u64,
    modified_nanos: u128,
) -> Seq<char> {
    if note == current_note {
        seq!['g'] + decimal(generation as nat)
    } else if !valid_note_name(note) {
        "invalid"@
    } else {
        seq!['m'] + decimal(modified_nanos as nat)
    }
}

/// The version token for `note`; `modified_nanos` is the modification time
/// of the note's file in nanoseconds since the Unix epoch (0 when it cannot
/// be read), consulted only for a valid note other than the current one.
pub fn version_token(note: &str, current_note: &str, generation: u64, modified_nanos: u128) -> (r:
    String)
    ensures
        r@ == version_token_text(note@, current_note@, generation, modified_nanos),
{
    if crate::text::same_text(note, current_note) {
        let mut out: Vec<char> = Vec::new();
        out.push('g');
        let d = decimal_u128(generation as u128);
        push_all(&mut out, d.as_slice());
        return string_of(out.as_slice());
    }
    if !is_valid_note_name(note) {
        return string_of(chars_of("invalid").as_slice());
    }
    let mut out: Vec<char> = Vec::new();
    out.push('m');
    let d = decimal_u128(modified_nanos);
    push_all(&mut out, d.as_slice());
    string_of(out.as_slice())
}

/// The token of the current note and the token of any other note never
/// agree, so a note that stops being the current one is reloaded once from
/// disk.
pub proof fn token_changes_when_note_stops_being_current(
    note: Seq<char>,
    other_current: Seq<char>,
    generation: u64,
    later_generation: u64,
    nanos: u128,
)
    requires
        note != other_current,
    ensures
        version_token_text(note, note, generation, 0) != version_token_text(
            note,
            other_current,
            later_generation,
            nanos,
        ),
{
    reveal_strlit("invalid");
    let a = version_token_text(note, note, generation, 0);
    let b = version_token_text(note, other_current, later_generation, nanos);
    assert(a[0] == 'g');
    assert(b[0] != 'g');
}

} // verus!
