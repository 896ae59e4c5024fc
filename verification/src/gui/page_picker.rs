//! The "Open Note" picker's ordering and matching: fuzzy matching of a query
//! against note names, the order of the list (most recently opened first, or
//! best match first) and stepping the selection.
//!
//! The window, the measuring of text and the reading of notes are the
//! application's.
use vstd::prelude::*;
use vstd::utf8::*;
use crate::gui::markdown::{event_view, item_views, markdown_events, markdown_items, MdEvent, MdEventView};
use crate::text::{
    chars_of, lemma_lex_total, lemma_lex_trans, lex_less, lex_less_exec, lowercase, push_all, replace_all, replace_char, split_whitespace, str_to_lowercase,
    string_of, views, words,
};

verus! {

/// One entry of the picker list.
pub struct Row {
    /// Page name / path used to open the note.
    pub name: String,
    /// Short plain-text preview of the note.
    pub abbrev: String,
    /// Formatted last-modification time.
    pub date: String,
    /// Last-opened time (ms since epoch).
    pub last_open: Option<i64>,
    /// Last-modification time (ms since epoch).
    pub modified: Option<i64>,
}

// ---------------------------------------------------------------------------
// Previews
// ---------------------------------------------------------------------------

/// The text a parser event adds to a preview: its text for text and inline
/// code, a space for a line break or the end of any element (so words of
/// adjacent blocks stay apart), nothing for the rest.
pub open spec fn preview_piece(e: MdEventView) -> Seq<char> {
    match e {
        MdEventView::Text(t) => t,
        MdEventView::Code(t) => t,
        MdEventView::SoftBreak => seq![' '],
        MdEventView::HardBreak => seq![' '],
        MdEventView::LinkEnd => seq![' '],
        MdEventView::OtherEnd => seq![' '],
        _ => Seq::empty(),
    }
}

/// The preview text gathered from the events from `i` on, after `acc`:
/// pieces are added in order until the text reaches `limit` bytes of UTF-8.
pub open spec fn gathered(
    events: Seq<(MdEventView, usize, usize)>,
    i: int,
    acc: Seq<char>,
    limit: nat,
) -> Seq<char>
    decreases events.len() - i,
{
    if i < 0 || i >= events.len() {
        acc
    } else {
        let next = acc + preview_piece(events[i].0);
        if encode_utf8(next).len() >= limit {
            next
        } else {
            gathered(events, i + 1, next, limit)
        }
    }
}

/// Words joined by single spaces.
pub open spec fn joined(ws: Seq<Seq<char>>) -> Seq<char>
    decreases ws.len(),
{
    if ws.len() == 0 {
        Seq::empty()
    } else if ws.len() == 1 {
        ws[0]
    } else {
        joined(ws.drop_last()) + seq![' '] + ws.last()
    }
}

/// A note's preview: its Markdown reduced to plain text (from the parser's
/// events, read until there is clearly enough), whitespace collapsed to single
/// spaces, and cut to `max_chars` characters.
pub open spec fn preview(markdown: Seq<char>, max_chars: nat) -> Seq<char> {
    let collapsed = joined(words(gathered(markdown_items(markdown), 0, Seq::empty(), max_chars * 4)));
    if collapsed.len() > max_chars {
        collapsed.take(max_chars as int)
    } else {
        collapsed
    }
}

fn join_words(ws: &Vec<Vec<char>>) -> (r: Vec<char>)
    ensures
        r@ == joined(views(ws@)),
{
    let mut out: Vec<char> = Vec::new();
    let mut i: usize = 0;
    while i < ws.len()
        invariant
            i <= ws@.len(),
            out@ == joined(views(ws@).take(i as int)),
        decreases ws.len() - i,
    {
        let ghost before = views(ws@).take(i as int);
        assert(views(ws@).take(i + 1).drop_last() =~= before);
        if i > 0 {
            out.push(' ');
        }
        push_all(&mut out, ws[i].as_slice());
        i += 1;
    }
    assert(views(ws@).take(ws@.len() as int) =~= views(ws@));
    out
}

/// A plain-text preview of `markdown`, at most `max_chars` characters (see
/// `preview`).
pub fn abbreviate(markdown: &str, max_chars: usize) -> (r: String)
    requires
        max_chars <= usize::MAX / 4,
    ensures
        r@ == preview(markdown@, max_chars as nat),
{
    let items = markdown_events(markdown);
    let ghost evs = markdown_items(markdown@);
    let limit: u128 = max_chars as u128 * 4;
    let mut out: Vec<char> = Vec::new();
    let mut bytes: u128 = 0;
    let mut i: usize = 0;
    let mut done = false;
    while i < items.len() && !done
        invariant
            item_views(items@) == evs,
            i <= items@.len(),
            limit == max_chars * 4,
            done ==> gathered(evs, 0, Seq::empty(), limit as nat) == out@,
            !done ==> gathered(evs, 0, Seq::empty(), limit as nat) == gathered(evs, i as int, out@, limit as nat),
            !done ==> bytes == encode_utf8(out@).len(),
            !done ==> bytes < limit || i == 0,
            bytes <= u128::MAX / 2,
        decreases items.len() - i,
    {
        let ghost before = out@;
        assert(evs[i as int].0 == event_view(items@[i as int].event));
        let piece: Vec<char> = match &items[i].event {
            MdEvent::Text(t) => chars_of(t.as_str()),
            MdEvent::Code(t) => chars_of(t.as_str()),
            MdEvent::SoftBreak | MdEvent::HardBreak | MdEvent::LinkEnd | MdEvent::OtherEnd => {
                let mut v: Vec<char> = Vec::new();
                v.push(' ');
                v
            },
            _ => Vec::new(),
        };
        assert(piece@ == preview_piece(evs[i as int].0));
        let pb = string_of(piece.as_slice());
        let n = pb.as_str().as_bytes().len();
        proof {
            crate::gui::percent::lemma_encode_utf8_concat(before, piece@);
        }
        push_all(&mut out, piece.as_slice());
        if bytes + n as u128 >= limit {
            done = true;
        } else {
            bytes = bytes + n as u128;
        }
        i += 1;
    }
    let ws = split_whitespace(out.as_slice());
    let collapsed = join_words(&ws);
    if collapsed.len() > max_chars {
        let cut = crate::text::slice(collapsed.as_slice(), 0, max_chars);
        assert(cut@ =~= collapsed@.take(max_chars as int));
        string_of(cut.as_slice())
    } else {
        string_of(collapsed.as_slice())
    }
}

// ---------------------------------------------------------------------------
// Stepping the selection
// ---------------------------------------------------------------------------

/// The 1-based selection after one step of the quick-open cycle: up or
/// down, wrapping at both ends; 0 for an empty list.
pub open spec fn cycled(cur: i32, sz: i32, up: bool) -> i32 {
    if sz <= 0 {
        0
    } else {
        let c = if cur < 1 {
            1
        } else if cur > sz {
            sz
        } else {
            cur
        };
        if up {
            if c <= 1 {
                sz
            } else {
                (c - 1) as i32
            }
        } else if c >= sz {
            1
        } else {
            (c + 1) as i32
        }
    }
}

pub fn cycle_index(cur: i32, sz: i32, up: bool) -> (r: i32)
    ensures
        r == cycled(cur, sz, up),
{
    if sz <= 0 {
        return 0;
    }
    let c = if cur < 1 {
        1
    } else if cur > sz {
        sz
    } else {
        cur
    };
    if up {
        if c <= 1 {
            sz
        } else {
            c - 1
        }
    } else if c >= sz {
        1
    } else {
        c + 1
    }
}

/// `@` starts a format code in the list widget and a tab separates its
/// columns: every `@` is doubled and every tab becomes a space.
pub fn escape(s: &str) -> (r: String)
    ensures
        r@ == replace_char(replace_char(s@, '@', seq!['@', '@']), '\t', seq![' ']),
{
    let cs = chars_of(s);
    let mut at2: Vec<char> = Vec::new();
    at2.push('@');
    at2.push('@');
    let mut space: Vec<char> = Vec::new();
    space.push(' ');
    assert(at2@ =~= seq!['@', '@']);
    assert(space@ =~= seq![' ']);
    let a = replace_all(cs.as_slice(), '@', at2.as_slice());
    let b = replace_all(a.as_slice(), '\t', space.as_slice());
    string_of(b.as_slice())
}

// ---------------------------------------------------------------------------
// Fuzzy matching
// ---------------------------------------------------------------------------

/// The score so far and how many query bytes were matched, after scanning
/// the first `i` candidate bytes: each query byte is matched in order at
/// its next occurrence; a match at byte `k` earns `10 - min(k, 9)`, and 5
/// more at the start or right after a `/`.
pub open spec fn fuzzy_state(q: Seq<u8>, c: Seq<u8>, i: int) -> (int, int)
    decreases i,
{
    if i <= 0 {
        (0, 0)
    } else {
        let prev = fuzzy_state(q, c, i - 1);
        let k = i - 1;
        if prev.1 < q.len() && c[k] == q[prev.1] {
            let early = 10 - if k < 9 {
                k
            } else {
                9
            };
            let word = if k == 0 || c[k - 1] == 47 {
                5int
            } else {
                0int
            };
            (prev.0 + early + word, prev.1 + 1)
        } else {
            prev
        }
    }
}

pub open spec fn bytes_start_with(c: Seq<u8>, q: Seq<u8>) -> bool {
    q.len() <= c.len() && c.take(q.len() as int) == q
}

/// The fuzzy score of the lower-cased query bytes `q` against the
/// lower-cased candidate bytes `c`: `None` unless `q` is a subsequence of
/// `c`; otherwise the match score, plus 20 when `c` starts with `q` and 50
/// more when they are equal.
pub open spec fn fuzzy_bytes_score(q: Seq<u8>, c: Seq<u8>) -> Option<int> {
    let st = fuzzy_state(q, c, c.len() as int);
    if st.1 == q.len() {
        Some(
            st.0 + (if bytes_start_with(c, q) {
                20int
            } else {
                0int
            }) + (if c == q {
                50int
            } else {
                0int
            }),
        )
    } else {
        None
    }
}

/// The fuzzy score of `query` against `candidate`, compared without case.
pub open spec fn fuzzy_match(query: Seq<char>, candidate: Seq<char>) -> Option<int> {
    if query.len() == 0 {
        Some(0)
    } else {
        fuzzy_bytes_score(encode_utf8(lowercase(query)), encode_utf8(lowercase(candidate)))
    }
}

pub open spec fn opt_int(o: Option<i128>) -> Option<int> {
    match o {
        Some(s) => Some(s as int),
        None => None,
    }
}

proof fn lemma_fuzzy_bounds(q: Seq<u8>, c: Seq<u8>, i: int)
    requires
        0 <= i <= c.len(),
    ensures
        0 <= fuzzy_state(q, c, i).1 <= q.len(),
        fuzzy_state(q, c, i).1 <= i,
        0 <= fuzzy_state(q, c, i).0 <= 15 * fuzzy_state(q, c, i).1,
    decreases i,
{
    if i > 0 {
        lemma_fuzzy_bounds(q, c, i - 1);
    }
}

/// `idx` places the bytes of `q` in `c`, in order: `q[k]` is `c[idx[k]]`,
/// at strictly increasing positions.
pub open spec fn embeds(q: Seq<u8>, c: Seq<u8>, idx: Seq<int>) -> bool {
    &&& idx.len() == q.len()
    &&& forall|k: int| 0 <= k < q.len() ==> 0 <= #[trigger] idx[k] < c.len() && c[idx[k]] == q[k]
    &&& forall|a: int, b: int| 0 <= a < b < idx.len() ==> #[trigger] idx[a] < #[trigger] idx[b]
}

/// `q` is a subsequence of `c`: its bytes occur in `c` in order, not
/// necessarily next to one another.
pub open spec fn is_subsequence(q: Seq<u8>, c: Seq<u8>) -> bool {
    exists|idx: Seq<int>| embeds(q, c, idx)
}

/// The positions the scan matches the query's bytes at, in the first `i`
/// candidate bytes.
spec fn matched_at(q: Seq<u8>, c: Seq<u8>, i: int) -> Seq<int>
    decreases i,
{
    if i <= 0 {
        Seq::empty()
    } else {
        let prev = matched_at(q, c, i - 1);
        let st = fuzzy_state(q, c, i - 1);
        if st.1 < q.len() && c[i - 1] == q[st.1] {
            prev.push(i - 1)
        } else {
            prev
        }
    }
}

proof fn lemma_matched_at(q: Seq<u8>, c: Seq<u8>, i: int)
    requires
        0 <= i <= c.len(),
    ensures
        matched_at(q, c, i).len() == fuzzy_state(q, c, i).1,
        embeds(q.take(fuzzy_state(q, c, i).1), c, matched_at(q, c, i)),
        forall|k: int| 0 <= k < matched_at(q, c, i).len() ==> #[trigger] matched_at(q, c, i)[k] < i,
    decreases i,
{
    lemma_fuzzy_bounds(q, c, i);
    if i > 0 {
        lemma_matched_at(q, c, i - 1);
        lemma_fuzzy_bounds(q, c, i - 1);
        let prev = matched_at(q, c, i - 1);
        let st = fuzzy_state(q, c, i - 1);
        if st.1 < q.len() && c[i - 1] == q[st.1] {
            let m = prev.push(i - 1);
            let qt = q.take(st.1 + 1);
            assert forall|k: int| 0 <= k < qt.len() implies 0 <= #[trigger] m[k] < c.len() && c[m[k]]
                == qt[k] by {
                if k < prev.len() {
                    assert(m[k] == prev[k]);
                    assert(q.take(st.1)[k] == q[k]);
                }
            }
            assert forall|a: int, b: int| 0 <= a < b < m.len() implies #[trigger] m[a] < #[trigger] m[b] by {
                if b < prev.len() {
                    assert(m[a] == prev[a] && m[b] == prev[b]);
                } else {
                    assert(m[a] == prev[a]);
                }
            }
        } else {
            assert forall|k: int| 0 <= k < prev.len() implies #[trigger] prev[k] < i by {}
        }
    }
}

/// Any placement of the query is matched by the scan at least as far.
proof fn lemma_scan_keeps_up(q: Seq<u8>, c: Seq<u8>, idx: Seq<int>, i: int, p: int)
    requires
        embeds(q, c, idx),
        0 <= i <= c.len(),
        0 <= p <= q.len(),
        p == 0 || idx[p - 1] < i,
    ensures
        fuzzy_state(q, c, i).1 >= p,
    decreases i,
{
    lemma_fuzzy_bounds(q, c, i);
    if p > 0 {
        assert(0 <= idx[p - 1]);
        if idx[p - 1] < i - 1 {
            lemma_scan_keeps_up(q, c, idx, i - 1, p);
        } else {
            if p > 1 {
                assert(idx[p - 2] < idx[p - 1]);
            }
            lemma_scan_keeps_up(q, c, idx, i - 1, p - 1);
            lemma_fuzzy_bounds(q, c, i - 1);
        }
    }
}

/// The picker keeps exactly the notes whose name holds the query's bytes in
/// order (lower-cased, compared as UTF-8): the fuzzy score is present if and
/// only if the query is a subsequence of the candidate, adjacent or not.
pub proof fn fuzzy_matches_exactly_subsequences(q: Seq<u8>, c: Seq<u8>)
    ensures
        fuzzy_bytes_score(q, c) is Some <==> is_subsequence(q, c),
{
    let n = c.len() as int;
    lemma_fuzzy_bounds(q, c, n);
    if fuzzy_bytes_score(q, c) is Some {
        lemma_matched_at(q, c, n);
        assert(q.take(q.len() as int) =~= q);
        assert(embeds(q, c, matched_at(q, c, n)));
    }
    if is_subsequence(q, c) {
        let idx = choose|idx: Seq<int>| embeds(q, c, idx);
        if q.len() > 0 {
            assert(idx[q.len() - 1] < c.len());
        }
        lemma_scan_keeps_up(q, c, idx, n, q.len() as int);
    }
}

/// A query matches a note name, ignoring case, exactly when it is empty or
/// its lower-cased bytes occur in order in the lower-cased name.
pub proof fn fuzzy_match_is_subsequence(query: Seq<char>, candidate: Seq<char>)
    ensures
        fuzzy_match(query, candidate) is Some <==> (query.len() == 0 || is_subsequence(
            encode_utf8(lowercase(query)),
            encode_utf8(lowercase(candidate)),
        )),
{
    fuzzy_matches_exactly_subsequences(encode_utf8(lowercase(query)), encode_utf8(lowercase(candidate)));
}

/// Score lower-cased query bytes against lower-cased candidate bytes.
pub fn fuzzy_score_bytes(q: &[u8], c: &[u8]) -> (r: Option<i128>)
    ensures
        match r {
            Some(s) => fuzzy_bytes_score(q@, c@) == Some(s as int),
            None => fuzzy_bytes_score(q@, c@) is None,
        },
{
    let qn = q.len();
    let cn = c.len();
    let mut score: i128 = 0;
    let mut qi: usize = 0;
    let mut i: usize = 0;
    while i < cn
        invariant
            qn == q@.len(),
            cn == c@.len(),
            i <= cn,
            (score as int, qi as int) == fuzzy_state(q@, c@, i as int),
            0 <= score <= 15 * qi,
            qi <= qn,
        decreases cn - i,
    {
        proof {
            lemma_fuzzy_bounds(q@, c@, i as int + 1);
        }
        if qi < qn && c[i] == q[qi] {
            let early: i128 = if i < 9 {
                i as i128
            } else {
                9
            };
            score = score + 10 - early;
            if i == 0 || c[i - 1] == 47 {
                score = score + 5;
            }
            qi += 1;
        }
        i += 1;
    }
    if qi == qn {
        let mut total = score;
        if bytes_prefix(c, q) {
            total = total + 20;
        }
        if qn == cn && bytes_prefix(c, q) {
            assert(c@ =~= c@.take(qn as int));
            total = total + 50;
        } else {
            proof {
                if c@ == q@ {
                    assert(c@.take(qn as int) =~= q@);
                }
            }
        }
        Some(total)
    } else {
        None
    }
}

fn bytes_prefix(c: &[u8], q: &[u8]) -> (r: bool)
    ensures
        r == bytes_start_with(c@, q@),
{
    if q.len() > c.len() {
        return false;
    }
    let mut k: usize = 0;
    while k < q.len()
        invariant
            q@.len() <= c@.len(),
            k <= q@.len(),
            forall|m: int| 0 <= m < k ==> c@[m] == q@[m],
        decreases q.len() - k,
    {
        if c[k] != q[k] {
            assert(c@.take(q@.len() as int)[k as int] != q@[k as int]);
            return false;
        }
        k += 1;
    }
    assert(c@.take(q@.len() as int) =~= q@);
    true
}

/// `str::to_lowercase` of `s`, as UTF-8 bytes.
fn lowercase_bytes(s: &str) -> (r: Vec<u8>)
    ensures
        r@ == encode_utf8(lowercase(s@)),
{
    let l = str_to_lowercase(s);
    let b = l.as_str().as_bytes();
    let mut v: Vec<u8> = Vec::new();
    let mut i: usize = 0;
    while i < b.len()
        invariant
            i <= b@.len(),
            b@ == encode_utf8(lowercase(s@)),
            v@ == b@.take(i as int),
        decreases b.len() - i,
    {
        v.push(b[i]);
        i += 1;
        assert(v@ =~= b@.take(i as int));
    }
    assert(b@.take(i as int) =~= b@);
    v
}

/// Simple fuzzy match of `query` against a note name `candidate`, ignoring
/// case: the query's characters must occur in order; earlier, word-initial,
/// prefix and exact matches score higher. The score is kept in an `i128`,
/// which no score of a query that fits in memory can overflow.
pub fn fuzzy_score(query: &str, candidate: &str) -> (r: Option<i128>)
    ensures
        opt_int(r) == fuzzy_match(query@, candidate@),
{
    if query.is_empty() {
        return Some(0);
    }
    let q = lowercase_bytes(query);
    let c = lowercase_bytes(candidate);
    fuzzy_score_bytes(q.as_slice(), c.as_slice())
}

// ---------------------------------------------------------------------------
// Ordering the list
// ---------------------------------------------------------------------------


/// `x` is greater than `y`, a missing value being the least.
pub open spec fn opt_greater(x: Option<i128>, y: Option<i128>) -> bool {
    match (x, y) {
        (Some(a), Some(b)) => a > b,
        (Some(_), None) => true,
        _ => false,
    }
}

/// What a row is ordered by: two keys that put higher values first, then
/// the lower-cased name in ascending order.
pub type OrderKey = (Option<i128>, Option<i128>, Seq<char>);

pub open spec fn key_before(x: OrderKey, y: OrderKey) -> bool {
    ||| opt_greater(x.0, y.0)
    ||| x.0 == y.0 && opt_greater(x.1, y.1)
    ||| x.0 == y.0 && x.1 == y.1 && lex_less(x.2, y.2)
}

/// Row `i` comes before row `j`: by key, and by position when the keys are
/// equal (the sort is stable).
pub open spec fn precedes(keys: Seq<OrderKey>, i: int, j: int) -> bool {
    key_before(keys[i], keys[j]) || (keys[i] == keys[j] && i < j)
}

/// `order` lists the rows in `candidates` (each once) so that each comes
/// before all that follow it.
pub open spec fn ordered(keys: Seq<OrderKey>, candidates: Seq<usize>, order: Seq<usize>) -> bool {
    &&& order.len() == candidates.len()
    &&& forall|k: int| 0 <= k < candidates.len() ==> order.contains(#[trigger] candidates[k])
    &&& forall|p: int| 0 <= p < order.len() ==> candidates.contains(#[trigger] order[p])
    &&& forall|p: int, q: int|
        0 <= p < q < order.len() ==> precedes(keys, #[trigger] order[p] as int, #[trigger] order[q] as int)
}

proof fn lemma_key_order(x: OrderKey, y: OrderKey, z: OrderKey)
    ensures
        x != y ==> key_before(x, y) || key_before(y, x),
        !(key_before(x, y) && key_before(y, x)),
        !key_before(x, x),
        key_before(x, y) && key_before(y, z) ==> key_before(x, z),
{
    lemma_lex_total(x.2, y.2);
    lemma_lex_total(x.2, x.2);
    if lex_less(x.2, y.2) && lex_less(y.2, z.2) {
        lemma_lex_trans(x.2, y.2, z.2);
    }
}

/// `precedes` is a strict total order on row positions.
pub proof fn lemma_precedes_order(keys: Seq<OrderKey>, i: int, j: int, k: int)
    ensures
        i != j ==> precedes(keys, i, j) || precedes(keys, j, i),
        !(precedes(keys, i, j) && precedes(keys, j, i)),
        precedes(keys, i, j) && precedes(keys, j, k) ==> precedes(keys, i, k),
{
    lemma_key_order(keys[i], keys[j], keys[k]);
    lemma_key_order(keys[j], keys[i], keys[k]);
    lemma_key_order(keys[i], keys[k], keys[j]);
    if keys[i] == keys[j] {
        lemma_key_order(keys[j], keys[k], keys[i]);
    }
}

fn opt_greater_exec(x: Option<i128>, y: Option<i128>) -> (r: bool)
    ensures
        r == opt_greater(x, y),
{
    match (x, y) {
        (Some(a), Some(b)) => a > b,
        (Some(_), None) => true,
        _ => false,
    }
}

/// The order key of a row, computed.
pub struct RowKey {
    pub first: Option<i128>,
    pub second: Option<i128>,
    pub name: Vec<char>,
}

pub open spec fn key_view(k: RowKey) -> OrderKey {
    (k.first, k.second, k.name@)
}

pub open spec fn key_views(v: Seq<RowKey>) -> Seq<OrderKey> {
    v.map_values(|k: RowKey| key_view(k))
}

fn key_before_exec(x: &RowKey, y: &RowKey) -> (r: bool)
    ensures
        r == key_before(key_view(*x), key_view(*y)),
{
    if opt_greater_exec(x.first, y.first) {
        return true;
    }
    if x.first != y.first {
        return false;
    }
    if opt_greater_exec(x.second, y.second) {
        return true;
    }
    if x.second != y.second {
        return false;
    }
    lex_less_exec(x.name.as_slice(), y.name.as_slice())
}

/// Sort the positions `candidates` (given in increasing order) by their keys,
/// keeping the given order among equal keys.
pub fn stable_order(keys: &Vec<RowKey>, candidates: &Vec<usize>) -> (r: Vec<usize>)
    requires
        forall|k: int| 0 <= k < candidates@.len() ==> #[trigger] candidates@[k] < keys@.len(),
        forall|a: int, b: int| 0 <= a < b < candidates@.len() ==> candidates@[a] < candidates@[b],
    ensures
        ordered(key_views(keys@), candidates@, r@),
{
    let ghost kv = key_views(keys@);
    let mut order: Vec<usize> = Vec::new();
    let mut n: usize = 0;
    while n < candidates.len()
        invariant
            kv == key_views(keys@),
            n <= candidates@.len(),
            forall|k: int| 0 <= k < candidates@.len() ==> #[trigger] candidates@[k] < keys@.len(),
            forall|a: int, b: int|
                0 <= a < b < candidates@.len() ==> candidates@[a] < candidates@[b],
            ordered(kv, candidates@.take(n as int), order@),
        decreases candidates.len() - n,
    {
        let x = candidates[n];
        let mut p: usize = 0;
        while p < order.len() && !key_before_exec(&keys[x], &keys[order[p]])
            invariant
                p <= order@.len(),
                x == candidates@[n as int],
                x < keys@.len(),
                kv == key_views(keys@),
                forall|k: int| 0 <= k < order@.len() ==> #[trigger] order@[k] < keys@.len(),
                forall|t: int| 0 <= t < p ==> !key_before(kv[x as int], kv[#[trigger] order@[t] as int]),
            decreases order.len() - p,
        {
            proof {
                assert(kv[x as int] == key_view(keys@[x as int]));
                assert(kv[order@[p as int] as int] == key_view(keys@[order@[p as int] as int]));
            }
            p += 1;
        }
        proof {
            assert(p < order@.len() ==> key_before(kv[x as int], kv[order@[p as int] as int]));
            lemma_insert_sorted(kv, candidates@, n as int, order@, p as int);
        }
        order.insert(p, x);
        n += 1;
    }
    assert(candidates@.take(n as int) =~= candidates@);
    order
}

proof fn lemma_insert_sorted(
    kv: Seq<OrderKey>,
    candidates: Seq<usize>,
    n: int,
    order: Seq<usize>,
    p: int,
)
    requires
        0 <= n < candidates.len(),
        0 <= p <= order.len(),
        forall|a: int, b: int| 0 <= a < b < candidates.len() ==> candidates[a] < candidates[b],
        ordered(kv, candidates.take(n), order),
        forall|t: int| 0 <= t < p ==> !key_before(kv[candidates[n] as int], kv[#[trigger] order[t] as int]),
        p < order.len() ==> key_before(kv[candidates[n] as int], kv[order[p] as int]),
    ensures
        ordered(kv, candidates.take(n + 1), order.insert(p, candidates[n])),
{
    let x = candidates[n];
    let o2 = order.insert(p, x);
    let c0 = candidates.take(n);
    let c1 = candidates.take(n + 1);
    assert(c1 =~= c0.push(x));
    // Every earlier element is a smaller position than x.
    assert forall|t: int| 0 <= t < order.len() implies #[trigger] order[t] < x by {
        assert(c0.contains(order[t]));
        let w = choose|w: int| 0 <= w < c0.len() && c0[w] == order[t];
        assert(candidates[w] < candidates[n]);
    }
    assert forall|k: int| 0 <= k < c1.len() implies o2.contains(#[trigger] c1[k]) by {
        if k < n {
            assert(order.contains(c0[k]));
            let w = choose|w: int| 0 <= w < order.len() && order[w] == c0[k];
            if w < p {
                assert(o2[w] == order[w]);
            } else {
                assert(o2[w + 1] == order[w]);
            }
        } else {
            assert(o2[p] == x);
        }
    }
    assert forall|q: int| 0 <= q < o2.len() implies c1.contains(#[trigger] o2[q]) by {
        if q < p {
            assert(o2[q] == order[q]);
            assert(c0.contains(order[q]));
            let w = choose|w: int| 0 <= w < c0.len() && c0[w] == order[q];
            assert(c1[w] == c0[w]);
        } else if q == p {
            assert(c1[n] == x);
        } else {
            assert(o2[q] == order[q - 1]);
            assert(c0.contains(order[q - 1]));
            let w = choose|w: int| 0 <= w < c0.len() && c0[w] == order[q - 1];
            assert(c1[w] == c0[w]);
        }
    }
    assert forall|a: int, b: int| 0 <= a < b < o2.len() implies precedes(
        kv,
        #[trigger] o2[a] as int,
        #[trigger] o2[b] as int,
    ) by {
        if b < p {
            assert(o2[a] == order[a] && o2[b] == order[b]);
        } else if a > p {
            assert(o2[a] == order[a - 1] && o2[b] == order[b - 1]);
        } else if a == p {
            // x before everything after it
            assert(o2[b] == order[b - 1]);
            let y = order[b - 1];
            assert(key_before(kv[x as int], kv[order[p] as int]));
            if b - 1 == p {
            } else {
                assert(precedes(kv, order[p] as int, y as int));
                lemma_precedes_order(kv, x as int, order[p] as int, y as int);
            }
        } else if b == p {
            // everything before x precedes it
            assert(o2[a] == order[a]);
            let y = order[a];
            assert(!key_before(kv[x as int], kv[y as int]));
            assert(y < x);
            lemma_precedes_order(kv, y as int, x as int, x as int);
            lemma_key_order(kv[y as int], kv[x as int], kv[x as int]);
        } else {
            // a < p < b
            assert(o2[a] == order[a] && o2[b] == order[b - 1]);
        }
    }
}

/// The key of a row for the unfiltered list: most recently opened first,
/// then most recently modified, then by lower-cased name.
/// A time as an order key value.
pub open spec fn time_key(t: Option<i64>) -> Option<i128> {
    match t {
        Some(v) => Some(v as i128),
        None => None,
    }
}

pub open spec fn recency_key(row: Row) -> OrderKey {
    (time_key(row.last_open), time_key(row.modified), lowercase(row.name@))
}

fn time_key_exec(t: Option<i64>) -> (r: Option<i128>)
    ensures
        r == time_key(t),
{
    match t {
        Some(v) => Some(v as i128),
        None => None,
    }
}

/// The positions 0..n.
pub open spec fn all_positions(n: nat) -> Seq<usize> {
    Seq::new(n, |i: int| i as usize)
}

/// Order all rows most-recently-opened first; never-opened notes sink to the
/// bottom, ordered by last modification, then by name.
pub fn recency_order(rows: &[Row]) -> (r: Vec<usize>)
    ensures
        ordered(rows@.map_values(|row: Row| recency_key(row)), all_positions(rows@.len()), r@),
{
    let mut keys: Vec<RowKey> = Vec::new();
    let mut cands: Vec<usize> = Vec::new();
    let mut i: usize = 0;
    while i < rows.len()
        invariant
            i <= rows@.len(),
            keys@.len() == i,
            forall|k: int| 0 <= k < i ==> key_view(#[trigger] keys@[k]) == recency_key(rows@[k]),
            cands@ == all_positions(i as nat),
        decreases rows.len() - i,
    {
        let lower = str_to_lowercase(rows[i].name.as_str());
        keys.push(RowKey { first: time_key_exec(rows[i].last_open), second: time_key_exec(rows[i].modified), name: chars_of(lower.as_str()) });
        cands.push(i);
        assert(cands@ =~= all_positions((i + 1) as nat));
        i += 1;
    }
    assert(key_views(keys@) =~= rows@.map_values(|row: Row| recency_key(row)));
    stable_order(&keys, &cands)
}

/// The key of a row for a query: best score first, then by lower-cased name.
pub open spec fn match_key(query: Seq<char>, row: Row) -> OrderKey {
    let first: Option<i128> = match fuzzy_match(query, row.name@) {
        Some(sc) => Some(sc as i128),
        None => None,
    };
    (first, None, lowercase(row.name@))
}

/// The positions of the rows that match a query.
pub open spec fn matching_positions(query: Seq<char>, rows: Seq<Row>) -> Seq<usize> {
    all_positions(rows.len()).filter(|i: usize| fuzzy_match(query, rows[i as int].name@) is Some)
}

/// The rows that match `query`, best match first (ties by name, then by
/// position).
pub fn fuzzy_order(rows: &[Row], query: &str) -> (r: Vec<usize>)
    ensures
        ordered(
            rows@.map_values(|row: Row| match_key(query@, row)),
            matching_positions(query@, rows@),
            r@,
        ),
{
    let ghost f = |i: usize| fuzzy_match(query@, rows@[i as int].name@) is Some;
    let mut keys: Vec<RowKey> = Vec::new();
    let mut cands: Vec<usize> = Vec::new();
    let mut i: usize = 0;
    proof {
        reveal(Seq::filter);
        assert(all_positions(0).filter(f) =~= Seq::<usize>::empty());
    }
    while i < rows.len()
        invariant
            i <= rows@.len(),
            keys@.len() == i,
            f == (|i: usize| fuzzy_match(query@, rows@[i as int].name@) is Some),
            forall|k: int| 0 <= k < i ==> key_view(#[trigger] keys@[k]) == match_key(query@, rows@[k]),
            cands@ == all_positions(i as nat).filter(f),
            forall|k: int| 0 <= k < cands@.len() ==> #[trigger] cands@[k] < i,
            forall|a: int, b: int| 0 <= a < b < cands@.len() ==> cands@[a] < cands@[b],
        decreases rows.len() - i,
    {
        let lower = str_to_lowercase(rows[i].name.as_str());
        let score = fuzzy_score(query, rows[i].name.as_str());
        let first = score;
        keys.push(RowKey { first, second: None, name: chars_of(lower.as_str()) });
        proof {
            reveal(Seq::filter);
            assert(all_positions((i + 1) as nat).drop_last() =~= all_positions(i as nat));
            assert(all_positions((i + 1) as nat).last() == i);
        }
        if score.is_some() {
            cands.push(i);
        }
        i += 1;
    }
    assert(all_positions(rows@.len()) =~= all_positions(i as nat));
    assert(key_views(keys@) =~= rows@.map_values(|row: Row| match_key(query@, row)));
    stable_order(&keys, &cands)
}

} // verus!
