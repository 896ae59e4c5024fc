//! Section links: linking to a specific heading inside a note.
//!
//! A section link has an internal form, `path/to/note#section-slug`, stored in
//! Markdown link destinations, and a URL form, `piki://path/to/note#section-slug`,
//! registered with the operating system. `build_piki_url` makes the URL form
//! and `normalize_link_target` strips it back; `heading_slug` turns a heading's
//! text into the slug both sides agree on.
use vstd::prelude::*;
use vstd::string::StrSliceExecFns;
use vstd::utf8::*;
use crate::gui::percent::{
    ascii_text, encode_fragment, encode_path, escaped, kept, lemma_ascii_text_bytes,
    lemma_decode_escaped, lemma_encode_utf8_concat, lemma_escaped_safe, read_utf8,
    percent_decode, percent_decoded, url_safe,
};
use crate::text::{
    alphanumeric, ascii_lower, char_lowercase, char_to_lowercase, chars_of, decimal, decimal_of,
    find_char, first_index_of, is_alphanumeric, is_whitespace, is_ws, lowered, push_all,
    same_chars, starts_with_ignoring_case,
    slice, starts_with, string_of, string_views, to_ascii_lower, trim, trim_end, trim_start,
    trimmed, decimal_u128, lemma_decimal_digits,
};

verus! {

/// The custom URL scheme registered with the operating system.
pub const URL_SCHEME: &'static str = "piki";

// ---------------------------------------------------------------------------
// Heading slugs
// ---------------------------------------------------------------------------

/// Characters that separate the words of a slug.
pub open spec fn is_slug_separator(c: char) -> bool {
    is_ws(c) || c == '-' || c == '_'
}

/// The slug built from `s` so far, and whether a separator has been seen
/// since its last word. Alphanumerics are lower-cased and kept; a run of
/// separators becomes one `-` once another word follows; anything else is
/// dropped.
pub open spec fn slug_state(s: Seq<char>) -> (Seq<char>, bool)
    decreases s.len(),
{
    if s.len() == 0 {
        (seq![], false)
    } else {
        let prev = slug_state(s.drop_last());
        let c = s.last();
        if alphanumeric(c) {
            let dash: Seq<char> = if prev.1 && prev.0.len() > 0 {
                seq!['-']
            } else {
                seq![]
            };
            (prev.0 + dash + char_lowercase(c), false)
        } else if is_slug_separator(c) {
            (prev.0, true)
        } else {
            prev
        }
    }
}

/// The anchor slug of a heading's text.
pub open spec fn slug(s: Seq<char>) -> Seq<char> {
    slug_state(s).0
}

/// Turn a heading's plain text into an anchor slug: lower-cased
/// alphanumerics, each run of whitespace, `-` or `_` between words collapsed
/// into one `-`, other punctuation dropped, no leading or trailing dash.
pub fn heading_slug(text: &str) -> (r: String)
    ensures
        r@ == slug(text@),
{
    let cs = chars_of(text);
    let mut out: Vec<char> = Vec::new();
    let mut pending = false;
    let mut i: usize = 0;
    while i < cs.len()
        invariant
            i <= cs@.len(),
            (out@, pending) == slug_state(cs@.take(i as int)),
        decreases cs.len() - i,
    {
        let c = cs[i];
        assert(cs@.take(i + 1).drop_last() =~= cs@.take(i as int));
        assert(cs@.take(i + 1).last() == c);
        if is_alphanumeric(c) {
            if pending && out.len() > 0 {
                out.push('-');
            }
            pending = false;
            let low = char_to_lowercase(c);
            push_all(&mut out, low.as_slice());
        } else if is_whitespace(c) || c == '-' || c == '_' {
            pending = true;
        }
        i += 1;
    }
    assert(cs@.take(cs@.len() as int) =~= cs@);
    string_of(out.as_slice())
}

/// How many of the first `i` slugs equal `b`.
pub open spec fn count_before(bases: Seq<Seq<char>>, i: int, b: Seq<char>) -> nat
    decreases i,
{
    if i <= 0 {
        0
    } else {
        count_before(bases, i - 1, b) + if bases[i - 1] == b {
            1nat
        } else {
            0nat
        }
    }
}

/// The anchor numbered `n` for a slug: the slug itself for 0, else the slug,
/// `-` and `n`.
pub open spec fn anchor_for(base: Seq<char>, n: nat) -> Seq<char> {
    if n == 0 {
        base
    } else {
        base + seq!['-'] + decimal(n)
    }
}

/// The first number from `n` on whose anchor is not taken, trying at most
/// `fuel` numbers.
pub open spec fn free_number(base: Seq<char>, n: nat, taken: Seq<Seq<char>>, fuel: nat) -> nat
    decreases fuel,
{
    if fuel == 0 || !taken.contains(anchor_for(base, n)) {
        n
    } else {
        free_number(base, n + 1, taken, (fuel - 1) as nat)
    }
}

/// The anchors of a document's headings, in document order: a heading whose
/// slug occurred `k` times before gets the first anchor numbered `k` or more
/// that no earlier heading has (numbered 0, the slug itself, when `k` is 0
/// and the slug is free).
pub open spec fn anchors(texts: Seq<Seq<char>>) -> Seq<Seq<char>>
    decreases texts.len(),
{
    if texts.len() == 0 {
        Seq::empty()
    } else {
        let prev = anchors(texts.drop_last());
        let bases = texts.map_values(|t: Seq<char>| slug(t));
        let b = slug(texts.last());
        let k = count_before(bases, texts.len() - 1, b);
        prev.push(anchor_for(b, free_number(b, k, prev, prev.len() + 1)))
    }
}

pub proof fn lemma_anchors_len(texts: Seq<Seq<char>>)
    ensures
        anchors(texts).len() == texts.len(),
    decreases texts.len(),
{
    if texts.len() > 0 {
        lemma_anchors_len(texts.drop_last());
    }
}

/// Different numbers give different anchors.
proof fn lemma_anchor_injective(base: Seq<char>, m: nat, n: nat)
    requires
        anchor_for(base, m) == anchor_for(base, n),
    ensures
        m == n,
{
    lemma_decimal_digits(m);
    lemma_decimal_digits(n);
    if m != 0 && n != 0 {
        let a = anchor_for(base, m);
        assert(a.subrange(base.len() + 1 as int, a.len() as int) =~= decimal(m));
        assert(anchor_for(base, n).subrange(base.len() + 1 as int, a.len() as int) =~= decimal(n));
    } else if m != 0 || n != 0 {
        assert(anchor_for(base, m).len() != anchor_for(base, n).len());
    }
}

/// Among more numbers than there are taken anchors, one has a free anchor.
proof fn lemma_free_among(base: Seq<char>, nums: Set<int>, taken: Seq<Seq<char>>)
    requires
        nums.finite(),
        nums.len() > taken.len(),
        forall|m: int| nums.contains(m) ==> m >= 0,
    ensures
        exists|m: int| nums.contains(m) && !taken.contains(anchor_for(base, m as nat)),
    decreases taken.len(),
{
    if taken.len() == 0 {
        let m = nums.choose();
        assert(nums.len() != 0);
        assert(nums.contains(m));
    } else {
        let x = taken.last();
        let rest = taken.drop_last();
        let rem = if exists|m0: int| nums.contains(m0) && anchor_for(base, m0 as nat) == x {
            let m0 = choose|m0: int| nums.contains(m0) && anchor_for(base, m0 as nat) == x;
            nums.remove(m0)
        } else {
            nums
        };
        assert(rem.len() > rest.len());
        lemma_free_among(base, rem, rest);
        let m = choose|m: int| rem.contains(m) && !rest.contains(anchor_for(base, m as nat));
        if anchor_for(base, m as nat) == x {
            let m0 = choose|m0: int| nums.contains(m0) && anchor_for(base, m0 as nat) == x;
            lemma_anchor_injective(base, m as nat, m0 as nat);
        }
        assert forall|j: int| 0 <= j < taken.len() implies taken[j] != anchor_for(base, m as nat) by {
            if j < rest.len() {
                assert(taken[j] == rest[j]);
            }
        }
    }
}

/// `free_number` finds a free anchor when some number it tries has one.
proof fn lemma_free_number(base: Seq<char>, n: nat, taken: Seq<Seq<char>>, fuel: nat, w: nat)
    requires
        n <= w < n + fuel,
        !taken.contains(anchor_for(base, w)),
    ensures
        !taken.contains(anchor_for(base, free_number(base, n, taken, fuel))),
    decreases fuel,
{
    if taken.contains(anchor_for(base, n)) {
        lemma_free_number(base, n + 1, taken, (fuel - 1) as nat, w);
    }
}

/// No two headings get the same anchor: each link to an anchor leads to
/// one heading.
pub proof fn anchors_are_unique(texts: Seq<Seq<char>>)
    ensures
        forall|i: int, j: int|
            0 <= i < j < anchors(texts).len() ==> anchors(texts)[i] != anchors(texts)[j],
    decreases texts.len(),
{
    if texts.len() > 0 {
        let prev = anchors(texts.drop_last());
        anchors_are_unique(texts.drop_last());
        let bases = texts.map_values(|t: Seq<char>| slug(t));
        let b = slug(texts.last());
        let k = count_before(bases, texts.len() - 1, b);
        let lo = k as int;
        let nums = vstd::set_lib::set_int_range(lo, lo + prev.len() + 1);
        vstd::set_lib::lemma_int_range(lo, lo + prev.len() + 1);
        lemma_free_among(b, nums, prev);
        let w = choose|m: int| nums.contains(m) && !prev.contains(anchor_for(b, m as nat));
        lemma_free_number(b, k, prev, prev.len() + 1, w as nat);
        let a = anchors(texts);
        assert forall|i: int, j: int| 0 <= i < j < a.len() implies a[i] != a[j] by {
            if j < prev.len() {
                assert(a[i] == prev[i] && a[j] == prev[j]);
            } else {
                assert(a[i] == prev[i]);
            }
        }
    }
}

/// The texts of a slice of string slices.
pub open spec fn str_views(v: Seq<&str>) -> Seq<Seq<char>> {
    v.map_values(|t: &str| t@)
}

/// Whether `x` is among the texts.
fn listed(v: &Vec<String>, x: &[char]) -> (r: bool)
    ensures
        r == string_views(v@).contains(x@),
{
    let mut i: usize = 0;
    while i < v.len()
        invariant
            i <= v@.len(),
            forall|k: int| 0 <= k < i ==> string_views(v@)[k] != x@,
        decreases v.len() - i,
    {
        let t = chars_of(v[i].as_str());
        if same_chars(t.as_slice(), x) {
            assert(string_views(v@)[i as int] == x@);
            return true;
        }
        i += 1;
    }
    false
}

/// The anchor numbered `n` for the slug `base`.
fn anchor_chars(base: &[char], n: u128) -> (r: Vec<char>)
    ensures
        r@ == anchor_for(base@, n as nat),
{
    let mut a: Vec<char> = slice(base, 0, base.len());
    assert(a@ =~= base@);
    if n > 0 {
        a.push('-');
        let d = decimal_u128(n);
        push_all(&mut a, d.as_slice());
    }
    a
}

/// Compute unique anchor slugs for a document's headings, in document order:
/// a heading whose slug occurred `k` times before gets `-k` appended (the
/// slug alone for `k = 0`), or the next number up whose anchor no earlier
/// heading has.
pub fn heading_anchors(heading_texts: &[&str]) -> (r: Vec<String>)
    ensures
        string_views(r@) == anchors(str_views(heading_texts@)),
{
    let ghost texts = str_views(heading_texts@);
    let ghost bases = texts.map_values(|t: Seq<char>| slug(t));
    let n = heading_texts.len();
    let mut slugs: Vec<Vec<char>> = Vec::new();
    let mut k: usize = 0;
    while k < n
        invariant
            n == heading_texts@.len(),
            texts == str_views(heading_texts@),
            bases == texts.map_values(|t: Seq<char>| slug(t)),
            k <= n,
            slugs@.len() == k,
            forall|m: int| 0 <= m < k ==> #[trigger] slugs@[m]@ == bases[m],
        decreases n - k,
    {
        let s = heading_slug(heading_texts[k]);
        slugs.push(chars_of(s.as_str()));
        k += 1;
    }
    let mut out: Vec<String> = Vec::new();
    let mut i: usize = 0;
    assert(texts.take(0) =~= Seq::<Seq<char>>::empty());
    while i < n
        invariant
            n == heading_texts@.len(),
            texts == str_views(heading_texts@),
            bases == texts.map_values(|t: Seq<char>| slug(t)),
            slugs@.len() == n,
            forall|m: int| 0 <= m < n ==> #[trigger] slugs@[m]@ == bases[m],
            i <= n,
            out@.len() == i,
            string_views(out@) == anchors(texts.take(i as int)),
        decreases n - i,
    {
        let ghost pre = texts.take(i as int);
        let ghost cur = texts.take(i + 1);
        assert(cur.drop_last() =~= pre);
        let ghost cb = cur.map_values(|t: Seq<char>| slug(t));
        assert(cur.last() == texts[i as int]);
        proof {
            lemma_count_prefix(bases, cb, i as int, bases[i as int]);
        }
        let mut seen: usize = 0;
        let mut j: usize = 0;
        while j < i
            invariant
                i < n,
                slugs@.len() == n,
                forall|m: int| 0 <= m < n ==> #[trigger] slugs@[m]@ == bases[m],
                j <= i,
                seen <= j,
                seen == count_before(bases, j as int, bases[i as int]),
            decreases i - j,
        {
            if same_chars(slugs[j].as_slice(), slugs[i].as_slice()) {
                seen += 1;
            }
            j += 1;
        }
        let ghost taken = string_views(out@);
        let olen = out.len();
        let mut num: u128 = seen as u128;
        let mut fuel: u128 = olen as u128 + 1;
        let mut cand = anchor_chars(slugs[i].as_slice(), num);
        while fuel > 0 && listed(&out, cand.as_slice())
            invariant
                taken == string_views(out@),
                slugs@.len() == n,
                i < n,
                olen == out@.len(),
                num as int + fuel as int == seen as int + olen + 1,
                fuel <= olen + 1,
                cand@ == anchor_for(slugs@[i as int]@, num as nat),
                free_number(slugs@[i as int]@, seen as nat, taken, (out@.len() + 1) as nat)
                    == free_number(slugs@[i as int]@, num as nat, taken, fuel as nat),
            decreases fuel,
        {
            num = num + 1;
            fuel = fuel - 1;
            cand = anchor_chars(slugs[i].as_slice(), num);
        }
        out.push(string_of(cand.as_slice()));
        assert(string_views(out@) =~= taken.push(cand@));
        i += 1;
    }
    assert(texts.take(n as int) =~= texts);
    out
}

/// Counting among the first `i` slugs is the same in any sequence that
/// agrees with them there.
proof fn lemma_count_prefix(a: Seq<Seq<char>>, b: Seq<Seq<char>>, i: int, x: Seq<char>)
    requires
        0 <= i <= a.len(),
        i <= b.len(),
        forall|m: int| 0 <= m < i ==> a[m] == b[m],
    ensures
        count_before(a, i, x) == count_before(b, i, x),
    decreases i,
{
    if i > 0 {
        lemma_count_prefix(a, b, i - 1, x);
    }
}

// ---------------------------------------------------------------------------
// Targets and URLs
// ---------------------------------------------------------------------------

/// A link destination split at its first `#`: the note part, and the
/// fragment after the `#` if there is one.
pub open spec fn split_at_hash(d: Seq<char>) -> (Seq<char>, Option<Seq<char>>) {
    match first_index_of(d, '#') {
        Some(i) => (d.take(i), Some(d.skip(i + 1))),
        None => (d, None),
    }
}

/// Split a link destination into its note part and optional `#fragment` (on
/// the first `#`; a trailing `#` yields an empty fragment).
pub fn split_target(dest: &str) -> (r: (&str, Option<&str>))
    ensures
        r.0@ == split_at_hash(dest@).0,
        match r.1 {
            Some(f) => split_at_hash(dest@).1 == Some(f@),
            None => split_at_hash(dest@).1 is None,
        },
{
    let cs = chars_of(dest);
    let n = cs.len();
    match find_char(cs.as_slice(), '#') {
        Some(i) => (dest.substring_char(0, i), Some(dest.substring_char(i + 1, n))),
        None => (dest, None),
    }
}

/// `piki://`.
pub open spec fn piki_slashes() -> Seq<char> {
    seq!['p', 'i', 'k', 'i', ':', '/', '/']
}

/// `piki:`.
pub open spec fn piki_colon() -> Seq<char> {
    seq!['p', 'i', 'k', 'i', ':']
}

/// The `piki://` URL of `note`, with `#anchor` when the anchor is not empty;
/// path and anchor percent-encoded (the path keeping its `/`).
pub open spec fn piki_url(note: Seq<char>, anchor: Seq<char>) -> Seq<char> {
    let base = piki_slashes() + ascii_text(escaped(encode_utf8(note), true));
    if anchor.len() > 0 {
        base + seq!['#'] + ascii_text(escaped(encode_utf8(anchor), false))
    } else {
        base
    }
}

/// The anchor text of an optional anchor; no anchor reads as an empty one.
pub open spec fn anchor_text(anchor: Option<&str>) -> Seq<char> {
    match anchor {
        Some(a) => a@,
        None => seq![],
    }
}

fn scheme_prefix() -> (r: Vec<char>)
    ensures
        r@ == piki_colon(),
{
    let mut r = chars_of(URL_SCHEME);
    proof {
        reveal_strlit("piki");
    }
    r.push(':');
    assert(r@ =~= piki_colon());
    r
}

/// Build the `piki://` URL form of a link to `note`, optionally at `anchor`
/// (an empty anchor is no anchor).
pub fn build_piki_url(note: &str, anchor: Option<&str>) -> (r: String)
    ensures
        r@ == piki_url(note@, anchor_text(anchor)),
{
    let mut url = scheme_prefix();
    url.push('/');
    url.push('/');
    let path = encode_path(note);
    push_all(&mut url, path.as_slice());
    assert(url@ =~= piki_slashes() + ascii_text(escaped(encode_utf8(note@), true)));
    if let Some(a) = anchor {
        if !a.is_empty() {
            url.push('#');
            let f = encode_fragment(a);
            push_all(&mut url, f.as_slice());
        }
    }
    string_of(url.as_slice())
}

/// The length of the `piki://` or `piki:` prefix of `t` (in any ASCII case).
pub open spec fn scheme_len(t: Seq<char>) -> Option<int> {
    if starts_with(lowered(t), piki_slashes()) {
        Some(7)
    } else if starts_with(lowered(t), piki_colon()) {
        Some(5)
    } else {
        None
    }
}

/// What a link destination is stored as: a `piki:` URL (after trimming) is
/// reduced to its percent-decoded `note#fragment`; anything else stays as it
/// is, untrimmed.
pub open spec fn normalized_target(input: Seq<char>) -> Seq<char> {
    let t = trim(input);
    match scheme_len(t) {
        Some(k) => read_utf8(percent_decoded(encode_utf8(t.skip(k)))),
        None => input,
    }
}

/// The length of a leading `piki://` or `piki:`, ignoring ASCII case.
fn strip_scheme(t: &[char]) -> (r: Option<usize>)
    ensures
        match r {
            Some(k) => scheme_len(t@) == Some(k as int) && k <= t@.len(),
            None => scheme_len(t@) is None,
        },
{
    let mut p = scheme_prefix();
    let colon_only = slice(p.as_slice(), 0, p.len());
    p.push('/');
    p.push('/');
    assert(p@ =~= piki_slashes());
    if starts_with_ignoring_case(t, p.as_slice()) {
        Some(7)
    } else if starts_with_ignoring_case(t, colon_only.as_slice()) {
        assert(colon_only@ =~= piki_colon());
        Some(5)
    } else {
        assert(colon_only@ =~= piki_colon());
        None
    }
}

/// Normalize a link destination for storage in a note: a `piki:` URL is
/// stripped back to the internal `note#fragment` form, percent-decoded;
/// anything else is returned unchanged.
pub fn normalize_link_target(input: &str) -> (r: String)
    ensures
        r@ == normalized_target(input@),
{
    let cs = chars_of(input);
    let t = trimmed(cs.as_slice());
    match strip_scheme(t.as_slice()) {
        Some(k) => {
            let rest = slice(t.as_slice(), k, t.len());
            assert(rest@ =~= t@.skip(k as int));
            let text = string_of(rest.as_slice());
            percent_decode(text.as_str())
        },
        None => string_of(cs.as_slice()),
    }
}

// ---------------------------------------------------------------------------
// The URL form and the stored form agree
// ---------------------------------------------------------------------------

/// The stored form of a link to `note` at `anchor`.
pub open spec fn with_section(note: Seq<char>, anchor: Seq<char>) -> Seq<char> {
    if anchor.len() > 0 {
        note + seq!['#'] + anchor
    } else {
        note
    }
}

/// The bytes after `piki://` in the URL of `note` at `anchor`.
pub open spec fn url_bytes(note: Seq<char>, anchor: Seq<char>) -> Seq<u8> {
    let e = escaped(encode_utf8(note), true);
    if anchor.len() > 0 {
        e + (seq![35u8] + escaped(encode_utf8(anchor), false))
    } else {
        e
    }
}

/// An ASCII byte that reads as no whitespace.
pub open spec fn plain_ascii(b: u8) -> bool {
    b < 128 && !is_ws(b as char)
}

proof fn lemma_safe_char(b: u8)
    requires
        url_safe(b) || b == 35,
    ensures
        plain_ascii(b),
        (b as char) as u32 == b as u32,
{
}

proof fn lemma_url_shape(note: Seq<char>, anchor: Seq<char>)
    ensures
        piki_url(note, anchor) == piki_slashes() + ascii_text(url_bytes(note, anchor)),
        forall|k: int|
            0 <= k < url_bytes(note, anchor).len() ==> plain_ascii(
                #[trigger] url_bytes(note, anchor)[k],
            ),
{
    let e = escaped(encode_utf8(note), true);
    let f = escaped(encode_utf8(anchor), false);
    let bs = url_bytes(note, anchor);
    lemma_escaped_safe(encode_utf8(note), true);
    lemma_escaped_safe(encode_utf8(anchor), false);
    if anchor.len() > 0 {
        assert(ascii_text(bs) =~= ascii_text(e) + seq!['#'] + ascii_text(f));
    } else {
        assert(ascii_text(bs) =~= ascii_text(e));
    }
    assert forall|k: int| 0 <= k < bs.len() implies plain_ascii(#[trigger] bs[k]) by {
        if k < e.len() {
            assert(bs[k] == e[k]);
            lemma_safe_char(e[k]);
        } else if k == e.len() {
            lemma_safe_char(35u8);
        } else {
            assert(bs[k] == f[k - e.len() - 1]);
            lemma_safe_char(f[k - e.len() - 1]);
        }
    }
}

proof fn lemma_url_scheme(note: Seq<char>, anchor: Seq<char>)
    ensures
        trim(piki_url(note, anchor)) == piki_url(note, anchor),
        scheme_len(piki_url(note, anchor)) == Some(7int),
        piki_url(note, anchor).skip(7) == ascii_text(url_bytes(note, anchor)),
{
    lemma_url_shape(note, anchor);
    let bs = url_bytes(note, anchor);
    let url = piki_url(note, anchor);
    assert(url[0] == 'p');
    assert(trim_start(url) == url);
    if bs.len() > 0 {
        assert(url.last() == ascii_text(bs).last());
        assert(plain_ascii(bs.last()));
    } else {
        assert(url.last() == '/');
    }
    assert(trim_end(url) == url);
    assert(lowered(url).subrange(0, 7) =~= piki_slashes());
    assert(url.skip(7) =~= ascii_text(bs));
}

proof fn lemma_url_decodes(note: Seq<char>, anchor: Seq<char>)
    ensures
        percent_decoded(url_bytes(note, anchor)) == encode_utf8(with_section(note, anchor)),
{
    let nb = encode_utf8(note);
    let ab = encode_utf8(anchor);
    let f = escaped(ab, false);
    if anchor.len() > 0 {
        let tail = seq![35u8] + f;
        lemma_decode_escaped(nb, true, tail);
        lemma_decode_escaped(ab, false, Seq::<u8>::empty());
        assert(f + Seq::<u8>::empty() =~= f);
        assert(tail.drop_first() =~= f);
        assert(percent_decoded(tail) =~= seq![35u8] + ab);
        let hash = seq!['#'];
        assert(encode_utf8(hash) == seq![35u8]) by {
            assert(hash =~= ascii_text(seq![35u8]));
            lemma_ascii_text_bytes(seq![35u8]);
        }
        lemma_encode_utf8_concat(note, hash);
        lemma_encode_utf8_concat(note + hash, anchor);
        assert(percent_decoded(url_bytes(note, anchor)) =~= nb + (seq![35u8] + ab));
    } else {
        lemma_decode_escaped(nb, true, Seq::<u8>::empty());
        let e = escaped(nb, true);
        assert(e + Seq::<u8>::empty() =~= e);
        assert(nb + Seq::<u8>::empty() =~= nb);
    }
}

/// Normalizing the URL that `build_piki_url` makes gives back the internal
/// `note#anchor` form (just `note` when the anchor is empty).
pub proof fn normalize_undoes_build(note: Seq<char>, anchor: Seq<char>)
    ensures
        normalized_target(piki_url(note, anchor)) == with_section(note, anchor),
{
    lemma_url_shape(note, anchor);
    lemma_url_scheme(note, anchor);
    let bs = url_bytes(note, anchor);
    assert(encode_utf8(ascii_text(bs)) == bs) by {
        assert forall|k: int| 0 <= k < bs.len() implies #[trigger] bs[k] < 128 by {
            assert(plain_ascii(bs[k]));
        }
        lemma_ascii_text_bytes(bs);
    }
    lemma_url_decodes(note, anchor);
    let target = with_section(note, anchor);
    encode_utf8_valid_utf8(target);
    encode_utf8_decode_utf8(target);
}

} // verus!
