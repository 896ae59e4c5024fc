//! Percent-encoding of note paths and fragments for URLs, and its inverse.
//!
//! Encoding works on the UTF-8 bytes of the text: a byte that may stand in a
//! URL as it is stays (as an ASCII character), every other byte becomes `%XX`
//! with upper-case hex digits. Decoding turns each well-formed `%XX` back into
//! its byte, leaves anything else (a stray `%`) alone, and reads the bytes as
//! UTF-8, replacing what is not valid.
use vstd::prelude::*;
use vstd::utf8::*;

verus! {

/// RFC 3986 unreserved bytes: ASCII letters and digits and `-` `.` `_` `~`.
pub open spec fn is_unreserved(b: u8) -> bool {
    ||| 48 <= b <= 57
    ||| 65 <= b <= 90
    ||| 97 <= b <= 122
    ||| b == 45 || b == 46 || b == 95 || b == 126
}

/// Bytes written as they are: unreserved ones, and `/` when encoding a path.
pub open spec fn kept(b: u8, keep_slash: bool) -> bool {
    is_unreserved(b) || (keep_slash && b == 47)
}

/// The upper-case hex digit (as an ASCII byte) for `n < 16`.
pub open spec fn hex_digit(n: u8) -> u8 {
    if n < 10 {
        (48 + n) as u8
    } else {
        (55 + n) as u8
    }
}

/// The value of an ASCII hex digit of either case.
pub open spec fn hex_value(b: u8) -> Option<u8> {
    if 48 <= b <= 57 {
        Some((b - 48) as u8)
    } else if 97 <= b <= 102 {
        Some((b - 87) as u8)
    } else if 65 <= b <= 70 {
        Some((b - 55) as u8)
    } else {
        None
    }
}

/// How one byte is written: itself, or `%` and two hex digits.
pub open spec fn escape_byte(b: u8, keep_slash: bool) -> Seq<u8> {
    if kept(b, keep_slash) {
        seq![b]
    } else {
        seq![37u8, hex_digit(b / 16), hex_digit(b % 16)]
    }
}

/// The percent-encoding of a byte sequence.
pub open spec fn escaped(bs: Seq<u8>, keep_slash: bool) -> Seq<u8>
    decreases bs.len(),
{
    if bs.len() == 0 {
        seq![]
    } else {
        escaped(bs.drop_last(), keep_slash) + escape_byte(bs.last(), keep_slash)
    }
}

/// Bytes read as characters one for one (the ASCII reading).
pub open spec fn ascii_text(bs: Seq<u8>) -> Seq<char> {
    bs.map_values(|b: u8| b as char)
}

/// Percent-decoding of a byte sequence: each `%` followed by two hex digits is
/// the byte they spell; every other byte stands for itself.
pub open spec fn percent_decoded(bs: Seq<u8>) -> Seq<u8>
    decreases bs.len(),
{
    if bs.len() == 0 {
        seq![]
    } else if bs[0] == 37 && bs.len() > 2 && hex_value(bs[1]) is Some && hex_value(bs[2]) is Some {
        seq![(hex_value(bs[1])->0 * 16 + hex_value(bs[2])->0) as u8] + percent_decoded(
            bs.subrange(3, bs.len() as int),
        )
    } else {
        seq![bs[0]] + percent_decoded(bs.drop_first())
    }
}

/// What `String::from_utf8_lossy` makes of a byte sequence.
pub uninterp spec fn lossy_utf8(b: Seq<u8>) -> Seq<char>;

/// `String::from_utf8_lossy`: the text named by `lossy_utf8`; on valid UTF-8 it
/// is the decoding of the bytes, as std documents. What it substitutes for
/// invalid sequences is left to the name.
#[verifier::external_body]
pub(crate) fn utf8_lossy(b: &[u8]) -> (r: String)
    ensures
        r@ == lossy_utf8(b@),
        valid_utf8(b@) ==> r@ == decode_utf8(b@),
{
    String::from_utf8_lossy(b).into_owned()
}

/// The text UTF-8 bytes stand for: their decoding when they are valid UTF-8,
/// otherwise what `String::from_utf8_lossy` makes of them.
pub open spec fn read_utf8(b: Seq<u8>) -> Seq<char> {
    if valid_utf8(b) {
        decode_utf8(b)
    } else {
        lossy_utf8(b)
    }
}

pub fn hex_char(n: u8) -> (c: char)
    requires
        n < 16,
    ensures
        c == hex_digit(n) as char,
{
    if n < 10 {
        (48 + n) as char
    } else {
        (55 + n) as char
    }
}

/// The value of an ASCII hex digit, if `b` is one.
pub fn hex_val(b: u8) -> (r: Option<u8>)
    ensures
        r == hex_value(b),
{
    if 48 <= b && b <= 57 {
        Some(b - 48)
    } else if 97 <= b && b <= 102 {
        Some(b - 87)
    } else if 65 <= b && b <= 70 {
        Some(b - 55)
    } else {
        None
    }
}

fn is_kept(b: u8, keep_slash: bool) -> (r: bool)
    ensures
        r == kept(b, keep_slash),
{
    (48 <= b && b <= 57) || (65 <= b && b <= 90) || (97 <= b && b <= 122) || b == 45 || b == 46
        || b == 95 || b == 126 || (keep_slash && b == 47)
}

/// Percent-encode the UTF-8 bytes of `s`, keeping `/` when `keep_slash`.
pub fn encode_with(s: &str, keep_slash: bool) -> (r: Vec<char>)
    ensures
        r@ == ascii_text(escaped(encode_utf8(s@), keep_slash)),
{
    let bytes = s.as_bytes();
    let n = bytes.len();
    let mut out: Vec<char> = Vec::new();
    let mut i: usize = 0;
    while i < n
        invariant
            n == bytes@.len(),
            i <= n,
            bytes@ == encode_utf8(s@),
            out@ == ascii_text(escaped(bytes@.take(i as int), keep_slash)),
        decreases n - i,
    {
        let b = bytes[i];
        let ghost before = escaped(bytes@.take(i as int), keep_slash);
        assert(bytes@.take(i + 1).drop_last() =~= bytes@.take(i as int));
        if is_kept(b, keep_slash) {
            out.push(b as char);
        } else {
            out.push('%');
            out.push(hex_char(b / 16));
            out.push(hex_char(b % 16));
        }
        assert(out@ =~= ascii_text(before + escape_byte(b, keep_slash)));
        i += 1;
    }
    assert(bytes@.take(n as int) =~= bytes@);
    out
}

/// Percent-encode a note path, preserving `/` separators.
pub fn encode_path(s: &str) -> (r: Vec<char>)
    ensures
        r@ == ascii_text(escaped(encode_utf8(s@), true)),
{
    encode_with(s, true)
}

/// Percent-encode a single URL component (a fragment), encoding `/` too.
pub fn encode_fragment(s: &str) -> (r: Vec<char>)
    ensures
        r@ == ascii_text(escaped(encode_utf8(s@), false)),
{
    encode_with(s, false)
}

/// Percent-decode `s` and read the bytes as UTF-8 (lossily). A `%` that is
/// not followed by two hex digits is kept as it is.
pub fn percent_decode(s: &str) -> (r: String)
    ensures
        r@ == read_utf8(percent_decoded(encode_utf8(s@))),
{
    let bytes = s.as_bytes();
    let n = bytes.len();
    let mut out: Vec<u8> = Vec::new();
    let mut i: usize = 0;
    assert(bytes@.subrange(0, n as int) =~= bytes@);
    assert(out@ + bytes@ =~= bytes@);
    while i < n
        invariant
            n == bytes@.len(),
            i <= n,
            out@ + percent_decoded(bytes@.subrange(i as int, n as int)) == percent_decoded(
                bytes@,
            ),
        decreases n - i,
    {
        let ghost rest = bytes@.subrange(i as int, n as int);
        if bytes[i] == 37 && n - i > 2 {
            let hi = hex_val(bytes[i + 1]);
            let lo = hex_val(bytes[i + 2]);
            if let (Some(h), Some(l)) = (hi, lo) {
                assert(rest.subrange(3, rest.len() as int) =~= bytes@.subrange(i + 3, n as int));
                out.push(h * 16 + l);
                assert(out@ + percent_decoded(bytes@.subrange(i + 3, n as int)) =~= percent_decoded(
                    bytes@,
                ));
                i += 3;
                continue;
            }
        }
        assert(rest.drop_first() =~= bytes@.subrange(i + 1, n as int));
        out.push(bytes[i]);
        assert(out@ + percent_decoded(bytes@.subrange(i + 1, n as int)) =~= percent_decoded(
            bytes@,
        ));
        i += 1;
    }
    assert(out@ =~= percent_decoded(bytes@)) by {
        assert(bytes@.subrange(n as int, n as int) =~= Seq::<u8>::empty());
    }
    utf8_lossy(out.as_slice())
}

// ---------------------------------------------------------------------------
// Decoding undoes encoding
// ---------------------------------------------------------------------------

/// Encoding distributes over concatenation.
pub proof fn lemma_escaped_concat(a: Seq<u8>, b: Seq<u8>, keep_slash: bool)
    ensures
        escaped(a + b, keep_slash) == escaped(a, keep_slash) + escaped(b, keep_slash),
    decreases b.len(),
{
    if b.len() == 0 {
        assert(a + b =~= a);
    } else {
        assert((a + b).drop_last() =~= a + b.drop_last());
        lemma_escaped_concat(a, b.drop_last(), keep_slash);
        assert(escaped(a + b, keep_slash) =~= escaped(a, keep_slash) + escaped(b, keep_slash));
    }
}

proof fn lemma_hex_roundtrip(n: u8)
    requires
        n < 16,
    ensures
        hex_value(hex_digit(n)) == Some(n),
{
}

/// Decoding an encoded byte sequence gives it back, whatever follows.
pub proof fn lemma_decode_escaped(bs: Seq<u8>, keep_slash: bool, rest: Seq<u8>)
    ensures
        percent_decoded(escaped(bs, keep_slash) + rest) == bs + percent_decoded(rest),
    decreases bs.len(),
{
    if bs.len() == 0 {
        assert(escaped(bs, keep_slash) + rest =~= rest);
        assert(bs + percent_decoded(rest) =~= percent_decoded(rest));
    } else {
        let b = bs[0];
        let t = bs.drop_first();
        assert(bs =~= seq![b] + t);
        lemma_escaped_concat(seq![b], t, keep_slash);
        assert(escaped(seq![b], keep_slash) =~= escape_byte(b, keep_slash)) by {
            assert(seq![b].drop_last() =~= Seq::<u8>::empty());
            assert(escaped(Seq::<u8>::empty(), keep_slash) =~= Seq::<u8>::empty());
            assert(seq![b].last() == b);
        }
        let tail = escaped(t, keep_slash) + rest;
        let whole = escaped(bs, keep_slash) + rest;
        assert(whole =~= escape_byte(b, keep_slash) + tail);
        lemma_decode_escaped(t, keep_slash, rest);
        if kept(b, keep_slash) {
            assert(whole.drop_first() =~= tail);
        } else {
            lemma_hex_roundtrip(b / 16);
            lemma_hex_roundtrip(b % 16);
            assert(whole.subrange(3, whole.len() as int) =~= tail);
            assert((b / 16) * 16 + b % 16 == b);
        }
        assert(percent_decoded(whole) =~= bs + percent_decoded(rest));
    }
}

/// Percent-decoding a text's encoding (with or without `/` kept) gives the
/// text back.
pub proof fn decode_undoes_encode(s: Seq<char>, keep_slash: bool)
    ensures
        read_utf8(percent_decoded(encode_utf8(ascii_text(escaped(encode_utf8(s), keep_slash))))) == s,
{
    let e = escaped(encode_utf8(s), keep_slash);
    lemma_escaped_safe(encode_utf8(s), keep_slash);
    assert forall|k: int| 0 <= k < e.len() implies #[trigger] e[k] < 128 by {
        assert(url_safe(e[k]));
    }
    lemma_ascii_text_bytes(e);
    lemma_decode_escaped(encode_utf8(s), keep_slash, Seq::empty());
    assert(e + Seq::<u8>::empty() =~= e);
    assert(percent_decoded(Seq::<u8>::empty()) =~= Seq::<u8>::empty());
    assert(encode_utf8(s) + Seq::<u8>::empty() =~= encode_utf8(s));
    encode_utf8_valid_utf8(s);
    encode_utf8_decode_utf8(s);
}

/// Every byte an encoding produces is an ASCII byte that is no whitespace and
/// no `#`: a kept byte, `%`, or an upper-case hex digit.
pub open spec fn url_safe(b: u8) -> bool {
    kept(b, true) || b == 37 || (65 <= b <= 70)
}

pub proof fn lemma_escaped_safe(bs: Seq<u8>, keep_slash: bool)
    ensures
        forall|k: int|
            0 <= k < escaped(bs, keep_slash).len() ==> url_safe(
                #[trigger] escaped(bs, keep_slash)[k],
            ),
        bs.len() > 0 ==> escaped(bs, keep_slash).len() > 0,
    decreases bs.len(),
{
    if bs.len() > 0 {
        lemma_escaped_safe(bs.drop_last(), keep_slash);
        let e = escaped(bs, keep_slash);
        let p = escaped(bs.drop_last(), keep_slash);
        let q = escape_byte(bs.last(), keep_slash);
        assert forall|k: int| 0 <= k < e.len() implies url_safe(#[trigger] e[k]) by {
            if k < p.len() {
                assert(e[k] == p[k]);
            } else {
                assert(e[k] == q[k - p.len()]);
            }
        }
    }
}

/// The ASCII reading of ASCII bytes encodes back to the same bytes.
pub proof fn lemma_ascii_text_bytes(bs: Seq<u8>)
    requires
        forall|k: int| 0 <= k < bs.len() ==> #[trigger] bs[k] < 128,
    ensures
        encode_utf8(ascii_text(bs)) == bs,
{
    let cs = ascii_text(bs);
    assert(is_ascii_chars(cs)) by {
        assert forall|k: int| 0 <= k < cs.len() implies '\0' <= #[trigger] cs[k] <= '\u{7f}' by {
            assert(cs[k] == bs[k] as char);
        }
    }
    is_ascii_chars_encode_utf8(cs);
    assert forall|k: int| 0 <= k < bs.len() implies encode_utf8(cs)[k] == bs[k] by {
        assert(cs[k] as u8 == encode_utf8(cs)[k]);
        assert(cs[k] == bs[k] as char);
    }
    assert(encode_utf8(cs) =~= bs);
}

/// UTF-8 encoding distributes over concatenation.
pub proof fn lemma_encode_utf8_concat(a: Seq<char>, b: Seq<char>)
    ensures
        encode_utf8(a + b) == encode_utf8(a) + encode_utf8(b),
    decreases a.len(),
{
    if a.len() == 0 {
        assert(a + b =~= b);
        assert(encode_utf8(a) + encode_utf8(b) =~= encode_utf8(b));
    } else {
        assert((a + b).drop_first() =~= a.drop_first() + b);
        lemma_encode_utf8_concat(a.drop_first(), b);
        assert(encode_utf8(a + b) =~= encode_utf8(a) + encode_utf8(b));
    }
}

} // verus!
