//! Which texts `rtf_parser` 0.4.3 cannot read without panicking.
//!
//! The parser panics, instead of reporting an error, on four things in the
//! body of a document: a run of adjacent `\u`/`\'hh` escapes that leaves a
//! UTF-16 surrogate unpaired once the fallback characters of the current
//! `\ucN` are dropped (it unwraps `String::from_utf16`); a run met while the
//! `\ucN` in force is negative (it allocates `N + 1` places); a `\sl` with
//! the smallest `i32` (it takes the absolute value); and a color table of
//! 65535 colors or more (its color counter is a `u16`). The check below
//! follows the parser's token stream for these, tracking `\ucN` through the
//! groups as the parser does. It treats every token as body: the header
//! groups the parser skips, a document the parser refuses before its body, and
//! an error that stops it, can only make the check refuse more.
use vstd::prelude::*;
use rtf_parser::lexer::Lexer;
use rtf_parser::tokens::{ControlWord, Property, Token};

verus! {

/// A token of the parser's lexer, as far as the check needs it: the number
/// that follows a control word is kept where it matters.
#[derive(Debug, Clone, Copy, PartialEq, Eq, Structural)]
pub enum RtfTok {
    Open,
    Close,
    /// `\uN` or `\'hh`.
    Unicode(Option<i32>),
    /// `\ucN`.
    IgnoreCount(Option<i32>),
    /// `\slN`.
    LineSpacing(Option<i32>),
    /// `\blueN`.
    ColorBlue,
    Other,
}

/// The tokens `rtf_parser`'s lexer makes of a text, `None` when it refuses
/// it.
pub uninterp spec fn rtf_tokens(text: Seq<char>) -> Option<Seq<RtfTok>>;

/// `rtf_parser::lexer::Lexer::scan` (which `RtfDocument::try_from` runs
/// first): each token told apart as far as `RtfTok` goes, with the number
/// of a `Property::Value`; `None` when the lexer reports an error. Named by
/// `rtf_tokens`.
#[verifier::external_body]
fn rtf_lex(text: &str) -> (r: Option<Vec<RtfTok>>)
    ensures
        match r {
            Some(v) => rtf_tokens(text@) == Some(v@),
            None => rtf_tokens(text@) is None,
        },
{
    let tokens = Lexer::scan(text).ok()?;
    let value = |p: &Property| match p { Property::Value(v) => Some(*v), _ => None };
    Some(tokens.iter().map(|t| match t {
        Token::OpeningBracket => RtfTok::Open,
        Token::ClosingBracket => RtfTok::Close,
        Token::ControlSymbol((ControlWord::Unicode, p)) => RtfTok::Unicode(value(p)),
        Token::ControlSymbol((ControlWord::UnicodeIgnoreCount, p)) => RtfTok::IgnoreCount(value(p)),
        Token::ControlSymbol((ControlWord::SpaceBetweenLine, p)) => RtfTok::LineSpacing(value(p)),
        Token::ControlSymbol((ControlWord::ColorBlue, _)) => RtfTok::ColorBlue,
        _ => RtfTok::Other,
    }).collect())
}

/// The number a control word carries as the parser reads it (`get_value`):
/// 0 when it has none.
pub open spec fn prop_value(p: Option<i32>) -> int {
    match p {
        Some(v) => v as int,
        None => 0,
    }
}

/// The UTF-16 unit a `\u` escape stands for (`get_unicode_value`): a
/// negative number counts from 65536; `None` outside the unit range.
pub open spec fn unit_of(p: Option<i32>) -> Option<int> {
    match p {
        Some(v) => {
            let u: int = if v < 0 { v + 65536 } else { v as int };
            if 0 <= u <= 65535 { Some(u) } else { None }
        },
        None => None,
    }
}

/// How many escape tokens follow one another from index `i` on.
pub open spec fn run_len(ts: Seq<RtfTok>, i: int) -> nat
    decreases ts.len() - i,
{
    if 0 <= i < ts.len() && ts[i] is Unicode {
        1 + run_len(ts, i + 1)
    } else {
        0
    }
}

/// A run of escapes ends within the tokens.
pub proof fn lemma_run_len_bound(ts: Seq<RtfTok>, i: int)
    requires
        0 <= i <= ts.len(),
    ensures
        run_len(ts, i) <= ts.len() - i,
    decreases ts.len() - i,
{
    if i < ts.len() {
        lemma_run_len_bound(ts, i + 1);
    }
}

/// The units of the first `n` escapes from index `i`, those in range.
pub open spec fn run_units(ts: Seq<RtfTok>, i: int, n: nat) -> Seq<int>
    decreases n,
{
    if n == 0 {
        Seq::empty()
    } else {
        let prev = run_units(ts, i, (n - 1) as nat);
        match ts[i + n - 1] {
            RtfTok::Unicode(p) => match unit_of(p) {
                Some(u) => prev.push(u),
                None => prev,
            },
            _ => prev,
        }
    }
}

/// The units from index `k` on with fallback characters dropped: a unit up
/// to 255 goes while fewer than `uc` have gone in a row; any unit kept
/// restarts the count.
pub open spec fn masked_from(us: Seq<int>, k: int, counter: int, uc: int) -> Seq<int>
    decreases us.len() - k,
{
    if k < 0 || k >= us.len() {
        Seq::empty()
    } else if us[k] <= 255 && counter < uc {
        masked_from(us, k + 1, counter + 1, uc)
    } else {
        seq![us[k]] + masked_from(us, k + 1, 0, uc)
    }
}

/// A run's units after the fallback mask: the first always stays.
pub open spec fn masked(us: Seq<int>, uc: int) -> Seq<int> {
    if us.len() == 0 {
        Seq::empty()
    } else {
        seq![us[0]] + masked_from(us, 1, 0, uc)
    }
}

pub open spec fn is_high(u: int) -> bool {
    0xD800 <= u <= 0xDBFF
}

pub open spec fn is_low(u: int) -> bool {
    0xDC00 <= u <= 0xDFFF
}

/// UTF-16 from index `k` on decodes: every high surrogate is followed by a
/// low one, and no low surrogate stands alone.
pub open spec fn utf16_ok(s: Seq<int>, k: int) -> bool
    decreases s.len() - k,
{
    if k < 0 || k >= s.len() {
        true
    } else if is_high(s[k]) {
        k + 1 < s.len() && is_low(s[k + 1]) && utf16_ok(s, k + 2)
    } else if is_low(s[k]) {
        false
    } else {
        utf16_ok(s, k + 1)
    }
}

/// The `\ucN` in force: that of the innermost group.
pub open spec fn top(stack: Seq<int>) -> int {
    stack.last()
}

/// Whether the body from token `i` on, with the `\ucN` of the open groups in
/// `stack`, makes the parser panic. An empty stack stops the parser with an
/// error at any token but `{`, which opens a group with the default count 1.
pub open spec fn panics_from(ts: Seq<RtfTok>, i: int, stack: Seq<int>) -> bool
    decreases ts.len() - i,
{
    if i < 0 || i >= ts.len() {
        false
    } else if stack.len() == 0 {
        match ts[i] {
            RtfTok::Open => panics_from(ts, i + 1, seq![1]),
            _ => false,
        }
    } else {
        match ts[i] {
            RtfTok::Open => panics_from(ts, i + 1, stack.push(top(stack))),
            RtfTok::Close => panics_from(ts, i + 1, stack.drop_last()),
            RtfTok::IgnoreCount(p) => panics_from(
                ts,
                i + 1,
                stack.update(stack.len() - 1, prop_value(p)),
            ),
            RtfTok::LineSpacing(p) => prop_value(p) == i32::MIN || panics_from(ts, i + 1, stack),
            RtfTok::Unicode(_) => {
                let n = run_len(ts, i);
                proof {
                    lemma_run_len_bound(ts, i);
                    assert(n == 1 + run_len(ts, i + 1));
                }
                top(stack) < 0 || !utf16_ok(masked(run_units(ts, i, n), top(stack)), 0)
                    || panics_from(ts, i + n, stack)
            },
            _ => panics_from(ts, i + 1, stack),
        }
    }
}

/// How many `\blueN` tokens the text holds.
pub open spec fn blue_count(ts: Seq<RtfTok>) -> nat
    decreases ts.len(),
{
    if ts.len() == 0 {
        0
    } else {
        blue_count(ts.drop_last()) + if ts.last() is ColorBlue { 1nat } else { 0nat }
    }
}

/// Whether reading the tokens may make the parser panic.
pub open spec fn parser_panics(ts: Seq<RtfTok>) -> bool {
    panics_from(ts, 0, seq![1]) || blue_count(ts) >= 65535
}

/// A text the parser reads without panicking: one its lexer refuses (it
/// then reports an error), or whose tokens give none of the panics above.
pub open spec fn rtf_safe(text: Seq<char>) -> bool {
    match rtf_tokens(text) {
        Some(ts) => !parser_panics(ts),
        None => true,
    }
}

/// Numbers as integers.
pub open spec fn ints(v: Seq<u32>) -> Seq<int> {
    v.map_values(|x: u32| x as int)
}

/// `\ucN` counts as integers.
pub open spec fn counts(v: Seq<i32>) -> Seq<int> {
    v.map_values(|x: i32| x as int)
}

fn prop_value_exec(p: Option<i32>) -> (r: i32)
    ensures
        r as int == prop_value(p),
{
    match p {
        Some(v) => v,
        None => 0,
    }
}

fn unit_exec(p: Option<i32>) -> (r: Option<u32>)
    ensures
        match r {
            Some(u) => unit_of(p) == Some(u as int),
            None => unit_of(p) is None,
        },
{
    match p {
        Some(v) => {
            let u: i64 = if v < 0 { v as i64 + 65536 } else { v as i64 };
            if 0 <= u && u <= 65535 {
                Some(u as u32)
            } else {
                None
            }
        },
        None => None,
    }
}

/// Where the run of escapes starting at `i` ends.
fn run_end(ts: &Vec<RtfTok>, i: usize) -> (r: usize)
    requires
        i <= ts@.len(),
    ensures
        r as int == i + run_len(ts@, i as int),
        r <= ts@.len(),
{
    let mut j = i;
    while j < ts.len() && matches!(ts[j], RtfTok::Unicode(_))
        invariant
            i <= j <= ts@.len(),
            run_len(ts@, i as int) == (j - i) + run_len(ts@, j as int),
        decreases ts.len() - j,
    {
        j += 1;
    }
    j
}

fn run_units_exec(ts: &Vec<RtfTok>, i: usize, n: usize) -> (r: Vec<u32>)
    requires
        i + n <= ts@.len(),
    ensures
        ints(r@) == run_units(ts@, i as int, n as nat),
{
    let mut out: Vec<u32> = Vec::new();
    let mut k: usize = 0;
    assert(ints(out@) =~= run_units(ts@, i as int, 0));
    while k < n
        invariant
            k <= n,
            i + n <= ts@.len(),
            ints(out@) == run_units(ts@, i as int, k as nat),
        decreases n - k,
    {
        let ghost before = out@;
        let total = ts.len();
        assert(i + k < total);
        if let RtfTok::Unicode(p) = ts[i + k] {
            if let Some(u) = unit_exec(p) {
                out.push(u);
                assert(ints(out@) =~= ints(before).push(u as int));
            }
        }
        k += 1;
    }
    out
}

fn masked_exec(us: &Vec<u32>, uc: i32) -> (r: Vec<u32>)
    ensures
        ints(r@) == masked(ints(us@), uc as int),
{
    let ghost v = ints(us@);
    let mut out: Vec<u32> = Vec::new();
    if us.len() == 0 {
        assert(ints(out@) =~= masked(v, uc as int));
        return out;
    }
    out.push(us[0]);
    let mut k: usize = 1;
    let mut counter: i64 = 0;
    assert(ints(out@) =~= seq![v[0]]);
    while k < us.len()
        invariant
            1 <= k <= us@.len(),
            0 <= counter <= k,
            v == ints(us@),
            masked(v, uc as int) == ints(out@) + masked_from(v, k as int, counter as int, uc as int),
        decreases us.len() - k,
    {
        let ghost before = ints(out@);
        if us[k] <= 255 && counter < uc as i64 {
            counter += 1;
        } else {
            out.push(us[k]);
            assert(ints(out@) =~= before.push(v[k as int]));
            assert(before + (seq![v[k as int]] + masked_from(v, k + 1, 0, uc as int)) =~= ints(out@)
                + masked_from(v, k + 1, 0, uc as int));
            counter = 0;
        }
        k += 1;
    }
    assert(ints(out@) + masked_from(v, k as int, counter as int, uc as int) =~= ints(out@));
    out
}

fn utf16_ok_exec(s: &Vec<u32>) -> (r: bool)
    ensures
        r == utf16_ok(ints(s@), 0),
{
    let ghost v = ints(s@);
    let mut k: usize = 0;
    while k < s.len()
        invariant
            k <= s@.len(),
            v == ints(s@),
            utf16_ok(v, 0) == utf16_ok(v, k as int),
        decreases s.len() - k,
    {
        let u = s[k];
        if 0xD800 <= u && u <= 0xDBFF {
            if k + 1 < s.len() && 0xDC00 <= s[k + 1] && s[k + 1] <= 0xDFFF {
                k += 2;
            } else {
                return false;
            }
        } else if 0xDC00 <= u && u <= 0xDFFF {
            return false;
        } else {
            k += 1;
        }
    }
    true
}

fn blue_count_exec(ts: &Vec<RtfTok>) -> (r: u64)
    ensures
        r as nat == blue_count(ts@),
{
    let mut n: u64 = 0;
    let mut k: usize = 0;
    assert(ts@.take(0) =~= Seq::<RtfTok>::empty());
    while k < ts.len()
        invariant
            k <= ts@.len(),
            n as nat == blue_count(ts@.take(k as int)),
            n <= k,
        decreases ts.len() - k,
    {
        assert(ts@.take(k + 1).drop_last() =~= ts@.take(k as int));
        if matches!(ts[k], RtfTok::ColorBlue) {
            n += 1;
        }
        k += 1;
    }
    assert(ts@.take(k as int) =~= ts@);
    n
}

/// Whether reading the tokens may make the parser panic (see
/// `parser_panics`).
pub fn parser_would_panic(ts: &Vec<RtfTok>) -> (r: bool)
    ensures
        r == parser_panics(ts@),
{
    if blue_count_exec(ts) >= 65535 {
        return true;
    }
    let mut stack: Vec<i32> = Vec::new();
    stack.push(1);
    assert(counts(stack@) =~= seq![1int]);
    let mut i: usize = 0;
    while i < ts.len()
        invariant
            i <= ts@.len(),
            panics_from(ts@, 0, seq![1]) == panics_from(ts@, i as int, counts(stack@)),
            blue_count(ts@) < 65535,
        decreases ts.len() - i,
    {
        let ghost st = counts(stack@);
        if stack.len() == 0 {
            match ts[i] {
                RtfTok::Open => {
                    stack.push(1);
                    assert(counts(stack@) =~= seq![1int]);
                    i += 1;
                },
                _ => return false,
            }
        } else {
            let last = stack.len() - 1;
            let uc = stack[last];
            assert(top(st) == uc as int);
            match ts[i] {
                RtfTok::Open => {
                    stack.push(uc);
                    assert(counts(stack@) =~= st.push(top(st)));
                    i += 1;
                },
                RtfTok::Close => {
                    stack.pop();
                    assert(counts(stack@) =~= st.drop_last());
                    i += 1;
                },
                RtfTok::IgnoreCount(p) => {
                    let v = prop_value_exec(p);
                    stack.set(last, v);
                    assert(counts(stack@) =~= st.update(st.len() - 1, prop_value(p)));
                    i += 1;
                },
                RtfTok::LineSpacing(p) => {
                    if prop_value_exec(p) == i32::MIN {
                        return true;
                    }
                    i += 1;
                },
                RtfTok::Unicode(_) => {
                    if uc < 0 {
                        return true;
                    }
                    let end = run_end(ts, i);
                    proof {
                        lemma_run_len_bound(ts@, i as int);
                    }
                    let us = run_units_exec(ts, i, end - i);
                    let m = masked_exec(&us, uc);
                    if !utf16_ok_exec(&m) {
                        return true;
                    }
                    i = end;
                },
                _ => {
                    i += 1;
                },
            }
        }
    }
    false
}

/// Whether the parser reads the text without panicking (see `rtf_safe`).
pub fn rtf_text_safe(text: &str) -> (r: bool)
    ensures
        r == rtf_safe(text@),
{
    match rtf_lex(text) {
        Some(ts) => !parser_would_panic(&ts),
        None => true,
    }
}

} // verus!
