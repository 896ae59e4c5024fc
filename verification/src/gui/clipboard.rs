//! Pasting: deciding whether pasted plain text is Markdown source or literal
//! lines, and the errors reading the clipboard can end in.
//!
//! Prose from a document, a mail or a PDF is full of things that look vaguely
//! like Markdown, so a single hint is never enough. Evidence comes in two
//! grades: syntax that essentially cannot occur by accident (a fenced code
//! block, a table delimiter row, a checklist marker, an inline link, a link
//! reference, an ATX heading), or a pattern of block markers (text made mostly
//! of list and quote lines, or several different constructs used together).
use vstd::prelude::*;
use crate::text::{
    chars_of, contains, count_matches, count_occurrences, find_char, find_first,
    first_index_of, first_occurrence, has_char, has_prefix, is_ascii_digit, is_ascii_numeric,
    is_blank, lines, lines_of, occurs_at, slice, starts_with, trim, trim_start, trimmed,
    trimmed_start, views,
};

verus! {

/// Why no document could be read from the clipboard.
#[derive(Debug)]
pub enum ClipboardDocumentError {
    Empty,
    ClipboardUnavailable(String),
    Parse(String),
}

// ---------------------------------------------------------------------------
// Line predicates
// ---------------------------------------------------------------------------

/// `s` begins with exactly `k` characters `c`.
pub open spec fn run_of(s: Seq<char>, k: int, c: char) -> bool {
    &&& 0 <= k <= s.len()
    &&& forall|i: int| 0 <= i < k ==> #[trigger] s[i] == c
    &&& (k == s.len() || s[k] != c)
}

/// `s` begins with exactly `k` ASCII digits.
pub open spec fn digit_run(s: Seq<char>, k: int) -> bool {
    &&& 0 <= k <= s.len()
    &&& forall|i: int| 0 <= i < k ==> is_ascii_digit(#[trigger] s[i])
    &&& (k == s.len() || !is_ascii_digit(s[k]))
}

/// `# ` … `###### ` with text after it.
pub open spec fn is_atx_heading(line: Seq<char>) -> bool {
    exists|k: int|
        #![trigger run_of(line, k, '#')]
        run_of(line, k, '#') && 1 <= k <= 6 && starts_with(line.skip(k), seq![' ']) && trim(
            line.skip(k),
        ).len() > 0
}

/// A table's delimiter row: a `-` and a `|`, and only pipes, dashes, colons
/// and spaces.
pub open spec fn is_table_delimiter_row(line: Seq<char>) -> bool {
    &&& line.contains('-')
    &&& line.contains('|')
    &&& forall|i: int|
        0 <= i < line.len() ==> #[trigger] line[i] == '|' || line[i] == '-' || line[i] == ':'
            || line[i] == ' '
}

/// The text after a `- `, `* ` or `+ ` bullet marker.
pub open spec fn bullet_body(line: Seq<char>) -> Option<Seq<char>> {
    if starts_with(line, seq!['-', ' ']) || starts_with(line, seq!['*', ' ']) || starts_with(
        line,
        seq!['+', ' '],
    ) {
        Some(line.skip(2))
    } else {
        None
    }
}

pub open spec fn is_bullet_item(line: Seq<char>) -> bool {
    bullet_body(line) matches Some(b) && trim(b).len() > 0
}

/// A checklist marker: a bullet whose body starts with `[ ]`, `[x]` or `[X]`.
pub open spec fn is_task_item(line: Seq<char>) -> bool {
    bullet_body(line) matches Some(b) && (starts_with(trim_start(b), seq!['[', ' ', ']'])
        || starts_with(trim_start(b), seq!['[', 'x', ']']) || starts_with(
        trim_start(b),
        seq!['[', 'X', ']'],
    ))
}

/// `1. ` or `1) ` (one to nine digits) with text after it.
pub open spec fn is_ordered_item(line: Seq<char>) -> bool {
    exists|k: int|
        #![trigger digit_run(line, k)]
        digit_run(line, k) && 1 <= k <= 9 && (starts_with(line.skip(k), seq!['.', ' '])
            || starts_with(line.skip(k), seq![')', ' '])) && trim(line.skip(k + 2)).len() > 0
}

/// A link reference definition, `[id]: target`, with a non-empty id and
/// target.
pub open spec fn is_link_reference(line: Seq<char>) -> bool {
    line.len() > 0 && line[0] == '[' && match first_occurrence(line.skip(1), seq![']', ':', ' ']) {
        Some(i) => i > 0 && trim(line.skip(1).skip(i + 3)).len() > 0,
        None => false,
    }
}

/// An inline link or image, `[text](target)`: before the first `](` a `[`,
/// and up to the next `)` a non-empty target without spaces.
pub open spec fn contains_inline_link(line: Seq<char>) -> bool {
    match first_occurrence(line, seq![']', '(']) {
        Some(i) => line.take(i).contains('[') && match first_index_of(line.skip(i + 2), ')') {
            Some(j) => trim(line.skip(i + 2).take(j)).len() > 0 && !trim(
                line.skip(i + 2).take(j),
            ).contains(' '),
            None => false,
        },
        None => false,
    }
}

/// Paired strong inline markers on one line: `**bold**`, `` `code` ``,
/// `~~struck~~`.
pub open spec fn paired_markers(line: Seq<char>) -> nat {
    count_matches(line, seq!['*', '*']) / 2 + count_matches(line, seq!['`']) / 2 + count_matches(
        line,
        seq!['~', '~'],
    ) / 2
}

// ---------------------------------------------------------------------------
// What the lines of a text show
// ---------------------------------------------------------------------------

/// The start of a fenced code block.
pub open spec fn fence_line(l: Seq<char>) -> bool {
    starts_with(trim(l), seq!['`', '`', '`']) || starts_with(trim(l), seq!['~', '~', '~'])
}

pub open spec fn pipe_line(l: Seq<char>) -> bool {
    trim(l).contains('|')
}

/// Syntax that cannot occur by accident.
pub open spec fn decisive_line(l: Seq<char>) -> bool {
    let t = trim(l);
    is_atx_heading(t) || is_task_item(t) || is_link_reference(t) || contains_inline_link(t)
}

pub open spec fn bullet_line(l: Seq<char>) -> bool {
    is_bullet_item(trim_start(l))
}

pub open spec fn ordered_line(l: Seq<char>) -> bool {
    !bullet_line(l) && is_ordered_item(trim_start(l))
}

pub open spec fn quote_line(l: Seq<char>) -> bool {
    !bullet_line(l) && !ordered_line(l) && starts_with(trim_start(l), seq!['>'])
}

pub open spec fn non_blank_line(l: Seq<char>) -> bool {
    trim(l).len() > 0
}

pub open spec fn fence_pred() -> spec_fn(Seq<char>) -> bool {
    |l: Seq<char>| fence_line(l)
}

pub open spec fn pipe_pred() -> spec_fn(Seq<char>) -> bool {
    |l: Seq<char>| pipe_line(l)
}

pub open spec fn bullet_pred() -> spec_fn(Seq<char>) -> bool {
    |l: Seq<char>| bullet_line(l)
}

pub open spec fn ordered_pred() -> spec_fn(Seq<char>) -> bool {
    |l: Seq<char>| ordered_line(l)
}

pub open spec fn quote_pred() -> spec_fn(Seq<char>) -> bool {
    |l: Seq<char>| quote_line(l)
}

pub open spec fn non_blank_pred() -> spec_fn(Seq<char>) -> bool {
    |l: Seq<char>| non_blank_line(l)
}

/// How many lines satisfy `f`.
pub open spec fn count_lines(ls: Seq<Seq<char>>, f: spec_fn(Seq<char>) -> bool) -> nat
    decreases ls.len(),
{
    if ls.len() == 0 {
        0
    } else {
        count_lines(ls.drop_last(), f) + if f(ls.last()) {
            1nat
        } else {
            0nat
        }
    }
}

/// The paired inline markers of all lines (each taken after its leading
/// whitespace).
pub open spec fn inline_total(ls: Seq<Seq<char>>) -> nat
    decreases ls.len(),
{
    if ls.len() == 0 {
        0
    } else {
        inline_total(ls.drop_last()) + paired_markers(trim_start(ls.last()))
    }
}

pub open spec fn flag(b: bool) -> nat {
    if b {
        1
    } else {
        0
    }
}

/// Whether pasted text is to be read as Markdown source rather than as
/// literal lines.
pub open spec fn markdown_evidence(text: Seq<char>) -> bool {
    let ls = lines(text);
    let fences = count_lines(ls, fence_pred());
    let pipes = count_lines(ls, pipe_pred());
    let delimiter_row = exists|i: int|
        0 <= i < ls.len() && pipe_line(ls[i]) && is_table_delimiter_row(trim(ls[i]));
    let decisive = exists|i: int| 0 <= i < ls.len() && decisive_line(ls[i]);
    let bullets = count_lines(ls, bullet_pred());
    let ordered = count_lines(ls, ordered_pred());
    let quotes = count_lines(ls, quote_pred());
    let inline = inline_total(ls);
    let non_blank = count_lines(ls, non_blank_pred());
    let markers = bullets + ordered + quotes;
    let kinds = flag(bullets > 0) + flag(ordered > 0) + flag(quotes > 0) + flag(inline > 0);
    ||| decisive
    ||| fences >= 2
    ||| delimiter_row && pipes >= 2
    ||| !text.contains('\n') && inline > 0
    ||| markers >= 2 && markers * 2 >= non_blank
    ||| kinds >= 2 && markers + inline >= 3
}

/// A numbered list item: one to nine digits, `.` or `)`, a space, and some
/// text.
pub open spec fn numbered_item(l: Seq<char>) -> bool {
    exists|k: int|
        1 <= k <= 9 && k + 2 <= l.len() && (forall|i: int| 0 <= i < k ==> is_ascii_digit(#[trigger] l[i]))
            && (l[k] == '.' || l[k] == ')') && l[k + 1] == ' ' && trim(#[trigger] l.skip(k + 2)).len() > 0
}

pub open spec fn numbered_pred() -> spec_fn(Seq<char>) -> bool {
    |l: Seq<char>| numbered_item(trim_start(l))
}

proof fn lemma_count_mono(ls: Seq<Seq<char>>, f: spec_fn(Seq<char>) -> bool, g: spec_fn(Seq<char>) -> bool)
    requires
        forall|l: Seq<char>| #[trigger] f(l) ==> g(l),
    ensures
        count_lines(ls, f) <= count_lines(ls, g),
    decreases ls.len(),
{
    if ls.len() > 0 {
        lemma_count_mono(ls.drop_last(), f, g);
    }
}

proof fn lemma_numbered_is_ordered(l: Seq<char>)
    requires
        numbered_item(trim_start(l)),
    ensures
        ordered_line(l),
{
    let t = trim_start(l);
    let k = choose|k: int|
        1 <= k <= 9 && k + 2 <= t.len() && (forall|i: int| 0 <= i < k ==> is_ascii_digit(#[trigger] t[i]))
            && (t[k] == '.' || t[k] == ')') && t[k + 1] == ' ' && trim(#[trigger] t.skip(k + 2)).len() > 0;
    assert(is_ascii_digit(t[0]));
    assert(digit_run(t, k));
    assert(t.skip(k).subrange(0, 2) =~= seq![t[k], ' ']);
    assert(t.skip(k).skip(2) =~= t.skip(k + 2));
    assert(is_ordered_item(t));
    if bullet_body(t) is Some {
        assert(t[0] == '-' || t[0] == '*' || t[0] == '+');
    }
}

/// A paste whose non-blank lines are at least half numbered list items, two
/// or more of them, is read as Markdown (a numbered list), not as literal
/// lines.
pub proof fn numbered_lists_read_as_markdown(text: Seq<char>)
    requires
        count_lines(lines(text), numbered_pred()) >= 2,
        2 * count_lines(lines(text), numbered_pred()) >= count_lines(lines(text), non_blank_pred()),
    ensures
        markdown_evidence(text),
{
    let ls = lines(text);
    assert forall|l: Seq<char>| #[trigger] numbered_pred()(l) implies ordered_pred()(l) by {
        lemma_numbered_is_ordered(l);
    }
    lemma_count_mono(ls, numbered_pred(), ordered_pred());
}

// ---------------------------------------------------------------------------
// The predicates, executed
// ---------------------------------------------------------------------------

fn run_length(s: &[char], c: char) -> (k: usize)
    ensures
        run_of(s@, k as int, c),
{
    let mut k: usize = 0;
    while k < s.len() && s[k] == c
        invariant
            k <= s@.len(),
            forall|i: int| 0 <= i < k ==> #[trigger] s@[i] == c,
        decreases s.len() - k,
    {
        k += 1;
    }
    k
}

fn digit_length(s: &[char]) -> (k: usize)
    ensures
        digit_run(s@, k as int),
{
    let mut k: usize = 0;
    while k < s.len() && is_ascii_numeric(s[k])
        invariant
            k <= s@.len(),
            forall|i: int| 0 <= i < k ==> is_ascii_digit(#[trigger] s@[i]),
        decreases s.len() - k,
    {
        k += 1;
    }
    k
}

fn pattern2(a: char, b: char) -> (r: Vec<char>)
    ensures
        r@ == seq![a, b],
{
    let mut r: Vec<char> = Vec::new();
    r.push(a);
    r.push(b);
    assert(r@ =~= seq![a, b]);
    r
}

fn pattern3(a: char, b: char, c: char) -> (r: Vec<char>)
    ensures
        r@ == seq![a, b, c],
{
    let mut r: Vec<char> = Vec::new();
    r.push(a);
    r.push(b);
    r.push(c);
    assert(r@ =~= seq![a, b, c]);
    r
}

fn atx_heading(line: &[char]) -> (r: bool)
    ensures
        r == is_atx_heading(line@),
{
    let k = run_length(line, '#');
    proof {
        assert forall|k2: int| run_of(line@, k2, '#') implies k2 == k by {
            if k2 < k {
                assert(line@[k2] == '#');
            } else if k2 > k {
                assert(line@[k as int] == '#');
            }
        }
    }
    if k < 1 || k > 6 {
        return false;
    }
    let rest = slice(line, k, line.len());
    assert(rest@ =~= line@.skip(k as int));
    let space = pattern2(' ', ' ');
    let r = rest.len() > 0 && rest[0] == ' ' && !is_blank(rest.as_slice());
    proof {
        if rest@.len() > 0 && rest@[0] == ' ' {
            assert(rest@.subrange(0, 1) =~= seq![' ']);
        }
        if starts_with(rest@, seq![' ']) {
            assert(rest@.subrange(0, 1)[0] == ' ');
        }
    }
    r
}

fn table_delimiter_row(line: &[char]) -> (r: bool)
    ensures
        r == is_table_delimiter_row(line@),
{
    if !has_char(line, '-') || !has_char(line, '|') {
        return false;
    }
    let mut i: usize = 0;
    while i < line.len()
        invariant
            i <= line@.len(),
            forall|j: int|
                0 <= j < i ==> #[trigger] line@[j] == '|' || line@[j] == '-' || line@[j] == ':'
                    || line@[j] == ' ',
        decreases line.len() - i,
    {
        let c = line[i];
        if !(c == '|' || c == '-' || c == ':' || c == ' ') {
            return false;
        }
        i += 1;
    }
    true
}

fn starts_with_chars(s: &[char], p: &[char]) -> (r: bool)
    ensures
        r == starts_with(s@, p@),
{
    has_prefix(s, p)
}

/// The body after a bullet marker, as a copy.
fn bullet_body_of(line: &[char]) -> (r: Option<Vec<char>>)
    ensures
        match r {
            Some(b) => bullet_body(line@) == Some(b@),
            None => bullet_body(line@) is None,
        },
{
    let dash = pattern2('-', ' ');
    let star = pattern2('*', ' ');
    let plus = pattern2('+', ' ');
    if starts_with_chars(line, dash.as_slice()) || starts_with_chars(line, star.as_slice())
        || starts_with_chars(line, plus.as_slice()) {
        let b = slice(line, 2, line.len());
        assert(b@ =~= line@.skip(2));
        Some(b)
    } else {
        None
    }
}

fn bullet_item(line: &[char]) -> (r: bool)
    ensures
        r == is_bullet_item(line@),
{
    match bullet_body_of(line) {
        Some(b) => !is_blank(b.as_slice()),
        None => false,
    }
}

fn task_item(line: &[char]) -> (r: bool)
    ensures
        r == is_task_item(line@),
{
    match bullet_body_of(line) {
        Some(b) => {
            let t = trimmed_start(b.as_slice());
            let open = pattern3('[', ' ', ']');
            let lower = pattern3('[', 'x', ']');
            let upper = pattern3('[', 'X', ']');
            starts_with_chars(t.as_slice(), open.as_slice()) || starts_with_chars(
                t.as_slice(),
                lower.as_slice(),
            ) || starts_with_chars(t.as_slice(), upper.as_slice())
        },
        None => false,
    }
}

fn ordered_item(line: &[char]) -> (r: bool)
    ensures
        r == is_ordered_item(line@),
{
    let k = digit_length(line);
    proof {
        assert forall|k2: int| digit_run(line@, k2) implies k2 == k by {
            if k2 < k {
                assert(is_ascii_digit(line@[k2]));
            } else if k2 > k {
                assert(is_ascii_digit(line@[k as int]));
            }
        }
    }
    if k == 0 || k > 9 {
        return false;
    }
    let rest = slice(line, k, line.len());
    assert(rest@ =~= line@.skip(k as int));
    let dot = pattern2('.', ' ');
    let paren = pattern2(')', ' ');
    if !(starts_with_chars(rest.as_slice(), dot.as_slice()) || starts_with_chars(
        rest.as_slice(),
        paren.as_slice(),
    )) {
        return false;
    }
    let after = slice(rest.as_slice(), 2, rest.len());
    assert(after@ =~= line@.skip(k + 2));
    !is_blank(after.as_slice())
}

fn link_reference(line: &[char]) -> (r: bool)
    ensures
        r == is_link_reference(line@),
{
    if line.len() == 0 || line[0] != '[' {
        return false;
    }
    let rest = slice(line, 1, line.len());
    assert(rest@ =~= line@.skip(1));
    let sep = pattern3(']', ':', ' ');
    let n = rest.len();
    match find_first(rest.as_slice(), sep.as_slice()) {
        Some(i) => {
            let target = slice(rest.as_slice(), i + 3, n);
            assert(target@ =~= line@.skip(1).skip(i + 3));
            i > 0 && !is_blank(target.as_slice())
        },
        None => false,
    }
}

fn inline_link(line: &[char]) -> (r: bool)
    ensures
        r == contains_inline_link(line@),
{
    let sep = pattern2(']', '(');
    let n = line.len();
    match find_first(line, sep.as_slice()) {
        Some(i) => {
            let before = slice(line, 0, i);
            assert(before@ =~= line@.take(i as int));
            if !has_char(before.as_slice(), '[') {
                return false;
            }
            let after = slice(line, i + 2, n);
            assert(after@ =~= line@.skip(i + 2));
            let m = after.len();
            match find_char(after.as_slice(), ')') {
                Some(j) => {
                    let target = slice(after.as_slice(), 0, j);
                    assert(target@ =~= line@.skip(i + 2).take(j as int));
                    let t = trimmed(target.as_slice());
                    t.len() > 0 && !has_char(t.as_slice(), ' ')
                },
                None => false,
            }
        },
        None => false,
    }
}

fn paired_inline_markers(line: &[char]) -> (r: u128)
    ensures
        r == paired_markers(line@),
        r <= line@.len(),
{
    let bold = pattern2('*', '*');
    let mut tick: Vec<char> = Vec::new();
    tick.push('`');
    assert(tick@ =~= seq!['`']);
    let strike = pattern2('~', '~');
    let a = count_occurrences(line, bold.as_slice());
    let b = count_occurrences(line, tick.as_slice());
    let c = count_occurrences(line, strike.as_slice());
    assert(a * 2 <= line@.len() && c * 2 <= line@.len() && b <= line@.len());
    assert(a / 2 + b / 2 + c / 2 <= line@.len()) by (nonlinear_arith)
        requires
            a * 2 <= line@.len(),
            c * 2 <= line@.len(),
            b <= line@.len(),
    ;
    (a / 2) as u128 + (b / 2) as u128 + (c / 2) as u128
}

// ---------------------------------------------------------------------------
// The decision
// ---------------------------------------------------------------------------

proof fn lemma_count_step(ls: Seq<Seq<char>>, i: int, f: spec_fn(Seq<char>) -> bool)
    requires
        0 <= i < ls.len(),
    ensures
        count_lines(ls.take(i + 1), f) == count_lines(ls.take(i), f) + flag(f(ls[i])),
{
    assert(ls.take(i + 1).drop_last() =~= ls.take(i));
    assert(ls.take(i + 1).last() == ls[i]);
}

proof fn lemma_inline_step(ls: Seq<Seq<char>>, i: int)
    requires
        0 <= i < ls.len(),
    ensures
        inline_total(ls.take(i + 1)) == inline_total(ls.take(i)) + paired_markers(
            trim_start(ls[i]),
        ),
{
    assert(ls.take(i + 1).drop_last() =~= ls.take(i));
    assert(ls.take(i + 1).last() == ls[i]);
}

/// Whether pasted text should be read as Markdown source rather than as
/// literal lines. A lone `- …` line in a page of prose stays literal, while
/// `- a`/`- b`/`- c` is a bullet list.
pub fn looks_like_markdown(text: &str) -> (r: bool)
    ensures
        r == markdown_evidence(text@),
{
    let cs = chars_of(text);
    let ls = lines_of(cs.as_slice());
    let ghost lv = views(ls@);
    let n = ls.len();
    let mut fences: usize = 0;
    let mut pipes: usize = 0;
    let mut delimiter_row = false;
    let mut i: usize = 0;
    assert(lv.take(0) =~= Seq::<Seq<char>>::empty());
    while i < n
        invariant
            n == ls@.len(),
            lv == views(ls@),
            lv == lines(cs@),
            cs@ == text@,
            i <= n,
            fences as nat == count_lines(lv.take(i as int), fence_pred()),
            pipes as nat == count_lines(lv.take(i as int), pipe_pred()),
            fences <= i && pipes <= i,
            delimiter_row == exists|j: int|
                0 <= j < i && pipe_line(lv[j]) && is_table_delimiter_row(trim(lv[j])),
            forall|j: int| 0 <= j < i ==> !decisive_line(#[trigger] lv[j]),
        decreases n - i,
    {
        let raw = &ls[i];
        assert(lv[i as int] == raw@);
        let line = trimmed(raw.as_slice());
        let tick3 = pattern3('`', '`', '`');
        let tilde3 = pattern3('~', '~', '~');
        proof {
            lemma_count_step(lv, i as int, fence_pred());
            lemma_count_step(lv, i as int, pipe_pred());
        }
        if starts_with_chars(line.as_slice(), tick3.as_slice()) || starts_with_chars(
            line.as_slice(),
            tilde3.as_slice(),
        ) {
            fences += 1;
        }
        if has_char(line.as_slice(), '|') {
            pipes += 1;
            if table_delimiter_row(line.as_slice()) {
                delimiter_row = true;
            }
        }
        if atx_heading(line.as_slice()) || task_item(line.as_slice()) || link_reference(
            line.as_slice(),
        ) || inline_link(line.as_slice()) {
            assert(decisive_line(lv[i as int]));
            return true;
        }
        i += 1;
    }
    assert(lv.take(n as int) =~= lv);
    if fences >= 2 || (delimiter_row && pipes >= 2) {
        return true;
    }
    let mut bullets: usize = 0;
    let mut ordered: usize = 0;
    let mut quotes: usize = 0;
    let mut non_blank: usize = 0;
    let mut inline: u128 = 0;
    let mut k: usize = 0;
    while k < n
        invariant
            n == ls@.len(),
            lv == views(ls@),
            k <= n,
            bullets as nat == count_lines(lv.take(k as int), bullet_pred()),
            ordered as nat == count_lines(lv.take(k as int), ordered_pred()),
            quotes as nat == count_lines(lv.take(k as int), quote_pred()),
            non_blank as nat == count_lines(lv.take(k as int), non_blank_pred()),
            inline as nat == inline_total(lv.take(k as int)),
            bullets + ordered + quotes <= k,
            non_blank <= k,
            inline <= k * 0xFFFF_FFFF_FFFF_FFFFu128,
        decreases n - k,
    {
        let raw = &ls[k];
        assert(lv[k as int] == raw@);
        let line = trimmed_start(raw.as_slice());
        proof {
            lemma_count_step(lv, k as int, bullet_pred());
            lemma_count_step(lv, k as int, ordered_pred());
            lemma_count_step(lv, k as int, quote_pred());
            lemma_count_step(lv, k as int, non_blank_pred());
            lemma_inline_step(lv, k as int);
        }
        if bullet_item(line.as_slice()) {
            bullets += 1;
        } else if ordered_item(line.as_slice()) {
            ordered += 1;
        } else if line.len() > 0 && line[0] == '>' {
            assert(starts_with(line@, seq!['>'])) by {
                assert(line@.subrange(0, 1) =~= seq!['>']);
            }
            quotes += 1;
        } else {
            proof {
                if starts_with(line@, seq!['>']) {
                    assert(line@.subrange(0, 1)[0] == '>');
                }
            }
        }
        let p = paired_inline_markers(line.as_slice());
        assert(line@.len() <= 0xFFFF_FFFF_FFFF_FFFF);
        inline = inline + p;
        if !is_blank(raw.as_slice()) {
            non_blank += 1;
        }
        k += 1;
    }
    assert(lv.take(n as int) =~= lv);
    let single_line = !has_char(cs.as_slice(), '\n');
    if single_line && inline > 0 {
        return true;
    }
    let markers: u128 = bullets as u128 + ordered as u128 + quotes as u128;
    if markers >= 2 && markers * 2 >= non_blank as u128 {
        return true;
    }
    let mut kinds: u128 = 0;
    if bullets > 0 {
        kinds += 1;
    }
    if ordered > 0 {
        kinds += 1;
    }
    if quotes > 0 {
        kinds += 1;
    }
    if inline > 0 {
        kinds += 1;
    }
    kinds >= 2 && (markers >= 3 || inline >= 3 - markers)
}


// ---------------------------------------------------------------------------
// Pasted plain text
// ---------------------------------------------------------------------------

/// Line ends unified: each `\r\n`, and each lone `\r`, becomes `\n`.
pub open spec fn unix_newlines(s: Seq<char>) -> Seq<char>
    decreases s.len(),
{
    if s.len() == 0 {
        s
    } else if s.len() >= 2 && s[0] == '\r' && s[1] == '\n' {
        seq!['\n'] + unix_newlines(s.skip(2))
    } else if s[0] == '\r' {
        seq!['\n'] + unix_newlines(s.skip(1))
    } else {
        seq![s[0]] + unix_newlines(s.skip(1))
    }
}

/// Pasted text made ready to read: line ends unified, and one trailing
/// newline dropped (it ends the last line rather than starting an empty one).
pub open spec fn normalized_paste(s: Seq<char>) -> Seq<char> {
    let u = unix_newlines(s);
    if u.len() > 0 && u.last() == '\n' {
        u.drop_last()
    } else {
        u
    }
}

/// How pasted plain text is read.
pub enum PlainPaste {
    /// As Markdown source (the normalized text).
    Markdown(String),
    /// As literal lines, each its own paragraph, blank ones included.
    Lines(Vec<String>),
}

fn unix_newline_chars(s: &[char]) -> (r: Vec<char>)
    ensures
        r@ == unix_newlines(s@),
{
    let mut out: Vec<char> = Vec::new();
    let mut i: usize = 0;
    assert(s@.skip(0) =~= s@);
    assert(out@ + unix_newlines(s@) =~= unix_newlines(s@));
    while i < s.len()
        invariant
            i <= s@.len(),
            out@ + unix_newlines(s@.skip(i as int)) == unix_newlines(s@),
        decreases s.len() - i,
    {
        let ghost rest = s@.skip(i as int);
        let ghost before = out@;
        if s[i] == '\r' && i + 1 < s.len() && s[i + 1] == '\n' {
            out.push('\n');
            assert(rest.skip(2) =~= s@.skip(i + 2));
            assert(out@ + unix_newlines(s@.skip(i + 2)) =~= before + unix_newlines(rest));
            i += 2;
        } else if s[i] == '\r' {
            out.push('\n');
            assert(rest.skip(1) =~= s@.skip(i + 1));
            assert(out@ + unix_newlines(s@.skip(i + 1)) =~= before + unix_newlines(rest));
            i += 1;
        } else {
            out.push(s[i]);
            assert(rest.skip(1) =~= s@.skip(i + 1));
            assert(out@ + unix_newlines(s@.skip(i + 1)) =~= before + unix_newlines(rest));
            i += 1;
        }
    }
    assert(s@.skip(s@.len() as int) =~= Seq::<char>::empty());
    out
}

/// Decide how pasted plain text is read: blank text is `Empty`; otherwise,
/// after normalizing line ends and dropping one trailing newline, Markdown
/// source when it looks like it (see `looks_like_markdown`), else its lines.
pub fn classify_plaintext(text: &str) -> (r: Result<PlainPaste, ClipboardDocumentError>)
    ensures
        trim(text@).len() == 0 <==> (r matches Err(ClipboardDocumentError::Empty)),
        r matches Err(e) ==> e is Empty,
        r matches Ok(PlainPaste::Markdown(m)) ==> m@ == normalized_paste(text@)
            && markdown_evidence(normalized_paste(text@)),
        r matches Ok(PlainPaste::Lines(ls)) ==> crate::text::string_views(ls@) == crate::text::split_on(
            normalized_paste(text@),
            '\n',
        ) && !markdown_evidence(normalized_paste(text@)),
        trim(text@).len() > 0 ==> r is Ok,
{
    let cs = chars_of(text);
    if is_blank(cs.as_slice()) {
        return Err(ClipboardDocumentError::Empty);
    }
    let u = unix_newline_chars(cs.as_slice());
    let n = if u.len() > 0 && u[u.len() - 1] == '\n' {
        slice(u.as_slice(), 0, u.len() - 1)
    } else {
        slice(u.as_slice(), 0, u.len())
    };
    assert(n@ =~= normalized_paste(text@));
    let ns = crate::text::string_of(n.as_slice());
    if looks_like_markdown(ns.as_str()) {
        Ok(PlainPaste::Markdown(ns))
    } else {
        let pieces = crate::text::split_char(n.as_slice(), '\n');
        let ls = crate::text::strings_of(&pieces);
        Ok(PlainPaste::Lines(ls))
    }
}

} // verus!
