//! In-memory full-text search over notes.
//!
//! A personal wiki is tiny, so there is no index: the note text is scanned
//! directly. Matching is case-insensitive and AND-of-terms: a note matches
//! when every whitespace-separated query term appears somewhere in it. Lines
//! shown for a match are those containing any term.
use vstd::prelude::*;
use crate::text::{
    chars_of, contains, has_substring, lemma_lex_total, lemma_lex_trans, lex_less, lex_less_exec,
    lines, lines_of, lowercase, same_text,
    split_whitespace,
    str_to_lowercase, string_of, string_views, trim, trimmed, views, words,
};

verus! {

/// The search terms of a query: its whitespace-separated words, lower-cased.
pub open spec fn query_terms(q: Seq<char>) -> Seq<Seq<char>> {
    words(q).map_values(|w: Seq<char>| lowercase(w))
}

/// Split a query into lowercase, whitespace-separated terms, dropping empties.
pub fn parse_terms(query: &str) -> (r: Vec<String>)
    ensures
        string_views(r@) == query_terms(query@),
{
    let q = chars_of(query);
    let ws = split_whitespace(q.as_slice());
    let mut r: Vec<String> = Vec::new();
    let mut i: usize = 0;
    while i < ws.len()
        invariant
            i <= ws@.len(),
            views(ws@) == words(q@),
            r@.len() == i,
            forall|k: int| 0 <= k < i ==> #[trigger] r@[k]@ == lowercase(ws@[k]@),
        decreases ws.len() - i,
    {
        let w = string_of(ws[i].as_slice());
        r.push(str_to_lowercase(w.as_str()));
        i += 1;
    }
    assert(string_views(r@) =~= query_terms(query@));
    r
}

/// Every term occurs in `hay`.
pub open spec fn has_all_terms(hay: Seq<char>, terms: Seq<Seq<char>>) -> bool {
    forall|k: int| 0 <= k < terms.len() ==> contains(hay, #[trigger] terms[k])
}

/// Some term occurs in `hay`.
pub open spec fn has_any_term(hay: Seq<char>, terms: Seq<Seq<char>>) -> bool {
    exists|k: int| 0 <= k < terms.len() && contains(hay, #[trigger] terms[k])
}

/// How many distinct terms occur in `hay` (a term listed twice counts once).
pub open spec fn term_hits(hay: Seq<char>, terms: Seq<Seq<char>>) -> nat
    decreases terms.len(),
{
    if terms.len() == 0 {
        0
    } else {
        term_hits(hay, terms.drop_last()) + if contains(hay, terms.last()) && !terms.drop_last().contains(
            terms.last(),
        ) {
            1nat
        } else {
            0nat
        }
    }
}

/// True when `haystack_lower`, which the caller has already lower-cased,
/// contains every term. An empty term list matches everything.
pub fn contains_all_terms(haystack_lower: &str, terms: &[String]) -> (r: bool)
    ensures
        r == has_all_terms(haystack_lower@, string_views(terms@)),
{
    let h = chars_of(haystack_lower);
    let mut i: usize = 0;
    while i < terms.len()
        invariant
            i <= terms@.len(),
            h@ == haystack_lower@,
            forall|k: int| 0 <= k < i ==> contains(h@, #[trigger] terms@[k]@),
        decreases terms.len() - i,
    {
        let t = chars_of(terms[i].as_str());
        if !has_substring(h.as_slice(), t.as_slice()) {
            assert(string_views(terms@)[i as int] == terms@[i as int]@);
            assert(!contains(h@, string_views(terms@)[i as int]));
            return false;
        }
        i += 1;
    }
    assert forall|k: int| 0 <= k < string_views(terms@).len() implies contains(
        h@,
        #[trigger] string_views(terms@)[k],
    ) by {
        assert(string_views(terms@)[k] == terms@[k]@);
    }
    true
}

/// Whether the `i`-th term is also listed before it.
fn listed_before(terms: &[String], i: usize) -> (r: bool)
    requires
        i < terms@.len(),
    ensures
        r == string_views(terms@).subrange(0, i as int).contains(terms@[i as int]@),
{
    let ghost tv = string_views(terms@);
    let mut j: usize = 0;
    while j < i
        invariant
            i < terms@.len(),
            j <= i,
            tv == string_views(terms@),
            forall|k: int| 0 <= k < j ==> tv[k] != terms@[i as int]@,
        decreases i - j,
    {
        if same_text(terms[j].as_str(), terms[i].as_str()) {
            assert(tv.subrange(0, i as int)[j as int] == terms@[i as int]@);
            return true;
        }
        j += 1;
    }
    assert forall|k: int| 0 <= k < i implies tv.subrange(0, i as int)[k] != terms@[i as int]@ by {
        assert(tv.subrange(0, i as int)[k] == tv[k]);
    }
    false
}

fn count_hits(lower: &[char], terms: &[String]) -> (r: usize)
    ensures
        r as nat == term_hits(lower@, string_views(terms@)),
        r <= terms@.len(),
{
    let mut n: usize = 0;
    let mut i: usize = 0;
    assert(string_views(terms@).subrange(0, 0) =~= Seq::<Seq<char>>::empty());
    while i < terms.len()
        invariant
            i <= terms@.len(),
            n <= i,
            n as nat == term_hits(lower@, string_views(terms@).subrange(0, i as int)),
        decreases terms.len() - i,
    {
        let ghost tv = string_views(terms@);
        assert(tv.subrange(0, i + 1).drop_last() =~= tv.subrange(0, i as int));
        assert(tv[i as int] == terms@[i as int]@);
        let t = chars_of(terms[i].as_str());
        assert(tv.subrange(0, i + 1).drop_last() =~= tv.subrange(0, i as int));
        if has_substring(lower, t.as_slice()) && !listed_before(terms, i) {
            n += 1;
        }
        i += 1;
    }
    assert(string_views(terms@).subrange(0, terms@.len() as int) =~= string_views(terms@));
    n
}

pub proof fn lemma_hits_any(hay: Seq<char>, terms: Seq<Seq<char>>)
    ensures
        term_hits(hay, terms) > 0 <==> has_any_term(hay, terms),
    decreases terms.len(),
{
    if terms.len() > 0 {
        lemma_hits_any(hay, terms.drop_last());
        if has_any_term(hay, terms.drop_last()) {
            let k = choose|k: int|
                0 <= k < terms.drop_last().len() && contains(hay, #[trigger] terms.drop_last()[k]);
            assert(terms[k] == terms.drop_last()[k]);
        }
        if has_any_term(hay, terms) {
            let k = choose|k: int| 0 <= k < terms.len() && contains(hay, #[trigger] terms[k]);
            if k < terms.len() - 1 {
                assert(terms.drop_last()[k] == terms[k]);
            }
        }
        if contains(hay, terms.last()) {
            assert(contains(hay, terms[terms.len() - 1]));
            if terms.drop_last().contains(terms.last()) {
                let k = choose|k: int|
                    0 <= k < terms.drop_last().len() && terms.drop_last()[k] == terms.last();
                assert(contains(hay, terms.drop_last()[k]));
            }
        }
    }
}

/// The lines of `content` (numbered from 1) whose lower-cased text contains
/// some term, in order.
pub open spec fn matching(ls: Seq<Seq<char>>, terms: Seq<Seq<char>>) -> Seq<(nat, Seq<char>)>
    decreases ls.len(),
{
    if ls.len() == 0 {
        Seq::<(nat, Seq<char>)>::empty()
    } else if has_any_term(lowercase(ls.last()), terms) {
        matching(ls.drop_last(), terms).push((ls.len(), ls.last()))
    } else {
        matching(ls.drop_last(), terms)
    }
}

/// The matching lines of `content` for `terms`; none when there are no terms.
pub open spec fn matching_lines_of(content: Seq<char>, terms: Seq<Seq<char>>) -> Seq<(nat, Seq<char>)> {
    if terms.len() == 0 {
        Seq::<(nat, Seq<char>)>::empty()
    } else {
        matching(lines(content), terms)
    }
}

/// The value of a list of numbered lines.
pub open spec fn numbered_views(v: Seq<(usize, String)>) -> Seq<(nat, Seq<char>)> {
    v.map_values(|p: (usize, String)| (p.0 as nat, p.1@))
}

fn lower_line(line: &[char]) -> (r: Vec<char>)
    ensures
        r@ == lowercase(line@),
{
    let s = string_of(line);
    let l = str_to_lowercase(s.as_str());
    chars_of(l.as_str())
}

/// Every line of `content` that contains at least one term, as (1-based line
/// number, line text) pairs. Case-insensitive.
pub fn matching_lines(content: &str, terms: &[String]) -> (r: Vec<(usize, String)>)
    ensures
        numbered_views(r@) == matching_lines_of(content@, string_views(terms@)),
{
    let mut r: Vec<(usize, String)> = Vec::new();
    if terms.len() == 0 {
        assert(numbered_views(r@) =~= Seq::<(nat, Seq<char>)>::empty());
        return r;
    }
    let c = chars_of(content);
    let ls = lines_of(c.as_slice());
    let ghost tv = string_views(terms@);
    let mut i: usize = 0;
    assert(views(ls@).subrange(0, 0) =~= Seq::<Seq<char>>::empty());
    while i < ls.len()
        invariant
            i <= ls@.len(),
            views(ls@) == lines(c@),
            c@ == content@,
            tv == string_views(terms@),
            numbered_views(r@) == matching(views(ls@).subrange(0, i as int), tv),
        decreases ls.len() - i,
    {
        let ghost pre = views(ls@).subrange(0, i as int);
        let ghost next = views(ls@).subrange(0, i + 1);
        assert(next.drop_last() =~= pre);
        assert(next.last() == ls@[i as int]@);
        let lower = lower_line(ls[i].as_slice());
        let hits = count_hits(lower.as_slice(), terms);
        proof {
            lemma_hits_any(lower@, tv);
        }
        if hits > 0 {
            let ghost before = r@;
            r.push((i + 1, string_of(ls[i].as_slice())));
            assert(numbered_views(r@) =~= numbered_views(before).push(((i + 1) as nat, ls@[i as int]@)));
        }
        i += 1;
    }
    assert(views(ls@).subrange(0, ls@.len() as int) =~= views(ls@));
    r
}

/// The best line so far: (hits, 1-based line number) of the first line with
/// the most hits, if any line has one.
pub open spec fn best_line(ls: Seq<Seq<char>>, terms: Seq<Seq<char>>) -> Option<(nat, nat)>
    decreases ls.len(),
{
    if ls.len() == 0 {
        None
    } else {
        let prev = best_line(ls.drop_last(), terms);
        let h = term_hits(lowercase(ls.last()), terms);
        if h == 0 {
            prev
        } else {
            match prev {
                Some((b, _)) if h <= b => prev,
                _ => Some((h, ls.len())),
            }
        }
    }
}

/// The snippet for `content`: the line matching the most distinct terms, ties going
/// to the earliest, as (1-based line number, trimmed text).
pub open spec fn snippet_of(content: Seq<char>, terms: Seq<Seq<char>>) -> Option<(nat, Seq<char>)> {
    if terms.len() == 0 {
        None
    } else {
        match best_line(lines(content), terms) {
            Some((_, no)) => Some((no, trim(lines(content)[no - 1]))),
            None => None,
        }
    }
}

pub proof fn lemma_best_line_in_range(ls: Seq<Seq<char>>, terms: Seq<Seq<char>>)
    ensures
        best_line(ls, terms) matches Some((_, no)) ==> 1 <= no <= ls.len(),
    decreases ls.len(),
{
    if ls.len() > 0 {
        lemma_best_line_in_range(ls.drop_last(), terms);
    }
}

/// The single best snippet line for `content`: the line matching the most distinct
/// terms, ties broken by appearing earliest, as (1-based line number, trimmed
/// line text); `None` when nothing matches.
pub fn first_snippet(content: &str, terms: &[String]) -> (r: Option<(usize, String)>)
    ensures
        match (r, snippet_of(content@, string_views(terms@))) {
            (Some((n, s)), Some((m, t))) => n as nat == m && s@ == t,
            (None, None) => true,
            _ => false,
        },
{
    if terms.len() == 0 {
        return None;
    }
    let c = chars_of(content);
    let ls = lines_of(c.as_slice());
    let ghost tv = string_views(terms@);
    let mut best: Option<(usize, usize)> = None;
    let mut i: usize = 0;
    assert(views(ls@).subrange(0, 0) =~= Seq::<Seq<char>>::empty());
    while i < ls.len()
        invariant
            i <= ls@.len(),
            views(ls@) == lines(c@),
            c@ == content@,
            tv == string_views(terms@),
            match (best, best_line(views(ls@).subrange(0, i as int), tv)) {
                (Some((b, n)), Some((bb, nn))) => b as nat == bb && n as nat == nn,
                (None, None) => true,
                _ => false,
            },
            best matches Some((_, n)) ==> 1 <= n <= i,
        decreases ls.len() - i,
    {
        let ghost pre = views(ls@).subrange(0, i as int);
        let ghost next = views(ls@).subrange(0, i + 1);
        assert(next.drop_last() =~= pre);
        assert(next.last() == ls@[i as int]@);
        let lower = lower_line(ls[i].as_slice());
        let hits = count_hits(lower.as_slice(), terms);
        if hits > 0 {
            let better = match best {
                Some((b, _)) => hits > b,
                None => true,
            };
            if better {
                best = Some((hits, i + 1));
            }
        }
        i += 1;
    }
    assert(views(ls@).subrange(0, ls@.len() as int) =~= views(ls@));
    match best {
        Some((_, no)) => {
            assert(views(ls@)[no - 1] == ls@[no - 1]@);
            let t = trimmed(ls[no - 1].as_slice());
            Some((no, string_of(t.as_slice())))
        },
        None => None,
    }
}

/// One note's search result: its name and every line that matched a term.
pub struct NoteSearchResult {
    pub name: String,
    pub lines: Vec<(usize, String)>,
}

/// The notes (name, content) that contain every term of `query` (compared
/// with their lower-cased content), in the given order, each with its
/// matching lines.
pub open spec fn search_results(notes: Seq<(String, String)>, terms: Seq<Seq<char>>) -> Seq<
    (Seq<char>, Seq<(nat, Seq<char>)>),
>
    decreases notes.len(),
{
    if notes.len() == 0 {
        Seq::empty()
    } else {
        let prev = search_results(notes.drop_last(), terms);
        let (name, content) = notes.last();
        if has_all_terms(lowercase(content@), terms) {
            prev.push((name@, matching_lines_of(content@, terms)))
        } else {
            prev
        }
    }
}

/// The value of a list of search results.
pub open spec fn result_views(v: Seq<NoteSearchResult>) -> Seq<(Seq<char>, Seq<(nat, Seq<char>)>)> {
    v.map_values(|r: NoteSearchResult| (r.name@, numbered_views(r.lines@)))
}

/// A note inserted into notes sorted by name: after every note whose name
/// is not greater than its own.
pub open spec fn insert_by_name(sorted: Seq<(String, String)>, x: (String, String)) -> Seq<
    (String, String),
>
    decreases sorted.len(),
{
    if sorted.len() == 0 {
        seq![x]
    } else if lex_less(x.0@, sorted.last().0@) {
        insert_by_name(sorted.drop_last(), x).push(sorted.last())
    } else {
        sorted.push(x)
    }
}

/// The notes sorted by name, notes of equal names in their given order.
pub open spec fn by_name(notes: Seq<(String, String)>) -> Seq<(String, String)>
    decreases notes.len(),
{
    if notes.len() == 0 {
        Seq::empty()
    } else {
        insert_by_name(by_name(notes.drop_last()), notes.last())
    }
}

/// No note sorts before one in front of it.
pub open spec fn sorted_by_name(s: Seq<(String, String)>) -> bool {
    forall|i: int, j: int| 0 <= i < j < s.len() ==> !lex_less(#[trigger] s[j].0@, #[trigger] s[i].0@)
}

proof fn lemma_insert_sorted(s: Seq<(String, String)>, x: (String, String))
    requires
        sorted_by_name(s),
    ensures
        sorted_by_name(insert_by_name(s, x)),
        insert_by_name(s, x).to_multiset() == s.to_multiset().insert(x),
        forall|k: int|
            0 <= k < insert_by_name(s, x).len() ==> #[trigger] insert_by_name(s, x)[k] == x
                || s.contains(insert_by_name(s, x)[k]),
    decreases s.len(),
{
    let r = insert_by_name(s, x);
    if s.len() == 0 {
        s.to_multiset_ensures();
        assert(s.push(x) =~= seq![x]);
    } else {
        let dl = s.drop_last();
        let last = s.last();
        assert(s =~= dl.push(last));
        assert(sorted_by_name(dl)) by {
            assert forall|i: int, j: int| 0 <= i < j < dl.len() implies !lex_less(
                #[trigger] dl[j].0@,
                #[trigger] dl[i].0@,
            ) by {
                assert(dl[i] == s[i] && dl[j] == s[j]);
            }
        }
        dl.to_multiset_ensures();
        if lex_less(x.0@, last.0@) {
            lemma_insert_sorted(dl, x);
            let t = insert_by_name(dl, x);
            t.to_multiset_ensures();
            assert(r == t.push(last));
            assert forall|i: int, j: int| 0 <= i < j < r.len() implies !lex_less(
                #[trigger] r[j].0@,
                #[trigger] r[i].0@,
            ) by {
                if j < t.len() {
                    assert(r[i] == t[i] && r[j] == t[j]);
                } else {
                    assert(r[j] == last);
                    assert(r[i] == t[i]);
                    if t[i] == x {
                        lemma_lex_total(x.0@, last.0@);
                    } else {
                        assert(dl.contains(t[i]));
                        let k = choose|k: int| 0 <= k < dl.len() && dl[k] == t[i];
                        assert(s[k] == dl[k]);
                        assert(s[s.len() - 1] == last);
                    }
                }
            }
            assert forall|k: int| 0 <= k < r.len() implies #[trigger] r[k] == x || s.contains(r[k]) by {
                if k < t.len() {
                    assert(r[k] == t[k]);
                    if t[k] != x {
                        assert(dl.contains(t[k]));
                        let m = choose|m: int| 0 <= m < dl.len() && dl[m] == t[k];
                        assert(s[m] == dl[m]);
                    }
                } else {
                    assert(s[s.len() - 1] == r[k]);
                }
            }
            assert(r.to_multiset() =~= s.to_multiset().insert(x));
        } else {
            assert(r == s.push(x));
            s.to_multiset_ensures();
            assert forall|i: int, j: int| 0 <= i < j < r.len() implies !lex_less(
                #[trigger] r[j].0@,
                #[trigger] r[i].0@,
            ) by {
                if j < s.len() {
                    assert(r[i] == s[i] && r[j] == s[j]);
                } else {
                    assert(r[j] == x);
                    assert(r[i] == s[i]);
                    if lex_less(x.0@, s[i].0@) {
                        if i < s.len() - 1 {
                            assert(!lex_less(s[s.len() - 1].0@, s[i].0@));
                        }
                        lemma_lex_total(s[i].0@, last.0@);
                        if s[i].0@ != last.0@ {
                            lemma_lex_trans(x.0@, s[i].0@, last.0@);
                        }
                    }
                }
            }
            assert forall|k: int| 0 <= k < r.len() implies #[trigger] r[k] == x || s.contains(r[k]) by {
                if k < s.len() {
                    assert(r[k] == s[k]);
                }
            }
        }
    }
}

/// `by_name` puts the notes in name order and keeps each of them, no more
/// and no fewer times than given.
pub proof fn notes_by_name_sorted(notes: Seq<(String, String)>)
    ensures
        sorted_by_name(by_name(notes)),
        by_name(notes).to_multiset() == notes.to_multiset(),
    decreases notes.len(),
{
    if notes.len() == 0 {
        notes.to_multiset_ensures();
        by_name(notes).to_multiset_ensures();
        assert(notes.to_multiset() =~= by_name(notes).to_multiset());
    } else {
        let dl = notes.drop_last();
        notes_by_name_sorted(dl);
        lemma_insert_sorted(by_name(dl), notes.last());
        dl.to_multiset_ensures();
        assert(notes =~= dl.push(notes.last()));
    }
}

proof fn lemma_insert_at(s: Seq<(String, String)>, x: (String, String), p: int)
    requires
        0 <= p <= s.len(),
        forall|k: int| p <= k < s.len() ==> lex_less(x.0@, #[trigger] s[k].0@),
        p == 0 || !lex_less(x.0@, s[p - 1].0@),
    ensures
        insert_by_name(s, x) == s.insert(p, x),
    decreases s.len(),
{
    if p == s.len() {
        assert(s.insert(p, x) =~= s.push(x));
    } else {
        assert(lex_less(x.0@, s[s.len() - 1].0@));
        lemma_insert_at(s.drop_last(), x, p);
        assert(s.insert(p, x) =~= s.drop_last().insert(p, x).push(s.last()));
    }
}

/// The positions of the notes in name order (see `by_name`).
fn name_order(notes: &[(String, String)]) -> (r: Vec<usize>)
    ensures
        r@.len() == notes@.len(),
        forall|k: int| 0 <= k < r@.len() ==> (#[trigger] r@[k]) < notes@.len(),
        r@.map_values(|i: usize| notes@[i as int]) == by_name(notes@),
{
    let mut names: Vec<Vec<char>> = Vec::new();
    let mut i: usize = 0;
    while i < notes.len()
        invariant
            i <= notes@.len(),
            names@.len() == i,
            forall|k: int| 0 <= k < i ==> (#[trigger] names@[k])@ == notes@[k].0@,
        decreases notes.len() - i,
    {
        names.push(chars_of(notes[i].0.as_str()));
        i += 1;
    }
    let mut order: Vec<usize> = Vec::new();
    let mut i: usize = 0;
    assert(notes@.take(0) =~= Seq::<(String, String)>::empty());
    assert(order@.map_values(|j: usize| notes@[j as int]) =~= Seq::<(String, String)>::empty());
    while i < notes.len()
        invariant
            i <= notes@.len(),
            names@.len() == notes@.len(),
            forall|k: int| 0 <= k < notes@.len() ==> (#[trigger] names@[k])@ == notes@[k].0@,
            order@.len() == i,
            forall|k: int| 0 <= k < order@.len() ==> (#[trigger] order@[k]) < i,
            order@.map_values(|j: usize| notes@[j as int]) == by_name(notes@.take(i as int)),
        decreases notes.len() - i,
    {
        let ghost sv = order@.map_values(|j: usize| notes@[j as int]);
        let mut p = order.len();
        while p > 0 && lex_less_exec(names[i].as_slice(), names[order[p - 1]].as_slice())
            invariant
                i < notes@.len(),
                names@.len() == notes@.len(),
                forall|k: int| 0 <= k < notes@.len() ==> (#[trigger] names@[k])@ == notes@[k].0@,
                forall|k: int| 0 <= k < order@.len() ==> (#[trigger] order@[k]) < i,
                sv == order@.map_values(|j: usize| notes@[j as int]),
                p <= order@.len(),
                forall|k: int| p <= k < sv.len() ==> lex_less(notes@[i as int].0@, #[trigger] sv[k].0@),
            decreases p,
        {
            assert(sv[p - 1] == notes@[order@[p - 1] as int]);
            p -= 1;
        }
        proof {
            if p > 0 {
                assert(sv[p - 1] == notes@[order@[p - 1] as int]);
            }
            lemma_insert_at(sv, notes@[i as int], p as int);
            assert(notes@.take(i + 1).drop_last() =~= notes@.take(i as int));
            assert(notes@.take(i + 1).last() == notes@[i as int]);
        }
        order.insert(p, i);
        assert(order@.map_values(|j: usize| notes@[j as int]) =~= sv.insert(p as int, notes@[i as int]));
        i += 1;
    }
    assert(notes@.take(notes@.len() as int) =~= notes@);
    order
}

/// Search the loaded notes (name, content) for `query`: the notes containing
/// all terms, sorted by name, each with its matching lines. An empty (or
/// all-whitespace) query matches nothing.
pub fn search_store(notes: &[(String, String)], query: &str) -> (r: Vec<NoteSearchResult>)
    ensures
        query_terms(query@).len() == 0 ==> r@.len() == 0,
        query_terms(query@).len() > 0 ==> result_views(r@) == search_results(
            by_name(notes@),
            query_terms(query@),
        ),
{
    let terms = parse_terms(query);
    let mut results: Vec<NoteSearchResult> = Vec::new();
    if terms.len() == 0 {
        return results;
    }
    let ghost tv = query_terms(query@);
    let order = name_order(notes);
    let ghost sn = by_name(notes@);
    let mut k: usize = 0;
    assert(sn.subrange(0, 0) =~= Seq::<(String, String)>::empty());
    while k < order.len()
        invariant
            k <= order@.len(),
            order@.len() == notes@.len(),
            forall|q: int| 0 <= q < order@.len() ==> (#[trigger] order@[q]) < notes@.len(),
            order@.map_values(|i: usize| notes@[i as int]) == sn,
            string_views(terms@) == tv,
            result_views(results@) == search_results(sn.subrange(0, k as int), tv),
        decreases order.len() - k,
    {
        assert(sn.subrange(0, k + 1).drop_last() =~= sn.subrange(0, k as int));
        assert(sn.subrange(0, k + 1).last() == sn[k as int]);
        assert(sn[k as int] == notes@[order@[k as int] as int]);
        let (name, content) = &notes[order[k]];
        let lower = str_to_lowercase(content.as_str());
        if contains_all_terms(lower.as_str(), terms.as_slice()) {
            let lines = matching_lines(content.as_str(), terms.as_slice());
            let ghost before = results@;
            results.push(NoteSearchResult { name: string_of(chars_of(name.as_str()).as_slice()), lines });
            assert(result_views(results@) =~= result_views(before).push(
                (name@, matching_lines_of(content@, tv)),
            ));
        }
        k += 1;
    }
    assert(sn.subrange(0, sn.len() as int) =~= sn);
    results
}

} // verus!
