//! In-memory scroll-position memory for recently visited notes.
//!
//! Remembers the scroll offset of the last few notes the user left, so
//! navigating back to one resumes where they were. Not persisted.
use vstd::prelude::*;
use crate::text::{chars_of, same_text, string_of};

verus! {

/// How many notes' scroll positions are retained.
pub const CAPACITY: usize = 10;

/// The first entry for `page`, most recent first.
pub open spec fn lookup<T>(entries: Seq<(Seq<char>, T)>, page: Seq<char>) -> Option<T>
    decreases entries.len(),
{
    if entries.len() == 0 {
        None
    } else if entries[0].0 == page {
        Some(entries[0].1)
    } else {
        lookup(entries.drop_first(), page)
    }
}

/// The entries of pages other than `page`, in order.
pub open spec fn without<T>(entries: Seq<(Seq<char>, T)>, page: Seq<char>) -> Seq<(Seq<char>, T)> {
    entries.filter(not_page::<T>(page))
}

/// The test that an entry belongs to a page other than `page`.
pub open spec fn not_page<T>(page: Seq<char>) -> spec_fn((Seq<char>, T)) -> bool {
    |e: (Seq<char>, T)| e.0 != page
}

/// The entries after remembering `value` for `page`: it moves to the front,
/// any older entry for it goes, and only the `CAPACITY` most recent stay.
pub open spec fn remembered<T>(entries: Seq<(Seq<char>, T)>, page: Seq<char>, value: T) -> Seq<
    (Seq<char>, T),
> {
    let rest = without(entries, page);
    let all = seq![(page, value)] + rest;
    if all.len() > CAPACITY {
        all.subrange(0, CAPACITY as int)
    } else {
        all
    }
}

/// No page occurs twice.
pub open spec fn unique_pages<T>(entries: Seq<(Seq<char>, T)>) -> bool {
    forall|i: int, j: int|
        0 <= i < j < entries.len() ==> #[trigger] entries[i].0 != #[trigger] entries[j].0
}

pub struct ScrollMemory {
    /// (page name, scroll position), most-recently-remembered first.
    entries: Vec<(String, i32)>,
}

pub open spec fn entry_views(v: Seq<(String, i32)>) -> Seq<(Seq<char>, i32)> {
    v.map_values(|e: (String, i32)| (e.0@, e.1))
}

impl View for ScrollMemory {
    type V = Seq<(Seq<char>, i32)>;

    closed spec fn view(&self) -> Seq<(Seq<char>, i32)> {
        entry_views(self.entries@)
    }
}

impl ScrollMemory {
    pub fn new() -> (r: Self)
        ensures
            r@ == Seq::<(Seq<char>, i32)>::empty(),
    {
        let r = ScrollMemory { entries: Vec::new() };
        assert(r@ =~= Seq::<(Seq<char>, i32)>::empty());
        r
    }

    /// Record `pos` for `page`, promoting it to most-recent and evicting the
    /// least-recently-remembered note once more than `CAPACITY` are tracked.
    pub fn remember(&mut self, page: &str, pos: i32)
        ensures
            final(self)@ == remembered(old(self)@, page@, pos),
    {
        let mut kept: Vec<(String, i32)> = Vec::new();
        kept.push((string_of(chars_of(page).as_slice()), pos));
        let ghost old_view = self@;
        let mut i: usize = 0;
        assert(old_view.subrange(0, 0).filter(|e: (Seq<char>, i32)| e.0 != page@) =~= Seq::<
            (Seq<char>, i32),
        >::empty());
        while i < self.entries.len()
            invariant
                i <= self.entries@.len(),
                old_view == entry_views(self.entries@),
                entry_views(kept@) == seq![(page@, pos)] + old_view.subrange(0, i as int).filter(
                    |e: (Seq<char>, i32)| e.0 != page@,
                ),
            decreases self.entries.len() - i,
        {
            proof {
                reveal_with_fuel(Seq::<(Seq<char>, i32)>::filter, 1);
                assert(old_view.subrange(0, i + 1).drop_last() =~= old_view.subrange(0, i as int));
            }
            let (name, value) = &self.entries[i];
            if !same_text(name.as_str(), page) {
                let ghost before = kept@;
                kept.push((string_of(chars_of(name.as_str()).as_slice()), *value));
                assert(entry_views(kept@) =~= entry_views(before).push((name@, *value)));
            }
            i += 1;
        }
        assert(old_view.subrange(0, old_view.len() as int) =~= old_view);
        if kept.len() > CAPACITY {
            let ghost before = entry_views(kept@);
            kept.truncate(CAPACITY);
            assert(entry_views(kept@) =~= before.subrange(0, CAPACITY as int));
        }
        self.entries = kept;
    }

    /// The remembered scroll position for `page`, if it is still tracked.
    pub fn get(&self, page: &str) -> (r: Option<i32>)
        ensures
            r == lookup(self@, page@),
    {
        let mut i: usize = 0;
        assert(self@.subrange(0, self@.len() as int) =~= self@);
        while i < self.entries.len()
            invariant
                i <= self.entries@.len(),
                lookup(self@, page@) == lookup(self@.subrange(i as int, self@.len() as int), page@),
            decreases self.entries.len() - i,
        {
            let ghost rest = self@.subrange(i as int, self@.len() as int);
            assert(rest[0] == (self.entries@[i as int].0@, self.entries@[i as int].1));
            if same_text(self.entries[i].0.as_str(), page) {
                return Some(self.entries[i].1);
            }
            assert(rest.drop_first() =~= self@.subrange(i + 1, self@.len() as int));
            i += 1;
        }
        None
    }
}

/// What was just remembered for a page is what is found for it.
pub proof fn remember_then_get<T>(entries: Seq<(Seq<char>, T)>, page: Seq<char>, value: T)
    ensures
        lookup(remembered(entries, page, value), page) == Some(value),
{
}

/// Remembering for one page leaves what is found for a page still tracked
/// among the others alone, unless it was pushed out by the capacity.
pub proof fn remember_keeps_others<T>(
    entries: Seq<(Seq<char>, T)>,
    page: Seq<char>,
    value: T,
    other: Seq<char>,
)
    requires
        other != page,
        lookup(remembered(entries, page, value), other) is Some,
    ensures
        lookup(remembered(entries, page, value), other) == lookup(entries, other),
{
    lemma_lookup_filter(entries, page, other);
    let all = seq![(page, value)] + without(entries, page);
    if all.len() > CAPACITY {
        lemma_lookup_prefix(all, other, CAPACITY as int);
    }
    assert(all.drop_first() =~= without(entries, page));
}

/// A page found in a prefix is found there with what the whole holds for it.
proof fn lemma_lookup_prefix<T>(s: Seq<(Seq<char>, T)>, p: Seq<char>, n: int)
    requires
        0 <= n <= s.len(),
        lookup(s.subrange(0, n), p) is Some,
    ensures
        lookup(s.subrange(0, n), p) == lookup(s, p),
    decreases n,
{
    if n > 0 {
        let t = s.subrange(0, n);
        assert(t[0] == s[0]);
        if s[0].0 != p {
            assert(t.drop_first() =~= s.drop_first().subrange(0, n - 1));
            lemma_lookup_prefix(s.drop_first(), p, n - 1);
        }
    }
}

/// Looking `other` up ignores the entries of a different page.
pub proof fn lemma_lookup_filter<T>(entries: Seq<(Seq<char>, T)>, page: Seq<char>, other: Seq<char>)
    requires
        other != page,
    ensures
        lookup(without(entries, page), other) == lookup(entries, other),
    decreases entries.len(),
{
    if entries.len() == 0 {
        reveal(Seq::filter);
    } else {
        let tail = entries.drop_first();
        lemma_lookup_filter(tail, page, other);
        lemma_filter_front(entries, page);
        if entries[0].0 != page {
            let w = seq![entries[0]] + without(tail, page);
            assert(w.drop_first() =~= without(tail, page));
        }
    }
}

proof fn lemma_filter_front<T>(entries: Seq<(Seq<char>, T)>, page: Seq<char>)
    requires
        entries.len() > 0,
    ensures
        entries[0].0 != page ==> without(entries, page) == seq![entries[0]] + without(
            entries.drop_first(),
            page,
        ),
        entries[0].0 == page ==> without(entries, page) == without(entries.drop_first(), page),
{
    let f = not_page::<T>(page);
    let tail = entries.drop_first();
    assert(entries =~= seq![entries[0]] + tail);
    tail.lemma_filter_prepend(entries[0], f);
    if entries[0].0 == page {
        assert(Seq::<(Seq<char>, T)>::empty() + tail.filter(f) =~= tail.filter(f));
    }
}

/// The memory never tracks more than `CAPACITY` notes, and never one note
/// twice.
pub proof fn remember_bounded<T>(entries: Seq<(Seq<char>, T)>, page: Seq<char>, value: T)
    requires
        unique_pages(entries),
    ensures
        remembered(entries, page, value).len() <= CAPACITY,
        unique_pages(remembered(entries, page, value)),
{
    let rest = without(entries, page);
    lemma_filter_unique(entries, page);
    let all = seq![(page, value)] + rest;
    assert forall|i: int, j: int| 0 <= i < j < all.len() implies #[trigger] all[i].0
        != #[trigger] all[j].0 by {
        assert(all[j] == rest[j - 1]);
        if i > 0 {
            assert(all[i] == rest[i - 1]);
        }
    }
    if all.len() > CAPACITY {
        let t = all.subrange(0, CAPACITY as int);
        assert forall|i: int, j: int| 0 <= i < j < t.len() implies #[trigger] t[i].0
            != #[trigger] t[j].0 by {
            assert(t[i] == all[i]);
            assert(t[j] == all[j]);
        }
    }
}

/// The entries in front of the first entry for `page` (all of them when it
/// has none).
pub open spec fn before<T>(entries: Seq<(Seq<char>, T)>, page: Seq<char>) -> Seq<(Seq<char>, T)>
    decreases entries.len(),
{
    if entries.len() == 0 || entries[0].0 == page {
        Seq::empty()
    } else {
        seq![entries[0]] + before(entries.drop_first(), page)
    }
}

/// The entries after remembering each (page, value) of `later` in turn.
pub open spec fn remember_all<T>(entries: Seq<(Seq<char>, T)>, later: Seq<(Seq<char>, T)>) -> Seq<
    (Seq<char>, T),
>
    decreases later.len(),
{
    if later.len() == 0 {
        entries
    } else {
        let prev = remember_all(entries, later.drop_last());
        remembered(prev, later.last().0, later.last().1)
    }
}

/// The distinct pages among `later`.
pub open spec fn pages_of<T>(later: Seq<(Seq<char>, T)>) -> Set<Seq<char>>
    decreases later.len(),
{
    if later.len() == 0 {
        Set::empty()
    } else {
        pages_of(later.drop_last()).insert(later.last().0)
    }
}

/// A position remembered for a page is still found after fewer than
/// `CAPACITY` other pages have been remembered since, however often each,
/// as long as the page itself was not remembered again.
pub proof fn remembered_survives<T>(
    entries: Seq<(Seq<char>, T)>,
    page: Seq<char>,
    value: T,
    later: Seq<(Seq<char>, T)>,
)
    requires
        forall|k: int| 0 <= k < later.len() ==> #[trigger] later[k].0 != page,
        pages_of(later).len() < CAPACITY,
    ensures
        lookup(remember_all(remembered(entries, page, value), later), page) == Some(value),
{
    lemma_survives(entries, page, value, later);
}

proof fn lemma_pages_finite<T>(later: Seq<(Seq<char>, T)>)
    ensures
        pages_of(later).finite(),
        forall|k: int| 0 <= k < later.len() ==> pages_of(later).contains(#[trigger] later[k].0),
    decreases later.len(),
{
    if later.len() > 0 {
        let prev = later.drop_last();
        lemma_pages_finite(prev);
        assert forall|k: int| 0 <= k < later.len() implies pages_of(later).contains(
            #[trigger] later[k].0,
        ) by {
            if k < prev.len() {
                assert(later[k] == prev[k]);
            }
        }
    }
}

proof fn lemma_survives<T>(
    entries: Seq<(Seq<char>, T)>,
    page: Seq<char>,
    value: T,
    later: Seq<(Seq<char>, T)>,
)
    requires
        forall|k: int| 0 <= k < later.len() ==> #[trigger] later[k].0 != page,
        pages_of(later).len() < CAPACITY,
    ensures
        ({
            let st = remember_all(remembered(entries, page, value), later);
            &&& lookup(st, page) == Some(value)
            &&& unique_pages(before(st, page))
            &&& forall|i: int|
                0 <= i < before(st, page).len() ==> pages_of(later).contains(
                    #[trigger] before(st, page)[i].0,
                )
        }),
    decreases later.len(),
{
    lemma_pages_finite(later);
    if later.len() == 0 {
        let all = seq![(page, value)] + without(entries, page);
        let st = remembered(entries, page, value);
        assert(st[0] == (page, value));
        assert(before(st, page) =~= Seq::<(Seq<char>, T)>::empty());
    } else {
        let prev = later.drop_last();
        let q = later.last().0;
        let w = later.last().1;
        assert(q == later[later.len() - 1].0);
        assert forall|k: int| 0 <= k < prev.len() implies #[trigger] prev[k].0 != page by {
            assert(prev[k] == later[k]);
        }
        lemma_pages_finite(prev);
        vstd::set_lib::lemma_len_subset(pages_of(prev), pages_of(later));
        lemma_survives(entries, page, value, prev);
        let st0 = remember_all(remembered(entries, page, value), prev);
        let b0 = before(st0, page);
        let d = pages_of(later);
        lemma_lookup_filter(st0, page, q);
        lemma_lookup_filter(st0, q, page);
        lemma_before_filter(st0, q, page);
        lemma_filter_unique(b0, q);
        let rest = without(st0, q);
        let all = seq![(q, w)] + rest;
        assert(all.drop_first() =~= rest);
        assert(lookup(all, page) == Some(value));
        let b = before(all, page);
        let bw = without(b0, q);
        assert(b =~= seq![(q, w)] + bw);
        assert forall|i: int| 0 <= i < b.len() implies d.contains(#[trigger] b[i].0) by {
            if i > 0 {
                assert(b[i] == bw[i - 1]);
                assert(b0.contains(bw[i - 1]));
                let j = choose|j: int| 0 <= j < b0.len() && b0[j] == bw[i - 1];
                assert(pages_of(prev).contains(b0[j].0));
            }
        }
        assert forall|i: int, j: int| 0 <= i < j < b.len() implies #[trigger] b[i].0
            != #[trigger] b[j].0 by {
            assert(b[j] == bw[j - 1]);
            if i > 0 {
                assert(b[i] == bw[i - 1]);
            }
        }
        lemma_unique_within(b, d);
        if all.len() > CAPACITY {
            lemma_take_keeps(all, page, CAPACITY as int);
        }
    }
}

/// Pages of distinct entries, all in a finite set, number at most its size.
proof fn lemma_unique_within<T>(b: Seq<(Seq<char>, T)>, d: Set<Seq<char>>)
    requires
        unique_pages(b),
        d.finite(),
        forall|i: int| 0 <= i < b.len() ==> d.contains(#[trigger] b[i].0),
    ensures
        b.len() <= d.len(),
    decreases b.len(),
{
    if b.len() > 0 {
        let x = b.last().0;
        let bp = b.drop_last();
        assert(d.contains(b[b.len() - 1].0));
        assert forall|i: int, j: int| 0 <= i < j < bp.len() implies #[trigger] bp[i].0
            != #[trigger] bp[j].0 by {
            assert(bp[i] == b[i] && bp[j] == b[j]);
        }
        assert forall|i: int| 0 <= i < bp.len() implies d.remove(x).contains(#[trigger] bp[i].0) by {
            assert(bp[i] == b[i]);
            assert(b[i].0 != b[b.len() - 1].0);
        }
        lemma_unique_within(bp, d.remove(x));
    }
}

/// Keeping the first `n` entries keeps what is found for a page whose entry
/// stands among them.
proof fn lemma_take_keeps<T>(s: Seq<(Seq<char>, T)>, page: Seq<char>, n: int)
    requires
        0 <= n <= s.len(),
        lookup(s, page) is Some,
        before(s, page).len() < n,
    ensures
        lookup(s.subrange(0, n), page) == lookup(s, page),
        before(s.subrange(0, n), page) == before(s, page),
    decreases s.len(),
{
    let t = s.subrange(0, n);
    assert(t[0] == s[0]);
    if s[0].0 != page {
        assert(t.drop_first() =~= s.drop_first().subrange(0, n - 1));
        lemma_take_keeps(s.drop_first(), page, n - 1);
    }
}

/// Dropping the entries of another page commutes with taking those in front
/// of `page`.
proof fn lemma_before_filter<T>(s: Seq<(Seq<char>, T)>, q: Seq<char>, page: Seq<char>)
    requires
        q != page,
    ensures
        before(without(s, q), page) == without(before(s, page), q),
    decreases s.len(),
{
    if s.len() == 0 {
        reveal(Seq::filter);
        assert(without(s, q) =~= Seq::<(Seq<char>, T)>::empty());
    } else {
        let tail = s.drop_first();
        lemma_filter_front(s, q);
        lemma_before_filter(tail, q, page);
        if s[0].0 == page {
            reveal(Seq::filter);
            let w = without(s, q);
            assert(w == seq![s[0]] + without(tail, q));
            assert(w[0] == s[0]);
            assert(before(s, page) =~= Seq::<(Seq<char>, T)>::empty());
            assert(without(Seq::<(Seq<char>, T)>::empty(), q) =~= Seq::<(Seq<char>, T)>::empty());
        } else {
            let bs = before(s, page);
            assert(bs == seq![s[0]] + before(tail, page));
            assert(bs[0] == s[0]);
            assert(bs.drop_first() =~= before(tail, page));
            lemma_filter_front(bs, q);
            if s[0].0 != q {
                let w = without(s, q);
                assert(w[0] == s[0]);
                assert(w.drop_first() =~= without(tail, q));
            }
        }
    }
}

proof fn lemma_filter_unique<T>(entries: Seq<(Seq<char>, T)>, page: Seq<char>)
    requires
        unique_pages(entries),
    ensures
        unique_pages(without(entries, page)),
        forall|k: int|
            0 <= k < without(entries, page).len() ==> #[trigger] without(entries, page)[k].0
                != page,
        forall|k: int|
            0 <= k < without(entries, page).len() ==> entries.contains(
                #[trigger] without(entries, page)[k],
            ),
    decreases entries.len(),
{
    if entries.len() == 0 {
        reveal(Seq::filter);
    } else {
        let tail = entries.drop_first();
        assert forall|i: int, j: int| 0 <= i < j < tail.len() implies #[trigger] tail[i].0
            != #[trigger] tail[j].0 by {
            assert(tail[i] == entries[i + 1]);
            assert(tail[j] == entries[j + 1]);
        }
        lemma_filter_unique(tail, page);
        lemma_filter_front(entries, page);
        let ft = without(tail, page);
        assert forall|k: int| 0 <= k < ft.len() implies entries.contains(#[trigger] ft[k]) by {
            assert(tail.contains(ft[k]));
            let w = choose|w: int| 0 <= w < tail.len() && tail[w] == ft[k];
            assert(entries[w + 1] == ft[k]);
        }
        if entries[0].0 != page {
            let fe = seq![entries[0]] + ft;
            assert forall|k: int| 0 <= k < ft.len() implies #[trigger] ft[k].0 != entries[0].0 by {
                assert(tail.contains(ft[k]));
                let w = choose|w: int| 0 <= w < tail.len() && tail[w] == ft[k];
                assert(tail[w] == entries[w + 1]);
            }
            assert forall|i: int, j: int| 0 <= i < j < fe.len() implies #[trigger] fe[i].0
                != #[trigger] fe[j].0 by {
                assert(fe[j] == ft[j - 1]);
                if i > 0 {
                    assert(fe[i] == ft[i - 1]);
                }
            }
            assert forall|k: int| 0 <= k < fe.len() implies #[trigger] fe[k].0 != page by {
                if k > 0 {
                    assert(fe[k] == ft[k - 1]);
                }
            }
            assert forall|k: int| 0 <= k < fe.len() implies entries.contains(#[trigger] fe[k]) by {
                if k > 0 {
                    assert(fe[k] == ft[k - 1]);
                } else {
                    assert(entries[0] == fe[0]);
                }
            }
        }
    }
}

} // verus!
