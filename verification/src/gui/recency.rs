//! When each page was last opened.
//!
//! The page picker lists notes most-recently-opened first and a double
//! `Cmd-O`/`Ctrl-O` jumps back to the previous note; both need the time each
//! page was last opened. The times are milliseconds since the Unix epoch.
use vstd::prelude::*;
use crate::text::{chars_of, same_text, string_of};

verus! {

/// A page name and when it was last opened.
pub type Opened = (Seq<char>, i64);

/// The map a list of (name, time) entries stands for: later entries win.
pub open spec fn map_of(s: Seq<Opened>) -> Map<Seq<char>, i64>
    decreases s.len(),
{
    if s.len() == 0 {
        Map::empty()
    } else {
        map_of(s.drop_last()).insert(s.last().0, s.last().1)
    }
}

/// No name occurs twice.
pub open spec fn names_unique(s: Seq<Opened>) -> bool {
    forall|i: int, j: int| 0 <= i < j < s.len() ==> #[trigger] s[i].0 != #[trigger] s[j].0
}

pub open spec fn opened_views(v: Seq<(String, i64)>) -> Seq<Opened> {
    v.map_values(|e: (String, i64)| (e.0@, e.1))
}

/// The store after renaming `from` to `to`: the entry moves, keeping its
/// time; nothing changes when `from` was never opened.
pub open spec fn renamed(m: Map<Seq<char>, i64>, from: Seq<char>, to: Seq<char>) -> Map<
    Seq<char>,
    i64,
> {
    if m.dom().contains(from) {
        m.remove(from).insert(to, m[from])
    } else {
        m
    }
}

/// What is known of a page: its last-opened time, if it was opened.
pub open spec fn time_of(m: Map<Seq<char>, i64>, page: Seq<char>) -> Option<i64> {
    if m.dom().contains(page) {
        Some(m[page])
    } else {
        None
    }
}

/// Page name to last-opened time.
#[derive(Debug)]
pub struct RecentPages {
    opened: Vec<(String, i64)>,
}

impl View for RecentPages {
    type V = Map<Seq<char>, i64>;

    closed spec fn view(&self) -> Map<Seq<char>, i64> {
        map_of(opened_views(self.opened@))
    }
}

impl RecentPages {
    #[verifier::type_invariant]
    spec fn wf(self) -> bool {
        names_unique(opened_views(self.opened@))
    }
}

impl Default for RecentPages {
    fn default() -> (r: Self)
        ensures
            r@ == Map::<Seq<char>, i64>::empty(),
    {
        let r = RecentPages { opened: Vec::new() };
        assert(opened_views(r.opened@) =~= Seq::<Opened>::empty());
        r
    }
}

/// `SystemTime::now`: the clock's reading. Nothing is stated of it.
#[verifier::external_body]
fn clock_now() -> std::time::SystemTime {
    std::time::SystemTime::now()
}

/// `SystemTime::duration_since(UNIX_EPOCH)`: how long after the Unix epoch
/// `t` lies, `None` for a time before it (the call's error). Nothing is
/// stated of the duration: it is the clock's.
#[verifier::external_body]
fn since_epoch(t: &std::time::SystemTime) -> Option<std::time::Duration> {
    t.duration_since(std::time::UNIX_EPOCH).ok()
}

/// `Duration::as_millis`: whole milliseconds of `d`. Nothing is stated of
/// the value beyond its type.
#[verifier::external_body]
fn duration_millis(d: &std::time::Duration) -> u128 {
    d.as_millis()
}

/// The current time in milliseconds since the Unix epoch, wrapped into an
/// `i64` (0 when the clock reads before the epoch).
fn now_millis() -> i64 {
    let now = clock_now();
    match since_epoch(&now) {
        Some(d) => {
            let ms = duration_millis(&d);
            #[verifier::truncate]
            (ms as i64)
        },
        None => 0,
    }
}

impl RecentPages {
    fn position(&self, page: &str) -> (r: Option<usize>)
        ensures
            match r {
                Some(i) => i < self.opened@.len() && self.opened@[i as int].0@ == page@,
                None => forall|i: int|
                    0 <= i < self.opened@.len() ==> #[trigger] self.opened@[i].0@ != page@,
            },
    {
        let mut i: usize = 0;
        while i < self.opened.len()
            invariant
                i <= self.opened@.len(),
                forall|j: int| 0 <= j < i ==> #[trigger] self.opened@[j].0@ != page@,
            decreases self.opened.len() - i,
        {
            if same_text(self.opened[i].0.as_str(), page) {
                return Some(i);
            }
            i += 1;
        }
        None
    }

    /// The last-opened time (ms since epoch) for `page`, if it has been opened.
    pub fn last_opened(&self, page: &str) -> (r: Option<i64>)
        ensures
            r == time_of(self@, page@),
    {
        proof {
            use_type_invariant(self);
        }
        match self.position(page) {
            Some(i) => {
                proof {
                    lemma_map_of_entry(opened_views(self.opened@), i as int);
                }
                Some(self.opened[i].1)
            },
            None => {
                proof {
                    lemma_map_of_absent(opened_views(self.opened@), page@);
                }
                None
            },
        }
    }

    /// Record that `page` was opened at `time`.
    pub fn mark_opened_at(&mut self, page: &str, time: i64)
        ensures
            final(self)@ == old(self)@.insert(page@, time),
    {
        proof {
            use_type_invariant(&*self);
        }
        let ghost before = opened_views(self.opened@);
        let name = string_of(chars_of(page).as_slice());
        let found = self.position(page);
        let mut v: Vec<(String, i64)> = Vec::new();
        std::mem::swap(&mut v, &mut self.opened);
        match found {
            Some(i) => {
                proof {
                    lemma_map_of_update(before, i as int, time);
                    assert(opened_views(v@.update(i as int, (name, time))) =~= before.update(
                        i as int,
                        (page@, time),
                    ));
                }
                v.set(i, (name, time));
            },
            None => {
                proof {
                    assert(opened_views(v@.push((name, time))) =~= before.push((page@, time)));
                    assert(before.push((page@, time)).drop_last() =~= before);
                    assert forall|a: int, b: int|
                        0 <= a < b < before.len() + 1 implies #[trigger] before.push(
                        (page@, time),
                    )[a].0 != #[trigger] before.push((page@, time))[b].0 by {
                        if b < before.len() {
                            assert(before[a].0 != before[b].0);
                        } else {
                            assert(v@[a].0@ != page@);
                        }
                    }
                }
                v.push((name, time));
            },
        }
        self.opened = v;
    }

    /// Record that `page` was opened just now.
    pub fn mark_opened(&mut self, page: &str)
        ensures
            exists|t: i64| final(self)@ == old(self)@.insert(page@, t),
    {
        let t = now_millis();
        self.mark_opened_at(page, t);
    }

    /// Move `from`'s entry to `to` (when a note is renamed) so the renamed note
    /// keeps its place and no stale entry for the old name stays. No-op if
    /// `from` was never opened.
    pub fn rename(&mut self, from: &str, to: &str)
        ensures
            final(self)@ == renamed(old(self)@, from@, to@),
    {
        proof {
            use_type_invariant(&*self);
        }
        let ghost before = opened_views(self.opened@);
        match self.position(from) {
            Some(i) => {
                proof {
                    lemma_map_of_entry(before, i as int);
                    lemma_map_of_remove(before, i as int);
                    assert(opened_views(self.opened@.remove(i as int)) =~= before.remove(i as int));
                }
                let mut v: Vec<(String, i64)> = Vec::new();
                std::mem::swap(&mut v, &mut self.opened);
                let (_, time) = v.remove(i);
                self.opened = v;
                self.mark_opened_at(to, time);
            },
            None => {
                proof {
                    lemma_map_of_absent(before, from@);
                }
            },
        }
    }

    /// The (name, time) entries, for saving.
    pub fn entries(&self) -> (r: Vec<(String, i64)>)
        ensures
            map_of(opened_views(r@)) == self@,
            names_unique(opened_views(r@)),
    {
        proof {
            use_type_invariant(self);
        }
        let mut r: Vec<(String, i64)> = Vec::new();
        let mut i: usize = 0;
        while i < self.opened.len()
            invariant
                i <= self.opened@.len(),
                opened_views(r@) == opened_views(self.opened@).take(i as int),
            decreases self.opened.len() - i,
        {
            let name = string_of(chars_of(self.opened[i].0.as_str()).as_slice());
            let ghost before = r@;
            r.push((name, self.opened[i].1));
            assert(r@ == before.push((name, self.opened@[i as int].1)));
            assert(opened_views(r@) =~= opened_views(before).push(
                (self.opened@[i as int].0@, self.opened@[i as int].1),
            ));
            assert(opened_views(r@) =~= opened_views(self.opened@).take(i + 1));
            i += 1;
        }
        assert(opened_views(self.opened@).take(i as int) =~= opened_views(self.opened@));
        r
    }

    /// A store holding the given entries, a later entry for a name winning
    /// over an earlier one.
    pub fn from_entries(entries: &[(String, i64)]) -> (r: Self)
        ensures
            r@ == map_of(opened_views(entries@)),
    {
        let mut r = RecentPages::default();
        let mut i: usize = 0;
        while i < entries.len()
            invariant
                i <= entries@.len(),
                r@ == map_of(opened_views(entries@).take(i as int)),
            decreases entries.len() - i,
        {
            r.mark_opened_at(entries[i].0.as_str(), entries[i].1);
            assert(opened_views(entries@).take(i + 1).drop_last() =~= opened_views(entries@).take(
                i as int,
            ));
            i += 1;
        }
        assert(opened_views(entries@).take(i as int) =~= opened_views(entries@));
        r
    }
}

// ---------------------------------------------------------------------------
// The map a list of unique entries stands for
// ---------------------------------------------------------------------------

proof fn lemma_unique_init(s: Seq<Opened>)
    requires
        names_unique(s),
        s.len() > 0,
    ensures
        names_unique(s.drop_last()),
        forall|i: int| 0 <= i < s.len() - 1 ==> #[trigger] s[i].0 != s.last().0,
{
    let t = s.drop_last();
    assert forall|i: int, j: int| 0 <= i < j < t.len() implies #[trigger] t[i].0
        != #[trigger] t[j].0 by {
        assert(t[i] == s[i] && t[j] == s[j]);
    }
    assert forall|i: int| 0 <= i < s.len() - 1 implies #[trigger] s[i].0 != s.last().0 by {
        assert(s[i].0 != s[s.len() - 1].0);
    }
}

proof fn lemma_map_of_absent(s: Seq<Opened>, k: Seq<char>)
    requires
        forall|i: int| 0 <= i < s.len() ==> #[trigger] s[i].0 != k,
    ensures
        !map_of(s).dom().contains(k),
    decreases s.len(),
{
    if s.len() > 0 {
        let t = s.drop_last();
        assert forall|i: int| 0 <= i < t.len() implies #[trigger] t[i].0 != k by {
            assert(t[i] == s[i]);
        }
        lemma_map_of_absent(t, k);
        assert(s.last() == s[s.len() - 1]);
    }
}

proof fn lemma_map_of_entry(s: Seq<Opened>, i: int)
    requires
        names_unique(s),
        0 <= i < s.len(),
    ensures
        map_of(s).dom().contains(s[i].0),
        map_of(s)[s[i].0] == s[i].1,
    decreases s.len(),
{
    if i < s.len() - 1 {
        lemma_unique_init(s);
        let t = s.drop_last();
        assert(t[i] == s[i]);
        lemma_map_of_entry(t, i);
    }
}

proof fn lemma_map_of_update(s: Seq<Opened>, i: int, v: i64)
    requires
        names_unique(s),
        0 <= i < s.len(),
    ensures
        map_of(s.update(i, (s[i].0, v))) == map_of(s).insert(s[i].0, v),
        names_unique(s.update(i, (s[i].0, v))),
    decreases s.len(),
{
    let k = s[i].0;
    let u = s.update(i, (k, v));
    lemma_unique_init(s);
    let t = s.drop_last();
    if i == s.len() - 1 {
        assert(u.drop_last() =~= t);
        assert(map_of(u) =~= map_of(s).insert(k, v));
    } else {
        assert(u.drop_last() =~= t.update(i, (k, v)));
        assert(t[i] == s[i]);
        lemma_map_of_update(t, i, v);
        assert(u.last() == s.last());
        assert(s.last().0 != k);
        assert(map_of(u) =~= map_of(s).insert(k, v));
    }
    assert forall|a: int, b: int| 0 <= a < b < u.len() implies #[trigger] u[a].0
        != #[trigger] u[b].0 by {
        assert(s[a].0 != s[b].0);
    }
}

proof fn lemma_map_of_remove(s: Seq<Opened>, i: int)
    requires
        names_unique(s),
        0 <= i < s.len(),
    ensures
        map_of(s.remove(i)) == map_of(s).remove(s[i].0),
        names_unique(s.remove(i)),
    decreases s.len(),
{
    let k = s[i].0;
    let r = s.remove(i);
    lemma_unique_init(s);
    let t = s.drop_last();
    if i == s.len() - 1 {
        assert(r =~= t);
        assert forall|j: int| 0 <= j < t.len() implies #[trigger] t[j].0 != k by {
            assert(t[j] == s[j]);
        }
        lemma_map_of_absent(t, k);
        assert(map_of(r) =~= map_of(s).remove(k));
    } else {
        assert(r.drop_last() =~= t.remove(i));
        assert(t[i] == s[i]);
        lemma_map_of_remove(t, i);
        assert(r.last() == s.last());
        assert(s.last().0 != k);
        assert(map_of(r) =~= map_of(s).remove(k));
    }
    assert forall|a: int, b: int| 0 <= a < b < r.len() implies #[trigger] r[a].0
        != #[trigger] r[b].0 by {
        if a < i {
            if b < i {
                assert(s[a].0 != s[b].0);
            } else {
                assert(s[a].0 != s[b + 1].0);
            }
        } else {
            assert(s[a + 1].0 != s[b + 1].0);
        }
    }
}

// ---------------------------------------------------------------------------
// Laws
// ---------------------------------------------------------------------------

/// A page marked opened at a time is found with that time.
pub proof fn opened_then_found(m: Map<Seq<char>, i64>, page: Seq<char>, time: i64)
    ensures
        time_of(m.insert(page, time), page) == Some(time),
{
}

/// After a rename the old name is gone (unless it is the new one) and the
/// new name has the old name's time; renaming a page never opened changes
/// nothing.
pub proof fn rename_moves_time(m: Map<Seq<char>, i64>, from: Seq<char>, to: Seq<char>)
    ensures
        time_of(renamed(m, from, to), to) == (if m.dom().contains(from) {
            time_of(m, from)
        } else {
            time_of(m, to)
        }),
        from != to ==> time_of(renamed(m, from, to), from) is None,
        !m.dom().contains(from) ==> renamed(m, from, to) == m,
{
}

} // verus!
