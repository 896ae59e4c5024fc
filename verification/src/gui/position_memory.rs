//! In-memory position memory for recently visited notes.
//!
//! Remembers where the user was (the editor's position type `P`: scroll
//! offset and caret) in the last few notes they left, so navigating back to
//! one, by a link or the picker, resumes there. Not persisted.
use vstd::prelude::*;
use crate::gui::scroll_memory::{lookup, not_page, remembered, without, CAPACITY};
use crate::text::{chars_of, same_text, string_of};

verus! {

/// The entries as values: note name and position, most recent first.
pub open spec fn position_views<P>(v: Seq<(String, P)>) -> Seq<(Seq<char>, P)> {
    v.map_values(|e: (String, P)| (e.0@, e.1))
}

/// The entries after renaming the first entry for `from` to `to`.
pub open spec fn renamed_first<P>(entries: Seq<(Seq<char>, P)>, from: Seq<char>, to: Seq<char>) -> Seq<
    (Seq<char>, P),
>
    decreases entries.len(),
{
    if entries.len() == 0 {
        entries
    } else if entries[0].0 == from {
        entries.update(0, (to, entries[0].1))
    } else {
        seq![entries[0]] + renamed_first(entries.drop_first(), from, to)
    }
}

pub struct PositionMemory<P> {
    /// (note name, position), most-recently-remembered first.
    entries: Vec<(String, P)>,
}

impl<P> View for PositionMemory<P> {
    type V = Seq<(Seq<char>, P)>;

    closed spec fn view(&self) -> Seq<(Seq<char>, P)> {
        position_views(self.entries@)
    }
}

impl<P: Clone> PositionMemory<P> {
    pub fn new() -> (r: Self)
        ensures
            r@ == Seq::<(Seq<char>, P)>::empty(),
    {
        let r = PositionMemory { entries: Vec::new() };
        assert(r@ =~= Seq::<(Seq<char>, P)>::empty());
        r
    }

    /// Record `pos` for `note`, making it the most recent and forgetting the
    /// least recently remembered note once more than `CAPACITY` are tracked.
    pub fn remember(&mut self, note: &str, pos: P)
        ensures
            final(self)@ == remembered(old(self)@, note@, pos),
    {
        let ghost before = self@;
        let ghost page = note@;
        let ghost value = pos;
        let mut rest: Vec<(String, P)> = Vec::new();
        std::mem::swap(&mut rest, &mut self.entries);
        let mut kept: Vec<(String, P)> = Vec::new();
        kept.push((string_of(chars_of(note).as_slice()), pos));
        let n = rest.len();
        let mut i: usize = 0;
        assert(position_views(rest@) =~= before.skip(0));
        assert(position_views(kept@) =~= seq![(page, value)] + before.take(0).filter(
            not_page::<P>(page),
        )) by {
            reveal(Seq::filter);
            assert(before.take(0) =~= Seq::<(Seq<char>, P)>::empty());
        }
        while rest.len() > 0
            invariant
                n == before.len(),
                i + rest@.len() == n,
                note@ == page,
                position_views(rest@) == before.skip(i as int),
                position_views(kept@) == seq![(page, value)] + before.take(i as int).filter(
                    not_page::<P>(page),
                ),
            decreases rest.len(),
        {
            let ghost r0 = rest@;
            let e = rest.remove(0);
            proof {
                assert(e == r0[0]);
                assert(position_views(r0)[0] == before.skip(i as int)[0]);
                assert(before[i as int] == (e.0@, e.1));
                assert(rest@ =~= r0.subrange(1, r0.len() as int));
                assert(position_views(rest@) =~= position_views(r0).drop_first());
                assert(position_views(rest@) =~= before.skip(i + 1));
                lemma_filter_step(before, i as int, not_page::<P>(page));
            }
            let ghost k0 = position_views(kept@);
            if !same_text(e.0.as_str(), note) {
                kept.push(e);
                assert(position_views(kept@) =~= k0.push(before[i as int]));
            }
            assert(position_views(kept@) =~= seq![(page, value)] + before.take(i + 1).filter(
                not_page::<P>(page),
            ));
            i += 1;
        }
        assert(before.take(n as int) =~= before);
        if kept.len() > CAPACITY {
            let ghost all = position_views(kept@);
            kept.truncate(CAPACITY);
            assert(position_views(kept@) =~= all.subrange(0, CAPACITY as int));
        }
        self.entries = kept;
    }

    /// The remembered position for `note` (a clone of it), if it is still
    /// tracked.
    pub fn get(&self, note: &str) -> (r: Option<P>)
        ensures
            match lookup(self@, note@) {
                Some(v) => r matches Some(x) && cloned(v, x),
                None => r is None,
            },
    {
        let mut i: usize = 0;
        assert(self@.skip(0) =~= self@);
        while i < self.entries.len()
            invariant
                i <= self.entries@.len(),
                lookup(self@, note@) == lookup(self@.skip(i as int), note@),
            decreases self.entries.len() - i,
        {
            let ghost rest = self@.skip(i as int);
            assert(rest[0] == (self.entries@[i as int].0@, self.entries@[i as int].1));
            if same_text(self.entries[i].0.as_str(), note) {
                return Some(self.entries[i].1.clone());
            }
            assert(rest.drop_first() =~= self@.skip(i + 1));
            i += 1;
        }
        None
    }

    /// Rename a tracked note in place (a renamed note), keeping its position
    /// and recency. No-op if `from` is not tracked.
    pub fn rename(&mut self, from: &str, to: &str)
        ensures
            final(self)@ == renamed_first(old(self)@, from@, to@),
    {
        let ghost before = self@;
        let mut i: usize = 0;
        assert(before.take(0) + renamed_first(before.skip(0), from@, to@) =~= renamed_first(
            before,
            from@,
            to@,
        )) by {
            assert(before.skip(0) =~= before);
        }
        while i < self.entries.len()
            invariant
                i <= self.entries@.len(),
                self@ == before,
                before == position_views(old(self).entries@),
                before.take(i as int) + renamed_first(before.skip(i as int), from@, to@)
                    == renamed_first(before, from@, to@),
                forall|k: int| 0 <= k < i ==> #[trigger] before[k].0 != from@,
            decreases self.entries.len() - i,
        {
            let ghost rest = before.skip(i as int);
            assert(rest[0] == before[i as int]);
            if same_text(self.entries[i].0.as_str(), from) {
                let name = string_of(chars_of(to).as_slice());
                let (_, pos) = self.entries.remove(i);
                self.entries.insert(i, (name, pos));
                proof {
                    let r = renamed_first(rest, from@, to@);
                    assert(r == rest.update(0, (to@, rest[0].1)));
                    assert(self@ =~= before.take(i as int) + r);
                }
                return;
            }
            proof {
                let r = renamed_first(rest, from@, to@);
                assert(rest.drop_first() =~= before.skip(i + 1));
                assert(before.take(i + 1) =~= before.take(i as int).push(before[i as int]));
                assert(before.take(i + 1) + renamed_first(before.skip(i + 1), from@, to@)
                    =~= before.take(i as int) + r);
            }
            i += 1;
        }
        proof {
            assert(before.skip(i as int) =~= Seq::<(Seq<char>, P)>::empty());
            assert(before.take(i as int) =~= before);
        }
    }
}

proof fn lemma_filter_step<A>(s: Seq<A>, i: int, f: spec_fn(A) -> bool)
    requires
        0 <= i < s.len(),
    ensures
        s.take(i + 1).filter(f) == if f(s[i]) {
            s.take(i).filter(f).push(s[i])
        } else {
            s.take(i).filter(f)
        },
{
    reveal(Seq::filter);
    assert(s.take(i + 1).drop_last() =~= s.take(i));
    assert(s.take(i + 1).last() == s[i]);
}

/// Renaming a tracked note moves its position to the new name and leaves
/// nothing under the old one, when the old name occurs once and the new one
/// is not tracked yet; renaming a note that is not tracked changes nothing.
pub proof fn rename_moves_position<P>(entries: Seq<(Seq<char>, P)>, from: Seq<char>, to: Seq<char>)
    requires
        from != to,
    ensures
        lookup(entries, from) is None ==> renamed_first(entries, from, to) == entries,
        lookup(entries, to) is None && (forall|i: int, j: int|
            0 <= i < j < entries.len() ==> #[trigger] entries[i].0 != #[trigger] entries[j].0)
            ==> lookup(renamed_first(entries, from, to), to) == lookup(entries, from) && (lookup(
            entries,
            from,
        ) is Some ==> lookup(renamed_first(entries, from, to), from) is None),
    decreases entries.len(),
{
    if entries.len() > 0 {
        let t = entries.drop_first();
        rename_moves_position(t, from, to);
        if entries[0].0 != from {
            let r = seq![entries[0]] + renamed_first(t, from, to);
            assert(r.drop_first() =~= renamed_first(t, from, to));
            if lookup(entries, from) is None {
                assert(renamed_first(entries, from, to) =~= entries);
            }
            if forall|i: int, j: int|
                0 <= i < j < entries.len() ==> #[trigger] entries[i].0 != #[trigger] entries[j].0 {
                assert forall|i: int, j: int| 0 <= i < j < t.len() implies #[trigger] t[i].0
                    != #[trigger] t[j].0 by {
                    assert(entries[i + 1].0 != entries[j + 1].0);
                }
            }
        } else {
            let u = entries.update(0, (to, entries[0].1));
            assert(u.drop_first() =~= t);
            if forall|i: int, j: int|
                0 <= i < j < entries.len() ==> #[trigger] entries[i].0 != #[trigger] entries[j].0 {
                assert(lookup(t, from) is None) by {
                    lemma_lookup_absent(t, from);
                    assert forall|k: int| 0 <= k < t.len() implies #[trigger] t[k].0 != from by {
                        assert(entries[0].0 != entries[k + 1].0);
                    }
                }
            }
        }
    }
}

proof fn lemma_lookup_absent<P>(s: Seq<(Seq<char>, P)>, k: Seq<char>)
    ensures
        (forall|i: int| 0 <= i < s.len() ==> #[trigger] s[i].0 != k) ==> lookup(s, k) is None,
    decreases s.len(),
{
    if s.len() > 0 {
        lemma_lookup_absent(s.drop_first(), k);
        if forall|i: int| 0 <= i < s.len() ==> #[trigger] s[i].0 != k {
            assert(s[0].0 != k);
            assert forall|i: int| 0 <= i < s.drop_first().len() implies #[trigger] s.drop_first()[i].0
                != k by {
                assert(s[i + 1].0 != k);
            }
        }
    }
}

} // verus!
