//! Back/forward navigation between notes.
//!
//! The history is a list of visited notes with a current position. Visiting a
//! note drops everything after the current position and appends the note;
//! back and forward move the position. Each entry also remembers where the
//! user was in the note (`P`, the editor's position type), restored when
//! navigation returns to it.
use vstd::prelude::*;
use crate::text::{chars_of, same_text, string_of};

verus! {

/// How many entries the history keeps; the oldest goes first.
pub const MAX_HISTORY_SIZE: usize = 100;

/// A visited note and where the user was in it.
#[derive(Debug, Clone)]
pub struct HistoryEntry<P> {
    pub note_name: String,
    /// Where the user was in this note when they last left it.
    pub position: P,
}

impl<P> HistoryEntry<P> {
    pub fn new(note_name: String, position: P) -> (r: Self)
        ensures
            r.note_name == note_name,
            r.position == position,
    {
        HistoryEntry { note_name, position }
    }
}

/// A history entry as a value: the note's name and the position.
pub type Visit<P> = (Seq<char>, P);

pub open spec fn visits<P>(v: Seq<HistoryEntry<P>>) -> Seq<Visit<P>> {
    v.map_values(|e: HistoryEntry<P>| (e.note_name@, e.position))
}

/// The entries kept when visiting from position `cur`: everything up to and
/// including it.
pub open spec fn kept_before_push<P>(entries: Seq<Visit<P>>, cur: Option<usize>) -> Seq<Visit<P>> {
    match cur {
        Some(i) => entries.take(i + 1),
        None => entries,
    }
}

/// The entries after visiting `name` at `pos`.
pub open spec fn pushed<P>(entries: Seq<Visit<P>>, cur: Option<usize>, name: Seq<char>, pos: P) -> Seq<
    Visit<P>,
> {
    let all = kept_before_push(entries, cur).push((name, pos));
    if all.len() > MAX_HISTORY_SIZE {
        all.drop_first()
    } else {
        all
    }
}

/// Every entry for `from` renamed to `to`.
pub open spec fn renamed_visits<P>(entries: Seq<Visit<P>>, from: Seq<char>, to: Seq<char>) -> Seq<
    Visit<P>,
> {
    entries.map_values(|e: Visit<P>| if e.0 == from { (to, e.1) } else { e })
}

/// The test that an entry is for a note other than `note`.
pub open spec fn other_note<P>(note: Seq<char>) -> spec_fn(Visit<P>) -> bool {
    |e: Visit<P>| e.0 != note
}

/// The last index of a list of `c` entries, if there are any.
pub open spec fn opt_last(c: nat) -> Option<usize> {
    if c > 0 {
        Some((c - 1) as usize)
    } else {
        None
    }
}

/// The position after removing `note`'s entries: the nearest surviving entry
/// at or before the old position (or the first, when none is), `None` when
/// nothing survives.
pub open spec fn position_after_removal<P>(
    entries: Seq<Visit<P>>,
    cur: Option<usize>,
    note: Seq<char>,
) -> Option<usize> {
    let kept = entries.filter(other_note::<P>(note));
    let old = match cur {
        Some(i) => i as int,
        None => 0,
    };
    let before = entries.take(old + 1).filter(other_note::<P>(note)).len();
    if kept.len() == 0 {
        None
    } else if before > 0 {
        Some((before - 1) as usize)
    } else {
        Some(0)
    }
}

/// The position after stepping back: one earlier, unless already first.
pub open spec fn back_of(cur: Option<usize>) -> Option<usize> {
    match cur {
        Some(i) => if i > 0 {
            Some((i - 1) as usize)
        } else {
            cur
        },
        None => None,
    }
}

/// The position after stepping forward among `len` entries: one later,
/// unless already last.
pub open spec fn forward_of(cur: Option<usize>, len: nat) -> Option<usize> {
    match cur {
        Some(i) => if i + 1 < len {
            Some((i + 1) as usize)
        } else {
            cur
        },
        None => None,
    }
}

pub struct History<P> {
    entries: Vec<HistoryEntry<P>>,
    current_index: Option<usize>,
}

impl<P> History<P> {
    /// The entries, oldest first.
    pub closed spec fn visits(&self) -> Seq<Visit<P>> {
        visits(self.entries@)
    }

    /// The current position.
    pub closed spec fn cur(&self) -> Option<usize> {
        self.current_index
    }

    /// There is a current position exactly when there are entries, it points
    /// at one of them, and there are at most `MAX_HISTORY_SIZE` of them.
    pub open spec fn wf(&self) -> bool {
        &&& (self.cur() is None) == (self.visits().len() == 0)
        &&& self.cur() matches Some(i) ==> i < self.visits().len()
        &&& self.visits().len() <= MAX_HISTORY_SIZE
    }

    pub fn new() -> (r: Self)
        ensures
            r.wf(),
            r.visits() == Seq::<Visit<P>>::empty(),
            r.cur() is None,
    {
        let r = History { entries: Vec::new(), current_index: None };
        assert(r.visits() =~= Seq::<Visit<P>>::empty());
        r
    }

    /// Visit a note: drop the forward history, append the note and make it
    /// current; the oldest entry goes when there are more than
    /// `MAX_HISTORY_SIZE`.
    pub fn push(&mut self, note_name: String, position: P)
        requires
            old(self).wf(),
        ensures
            final(self).wf(),
            final(self).visits() == pushed(
                old(self).visits(),
                old(self).cur(),
                note_name@,
                position,
            ),
            final(self).cur() == Some((final(self).visits().len() - 1) as usize),
    {
        let ghost before = self.visits();
        let ghost name = note_name@;
        let ghost pos = position;
        if let Some(idx) = self.current_index {
            self.entries.truncate(idx + 1);
        }
        assert(visits(self.entries@) =~= kept_before_push(before, old(self).cur()));
        self.entries.push(HistoryEntry::new(note_name, position));
        assert(visits(self.entries@) =~= kept_before_push(before, old(self).cur()).push(
            (name, pos),
        ));
        if self.entries.len() > MAX_HISTORY_SIZE {
            let ghost all = self.entries@;
            self.entries.remove(0);
            assert(visits(self.entries@) =~= visits(all).drop_first());
        }
        self.current_index = Some(self.entries.len() - 1);
    }

    /// Rename every entry for `from` to `to`, so navigation follows a renamed
    /// note.
    pub fn rename_note(&mut self, from: &str, to: &str)
        requires
            old(self).wf(),
        ensures
            final(self).wf(),
            final(self).visits() == renamed_visits(old(self).visits(), from@, to@),
            final(self).cur() == old(self).cur(),
    {
        let ghost before = self.visits();
        let mut i: usize = 0;
        while i < self.entries.len()
            invariant
                i <= self.entries@.len(),
                self.entries@.len() == before.len(),
                before == visits(old(self).entries@),
                self.current_index == old(self).current_index,
                forall|k: int|
                    0 <= k < i ==> visits(self.entries@)[k] == renamed_visits(before, from@, to@)[k],
                forall|k: int| i <= k < before.len() ==> visits(self.entries@)[k] == before[k],
            decreases self.entries.len() - i,
        {
            if same_text(self.entries[i].note_name.as_str(), from) {
                let name = string_of(chars_of(to).as_slice());
                let mut e = self.entries.remove(i);
                e.note_name = name;
                self.entries.insert(i, e);
            }
            i += 1;
        }
        assert(visits(self.entries@) =~= renamed_visits(before, from@, to@));
    }

    /// Remove every entry for `note` (a deleted note). The position moves to
    /// the nearest surviving entry at or before it, or the first one; it is
    /// `None` when nothing survives.
    pub fn remove_note(&mut self, note: &str)
        requires
            old(self).wf(),
        ensures
            final(self).wf(),
            final(self).visits() == old(self).visits().filter(other_note::<P>(note@)),
            final(self).cur() == position_after_removal(old(self).visits(), old(self).cur(), note@),
    {
        let ghost before = self.visits();
        let old_current: usize = match self.current_index {
            Some(i) => i,
            None => 0,
        };
        let mut rest: Vec<HistoryEntry<P>> = Vec::new();
        std::mem::swap(&mut rest, &mut self.entries);
        let mut kept: Vec<HistoryEntry<P>> = Vec::new();
        let mut new_current: Option<usize> = None;
        let mut i: usize = 0;
        let n = rest.len();
        assert(visits(rest@) =~= before.skip(0));
        while rest.len() > 0
            invariant
                n == before.len(),
                n <= MAX_HISTORY_SIZE,
                old_current < n || n == 0,
                i + rest@.len() == n,
                visits(rest@) == before.skip(i as int),
                visits(kept@) == before.take(i as int).filter(other_note::<P>(note@)),
                new_current == opt_last(
                    before.take(if i <= old_current { i as int } else { old_current + 1 }).filter(
                        other_note::<P>(note@),
                    ).len(),
                ),
                kept@.len() <= i,
            decreases rest.len(),
        {
            let ghost r0 = rest@;
            let e = rest.remove(0);
            proof {
                assert(before.take(i + 1).drop_last() =~= before.take(i as int));
                assert(before.take(i + 1).last() == before[i as int]);
                assert(e == r0[0]);
                assert(visits(r0)[0] == before.skip(i as int)[0]);
                assert(before[i as int] == (e.note_name@, e.position));
                assert(rest@ =~= r0.subrange(1, r0.len() as int));
                assert(visits(rest@) =~= visits(r0).drop_first());
                lemma_filter_step(before, i as int, other_note::<P>(note@));
                assert(visits(rest@) =~= before.skip(i + 1));
            }
            if !same_text(e.note_name.as_str(), note) {
                kept.push(e);
                assert(visits(kept@) =~= before.take(i + 1).filter(other_note::<P>(note@)));
                if i <= old_current {
                    new_current = Some(kept.len() - 1);
                }
            } else {
                assert(visits(kept@) =~= before.take(i + 1).filter(other_note::<P>(note@)));
            }
            i += 1;
        }
        proof {
            assert(before.take(n as int) =~= before);
            if n > 0 {
                lemma_filter_len_mono(before, old_current + 1, n as int, other_note::<P>(note@));
            }
        }
        self.current_index = if kept.len() == 0 {
            None
        } else {
            match new_current {
                Some(c) => Some(c),
                None => Some(0),
            }
        };
        self.entries = kept;
    }

    /// Remember `position` for the current entry.
    pub fn update_position(&mut self, position: P)
        requires
            old(self).wf(),
        ensures
            final(self).wf(),
            final(self).cur() == old(self).cur(),
            final(self).visits() == match old(self).cur() {
                Some(i) => old(self).visits().update(
                    i as int,
                    (old(self).visits()[i as int].0, position),
                ),
                None => old(self).visits(),
            },
    {
        if let Some(idx) = self.current_index {
            if idx < self.entries.len() {
                let ghost before = self.entries@;
                let mut e = self.entries.remove(idx);
                e.position = position;
                self.entries.insert(idx, e);
                assert(visits(self.entries@) =~= visits(before).update(
                    idx as int,
                    (visits(before)[idx as int].0, position),
                ));
            }
        }
    }

    /// How many entries the history holds.
    pub fn len(&self) -> (r: usize)
        ensures
            r == self.visits().len(),
    {
        self.entries.len()
    }

    /// Whether there is an entry before the current one.
    pub fn can_go_back(&self) -> (r: bool)
        requires
            self.wf(),
        ensures
            r == (self.cur() matches Some(i) && i > 0),
    {
        match self.current_index {
            Some(idx) => idx > 0,
            None => false,
        }
    }

    /// Whether there is an entry after the current one.
    pub fn can_go_forward(&self) -> (r: bool)
        requires
            self.wf(),
        ensures
            r == (self.cur() matches Some(i) && i + 1 < self.visits().len()),
    {
        match self.current_index {
            Some(idx) => idx < self.entries.len() - 1,
            None => false,
        }
    }

    /// Step back one entry; the entry to show, or `None` when there is none
    /// before the current one.
    pub fn go_back(&mut self) -> (r: Option<&HistoryEntry<P>>)
        requires
            old(self).wf(),
        ensures
            final(self).wf(),
            final(self).visits() == old(self).visits(),
            final(self).cur() == back_of(old(self).cur()),
            match old(self).cur() {
                Some(i) => if i > 0 {
                    final(self).cur() == Some((i - 1) as usize) && (r matches Some(e) && (
                    e.note_name@, e.position) == old(self).visits()[i - 1])
                } else {
                    final(self).cur() == old(self).cur() && r is None
                },
                None => final(self).cur() is None && r is None,
            },
    {
        if let Some(idx) = self.current_index {
            if idx > 0 {
                self.current_index = Some(idx - 1);
                return Some(&self.entries[idx - 1]);
            }
        }
        None
    }

    /// Step forward one entry; the entry to show, or `None` when there is none
    /// after the current one.
    pub fn go_forward(&mut self) -> (r: Option<&HistoryEntry<P>>)
        requires
            old(self).wf(),
        ensures
            final(self).wf(),
            final(self).visits() == old(self).visits(),
            final(self).cur() == forward_of(old(self).cur(), old(self).visits().len()),
            match old(self).cur() {
                Some(i) => if i + 1 < old(self).visits().len() {
                    final(self).cur() == Some((i + 1) as usize) && (r matches Some(e) && (
                    e.note_name@, e.position) == old(self).visits()[i + 1])
                } else {
                    final(self).cur() == old(self).cur() && r is None
                },
                None => final(self).cur() is None && r is None,
            },
    {
        if let Some(idx) = self.current_index {
            if idx < self.entries.len() - 1 {
                self.current_index = Some(idx + 1);
                return Some(&self.entries[idx + 1]);
            }
        }
        None
    }

    /// The current entry, if any.
    pub fn current(&self) -> (r: Option<&HistoryEntry<P>>)
        requires
            self.wf(),
        ensures
            match self.cur() {
                Some(i) => r matches Some(e) && (e.note_name@, e.position) == self.visits()[i as int],
                None => r is None,
            },
    {
        match self.current_index {
            Some(idx) => Some(&self.entries[idx]),
            None => None,
        }
    }
}

/// Going back and then forward again returns to where navigation was.
pub proof fn back_then_forward_returns(cur: Option<usize>, len: nat)
    requires
        cur matches Some(i) && 0 < i < len,
    ensures
        forward_of(back_of(cur), len) == cur,
{
}

/// Going forward and then back again returns to where navigation was.
pub proof fn forward_then_back_returns(cur: Option<usize>, len: nat)
    requires
        cur matches Some(i) && i + 1 < len,
        len <= MAX_HISTORY_SIZE,
    ensures
        back_of(forward_of(cur, len)) == cur,
{
}

/// A visited note is the last entry, so nothing lies forward of it, and the
/// history never grows past `MAX_HISTORY_SIZE`.
pub proof fn visit_is_last_and_bounded<P>(
    entries: Seq<Visit<P>>,
    cur: Option<usize>,
    name: Seq<char>,
    pos: P,
)
    requires
        entries.len() <= MAX_HISTORY_SIZE,
        cur matches Some(i) ==> i < entries.len(),
    ensures
        pushed(entries, cur, name, pos).len() <= MAX_HISTORY_SIZE,
        pushed(entries, cur, name, pos).len() > 0,
        pushed(entries, cur, name, pos).last() == (name, pos),
        forward_of(
            Some((pushed(entries, cur, name, pos).len() - 1) as usize),
            pushed(entries, cur, name, pos).len(),
        ) == Some((pushed(entries, cur, name, pos).len() - 1) as usize),
{
}

/// After removing a note no entry for it is left.
pub proof fn removed_note_is_gone<P>(entries: Seq<Visit<P>>, note: Seq<char>)
    ensures
        forall|k: int|
            0 <= k < entries.filter(other_note::<P>(note)).len() ==> #[trigger] entries.filter(
                other_note::<P>(note),
            )[k].0 != note,
{
    assert forall|k: int|
        0 <= k < entries.filter(other_note::<P>(note)).len() implies #[trigger] entries.filter(
        other_note::<P>(note),
    )[k].0 != note by {
        let e = entries.filter(other_note::<P>(note))[k];
        entries.filter_lemma(other_note::<P>(note));
        assert(other_note::<P>(note)(e));
    }
}

/// After renaming a note no entry for the old name is left, and the number
/// of entries is unchanged.
pub proof fn renamed_note_is_gone<P>(entries: Seq<Visit<P>>, from: Seq<char>, to: Seq<char>)
    requires
        from != to,
    ensures
        renamed_visits(entries, from, to).len() == entries.len(),
        forall|k: int|
            0 <= k < entries.len() ==> #[trigger] renamed_visits(entries, from, to)[k].0 != from,
{
}

proof fn lemma_filter_step<A>(s: Seq<A>, i: int, f: spec_fn(A) -> bool)
    requires
        0 <= i < s.len(),
    ensures
        s.take(i + 1).filter(f) == if f(s[i]) {
            s.take(i).filter(f).push(s[i])
        } else {
            s.take(i).filter(f)
        },
{
    reveal(Seq::filter);
    assert(s.take(i + 1).drop_last() =~= s.take(i));
    assert(s.take(i + 1).last() == s[i]);
}

proof fn lemma_filter_len_mono<A>(s: Seq<A>, a: int, b: int, f: spec_fn(A) -> bool)
    requires
        0 <= a <= b <= s.len(),
    ensures
        s.take(a).filter(f).len() <= s.take(b).filter(f).len(),
    decreases b - a,
{
    if a < b {
        lemma_filter_len_mono(s, a, b - 1, f);
        lemma_filter_step(s, b - 1, f);
    }
}

} // verus!
