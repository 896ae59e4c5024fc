//! The decisions of a sync with one remote and of an automatic commit: what
//! to do given where the two branches stand, which remote branch pairs with
//! the local one, how staged entries read as changes, which paths a sync
//! changed, and the messages that explain a refusal.
//!
//! Commits are named by their ids as text; the repository is the caller's.
use vstd::prelude::*;
use crate::git::message::Change;
use crate::text::{
    chars_of, lemma_lex_total, lemma_lex_trans, lex_less, lex_less_exec, push_all, push_str,
    same_chars, same_text, slice, starts_with, string_of, string_views,
};

verus! {

// ---------------------------------------------------------------------------
// Where the branches stand
// ---------------------------------------------------------------------------

/// What a sync does with one remote once both sides are known.
#[derive(Debug, Clone, Copy, PartialEq, Eq, Structural)]
pub enum SyncAction {
    /// Both sides are the same (or both empty): nothing to do.
    UpToDate,
    /// Nothing is committed here yet: take the remote branch as it is.
    AdoptRemote,
    /// The local branch is ahead: push it.
    Push,
    /// The remote branch is ahead: fast-forward to it.
    FastForward,
    /// The branches diverged: merge the remote into the local one, then push.
    MergeAndPush,
}

/// The action for a local and a remote branch head (`None` for no commit).
/// `local_ahead` tells whether the local head descends from the remote one,
/// `remote_ahead` the reverse; they are only consulted when both heads exist
/// and differ, and `local_ahead` first.
pub open spec fn action_for(
    local: Option<Seq<char>>,
    remote: Option<Seq<char>>,
    local_ahead: bool,
    remote_ahead: bool,
) -> SyncAction {
    match (local, remote) {
        (None, None) => SyncAction::UpToDate,
        (None, Some(_)) => SyncAction::AdoptRemote,
        (Some(_), None) => SyncAction::Push,
        (Some(ours), Some(theirs)) => if ours == theirs {
            SyncAction::UpToDate
        } else if local_ahead {
            SyncAction::Push
        } else if remote_ahead {
            SyncAction::FastForward
        } else {
            SyncAction::MergeAndPush
        },
    }
}

/// Decide what a sync does with one remote (see `action_for`).
pub fn sync_action(
    local: Option<&str>,
    remote: Option<&str>,
    local_ahead: bool,
    remote_ahead: bool,
) -> (r: SyncAction)
    ensures
        r == action_for(
            match local {
                Some(l) => Some(l@),
                None => None,
            },
            match remote {
                Some(t) => Some(t@),
                None => None,
            },
            local_ahead,
            remote_ahead,
        ),
{
    match (local, remote) {
        (None, None) => SyncAction::UpToDate,
        (None, Some(_)) => SyncAction::AdoptRemote,
        (Some(_), None) => SyncAction::Push,
        (Some(ours), Some(theirs)) => if same_text(ours, theirs) {
            SyncAction::UpToDate
        } else if local_ahead {
            SyncAction::Push
        } else if remote_ahead {
            SyncAction::FastForward
        } else {
            SyncAction::MergeAndPush
        },
    }
}

/// What the action does, as (pulled, merged, pushed): adopting or
/// fast-forwarding pulls, a merge pulls, merges and pushes, a push pushes.
pub open spec fn effects_of(a: SyncAction) -> (bool, bool, bool) {
    match a {
        SyncAction::UpToDate => (false, false, false),
        SyncAction::AdoptRemote => (true, false, false),
        SyncAction::Push => (false, false, true),
        SyncAction::FastForward => (true, false, false),
        SyncAction::MergeAndPush => (true, true, true),
    }
}

impl SyncAction {
    /// Whether the action pulled, merged and pushed.
    pub fn effects(&self) -> (r: (bool, bool, bool))
        ensures
            r == effects_of(*self),
    {
        match self {
            SyncAction::UpToDate => (false, false, false),
            SyncAction::AdoptRemote => (true, false, false),
            SyncAction::Push => (false, false, true),
            SyncAction::FastForward => (true, false, false),
            SyncAction::MergeAndPush => (true, true, true),
        }
    }
}

/// A sync never leaves a remote behind and never loses local work: whenever
/// the local branch has commits the remote lacks (it is ahead, or the two
/// diverged), the action pushes; whenever the remote has commits the local
/// branch lacks, it pulls; and two identical heads are left alone.
pub proof fn sync_pushes_and_pulls_what_is_missing(
    local: Option<Seq<char>>,
    remote: Option<Seq<char>>,
    local_ahead: bool,
    remote_ahead: bool,
)
    ensures
        local is Some && remote is None ==> effects_of(action_for(local, remote, local_ahead, remote_ahead)).2,
        local is None && remote is Some ==> effects_of(action_for(local, remote, local_ahead, remote_ahead)).0,
        local == remote ==> effects_of(action_for(local, remote, local_ahead, remote_ahead)) == (false, false, false),
        local is Some && remote is Some && local != remote && !remote_ahead ==> effects_of(
            action_for(local, remote, local_ahead, remote_ahead),
        ).2,
        local is Some && remote is Some && local != remote && !local_ahead ==> effects_of(
            action_for(local, remote, local_ahead, remote_ahead),
        ).0,
{
}

// ---------------------------------------------------------------------------
// The remote branch to sync with
// ---------------------------------------------------------------------------

/// The prefix of the remote-tracking references of `remote`.
pub open spec fn tracking_prefix(remote: Seq<char>) -> Seq<char> {
    "refs/remotes/"@ + remote + seq!['/']
}

/// The branch names, with their commits, among the references of `remote`:
/// the name after the tracking prefix, without `HEAD` and without references
/// that point at no commit.
pub open spec fn remote_branches(remote: Seq<char>, refs: Seq<(Seq<char>, Option<Seq<char>>)>) -> Seq<
    (Seq<char>, Seq<char>),
>
    decreases refs.len(),
{
    if refs.len() == 0 {
        Seq::empty()
    } else {
        let prev = remote_branches(remote, refs.drop_last());
        let (name, target) = refs.last();
        let p = tracking_prefix(remote);
        if starts_with(name, p) && name.skip(p.len() as int) != "HEAD"@ && target is Some {
            prev.push((name.skip(p.len() as int), target->0))
        } else {
            prev
        }
    }
}

/// Branch names joined with `, `.
pub open spec fn comma_joined(names: Seq<Seq<char>>) -> Seq<char>
    decreases names.len(),
{
    if names.len() == 0 {
        Seq::empty()
    } else if names.len() == 1 {
        names[0]
    } else {
        comma_joined(names.drop_last()) + ", "@ + names.last()
    }
}

/// The message when the remote has several other branches and none of the
/// local branch's name.
pub open spec fn ambiguous_message(remote: Seq<char>, branch: Seq<char>, names: Seq<Seq<char>>) -> Seq<char> {
    "Remote '"@ + remote + "' has no branch named '"@ + branch + "' but several others ("@
        + comma_joined(names) + "); not sure which one to sync with."@
}

/// The remote branch to sync `branch` with, and its commit: the same name when
/// the remote has it (`same`), otherwise the remote's only branch (so a `main`
/// here pairs with a `master` there); with no branches, the same name and no
/// commit (the remote is empty); with several, an error.
pub open spec fn counterpart_of(
    remote: Seq<char>,
    branch: Seq<char>,
    same: Option<Option<Seq<char>>>,
    refs: Seq<(Seq<char>, Option<Seq<char>>)>,
) -> Result<(Seq<char>, Option<Seq<char>>), Seq<char>> {
    match same {
        Some(target) => Ok((branch, target)),
        None => {
            let cands = remote_branches(remote, refs);
            if cands.len() == 0 {
                Ok((branch, None))
            } else if cands.len() == 1 {
                Ok((cands[0].0, Some(cands[0].1)))
            } else {
                Err(ambiguous_message(remote, branch, cands.map_values(|c: (Seq<char>, Seq<char>)| c.0)))
            }
        },
    }
}

/// The pair's text values.
pub open spec fn pair_view(p: (String, String)) -> (Seq<char>, Seq<char>) {
    (p.0@, p.1@)
}

/// The references' text values.
pub open spec fn ref_views(refs: Seq<(String, Option<String>)>) -> Seq<(Seq<char>, Option<Seq<char>>)> {
    refs.map_values(
        |r: (String, Option<String>)|
            (
                r.0@,
                match r.1 {
                    Some(t) => Some(t@),
                    None => None,
                },
            ),
    )
}

fn branches_of(remote: &str, refs: &[(String, Option<String>)]) -> (r: Vec<(String, String)>)
    ensures
        r@.map_values(|p: (String, String)| pair_view(p)) == remote_branches(remote@, ref_views(refs@)),
{
    let ghost rv = ref_views(refs@);
    let mut prefix = chars_of("refs/remotes/");
    push_str(&mut prefix, remote);
    prefix.push('/');
    assert(prefix@ =~= tracking_prefix(remote@));
    let head = chars_of("HEAD");
    let mut out: Vec<(String, String)> = Vec::new();
    let mut i: usize = 0;
    while i < refs.len()
        invariant
            rv == ref_views(refs@),
            prefix@ == tracking_prefix(remote@),
            head@ == "HEAD"@,
            i <= refs@.len(),
            out@.map_values(|p: (String, String)| pair_view(p)) == remote_branches(remote@, rv.take(i as int)),
        decreases refs.len() - i,
    {
        let ghost before = out@.map_values(|p: (String, String)| pair_view(p));
        assert(rv.take(i + 1).drop_last() =~= rv.take(i as int));
        assert(rv.take(i + 1).last() == rv[i as int]);
        let name = chars_of(refs[i].0.as_str());
        if crate::text::has_prefix(name.as_slice(), prefix.as_slice()) {
            let short = slice(name.as_slice(), prefix.len(), name.len());
            assert(short@ =~= name@.skip(prefix@.len() as int));
            match &refs[i].1 {
                Some(t) => {
                    if !same_chars(short.as_slice(), head.as_slice()) {
                        out.push((string_of(short.as_slice()), t.clone()));
                        assert(out@.map_values(|p: (String, String)| pair_view(p)) =~= before.push(
                            (short@, t@),
                        ));
                    }
                },
                None => {},
            }
        }
        i += 1;
    }
    assert(rv.take(refs@.len() as int) =~= rv);
    out
}

fn join_names(names: &[(String, String)]) -> (r: Vec<char>)
    ensures
        r@ == comma_joined(names@.map_values(|p: (String, String)| pair_view(p).0)),
{
    let ghost nv = names@.map_values(|p: (String, String)| pair_view(p).0);
    let mut out: Vec<char> = Vec::new();
    let mut i: usize = 0;
    while i < names.len()
        invariant
            nv == names@.map_values(|p: (String, String)| pair_view(p).0),
            i <= names@.len(),
            out@ == comma_joined(nv.take(i as int)),
        decreases names.len() - i,
    {
        assert(nv.take(i + 1).drop_last() =~= nv.take(i as int));
        if i > 0 {
            push_str(&mut out, ", ");
        }
        push_str(&mut out, names[i].0.as_str());
        i += 1;
    }
    assert(nv.take(names@.len() as int) =~= nv);
    out
}

/// The remote branch to sync `branch` with (see `counterpart_of`): `same` is
/// the commit of the remote's branch of the same name when that reference
/// exists, `refs` the remote's tracking references with their commits.
pub fn remote_counterpart(
    remote: &str,
    branch: &str,
    same: Option<Option<String>>,
    refs: &[(String, Option<String>)],
) -> (r: Result<(String, Option<String>), String>)
    ensures
        match (r, counterpart_of(
            remote@,
            branch@,
            match same {
                Some(t) => Some(
                    match t {
                        Some(x) => Some(x@),
                        None => None,
                    },
                ),
                None => None,
            },
            ref_views(refs@),
        )) {
            (Ok((n, t)), Ok((sn, st))) => n@ == sn && match (t, st) {
                (Some(a), Some(b)) => a@ == b,
                (None, None) => true,
                _ => false,
            },
            (Err(m), Err(sm)) => m@ == sm,
            _ => false,
        },
{
    match same {
        Some(t) => Ok((branch.to_owned(), t)),
        None => {
            let cands = branches_of(remote, refs);
            proof {
                assert(cands@.len() == remote_branches(remote@, ref_views(refs@)).len());
            }
            if cands.len() == 0 {
                Ok((branch.to_owned(), None))
            } else if cands.len() == 1 {
                let ghost cv = cands@.map_values(|p: (String, String)| pair_view(p));
                assert(cv[0] == pair_view(cands@[0]));
                Ok((cands[0].0.clone(), Some(cands[0].1.clone())))
            } else {
                let mut msg = chars_of("Remote '");
                push_str(&mut msg, remote);
                push_str(&mut msg, "' has no branch named '");
                push_str(&mut msg, branch);
                push_str(&mut msg, "' but several others (");
                let joined = join_names(cands.as_slice());
                push_all(&mut msg, joined.as_slice());
                push_str(&mut msg, "); not sure which one to sync with.");
                proof {
                    let cv = cands@.map_values(|p: (String, String)| pair_view(p));
                    assert(cands@.map_values(|p: (String, String)| pair_view(p).0) =~= cv.map_values(
                        |c: (Seq<char>, Seq<char>)| c.0,
                    ));
                }
                Err(string_of(msg.as_slice()))
            }
        },
    }
}

// ---------------------------------------------------------------------------
// Paths a sync changed, and conflicts
// ---------------------------------------------------------------------------

/// `s` is sorted strictly increasing: sorted, no duplicates.
pub open spec fn strictly_sorted(s: Seq<Seq<char>>) -> bool {
    forall|i: int, j: int| 0 <= i < j < s.len() ==> lex_less(#[trigger] s[i], #[trigger] s[j])
}

/// Sorted and de-duplicated: exactly the texts of `v`, each once, in order.
pub open spec fn sorted_set_of(v: Seq<Seq<char>>, r: Seq<Seq<char>>) -> bool {
    &&& strictly_sorted(r)
    &&& forall|x: Seq<char>| v.contains(x) <==> r.contains(x)
}

fn insert_sorted(out: &mut Vec<Vec<char>>, x: Vec<char>)
    requires
        strictly_sorted(crate::text::views(old(out)@)),
    ensures
        strictly_sorted(crate::text::views(final(out)@)),
        forall|y: Seq<char>|
            crate::text::views(final(out)@).contains(y) <==> (crate::text::views(old(out)@).contains(y) || y
                == x@),
{
    let ghost before = crate::text::views(out@);
    let mut i: usize = 0;
    while i < out.len() && lex_less_exec(out[i].as_slice(), x.as_slice())
        invariant
            before == crate::text::views(out@),
            strictly_sorted(before),
            i <= out@.len(),
            forall|k: int| 0 <= k < i ==> lex_less(#[trigger] before[k], x@),
        decreases out.len() - i,
    {
        i += 1;
    }
    if i < out.len() && same_chars(out[i].as_slice(), x.as_slice()) {
        proof {
            assert(before[i as int] == x@);
            assert forall|y: Seq<char>| before.contains(y) <==> (before.contains(y) || y == x@) by {
                if y == x@ {
                    assert(before[i as int] == y);
                }
            }
        }
        return;
    }
    proof {
        if i < before.len() {
            lemma_lex_total(before[i as int], x@);
        }
    }
    out.insert(i, x);
    proof {
        let after = crate::text::views(out@);
        assert(after =~= before.insert(i as int, x@));
        assert forall|a: int, b: int| 0 <= a < b < after.len() implies lex_less(
            #[trigger] after[a],
            #[trigger] after[b],
        ) by {
            if b == i {
                assert(lex_less(before[a], x@));
            } else if a == i {
                assert(lex_less(x@, before[i as int]));
                if b - 1 > i {
                    assert(lex_less(before[i as int], before[b - 1]));
                    lemma_lex_trans(x@, before[i as int], before[b - 1]);
                }
            } else {
                let a0 = if a < i { a } else { a - 1 };
                let b0 = if b < i { b } else { b - 1 };
                assert(after[a] == before[a0]);
                assert(after[b] == before[b0]);
            }
        }
        assert forall|y: Seq<char>| after.contains(y) <==> (before.contains(y) || y == x@) by {
            if after.contains(y) {
                let k = choose|k: int| 0 <= k < after.len() && #[trigger] after[k] == y;
                if k != i {
                    let k0 = if k < i { k } else { k - 1 };
                    assert(before[k0] == y);
                }
            }
            if before.contains(y) {
                let k = choose|k: int| 0 <= k < before.len() && #[trigger] before[k] == y;
                let k1 = if k < i { k } else { k + 1 };
                assert(after[k1] == y);
            }
            if y == x@ {
                assert(after[i as int] == y);
            }
        }
    }
}

/// `paths` sorted, each once.
pub fn sorted_unique(paths: &[String]) -> (r: Vec<String>)
    ensures
        sorted_set_of(string_views(paths@), string_views(r@)),
{
    let ghost pv = string_views(paths@);
    let mut out: Vec<Vec<char>> = Vec::new();
    let mut i: usize = 0;
    while i < paths.len()
        invariant
            pv == string_views(paths@),
            i <= paths@.len(),
            strictly_sorted(crate::text::views(out@)),
            forall|y: Seq<char>| crate::text::views(out@).contains(y) <==> pv.take(i as int).contains(y),
        decreases paths.len() - i,
    {
        let x = chars_of(paths[i].as_str());
        assert(x@ == pv[i as int]);
        let ghost xv = x@;
        let ghost before_out = crate::text::views(out@);
        insert_sorted(&mut out, x);
        proof {
            assert forall|y: Seq<char>| pv.take(i + 1).contains(y) <==> (pv.take(i as int).contains(y) || y
                == pv[i as int]) by {
                if pv.take(i + 1).contains(y) {
                    let k = choose|k: int| 0 <= k < i + 1 && #[trigger] pv.take(i + 1)[k] == y;
                    if k < i {
                        assert(pv.take(i as int)[k] == y);
                    }
                }
                if pv.take(i as int).contains(y) {
                    let k = choose|k: int| 0 <= k < i && #[trigger] pv.take(i as int)[k] == y;
                    assert(pv.take(i + 1)[k] == y);
                }
                if y == pv[i as int] {
                    assert(pv.take(i + 1)[i as int] == y);
                }
            }
            assert forall|y: Seq<char>| crate::text::views(out@).contains(y) <==> pv.take(i + 1).contains(
                y,
            ) by {
                assert(crate::text::views(out@).contains(y) <==> (before_out.contains(y) || y == xv));
                assert(before_out.contains(y) <==> pv.take(i as int).contains(y));
            }
        }
        i += 1;
    }
    assert(pv.take(paths@.len() as int) =~= pv);
    let r = crate::text::strings_of(&out);
    r
}

/// How a changed file of a tree diff was changed.
#[derive(Debug, Clone, Copy, PartialEq, Eq, Structural)]
pub enum DeltaKind {
    Deleted,
    Renamed,
    /// Added, modified, or any other change.
    Other,
}

/// The paths a diff entry touches: the old path of a deletion, otherwise the
/// new path, and for a rename also the old one.
pub open spec fn delta_paths(kind: DeltaKind, old: Option<Seq<char>>, new: Option<Seq<char>>) -> Seq<Seq<char>> {
    let main = if kind == DeltaKind::Deleted {
        old
    } else {
        new
    };
    let first = match main {
        Some(p) => seq![p],
        None => Seq::empty(),
    };
    if kind == DeltaKind::Renamed {
        match old {
            Some(p) => first.push(p),
            None => first,
        }
    } else {
        first
    }
}

/// The paths of all diff entries, in order.
pub open spec fn all_delta_paths(d: Seq<(DeltaKind, Option<Seq<char>>, Option<Seq<char>>)>) -> Seq<Seq<char>>
    decreases d.len(),
{
    if d.len() == 0 {
        Seq::empty()
    } else {
        all_delta_paths(d.drop_last()) + delta_paths(d.last().0, d.last().1, d.last().2)
    }
}

/// The diff entries as values.
pub open spec fn delta_views(d: Seq<(DeltaKind, Option<String>, Option<String>)>) -> Seq<
    (DeltaKind, Option<Seq<char>>, Option<Seq<char>>),
> {
    d.map_values(
        |e: (DeltaKind, Option<String>, Option<String>)|
            (
                e.0,
                match e.1 {
                    Some(p) => Some(p@),
                    None => None,
                },
                match e.2 {
                    Some(p) => Some(p@),
                    None => None,
                },
            ),
    )
}

/// The paths whose content a diff between two commits changed, sorted, each
/// once (see `delta_paths` for which paths an entry contributes).
pub fn changed_paths(deltas: &[(DeltaKind, Option<String>, Option<String>)]) -> (r: Vec<String>)
    ensures
        sorted_set_of(all_delta_paths(delta_views(deltas@)), string_views(r@)),
{
    let ghost dv = delta_views(deltas@);
    let mut paths: Vec<String> = Vec::new();
    let mut i: usize = 0;
    while i < deltas.len()
        invariant
            dv == delta_views(deltas@),
            i <= deltas@.len(),
            string_views(paths@) == all_delta_paths(dv.take(i as int)),
        decreases deltas.len() - i,
    {
        let ghost before = string_views(paths@);
        assert(dv.take(i + 1).drop_last() =~= dv.take(i as int));
        assert(dv.take(i + 1).last() == dv[i as int]);
        let (kind, old, new) = &deltas[i];
        let main = if *kind == DeltaKind::Deleted {
            old
        } else {
            new
        };
        match main {
            Some(p) => paths.push(p.clone()),
            None => {},
        }
        if *kind == DeltaKind::Renamed {
            match old {
                Some(p) => paths.push(p.clone()),
                None => {},
            }
        }
        assert(string_views(paths@) =~= before + delta_paths(dv[i as int].0, dv[i as int].1, dv[i as int].2));
        i += 1;
    }
    assert(dv.take(deltas@.len() as int) =~= dv);
    sorted_unique(paths.as_slice())
}

/// The message when merging would conflict: the conflicting paths (sorted,
/// each once, joined with `, `) and where to resolve it.
pub fn conflict_message(remote: &str, paths: &[String], workdir: &str) -> (r: String)
    ensures
        exists|sorted: Seq<Seq<char>>|
            sorted_set_of(string_views(paths@), sorted) && r@ == "Changes from '"@ + remote@
                + "' conflict with local changes in: "@ + comma_joined(sorted)
                + ". Resolve this with git in "@ + workdir@ + " (e.g. `git pull "@ + remote@
                + "`), then sync again."@,
{
    let sorted = sorted_unique(paths);
    let mut msg = chars_of("Changes from '");
    push_str(&mut msg, remote);
    push_str(&mut msg, "' conflict with local changes in: ");
    let ghost sv = string_views(sorted@);
    let mut i: usize = 0;
    while i < sorted.len()
        invariant
            sv == string_views(sorted@),
            i <= sorted@.len(),
            msg@ == "Changes from '"@ + remote@ + "' conflict with local changes in: "@ + comma_joined(
                sv.take(i as int),
            ),
        decreases sorted.len() - i,
    {
        assert(sv.take(i + 1).drop_last() =~= sv.take(i as int));
        if i > 0 {
            push_str(&mut msg, ", ");
        }
        push_str(&mut msg, sorted[i].as_str());
        i += 1;
    }
    assert(sv.take(sorted@.len() as int) =~= sv);
    push_str(&mut msg, ". Resolve this with git in ");
    push_str(&mut msg, workdir);
    push_str(&mut msg, " (e.g. `git pull ");
    push_str(&mut msg, remote);
    push_str(&mut msg, "`), then sync again.");
    string_of(msg.as_slice())
}

// ---------------------------------------------------------------------------
// Staged changes
// ---------------------------------------------------------------------------

/// How one staged entry reads as a change: a rename from its old to its new
/// path, an addition or a deletion, anything else a modification. The new
/// path falls back to the entry's path (`?` when unreadable), the old path to
/// the new one.
pub fn staged_change(
    renamed: bool,
    added: bool,
    deleted: bool,
    entry_path: Option<&str>,
    delta_new: Option<&str>,
    delta_old: Option<&str>,
) -> (r: Change)
    ensures
        ({
            let new_path = match delta_new {
                Some(p) => p@,
                None => match entry_path {
                    Some(p) => p@,
                    None => "?"@,
                },
            };
            let old_path = match delta_old {
                Some(p) => p@,
                None => new_path,
            };
            match r {
                Change::Renamed(o, n) => renamed && o@ == old_path && n@ == new_path,
                Change::Added(n) => !renamed && added && n@ == new_path,
                Change::Deleted(o) => !renamed && !added && deleted && o@ == old_path,
                Change::Modified(n) => !renamed && !added && !deleted && n@ == new_path,
            }
        }),
{
    let new_path: String = match delta_new {
        Some(p) => p.to_owned(),
        None => match entry_path {
            Some(p) => p.to_owned(),
            None => "?".to_owned(),
        },
    };
    let old_path: String = match delta_old {
        Some(p) => p.to_owned(),
        None => new_path.clone(),
    };
    if renamed {
        Change::Renamed(old_path, new_path)
    } else if added {
        Change::Added(new_path)
    } else if deleted {
        Change::Deleted(old_path)
    } else {
        Change::Modified(new_path)
    }
}

/// The merge stage an index entry's flags record (0 for an ordinary,
/// conflict-free entry): bits 12 and 13.
pub fn entry_stage(flags: u16) -> (r: u16)
    ensures
        r == (flags & 0x3000) >> 12,
        r <= 3,
{
    assert((flags & 0x3000u16) >> 12u16 <= 3u16) by (bit_vector);
    (flags & 0x3000) >> 12
}

// ---------------------------------------------------------------------------
// Messages and references
// ---------------------------------------------------------------------------

/// An error from the repository with what was being done: "context: message".
pub fn gerr(context: &str, message: &str) -> (r: String)
    ensures
        r@ == context@ + ": "@ + message@,
{
    let mut out = chars_of(context);
    push_str(&mut out, ": ");
    push_str(&mut out, message);
    string_of(out.as_slice())
}

/// Refusing to integrate remote changes into a working tree with uncommitted
/// changes.
pub fn not_clean_message(remote: &str) -> (r: String)
    ensures
        r@ == "Not integrating changes from '"@ + remote@
            + "': the notes directory has uncommitted changes."@,
{
    let mut out = chars_of("Not integrating changes from '");
    push_str(&mut out, remote);
    push_str(&mut out, "': the notes directory has uncommitted changes.");
    string_of(out.as_slice())
}

/// Refusing to merge histories without a common ancestor.
pub fn unrelated_history_message(remote: &str) -> (r: String)
    ensures
        r@ == "The notes on '"@ + remote@
            + "' have a different history than the local ones (no common ancestor); refusing to merge them."@,
{
    let mut out = chars_of("The notes on '");
    push_str(&mut out, remote);
    push_str(
        &mut out,
        "' have a different history than the local ones (no common ancestor); refusing to merge them.",
    );
    string_of(out.as_slice())
}

/// The message of a merge commit.
pub fn merge_commit_message(remote: &str) -> (r: String)
    ensures
        r@ == "Merge changes from "@ + remote@,
{
    let mut out = chars_of("Merge changes from ");
    push_str(&mut out, remote);
    string_of(out.as_slice())
}

/// The reflog message of a fast-forward.
pub fn fast_forward_reflog(remote: &str) -> (r: String)
    ensures
        r@ == "piki sync: fast-forward to "@ + remote@,
{
    let mut out = chars_of("piki sync: fast-forward to ");
    push_str(&mut out, remote);
    string_of(out.as_slice())
}

/// The reference of a local branch.
pub fn branch_ref(branch: &str) -> (r: String)
    ensures
        r@ == "refs/heads/"@ + branch@,
{
    let mut out = chars_of("refs/heads/");
    push_str(&mut out, branch);
    string_of(out.as_slice())
}

/// The refspec pushing the local `branch` to the remote's `remote_branch`.
pub fn push_refspec(branch: &str, remote_branch: &str) -> (r: String)
    ensures
        r@ == "refs/heads/"@ + branch@ + ":refs/heads/"@ + remote_branch@,
{
    let mut out = chars_of("refs/heads/");
    push_str(&mut out, branch);
    push_str(&mut out, ":refs/heads/");
    push_str(&mut out, remote_branch);
    string_of(out.as_slice())
}

/// The fetch refspec for a remote used through an anonymous remote (its URL
/// had to be normalized), storing its branches under the remote's name.
pub fn fetch_refspec(name: &str) -> (r: String)
    ensures
        r@ == "+refs/heads/*:refs/remotes/"@ + name@ + "/*"@,
{
    let mut out = chars_of("+refs/heads/*:refs/remotes/");
    push_str(&mut out, name);
    push_str(&mut out, "/*");
    string_of(out.as_slice())
}

/// Refusing a push the other side rejected.
pub fn push_rejected_message(name: &str, detail: &str) -> (r: String)
    ensures
        r@ == "Pushing to '"@ + name@ + "' was rejected ("@ + detail@
            + "). If the other machine has uncommitted changes, sync there first."@,
{
    let mut out = chars_of("Pushing to '");
    push_str(&mut out, name);
    push_str(&mut out, "' was rejected (");
    push_str(&mut out, detail);
    push_str(&mut out, "). If the other machine has uncommitted changes, sync there first.");
    string_of(out.as_slice())
}

/// Refusing to commit while a merge, rebase or the like is in progress.
pub fn operation_in_progress_message(workdir: &str) -> (r: String)
    ensures
        r@ == "A Git operation (merge, rebase, …) is in progress in "@ + workdir@
            + "; finish or abort it with git first."@,
{
    let mut out = chars_of("A Git operation (merge, rebase, …) is in progress in ");
    push_str(&mut out, workdir);
    push_str(&mut out, "; finish or abort it with git first.");
    string_of(out.as_slice())
}

/// The title of a commit: the first line of its message.
pub fn commit_title(message: &str) -> (r: String)
    ensures
        crate::text::lines(message@).len() > 0 ==> r@ == crate::text::lines(message@)[0],
        crate::text::lines(message@).len() == 0 ==> r@.len() == 0,
{
    let cs = chars_of(message);
    let ls = crate::text::lines_of(cs.as_slice());
    if ls.len() == 0 {
        String::new()
    } else {
        proof {
            assert(crate::text::views(ls@)[0] == ls@[0]@);
        }
        string_of(ls[0].as_slice())
    }
}

} // verus!
