//! Which remotes a sync uses, following the rules documented on
//! `GitConfig::remotes`.
use vstd::prelude::*;
use crate::config::GitConfig;
use crate::text::{chars_of, push_str, string_of, string_views};

verus! {

/// Some entry of `names` is `n`.
pub open spec fn names_contain(names: Seq<String>, n: Seq<char>) -> bool {
    exists|i: int| 0 <= i < names.len() && #[trigger] names[i]@ == n
}

/// The first entry of `list` that is not among `existing`.
pub open spec fn first_missing(list: Seq<String>, existing: Seq<String>) -> Option<Seq<char>>
    decreases list.len(),
{
    if list.len() == 0 {
        None
    } else if !names_contain(existing, list[0]@) {
        Some(list[0]@)
    } else {
        first_missing(list.drop_first(), existing)
    }
}

/// The entries of `names` that are among `existing`, in order.
pub open spec fn present(names: Seq<String>, existing: Seq<String>) -> Seq<Seq<char>>
    decreases names.len(),
{
    if names.len() == 0 {
        Seq::<Seq<char>>::empty()
    } else if names_contain(existing, names.last()@) {
        present(names.drop_last(), existing).push(names.last()@)
    } else {
        present(names.drop_last(), existing)
    }
}

/// The error for a configured remote that does not exist.
pub open spec fn missing_remote_message(name: Seq<char>) -> Seq<char> {
    "Remote '"@ + name + "' from the [git] remotes setting in ~/.pikirc does not exist. Add it with `piki remote add "@
        + name + "` or remove it from the list."@
}

/// The error when there is nothing to sync with.
pub open spec fn no_remote_message() -> Seq<char> {
    "No remote to sync with: there is no 'origin' remote and none was added with `piki remote add <host>`. To sync with nothing (commits only), set `remotes = []` under [git] in ~/.pikirc."@
}

/// The remotes a sync uses: the configured list when there is one (every
/// name must exist); otherwise the registered remotes that exist; otherwise
/// `origin` when it exists; otherwise an error. An empty result means
/// "commit only".
pub open spec fn sync_remote_choice(
    configured: Option<Seq<String>>,
    existing: Seq<String>,
    registered: Seq<String>,
) -> Result<Seq<Seq<char>>, Seq<char>> {
    match configured {
        Some(list) => match first_missing(list, existing) {
            Some(name) => Err(missing_remote_message(name)),
            None => Ok(string_views(list)),
        },
        None => if present(registered, existing).len() > 0 {
            Ok(present(registered, existing))
        } else if names_contain(existing, "origin"@) {
            Ok(seq!["origin"@])
        } else {
            Err(no_remote_message())
        },
    }
}

pub open spec fn configured_list(config: GitConfig) -> Option<Seq<String>> {
    match config.remotes {
        Some(v) => Some(v@),
        None => None,
    }
}

/// Whether `name` is among `names`.
pub fn contains_name(names: &[String], name: &str) -> (r: bool)
    ensures
        r == names_contain(names@, name@),
{
    let mut i: usize = 0;
    while i < names.len()
        invariant
            i <= names@.len(),
            forall|j: int| 0 <= j < i ==> names@[j]@ != name@,
        decreases names.len() - i,
    {
        let here: &str = names[i].as_str();
        let a = chars_of(here);
        let b = chars_of(name);
        if crate::text::matches_at(a.as_slice(), b.as_slice(), 0) && a.len() == b.len() {
            assert(a@ =~= b@);
            return true;
        }
        proof {
            if a@ == b@ {
                assert(a@.subrange(0, b@.len() as int) =~= b@);
            }
        }
        i += 1;
    }
    false
}

fn find_missing(list: &Vec<String>, existing: &[String]) -> (r: Option<usize>)
    ensures
        match r {
            Some(k) => k < list@.len() && first_missing(list@, existing@) == Some(list@[k as int]@),
            None => first_missing(list@, existing@) is None,
        },
{
    let mut i: usize = 0;
    assert(list@.subrange(0, list@.len() as int) =~= list@);
    while i < list.len()
        invariant
            i <= list@.len(),
            first_missing(list@, existing@) == first_missing(
                list@.subrange(i as int, list@.len() as int),
                existing@,
            ),
        decreases list.len() - i,
    {
        let ghost rest = list@.subrange(i as int, list@.len() as int);
        assert(rest[0] == list@[i as int]);
        if !contains_name(existing, list[i].as_str()) {
            return Some(i);
        }
        assert(rest.drop_first() =~= list@.subrange(i + 1, list@.len() as int));
        i += 1;
    }
    None
}

/// Resolve which remotes a sync should use: `existing` are the remotes the
/// repository has, `registered` those recorded by `piki remote add`, in
/// configuration order.
pub fn resolve_sync_remotes(
    config: &GitConfig,
    existing: &[String],
    registered: &[String],
) -> (r: Result<Vec<String>, String>)
    ensures
        match (r, sync_remote_choice(configured_list(*config), existing@, registered@)) {
            (Ok(v), Ok(w)) => string_views(v@) == w,
            (Err(e), Err(f)) => e@ == f,
            _ => false,
        },
{
    match &config.remotes {
        Some(list) => {
            match find_missing(list, existing) {
                Some(k) => {
                    let name = list[k].as_str();
                    let mut msg: Vec<char> = Vec::new();
                    push_str(&mut msg, "Remote '");
                    push_str(&mut msg, name);
                    push_str(
                        &mut msg,
                        "' from the [git] remotes setting in ~/.pikirc does not exist. Add it with `piki remote add ",
                    );
                    push_str(&mut msg, name);
                    push_str(&mut msg, "` or remove it from the list.");
                    return Err(string_of(msg.as_slice()));
                },
                None => {
                    let copy = copy_names(list.as_slice());
                    return Ok(copy);
                },
            }
        },
        None => {},
    }
    let mut chosen: Vec<String> = Vec::new();
    let mut i: usize = 0;
    assert(registered@.subrange(0, 0) =~= Seq::<String>::empty());
    while i < registered.len()
        invariant
            i <= registered@.len(),
            string_views(chosen@) == present(registered@.subrange(0, i as int), existing@),
        decreases registered.len() - i,
    {
        assert(registered@.subrange(0, i + 1).drop_last() =~= registered@.subrange(0, i as int));
        if contains_name(existing, registered[i].as_str()) {
            let s = string_of(chars_of(registered[i].as_str()).as_slice());
            let ghost before = chosen@;
            chosen.push(s);
            assert(string_views(chosen@) =~= string_views(before).push(s@));
        }
        i += 1;
    }
    assert(registered@.subrange(0, registered@.len() as int) =~= registered@);
    if chosen.len() > 0 {
        return Ok(chosen);
    }
    if contains_name(existing, "origin") {
        let mut v: Vec<String> = Vec::new();
        v.push(string_of(chars_of("origin").as_slice()));
        assert(string_views(v@) =~= seq!["origin"@]);
        return Ok(v);
    }
    let msg = chars_of(
        "No remote to sync with: there is no 'origin' remote and none was added with `piki remote add <host>`. To sync with nothing (commits only), set `remotes = []` under [git] in ~/.pikirc.",
    );
    Err(string_of(msg.as_slice()))
}

/// Copies of the names.
pub fn copy_names(names: &[String]) -> (r: Vec<String>)
    ensures
        string_views(r@) == string_views(names@),
{
    let mut r: Vec<String> = Vec::new();
    let mut i: usize = 0;
    while i < names.len()
        invariant
            i <= names@.len(),
            r@.len() == i,
            forall|k: int| 0 <= k < i ==> #[trigger] r@[k]@ == names@[k]@,
        decreases names.len() - i,
    {
        r.push(string_of(chars_of(names[i].as_str()).as_slice()));
        i += 1;
    }
    assert(string_views(r@) =~= string_views(names@));
    r
}

/// The names among `existing`, as a test on a name.
pub open spec fn exists_in(existing: Seq<String>) -> spec_fn(Seq<char>) -> bool {
    |n: Seq<char>| string_views(existing).contains(n)
}

proof fn lemma_names_contain(existing: Seq<String>, n: Seq<char>)
    ensures
        names_contain(existing, n) <==> string_views(existing).contains(n),
{
    let sv = string_views(existing);
    if names_contain(existing, n) {
        let i = choose|i: int| 0 <= i < existing.len() && #[trigger] existing[i]@ == n;
        assert(sv[i] == n);
    }
    if sv.contains(n) {
        let i = choose|i: int| 0 <= i < sv.len() && sv[i] == n;
        assert(existing[i]@ == n);
    }
}

proof fn lemma_present_is_filter(names: Seq<String>, existing: Seq<String>)
    ensures
        present(names, existing) == string_views(names).filter(exists_in(existing)),
        present(names, existing).len() > 0 <==> exists|i: int|
            0 <= i < names.len() && string_views(existing).contains(#[trigger] names[i]@),
    decreases names.len(),
{
    reveal(Seq::filter);
    let sv = string_views(names);
    if names.len() == 0 {
        assert(sv =~= Seq::<Seq<char>>::empty());
    } else {
        let prev = names.drop_last();
        lemma_present_is_filter(prev, existing);
        lemma_names_contain(existing, names.last()@);
        assert(sv.drop_last() =~= string_views(prev));
        assert(sv.last() == names.last()@);
        let ex = exists|i: int| 0 <= i < names.len() && string_views(existing).contains(#[trigger] names[i]@);
        let exp = exists|i: int| 0 <= i < prev.len() && string_views(existing).contains(#[trigger] prev[i]@);
        if exp {
            let i = choose|i: int| 0 <= i < prev.len() && string_views(existing).contains(#[trigger] prev[i]@);
            assert(names[i] == prev[i]);
        }
        if ex {
            let i = choose|i: int| 0 <= i < names.len() && string_views(existing).contains(#[trigger] names[i]@);
            if i < prev.len() {
                assert(names[i] == prev[i]);
            }
        }
    }
}

/// With no list of remotes configured, the remotes added with `piki remote
/// add` that still exist are used, all of them and in the order given; only
/// when none of them exists does the sync go to `origin`, and without an
/// `origin` there is nothing to sync with.
pub proof fn registered_remotes_come_first(existing: Seq<String>, registered: Seq<String>)
    ensures
        (exists|i: int| 0 <= i < registered.len() && string_views(existing).contains(#[trigger] registered[i]@))
            ==> sync_remote_choice(None, existing, registered) == Ok::<Seq<Seq<char>>, Seq<char>>(
            string_views(registered).filter(exists_in(existing)),
        ),
        !(exists|i: int| 0 <= i < registered.len() && string_views(existing).contains(#[trigger] registered[i]@))
            ==> sync_remote_choice(None, existing, registered) == if string_views(existing).contains(
            "origin"@,
        ) {
            Ok::<Seq<Seq<char>>, Seq<char>>(seq!["origin"@])
        } else {
            Err::<Seq<Seq<char>>, Seq<char>>(no_remote_message())
        },
{
    lemma_present_is_filter(registered, existing);
    lemma_names_contain(existing, "origin"@);
}

proof fn lemma_first_missing(list: Seq<String>, existing: Seq<String>)
    ensures
        first_missing(list, existing) is None <==> forall|i: int|
            0 <= i < list.len() ==> string_views(existing).contains(#[trigger] list[i]@),
        first_missing(list, existing) matches Some(n) ==> exists|j: int|
            0 <= j < list.len() && list[j]@ == n && !string_views(existing).contains(n) && forall|i: int|
                0 <= i < j ==> string_views(existing).contains(#[trigger] list[i]@),
    decreases list.len(),
{
    if list.len() > 0 {
        let rest = list.drop_first();
        lemma_first_missing(rest, existing);
        lemma_names_contain(existing, list[0]@);
        assert forall|i: int| 0 < i < list.len() implies list[i] == rest[i - 1] by {}
        if first_missing(list, existing) is None {
            assert forall|i: int| 0 <= i < list.len() implies string_views(existing).contains(#[trigger] list[i]@) by {
                if i > 0 {
                    assert(list[i] == rest[i - 1]);
                }
            }
        } else if names_contain(existing, list[0]@) {
            if first_missing(rest, existing) is Some {
                let n = first_missing(rest, existing)->0;
                let j = choose|j: int|
                    0 <= j < rest.len() && rest[j]@ == n && !string_views(existing).contains(n) && forall|i: int|
                        0 <= i < j ==> string_views(existing).contains(#[trigger] rest[i]@);
                assert(list[j + 1] == rest[j]);
                assert forall|i: int| 0 <= i < j + 1 implies string_views(existing).contains(#[trigger] list[i]@) by {
                    if i > 0 {
                        assert(list[i] == rest[i - 1]);
                    }
                }
            }
            if forall|i: int| 0 <= i < list.len() ==> string_views(existing).contains(#[trigger] list[i]@) {
                assert forall|i: int| 0 <= i < rest.len() implies string_views(existing).contains(#[trigger] rest[i]@) by {
                    assert(rest[i] == list[i + 1]);
                }
            }
        }
    }
}

/// With a list of remotes configured, a sync uses exactly that list when
/// every listed remote exists; otherwise it refuses, naming the first listed
/// remote that does not exist.
pub proof fn configured_remotes_are_used_as_listed(list: Seq<String>, existing: Seq<String>, registered: Seq<String>)
    ensures
        (forall|i: int| 0 <= i < list.len() ==> string_views(existing).contains(#[trigger] list[i]@))
            ==> sync_remote_choice(Some(list), existing, registered) == Ok::<Seq<Seq<char>>, Seq<char>>(
            string_views(list),
        ),
        !(forall|i: int| 0 <= i < list.len() ==> string_views(existing).contains(#[trigger] list[i]@))
            ==> exists|j: int|
            0 <= j < list.len() && !string_views(existing).contains(list[j]@) && (forall|i: int|
                0 <= i < j ==> string_views(existing).contains(#[trigger] list[i]@))
                && sync_remote_choice(Some(list), existing, registered) == Err::<Seq<Seq<char>>, Seq<char>>(
                missing_remote_message(list[j]@),
            ),
{
    lemma_first_missing(list, existing);
}

} // verus!
