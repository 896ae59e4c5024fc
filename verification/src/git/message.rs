//! Commit messages for automatic commits, derived from what changed in the
//! working directory so they read like a changelog: "New note: recipes",
//! "Note recipes edited", "Note recipes renamed to cooking".
use vstd::prelude::*;
use crate::document::{has_md_chars, has_md_ext};
use crate::text::{chars_of, decimal, decimal_of, ends_with, push_all, push_str, slice, string_of};

verus! {

/// One changed path, classified.
#[derive(Debug, Clone, PartialEq, Eq)]
pub enum Change {
    Added(String),
    Modified(String),
    Deleted(String),
    /// `(from, to)`
    Renamed(String, String),
}

/// Display name of a path: notes lose their `.md`, other files keep their name.
pub open spec fn display(p: Seq<char>) -> Seq<char> {
    if has_md_ext(p) {
        p.subrange(0, p.len() - 3)
    } else {
        p
    }
}

/// "Note" for a note (a `.md` file), "File" for anything else.
pub open spec fn kind_word(p: Seq<char>) -> Seq<char> {
    if has_md_ext(p) {
        "Note"@
    } else {
        "File"@
    }
}

/// The one-line description of a change.
pub open spec fn description(c: Change) -> Seq<char> {
    match c {
        Change::Added(p) => if has_md_ext(p@) {
            "New note: "@ + display(p@)
        } else {
            "New file: "@ + p@
        },
        Change::Modified(p) => kind_word(p@) + " "@ + display(p@) + " edited"@,
        Change::Deleted(p) => kind_word(p@) + " "@ + display(p@) + " deleted"@,
        Change::Renamed(f, t) => kind_word(f@) + " "@ + display(f@) + " renamed to "@ + display(
            t@,
        ),
    }
}

/// The body of a message: one `* description` line per change.
pub open spec fn bullets(cs: Seq<Change>) -> Seq<char>
    decreases cs.len(),
{
    if cs.len() == 0 {
        Seq::<char>::empty()
    } else {
        bullets(cs.drop_last()) + "* "@ + description(cs.last()) + "\n"@
    }
}

/// The commit message for a set of changes: none for no changes, the
/// description for one, and for several the first description with a
/// "(+N more)" marker, a blank line and every change listed.
pub open spec fn message(cs: Seq<Change>) -> Option<Seq<char>> {
    if cs.len() == 0 {
        None
    } else if cs.len() == 1 {
        Some(description(cs[0]))
    } else {
        Some(
            description(cs[0]) + " (+"@ + decimal((cs.len() - 1) as nat) + " more)\n\n"@ + bullets(
                cs,
            ),
        )
    }
}

/// Is this path a note (as opposed to an attachment or other file)?
fn is_note(path: &[char]) -> (r: bool)
    ensures
        r == has_md_ext(path@),
{
    has_md_chars(path)
}

fn display_name(path: &[char]) -> (r: Vec<char>)
    ensures
        r@ == display(path@),
{
    if is_note(path) {
        slice(path, 0, path.len() - 3)
    } else {
        let r = slice(path, 0, path.len());
        assert(r@ =~= path@);
        r
    }
}

fn describe_chars(change: &Change) -> (r: Vec<char>)
    ensures
        r@ == description(*change),
{
    let mut out: Vec<char> = Vec::new();
    match change {
        Change::Added(p) => {
            let p = chars_of(p.as_str());
            if is_note(p.as_slice()) {
                push_str(&mut out, "New note: ");
                let d = display_name(p.as_slice());
                push_all(&mut out, d.as_slice());
            } else {
                push_str(&mut out, "New file: ");
                push_all(&mut out, p.as_slice());
            }
        },
        Change::Modified(p) => {
            let p = chars_of(p.as_str());
            push_kind(&mut out, p.as_slice());
            push_str(&mut out, " ");
            let d = display_name(p.as_slice());
            push_all(&mut out, d.as_slice());
            push_str(&mut out, " edited");
        },
        Change::Deleted(p) => {
            let p = chars_of(p.as_str());
            push_kind(&mut out, p.as_slice());
            push_str(&mut out, " ");
            let d = display_name(p.as_slice());
            push_all(&mut out, d.as_slice());
            push_str(&mut out, " deleted");
        },
        Change::Renamed(f, t) => {
            let f = chars_of(f.as_str());
            let t = chars_of(t.as_str());
            push_kind(&mut out, f.as_slice());
            push_str(&mut out, " ");
            let d = display_name(f.as_slice());
            push_all(&mut out, d.as_slice());
            push_str(&mut out, " renamed to ");
            let e = display_name(t.as_slice());
            push_all(&mut out, e.as_slice());
        },
    }
    out
}

fn push_kind(out: &mut Vec<char>, p: &[char])
    ensures
        final(out)@ == old(out)@ + kind_word(p@),
{
    if is_note(p) {
        push_str(out, "Note");
    } else {
        push_str(out, "File");
    }
}

/// One line describing a single change.
pub fn describe_change(change: &Change) -> (r: String)
    ensures
        r@ == description(*change),
{
    let v = describe_chars(change);
    string_of(v.as_slice())
}

/// Build a full commit message (title line, blank line, body) for a set of
/// changes; `None` when there is nothing to describe.
pub fn commit_message(changes: &[Change]) -> (r: Option<String>)
    ensures
        r is Some <==> message(changes@) is Some,
        r is Some ==> r->0@ == message(changes@)->0,
{
    if changes.len() == 0 {
        return None;
    }
    let title = describe_chars(&changes[0]);
    if changes.len() == 1 {
        return Some(string_of(title.as_slice()));
    }
    let mut msg = title;
    push_str(&mut msg, " (+");
    let more = decimal_of(changes.len() - 1);
    push_all(&mut msg, more.as_slice());
    push_str(&mut msg, " more)\n\n");
    let ghost head = msg@;
    let mut i: usize = 0;
    assert(changes@.subrange(0, 0) =~= Seq::<Change>::empty());
    while i < changes.len()
        invariant
            i <= changes@.len(),
            msg@ == head + bullets(changes@.subrange(0, i as int)),
        decreases changes.len() - i,
    {
        assert(changes@.subrange(0, i + 1).drop_last() =~= changes@.subrange(0, i as int));
        push_str(&mut msg, "* ");
        let d = describe_chars(&changes[i]);
        push_all(&mut msg, d.as_slice());
        push_str(&mut msg, "\n");
        i += 1;
        assert(msg@ =~= head + bullets(changes@.subrange(0, i as int)));
    }
    assert(changes@.subrange(0, changes@.len() as int) =~= changes@);
    Some(string_of(msg.as_slice()))
}

/// What a change's description says happened to the path, whatever the kind
/// of file: a deletion ends in " deleted", an edit in " edited" (and never in
/// " deleted"); each names the path after the word "Note" for a note and
/// "File" for anything else.
pub proof fn descriptions_say_what_happened(p: String)
    ensures
        ends_with(description(Change::Deleted(p)), " deleted"@),
        ends_with(description(Change::Modified(p)), " edited"@),
        !ends_with(description(Change::Modified(p)), " deleted"@),
        !ends_with(description(Change::Deleted(p)), " edited"@),
        has_md_ext(p@) ==> description(Change::Deleted(p)).take(5) == "Note "@,
        !has_md_ext(p@) ==> description(Change::Deleted(p)).take(5) == "File "@,
{
    reveal_strlit(" deleted");
    reveal_strlit(" edited");
    reveal_strlit("Note");
    reveal_strlit("File");
    reveal_strlit(" ");
    reveal_strlit("Note ");
    reveal_strlit("File ");
    let k = kind_word(p@) + " "@ + display(p@);
    let d = description(Change::Deleted(p));
    let m = description(Change::Modified(p));
    assert(d == k + " deleted"@);
    assert(m == k + " edited"@);
    assert(d.subrange(d.len() - 8, d.len() as int) =~= " deleted"@);
    assert(m.subrange(m.len() - 7, m.len() as int) =~= " edited"@);
    if ends_with(m, " deleted"@) {
        assert(m.subrange(m.len() - 8, m.len() as int)[1] == 'd');
        assert(m[m.len() - 7] == ' ');
    }
    if ends_with(d, " edited"@) {
        assert(d.subrange(d.len() - 7, d.len() as int)[0] == ' ');
        assert(d[d.len() - 7] == 'e');
    }
    assert(d.take(5) =~= kind_word(p@) + " "@);
}

/// A new file is announced as such, with "New note: " for a note and "New
/// file: " for anything else; a rename ends with the new name.
pub proof fn additions_and_renames_are_announced(p: String, from: String, to: String)
    ensures
        has_md_ext(p@) ==> description(Change::Added(p)).take(10) == "New note: "@,
        !has_md_ext(p@) ==> description(Change::Added(p)).take(10) == "New file: "@,
        ends_with(description(Change::Renamed(from, to)), display(to@)),
{
    reveal_strlit("New note: ");
    reveal_strlit("New file: ");
    let a = description(Change::Added(p));
    if has_md_ext(p@) {
        assert(a.take(10) =~= "New note: "@);
    } else {
        assert(a.take(10) =~= "New file: "@);
    }
    let r = description(Change::Renamed(from, to));
    let d = display(to@);
    assert(r.subrange(r.len() - d.len(), r.len() as int) =~= d);
}

} // verus!
