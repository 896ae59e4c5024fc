//! Where Piki keeps its things: `~/.piki` for the notes, `~/.pikirc` for the
//! configuration. Both hang off the user's home directory.
use vstd::prelude::*;
use crate::document::{join_path, path_join};
use crate::text::{chars_of, opt_view, string_of};

verus! {

/// The notes directory's name under the home directory.
pub const NOTES_DIR_NAME: &'static str = ".piki";

/// The first of `values` that is set and not empty.
pub open spec fn first_nonempty(values: Seq<Option<String>>) -> Option<Seq<char>>
    decreases values.len(),
{
    if values.len() == 0 {
        None
    } else {
        match values[0] {
            Some(v) if v@.len() > 0 => Some(v@),
            _ => first_nonempty(values.drop_first()),
        }
    }
}

/// The home directory, given the values of the environment variables that
/// may name it, in the order the platform prefers them (`USERPROFILE` before
/// `HOME` on Windows, `HOME` first elsewhere): the first one that is set and
/// not empty. `None` when there is none, never a relative fallback.
pub fn home_dir_from(values: &[Option<String>]) -> (r: Option<String>)
    ensures
        r is Some <==> first_nonempty(values@) is Some,
        r is Some ==> r->0@ == first_nonempty(values@)->0,
{
    let mut i: usize = 0;
    assert(values@.subrange(0, values@.len() as int) =~= values@);
    while i < values.len()
        invariant
            i <= values@.len(),
            first_nonempty(values@) == first_nonempty(values@.subrange(i as int, values@.len() as int)),
        decreases values.len() - i,
    {
        let ghost rest = values@.subrange(i as int, values@.len() as int);
        assert(rest[0] == values@[i as int]);
        match &values[i] {
            Some(v) => {
                if !v.as_str().is_empty() {
                    return Some(v.clone());
                }
            },
            None => {},
        }
        assert(rest.drop_first() =~= values@.subrange(i + 1, values@.len() as int));
        i += 1;
    }
    None
}

/// Where the notes live unless the user says otherwise: `.piki` under the
/// home directory. `None` only when there is no home directory; callers then
/// ask for a directory rather than fall back to a relative path.
pub fn default_notes_dir(home: Option<&str>) -> (r: Option<String>)
    ensures
        opt_view(r) == match home {
            Some(h) => Some(path_join(h@, NOTES_DIR_NAME@)),
            None => None,
        },
{
    match home {
        Some(h) => {
            let hv = chars_of(h);
            let n = chars_of(NOTES_DIR_NAME);
            let joined = join_path(hv.as_slice(), n.as_slice());
            Some(string_of(joined.as_slice()))
        },
        None => None,
    }
}

} // verus!
