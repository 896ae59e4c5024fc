//! Notes on disk: page names, `.md` extensions, attachment names and the
//! folders they live in.
//!
//! Paths are `/`-separated strings. Reading and writing the files themselves
//! is left to the caller; this module decides which paths and names to use.
use vstd::prelude::*;
use crate::text::{
    alphanumeric, last_index_of, rfind_char, chars_of, decimal, decimal_of, is_alphanumeric, push_all, slice, string_of, trim,
    trimmed, is_ascii_alnum, is_ascii_alpha,
};

verus! {

/// Name of the per-folder subdirectory that holds a page's attachments.
pub const ATTACHMENTS_DIR: &'static str = "assets";

// ---------------------------------------------------------------------------
// `.md` extensions
// ---------------------------------------------------------------------------

/// The name ends with `.md`, compared ignoring ASCII case.
pub open spec fn has_md_ext(s: Seq<char>) -> bool {
    &&& s.len() >= 3
    &&& s[s.len() - 3] == '.'
    &&& (s[s.len() - 2] == 'm' || s[s.len() - 2] == 'M')
    &&& (s[s.len() - 1] == 'd' || s[s.len() - 1] == 'D')
}

/// The name with `.md` appended unless it already has it.
pub open spec fn with_md_ext(s: Seq<char>) -> Seq<char> {
    if has_md_ext(s) {
        s
    } else {
        s + seq!['.', 'm', 'd']
    }
}

pub fn has_md_chars(s: &[char]) -> (r: bool)
    ensures
        r == has_md_ext(s@),
{
    let n = s.len();
    n >= 3 && s[n - 3] == '.' && (s[n - 2] == 'm' || s[n - 2] == 'M') && (s[n - 1] == 'd' || s[n
        - 1] == 'D')
}

/// Whether the name already ends with a (case-insensitive) `.md` extension.
/// Other dots in the name (e.g. "sprint-q2.6") are part of the name.
pub fn has_md_extension(name: &str) -> (r: bool)
    ensures
        r == has_md_ext(name@),
{
    let v = chars_of(name);
    has_md_chars(v.as_slice())
}

pub fn md_name_chars(name: &[char]) -> (r: Vec<char>)
    ensures
        r@ == with_md_ext(name@),
{
    let mut out = slice(name, 0, name.len());
    assert(out@ =~= name@);
    if !has_md_chars(name) {
        out.push('.');
        out.push('m');
        out.push('d');
        assert(out@ =~= name@ + seq!['.', 'm', 'd']);
    }
    out
}

/// Append a `.md` extension to a page name unless it already has one.
pub fn ensure_md_extension(name: &str) -> (r: String)
    ensures
        r@ == with_md_ext(name@),
{
    let v = chars_of(name);
    let out = md_name_chars(v.as_slice());
    string_of(out.as_slice())
}

/// A page name given the `.md` extension has it, and giving it again adds
/// nothing: the extension is never doubled.
pub proof fn md_extension_is_never_doubled(name: Seq<char>)
    ensures
        has_md_ext(with_md_ext(name)),
        with_md_ext(with_md_ext(name)) == with_md_ext(name),
{
}

// ---------------------------------------------------------------------------
// Attachment names
// ---------------------------------------------------------------------------

/// Characters an attachment name keeps: the alphanumeric ones
/// (`char::is_alphanumeric`, which holds of every ASCII letter and digit),
/// `.`, `-` and `_`.
pub open spec fn keeps_in_name(c: char) -> bool {
    is_ascii_alnum(c) || alphanumeric(c) || c == '.' || c == '-' || c == '_'
}

/// Left-to-right scan of a file name: kept characters are copied (a dash
/// right before a dot is dropped), every run of other characters becomes one
/// dash. The flag records whether the last input character was replaced.
pub open spec fn sanitize_scan(s: Seq<char>) -> (Seq<char>, bool)
    decreases s.len(),
{
    if s.len() == 0 {
        (Seq::<char>::empty(), false)
    } else {
        let prev = sanitize_scan(s.drop_last());
        let out = prev.0;
        let c = s.last();
        if keeps_in_name(c) {
            let base = if c == '.' && out.len() > 0 && out.last() == '-' {
                out.drop_last()
            } else {
                out
            };
            (base.push(c), false)
        } else if !prev.1 {
            (out.push('-'), true)
        } else {
            (out, true)
        }
    }
}

pub open spec fn is_dash_or_dot(c: char) -> bool {
    c == '-' || c == '.'
}

/// The text with leading dashes and dots removed.
pub open spec fn trim_dashes_start(s: Seq<char>) -> Seq<char>
    decreases s.len(),
{
    if s.len() > 0 && is_dash_or_dot(s[0]) {
        trim_dashes_start(s.drop_first())
    } else {
        s
    }
}

/// The text with trailing dashes and dots removed.
pub open spec fn trim_dashes_end(s: Seq<char>) -> Seq<char>
    decreases s.len(),
{
    if s.len() > 0 && is_dash_or_dot(s.last()) {
        trim_dashes_end(s.drop_last())
    } else {
        s
    }
}

/// The safe file name for an attachment called `s`.
pub open spec fn sanitized_name(s: Seq<char>) -> Seq<char> {
    let t = trim_dashes_end(trim_dashes_start(sanitize_scan(s).0));
    if t.len() == 0 {
        "attachment"@
    } else {
        t
    }
}

fn trim_dashes(s: &[char]) -> (r: Vec<char>)
    ensures
        r@ == trim_dashes_end(trim_dashes_start(s@)),
{
    let mut i: usize = 0;
    assert(s@.subrange(0, s@.len() as int) =~= s@);
    while i < s.len() && (s[i] == '-' || s[i] == '.')
        invariant
            i <= s@.len(),
            trim_dashes_start(s@) == trim_dashes_start(s@.subrange(i as int, s@.len() as int)),
        decreases s.len() - i,
    {
        assert(s@.subrange(i as int, s@.len() as int).drop_first() =~= s@.subrange(
            i + 1,
            s@.len() as int,
        ));
        i += 1;
    }
    let t = slice(s, i, s.len());
    assert(trim_dashes_start(t@) == t@);
    let mut j = t.len();
    assert(t@.subrange(0, t@.len() as int) =~= t@);
    while j > 0 && (t[j - 1] == '-' || t[j - 1] == '.')
        invariant
            j <= t@.len(),
            trim_dashes_end(t@) == trim_dashes_end(t@.subrange(0, j as int)),
        decreases j,
    {
        assert(t@.subrange(0, j as int).drop_last() =~= t@.subrange(0, j - 1));
        j -= 1;
    }
    slice(t.as_slice(), 0, j)
}

/// Sanitise a dropped file's name into one that is safe both as a file name
/// and as a Markdown link destination: runs of other characters become one
/// dash, no dash is left right before a dot, leading and trailing dashes and
/// dots go, and an empty result becomes "attachment".
pub fn sanitize_attachment_name(name: &str) -> (r: String)
    ensures
        r@ == sanitized_name(name@),
{
    let s = chars_of(name);
    let mut out: Vec<char> = Vec::new();
    let mut prev_dash = false;
    let mut i: usize = 0;
    assert(s@.subrange(0, 0) =~= Seq::<char>::empty());
    while i < s.len()
        invariant
            i <= s@.len(),
            sanitize_scan(s@.subrange(0, i as int)) == (out@, prev_dash),
        decreases s.len() - i,
    {
        assert(s@.subrange(0, i + 1).drop_last() =~= s@.subrange(0, i as int));
        let c = s[i];
        if is_alphanumeric(c) || c == '.' || c == '-' || c == '_' {
            if c == '.' && out.len() > 0 && out[out.len() - 1] == '-' {
                out.pop();
            }
            out.push(c);
            prev_dash = false;
        } else if !prev_dash {
            out.push('-');
            prev_dash = true;
        }
        i += 1;
    }
    assert(s@.subrange(0, s@.len() as int) =~= s@);
    let t = trim_dashes(out.as_slice());
    if t.len() == 0 {
        let fallback = chars_of("attachment");
        string_of(fallback.as_slice())
    } else {
        string_of(t.as_slice())
    }
}

/// Every character the scan writes is one an attachment name keeps.
proof fn lemma_scan_keeps(s: Seq<char>)
    ensures
        forall|i: int|
            0 <= i < sanitize_scan(s).0.len() ==> keeps_in_name(#[trigger] sanitize_scan(s).0[i]),
    decreases s.len(),
{
    if s.len() > 0 {
        lemma_scan_keeps(s.drop_last());
        let out = sanitize_scan(s.drop_last()).0;
        let c = s.last();
        if keeps_in_name(c) && c == '.' && out.len() > 0 && out.last() == '-' {
            assert(forall|i: int| 0 <= i < out.len() - 1 ==> out.drop_last()[i] == out[i]);
        }
    }
}

/// Trimming dashes and dots from the start keeps a suffix, which starts with
/// neither (or is empty).
proof fn lemma_trim_dashes_start(s: Seq<char>)
    ensures
        trim_dashes_start(s).len() <= s.len(),
        trim_dashes_start(s) == s.subrange(s.len() - trim_dashes_start(s).len(), s.len() as int),
        trim_dashes_start(s).len() > 0 ==> !is_dash_or_dot(trim_dashes_start(s)[0]),
    decreases s.len(),
{
    if s.len() > 0 && is_dash_or_dot(s[0]) {
        lemma_trim_dashes_start(s.drop_first());
        let t = trim_dashes_start(s);
        assert(s.drop_first().subrange(s.drop_first().len() - t.len(), s.drop_first().len() as int)
            =~= s.subrange(s.len() - t.len(), s.len() as int));
    } else {
        assert(s.subrange(0, s.len() as int) =~= s);
    }
}

/// Trimming dashes and dots from the end keeps a prefix, which ends with
/// neither (or is empty).
proof fn lemma_trim_dashes_end(s: Seq<char>)
    ensures
        trim_dashes_end(s).len() <= s.len(),
        trim_dashes_end(s) == s.subrange(0, trim_dashes_end(s).len() as int),
        trim_dashes_end(s).len() > 0 ==> !is_dash_or_dot(trim_dashes_end(s).last()),
    decreases s.len(),
{
    if s.len() > 0 && is_dash_or_dot(s.last()) {
        lemma_trim_dashes_end(s.drop_last());
        let t = trim_dashes_end(s);
        assert(s.drop_last().subrange(0, t.len() as int) =~= s.subrange(0, t.len() as int));
    } else {
        assert(s.subrange(0, s.len() as int) =~= s);
    }
}

/// A sanitized attachment name is safe as a file name and as a Markdown link
/// destination: it is not empty, holds only letters, digits, dots, dashes and
/// underscores, and neither starts nor ends with a dash or a dot.
pub proof fn sanitized_names_are_safe(s: Seq<char>)
    ensures
        sanitized_name(s).len() > 0,
        forall|i: int| 0 <= i < sanitized_name(s).len() ==> keeps_in_name(#[trigger] sanitized_name(s)[i]),
        !is_dash_or_dot(sanitized_name(s)[0]),
        !is_dash_or_dot(sanitized_name(s).last()),
{
    let o = sanitize_scan(s).0;
    let a = trim_dashes_start(o);
    let t = trim_dashes_end(a);
    lemma_scan_keeps(s);
    lemma_trim_dashes_start(o);
    lemma_trim_dashes_end(a);
    if t.len() == 0 {
        reveal_strlit("attachment");
        let f = "attachment"@;
        assert forall|i: int| 0 <= i < f.len() implies keeps_in_name(#[trigger] f[i]) by {
            assert(is_ascii_alpha(f[i]));
        }
    } else {
        assert forall|i: int| 0 <= i < t.len() implies keeps_in_name(#[trigger] t[i]) by {
            assert(t[i] == a[i]);
            assert(a[i] == o[o.len() - a.len() + i]);
        }
        assert(t[0] == a[0]);
    }
}

/// Stem and extension of a file name: split at the last dot when both sides
/// are non-empty.
pub open spec fn name_parts(s: Seq<char>) -> (Seq<char>, Option<Seq<char>>) {
    if exists|i: int| 0 < i < s.len() - 1 && s[i] == '.' && forall|j: int|
        i < j < s.len() ==> s[j] != '.' {
        let i = choose|i: int|
            0 < i < s.len() - 1 && s[i] == '.' && forall|j: int| i < j < s.len() ==> s[j] != '.';
        (s.subrange(0, i), Some(s.subrange(i + 1, s.len() as int)))
    } else {
        (s, None)
    }
}

/// The index of the last dot in `s`, if any.
fn last_dot(s: &[char]) -> (r: Option<usize>)
    ensures
        match r {
            Some(i) => i < s@.len() && s@[i as int] == '.' && forall|j: int|
                i < j < s@.len() ==> s@[j] != '.',
            None => forall|j: int| 0 <= j < s@.len() ==> s@[j] != '.',
        },
{
    let mut k = s.len();
    while k > 0
        invariant
            k <= s@.len(),
            forall|j: int| k <= j < s@.len() ==> s@[j] != '.',
        decreases k,
    {
        if s[k - 1] == '.' {
            return Some(k - 1);
        }
        k -= 1;
    }
    None
}

/// Split a sanitised file name into its stem and extension (without the dot).
pub fn split_name(name: &[char]) -> (r: (Vec<char>, Option<Vec<char>>))
    ensures
        r.0@ == name_parts(name@).0,
        r.1 is Some <==> name_parts(name@).1 is Some,
        r.1 is Some ==> r.1->0@ == name_parts(name@).1->0,
{
    match last_dot(name) {
        Some(i) => {
            if i > 0 && i < name.len() - 1 {
                proof {
                    let w = i as int;
                    assert(0 < w < name@.len() - 1 && name@[w] == '.' && forall|j: int|
                        w < j < name@.len() ==> name@[j] != '.');
                    let k = choose|k: int|
                        0 < k < name@.len() - 1 && name@[k] == '.' && forall|j: int|
                            k < j < name@.len() ==> name@[j] != '.';
                    if k < w {
                        assert(name@[w] != '.');
                    } else if k > w {
                        assert(name@[k] != '.');
                    }
                }
                (slice(name, 0, i), Some(slice(name, i + 1, name.len())))
            } else {
                proof {
                    if exists|k: int|
                        0 < k < name@.len() - 1 && name@[k] == '.' && forall|j: int|
                            k < j < name@.len() ==> name@[j] != '.' {
                        let k = choose|k: int|
                            0 < k < name@.len() - 1 && name@[k] == '.' && forall|j: int|
                                k < j < name@.len() ==> name@[j] != '.';
                        if k < i {
                            assert(name@[i as int] != '.');
                        } else if k > i {
                            assert(name@[k] != '.');
                        }
                    }
                }
                let whole = slice(name, 0, name.len());
                assert(whole@ =~= name@);
                (whole, None)
            }
        },
        None => {
            let whole = slice(name, 0, name.len());
            assert(whole@ =~= name@);
            (whole, None)
        },
    }
}

/// The `n`-th alternative to `name` tried on a collision: `stem-n.ext`, or
/// `stem-n` without an extension.
pub open spec fn numbered_name(name: Seq<char>, n: nat) -> Seq<char> {
    let parts = name_parts(name);
    match parts.1 {
        Some(ext) => parts.0 + seq!['-'] + decimal(n) + seq!['.'] + ext,
        None => parts.0 + seq!['-'] + decimal(n),
    }
}

/// The file name tried for the `n`-th collision with `name` (`n >= 1`); the
/// caller stops at the first one that is free or holds identical bytes.
pub fn numbered_attachment_name(name: &str, n: usize) -> (r: String)
    ensures
        r@ == numbered_name(name@, n as nat),
{
    let v = chars_of(name);
    let (stem, ext) = split_name(v.as_slice());
    let mut out = stem;
    out.push('-');
    let digits = decimal_of(n);
    push_all(&mut out, digits.as_slice());
    match ext {
        Some(e) => {
            out.push('.');
            push_all(&mut out, e.as_slice());
        },
        None => {},
    }
    string_of(out.as_slice())
}

// ---------------------------------------------------------------------------
// Paths
// ---------------------------------------------------------------------------

/// `base` joined with `rel`: an absolute `rel` replaces `base`; otherwise a
/// `/` separates the two unless `base` is empty or already ends with one.
pub open spec fn path_join(base: Seq<char>, rel: Seq<char>) -> Seq<char> {
    if rel.len() > 0 && rel[0] == '/' {
        rel
    } else if base.len() == 0 || base.last() == '/' {
        base + rel
    } else {
        base + seq!['/'] + rel
    }
}

/// The directory part of a path: everything before its last `/` (the root
/// `/` itself when that is the only one), or the empty path when there is no
/// `/`.
pub open spec fn path_parent(p: Seq<char>) -> Seq<char> {
    if exists|i: int| 0 <= i < p.len() && p[i] == '/' {
        let i = choose|i: int|
            0 <= i < p.len() && p[i] == '/' && forall|j: int| i < j < p.len() ==> p[j] != '/';
        if i == 0 {
            seq!['/']
        } else {
            p.subrange(0, i)
        }
    } else {
        Seq::<char>::empty()
    }
}

pub fn join_path(base: &[char], rel: &[char]) -> (r: Vec<char>)
    ensures
        r@ == path_join(base@, rel@),
{
    if rel.len() > 0 && rel[0] == '/' {
        let r = slice(rel, 0, rel.len());
        assert(r@ =~= rel@);
        r
    } else {
        let mut r = slice(base, 0, base.len());
        assert(r@ =~= base@);
        if !(base.len() == 0 || base[base.len() - 1] == '/') {
            r.push('/');
        }
        push_all(&mut r, rel);
        r
    }
}

pub fn parent_path(p: &[char]) -> (r: Vec<char>)
    ensures
        r@ == path_parent(p@),
{
    let mut k = p.len();
    while k > 0
        invariant
            k <= p@.len(),
            forall|j: int| k <= j < p@.len() ==> p@[j] != '/',
        decreases k,
    {
        if p[k - 1] == '/' {
            let i = k - 1;
            proof {
                let c = choose|c: int|
                    0 <= c < p@.len() && p@[c] == '/' && forall|j: int| c < j < p@.len() ==> p@[j] != '/';
                assert(0 <= i < p@.len() && p@[i as int] == '/' && forall|j: int|
                    i < j < p@.len() ==> p@[j] != '/');
                if c < i {
                    assert(p@[i as int] != '/');
                } else if c > i {
                    assert(p@[c] != '/');
                }
            }
            if i == 0 {
                let mut r: Vec<char> = Vec::new();
                r.push('/');
                assert(r@ =~= seq!['/']);
                return r;
            }
            return slice(p, 0, i);
        }
        k -= 1;
    }
    Vec::new()
}

/// A store of notes rooted at `base_path`.
pub struct DocumentStore {
    base_path: String,
}

impl DocumentStore {
    pub closed spec fn base(&self) -> Seq<char> {
        self.base_path@
    }

    /// The folder holding `page`'s Markdown file.
    pub open spec fn page_dir_of(&self, page: Seq<char>) -> Seq<char> {
        path_parent(path_join(self.base(), with_md_ext(page)))
    }

    pub fn new(base_path: String) -> (r: Self)
        ensures
            r.base() == base_path@,
    {
        DocumentStore { base_path }
    }

    pub fn base_path(&self) -> (r: &str)
        ensures
            r@ == self.base(),
    {
        self.base_path.as_str()
    }

    /// Where `page` is stored: the base path joined with the page name, `.md`
    /// appended unless the name already carries it.
    pub fn page_path(&self, page: &str) -> (r: String)
        ensures
            r@ == path_join(self.base(), with_md_ext(page@)),
    {
        let b = chars_of(self.base_path.as_str());
        let p = chars_of(page);
        let name = md_name_chars(p.as_slice());
        let joined = join_path(b.as_slice(), name.as_slice());
        string_of(joined.as_slice())
    }

    fn page_dir(&self, page: &str) -> (r: Vec<char>)
        ensures
            r@ == self.page_dir_of(page@),
    {
        let b = chars_of(self.base_path.as_str());
        let p = chars_of(page);
        let name = md_name_chars(p.as_slice());
        let joined = join_path(b.as_slice(), name.as_slice());
        parent_path(joined.as_slice())
    }

    /// The `assets/` folder for a page: a sibling of the page's Markdown file.
    pub fn attachments_dir(&self, page: &str) -> (r: String)
        ensures
            r@ == path_join(self.page_dir_of(page@), ATTACHMENTS_DIR@),
    {
        let dir = self.page_dir(page);
        let assets = chars_of(ATTACHMENTS_DIR);
        let joined = join_path(dir.as_slice(), assets.as_slice());
        string_of(joined.as_slice())
    }

    /// The path a link destination may name as a local attachment, relative
    /// to `page`'s folder: `None` for an empty (after trimming) destination
    /// and for Markdown files, which are always pages. The caller uses it only
    /// when it is an existing file.
    pub fn attachment_candidate(&self, page: &str, dest: &str) -> (r: Option<String>)
        ensures
            ({
                let d = trim(dest@);
                if d.len() == 0 || has_md_ext(d) {
                    r is None
                } else {
                    r is Some && r->0@ == path_join(self.page_dir_of(page@), d)
                }
            }),
    {
        let raw = chars_of(dest);
        let d = trimmed(raw.as_slice());
        if d.len() == 0 || has_md_chars(d.as_slice()) {
            return None;
        }
        let dir = self.page_dir(page);
        let joined = join_path(dir.as_slice(), d.as_slice());
        Some(string_of(joined.as_slice()))
    }
}

/// The page name of a Markdown file `stem` found under the folder `prefix`
/// (relative to the store): `prefix/stem`, or `stem` at the top level.
pub open spec fn listed_name(prefix: Seq<char>, stem: Seq<char>) -> Seq<char> {
    if prefix.len() == 0 {
        stem
    } else {
        prefix + seq!['/'] + stem
    }
}

/// The name under which a directory entry is listed: `prefix/name`, or
/// `name` at the top level. Used both for page names and for the prefix of
/// a subfolder while walking the store.
pub fn listed_document_name(prefix: &str, name: &str) -> (r: String)
    ensures
        r@ == listed_name(prefix@, name@),
{
    let p = chars_of(prefix);
    let n = chars_of(name);
    if p.len() == 0 {
        string_of(n.as_slice())
    } else {
        let mut out = p;
        out.push('/');
        push_all(&mut out, n.as_slice());
        string_of(out.as_slice())
    }
}

/// A file name split at its last dot the way `std::path::Path` does it: the
/// stem and, if there is one, the extension. A name whose only dot is its
/// first character (`.bashrc`), one without a dot, and `..` have no
/// extension.
pub open spec fn stem_and_extension(f: Seq<char>) -> (Seq<char>, Option<Seq<char>>) {
    if f == seq!['.', '.'] {
        (f, None)
    } else {
        match last_index_of(f, '.') {
            Some(i) => if i == 0 {
                (f, None)
            } else {
                (f.take(i), Some(f.skip(i + 1)))
            },
            None => (f, None),
        }
    }
}

/// What walking the store does with one directory entry.
#[derive(Debug, Clone, PartialEq, Eq)]
pub enum WalkStep {
    /// A Markdown file: list it under this page name.
    Document(String),
    /// A folder: walk it with this prefix.
    Descend(String),
    /// Anything else.
    Skip,
}

/// The step for an entry `name` found under the folder `prefix` (relative to
/// the store) while listing all documents: a file with the extension `md`
/// is the page `prefix/stem`, a folder is walked with the prefix
/// `prefix/name`, anything else is skipped.
pub open spec fn walk_step_of(prefix: Seq<char>, name: Seq<char>, is_file: bool, is_dir: bool) -> Option<
    (bool, Seq<char>),
> {
    let parts = stem_and_extension(name);
    if is_file && parts.1 == Some(seq!['m', 'd']) {
        Some((true, listed_name(prefix, parts.0)))
    } else if is_dir {
        Some((false, listed_name(prefix, name)))
    } else {
        None
    }
}

/// Decide what to do with one directory entry while listing all documents
/// (the caller reads the directories and follows `Descend`).
pub fn document_walk_step(prefix: &str, name: &str, is_file: bool, is_dir: bool) -> (r: WalkStep)
    ensures
        match r {
            WalkStep::Document(n) => walk_step_of(prefix@, name@, is_file, is_dir) == Some(
                (true, n@),
            ),
            WalkStep::Descend(p) => walk_step_of(prefix@, name@, is_file, is_dir) == Some(
                (false, p@),
            ),
            WalkStep::Skip => walk_step_of(prefix@, name@, is_file, is_dir) is None,
        },
{
    let n = chars_of(name);
    let len = n.len();
    let two_dots = len == 2 && n[0] == '.' && n[1] == '.';
    proof {
        if n@ == seq!['.', '.'] {
            assert(n@[0] == '.' && n@[1] == '.');
        }
        if two_dots {
            assert(n@ =~= seq!['.', '.']);
        }
    }
    if is_file && !two_dots {
        if let Some(i) = rfind_char(n.as_slice(), '.') {
            if i > 0 && len - i == 3 && n[i + 1] == 'm' && n[i + 2] == 'd' {
                let stem = slice(n.as_slice(), 0, i);
                let stem_text = string_of(stem.as_slice());
                assert(n@.skip(i + 1) =~= seq!['m', 'd']);
                return WalkStep::Document(listed_document_name(prefix, stem_text.as_str()));
            }
            proof {
                if i > 0 && n@.skip(i + 1) == seq!['m', 'd'] {
                    assert(n@.skip(i + 1).len() == 2);
                    assert(n@.skip(i + 1)[0] == 'm' && n@.skip(i + 1)[1] == 'd');
                }
            }
        }
    }
    if is_dir {
        return WalkStep::Descend(listed_document_name(prefix, name));
    }
    WalkStep::Skip
}

/// `std::path::PathBuf`, carried through unread.
#[verifier::external_type_specification]
#[verifier::external_body]
pub struct ExPathBuf(std::path::PathBuf);

/// `std::time::SystemTime`, carried through unread.
#[verifier::external_type_specification]
#[verifier::external_body]
pub struct ExSystemTime(std::time::SystemTime);

/// `PathBuf::clone`: another path buffer for the same path; nothing is read
/// from it here.
pub assume_specification[ <std::path::PathBuf as Clone>::clone ](p: &std::path::PathBuf) -> std::path::PathBuf;

/// A loaded note: its name, file, text and when the file was last modified
/// (`None` for a note not saved yet).
#[derive(Clone)]
pub struct Document {
    pub name: String,
    pub path: std::path::PathBuf,
    pub content: String,
    pub modified_time: Option<std::time::SystemTime>,
}

} // verus!
