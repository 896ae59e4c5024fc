//! What a commit or sync did, and how it reads in a status bar.
use vstd::prelude::*;
use crate::text::{chars_of, decimal, decimal_of, push_all, push_str, string_of};

verus! {

/// What an automatic commit recorded.
#[derive(Debug, Clone, PartialEq, Eq)]
pub struct CommitSummary {
    pub id: String,
    /// First line of the commit message.
    pub title: String,
    /// Number of changed paths.
    pub changes: usize,
}

/// What happened with one remote during a sync.
#[derive(Debug, Clone, Default, PartialEq, Eq)]
pub struct RemoteOutcome {
    pub remote: String,
    /// Commits were fetched and integrated into the local branch.
    pub pulled: bool,
    /// Integrating them required a merge commit (as opposed to a fast-forward).
    pub merged: bool,
    /// Local commits were pushed.
    pub pushed: bool,
}

/// What a sync did with one remote, in words.
pub open spec fn outcome_words(pulled: bool, merged: bool, pushed: bool) -> Seq<char> {
    if !pulled && !pushed {
        "already up to date"@
    } else if !pulled {
        "pushed changes"@
    } else if merged && pushed {
        "merged remote changes and pushed"@
    } else if merged {
        "merged remote changes"@
    } else if pushed {
        "pulled and pushed changes"@
    } else {
        "pulled changes"@
    }
}

/// `remote: what happened`.
pub open spec fn outcome_line(o: RemoteOutcome) -> Seq<char> {
    o.remote@ + ": "@ + outcome_words(o.pulled, o.merged, o.pushed)
}

impl RemoteOutcome {
    /// One-line human-readable description.
    pub fn describe(&self) -> (r: String)
        ensures
            r@ == outcome_line(*self),
    {
        let v = self.describe_chars();
        string_of(v.as_slice())
    }

    fn describe_chars(&self) -> (r: Vec<char>)
        ensures
            r@ == outcome_line(*self),
    {
        let mut out = chars_of(self.remote.as_str());
        push_str(&mut out, ": ");
        if !self.pulled && !self.pushed {
            push_str(&mut out, "already up to date");
        } else if !self.pulled {
            push_str(&mut out, "pushed changes");
        } else if self.merged && self.pushed {
            push_str(&mut out, "merged remote changes and pushed");
        } else if self.merged {
            push_str(&mut out, "merged remote changes");
        } else if self.pushed {
            push_str(&mut out, "pulled and pushed changes");
        } else {
            push_str(&mut out, "pulled changes");
        }
        out
    }
}

/// The result of a sync.
#[derive(Debug, Clone, Default)]
pub struct SyncReport {
    /// The commit created for local changes before syncing, if any.
    pub committed: Option<CommitSummary>,
    /// Per remote, in the order they were tried.
    pub outcomes: Vec<Result<RemoteOutcome, String>>,
    /// Paths (relative to the notes dir) whose content changed on disk as a
    /// result of the sync.
    pub changed_paths: Vec<String>,
}

/// The error messages among the outcomes, in order.
pub open spec fn error_list(os: Seq<Result<RemoteOutcome, String>>) -> Seq<Seq<char>>
    decreases os.len(),
{
    if os.len() == 0 {
        Seq::<Seq<char>>::empty()
    } else {
        match os.last() {
            Ok(_) => error_list(os.drop_last()),
            Err(e) => error_list(os.drop_last()).push(e@),
        }
    }
}

/// The descriptions of the successful outcomes, in order.
pub open spec fn success_lines(os: Seq<Result<RemoteOutcome, String>>) -> Seq<Seq<char>>
    decreases os.len(),
{
    if os.len() == 0 {
        Seq::<Seq<char>>::empty()
    } else {
        match os.last() {
            Ok(o) => success_lines(os.drop_last()).push(outcome_line(o)),
            Err(_) => success_lines(os.drop_last()),
        }
    }
}

/// The parts joined with `sep` between neighbours.
pub open spec fn join(parts: Seq<Seq<char>>, sep: Seq<char>) -> Seq<char>
    decreases parts.len(),
{
    if parts.len() == 0 {
        Seq::<char>::empty()
    } else if parts.len() == 1 {
        parts[0]
    } else {
        join(parts.drop_last(), sep) + sep + parts.last()
    }
}

/// The status-bar summary of a sync.
pub open spec fn summary_text(os: Seq<Result<RemoteOutcome, String>>) -> Seq<char> {
    let errors = error_list(os);
    if os.len() == 0 {
        "Nothing to sync with."@
    } else if errors.len() == 1 {
        "Sync failed: "@ + errors[0]
    } else if errors.len() > 1 {
        "Sync failed for "@ + decimal(errors.len()) + " remotes: "@ + errors[0]
    } else {
        "Synced. "@ + join(success_lines(os), "; "@)
    }
}

pub proof fn lemma_error_list_empty(os: Seq<Result<RemoteOutcome, String>>)
    ensures
        error_list(os).len() == 0 <==> forall|i: int| 0 <= i < os.len() ==> os[i] is Ok,
    decreases os.len(),
{
    if os.len() > 0 {
        lemma_error_list_empty(os.drop_last());
        assert(forall|i: int| 0 <= i < os.len() - 1 ==> os.drop_last()[i] == os[i]);
    }
}

/// The outcome is a success that fetched commits.
pub open spec fn pulled_from(o: Result<RemoteOutcome, String>) -> bool {
    o matches Ok(out) && out.pulled
}

impl SyncReport {
    /// Some remote failed.
    pub fn has_errors(&self) -> (r: bool)
        ensures
            r == exists|i: int| 0 <= i < self.outcomes@.len() && self.outcomes@[i] is Err,
    {
        let mut i: usize = 0;
        while i < self.outcomes.len()
            invariant
                i <= self.outcomes@.len(),
                forall|j: int| 0 <= j < i ==> self.outcomes@[j] is Ok,
            decreases self.outcomes.len() - i,
        {
            if self.outcomes[i].is_err() {
                return true;
            }
            i += 1;
        }
        false
    }

    /// True when anything was fetched into the local branch.
    pub fn pulled(&self) -> (r: bool)
        ensures
            r == exists|i: int| 0 <= i < self.outcomes@.len() && #[trigger] pulled_from(self.outcomes@[i]),
    {
        let mut i: usize = 0;
        while i < self.outcomes.len()
            invariant
                i <= self.outcomes@.len(),
                forall|j: int| 0 <= j < i ==> !#[trigger] pulled_from(self.outcomes@[j]),
            decreases self.outcomes.len() - i,
        {
            match &self.outcomes[i] {
                Ok(o) => {
                    if o.pulled {
                        assert(pulled_from(self.outcomes@[i as int]));
                        return true;
                    }
                },
                Err(_) => {},
            }
            i += 1;
        }
        false
    }

    /// The error messages, in the order the remotes were tried.
    pub fn errors(&self) -> (r: Vec<&str>)
        ensures
            r@.len() == error_list(self.outcomes@).len(),
            forall|k: int| 0 <= k < r@.len() ==> #[trigger] r@[k]@ == error_list(self.outcomes@)[k],
    {
        let mut r: Vec<&str> = Vec::new();
        let mut i: usize = 0;
        assert(self.outcomes@.subrange(0, 0) =~= Seq::<Result<RemoteOutcome, String>>::empty());
        while i < self.outcomes.len()
            invariant
                i <= self.outcomes@.len(),
                r@.len() == error_list(self.outcomes@.subrange(0, i as int)).len(),
                forall|k: int|
                    0 <= k < r@.len() ==> #[trigger] r@[k]@ == error_list(
                        self.outcomes@.subrange(0, i as int),
                    )[k],
            decreases self.outcomes.len() - i,
        {
            assert(self.outcomes@.subrange(0, i + 1).drop_last() =~= self.outcomes@.subrange(
                0,
                i as int,
            ));
            match &self.outcomes[i] {
                Ok(_) => {},
                Err(e) => {
                    r.push(e.as_str());
                },
            }
            i += 1;
        }
        assert(self.outcomes@.subrange(0, self.outcomes@.len() as int) =~= self.outcomes@);
        r
    }

    /// A short summary line suitable for a status bar: the first error when
    /// any remote failed, otherwise what happened with each remote.
    pub fn summary(&self) -> (r: String)
        ensures
            r@ == summary_text(self.outcomes@),
    {
        if self.outcomes.len() == 0 {
            let v = chars_of("Nothing to sync with.");
            return string_of(v.as_slice());
        }
        let errors = self.errors();
        if errors.len() > 0 {
            let mut out: Vec<char> = Vec::new();
            if errors.len() == 1 {
                push_str(&mut out, "Sync failed: ");
            } else {
                push_str(&mut out, "Sync failed for ");
                let n = decimal_of(errors.len());
                push_all(&mut out, n.as_slice());
                push_str(&mut out, " remotes: ");
            }
            push_str(&mut out, errors[0]);
            return string_of(out.as_slice());
        }
        proof {
            lemma_error_list_empty(self.outcomes@);
        }
        let mut out: Vec<char> = Vec::new();
        push_str(&mut out, "Synced. ");
        let ghost head = out@;
        let mut parts: usize = 0;
        let mut i: usize = 0;
        assert(self.outcomes@.subrange(0, 0) =~= Seq::<Result<RemoteOutcome, String>>::empty());
        while i < self.outcomes.len()
            invariant
                i <= self.outcomes@.len(),
                forall|j: int| 0 <= j < self.outcomes@.len() ==> self.outcomes@[j] is Ok,
                parts == success_lines(self.outcomes@.subrange(0, i as int)).len(),
                parts == i,
                out@ == head + join(success_lines(self.outcomes@.subrange(0, i as int)), "; "@),
            decreases self.outcomes.len() - i,
        {
            let ghost pre = self.outcomes@.subrange(0, i as int);
            assert(self.outcomes@.subrange(0, i + 1).drop_last() =~= pre);
            match &self.outcomes[i] {
                Ok(o) => {
                    if parts > 0 {
                        push_str(&mut out, "; ");
                    }
                    let d = o.describe_chars();
                    push_all(&mut out, d.as_slice());
                    parts += 1;
                    proof {
                        let ls = success_lines(self.outcomes@.subrange(0, i + 1));
                        assert(ls == success_lines(pre).push(outcome_line(*o)));
                        if success_lines(pre).len() > 0 {
                            assert(ls.drop_last() =~= success_lines(pre));
                        } else {
                            assert(ls =~= seq![outcome_line(*o)]);
                        }
                    }
                },
                Err(_) => {
                    assert(false);
                },
            }
            i += 1;
            assert(out@ =~= head + join(success_lines(self.outcomes@.subrange(0, i as int)), "; "@));
        }
        assert(self.outcomes@.subrange(0, self.outcomes@.len() as int) =~= self.outcomes@);
        string_of(out.as_slice())
    }
}

/// Characters with a meaning in a regular expression.
pub open spec fn is_regex_meta(c: char) -> bool {
    c == '\\' || c == '.' || c == '^' || c == '$' || c == '|' || c == '(' || c == ')' || c == '['
        || c == ']' || c == '{' || c == '}' || c == '*' || c == '+' || c == '?'
}

/// The text with a backslash before every regular-expression metacharacter.
pub open spec fn regex_escaped(s: Seq<char>) -> Seq<char>
    decreases s.len(),
{
    if s.len() == 0 {
        Seq::<char>::empty()
    } else if is_regex_meta(s.last()) {
        regex_escaped(s.drop_last()) + seq!['\\', s.last()]
    } else {
        regex_escaped(s.drop_last()).push(s.last())
    }
}

/// Escape `s` for use inside a regular expression (git config multivar
/// patterns are POSIX extended regexps).
pub fn regex_escape(s: &str) -> (r: String)
    ensures
        r@ == regex_escaped(s@),
{
    let v = chars_of(s);
    let mut out: Vec<char> = Vec::new();
    let mut i: usize = 0;
    assert(v@.subrange(0, 0) =~= Seq::<char>::empty());
    while i < v.len()
        invariant
            i <= v@.len(),
            out@ == regex_escaped(v@.subrange(0, i as int)),
        decreases v.len() - i,
    {
        assert(v@.subrange(0, i + 1).drop_last() =~= v@.subrange(0, i as int));
        let c = v[i];
        if c == '\\' || c == '.' || c == '^' || c == '$' || c == '|' || c == '(' || c == ')' || c
            == '[' || c == ']' || c == '{' || c == '}' || c == '*' || c == '+' || c == '?' {
            out.push('\\');
        }
        out.push(c);
        i += 1;
        assert(out@ =~= regex_escaped(v@.subrange(0, i as int)));
    }
    assert(v@.subrange(0, v@.len() as int) =~= v@);
    string_of(out.as_slice())
}

} // verus!
