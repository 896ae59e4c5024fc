//! The cross-process lock that keeps the desktop application and the
//! command line from committing or syncing one repository at the same time.
//!
//! The lock is a file created exclusively in the repository's `.git`
//! directory; a stale one left by a crashed process is reclaimed once. The
//! file operations are the caller's; this module decides what each outcome
//! of an attempt to create the file means.
use vstd::prelude::*;
use crate::text::{chars_of, push_str, string_of};

verus! {

/// Name of the lock file inside `.git/`.
pub const LOCK_FILE_NAME: &'static str = "piki.lock";

/// A lock older than this (in seconds) is left over from a crashed process.
pub const STALE_AFTER_SECS: u64 = 600;

/// How many times creating the lock file is tried.
pub const ATTEMPTS: u32 = 2;

/// What an attempt to create the lock file exclusively gave.
pub enum LockAttempt {
    /// The file was created: the lock is ours.
    Created,
    /// The file exists already; `stale` when it is older than
    /// `STALE_AFTER_SECS`.
    AlreadyExists { stale: bool },
    /// Creating the file failed otherwise, with this error.
    Failed(String),
}

/// What to do after an attempt.
pub enum LockStep {
    /// The lock is held.
    Acquired,
    /// Remove the stale file and try again.
    Reclaim,
    /// Give up with this message.
    Refuse(String),
}

/// The message when another process holds the lock.
pub open spec fn busy_message() -> Seq<char> {
    "Another Piki process is committing or syncing this notes directory right now; please try again in a moment."@
}

/// The message when every attempt found the file in place.
pub open spec fn exhausted_message() -> Seq<char> {
    "Another Piki process is committing or syncing this notes directory."@
}

/// Whether a lock file of age `age_secs` is stale.
pub fn is_stale_age(age_secs: u64) -> (r: bool)
    ensures
        r == (age_secs > STALE_AFTER_SECS),
{
    age_secs > STALE_AFTER_SECS
}

/// Decide what the `attempt`-th (0-based) try to create the lock file at
/// `path` leads to: a stale file is reclaimed on the first try only.
pub fn lock_step(attempt: u32, outcome: LockAttempt, path: &str) -> (r: LockStep)
    ensures
        match outcome {
            LockAttempt::Created => r is Acquired,
            LockAttempt::AlreadyExists { stale } => if attempt == 0 && stale {
                r is Reclaim
            } else {
                r matches LockStep::Refuse(m) && m@ == busy_message()
            },
            LockAttempt::Failed(e) => r matches LockStep::Refuse(m) && m@
                == "Failed to create lock file "@ + path@ + ": "@ + e@,
        },
{
    match outcome {
        LockAttempt::Created => LockStep::Acquired,
        LockAttempt::AlreadyExists { stale } => {
            if attempt == 0 && stale {
                LockStep::Reclaim
            } else {
                LockStep::Refuse(
                    string_of(
                        chars_of(
                            "Another Piki process is committing or syncing this notes directory right now; please try again in a moment.",
                        ).as_slice(),
                    ),
                )
            }
        },
        LockAttempt::Failed(e) => {
            let mut out = chars_of("Failed to create lock file ");
            push_str(&mut out, path);
            push_str(&mut out, ": ");
            push_str(&mut out, e.as_str());
            LockStep::Refuse(string_of(out.as_slice()))
        },
    }
}

/// The message when all attempts are used up.
pub fn exhausted() -> (r: String)
    ensures
        r@ == exhausted_message(),
{
    string_of(chars_of("Another Piki process is committing or syncing this notes directory.").as_slice())
}

} // verus!
