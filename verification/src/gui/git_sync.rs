//! When the desktop application commits and syncs.
//!
//! The repository work itself runs on a background worker owned by the
//! application; this is the main thread's bookkeeping that decides when to
//! ask for it. Commits are debounced: after the last save of an edit the
//! commit waits `COMMIT_DELAY_MS`, so a burst of autosaves while typing
//! becomes one commit. Leaving a note or closing the window commits at once.
//! Times are milliseconds on a monotonic clock.
use vstd::prelude::*;
use crate::git::report::{summary_text, CommitSummary, SyncReport};
use crate::text::opt_view;

verus! {

/// How long after the last save an edit waits before it is committed.
pub const COMMIT_DELAY_MS: u64 = 60_000;

/// How often the application syncs with the configured remotes on its own.
pub const SYNC_INTERVAL_MS: u64 = 900_000;

/// Delay before the first automatic sync after launch.
pub const FIRST_SYNC_DELAY_MS: u64 = 3_000;

/// How long closing the window waits for the worker to finish its queue.
pub const SHUTDOWN_TIMEOUT_MS: u64 = 15_000;

/// What the worker reports back.
pub enum Event {
    /// A sync has begun (after its preceding commit).
    SyncStarted,
    Committed(Result<Option<CommitSummary>, String>),
    Synced(Result<SyncReport, String>),
}

/// Main-thread state: decides when to commit and tracks whether a sync runs.
pub struct GitState {
    /// Whether a worker exists to carry out requests.
    available: bool,
    /// Save generation last observed.
    seen_generation: u64,
    /// When a save that has not been committed yet was noticed.
    pending_since: Option<u64>,
    /// Whether a sync is in flight on the worker.
    pub syncing: bool,
    /// The last sync error, until a sync succeeds.
    pub last_error: Option<String>,
    /// Why Git support is unavailable (disabled, or not a repository).
    pub unavailable_reason: Option<String>,
}

/// Whether a commit waiting since `since` is due at `now`.
pub open spec fn due(since: u64, now: u64) -> bool {
    now >= since && now - since >= COMMIT_DELAY_MS
}

/// The error a finished sync leaves shown: its summary when some remote
/// failed, the error when it failed as a whole, nothing when it went well.
pub open spec fn sync_error(result: Result<SyncReport, String>) -> Option<Seq<char>> {
    match result {
        Ok(report) => if exists|i: int|
            0 <= i < report.outcomes@.len() && report.outcomes@[i] is Err {
            Some(summary_text(report.outcomes@))
        } else {
            None
        },
        Err(e) => Some(e@),
    }
}

/// The sync flag and the shown error (as a value) after one worker event:
/// a sync that starts sets the flag, a finished one clears it and shows its
/// error (or none), a commit changes neither.
pub open spec fn event_step(state: (bool, Option<Seq<char>>), event: Event) -> (bool, Option<Seq<char>>) {
    match event {
        Event::SyncStarted => (true, state.1),
        Event::Synced(result) => (false, sync_error(result)),
        Event::Committed(_) => state,
    }
}

/// The sync flag and the shown error after the events, in order.
pub open spec fn events_effect(state: (bool, Option<Seq<char>>), events: Seq<Event>) -> (
    bool,
    Option<Seq<char>>,
)
    decreases events.len(),
{
    if events.len() == 0 {
        state
    } else {
        event_step(events_effect(state, events.drop_last()), events.last())
    }
}

impl GitState {
    pub closed spec fn seen(&self) -> u64 {
        self.seen_generation
    }

    pub closed spec fn pending(&self) -> Option<u64> {
        self.pending_since
    }

    pub closed spec fn has_worker(&self) -> bool {
        self.available
    }

    pub closed spec fn syncing_now(&self) -> bool {
        self.syncing
    }

    pub closed spec fn error_shown(&self) -> Option<String> {
        self.last_error
    }

    pub closed spec fn reason(&self) -> Option<String> {
        self.unavailable_reason
    }

    /// A fresh state; `available` says whether a worker was started.
    pub fn new(available: bool, unavailable_reason: Option<String>) -> (r: Self)
        ensures
            r.has_worker() == available,
            r.seen() == 0,
            r.pending() is None,
            !r.syncing_now(),
            r.error_shown() is None,
            r.reason() == unavailable_reason,
    {
        GitState {
            available,
            seen_generation: 0,
            pending_since: None,
            syncing: false,
            last_error: None,
            unavailable_reason,
        }
    }

    pub fn is_available(&self) -> (r: bool)
        ensures
            r == self.has_worker(),
    {
        self.available
    }

    /// Whether a save is waiting to be committed.
    pub fn has_pending_commit(&self) -> (r: bool)
        ensures
            r == self.pending() is Some,
    {
        self.pending_since.is_some()
    }

    /// Called from the animation timer with the autosave's save generation:
    /// notices a new save (which restarts the wait) and, once the wait is
    /// over, commits. Returns whether the worker is to commit now.
    pub fn observe(&mut self, generation: u64, now: u64) -> (commit: bool)
        ensures
            ({
                let pending1 = if generation != old(self).seen() {
                    Some(now)
                } else {
                    old(self).pending()
                };
                let fire = pending1 matches Some(since) && due(since, now);
                &&& final(self).seen() == generation
                &&& final(self).pending() == (if fire {
                    None
                } else {
                    pending1
                })
                &&& commit == (fire && old(self).has_worker())
            }),
            final(self).has_worker() == old(self).has_worker(),
            final(self).syncing_now() == old(self).syncing_now(),
            final(self).error_shown() == old(self).error_shown(),
            final(self).reason() == old(self).reason(),
    {
        if generation != self.seen_generation {
            self.seen_generation = generation;
            self.pending_since = Some(now);
        }
        if let Some(since) = self.pending_since {
            if now >= since && now - since >= COMMIT_DELAY_MS {
                return self.commit_now(generation);
            }
        }
        false
    }

    /// Commit right away if anything was saved since the last commit
    /// request (leaving a note, closing the window). Returns whether the
    /// worker is to commit.
    pub fn commit_now(&mut self, generation: u64) -> (commit: bool)
        ensures
            commit == ((generation != old(self).seen() || old(self).pending() is Some)
                && old(self).has_worker()),
            final(self).seen() == generation,
            final(self).pending() is None,
            final(self).has_worker() == old(self).has_worker(),
            final(self).syncing_now() == old(self).syncing_now(),
            final(self).error_shown() == old(self).error_shown(),
            final(self).reason() == old(self).reason(),
    {
        let changed = generation != self.seen_generation || self.pending_since.is_some();
        self.seen_generation = generation;
        self.pending_since = None;
        changed && self.available
    }

    /// Ask for a sync (which commits first). Refused when Git support is
    /// unavailable or a sync is already running.
    pub fn request_sync(&mut self) -> (r: bool)
        ensures
            r == (!old(self).syncing_now() && old(self).has_worker()),
            final(self).pending() == (if r {
                None
            } else {
                old(self).pending()
            }),
            final(self).seen() == old(self).seen(),
            final(self).has_worker() == old(self).has_worker(),
            final(self).syncing_now() == old(self).syncing_now(),
            final(self).error_shown() == old(self).error_shown(),
            final(self).reason() == old(self).reason(),
    {
        if self.syncing || !self.available {
            return false;
        }
        self.pending_since = None;
        true
    }

    /// Keep the sync flag and the last error in step with one event from
    /// the worker.
    pub fn apply_event(&mut self, event: &Event)
        ensures
            match event {
                Event::SyncStarted => final(self).syncing_now() && final(self).error_shown()
                    == old(self).error_shown(),
                Event::Synced(result) => !final(self).syncing_now() && match final(self).error_shown() {
                    Some(e) => sync_error(*result) == Some(e@),
                    None => sync_error(*result) is None,
                },
                Event::Committed(_) => final(self).syncing_now() == old(self).syncing_now()
                    && final(self).error_shown() == old(self).error_shown(),
            },
            final(self).seen() == old(self).seen(),
            final(self).pending() == old(self).pending(),
            final(self).has_worker() == old(self).has_worker(),
            final(self).reason() == old(self).reason(),
    {
        match event {
            Event::SyncStarted => {
                self.syncing = true;
            },
            Event::Synced(result) => {
                self.syncing = false;
                self.last_error = match result {
                    Ok(report) => if report.has_errors() {
                        Some(report.summary())
                    } else {
                        None
                    },
                    Err(e) => Some(e.clone()),
                };
            },
            Event::Committed(_) => {},
        }
    }

    /// Apply the worker's events in order (what polling the worker yields).
    pub fn apply_events(&mut self, events: &[Event])
        ensures
            final(self).seen() == old(self).seen(),
            final(self).pending() == old(self).pending(),
            final(self).has_worker() == old(self).has_worker(),
            final(self).reason() == old(self).reason(),
            (final(self).syncing_now(), opt_view(final(self).error_shown())) == events_effect(
                (old(self).syncing_now(), opt_view(old(self).error_shown())),
                events@,
            ),
            events@.len() == 0 ==> final(self).syncing_now() == old(self).syncing_now()
                && final(self).error_shown() == old(self).error_shown(),
    {
        let ghost start = (self.syncing, opt_view(self.last_error));
        let mut i: usize = 0;
        assert(events@.take(0) =~= Seq::<Event>::empty());
        while i < events.len()
            invariant
                i <= events@.len(),
                start == (old(self).syncing_now(), opt_view(old(self).error_shown())),
                self.seen() == old(self).seen(),
                self.pending() == old(self).pending(),
                self.has_worker() == old(self).has_worker(),
                self.unavailable_reason == old(self).reason(),
                (self.syncing, opt_view(self.last_error)) == events_effect(start, events@.take(i as int)),
                i == 0 ==> self.syncing == old(self).syncing_now()
                    && self.last_error == old(self).error_shown(),
            decreases events.len() - i,
        {
            self.apply_event(&events[i]);
            assert(events@.take(i + 1).drop_last() =~= events@.take(i as int));
            assert(events@.take(i + 1).last() == events@[i as int]);
            i += 1;
        }
        assert(events@.take(events@.len() as int) =~= events@);
    }

    /// Forget pending work before the final commit at shutdown: the
    /// generation is taken as seen and nothing waits any more.
    pub fn prepare_shutdown(&mut self, generation: u64)
        ensures
            final(self).seen() == generation,
            final(self).pending() is None,
            final(self).has_worker() == old(self).has_worker(),
            final(self).syncing_now() == old(self).syncing_now(),
            final(self).error_shown() == old(self).error_shown(),
            final(self).reason() == old(self).reason(),
    {
        self.seen_generation = generation;
        self.pending_since = None;
    }
}

/// A save noticed at `now` never commits at that same moment: the commit
/// waits at least `COMMIT_DELAY_MS` after the last save.
pub proof fn new_save_restarts_the_wait(now: u64)
    ensures
        !due(now, now),
{
}

/// Once a save has waited `COMMIT_DELAY_MS` without another one, it is due.
pub proof fn quiet_save_becomes_due(since: u64, now: u64)
    requires
        since <= now,
        now - since >= COMMIT_DELAY_MS,
    ensures
        due(since, now),
{
}

} // verus!
