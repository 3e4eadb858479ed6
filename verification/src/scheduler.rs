//! The refresh scheduler: orchestrates the periodic
//! snapshot -> downsample -> install cycle that feeds the renderer.
//!
//! The scheduler is a pure decision machine. The surrounding runtime owns
//! the timer, the store's lock and the worker context; on every discrete
//! event it calls `on_event` and performs the returned action (take a
//! snapshot, or run one downsample job off the interactive context). Ticks
//! are never held back by an unfinished job, jobs are never cancelled or
//! deduplicated, and whichever job *completes* last is the one whose result
//! ends up installed — the deliberate, tolerated race of an approximate
//! visualization. A failed tick (empty snapshot, failed job) changes
//! nothing and never cancels future ticks.

use vstd::prelude::*;
use crate::sample::Sample;

verus! {

/// A discrete event the runtime hands the scheduler.
pub enum RefreshEvent {
    /// The fixed-period timer fired.
    Tick,
    /// A snapshot of the store, taken for some earlier tick, is available.
    SnapshotReady(Vec<Sample>),
    /// A downsample job finished with this result.
    JobDone(Vec<Sample>),
    /// A downsample job failed; the previous active dataset stays.
    JobFailed,
}

/// What the runtime must do next.
pub enum RefreshAction {
    /// Copy the store's content and hand it back as `SnapshotReady`.
    TakeSnapshot,
    /// Run the downsampler on this snapshot, off the interactive context,
    /// with the scheduler's fixed target, and hand the result back as
    /// `JobDone` (or `JobFailed`).
    RunDownsample(Vec<Sample>),
    /// Nothing to do for this event.
    Idle,
}

/// Scheduler state: the fixed downsample target, the most recently
/// completed downsample result (the active dataset), and its version — the
/// identity that invalidates the render cache.
pub struct RefreshScheduler {
    target: usize,
    version: u64,
    active: Option<Vec<Sample>>,
}

impl RefreshScheduler {
    /// The fixed bucket target handed to every downsample job.
    pub closed spec fn target(&self) -> usize {
        self.target
    }

    /// The installed active dataset, if any cycle has completed yet.
    pub closed spec fn active(&self) -> Option<Seq<Sample>> {
        match self.active {
            Some(ref d) => Some(d@),
            None => None,
        }
    }

    /// The active dataset's version.
    pub closed spec fn version(&self) -> u64 {
        self.version
    }

    /// The target always admits both endpoints, so a job the scheduler
    /// submits can never fail with `InvalidArgument`.
    pub open spec fn wf(&self) -> bool {
        self.target() >= 2
    }

    /// A scheduler with no active dataset yet; the consumer shows its
    /// loading placeholder until the first cycle completes.
    pub fn new(target: usize) -> (s: RefreshScheduler)
        requires
            target >= 2,
        ensures
            s.wf(),
            s.target() == target,
            s.active() is None,
            s.version() == 0,
    {
        RefreshScheduler { target, version: 0, active: None }
    }

    /// The downsample target, for the runtime that executes jobs.
    pub fn job_target(&self) -> (t: usize)
        ensures
            t == self.target(),
    {
        self.target
    }

    /// The active dataset the chart consumer currently renders.
    pub fn active_dataset(&self) -> (d: Option<&Vec<Sample>>)
        ensures
            d is Some <==> self.active() is Some,
            d is Some ==> d->Some_0@ == self.active()->Some_0,
    {
        match &self.active {
            Some(d) => Some(d),
            None => None,
        }
    }

    /// The version the render cache must be tagged with to be valid.
    pub fn active_version(&self) -> (v: u64)
        ensures
            v == self.version(),
    {
        self.version
    }

    /// One step of the refresh cycle.
    ///
    /// - `Tick`: always ask for a snapshot; an unfinished earlier job delays
    ///   nothing and is not cancelled.
    /// - `SnapshotReady`: submit a downsample job for a non-empty snapshot;
    ///   an empty one ends the cycle with nothing changed.
    /// - `JobDone`: install the result as the active dataset — whichever job
    ///   completes last wins — and move to a fresh version, invalidating the
    ///   render cache.
    /// - `JobFailed`: keep the previous active dataset and version.
    pub fn on_event(&mut self, event: RefreshEvent) -> (action: RefreshAction)
        requires
            old(self).wf(),
        ensures
            final(self).wf(),
            final(self).target() == old(self).target(),
            event is Tick ==> action is TakeSnapshot && final(self).active() == old(self).active()
                && final(self).version() == old(self).version(),
            event matches RefreshEvent::SnapshotReady(s) ==> final(self).active() == old(
                self,
            ).active() && final(self).version() == old(self).version() && (if s@.len() > 0 {
                action == RefreshAction::RunDownsample(s)
            } else {
                action is Idle
            }),
            event matches RefreshEvent::JobDone(d) ==> action is Idle && final(self).active()
                == Some(d@) && final(self).version() == (if old(self).version() == u64::MAX {
                0u64
            } else {
                (old(self).version() + 1) as u64
            }) && final(self).version() != old(self).version(),
            event is JobFailed ==> action is Idle && final(self).active() == old(self).active()
                && final(self).version() == old(self).version(),
    {
        match event {
            RefreshEvent::Tick => RefreshAction::TakeSnapshot,
            RefreshEvent::SnapshotReady(s) => {
                if s.len() > 0 {
                    RefreshAction::RunDownsample(s)
                } else {
                    RefreshAction::Idle
                }
            },
            RefreshEvent::JobDone(d) => {
                self.active = Some(d);
                self.version = if self.version == u64::MAX {
                    0
                } else {
                    self.version + 1
                };
                RefreshAction::Idle
            },
            RefreshEvent::JobFailed => RefreshAction::Idle,
        }
    }
}

} // verus!
