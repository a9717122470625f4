//! The scheduler's decision logic: a single background task alternating
//! between waiting out the interval and running one sync. The surrounding
//! loop (sleeping, invoking the engine, logging) lives outside the core and
//! drives this state machine; failures are swallowed and never stop it.

use vstd::prelude::*;

verus! {

/// The sync interval used when none is configured, in seconds.
pub const DEFAULT_SYNC_INTERVAL_SECS: u64 = 300;

/// The task is either waiting out the interval or running one sync.
#[derive(Clone, Copy, Debug, PartialEq, Eq, Structural)]
pub enum SchedulerPhase {
    Waiting,
    Running,
}

/// The scheduler: created waiting, so the first sync happens only after one
/// full interval, never at startup. A tick that arrives while a run is
/// still in flight starts no second run, which serializes invocations.
pub struct SyncScheduler {
    interval_secs: u64,
    phase: SchedulerPhase,
    runs_completed: u64,
    runs_failed: u64,
}

impl SyncScheduler {
    pub closed spec fn spec_interval_secs(&self) -> u64 {
        self.interval_secs
    }

    pub closed spec fn spec_phase(&self) -> SchedulerPhase {
        self.phase
    }

    pub closed spec fn spec_runs_completed(&self) -> u64 {
        self.runs_completed
    }

    pub closed spec fn spec_runs_failed(&self) -> u64 {
        self.runs_failed
    }

    pub fn new(interval_secs: u64) -> (s: SyncScheduler)
        ensures
            s.spec_interval_secs() == interval_secs,
            s.spec_phase() == SchedulerPhase::Waiting,
            s.spec_runs_completed() == 0,
            s.spec_runs_failed() == 0,
    {
        SyncScheduler {
            interval_secs,
            phase: SchedulerPhase::Waiting,
            runs_completed: 0,
            runs_failed: 0,
        }
    }

    pub fn interval_secs(&self) -> (r: u64)
        ensures
            r == self.spec_interval_secs(),
    {
        self.interval_secs
    }

    pub fn phase(&self) -> (r: SchedulerPhase)
        ensures
            r == self.spec_phase(),
    {
        self.phase
    }

    pub fn runs_completed(&self) -> (r: u64)
        ensures
            r == self.spec_runs_completed(),
    {
        self.runs_completed
    }

    pub fn runs_failed(&self) -> (r: u64)
        ensures
            r == self.spec_runs_failed(),
    {
        self.runs_failed
    }

    /// One interval has elapsed. If the scheduler was waiting it moves to
    /// running and the caller must invoke one sync; if a run is still in
    /// flight nothing starts.
    pub fn interval_elapsed(&mut self) -> (run: bool)
        ensures
            final(self).spec_interval_secs() == old(self).spec_interval_secs(),
            final(self).spec_runs_completed() == old(self).spec_runs_completed(),
            final(self).spec_runs_failed() == old(self).spec_runs_failed(),
            run == (old(self).spec_phase() == SchedulerPhase::Waiting),
            final(self).spec_phase() == (if run {
                SchedulerPhase::Running
            } else {
                old(self).spec_phase()
            }),
    {
        match self.phase {
            SchedulerPhase::Waiting => {
                self.phase = SchedulerPhase::Running;
                true
            },
            SchedulerPhase::Running => false,
        }
    }

    /// The sync the caller ran has finished, successfully or not. Either
    /// way the scheduler returns to waiting: a failure is logged by the
    /// caller and never stops the loop.
    pub fn sync_finished(&mut self, ok: bool)
        requires
            old(self).spec_runs_completed() < u64::MAX,
            old(self).spec_runs_failed() < u64::MAX,
        ensures
            final(self).spec_interval_secs() == old(self).spec_interval_secs(),
            final(self).spec_phase() == SchedulerPhase::Waiting,
            ok ==> final(self).spec_runs_completed() == old(self).spec_runs_completed() + 1
                && final(self).spec_runs_failed() == old(self).spec_runs_failed(),
            !ok ==> final(self).spec_runs_failed() == old(self).spec_runs_failed() + 1
                && final(self).spec_runs_completed() == old(self).spec_runs_completed(),
    {
        self.phase = SchedulerPhase::Waiting;
        if ok {
            self.runs_completed = self.runs_completed + 1;
        } else {
            self.runs_failed = self.runs_failed + 1;
        }
    }
}

} // verus!
