//! The two bounded lanes in front of the cleanup workers.
//!
//! Each worker performs one synchronous cleanup at a time. Worker zero serves
//! the interactive lane only.

use crate::clock::Span;
use crate::retirement::foundation::{
    RetirementConfig, RetirementPriority, RESERVED_INTERACTIVE_CLEANUP_WORKERS,
};
use crate::store::cleanup::{LocalCleanupDisposition, LocalCleanupMode, LocalCleanupOutcome};
use crate::store::identity::StreamIdentity;
use std::collections::VecDeque;
use vstd::prelude::*;

verus! {

#[derive(Clone, Copy, Debug, PartialEq, Eq, Structural)]
pub enum PhysicalSubmitError {
    Full,
    Closed,
}

#[derive(Clone, Copy, Debug, PartialEq, Eq, Structural)]
pub enum PhysicalAttemptResult {
    Succeeded { reclaimed_local_bytes: u64, disposition: LocalCleanupDisposition },
    Failed,
    Panicked,
    Cancelled,
}

/// The end of one attempt as a worker reports it.
#[derive(Clone, Copy, Debug, PartialEq, Eq, Structural)]
pub struct PhysicalCompletion {
    pub result: PhysicalAttemptResult,
    pub duration: Span,
}

/// How a cleanup callback came back.
#[derive(Clone, Copy, Debug, PartialEq, Eq, Structural)]
pub enum CleanupReturn {
    Returned(LocalCleanupOutcome),
    ReturnedError,
    Panicked,
}

/// One attempt waiting for a worker.
#[derive(Clone, Copy, Debug, PartialEq, Eq, Structural)]
pub struct PhysicalJob {
    pub stream: StreamIdentity,
    pub attempt: u8,
    pub mode: LocalCleanupMode,
}

/// Which sleeping workers a submission must wake.
#[derive(Clone, Copy, Debug, PartialEq, Eq, Structural)]
pub enum WorkerWake {
    One,
    All,
}

/// What a worker does next.
#[derive(Clone, Copy, Debug, PartialEq, Eq, Structural)]
pub enum WorkerStep {
    Run { job: PhysicalJob, priority: RetirementPriority },
    Wait,
    Exit,
}

#[derive(Clone, Copy, Debug, PartialEq, Eq, Structural)]
pub struct PhysicalSnapshot {
    pub interactive_queued: usize,
    pub proactive_queued: usize,
    pub interactive_active: usize,
    pub proactive_active: usize,
    pub workers_live: usize,
    pub workers_total: usize,
    pub closed: bool,
}

/// The lanes as a mathematical value.
#[verifier::ext_equal]
pub struct PhysicalView {
    pub interactive: Seq<PhysicalJob>,
    pub proactive: Seq<PhysicalJob>,
    pub active_interactive: int,
    pub active_proactive: int,
    pub workers_live: int,
    pub workers_total: int,
    pub interactive_capacity: int,
    pub proactive_capacity: int,
    pub closed: bool,
}

impl PhysicalView {
    /// Neither lane holds more than its share and no worker runs two jobs.
    pub open spec fn wf(self) -> bool {
        &&& self.interactive.len() <= self.interactive_capacity
        &&& self.proactive.len() <= self.proactive_capacity
        &&& 0 <= self.active_interactive
        &&& 0 <= self.active_proactive
        &&& self.active_interactive + self.active_proactive <= self.workers_live
        &&& self.workers_live <= self.workers_total
    }

    pub open spec fn lane(self, priority: RetirementPriority) -> Seq<PhysicalJob> {
        match priority {
            RetirementPriority::Interactive => self.interactive,
            RetirementPriority::Proactive => self.proactive,
        }
    }

    pub open spec fn lane_capacity(self, priority: RetirementPriority) -> int {
        match priority {
            RetirementPriority::Interactive => self.interactive_capacity,
            RetirementPriority::Proactive => self.proactive_capacity,
        }
    }

    /// Why a submission to a lane is refused, if it is.
    pub open spec fn refusal(self, priority: RetirementPriority) -> Option<PhysicalSubmitError> {
        if self.closed {
            Some(PhysicalSubmitError::Closed)
        } else if self.lane(priority).len() >= self.lane_capacity(priority) {
            Some(PhysicalSubmitError::Full)
        } else {
            None
        }
    }

    /// The lanes with `job` at the back of its lane.
    pub open spec fn queued(self, priority: RetirementPriority, job: PhysicalJob) -> PhysicalView {
        match priority {
            RetirementPriority::Interactive => PhysicalView {
                interactive: self.interactive.push(job),
                ..self
            },
            RetirementPriority::Proactive => PhysicalView {
                proactive: self.proactive.push(job),
                ..self
            },
        }
    }

    /// What worker `index` does next: interactive work first, proactive work
    /// only on a worker other than zero, and an exit once a closed executor has
    /// nothing left for it.
    pub open spec fn next_step(self, index: usize) -> WorkerStep {
        if self.interactive.len() > 0 {
            WorkerStep::Run { job: self.interactive[0], priority: RetirementPriority::Interactive }
        } else if index != 0 && self.proactive.len() > 0 {
            WorkerStep::Run { job: self.proactive[0], priority: RetirementPriority::Proactive }
        } else if self.closed {
            WorkerStep::Exit
        } else {
            WorkerStep::Wait
        }
    }

    /// The lanes after a worker took `step`.
    pub open spec fn stepped(self, step: WorkerStep) -> PhysicalView {
        match step {
            WorkerStep::Run { job, priority } => match priority {
                RetirementPriority::Interactive => PhysicalView {
                    interactive: self.interactive.skip(1),
                    active_interactive: self.active_interactive + 1,
                    ..self
                },
                RetirementPriority::Proactive => PhysicalView {
                    proactive: self.proactive.skip(1),
                    active_proactive: self.active_proactive + 1,
                    ..self
                },
            },
            WorkerStep::Wait => self,
            WorkerStep::Exit => PhysicalView { workers_live: self.workers_live - 1, ..self },
        }
    }

    /// The lanes after a worker ended a job of `priority`.
    pub open spec fn ended(self, priority: RetirementPriority) -> PhysicalView {
        match priority {
            RetirementPriority::Interactive => PhysicalView {
                active_interactive: if self.active_interactive > 0 {
                    self.active_interactive - 1
                } else {
                    0
                },
                ..self
            },
            RetirementPriority::Proactive => PhysicalView {
                active_proactive: if self.active_proactive > 0 {
                    self.active_proactive - 1
                } else {
                    0
                },
                ..self
            },
        }
    }
}

/// The queue in front of a fixed number of cleanup workers.
pub struct PhysicalExecutor {
    interactive: VecDeque<PhysicalJob>,
    proactive: VecDeque<PhysicalJob>,
    active_interactive: usize,
    active_proactive: usize,
    workers_live: usize,
    workers_total: usize,
    interactive_capacity: usize,
    proactive_capacity: usize,
    closed: bool,
}

impl View for PhysicalExecutor {
    type V = PhysicalView;

    closed spec fn view(&self) -> PhysicalView {
        PhysicalView {
            interactive: self.interactive@,
            proactive: self.proactive@,
            active_interactive: self.active_interactive as int,
            active_proactive: self.active_proactive as int,
            workers_live: self.workers_live as int,
            workers_total: self.workers_total as int,
            interactive_capacity: self.interactive_capacity as int,
            proactive_capacity: self.proactive_capacity as int,
            closed: self.closed,
        }
    }
}

/// What a worker reports for the way its callback came back.
pub open spec fn attempt_result_of(returned: CleanupReturn) -> PhysicalAttemptResult {
    match returned {
        CleanupReturn::Returned(outcome) => PhysicalAttemptResult::Succeeded {
            reclaimed_local_bytes: outcome.reclaimed_local_bytes,
            disposition: outcome.disposition,
        },
        CleanupReturn::ReturnedError => PhysicalAttemptResult::Failed,
        CleanupReturn::Panicked => PhysicalAttemptResult::Panicked,
    }
}

/// The report for a callback that came back as `returned`.
pub fn attempt_result(returned: CleanupReturn) -> (r: PhysicalAttemptResult)
    ensures
        r == attempt_result_of(returned),
{
    match returned {
        CleanupReturn::Returned(outcome) => PhysicalAttemptResult::Succeeded {
            reclaimed_local_bytes: outcome.reclaimed_local_bytes,
            disposition: outcome.disposition,
        },
        CleanupReturn::ReturnedError => PhysicalAttemptResult::Failed,
        CleanupReturn::Panicked => PhysicalAttemptResult::Panicked,
    }
}

/// The report for a job that was dropped before a worker took it.
pub fn cancelled_completion() -> (r: PhysicalCompletion)
    ensures
        r == (PhysicalCompletion {
            result: PhysicalAttemptResult::Cancelled,
            duration: Span { nanos: 0 },
        }),
{
    PhysicalCompletion { result: PhysicalAttemptResult::Cancelled, duration: Span { nanos: 0 } }
}

impl PhysicalExecutor {
    /// What is wrong with `config` for a worker pool, if anything.
    pub open spec fn refused(config: RetirementConfig) -> Option<Seq<char>> {
        if config.complaint() is Some {
            config.complaint()
        } else if config.cleanup_workers == RESERVED_INTERACTIVE_CLEANUP_WORKERS
            && config.proactive_physical_capacity != 0 {
            Some("one reserved worker cannot drain a proactive queue"@)
        } else {
            None
        }
    }

    /// The empty lanes of a pool with these limits.
    pub open spec fn initial(config: RetirementConfig) -> PhysicalView {
        PhysicalView {
            interactive: Seq::empty(),
            proactive: Seq::empty(),
            active_interactive: 0,
            active_proactive: 0,
            workers_live: config.cleanup_workers as int,
            workers_total: config.cleanup_workers as int,
            interactive_capacity: config.interactive_physical_capacity as int,
            proactive_capacity: config.proactive_physical_capacity as int,
            closed: false,
        }
    }

    /// An open executor with empty lanes.
    pub fn new(config: &RetirementConfig) -> (r: Result<Self, &'static str>)
        ensures
            match r {
                Ok(executor) => {
                    &&& Self::refused(*config) is None
                    &&& executor@ == Self::initial(*config)
                    &&& executor@.wf()
                },
                Err(message) => Self::refused(*config) == Some(message@),
            },
    {
        if let Err(message) = config.validate() {
            return Err(message);
        }
        if config.cleanup_workers == RESERVED_INTERACTIVE_CLEANUP_WORKERS
            && config.proactive_physical_capacity != 0 {
            return Err("one reserved worker cannot drain a proactive queue");
        }
        let executor = PhysicalExecutor {
            interactive: VecDeque::new(),
            proactive: VecDeque::new(),
            active_interactive: 0,
            active_proactive: 0,
            workers_live: config.cleanup_workers,
            workers_total: config.cleanup_workers,
            interactive_capacity: config.interactive_physical_capacity,
            proactive_capacity: config.proactive_physical_capacity,
            closed: false,
        };
        assert(executor@ =~= Self::initial(*config));
        Ok(executor)
    }

    /// Put one attempt at the back of its lane.
    pub fn submit(&mut self, job: PhysicalJob, priority: RetirementPriority) -> (r: Result<
        WorkerWake,
        PhysicalSubmitError,
    >)
        requires
            old(self)@.wf(),
        ensures
            final(self)@.wf(),
            match r {
                Ok(wake) => {
                    &&& old(self)@.refusal(priority) is None
                    &&& final(self)@ == old(self)@.queued(priority, job)
                    &&& wake == (match priority {
                        RetirementPriority::Interactive => WorkerWake::One,
                        RetirementPriority::Proactive => WorkerWake::All,
                    })
                },
                Err(error) => {
                    &&& old(self)@.refusal(priority) == Some(error)
                    &&& final(self)@ == old(self)@
                },
            },
    {
        if self.closed {
            return Err(PhysicalSubmitError::Closed);
        }
        match priority {
            RetirementPriority::Interactive => {
                if self.interactive.len() >= self.interactive_capacity {
                    return Err(PhysicalSubmitError::Full);
                }
                self.interactive.push_back(job);
                assert(self@ =~= old(self)@.queued(priority, job));
                Ok(WorkerWake::One)
            },
            // Worker zero never takes this lane, so waking a single worker
            // could leave the job unseen.
            RetirementPriority::Proactive => {
                if self.proactive.len() >= self.proactive_capacity {
                    return Err(PhysicalSubmitError::Full);
                }
                self.proactive.push_back(job);
                assert(self@ =~= old(self)@.queued(priority, job));
                Ok(WorkerWake::All)
            },
        }
    }

    /// Decide what the idle worker `index` does next and account for it.
    pub fn next_step(&mut self, index: usize) -> (r: WorkerStep)
        requires
            old(self)@.wf(),
            old(self)@.active_interactive + old(self)@.active_proactive < old(self)@.workers_live,
        ensures
            final(self)@.wf(),
            r == old(self)@.next_step(index),
            final(self)@ == old(self)@.stepped(r),
    {
        if let Some(job) = self.interactive.pop_front() {
            self.active_interactive = self.active_interactive + 1;
            let step = WorkerStep::Run { job, priority: RetirementPriority::Interactive };
            assert(self.interactive@ =~= old(self)@.interactive.skip(1));
            assert(self@ =~= old(self)@.stepped(step));
            return step;
        }
        if index != 0 {
            if let Some(job) = self.proactive.pop_front() {
                self.active_proactive = self.active_proactive + 1;
                let step = WorkerStep::Run { job, priority: RetirementPriority::Proactive };
                assert(self.proactive@ =~= old(self)@.proactive.skip(1));
                assert(self@ =~= old(self)@.stepped(step));
                return step;
            }
        }
        if self.closed {
            self.workers_live = self.workers_live - 1;
            assert(self@ =~= old(self)@.stepped(WorkerStep::Exit));
            return WorkerStep::Exit;
        }
        WorkerStep::Wait
    }

    /// Account for the end of a job that a worker took from `priority`'s lane.
    pub fn finish_job(&mut self, priority: RetirementPriority)
        requires
            old(self)@.wf(),
        ensures
            final(self)@.wf(),
            final(self)@ == old(self)@.ended(priority),
    {
        match priority {
            RetirementPriority::Interactive => {
                self.active_interactive = self.active_interactive.saturating_sub(1);
            },
            RetirementPriority::Proactive => {
                self.active_proactive = self.active_proactive.saturating_sub(1);
            },
        }
        assert(self@ =~= old(self)@.ended(priority));
    }

    /// Refuse further submissions; queued work is still drained.
    pub fn close_admission(&mut self)
        requires
            old(self)@.wf(),
        ensures
            final(self)@.wf(),
            final(self)@ == (PhysicalView { closed: true, ..old(self)@ }),
    {
        self.closed = true;
        assert(self@ =~= (PhysicalView { closed: true, ..old(self)@ }));
    }

    /// Refuse further submissions and hand back every job that no worker took,
    /// interactive ones first.
    pub fn cancel_queued(&mut self) -> (r: Vec<PhysicalJob>)
        requires
            old(self)@.wf(),
        ensures
            final(self)@.wf(),
            final(self)@ == (PhysicalView {
                closed: true,
                interactive: Seq::empty(),
                proactive: Seq::empty(),
                ..old(self)@
            }),
            r@ == old(self)@.interactive + old(self)@.proactive,
    {
        self.closed = true;
        let mut cancelled: Vec<PhysicalJob> = Vec::new();
        while self.interactive.len() > 0
            invariant
                self@.wf(),
                self@ == (PhysicalView {
                    closed: true,
                    interactive: self.interactive@,
                    ..old(self)@
                }),
                cancelled@ + self.interactive@ =~= old(self)@.interactive,
            decreases self.interactive@.len(),
        {
            if let Some(job) = self.interactive.pop_front() {
                cancelled.push(job);
            }
            assert(self@ =~= (PhysicalView {
                closed: true,
                interactive: self.interactive@,
                ..old(self)@
            }));
        }
        while self.proactive.len() > 0
            invariant
                self@.wf(),
                self.interactive@.len() == 0,
                self@ == (PhysicalView {
                    closed: true,
                    interactive: self.interactive@,
                    proactive: self.proactive@,
                    ..old(self)@
                }),
                cancelled@ + self.proactive@ =~= old(self)@.interactive + old(self)@.proactive,
            decreases self.proactive@.len(),
        {
            if let Some(job) = self.proactive.pop_front() {
                cancelled.push(job);
            }
            assert(self@ =~= (PhysicalView {
                closed: true,
                interactive: self.interactive@,
                proactive: self.proactive@,
                ..old(self)@
            }));
        }
        assert(self@ =~= (PhysicalView {
            closed: true,
            interactive: Seq::empty(),
            proactive: Seq::empty(),
            ..old(self)@
        }));
        cancelled
    }

    /// Lane lengths, active jobs and live workers.
    pub fn snapshot(&self) -> (r: PhysicalSnapshot)
        ensures
            r.interactive_queued == self@.interactive.len(),
            r.proactive_queued == self@.proactive.len(),
            r.interactive_active == self@.active_interactive,
            r.proactive_active == self@.active_proactive,
            r.workers_live == self@.workers_live,
            r.workers_total == self@.workers_total,
            r.closed == self@.closed,
    {
        PhysicalSnapshot {
            interactive_queued: self.interactive.len(),
            proactive_queued: self.proactive.len(),
            interactive_active: self.active_interactive,
            proactive_active: self.active_proactive,
            workers_live: self.workers_live,
            workers_total: self.workers_total,
            closed: self.closed,
        }
    }

    pub fn worker_count(&self) -> (r: usize)
        ensures
            r == self@.workers_live,
    {
        self.workers_live
    }
}

/// Worker zero runs interactive jobs only, so proactive work can never occupy
/// the last worker.
pub proof fn law_worker_zero_is_reserved(lanes: PhysicalView)
    ensures
        lanes.next_step(0) matches WorkerStep::Run { job, priority }
            ==> priority == RetirementPriority::Interactive,
{
}

/// Proactive work starts only while no interactive job waits.
pub proof fn law_interactive_work_goes_first(lanes: PhysicalView, index: usize)
    requires
        lanes.interactive.len() > 0,
    ensures
        lanes.next_step(index) == (WorkerStep::Run {
            job: lanes.interactive[0],
            priority: RetirementPriority::Interactive,
        }),
{
}

/// A closed executor still drains: a worker other than zero leaves only when
/// both lanes are empty.
pub proof fn law_closed_executor_drains(lanes: PhysicalView, index: usize)
    requires
        index != 0,
        lanes.next_step(index) == WorkerStep::Exit,
    ensures
        lanes.closed,
        lanes.interactive.len() == 0,
        lanes.proactive.len() == 0,
{
}

/// A job leaves its lane in the order in which it was submitted: one that is
/// queued behind `waiting` others is next after that many were taken.
pub proof fn law_lanes_are_first_in_first_out(
    lanes: PhysicalView,
    priority: RetirementPriority,
    job: PhysicalJob,
)
    ensures
        lanes.queued(priority, job).lane(priority).skip(lanes.lane(priority).len() as int)
            == seq![job],
        lanes.queued(priority, job).lane(priority).take(lanes.lane(priority).len() as int)
            == lanes.lane(priority),
{
    let after = lanes.queued(priority, job).lane(priority);
    assert(after.skip(lanes.lane(priority).len() as int) =~= seq![job]);
    assert(after.take(lanes.lane(priority).len() as int) =~= lanes.lane(priority));
}

} // verus!
