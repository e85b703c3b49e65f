//! Bounded admission and scheduling of stream retirement.
//!
//! The executor decides; its caller performs. Every method takes the clock
//! readings it needs and returns the completions to publish and the attempts to
//! hand to the workers.

use crate::clock::{Moment, Span, WallTime};
use crate::retirement::foundation::{
    retry_backoff, FirstAttemptCompletion, LogicalCompletion, RetirementAdmission,
    RetirementConfig, RetirementPriority, RetirementReservation, RetirementState,
    RetirementTicket, TerminalCleanupCompletion, TicketCompletion, MAX_CLEANUP_ATTEMPTS,
};
use crate::retirement::index::{
    has_key, key_after, key_before, keys_distinct, lemma_position, links_follow, position_of,
    value_of, InsertionIndex,
};
use crate::retirement::model::{
    attempt_completions, cancelled_ticket, cleanup_telemetry_of, count_records, failed_ticket,
    is_unattempted, lemma_count_empty, lemma_count_remove, lemma_failed_bound,
    lemma_failed_removed, retries_ordered, retry_before, retry_slot, with_retry, Admission,
    AttemptEffectsView, CoordinatorView, DispatchView, ExpiryCleanupDisposition,
    ExpiryCleanupTelemetry, ExpiryFence, Job, JobRecord, RetirementAdmissionResult,
    RetirementCounters, ScheduledRetry, StartedAttempt, WorkerEvent,
};
use crate::retirement::physical::{
    PhysicalAttemptResult, PhysicalExecutor, PhysicalJob, PhysicalSubmitError, PhysicalView,
};
use crate::store::cleanup::{LocalCleanupDisposition, LocalCleanupMode};
use crate::store::identity::StreamIdentity;
use std::collections::{HashMap, VecDeque};
use vstd::prelude::*;

verus! {

broadcast use vstd::std_specs::hash::group_hash_axioms;

/// Jobs, queues, retries, fences and reservations.
pub struct CoordinatorState {
    jobs: HashMap<u64, JobRecord>,
    interactive_pending: VecDeque<Job>,
    proactive_pending: VecDeque<Job>,
    retries: Vec<ScheduledRetry>,
    admitted: InsertionIndex<Admission>,
    expiry_fences: InsertionIndex<ExpiryFence>,
    retirement: HashMap<u64, RetirementState>,
    counters: RetirementCounters,
}

impl View for CoordinatorState {
    type V = CoordinatorView;

    closed spec fn view(&self) -> CoordinatorView {
        CoordinatorView {
            jobs: self.jobs@,
            interactive: self.interactive_pending@,
            proactive: self.proactive_pending@,
            retries: self.retries@,
            admitted: self.admitted@,
            fences: self.expiry_fences@,
            retirement: self.retirement@,
            counters: self.counters,
        }
    }
}

/// What follows from a worker's report besides the state change.
pub struct AttemptEffects {
    pub completions: Vec<TicketCompletion>,
    pub cleanup_telemetry: Option<ExpiryCleanupTelemetry>,
    pub expiry_retry: bool,
    pub expiry_failed: bool,
}

impl View for AttemptEffects {
    type V = AttemptEffectsView;

    open spec fn view(&self) -> AttemptEffectsView {
        AttemptEffectsView {
            completions: self.completions@,
            cleanup_telemetry: self.cleanup_telemetry,
            expiry_retry: self.expiry_retry,
            expiry_failed: self.expiry_failed,
        }
    }
}

/// What a dispatch round started and published.
pub struct DispatchReport {
    pub started: Vec<StartedAttempt>,
    pub completions: Vec<TicketCompletion>,
}

/// Bounded scalars of the expiry side, for gauges.
#[derive(Clone, Copy, Debug, PartialEq, Eq, Structural)]
pub struct ExpiryRetirementTelemetry {
    pub queue_depth: u64,
    pub cleanup_failed: u64,
    pub oldest_fence_age: Option<Span>,
}

/// Bounded health projection of the executor. It holds no stream identity.
#[derive(Clone, Copy, Debug, PartialEq, Eq, Structural)]
pub struct RetirementSnapshot {
    pub queue_capacity: usize,
    pub total_jobs: usize,
    pub interactive_pending: usize,
    pub proactive_pending: usize,
    pub active_interactive: usize,
    pub active_proactive: usize,
    pub coordinator_capacity: usize,
    pub proactive_coordinator_capacity: usize,
    pub interactive_physical_capacity: usize,
    pub proactive_physical_capacity: usize,
    pub physical_interactive_queued: usize,
    pub physical_proactive_queued: usize,
    pub physical_interactive_active: usize,
    pub physical_proactive_active: usize,
    pub cleanup_workers_total: usize,
    pub cleanup_workers_live: usize,
    pub retry_heap_count: usize,
    pub cumulative_retry_attempts: u64,
    pub terminal_cleanup_failed_current: u64,
    pub terminal_successes: u64,
    pub terminal_failures: u64,
    pub terminal_cancellations: u64,
    pub first_attempt_successes: u64,
    pub first_attempt_failures: u64,
    pub first_attempt_cancellations: u64,
    pub reclaimed_local_bytes: u64,
    pub latest_cleanup_wall_time: Option<WallTime>,
    pub last_successful_cleanup_wall_time: Option<WallTime>,
    pub latest_cleanup_duration: Option<Span>,
    pub last_successful_cleanup_duration: Option<Span>,
    pub oldest_admitted_age: Option<Span>,
    pub closed: bool,
}

/// The counters of a coordinator that has done nothing yet.
pub open spec fn zero_counters() -> RetirementCounters {
    RetirementCounters {
        active_interactive: 0,
        active_proactive: 0,
        next_retry_sequence: 0,
        next_admission_sequence: 0,
        expiry_jobs: 0,
        expiry_terminal_cleanup_failed_current: 0,
        cumulative_retry_attempts: 0,
        terminal_cleanup_failed_current: 0,
        terminal_successes: 0,
        terminal_failures: 0,
        terminal_cancellations: 0,
        first_attempt_successes: 0,
        first_attempt_failures: 0,
        first_attempt_cancellations: 0,
        reclaimed_local_bytes: 0,
        latest_cleanup_wall_time: None,
        last_successful_cleanup_wall_time: None,
        latest_cleanup_duration: None,
        last_successful_cleanup_duration: None,
        closed: false,
    }
}

/// The coordinator before the first admission.
pub open spec fn initial_state() -> CoordinatorView {
    CoordinatorView {
        jobs: Map::empty(),
        interactive: Seq::empty(),
        proactive: Seq::empty(),
        retries: Seq::empty(),
        admitted: Seq::empty(),
        fences: Seq::empty(),
        retirement: Map::empty(),
        counters: zero_counters(),
    }
}

/// How old a reading is at `now`.
pub open spec fn age_at(now: Moment, then_at: Moment) -> Span {
    Span {
        nanos: if now.nanos >= then_at.nanos {
            (now.nanos - then_at.nanos) as u128
        } else {
            0
        },
    }
}

/// The metric event of one attempt. Explicit deletions and cascade collections
/// share the executor but are no expiry telemetry.
pub fn expiry_cleanup_telemetry(
    mode: LocalCleanupMode,
    result: PhysicalAttemptResult,
    duration: Span,
) -> (r: Option<ExpiryCleanupTelemetry>)
    ensures
        r == cleanup_telemetry_of(mode, result, duration),
{
    if mode != LocalCleanupMode::Expiry {
        return None;
    }
    let disposition = match result {
        PhysicalAttemptResult::Succeeded { reclaimed_local_bytes, disposition } => match disposition {
            LocalCleanupDisposition::HardReaped => Some(
                ExpiryCleanupDisposition::Reaped(reclaimed_local_bytes),
            ),
            LocalCleanupDisposition::DurableSoftDeleted => Some(
                ExpiryCleanupDisposition::SoftDeleted,
            ),
        },
        PhysicalAttemptResult::Failed => None,
        PhysicalAttemptResult::Panicked => None,
        PhysicalAttemptResult::Cancelled => None,
    };
    Some(ExpiryCleanupTelemetry { duration, disposition })
}

fn runs_before(a: &ScheduledRetry, b: &ScheduledRetry) -> (r: bool)
    ensures
        r == retry_before(*a, *b),
{
    if a.due.nanos != b.due.nanos {
        a.due.nanos < b.due.nanos
    } else if a.sequence != b.sequence {
        a.sequence < b.sequence
    } else {
        a.id < b.id
    }
}

impl CoordinatorState {
    /// The two chained indexes are intact.
    pub closed spec fn linked(&self) -> bool {
        self.admitted.wf() && self.expiry_fences.wf()
    }

    /// The number of the stream that was fenced first.
    pub closed spec fn oldest_expiry_fence(&self) -> Option<u64> {
        self.expiry_fences.first_key()
    }

    /// The number of the stream that was fenced last.
    pub closed spec fn newest_expiry_fence(&self) -> Option<u64> {
        self.expiry_fences.last_key()
    }

    /// The number of the stream that was fenced after the one numbered `id`.
    pub closed spec fn next_expiry_fence(&self, id: u64) -> Option<u64> {
        self.expiry_fences.next_of(id)
    }

    /// The number of the stream that was fenced before the one numbered `id`.
    pub closed spec fn previous_expiry_fence(&self, id: u64) -> Option<u64> {
        self.expiry_fences.previous_of(id)
    }

    /// The chain of fences runs through each fenced stream once, in the order of
    /// marking, and backwards; its ends are the first and the last of them.
    pub open spec fn fences_chained(&self) -> bool {
        &&& keys_distinct(self@.fences)
        &&& links_follow(
            self@.fences,
            self.oldest_expiry_fence(),
            self.newest_expiry_fence(),
            |id: u64| self.next_expiry_fence(id),
            |id: u64| self.previous_expiry_fence(id),
        )
    }

    /// Intact indexes keep the fences chained.
    pub proof fn law_fence_chain_is_intact(&self)
        requires
            self.linked(),
        ensures
            self.fences_chained(),
    {
        let fences = self@.fences;
        self.expiry_fences.law_links_follow_the_order();
        assert forall|i: int| 0 <= i < fences.len() implies {
            &&& self.next_expiry_fence((#[trigger] fences[i]).0) == key_after(fences, i)
            &&& self.previous_expiry_fence(fences[i].0) == key_before(fences, i)
        } by {}
    }

    /// Nothing admitted, nothing fenced.
    pub fn new() -> (r: Self)
        ensures
            r.linked(),
            r@ == initial_state(),
            r.fences_chained(),
    {
        let state = CoordinatorState {
            jobs: HashMap::new(),
            interactive_pending: VecDeque::new(),
            proactive_pending: VecDeque::new(),
            retries: Vec::new(),
            admitted: InsertionIndex::new(),
            expiry_fences: InsertionIndex::new(),
            retirement: HashMap::new(),
            counters: RetirementCounters {
                active_interactive: 0,
                active_proactive: 0,
                next_retry_sequence: 0,
                next_admission_sequence: 0,
                expiry_jobs: 0,
                expiry_terminal_cleanup_failed_current: 0,
                cumulative_retry_attempts: 0,
                terminal_cleanup_failed_current: 0,
                terminal_successes: 0,
                terminal_failures: 0,
                terminal_cancellations: 0,
                first_attempt_successes: 0,
                first_attempt_failures: 0,
                first_attempt_cancellations: 0,
                reclaimed_local_bytes: 0,
                latest_cleanup_wall_time: None,
                last_successful_cleanup_wall_time: None,
                latest_cleanup_duration: None,
                last_successful_cleanup_duration: None,
                closed: false,
            },
        };
        assert(state@ =~= initial_state());
        proof {
            state.law_fence_chain_is_intact();
        }
        state
    }

    fn retirement_state(&self, instance: u64) -> (r: RetirementState)
        ensures
            r == self@.retirement_of(instance),
    {
        match self.retirement.get(&instance) {
            Some(state) => *state,
            None => RetirementState::default(),
        }
    }

    fn set_retirement(&mut self, instance: u64, state: RetirementState)
        requires
            old(self).linked(),
        ensures
            final(self).linked(),
            final(self)@ == old(self)@.with_retirement(instance, state),
    {
        self.retirement.insert(instance, state);
        assert(self@ =~= old(self)@.with_retirement(instance, state));
    }

    fn set_record(&mut self, id: u64, record: JobRecord)
        requires
            old(self).linked(),
        ensures
            final(self).linked(),
            final(self)@ == old(self)@.with_record(id, record),
    {
        self.jobs.insert(id, record);
        assert(self@ =~= old(self)@.with_record(id, record));
    }

    fn set_counters(&mut self, counters: RetirementCounters)
        requires
            old(self).linked(),
        ensures
            final(self).linked(),
            final(self)@ == (CoordinatorView { counters, ..old(self)@ }),
    {
        self.counters = counters;
        assert(self@ =~= (CoordinatorView { counters, ..old(self)@ }));
    }

    fn remove_job(&mut self, id: u64) -> (r: Option<JobRecord>)
        requires
            old(self).linked(),
        ensures
            final(self).linked(),
            final(self)@ == old(self)@.without_job(id),
            r == (if old(self)@.jobs.contains_key(id) {
                Some(old(self)@.jobs[id])
            } else {
                None
            }),
    {
        let record = match self.jobs.remove(&id) {
            Some(record) => record,
            None => {
                assert(self@ =~= old(self)@.without_job(id));
                return None;
            },
        };
        if record.job.mode == LocalCleanupMode::Expiry {
            self.counters.expiry_jobs = self.counters.expiry_jobs.saturating_sub(1);
        }
        self.admitted.remove(record.job.ticket.id);
        assert(self@ =~= old(self)@.without_job(id));
        Some(record)
    }

    /// Put a fence for exactly this stream instance at the end of the chain, unless
    /// it is there. A fence of another instance under the same number gives way.
    pub fn mark_expiry_fence(&mut self, stream: StreamIdentity, now: Moment) -> (inserted: bool)
        requires
            old(self).linked(),
        ensures
            final(self).linked(),
            final(self).fences_chained(),
            final(self)@ == old(self)@.with_fence(stream, now),
            inserted == !old(self)@.fence_matches(stream),
            inserted ==> final(self)@.fences.len() <= u64::MAX,
    {
        proof {
            self.law_fence_chain_is_intact();
        }
        if let Some(fence) = self.expiry_fences.get(stream.id) {
            if fence.stream == stream {
                assert(self@ =~= old(self)@.with_fence(stream, now));
                return false;
            }
        }
        self.remove_expiry_fence_by_id(stream.id);
        proof {
            crate::retirement::index::lemma_without_key(old(self)@.fences, stream.id);
        }
        let fence = ExpiryFence { stream, fenced_at: now, terminal_failure: false };
        self.expiry_fences.push_back(stream.id, fence);
        assert(self@ =~= old(self)@.with_fence(stream, now));
        proof {
            self.law_fence_chain_is_intact();
        }
        true
    }

    /// Take the fence of exactly this stream instance out of the chain: the others
    /// keep their order and are chained again, and a failed one counts no more. A
    /// fence of another instance under the same number stays.
    pub fn remove_expiry_fence(&mut self, stream: StreamIdentity) -> (removed: bool)
        requires
            old(self).linked(),
        ensures
            final(self).linked(),
            final(self).fences_chained(),
            final(self)@ == old(self)@.without_fence(stream),
            removed == old(self)@.fence_matches(stream),
            final(self)@.fences == (if removed {
                old(self)@.fences.remove(position_of(old(self)@.fences, stream.id))
            } else {
                old(self)@.fences
            }),
            old(self)@.failures_counted() ==> final(self)@.failures_counted(),
            old(self)@.failures_counted() && removed && value_of(
                old(self)@.fences,
                stream.id,
            ).terminal_failure
                ==> final(self)@.counters.expiry_terminal_cleanup_failed_current == old(
                self,
            )@.counters.expiry_terminal_cleanup_failed_current - 1,
    {
        proof {
            self.law_fence_chain_is_intact();
            lemma_failed_bound(self@.fences);
            if has_key(self@.fences, stream.id) {
                lemma_failed_removed(self@.fences, position_of(self@.fences, stream.id));
            }
        }
        if let Some(fence) = self.expiry_fences.get(stream.id) {
            if fence.stream == stream {
                self.remove_expiry_fence_by_id(stream.id);
                proof {
                    self.law_fence_chain_is_intact();
                }
                return true;
            }
        }
        false
    }

    fn remove_expiry_fence_by_id(&mut self, id: u64)
        requires
            old(self).linked(),
        ensures
            final(self).linked(),
            final(self)@ == old(self)@.without_fence_id(id),
    {
        let fence = match self.expiry_fences.remove(id) {
            Some(fence) => fence,
            None => {
                assert(self@ =~= old(self)@.without_fence_id(id));
                return;
            },
        };
        if fence.terminal_failure {
            self.counters.expiry_terminal_cleanup_failed_current =
            self.counters.expiry_terminal_cleanup_failed_current.saturating_sub(1);
        }
        assert(self@ =~= old(self)@.without_fence_id(id));
    }

    fn clear_expiry_fence_failure(&mut self, stream: StreamIdentity)
        requires
            old(self).linked(),
        ensures
            final(self).linked(),
            final(self)@ == old(self)@.with_fence_failure_cleared(stream),
    {
        if let Some(fence) = self.expiry_fences.get(stream.id) {
            if fence.stream == stream && fence.terminal_failure {
                let cleared = ExpiryFence {
                    stream: fence.stream,
                    fenced_at: fence.fenced_at,
                    terminal_failure: false,
                };
                self.expiry_fences.set(stream.id, cleared);
                self.counters.expiry_terminal_cleanup_failed_current =
                self.counters.expiry_terminal_cleanup_failed_current.saturating_sub(1);
            }
        }
        assert(self@ =~= old(self)@.with_fence_failure_cleared(stream));
    }

    fn mark_expiry_fence_failure(&mut self, mode: LocalCleanupMode, stream: StreamIdentity)
        requires
            old(self).linked(),
        ensures
            final(self).linked(),
            final(self)@ == old(self)@.with_fence_failure(mode, stream),
    {
        if mode != LocalCleanupMode::Expiry {
            return;
        }
        if let Some(fence) = self.expiry_fences.get(stream.id) {
            if fence.stream == stream && !fence.terminal_failure {
                let failed = ExpiryFence {
                    stream: fence.stream,
                    fenced_at: fence.fenced_at,
                    terminal_failure: true,
                };
                self.expiry_fences.set(stream.id, failed);
                self.counters.expiry_terminal_cleanup_failed_current =
                self.counters.expiry_terminal_cleanup_failed_current.saturating_add(1);
            }
        }
        assert(self@ =~= old(self)@.with_fence_failure(mode, stream));
    }

    fn push_back(&mut self, job: Job)
        requires
            old(self).linked(),
        ensures
            final(self).linked(),
            final(self)@ == old(self)@.queued_back(job),
    {
        match job.priority {
            RetirementPriority::Interactive => self.interactive_pending.push_back(job),
            RetirementPriority::Proactive => self.proactive_pending.push_back(job),
        }
        assert(self@ =~= old(self)@.queued_back(job));
    }

    fn push_front(&mut self, job: Job)
        requires
            old(self).linked(),
        ensures
            final(self).linked(),
            final(self)@ == old(self)@.queued_front(job),
    {
        match job.priority {
            RetirementPriority::Interactive => self.interactive_pending.push_front(job),
            RetirementPriority::Proactive => self.proactive_pending.push_front(job),
        }
        assert(self@ =~= old(self)@.queued_front(job));
    }

    fn schedule_retry(&mut self, retry: ScheduledRetry)
        requires
            old(self).linked(),
            retries_ordered(old(self)@.retries),
        ensures
            final(self).linked(),
            final(self)@ == (CoordinatorView {
                retries: with_retry(old(self)@.retries, retry),
                ..old(self)@
            }),
    {
        let mut slot: usize = self.retries.len();
        proof {
            assert(self.retries@.take(slot as int) =~= self.retries@);
        }
        while slot > 0 && runs_before(&retry, &self.retries[slot - 1])
            invariant
                slot <= self.retries@.len(),
                retry_slot(self.retries@, retry) == retry_slot(
                    self.retries@.take(slot as int),
                    retry,
                ),
            decreases slot,
        {
            let ghost longer = self.retries@.take(slot as int);
            slot = slot - 1;
            assert(longer.drop_last() =~= self.retries@.take(slot as int));
        }
        proof {
            let rest = self.retries@.take(slot as int);
            assert(retry_slot(rest, retry) == slot) by {
                if slot > 0 {
                    assert(rest.last() == self.retries@[slot - 1]);
                }
            }
        }
        self.retries.insert(slot, retry);
        assert(self@ =~= (CoordinatorView {
            retries: with_retry(old(self)@.retries, retry),
            ..old(self)@
        }));
    }

    fn settle_without_attempt(&mut self, job: Job) -> (completions: Vec<TicketCompletion>)
        requires
            old(self).linked(),
        ensures
            final(self).linked(),
            final(self)@ == old(self)@.settled_without_attempt(job),
            completions@ == failed_ticket(job.ticket),
    {
        let mut reservation = self.retirement_state(job.stream.instance);
        reservation.finish(&job.ticket);
        self.remove_job(job.stream.id);
        self.set_retirement(job.stream.instance, reservation);
        self.counters.terminal_failures = self.counters.terminal_failures.saturating_add(1);
        self.counters.first_attempt_failures =
        self.counters.first_attempt_failures.saturating_add(1);
        let mut completions: Vec<TicketCompletion> = Vec::new();
        completions.push(
            TicketCompletion::FirstAttempt {
                ticket: job.ticket,
                result: FirstAttemptCompletion::Failed,
            },
        );
        completions.push(
            TicketCompletion::Terminal {
                ticket: job.ticket,
                result: TerminalCleanupCompletion::Failed,
            },
        );
        assert(self@ =~= old(self)@.settled_without_attempt(job));
        assert(completions@ =~= failed_ticket(job.ticket));
        completions
    }
}

/// Admission, scheduling and one physical attempt at a time for each stream.
pub struct RetirementExecutor {
    config: RetirementConfig,
    coordinator: CoordinatorState,
    physical: PhysicalExecutor,
}

impl RetirementExecutor {
    pub closed spec fn config(&self) -> RetirementConfig {
        self.config
    }

    pub closed spec fn state(&self) -> CoordinatorView {
        self.coordinator@
    }

    pub closed spec fn lanes(&self) -> PhysicalView {
        self.physical@
    }

    pub closed spec fn linked(&self) -> bool {
        self.coordinator.linked()
    }

    /// The number of the stream that was fenced first.
    pub closed spec fn oldest_expiry_fence(&self) -> Option<u64> {
        self.coordinator.oldest_expiry_fence()
    }

    /// The number of the stream that was fenced last.
    pub closed spec fn newest_expiry_fence(&self) -> Option<u64> {
        self.coordinator.newest_expiry_fence()
    }

    /// The number of the stream that was fenced after the one numbered `id`.
    pub closed spec fn next_expiry_fence(&self, id: u64) -> Option<u64> {
        self.coordinator.next_expiry_fence(id)
    }

    /// The number of the stream that was fenced before the one numbered `id`.
    pub closed spec fn previous_expiry_fence(&self, id: u64) -> Option<u64> {
        self.coordinator.previous_expiry_fence(id)
    }

    /// In every state the chain of fences runs through each fenced stream once,
    /// in the order of marking, and backwards; its ends are the first and the
    /// last of them.
    pub proof fn law_fence_chain_is_intact(&self)
        requires
            self.wf(),
        ensures
            keys_distinct(self.state().fences),
            links_follow(
                self.state().fences,
                self.oldest_expiry_fence(),
                self.newest_expiry_fence(),
                |id: u64| self.next_expiry_fence(id),
                |id: u64| self.previous_expiry_fence(id),
            ),
    {
        self.coordinator.law_fence_chain_is_intact();
        let fences = self.state().fences;
        assert forall|i: int| 0 <= i < fences.len() implies {
            &&& self.next_expiry_fence((#[trigger] fences[i]).0) == key_after(fences, i)
            &&& self.previous_expiry_fence(fences[i].0) == key_before(fences, i)
        } by {}
    }

    /// What the constructor establishes and every method keeps.
    pub open spec fn wf(&self) -> bool {
        &&& self.config().valid()
        &&& self.state().wf(self.config())
        &&& self.lanes().wf()
        &&& self.linked()
    }

    /// An executor that has admitted nothing.
    pub fn new(config: RetirementConfig) -> (r: Result<Self, &'static str>)
        ensures
            match r {
                Ok(executor) => {
                    &&& PhysicalExecutor::refused(config) is None
                    &&& executor.wf()
                    &&& executor.config() == config
                    &&& executor.state() == initial_state()
                    &&& executor.lanes() == PhysicalExecutor::initial(config)
                },
                Err(message) => PhysicalExecutor::refused(config) == Some(message@),
            },
    {
        if let Err(message) = config.validate() {
            return Err(message);
        }
        match PhysicalExecutor::new(&config) {
            Ok(physical) => {
                proof {
                    lemma_count_empty(crate::retirement::model::is_expiry());
                    lemma_count_empty(
                        crate::retirement::model::is_active(RetirementPriority::Interactive),
                    );
                    lemma_count_empty(
                        crate::retirement::model::is_active(RetirementPriority::Proactive),
                    );
                }
                Ok(RetirementExecutor { config, coordinator: CoordinatorState::new(), physical })
            },
            Err(message) => Err(message),
        }
    }

    /// Take in one exact stream instance. A full queue is refused at once; a
    /// duplicate shares the ticket of the admission in progress.
    pub fn admit_stream(
        &mut self,
        stream: StreamIdentity,
        priority: RetirementPriority,
        mode: LocalCleanupMode,
        now: Moment,
    ) -> (r: RetirementAdmissionResult)
        requires
            old(self).wf(),
            old(self).state().counters.next_admission_sequence < u64::MAX,
        ensures
            final(self).wf(),
            final(self).config() == old(self).config(),
            final(self).lanes() == old(self).lanes(),
            (final(self).state(), r) == old(self).state().admission(
                old(self).config(),
                stream,
                priority,
                mode,
                now,
            ),
    {
        proof {
            self.state().lemma_admission_wf(self.config(), stream, priority, mode, now);
        }
        let ghost before = self.state();
        if self.coordinator.counters.closed {
            return RetirementAdmissionResult::Rejected(RetirementAdmission::ShuttingDown);
        }
        let fresh = RetirementTicket { id: self.coordinator.counters.next_admission_sequence + 1 };
        let mut reservation = self.coordinator.retirement_state(stream.instance);
        let had_terminal_failure = reservation.has_terminal_failure();
        let ticket = match reservation.reserve(now, fresh) {
            RetirementReservation::Existing(ticket) => {
                self.coordinator.set_retirement(stream.instance, reservation);
                return RetirementAdmissionResult::Existing(ticket);
            },
            RetirementReservation::CoolingDown => {
                return RetirementAdmissionResult::Rejected(RetirementAdmission::CoolingDown);
            },
            RetirementReservation::New(ticket) => ticket,
        };
        if had_terminal_failure {
            let mut counters = self.coordinator.counters;
            counters.terminal_cleanup_failed_current =
            counters.terminal_cleanup_failed_current.saturating_sub(1);
            self.coordinator.set_counters(counters);
            self.coordinator.clear_expiry_fence_failure(stream);
        }
        if self.coordinator.jobs.contains_key(&stream.id) {
            // The retained job keeps its place even when another instance
            // carries the same number.
            reservation.finish(&ticket);
            self.coordinator.set_retirement(stream.instance, reservation);
            return RetirementAdmissionResult::Rejected(RetirementAdmission::IdentityConflict);
        }
        if self.coordinator.jobs.len() >= self.config.queue_capacity {
            reservation.finish(&ticket);
            self.coordinator.set_retirement(stream.instance, reservation);
            return RetirementAdmissionResult::Rejected(RetirementAdmission::QueueFull);
        }
        self.coordinator.set_retirement(stream.instance, reservation);
        proof {
            let now_state = self.coordinator@;
            assert(now_state.admitted == before.admitted);
            assert(!has_key(before.admitted, ticket.id)) by {
                if has_key(before.admitted, ticket.id) {
                    assert(before.admission_ok(ticket.id));
                    assert(before.record_ok(value_of(before.admitted, ticket.id).id));
                }
            }
        }
        let ghost ready = self.coordinator@;
        self.coordinator.admitted.push_back(
            ticket.id,
            Admission { id: stream.id, admitted_at: now },
        );
        self.coordinator.jobs.insert(
            stream.id,
            JobRecord {
                job: Job { stream, ticket, priority, mode },
                logical_released: false,
                active_attempt: None,
                retry_scheduled: false,
                first_attempt_completed: false,
            },
        );
        self.coordinator.counters.next_admission_sequence = ticket.id;
        if mode == LocalCleanupMode::Expiry {
            self.coordinator.counters.expiry_jobs =
            self.coordinator.counters.expiry_jobs.saturating_add(1);
        }
        assert(self.coordinator@ =~= ready.with_job(stream, priority, mode, now));
        RetirementAdmissionResult::Admitted(ticket)
    }

    fn is_prelogical(&self, stream: StreamIdentity, ticket: RetirementTicket) -> (r: Option<
        JobRecord,
    >)
        ensures
            r == (if self.state().prelogical(stream, ticket) {
                Some(self.state().jobs[stream.id])
            } else {
                None
            }),
    {
        match self.coordinator.jobs.get(&stream.id) {
            Some(record) => {
                if record.logical_released || record.job.stream != stream || record.job.ticket
                    != ticket {
                    None
                } else {
                    Some(*record)
                }
            },
            None => None,
        }
    }

    /// Expose one exact admission to physical scheduling, once the stream is
    /// fenced and its path may be reused. The completion to publish comes back.
    pub fn release_logical(&mut self, stream: StreamIdentity, ticket: RetirementTicket) -> (r:
        Option<TicketCompletion>)
        requires
            old(self).wf(),
        ensures
            final(self).wf(),
            final(self).config() == old(self).config(),
            final(self).lanes() == old(self).lanes(),
            if old(self).state().prelogical(stream, ticket) {
                &&& r == Some(
                    TicketCompletion::Logical { ticket, result: LogicalCompletion::Completed },
                )
                &&& final(self).state() == old(self).state().released(stream)
            } else {
                &&& r is None
                &&& final(self).state() == old(self).state()
            },
    {
        let record = match self.is_prelogical(stream, ticket) {
            Some(record) => record,
            None => {
                return None;
            },
        };
        proof {
            self.state().lemma_released_wf(self.config(), stream, ticket);
        }
        let mut released = record;
        released.logical_released = true;
        self.coordinator.set_record(stream.id, released);
        self.coordinator.push_back(record.job);
        Some(TicketCompletion::Logical { ticket, result: LogicalCompletion::Completed })
    }

    /// Roll one exact admission back before its logical release.
    pub fn cancel_prelogical(&mut self, stream: StreamIdentity, ticket: RetirementTicket) -> (r:
        Option<Vec<TicketCompletion>>)
        requires
            old(self).wf(),
        ensures
            final(self).wf(),
            final(self).config() == old(self).config(),
            final(self).lanes() == old(self).lanes(),
            if old(self).state().prelogical(stream, ticket) {
                &&& r matches Some(completions) && completions@ == cancelled_ticket(ticket)
                &&& final(self).state() == old(self).state().prelogical_cancelled(stream, ticket)
            } else {
                &&& r is None
                &&& final(self).state() == old(self).state()
            },
    {
        if self.is_prelogical(stream, ticket).is_none() {
            return None;
        }
        proof {
            self.state().lemma_prelogical_cancelled_wf(self.config(), stream, ticket);
        }
        let mut reservation = self.coordinator.retirement_state(stream.instance);
        reservation.finish(&ticket);
        self.coordinator.remove_job(stream.id);
        self.coordinator.set_retirement(stream.instance, reservation);
        let mut counters = self.coordinator.counters;
        counters.terminal_cancellations = counters.terminal_cancellations.saturating_add(1);
        counters.first_attempt_cancellations =
        counters.first_attempt_cancellations.saturating_add(1);
        self.coordinator.set_counters(counters);
        let mut completions: Vec<TicketCompletion> = Vec::new();
        push_cancelled(&mut completions, ticket);
        assert(completions@ =~= cancelled_ticket(ticket));
        Some(completions)
    }

    /// Cancel every retained admission and refuse all further ones. A second
    /// call changes nothing.
    pub fn cancel_all(&mut self) -> (completions: Vec<TicketCompletion>)
        requires
            old(self).wf(),
        ensures
            final(self).wf(),
            final(self).config() == old(self).config(),
            final(self).lanes() == old(self).lanes(),
            final(self).state() == old(self).state().all_cancelled(),
            completions@ == (if old(self).state().counters.closed {
                Seq::empty()
            } else {
                CoordinatorView::cancel_completions(old(self).state().admitted)
            }),
    {
        let mut completions: Vec<TicketCompletion> = Vec::new();
        if self.coordinator.counters.closed {
            return completions;
        }
        proof {
            self.state().lemma_all_cancelled_wf(self.config());
        }
        let ghost start = self.state();
        let ghost mut remaining = start.jobs;
        let entries = self.coordinator.admitted.entries();
        let mut unattempted: u64 = 0;
        let mut i: usize = 0;
        proof {
            lemma_count_remove(start.jobs, 0, is_unattempted());
        }
        while i < entries.len()
            invariant
                i <= entries@.len(),
                entries@ == start.admitted,
                start == old(self).state(),
                start.wf(self.config()),
                self.config() == old(self).config(),
                self.lanes() == old(self).lanes(),
                self.linked(),
                self.coordinator@ == (CoordinatorView {
                    retirement: self.coordinator@.retirement,
                    ..start
                }),
                completions@ == CoordinatorView::cancel_completions(start.admitted.take(i as int)),
                forall|id: u64| #[trigger]
                    remaining.contains_key(id) <==> {
                        &&& start.jobs.contains_key(id)
                        &&& crate::retirement::index::position_of(
                            start.admitted,
                            start.jobs[id].job.ticket.id,
                        ) >= i
                    },
                forall|id: u64| #[trigger]
                    remaining.contains_key(id) ==> remaining[id] == start.jobs[id],
                remaining.dom().finite(),
                count_records(start.jobs, is_unattempted()) == unattempted + count_records(
                    remaining,
                    is_unattempted(),
                ),
                count_records(start.jobs, is_unattempted()) <= u64::MAX,
                self.coordinator@.retirement.dom() == start.retirement.dom(),
                forall|instance: u64| #[trigger]
                    start.retirement.contains_key(instance) ==> self.coordinator@.retirement[instance]
                        == (if start.retirement[instance].ticket is Some
                        && crate::retirement::index::position_of(
                        start.admitted,
                        start.retirement[instance].ticket->0.id,
                    ) < i {
                        RetirementState::clean()
                    } else {
                        start.retirement[instance]
                    }),
            decreases entries.len() - i,
        {
            let (ticket_id, admission) = entries[i];
            let ticket = RetirementTicket { id: ticket_id };
            proof {
                lemma_position(start.admitted, i as int);
                assert(has_key(start.admitted, ticket_id));
                assert(start.admission_ok(ticket_id));
                assert(start.record_ok(admission.id));
                assert(start.jobs[admission.id].job.ticket == ticket);
                lemma_count_remove(remaining, admission.id, is_unattempted());
            }
            let ghost earlier = self.coordinator@.retirement;
            if let Some(record) = self.coordinator.jobs.get(&admission.id) {
                let record = *record;
                if !record.first_attempt_completed {
                    unattempted = unattempted + 1;
                }
                let instance = record.job.stream.instance;
                let mut reservation = self.coordinator.retirement_state(instance);
                reservation.finish(&ticket);
                self.coordinator.set_retirement(instance, reservation);
            }
            push_cancelled(&mut completions, ticket);
            proof {
                let instance = start.jobs[admission.id].job.stream.instance;
                assert(start.retirement.contains_key(instance));
                assert(self.coordinator@.retirement.dom() =~= start.retirement.dom());
                assert forall|other: u64| #[trigger] start.retirement.contains_key(
                    other,
                ) implies self.coordinator@.retirement[other] == (if start.retirement[other].ticket is Some
                    && crate::retirement::index::position_of(
                    start.admitted,
                    start.retirement[other].ticket->0.id,
                ) < i + 1 {
                    RetirementState::clean()
                } else {
                    start.retirement[other]
                }) by {
                    assert(start.retirement_ok(other));
                    if other != instance && start.retirement[other].ticket is Some {
                        let t = start.retirement[other].ticket->0;
                        assert(has_key(start.admitted, t.id));
                        let q = crate::retirement::index::position_of(start.admitted, t.id);
                        if q == i {
                            assert(start.admitted[q].0 == t.id);
                            assert(t.id == ticket_id);
                        }
                    }
                }
                let reduced = remaining.remove(admission.id);
                assert forall|id: u64| #[trigger] reduced.contains_key(id) <==> {
                    &&& start.jobs.contains_key(id)
                    &&& crate::retirement::index::position_of(
                        start.admitted,
                        start.jobs[id].job.ticket.id,
                    ) >= i + 1
                } by {
                    if start.jobs.contains_key(id) && id != admission.id {
                        assert(start.record_ok(id));
                        let t = start.jobs[id].job.ticket.id;
                        let q = crate::retirement::index::position_of(start.admitted, t);
                        if q == i {
                            assert(start.admitted[q].0 == t);
                        }
                    }
                    assert(remaining.contains_key(id) || !remaining.contains_key(id));
                }
                remaining = reduced;
                let prefix = start.admitted.take(i as int + 1);
                assert(prefix.drop_last() =~= start.admitted.take(i as int));
                assert(prefix.last() == start.admitted[i as int]);
                assert(self.coordinator@ =~= (CoordinatorView {
                    retirement: self.coordinator@.retirement,
                    ..start
                }));
            }
            i = i + 1;
        }
        proof {
            assert(start.admitted.take(start.admitted.len() as int) =~= start.admitted);
            assert forall|id: u64| !#[trigger] remaining.contains_key(id) by {
                if start.jobs.contains_key(id) {
                    assert(start.record_ok(id));
                    let t = start.jobs[id].job.ticket.id;
                    let q = crate::retirement::index::position_of(start.admitted, t);
                    assert(0 <= q < start.admitted.len() && start.admitted[q].0 == t);
                }
            }
            assert(remaining =~= Map::empty());
            lemma_count_empty(is_unattempted());
            assert(self.coordinator@.retirement =~= start.retirement_after_cancel()) by {
                assert forall|instance: u64| start.retirement.contains_key(
                    instance,
                ) implies self.coordinator@.retirement[instance]
                    == start.retirement_after_cancel()[instance] by {
                    assert(start.retirement_ok(instance));
                    if start.retirement[instance].ticket is Some {
                        let t = start.retirement[instance].ticket->0.id;
                        let q = crate::retirement::index::position_of(start.admitted, t);
                        assert(0 <= q < start.admitted.len() && start.admitted[q].0 == t);
                    }
                }
            }
        }
        let total: u64 = self.coordinator.jobs.len() as u64;
        self.coordinator.jobs.clear();
        self.coordinator.interactive_pending.clear();
        self.coordinator.proactive_pending.clear();
        self.coordinator.retries.clear();
        self.coordinator.admitted.clear();
        self.coordinator.expiry_fences.clear();
        self.coordinator.counters.closed = true;
        self.coordinator.counters.active_interactive = 0;
        self.coordinator.counters.active_proactive = 0;
        self.coordinator.counters.expiry_jobs = 0;
        self.coordinator.counters.expiry_terminal_cleanup_failed_current = 0;
        self.coordinator.counters.terminal_cancellations =
        self.coordinator.counters.terminal_cancellations.saturating_add(total);
        self.coordinator.counters.first_attempt_cancellations =
        self.coordinator.counters.first_attempt_cancellations.saturating_add(unattempted);
        assert(self.coordinator@ =~= start.all_cancelled());
        completions
    }
}

/// Append the three completions of a cancelled ticket.
fn push_cancelled(completions: &mut Vec<TicketCompletion>, ticket: RetirementTicket)
    ensures
        final(completions)@ == old(completions)@ + cancelled_ticket(ticket),
{
    completions.push(
        TicketCompletion::Logical { ticket, result: LogicalCompletion::Cancelled },
    );
    completions.push(
        TicketCompletion::FirstAttempt { ticket, result: FirstAttemptCompletion::Cancelled },
    );
    completions.push(
        TicketCompletion::Terminal { ticket, result: TerminalCleanupCompletion::Cancelled },
    );
    assert(completions@ =~= old(completions)@ + cancelled_ticket(ticket));
}

impl RetirementExecutor {
    /// Put every retry that is due at `now` back in line, earliest first.
    pub fn enqueue_due_retries(&mut self, now: Moment)
        requires
            old(self).wf(),
        ensures
            final(self).wf(),
            final(self).config() == old(self).config(),
            final(self).lanes() == old(self).lanes(),
            final(self).state() == old(self).state().due_enqueued(now),
    {
        while self.coordinator.retries.len() > 0 && self.coordinator.retries[0].due.nanos
            <= now.nanos
            invariant
                self.wf(),
                self.config() == old(self).config(),
                self.lanes() == old(self).lanes(),
                self.state().due_enqueued(now) == old(self).state().due_enqueued(now),
            decreases self.state().retries.len(),
        {
            let ghost start = self.state();
            proof {
                start.lemma_due_step_wf(self.config());
            }
            let retry = self.coordinator.retries.remove(0);
            let ghost popped = CoordinatorView { retries: start.retries.skip(1), ..start };
            assert(start.retries.remove(0) =~= start.retries.skip(1));
            assert(self.coordinator@ =~= popped);
            let waiting = match self.coordinator.jobs.get(&retry.id) {
                Some(record) => if record.retry_scheduled {
                    Some(*record)
                } else {
                    None
                },
                None => None,
            };
            if let Some(record) = waiting {
                let mut ready = record;
                ready.retry_scheduled = false;
                self.coordinator.set_record(retry.id, ready);
                self.coordinator.push_back(record.job);
            }
        }
    }

    /// When the next retry is due.
    pub fn next_retry_deadline(&self) -> (r: Option<Moment>)
        ensures
            r == (if self.state().retries.len() == 0 {
                None
            } else {
                Some(self.state().retries[0].due)
            }),
    {
        if self.coordinator.retries.len() == 0 {
            None
        } else {
            Some(self.coordinator.retries[0].due)
        }
    }

    fn take_next(&mut self) -> (r: Option<Job>)
        requires
            old(self).wf(),
        ensures
            final(self).wf(),
            final(self).config() == old(self).config(),
            final(self).lanes() == old(self).lanes(),
            match old(self).state().next_entry(old(self).config()) {
                None => r is None && final(self).state() == old(self).state(),
                Some(priority) => {
                    &&& r == Some(old(self).state().front(priority))
                    &&& final(self).state() == old(self).state().without_front(priority)
                    &&& final(self).state().entry_in(old(self).state().front(priority), priority)
                },
            },
    {
        let ghost start = self.state();
        proof {
            if let Some(priority) = start.next_entry(self.config()) {
                start.lemma_without_front_wf(self.config(), priority);
            }
        }
        let total: usize = self.coordinator.counters.active_interactive
            + self.coordinator.counters.active_proactive;
        if total >= self.config.coordinator_capacity {
            return None;
        }
        if let Some(job) = self.coordinator.interactive_pending.pop_front() {
            assert(self.coordinator.interactive_pending@ =~= start.interactive.skip(1));
            assert(self.coordinator@ =~= start.without_front(RetirementPriority::Interactive));
            return Some(job);
        }
        if self.coordinator.counters.active_proactive < self.config.proactive_coordinator_capacity {
            if let Some(job) = self.coordinator.proactive_pending.pop_front() {
                assert(self.coordinator.proactive_pending@ =~= start.proactive.skip(1));
                assert(self.coordinator@ =~= start.without_front(RetirementPriority::Proactive));
                return Some(job);
            }
        }
        None
    }

    fn is_dispatchable(&self, job: &Job) -> (r: bool)
        ensures
            r == self.state().dispatchable(*job),
    {
        match self.coordinator.jobs.get(&job.stream.id) {
            Some(record) => record.logical_released && record.active_attempt.is_none()
                && !record.retry_scheduled && record.job.stream == job.stream && record.job.ticket
                == job.ticket,
            None => false,
        }
    }

    fn start_attempt(&mut self, job: &Job) -> (attempt: u8)
        requires
            old(self).wf(),
            old(self).state().dispatchable(*job),
            old(self).state().entry_ok(*job),
            old(self).state().counters.active_interactive + old(
                self,
            ).state().counters.active_proactive < old(self).config().coordinator_capacity,
            job.priority == RetirementPriority::Proactive ==> old(
                self,
            ).state().counters.active_proactive < old(
                self,
            ).config().proactive_coordinator_capacity,
        ensures
            final(self).wf(),
            final(self).config() == old(self).config(),
            final(self).lanes() == old(self).lanes(),
            final(self).state() == old(self).state().attempt_started(*job),
            attempt == old(self).state().next_attempt(*job),
    {
        let ghost start = self.state();
        proof {
            start.lemma_attempt_started_wf(self.config(), *job);
        }
        let mut reservation = self.coordinator.retirement_state(job.stream.instance);
        let attempt = reservation.record_attempt();
        self.coordinator.set_retirement(job.stream.instance, reservation);
        if let Some(record) = self.coordinator.jobs.get(&job.stream.id) {
            let mut started = *record;
            started.active_attempt = Some(attempt);
            self.coordinator.set_record(job.stream.id, started);
        }
        let mut counters = self.coordinator.counters;
        if attempt > 1 {
            counters.cumulative_retry_attempts =
            counters.cumulative_retry_attempts.saturating_add(1);
        }
        match job.priority {
            RetirementPriority::Interactive => {
                counters.active_interactive = counters.active_interactive + 1;
            },
            RetirementPriority::Proactive => {
                counters.active_proactive = counters.active_proactive + 1;
            },
        }
        self.coordinator.set_counters(counters);
        assert(self.coordinator@ =~= start.attempt_started(*job));
        attempt
    }

    /// Hand ready work to the workers until no slot or no work is left, or the
    /// workers refuse.
    pub fn dispatch_ready(&mut self) -> (r: DispatchReport)
        requires
            old(self).wf(),
        ensures
            final(self).wf(),
            final(self).config() == old(self).config(),
            old(self).state().dispatched(old(self).lanes(), old(self).config()) == (DispatchView {
                state: final(self).state(),
                lanes: final(self).lanes(),
                started: r.started@,
                completions: r.completions@,
            }),
    {
        let ghost outcome = self.state().dispatched(self.lanes(), self.config());
        let mut started: Vec<StartedAttempt> = Vec::new();
        loop
            invariant
                self.wf(),
                self.config() == old(self).config(),
                ({
                    let rest = self.state().dispatched(self.lanes(), self.config());
                    outcome == (DispatchView { started: started@ + rest.started, ..rest })
                }),
                outcome == old(self).state().dispatched(old(self).lanes(), old(self).config()),
            decreases self.state().interactive.len() + self.state().proactive.len(),
        {
            let ghost start = self.state();
            let ghost lanes = self.lanes();
            let ghost stop = DispatchView {
                state: start,
                lanes,
                started: Seq::empty(),
                completions: Seq::empty(),
            };
            if self.coordinator.counters.closed {
                assert(start.dispatched(lanes, self.config()) == stop);
                assert(started@ + Seq::<StartedAttempt>::empty() =~= started@);
                return DispatchReport { started, completions: Vec::new() };
            }
            let job = match self.take_next() {
                Some(job) => job,
                None => {
                    assert(start.dispatched(lanes, self.config()) == stop);
                    assert(started@ + Seq::<StartedAttempt>::empty() =~= started@);
                    return DispatchReport { started, completions: Vec::new() };
                },
            };
            let ghost popped = self.state();
            assert(start.next_entry(self.config()) == Some(job.priority));
            if !self.is_dispatchable(&job) {
                // The admission behind this entry was settled, is running or is
                // waiting for a retry; only the stale entry goes.
                continue ;
            }
            let attempt: u8 = {
                let reservation = self.coordinator.retirement_state(job.stream.instance);
                reservation.attempts.saturating_add(1)
            };
            let physical_job = PhysicalJob { stream: job.stream, attempt, mode: job.mode };
            match self.physical.submit(physical_job, job.priority) {
                Ok(_) => {
                    let number = self.start_attempt(&job);
                    started.push(StartedAttempt { job, attempt: number });
                    proof {
                        let rest = self.state().dispatched(self.lanes(), self.config());
                        let whole = start.dispatched(lanes, self.config());
                        assert(whole == (DispatchView {
                            started: seq![StartedAttempt { job, attempt: number }] + rest.started,
                            ..rest
                        }));
                        assert(started@ + rest.started =~= started@.drop_last() + (seq![
                            StartedAttempt { job, attempt: number },
                        ] + rest.started));
                    }
                },
                Err(PhysicalSubmitError::Full) => {
                    proof {
                        popped.lemma_queued_back_wf(self.config(), job);
                    }
                    self.coordinator.push_front(job);
                    assert(started@ + Seq::<StartedAttempt>::empty() =~= started@);
                    return DispatchReport { started, completions: Vec::new() };
                },
                Err(PhysicalSubmitError::Closed) => {
                    proof {
                        popped.lemma_settled_wf(self.config(), job);
                    }
                    let completions = self.coordinator.settle_without_attempt(job);
                    assert(started@ + Seq::<StartedAttempt>::empty() =~= started@);
                    return DispatchReport { started, completions };
                },
            }
        }
    }

    /// Account for a worker's report at `now`. A report that no running attempt
    /// expects changes nothing.
    pub fn finish_attempt(&mut self, event: WorkerEvent, now: Moment, wall_now: WallTime) -> (r:
        Option<AttemptEffects>)
        requires
            old(self).wf(),
        ensures
            final(self).wf(),
            final(self).config() == old(self).config(),
            final(self).lanes() == old(self).lanes(),
            ({
                let (state, effects) = old(self).state().attempt_finished(
                    old(self).config(),
                    event,
                    now,
                    wall_now,
                );
                &&& final(self).state() == state
                &&& match effects {
                    Some(expected) => r matches Some(actual) && actual@ == expected,
                    None => r is None,
                }
            }),
    {
        let ghost start = self.state();
        proof {
            start.lemma_attempt_finished_wf(self.config(), event, now, wall_now);
        }
        let record = match self.coordinator.jobs.get(&event.id) {
            Some(record) => if record.active_attempt == Some(event.attempt) {
                *record
            } else {
                return None;
            },
            None => {
                return None;
            },
        };
        let job = record.job;
        let mut idle = record;
        idle.active_attempt = None;
        if event.attempt == 1 {
            idle.first_attempt_completed = true;
        }
        self.coordinator.set_record(event.id, idle);
        let mut counters = self.coordinator.counters;
        counters.latest_cleanup_wall_time = Some(wall_now);
        counters.latest_cleanup_duration = Some(event.duration);
        match job.priority {
            RetirementPriority::Interactive => {
                counters.active_interactive = counters.active_interactive.saturating_sub(1);
            },
            RetirementPriority::Proactive => {
                counters.active_proactive = counters.active_proactive.saturating_sub(1);
            },
        }
        self.coordinator.set_counters(counters);
        let ghost rested = start.slot_returned(event, wall_now);
        assert(self.coordinator@ =~= rested);
        let cleanup_telemetry = expiry_cleanup_telemetry(job.mode, event.result, event.duration);
        let expiry = job.mode == LocalCleanupMode::Expiry;
        let mut completions: Vec<TicketCompletion> = Vec::new();
        let mut reservation = self.coordinator.retirement_state(job.stream.instance);
        match event.result {
            PhysicalAttemptResult::Succeeded { reclaimed_local_bytes, disposition } => {
                self.coordinator.remove_job(event.id);
                let mut counters = self.coordinator.counters;
                counters.terminal_successes = counters.terminal_successes.saturating_add(1);
                counters.reclaimed_local_bytes =
                counters.reclaimed_local_bytes.saturating_add(reclaimed_local_bytes);
                counters.last_successful_cleanup_wall_time = Some(wall_now);
                counters.last_successful_cleanup_duration = Some(event.duration);
                if event.attempt == 1 {
                    counters.first_attempt_successes =
                    counters.first_attempt_successes.saturating_add(1);
                    completions.push(
                        TicketCompletion::FirstAttempt {
                            ticket: job.ticket,
                            result: FirstAttemptCompletion::Succeeded { reclaimed_local_bytes },
                        },
                    );
                }
                self.coordinator.set_counters(counters);
                if disposition == LocalCleanupDisposition::HardReaped {
                    self.coordinator.remove_expiry_fence(job.stream);
                }
                reservation.finish(&job.ticket);
                self.coordinator.set_retirement(job.stream.instance, reservation);
                completions.push(
                    TicketCompletion::Terminal {
                        ticket: job.ticket,
                        result: TerminalCleanupCompletion::Succeeded { reclaimed_local_bytes },
                    },
                );
                assert(self.coordinator@ == rested.attempt_succeeded(
                    job,
                    event,
                    wall_now,
                    reclaimed_local_bytes,
                    disposition,
                ));
                assert(completions@ =~= attempt_completions(job.ticket, event));
                Some(
                    AttemptEffects {
                        completions,
                        cleanup_telemetry,
                        expiry_retry: false,
                        expiry_failed: false,
                    },
                )
            },
            PhysicalAttemptResult::Cancelled => {
                self.coordinator.remove_job(event.id);
                let mut counters = self.coordinator.counters;
                counters.terminal_cancellations = counters.terminal_cancellations.saturating_add(1);
                if event.attempt == 1 {
                    counters.first_attempt_cancellations =
                    counters.first_attempt_cancellations.saturating_add(1);
                    completions.push(
                        TicketCompletion::FirstAttempt {
                            ticket: job.ticket,
                            result: FirstAttemptCompletion::Cancelled,
                        },
                    );
                }
                self.coordinator.set_counters(counters);
                reservation.finish(&job.ticket);
                self.coordinator.set_retirement(job.stream.instance, reservation);
                completions.push(
                    TicketCompletion::Terminal {
                        ticket: job.ticket,
                        result: TerminalCleanupCompletion::Cancelled,
                    },
                );
                assert(self.coordinator@ == rested.attempt_cancelled(job, event));
                assert(completions@ =~= attempt_completions(job.ticket, event));
                Some(
                    AttemptEffects {
                        completions,
                        cleanup_telemetry,
                        expiry_retry: false,
                        expiry_failed: false,
                    },
                )
            },
            PhysicalAttemptResult::Failed | PhysicalAttemptResult::Panicked => {
                if event.attempt == 1 {
                    completions.push(
                        TicketCompletion::FirstAttempt {
                            ticket: job.ticket,
                            result: FirstAttemptCompletion::Failed,
                        },
                    );
                }
                if event.attempt < MAX_CLEANUP_ATTEMPTS {
                    let mut waiting = idle;
                    waiting.retry_scheduled = true;
                    self.coordinator.set_record(event.id, waiting);
                    let mut counters = self.coordinator.counters;
                    counters.next_retry_sequence = counters.next_retry_sequence.wrapping_add(1);
                    if event.attempt == 1 {
                        counters.first_attempt_failures =
                        counters.first_attempt_failures.saturating_add(1);
                    }
                    self.coordinator.set_counters(counters);
                    let due = now.later(retry_backoff(event.attempt, self.config.retry_base));
                    self.coordinator.schedule_retry(
                        ScheduledRetry { due, sequence: counters.next_retry_sequence, id: event.id },
                    );
                    assert(self.coordinator@ =~= rested.attempt_retried(event, self.config(), now));
                    assert(completions@ =~= attempt_completions(job.ticket, event));
                    Some(
                        AttemptEffects {
                            completions,
                            cleanup_telemetry,
                            expiry_retry: expiry,
                            expiry_failed: false,
                        },
                    )
                } else {
                    self.coordinator.remove_job(event.id);
                    let mut counters = self.coordinator.counters;
                    counters.terminal_failures = counters.terminal_failures.saturating_add(1);
                    counters.terminal_cleanup_failed_current =
                    counters.terminal_cleanup_failed_current.saturating_add(1);
                    if event.attempt == 1 {
                        counters.first_attempt_failures =
                        counters.first_attempt_failures.saturating_add(1);
                    }
                    self.coordinator.set_counters(counters);
                    self.coordinator.mark_expiry_fence_failure(job.mode, job.stream);
                    reservation.fail_terminal(&job.ticket, now, wall_now, self.config.cooldown);
                    self.coordinator.set_retirement(job.stream.instance, reservation);
                    completions.push(
                        TicketCompletion::Terminal {
                            ticket: job.ticket,
                            result: TerminalCleanupCompletion::Failed,
                        },
                    );
                    assert(self.coordinator@ == rested.attempt_failed(
                        job,
                        event,
                        self.config(),
                        now,
                        wall_now,
                    ));
                    assert(completions@ =~= attempt_completions(job.ticket, event));
                    Some(
                        AttemptEffects {
                            completions,
                            cleanup_telemetry,
                            expiry_retry: false,
                            expiry_failed: expiry,
                        },
                    )
                }
            },
        }
    }

    /// Remember that exactly this stream instance was fenced because it
    /// expired. The mark stays until its hard cleanup, its disposal or a
    /// shutdown.
    pub fn mark_expiry_fence(&mut self, stream: StreamIdentity, now: Moment) -> (inserted: bool)
        requires
            old(self).wf(),
        ensures
            final(self).wf(),
            final(self).config() == old(self).config(),
            final(self).lanes() == old(self).lanes(),
            final(self).state() == (if old(self).state().counters.closed {
                old(self).state()
            } else {
                old(self).state().with_fence(stream, now)
            }),
            inserted == (!old(self).state().counters.closed && !old(self).state().fence_matches(
                stream,
            )),
    {
        if self.coordinator.counters.closed {
            return false;
        }
        proof {
            self.state().lemma_fences_changed(
                self.config(),
                stream,
                now,
                LocalCleanupMode::Expiry,
            );
        }
        self.coordinator.mark_expiry_fence(stream, now)
    }

    /// Forget the fence of exactly this stream instance, which is gone.
    pub fn stream_disposed(&mut self, stream: StreamIdentity) -> (removed: bool)
        requires
            old(self).wf(),
        ensures
            final(self).wf(),
            final(self).config() == old(self).config(),
            final(self).lanes() == old(self).lanes(),
            final(self).state() == (if old(self).state().counters.closed {
                old(self).state()
            } else {
                old(self).state().without_fence(stream)
            }),
            removed == (!old(self).state().counters.closed && old(self).state().fence_matches(
                stream,
            )),
    {
        if self.coordinator.counters.closed {
            return false;
        }
        proof {
            self.state().lemma_fences_changed(
                self.config(),
                stream,
                Moment { nanos: 0 },
                LocalCleanupMode::Expiry,
            );
        }
        self.coordinator.remove_expiry_fence(stream)
    }

    /// The gauges of the expiry side at `now`.
    pub fn expiry_telemetry(&self, now: Moment) -> (r: ExpiryRetirementTelemetry)
        requires
            self.wf(),
        ensures
            r.queue_depth == self.state().counters.expiry_jobs,
            r.cleanup_failed == self.state().counters.expiry_terminal_cleanup_failed_current,
            r.oldest_fence_age == (if self.state().fences.len() == 0 {
                None
            } else {
                Some(age_at(now, self.state().fences[0].1.fenced_at))
            }),
    {
        let oldest_fence_age = match self.coordinator.expiry_fences.oldest() {
            Some((_, fence)) => Some(now.saturating_since(fence.fenced_at)),
            None => None,
        };
        ExpiryRetirementTelemetry {
            queue_depth: self.coordinator.counters.expiry_jobs,
            cleanup_failed: self.coordinator.counters.expiry_terminal_cleanup_failed_current,
            oldest_fence_age,
        }
    }

    /// The lanes in front of the workers, for the worker threads.
    pub fn physical_step(&mut self, index: usize) -> (r: crate::retirement::physical::WorkerStep)
        requires
            old(self).wf(),
            old(self).lanes().active_interactive + old(self).lanes().active_proactive < old(
                self,
            ).lanes().workers_live,
        ensures
            final(self).wf(),
            final(self).config() == old(self).config(),
            final(self).state() == old(self).state(),
            r == old(self).lanes().next_step(index),
            final(self).lanes() == old(self).lanes().stepped(r),
    {
        self.physical.next_step(index)
    }

    /// A worker ended a job of `priority`'s lane.
    pub fn physical_job_ended(&mut self, priority: RetirementPriority)
        requires
            old(self).wf(),
        ensures
            final(self).wf(),
            final(self).config() == old(self).config(),
            final(self).state() == old(self).state(),
            final(self).lanes() == old(self).lanes().ended(priority),
    {
        self.physical.finish_job(priority)
    }

    /// Refuse further physical work; what is queued is still drained.
    pub fn close_physical(&mut self)
        requires
            old(self).wf(),
        ensures
            final(self).wf(),
            final(self).config() == old(self).config(),
            final(self).state() == old(self).state(),
            final(self).lanes() == (PhysicalView { closed: true, ..old(self).lanes() }),
    {
        self.physical.close_admission()
    }

    /// Whether there is a ticket left for another admission.
    pub fn has_tickets_left(&self) -> (r: bool)
        ensures
            r == (self.state().counters.next_admission_sequence < u64::MAX),
    {
        self.coordinator.counters.next_admission_sequence < u64::MAX
    }

    /// How many jobs are retained, and how many wait in either queue.
    pub fn pending_and_jobs(&self) -> (r: (usize, usize, usize))
        ensures
            r.0 == self.state().jobs.len(),
            r.1 == self.state().interactive.len(),
            r.2 == self.state().proactive.len(),
    {
        (
            self.coordinator.jobs.len(),
            self.coordinator.interactive_pending.len(),
            self.coordinator.proactive_pending.len(),
        )
    }

    /// The health projection at `now`.
    pub fn snapshot(&self, now: Moment) -> (r: RetirementSnapshot)
        requires
            self.wf(),
        ensures
            r.queue_capacity == self.config().queue_capacity,
            r.total_jobs == self.state().jobs.len(),
            r.interactive_pending == self.state().interactive.len(),
            r.proactive_pending == self.state().proactive.len(),
            r.active_interactive == self.state().counters.active_interactive,
            r.active_proactive == self.state().counters.active_proactive,
            r.coordinator_capacity == self.config().coordinator_capacity,
            r.proactive_coordinator_capacity == self.config().proactive_coordinator_capacity,
            r.interactive_physical_capacity == self.config().interactive_physical_capacity,
            r.proactive_physical_capacity == self.config().proactive_physical_capacity,
            r.physical_interactive_queued == self.lanes().interactive.len(),
            r.physical_proactive_queued == self.lanes().proactive.len(),
            r.physical_interactive_active == self.lanes().active_interactive,
            r.physical_proactive_active == self.lanes().active_proactive,
            r.cleanup_workers_total == self.lanes().workers_total,
            r.cleanup_workers_live == self.lanes().workers_live,
            r.retry_heap_count == self.state().retries.len(),
            r.cumulative_retry_attempts == self.state().counters.cumulative_retry_attempts,
            r.terminal_cleanup_failed_current
                == self.state().counters.terminal_cleanup_failed_current,
            r.terminal_successes == self.state().counters.terminal_successes,
            r.terminal_failures == self.state().counters.terminal_failures,
            r.terminal_cancellations == self.state().counters.terminal_cancellations,
            r.first_attempt_successes == self.state().counters.first_attempt_successes,
            r.first_attempt_failures == self.state().counters.first_attempt_failures,
            r.first_attempt_cancellations == self.state().counters.first_attempt_cancellations,
            r.reclaimed_local_bytes == self.state().counters.reclaimed_local_bytes,
            r.latest_cleanup_wall_time == self.state().counters.latest_cleanup_wall_time,
            r.last_successful_cleanup_wall_time
                == self.state().counters.last_successful_cleanup_wall_time,
            r.latest_cleanup_duration == self.state().counters.latest_cleanup_duration,
            r.last_successful_cleanup_duration
                == self.state().counters.last_successful_cleanup_duration,
            r.oldest_admitted_age == (if self.state().admitted.len() == 0 {
                None
            } else {
                Some(age_at(now, self.state().admitted[0].1.admitted_at))
            }),
            r.closed == (self.state().counters.closed || self.lanes().closed),
    {
        let physical = self.physical.snapshot();
        let counters = self.coordinator.counters;
        let oldest_admitted_age = match self.coordinator.admitted.oldest() {
            Some((_, admission)) => Some(now.saturating_since(admission.admitted_at)),
            None => None,
        };
        RetirementSnapshot {
            queue_capacity: self.config.queue_capacity,
            total_jobs: self.coordinator.jobs.len(),
            interactive_pending: self.coordinator.interactive_pending.len(),
            proactive_pending: self.coordinator.proactive_pending.len(),
            active_interactive: counters.active_interactive,
            active_proactive: counters.active_proactive,
            coordinator_capacity: self.config.coordinator_capacity,
            proactive_coordinator_capacity: self.config.proactive_coordinator_capacity,
            interactive_physical_capacity: self.config.interactive_physical_capacity,
            proactive_physical_capacity: self.config.proactive_physical_capacity,
            physical_interactive_queued: physical.interactive_queued,
            physical_proactive_queued: physical.proactive_queued,
            physical_interactive_active: physical.interactive_active,
            physical_proactive_active: physical.proactive_active,
            cleanup_workers_total: physical.workers_total,
            cleanup_workers_live: physical.workers_live,
            retry_heap_count: self.coordinator.retries.len(),
            cumulative_retry_attempts: counters.cumulative_retry_attempts,
            terminal_cleanup_failed_current: counters.terminal_cleanup_failed_current,
            terminal_successes: counters.terminal_successes,
            terminal_failures: counters.terminal_failures,
            terminal_cancellations: counters.terminal_cancellations,
            first_attempt_successes: counters.first_attempt_successes,
            first_attempt_failures: counters.first_attempt_failures,
            first_attempt_cancellations: counters.first_attempt_cancellations,
            reclaimed_local_bytes: counters.reclaimed_local_bytes,
            latest_cleanup_wall_time: counters.latest_cleanup_wall_time,
            last_successful_cleanup_wall_time: counters.last_successful_cleanup_wall_time,
            latest_cleanup_duration: counters.latest_cleanup_duration,
            last_successful_cleanup_duration: counters.last_successful_cleanup_duration,
            oldest_admitted_age,
            closed: counters.closed || physical.closed,
        }
    }
}

} // verus!
