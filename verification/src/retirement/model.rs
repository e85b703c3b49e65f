//! The coordinator's state and its transitions as mathematics.

use crate::clock::{min_int, Moment, Span, WallTime};
use crate::retirement::foundation::{
    backoff_nanos, FirstAttemptCompletion, LogicalCompletion, RetirementAdmission,
    RetirementConfig, RetirementPriority, RetirementReservation, RetirementState,
    RetirementTicket, TerminalCleanupCompletion, TicketCompletion, MAX_CLEANUP_ATTEMPTS,
};
use crate::retirement::index::{
    has_key, keys_distinct, lemma_push_key, lemma_with_value, lemma_without_key, position_of,
    value_of, with_value, without_key,
};
use crate::retirement::physical::{
    PhysicalAttemptResult, PhysicalJob, PhysicalSubmitError, PhysicalView,
};
use crate::store::cleanup::{LocalCleanupDisposition, LocalCleanupMode};
use crate::store::identity::StreamIdentity;
use vstd::prelude::*;

verus! {

/// One stream to be cleaned up, on behalf of one admission.
#[derive(Clone, Copy, Debug, PartialEq, Eq, Structural)]
pub struct Job {
    pub stream: StreamIdentity,
    pub ticket: RetirementTicket,
    pub priority: RetirementPriority,
    pub mode: LocalCleanupMode,
}

/// What the coordinator retains of an admitted job.
#[derive(Clone, Copy, Debug, PartialEq, Eq, Structural)]
pub struct JobRecord {
    pub job: Job,
    pub logical_released: bool,
    pub active_attempt: Option<u8>,
    pub retry_scheduled: bool,
    pub first_attempt_completed: bool,
}

/// When which stream was admitted.
#[derive(Clone, Copy, Debug, PartialEq, Eq, Structural)]
pub struct Admission {
    pub id: u64,
    pub admitted_at: Moment,
}

/// A stream that was fenced because it expired.
#[derive(Clone, Copy, Debug, PartialEq, Eq, Structural)]
pub struct ExpiryFence {
    pub stream: StreamIdentity,
    pub fenced_at: Moment,
    pub terminal_failure: bool,
}

/// A retry waiting for its time.
#[derive(Clone, Copy, Debug, PartialEq, Eq, Structural)]
pub struct ScheduledRetry {
    pub due: Moment,
    pub sequence: u64,
    pub id: u64,
}

/// Everything that is counted or timed.
#[derive(Clone, Copy, Debug, PartialEq, Eq, Structural)]
pub struct RetirementCounters {
    pub active_interactive: usize,
    pub active_proactive: usize,
    pub next_retry_sequence: u64,
    pub next_admission_sequence: u64,
    pub expiry_jobs: u64,
    pub expiry_terminal_cleanup_failed_current: u64,
    pub cumulative_retry_attempts: u64,
    pub terminal_cleanup_failed_current: u64,
    pub terminal_successes: u64,
    pub terminal_failures: u64,
    pub terminal_cancellations: u64,
    pub first_attempt_successes: u64,
    pub first_attempt_failures: u64,
    pub first_attempt_cancellations: u64,
    pub reclaimed_local_bytes: u64,
    pub latest_cleanup_wall_time: Option<WallTime>,
    pub last_successful_cleanup_wall_time: Option<WallTime>,
    pub latest_cleanup_duration: Option<Span>,
    pub last_successful_cleanup_duration: Option<Span>,
    pub closed: bool,
}

/// The answer to an admission.
#[derive(Clone, Copy, Debug, PartialEq, Eq, Structural)]
pub enum RetirementAdmissionResult {
    Admitted(RetirementTicket),
    Existing(RetirementTicket),
    Rejected(RetirementAdmission),
}

/// A worker's report on one attempt.
#[derive(Clone, Copy, Debug, PartialEq, Eq, Structural)]
pub struct WorkerEvent {
    pub id: u64,
    pub attempt: u8,
    pub result: PhysicalAttemptResult,
    pub duration: Span,
}

/// An attempt that was handed to the workers.
#[derive(Clone, Copy, Debug, PartialEq, Eq, Structural)]
pub struct StartedAttempt {
    pub job: Job,
    pub attempt: u8,
}

/// How an expiry cleanup ended well.
#[derive(Clone, Copy, Debug, PartialEq, Eq, Structural)]
pub enum ExpiryCleanupDisposition {
    Reaped(u64),
    SoftDeleted,
}

/// The metric event of one expiry cleanup attempt.
#[derive(Clone, Copy, Debug, PartialEq, Eq, Structural)]
pub struct ExpiryCleanupTelemetry {
    pub duration: Span,
    pub disposition: Option<ExpiryCleanupDisposition>,
}

pub open spec fn sat_inc(x: u64) -> u64 {
    if x == u64::MAX {
        x
    } else {
        (x + 1) as u64
    }
}

pub open spec fn sat_dec(x: u64) -> u64 {
    if x == 0 {
        x
    } else {
        (x - 1) as u64
    }
}

pub open spec fn sat_plus(x: u64, y: int) -> u64 {
    if x + y > u64::MAX {
        u64::MAX
    } else {
        (x + y) as u64
    }
}

pub open spec fn wrap_inc(x: u64) -> u64 {
    if x == u64::MAX {
        0
    } else {
        (x + 1) as u64
    }
}

/// The order in which retries leave the schedule.
pub open spec fn retry_before(a: ScheduledRetry, b: ScheduledRetry) -> bool {
    ||| a.due.nanos < b.due.nanos
    ||| a.due.nanos == b.due.nanos && a.sequence < b.sequence
    ||| a.due.nanos == b.due.nanos && a.sequence == b.sequence && a.id < b.id
}

/// No retry stands in front of an earlier one.
pub open spec fn retries_ordered(retries: Seq<ScheduledRetry>) -> bool {
    forall|i: int, j: int|
        0 <= i < j < retries.len() ==> !retry_before(#[trigger] retries[j], #[trigger] retries[i])
}

/// Where a new retry goes: behind every retry that is not after it.
pub open spec fn retry_slot(retries: Seq<ScheduledRetry>, retry: ScheduledRetry) -> int
    decreases retries.len(),
{
    if retries.len() == 0 || !retry_before(retry, retries.last()) {
        retries.len() as int
    } else {
        retry_slot(retries.drop_last(), retry)
    }
}

pub open spec fn with_retry(
    retries: Seq<ScheduledRetry>,
    retry: ScheduledRetry,
) -> Seq<ScheduledRetry> {
    retries.insert(retry_slot(retries, retry), retry)
}

pub proof fn lemma_retry_slot(retries: Seq<ScheduledRetry>, retry: ScheduledRetry)
    requires
        retries_ordered(retries),
    ensures
        0 <= retry_slot(retries, retry) <= retries.len(),
        forall|i: int|
            retry_slot(retries, retry) <= i < retries.len() ==> retry_before(
                retry,
                #[trigger] retries[i],
            ),
        forall|i: int|
            0 <= i < retry_slot(retries, retry) ==> !retry_before(retry, #[trigger] retries[i]),
    decreases retries.len(),
{
    if retries.len() == 0 {
    } else if !retry_before(retry, retries.last()) {
        assert forall|i: int| 0 <= i < retries.len() implies !retry_before(
            retry,
            #[trigger] retries[i],
        ) by {
            if i < retries.len() - 1 {
                assert(!retry_before(retries[retries.len() - 1], retries[i]));
            }
        }
    } else {
        let shorter = retries.drop_last();
        assert(retries_ordered(shorter));
        lemma_retry_slot(shorter, retry);
        assert forall|i: int| retry_slot(retries, retry) <= i < retries.len() implies retry_before(
            retry,
            #[trigger] retries[i],
        ) by {
            if i < shorter.len() {
                assert(shorter[i] == retries[i]);
            }
        }
        assert forall|i: int| 0 <= i < retry_slot(retries, retry) implies !retry_before(
            retry,
            #[trigger] retries[i],
        ) by {
            assert(shorter[i] == retries[i]);
        }
    }
}

/// A new retry leaves the schedule in order.
pub proof fn lemma_with_retry_ordered(retries: Seq<ScheduledRetry>, retry: ScheduledRetry)
    requires
        retries_ordered(retries),
    ensures
        retries_ordered(with_retry(retries, retry)),
{
    lemma_retry_slot(retries, retry);
    let p = retry_slot(retries, retry);
    let after = with_retry(retries, retry);
    assert forall|i: int, j: int| 0 <= i < j < after.len() implies !retry_before(
        #[trigger] after[j],
        #[trigger] after[i],
    ) by {
        if j < p {
            assert(after[j] == retries[j] && after[i] == retries[i]);
        } else if j == p {
            assert(after[i] == retries[i]);
        } else if i < p {
            assert(after[j] == retries[j - 1] && after[i] == retries[i]);
        } else if i == p {
            assert(after[j] == retries[j - 1]);
        } else {
            assert(after[j] == retries[j - 1] && after[i] == retries[i - 1]);
        }
    }
}

/// The metric event of an attempt. Only expiry cleanups have one.
pub open spec fn cleanup_telemetry_of(
    mode: LocalCleanupMode,
    result: PhysicalAttemptResult,
    duration: Span,
) -> Option<ExpiryCleanupTelemetry> {
    if mode != LocalCleanupMode::Expiry {
        None
    } else {
        Some(
            ExpiryCleanupTelemetry {
                duration,
                disposition: match result {
                    PhysicalAttemptResult::Succeeded {
                        reclaimed_local_bytes,
                        disposition,
                    } => match disposition {
                        LocalCleanupDisposition::HardReaped => Some(
                            ExpiryCleanupDisposition::Reaped(reclaimed_local_bytes),
                        ),
                        LocalCleanupDisposition::DurableSoftDeleted => Some(
                            ExpiryCleanupDisposition::SoftDeleted,
                        ),
                    },
                    _ => None,
                },
            },
        )
    }
}

/// How many fences belong to streams whose cleanup failed for good.
pub open spec fn failed_fences(fences: Seq<(u64, ExpiryFence)>) -> nat
    decreases fences.len(),
{
    if fences.len() == 0 {
        0
    } else {
        failed_fences(fences.drop_last()) + failed_one(fences.last().1)
    }
}

/// Whether one fence counts among the failed ones.
pub open spec fn failed_one(fence: ExpiryFence) -> nat {
    if fence.terminal_failure {
        1
    } else {
        0
    }
}

/// No more fences failed than there are, and one that failed is counted.
pub proof fn lemma_failed_bound(fences: Seq<(u64, ExpiryFence)>)
    ensures
        failed_fences(fences) <= fences.len(),
        forall|i: int|
            0 <= i < fences.len() && !(#[trigger] fences[i]).1.terminal_failure ==> failed_fences(
                fences,
            ) < fences.len(),
        forall|i: int|
            0 <= i < fences.len() && (#[trigger] fences[i]).1.terminal_failure ==> failed_fences(
                fences,
            ) > 0,
    decreases fences.len(),
{
    if fences.len() > 0 {
        let front = fences.drop_last();
        lemma_failed_bound(front);
        assert forall|i: int| 0 <= i < fences.len() - 1 implies #[trigger] fences[i] == front[i] by {}
    }
}

/// Removing a fence takes it out of the count.
pub proof fn lemma_failed_removed(fences: Seq<(u64, ExpiryFence)>, p: int)
    requires
        0 <= p < fences.len(),
    ensures
        failed_fences(fences.remove(p)) + failed_one(fences[p].1) == failed_fences(fences),
    decreases fences.len(),
{
    let shorter = fences.remove(p);
    if p == fences.len() - 1 {
        assert(shorter =~= fences.drop_last());
    } else {
        lemma_failed_removed(fences.drop_last(), p);
        assert(shorter.drop_last() =~= fences.drop_last().remove(p));
        assert(shorter.last() == fences.last());
    }
}

/// Changing a fence changes only its own share of the count.
pub proof fn lemma_failed_updated(fences: Seq<(u64, ExpiryFence)>, p: int, entry: (u64, ExpiryFence))
    requires
        0 <= p < fences.len(),
    ensures
        failed_fences(fences.update(p, entry)) + failed_one(fences[p].1) == failed_fences(fences)
            + failed_one(entry.1),
    decreases fences.len(),
{
    let changed = fences.update(p, entry);
    if p == fences.len() - 1 {
        assert(changed.drop_last() =~= fences.drop_last());
    } else {
        lemma_failed_updated(fences.drop_last(), p, entry);
        assert(changed.drop_last() =~= fences.drop_last().update(p, entry));
        assert(changed.last() == fences.last());
    }
}

/// How many records satisfy `pred`.
pub open spec fn count_records(
    jobs: Map<u64, JobRecord>,
    pred: spec_fn(JobRecord) -> bool,
) -> nat {
    jobs.dom().filter(|id: u64| pred(jobs[id])).len()
}

pub open spec fn is_active(priority: RetirementPriority) -> spec_fn(JobRecord) -> bool {
    |record: JobRecord| record.active_attempt is Some && record.job.priority == priority
}

pub open spec fn is_expiry() -> spec_fn(JobRecord) -> bool {
    |record: JobRecord| record.job.mode == LocalCleanupMode::Expiry
}

pub open spec fn is_unattempted() -> spec_fn(JobRecord) -> bool {
    |record: JobRecord| !record.first_attempt_completed
}

pub proof fn lemma_count_insert(
    jobs: Map<u64, JobRecord>,
    id: u64,
    record: JobRecord,
    pred: spec_fn(JobRecord) -> bool,
)
    requires
        jobs.dom().finite(),
    ensures
        count_records(jobs.insert(id, record), pred) == count_records(jobs, pred) + (if pred(
            record,
        ) {
            1int
        } else {
            0
        }) - (if jobs.contains_key(id) && pred(jobs[id]) {
            1int
        } else {
            0
        }),
        count_records(jobs, pred) <= jobs.len(),
{
    let before = jobs.dom().filter(|i: u64| pred(jobs[i]));
    let changed = jobs.insert(id, record);
    let after = changed.dom().filter(|i: u64| pred(changed[i]));
    jobs.dom().lemma_len_filter(|i: u64| pred(jobs[i]));
    if pred(record) {
        assert(after =~= before.insert(id));
    } else {
        assert(after =~= before.remove(id));
    }
}

pub proof fn lemma_count_remove(
    jobs: Map<u64, JobRecord>,
    id: u64,
    pred: spec_fn(JobRecord) -> bool,
)
    requires
        jobs.dom().finite(),
    ensures
        count_records(jobs.remove(id), pred) == count_records(jobs, pred) - (if jobs.contains_key(
            id,
        ) && pred(jobs[id]) {
            1int
        } else {
            0
        }),
        count_records(jobs, pred) <= jobs.len(),
{
    let before = jobs.dom().filter(|i: u64| pred(jobs[i]));
    let changed = jobs.remove(id);
    let after = changed.dom().filter(|i: u64| pred(changed[i]));
    jobs.dom().lemma_len_filter(|i: u64| pred(jobs[i]));
    assert(after =~= before.remove(id));
}

pub proof fn lemma_count_empty(pred: spec_fn(JobRecord) -> bool)
    ensures
        count_records(Map::<u64, JobRecord>::empty(), pred) == 0,
{
    let none = Map::<u64, JobRecord>::empty();
    assert(none.dom().filter(|i: u64| pred(none[i])) =~= Set::empty());
}

/// The coordinator as a mathematical value.
#[verifier::ext_equal]
pub struct CoordinatorView {
    pub jobs: Map<u64, JobRecord>,
    pub interactive: Seq<Job>,
    pub proactive: Seq<Job>,
    pub retries: Seq<ScheduledRetry>,
    pub admitted: Seq<(u64, Admission)>,
    pub fences: Seq<(u64, ExpiryFence)>,
    pub retirement: Map<u64, RetirementState>,
    pub counters: RetirementCounters,
}

/// What ends with one attempt, besides the state change.
#[verifier::ext_equal]
pub struct AttemptEffectsView {
    pub completions: Seq<TicketCompletion>,
    pub cleanup_telemetry: Option<ExpiryCleanupTelemetry>,
    pub expiry_retry: bool,
    pub expiry_failed: bool,
}

/// The state after a dispatch round, the attempts it started and the
/// completions it published.
#[verifier::ext_equal]
pub struct DispatchView {
    pub state: CoordinatorView,
    pub lanes: PhysicalView,
    pub started: Seq<StartedAttempt>,
    pub completions: Seq<TicketCompletion>,
}

impl CoordinatorView {
    /// The admission state of a stream instance.
    pub open spec fn retirement_of(self, instance: u64) -> RetirementState {
        if self.retirement.contains_key(instance) {
            self.retirement[instance]
        } else {
            RetirementState::clean()
        }
    }

    pub open spec fn with_retirement(self, instance: u64, state: RetirementState) -> Self {
        CoordinatorView { retirement: self.retirement.insert(instance, state), ..self }
    }

    pub open spec fn with_record(self, id: u64, record: JobRecord) -> Self {
        CoordinatorView { jobs: self.jobs.insert(id, record), ..self }
    }

    pub open spec fn record_ok(self, id: u64) -> bool {
        let job = self.jobs[id].job;
        &&& job.stream.id == id
        &&& has_key(self.admitted, job.ticket.id)
        &&& value_of(self.admitted, job.ticket.id).id == id
        &&& job.ticket.id <= self.counters.next_admission_sequence
        &&& self.retirement_of(job.stream.instance).ticket == Some(job.ticket)
        &&& self.jobs[id].active_attempt is Some ==> self.jobs[id].logical_released
    }

    pub open spec fn admission_ok(self, ticket: u64) -> bool {
        let id = value_of(self.admitted, ticket).id;
        self.jobs.contains_key(id) && self.jobs[id].job.ticket.id == ticket
    }

    pub open spec fn retirement_ok(self, instance: u64) -> bool {
        self.retirement[instance].ticket matches Some(ticket) ==> {
            let id = value_of(self.admitted, ticket.id).id;
            &&& has_key(self.admitted, ticket.id)
            &&& self.jobs[id].job.stream.instance == instance
        }
    }

    /// Nothing is retained.
    pub open spec fn drained(self) -> bool {
        &&& self.jobs =~= Map::empty()
        &&& self.interactive.len() == 0
        &&& self.proactive.len() == 0
        &&& self.retries.len() == 0
        &&& self.admitted.len() == 0
        &&& self.fences.len() == 0
        &&& self.counters.expiry_terminal_cleanup_failed_current == 0
    }

    /// A queue entry is older than the next admission, and where its admission
    /// is still retained it is that admission's job.
    pub open spec fn entry_ok(self, job: Job) -> bool {
        let id = job.stream.id;
        &&& job.ticket.id <= self.counters.next_admission_sequence
        &&& self.jobs.contains_key(id) && self.jobs[id].job.ticket == job.ticket
            ==> self.jobs[id].job == job
    }

    /// A sound queue entry of the lane `priority`.
    pub open spec fn entry_in(self, job: Job, priority: RetirementPriority) -> bool {
        self.entry_ok(job) && job.priority == priority
    }

    /// What every transition keeps: jobs, admissions and reservations are in
    /// one-to-one correspondence, the counters are what they count, the limits
    /// hold, and a closed coordinator is empty.
    pub open spec fn wf(self, config: RetirementConfig) -> bool {
        &&& self.jobs.dom().finite()
        &&& self.jobs.len() <= config.queue_capacity
        &&& keys_distinct(self.admitted)
        &&& keys_distinct(self.fences)
        &&& forall|id: u64| #[trigger] self.jobs.contains_key(id) ==> self.record_ok(id)
        &&& forall|ticket: u64| #[trigger]
            has_key(self.admitted, ticket) ==> self.admission_ok(ticket)
        &&& forall|instance: u64| #[trigger]
            self.retirement.contains_key(instance) ==> self.retirement_ok(instance)
        &&& forall|id: u64| #[trigger]
            has_key(self.fences, id) ==> value_of(self.fences, id).stream.id == id
        &&& forall|i: int|
            0 <= i < self.interactive.len() ==> self.entry_in(#[trigger] self.interactive[i], RetirementPriority::Interactive)
        &&& forall|i: int|
            0 <= i < self.proactive.len() ==> self.entry_in(#[trigger] self.proactive[i], RetirementPriority::Proactive)
        &&& retries_ordered(self.retries)
        &&& self.counters.active_interactive == count_records(
            self.jobs,
            is_active(RetirementPriority::Interactive),
        )
        &&& self.counters.active_proactive == count_records(
            self.jobs,
            is_active(RetirementPriority::Proactive),
        )
        &&& self.counters.expiry_jobs == count_records(self.jobs, is_expiry())
        &&& self.fences.len() <= u64::MAX
        &&& self.failures_counted()
        &&& self.counters.active_interactive + self.counters.active_proactive
            <= config.coordinator_capacity
        &&& self.counters.active_proactive <= config.proactive_coordinator_capacity
        &&& self.counters.closed ==> self.drained()
    }

    /// The count of failed fences is right.
    pub open spec fn failures_counted(self) -> bool {
        self.counters.expiry_terminal_cleanup_failed_current == failed_fences(self.fences)
    }

    /// Without the job `id`.
    pub open spec fn without_job(self, id: u64) -> Self {
        if self.jobs.contains_key(id) {
            let job = self.jobs[id].job;
            CoordinatorView {
                jobs: self.jobs.remove(id),
                admitted: without_key(self.admitted, job.ticket.id),
                counters: RetirementCounters {
                    expiry_jobs: if job.mode == LocalCleanupMode::Expiry {
                        sat_dec(self.counters.expiry_jobs)
                    } else {
                        self.counters.expiry_jobs
                    },
                    ..self.counters
                },
                ..self
            }
        } else {
            self
        }
    }

    /// Whether exactly this stream instance is fenced.
    pub open spec fn fence_matches(self, stream: StreamIdentity) -> bool {
        has_key(self.fences, stream.id) && value_of(self.fences, stream.id).stream == stream
    }

    pub open spec fn without_fence_id(self, id: u64) -> Self {
        if has_key(self.fences, id) {
            CoordinatorView {
                fences: without_key(self.fences, id),
                counters: RetirementCounters {
                    expiry_terminal_cleanup_failed_current: if value_of(
                        self.fences,
                        id,
                    ).terminal_failure {
                        sat_dec(self.counters.expiry_terminal_cleanup_failed_current)
                    } else {
                        self.counters.expiry_terminal_cleanup_failed_current
                    },
                    ..self.counters
                },
                ..self
            }
        } else {
            self
        }
    }

    pub open spec fn without_fence(self, stream: StreamIdentity) -> Self {
        if self.fence_matches(stream) {
            self.without_fence_id(stream.id)
        } else {
            self
        }
    }

    /// With a fence for exactly this stream instance. A fence of another
    /// instance under the same number gives way.
    pub open spec fn with_fence(self, stream: StreamIdentity, now: Moment) -> Self {
        if self.fence_matches(stream) {
            self
        } else {
            let cleared = self.without_fence_id(stream.id);
            CoordinatorView {
                fences: cleared.fences.push(
                    (
                        stream.id,
                        ExpiryFence { stream, fenced_at: now, terminal_failure: false },
                    ),
                ),
                ..cleared
            }
        }
    }

    pub open spec fn with_fence_failure_cleared(self, stream: StreamIdentity) -> Self {
        if self.fence_matches(stream) && value_of(self.fences, stream.id).terminal_failure {
            CoordinatorView {
                fences: with_value(
                    self.fences,
                    stream.id,
                    ExpiryFence {
                        terminal_failure: false,
                        ..value_of(self.fences, stream.id)
                    },
                ),
                counters: RetirementCounters {
                    expiry_terminal_cleanup_failed_current: sat_dec(
                        self.counters.expiry_terminal_cleanup_failed_current,
                    ),
                    ..self.counters
                },
                ..self
            }
        } else {
            self
        }
    }

    pub open spec fn with_fence_failure(self, mode: LocalCleanupMode, stream: StreamIdentity) -> Self {
        if mode == LocalCleanupMode::Expiry && self.fence_matches(stream) && !value_of(
            self.fences,
            stream.id,
        ).terminal_failure {
            CoordinatorView {
                fences: with_value(
                    self.fences,
                    stream.id,
                    ExpiryFence {
                        terminal_failure: true,
                        ..value_of(self.fences, stream.id)
                    },
                ),
                counters: RetirementCounters {
                    expiry_terminal_cleanup_failed_current: sat_inc(
                        self.counters.expiry_terminal_cleanup_failed_current,
                    ),
                    ..self.counters
                },
                ..self
            }
        } else {
            self
        }
    }

    pub open spec fn queued_back(self, job: Job) -> Self {
        match job.priority {
            RetirementPriority::Interactive => CoordinatorView {
                interactive: self.interactive.push(job),
                ..self
            },
            RetirementPriority::Proactive => CoordinatorView {
                proactive: self.proactive.push(job),
                ..self
            },
        }
    }

    pub open spec fn queued_front(self, job: Job) -> Self {
        match job.priority {
            RetirementPriority::Interactive => CoordinatorView {
                interactive: seq![job] + self.interactive,
                ..self
            },
            RetirementPriority::Proactive => CoordinatorView {
                proactive: seq![job] + self.proactive,
                ..self
            },
        }
    }

    /// The identity that the next admission gets.
    pub open spec fn fresh_ticket(self) -> RetirementTicket {
        RetirementTicket { id: (self.counters.next_admission_sequence + 1) as u64 }
    }

    /// With a new job for `stream`.
    pub open spec fn with_job(
        self,
        stream: StreamIdentity,
        priority: RetirementPriority,
        mode: LocalCleanupMode,
        now: Moment,
    ) -> Self {
        let ticket = self.fresh_ticket();
        CoordinatorView {
            jobs: self.jobs.insert(
                stream.id,
                JobRecord {
                    job: Job { stream, ticket, priority, mode },
                    logical_released: false,
                    active_attempt: None,
                    retry_scheduled: false,
                    first_attempt_completed: false,
                },
            ),
            admitted: self.admitted.push((ticket.id, Admission { id: stream.id, admitted_at: now })),
            counters: RetirementCounters {
                next_admission_sequence: ticket.id,
                expiry_jobs: if mode == LocalCleanupMode::Expiry {
                    sat_inc(self.counters.expiry_jobs)
                } else {
                    self.counters.expiry_jobs
                },
                ..self.counters
            },
            ..self
        }
    }

    /// An admission at `now`: the next state and the answer.
    pub open spec fn admission(
        self,
        config: RetirementConfig,
        stream: StreamIdentity,
        priority: RetirementPriority,
        mode: LocalCleanupMode,
        now: Moment,
    ) -> (Self, RetirementAdmissionResult) {
        let before = self.retirement_of(stream.instance);
        let (reserved, answer) = before.reserved(now, self.fresh_ticket());
        if self.counters.closed {
            (self, RetirementAdmissionResult::Rejected(RetirementAdmission::ShuttingDown))
        } else {
            match answer {
                RetirementReservation::Existing(ticket) => (
                    self.with_retirement(stream.instance, reserved),
                    RetirementAdmissionResult::Existing(ticket),
                ),
                RetirementReservation::CoolingDown => (
                    self,
                    RetirementAdmissionResult::Rejected(RetirementAdmission::CoolingDown),
                ),
                RetirementReservation::New(ticket) => {
                    let thawed = if before.cleanup_failed_at is Some {
                        CoordinatorView {
                            counters: RetirementCounters {
                                terminal_cleanup_failed_current: sat_dec(
                                    self.counters.terminal_cleanup_failed_current,
                                ),
                                ..self.counters
                            },
                            ..self
                        }.with_fence_failure_cleared(stream)
                    } else {
                        self
                    };
                    if self.jobs.contains_key(stream.id) {
                        (
                            thawed.with_retirement(stream.instance, RetirementState::clean()),
                            RetirementAdmissionResult::Rejected(
                                RetirementAdmission::IdentityConflict,
                            ),
                        )
                    } else if self.jobs.len() >= config.queue_capacity {
                        (
                            thawed.with_retirement(stream.instance, RetirementState::clean()),
                            RetirementAdmissionResult::Rejected(RetirementAdmission::QueueFull),
                        )
                    } else {
                        (
                            thawed.with_retirement(stream.instance, reserved).with_job(
                                stream,
                                priority,
                                mode,
                                now,
                            ),
                            RetirementAdmissionResult::Admitted(ticket),
                        )
                    }
                },
            }
        }
    }

    /// Whether `ticket` is the admission of exactly this stream instance and
    /// has not been released yet.
    pub open spec fn prelogical(self, stream: StreamIdentity, ticket: RetirementTicket) -> bool {
        &&& self.jobs.contains_key(stream.id)
        &&& !self.jobs[stream.id].logical_released
        &&& self.jobs[stream.id].job.stream == stream
        &&& self.jobs[stream.id].job.ticket == ticket
    }

    /// The state after an exact logical release.
    pub open spec fn released(self, stream: StreamIdentity) -> Self {
        let record = self.jobs[stream.id];
        self.with_record(stream.id, JobRecord { logical_released: true, ..record }).queued_back(
            record.job,
        )
    }

    /// The state after an exact cancellation before the logical release.
    pub open spec fn prelogical_cancelled(self, stream: StreamIdentity, ticket: RetirementTicket) -> Self {
        let shorter = self.without_job(stream.id).with_retirement(
            stream.instance,
            self.retirement_of(stream.instance).finished(ticket),
        );
        CoordinatorView {
            counters: RetirementCounters {
                terminal_cancellations: sat_inc(shorter.counters.terminal_cancellations),
                first_attempt_cancellations: sat_inc(shorter.counters.first_attempt_cancellations),
                ..shorter.counters
            },
            ..shorter
        }
    }

    /// The reservations once every admission was cancelled.
    pub open spec fn retirement_after_cancel(self) -> Map<u64, RetirementState> {
        self.retirement.map_values(
            |state: RetirementState|
                if state.ticket is Some {
                    RetirementState::clean()
                } else {
                    state
                },
        )
    }

    /// The state after everything was cancelled.
    pub open spec fn all_cancelled(self) -> Self {
        if self.counters.closed {
            self
        } else {
            CoordinatorView {
                jobs: Map::empty(),
                interactive: Seq::empty(),
                proactive: Seq::empty(),
                retries: Seq::empty(),
                admitted: Seq::empty(),
                fences: Seq::empty(),
                retirement: self.retirement_after_cancel(),
                counters: RetirementCounters {
                    active_interactive: 0,
                    active_proactive: 0,
                    expiry_jobs: 0,
                    expiry_terminal_cleanup_failed_current: 0,
                    terminal_cancellations: sat_plus(
                        self.counters.terminal_cancellations,
                        self.jobs.len() as int,
                    ),
                    first_attempt_cancellations: sat_plus(
                        self.counters.first_attempt_cancellations,
                        count_records(self.jobs, is_unattempted()) as int,
                    ),
                    closed: true,
                    ..self.counters
                },
            }
        }
    }

    /// The completions published when everything is cancelled: three for each
    /// admission, oldest admission first.
    pub open spec fn cancel_completions(admitted: Seq<(u64, Admission)>) -> Seq<TicketCompletion>
        decreases admitted.len(),
    {
        if admitted.len() == 0 {
            Seq::empty()
        } else {
            Self::cancel_completions(admitted.drop_last()) + cancelled_ticket(
                RetirementTicket { id: admitted.last().0 },
            )
        }
    }

    /// The state once every retry that is due at `now` was put back in line.
    pub open spec fn due_enqueued(self, now: Moment) -> Self
        decreases self.retries.len(),
    {
        if self.retries.len() == 0 || self.retries[0].due.nanos > now.nanos {
            self
        } else {
            let id = self.retries[0].id;
            let popped = CoordinatorView { retries: self.retries.skip(1), ..self };
            if self.jobs.contains_key(id) && self.jobs[id].retry_scheduled {
                let record = self.jobs[id];
                popped.with_record(id, JobRecord { retry_scheduled: false, ..record }).queued_back(
                    record.job,
                ).due_enqueued(now)
            } else {
                popped.due_enqueued(now)
            }
        }
    }

    /// Whether a queue entry still stands for work that may start.
    pub open spec fn dispatchable(self, job: Job) -> bool {
        let id = job.stream.id;
        &&& self.jobs.contains_key(id)
        &&& self.jobs[id].logical_released
        &&& self.jobs[id].active_attempt is None
        &&& !self.jobs[id].retry_scheduled
        &&& self.jobs[id].job.stream == job.stream
        &&& self.jobs[id].job.ticket == job.ticket
    }

    /// The queue entry that the coordinator takes next, if a slot is free.
    pub open spec fn next_entry(self, config: RetirementConfig) -> Option<RetirementPriority> {
        let c = self.counters;
        if c.active_interactive + c.active_proactive >= config.coordinator_capacity {
            None
        } else if self.interactive.len() > 0 {
            Some(RetirementPriority::Interactive)
        } else if c.active_proactive < config.proactive_coordinator_capacity
            && self.proactive.len() > 0 {
            Some(RetirementPriority::Proactive)
        } else {
            None
        }
    }

    pub open spec fn front(self, priority: RetirementPriority) -> Job {
        match priority {
            RetirementPriority::Interactive => self.interactive[0],
            RetirementPriority::Proactive => self.proactive[0],
        }
    }

    pub open spec fn without_front(self, priority: RetirementPriority) -> Self {
        match priority {
            RetirementPriority::Interactive => CoordinatorView {
                interactive: self.interactive.skip(1),
                ..self
            },
            RetirementPriority::Proactive => CoordinatorView {
                proactive: self.proactive.skip(1),
                ..self
            },
        }
    }

    /// The number of the attempt that would start now.
    pub open spec fn next_attempt(self, job: Job) -> u8 {
        min_int(self.retirement_of(job.stream.instance).attempts + 1, 255) as u8
    }

    /// The state after `job`'s next attempt was handed to the workers.
    pub open spec fn attempt_started(self, job: Job) -> Self {
        let attempt = self.next_attempt(job);
        let record = self.jobs[job.stream.id];
        let counted = self.with_retirement(
            job.stream.instance,
            RetirementState { attempts: attempt, ..self.retirement_of(job.stream.instance) },
        ).with_record(job.stream.id, JobRecord { active_attempt: Some(attempt), ..record });
        CoordinatorView {
            counters: RetirementCounters {
                cumulative_retry_attempts: if attempt > 1 {
                    sat_inc(self.counters.cumulative_retry_attempts)
                } else {
                    self.counters.cumulative_retry_attempts
                },
                active_interactive: match job.priority {
                    RetirementPriority::Interactive => (self.counters.active_interactive
                        + 1) as usize,
                    RetirementPriority::Proactive => self.counters.active_interactive,
                },
                active_proactive: match job.priority {
                    RetirementPriority::Interactive => self.counters.active_proactive,
                    RetirementPriority::Proactive => (self.counters.active_proactive + 1) as usize,
                },
                ..self.counters
            },
            ..counted
        }
    }

    /// The state after `job` was given up because the workers are gone.
    pub open spec fn settled_without_attempt(self, job: Job) -> Self {
        let shorter = self.without_job(job.stream.id).with_retirement(
            job.stream.instance,
            self.retirement_of(job.stream.instance).finished(job.ticket),
        );
        CoordinatorView {
            counters: RetirementCounters {
                terminal_failures: sat_inc(shorter.counters.terminal_failures),
                first_attempt_failures: sat_inc(shorter.counters.first_attempt_failures),
                ..shorter.counters
            },
            ..shorter
        }
    }

    /// One dispatch round: entries leave the queues, interactive ones first,
    /// until no slot or no entry is left or the workers refuse.
    pub open spec fn dispatched(self, lanes: PhysicalView, config: RetirementConfig) -> DispatchView
        decreases self.interactive.len() + self.proactive.len(),
    {
        let stop = DispatchView {
            state: self,
            lanes,
            started: Seq::empty(),
            completions: Seq::empty(),
        };
        if self.counters.closed {
            stop
        } else {
            match self.next_entry(config) {
                None => stop,
                Some(priority) => {
                    let job = self.front(priority);
                    let popped = self.without_front(priority);
                    if !popped.dispatchable(job) {
                        popped.dispatched(lanes, config)
                    } else {
                        let attempt = popped.next_attempt(job);
                        match lanes.refusal(job.priority) {
                            Some(PhysicalSubmitError::Full) => DispatchView {
                                state: popped.queued_front(job),
                                ..stop
                            },
                            Some(PhysicalSubmitError::Closed) => DispatchView {
                                state: popped.settled_without_attempt(job),
                                completions: failed_ticket(job.ticket),
                                ..stop
                            },
                            None => {
                                let rest = popped.attempt_started(job).dispatched(
                                    lanes.queued(
                                        job.priority,
                                        PhysicalJob { stream: job.stream, attempt, mode: job.mode },
                                    ),
                                    config,
                                );
                                DispatchView {
                                    started: seq![StartedAttempt { job, attempt }] + rest.started,
                                    ..rest
                                }
                            },
                        }
                    }
                },
            }
        }
    }

    /// Whether a report belongs to the attempt that is running.
    pub open spec fn expects(self, event: WorkerEvent) -> bool {
        self.jobs.contains_key(event.id) && self.jobs[event.id].active_attempt == Some(
            event.attempt,
        )
    }

    /// The state once the slot of a reported attempt was given back.
    pub open spec fn slot_returned(self, event: WorkerEvent, wall_now: WallTime) -> Self {
        let record = self.jobs[event.id];
        let idle = self.with_record(
            event.id,
            JobRecord {
                active_attempt: None,
                first_attempt_completed: record.first_attempt_completed || event.attempt == 1,
                ..record
            },
        );
        CoordinatorView {
            counters: RetirementCounters {
                latest_cleanup_wall_time: Some(wall_now),
                latest_cleanup_duration: Some(event.duration),
                active_interactive: match record.job.priority {
                    RetirementPriority::Interactive => if self.counters.active_interactive == 0 {
                        0
                    } else {
                        (self.counters.active_interactive - 1) as usize
                    },
                    RetirementPriority::Proactive => self.counters.active_interactive,
                },
                active_proactive: match record.job.priority {
                    RetirementPriority::Interactive => self.counters.active_proactive,
                    RetirementPriority::Proactive => if self.counters.active_proactive == 0 {
                        0
                    } else {
                        (self.counters.active_proactive - 1) as usize
                    },
                },
                ..self.counters
            },
            ..idle
        }
    }

    /// The state after a successful attempt.
    pub open spec fn attempt_succeeded(
        self,
        job: Job,
        event: WorkerEvent,
        wall_now: WallTime,
        reclaimed: u64,
        disposition: LocalCleanupDisposition,
    ) -> Self {
        let shorter = self.without_job(event.id);
        let counted = CoordinatorView {
            counters: RetirementCounters {
                terminal_successes: sat_inc(shorter.counters.terminal_successes),
                reclaimed_local_bytes: sat_plus(
                    shorter.counters.reclaimed_local_bytes,
                    reclaimed as int,
                ),
                last_successful_cleanup_wall_time: Some(wall_now),
                last_successful_cleanup_duration: Some(event.duration),
                first_attempt_successes: if event.attempt == 1 {
                    sat_inc(shorter.counters.first_attempt_successes)
                } else {
                    shorter.counters.first_attempt_successes
                },
                ..shorter.counters
            },
            ..shorter
        };
        let unfenced = if disposition == LocalCleanupDisposition::HardReaped {
            counted.without_fence(job.stream)
        } else {
            counted
        };
        unfenced.with_retirement(
            job.stream.instance,
            self.retirement_of(job.stream.instance).finished(job.ticket),
        )
    }

    /// The state after a failed attempt that will be tried again.
    pub open spec fn attempt_retried(
        self,
        event: WorkerEvent,
        config: RetirementConfig,
        now: Moment,
    ) -> Self {
        let sequence = wrap_inc(self.counters.next_retry_sequence);
        let due = Moment {
            nanos: min_int(
                now.nanos + backoff_nanos(event.attempt, config.retry_base.nanos as int),
                u128::MAX as int,
            ) as u128,
        };
        let waiting = self.with_record(
            event.id,
            JobRecord { retry_scheduled: true, ..self.jobs[event.id] },
        );
        CoordinatorView {
            retries: with_retry(self.retries, ScheduledRetry { due, sequence, id: event.id }),
            counters: RetirementCounters {
                next_retry_sequence: sequence,
                first_attempt_failures: if event.attempt == 1 {
                    sat_inc(self.counters.first_attempt_failures)
                } else {
                    self.counters.first_attempt_failures
                },
                ..self.counters
            },
            ..waiting
        }
    }

    /// The state after the last attempt failed.
    pub open spec fn attempt_failed(
        self,
        job: Job,
        event: WorkerEvent,
        config: RetirementConfig,
        now: Moment,
        wall_now: WallTime,
    ) -> Self {
        let shorter = self.without_job(event.id);
        let counted = CoordinatorView {
            counters: RetirementCounters {
                terminal_failures: sat_inc(shorter.counters.terminal_failures),
                terminal_cleanup_failed_current: sat_inc(
                    shorter.counters.terminal_cleanup_failed_current,
                ),
                first_attempt_failures: if event.attempt == 1 {
                    sat_inc(shorter.counters.first_attempt_failures)
                } else {
                    shorter.counters.first_attempt_failures
                },
                ..shorter.counters
            },
            ..shorter
        };
        counted.with_fence_failure(job.mode, job.stream).with_retirement(
            job.stream.instance,
            self.retirement_of(job.stream.instance).failed(
                job.ticket,
                now,
                wall_now,
                config.cooldown,
            ),
        )
    }

    /// The state after an attempt was cancelled.
    pub open spec fn attempt_cancelled(self, job: Job, event: WorkerEvent) -> Self {
        let shorter = self.without_job(event.id);
        CoordinatorView {
            counters: RetirementCounters {
                terminal_cancellations: sat_inc(shorter.counters.terminal_cancellations),
                first_attempt_cancellations: if event.attempt == 1 {
                    sat_inc(shorter.counters.first_attempt_cancellations)
                } else {
                    shorter.counters.first_attempt_cancellations
                },
                ..shorter.counters
            },
            ..shorter
        }.with_retirement(
            job.stream.instance,
            self.retirement_of(job.stream.instance).finished(job.ticket),
        )
    }

    /// A worker's report at `now`: the next state and what follows from it. A
    /// report that no running attempt expects changes nothing.
    pub open spec fn attempt_finished(
        self,
        config: RetirementConfig,
        event: WorkerEvent,
        now: Moment,
        wall_now: WallTime,
    ) -> (Self, Option<AttemptEffectsView>) {
        if !self.expects(event) {
            (self, None)
        } else {
            let job = self.jobs[event.id].job;
            let idle = self.slot_returned(event, wall_now);
            let expiry = job.mode == LocalCleanupMode::Expiry;
            let effects = AttemptEffectsView {
                completions: attempt_completions(job.ticket, event),
                cleanup_telemetry: cleanup_telemetry_of(job.mode, event.result, event.duration),
                expiry_retry: false,
                expiry_failed: false,
            };
            match event.result {
                PhysicalAttemptResult::Succeeded { reclaimed_local_bytes, disposition } => (
                    idle.attempt_succeeded(
                        job,
                        event,
                        wall_now,
                        reclaimed_local_bytes,
                        disposition,
                    ),
                    Some(effects),
                ),
                PhysicalAttemptResult::Cancelled => (
                    idle.attempt_cancelled(job, event),
                    Some(effects),
                ),
                PhysicalAttemptResult::Failed | PhysicalAttemptResult::Panicked => {
                    if event.attempt < MAX_CLEANUP_ATTEMPTS {
                        (
                            idle.attempt_retried(event, config, now),
                            Some(AttemptEffectsView { expiry_retry: expiry, ..effects }),
                        )
                    } else {
                        (
                            idle.attempt_failed(job, event, config, now, wall_now),
                            Some(AttemptEffectsView { expiry_failed: expiry, ..effects }),
                        )
                    }
                },
            }
        }
    }
}

/// The completions of a ticket that was cancelled.
pub open spec fn cancelled_ticket(ticket: RetirementTicket) -> Seq<TicketCompletion> {
    seq![
        TicketCompletion::Logical { ticket, result: LogicalCompletion::Cancelled },
        TicketCompletion::FirstAttempt { ticket, result: FirstAttemptCompletion::Cancelled },
        TicketCompletion::Terminal { ticket, result: TerminalCleanupCompletion::Cancelled },
    ]
}

/// The completions of a ticket whose work can no longer be attempted.
pub open spec fn failed_ticket(ticket: RetirementTicket) -> Seq<TicketCompletion> {
    seq![
        TicketCompletion::FirstAttempt { ticket, result: FirstAttemptCompletion::Failed },
        TicketCompletion::Terminal { ticket, result: TerminalCleanupCompletion::Failed },
    ]
}

/// The completions that one report publishes: the first attempt's result with
/// the first report, and the terminal result unless a retry follows.
pub open spec fn attempt_completions(ticket: RetirementTicket, event: WorkerEvent) -> Seq<
    TicketCompletion,
> {
    let first = match event.result {
        PhysicalAttemptResult::Succeeded { reclaimed_local_bytes, disposition } =>
            FirstAttemptCompletion::Succeeded { reclaimed_local_bytes },
        PhysicalAttemptResult::Failed | PhysicalAttemptResult::Panicked =>
            FirstAttemptCompletion::Failed,
        PhysicalAttemptResult::Cancelled => FirstAttemptCompletion::Cancelled,
    };
    let opening = if event.attempt == 1 {
        seq![TicketCompletion::FirstAttempt { ticket, result: first }]
    } else {
        Seq::empty()
    };
    match event.result {
        PhysicalAttemptResult::Succeeded { reclaimed_local_bytes, disposition } => opening.push(
            TicketCompletion::Terminal {
                ticket,
                result: TerminalCleanupCompletion::Succeeded { reclaimed_local_bytes },
            },
        ),
        PhysicalAttemptResult::Cancelled => opening.push(
            TicketCompletion::Terminal { ticket, result: TerminalCleanupCompletion::Cancelled },
        ),
        PhysicalAttemptResult::Failed | PhysicalAttemptResult::Panicked => {
            if event.attempt < MAX_CLEANUP_ATTEMPTS {
                opening
            } else {
                opening.push(
                    TicketCompletion::Terminal {
                        ticket,
                        result: TerminalCleanupCompletion::Failed,
                    },
                )
            }
        },
    }
}

impl CoordinatorView {
    /// Dropping a retained job together with its reservation keeps the
    /// correspondence, once no attempt of it is running.
    pub proof fn lemma_job_ended(self, config: RetirementConfig, id: u64, state: RetirementState)
        requires
            self.wf(config),
            self.jobs.contains_key(id),
            self.jobs[id].active_attempt is None,
            state.ticket is None,
        ensures
            self.without_job(id).with_retirement(self.jobs[id].job.stream.instance, state).wf(
                config,
            ),
    {
        let job = self.jobs[id].job;
        let instance = job.stream.instance;
        let after = self.without_job(id).with_retirement(instance, state);
        assert(self.record_ok(id));
        lemma_without_key(self.admitted, job.ticket.id);
        lemma_count_remove(self.jobs, id, is_active(RetirementPriority::Interactive));
        lemma_count_remove(self.jobs, id, is_active(RetirementPriority::Proactive));
        lemma_count_remove(self.jobs, id, is_expiry());
        assert forall|other: u64| #[trigger] after.jobs.contains_key(other) implies after.record_ok(
            other,
        ) by {
            assert(self.jobs.contains_key(other));
            assert(self.record_ok(other));
            let kept = self.jobs[other].job;
            if kept.ticket.id == job.ticket.id {
                assert(value_of(self.admitted, kept.ticket.id).id == other);
            }
            assert(kept.stream.instance != instance) by {
                if kept.stream.instance == instance {
                    assert(self.retirement_of(instance).ticket == Some(kept.ticket));
                }
            }
        }
        assert forall|ticket: u64| #[trigger] has_key(
            after.admitted,
            ticket,
        ) implies after.admission_ok(ticket) by {
            assert(ticket != job.ticket.id);
            assert(has_key(self.admitted, ticket));
            assert(self.admission_ok(ticket));
        }
        assert forall|other: u64| #[trigger] after.retirement.contains_key(
            other,
        ) implies after.retirement_ok(other) by {
            if other != instance {
                assert(self.retirement.contains_key(other));
                assert(self.retirement_ok(other));
                if self.retirement[other].ticket is Some {
                    let ticket = self.retirement[other].ticket->0;
                    assert(has_key(self.admitted, ticket.id));
                    assert(self.admission_ok(ticket.id));
                    if ticket.id == job.ticket.id {
                        assert(value_of(self.admitted, ticket.id).id == id);
                    }
                }
            }
        }
        assert forall|i: int| 0 <= i < after.interactive.len() implies after.entry_in(#[trigger] after.interactive[i], RetirementPriority::Interactive) by {
            assert(self.entry_in(self.interactive[i], RetirementPriority::Interactive));
        }
        assert forall|i: int| 0 <= i < after.proactive.len() implies after.entry_in(#[trigger] after.proactive[i], RetirementPriority::Proactive) by {
            assert(self.entry_in(self.proactive[i], RetirementPriority::Proactive));
        }
    }

    /// Changing a record without touching its job keeps the correspondence,
    /// given counters that match.
    pub proof fn lemma_record_changed(
        self,
        config: RetirementConfig,
        id: u64,
        record: JobRecord,
        counters: RetirementCounters,
    )
        requires
            self.wf(config),
            self.jobs.contains_key(id),
            record.job == self.jobs[id].job,
            record.active_attempt is Some ==> record.logical_released,
            counters.next_admission_sequence == self.counters.next_admission_sequence,
            counters.expiry_jobs == self.counters.expiry_jobs,
            counters.closed == self.counters.closed,
            counters.expiry_terminal_cleanup_failed_current
                == self.counters.expiry_terminal_cleanup_failed_current,
            counters.active_interactive == self.counters.active_interactive + (if is_active(
                RetirementPriority::Interactive,
            )(record) {
                1int
            } else {
                0
            }) - (if is_active(RetirementPriority::Interactive)(self.jobs[id]) {
                1int
            } else {
                0
            }),
            counters.active_proactive == self.counters.active_proactive + (if is_active(
                RetirementPriority::Proactive,
            )(record) {
                1int
            } else {
                0
            }) - (if is_active(RetirementPriority::Proactive)(self.jobs[id]) {
                1int
            } else {
                0
            }),
            counters.active_interactive + counters.active_proactive <= config.coordinator_capacity,
            counters.active_proactive <= config.proactive_coordinator_capacity,
        ensures
            (CoordinatorView { counters, ..self.with_record(id, record) }).wf(config),
    {
        let after = CoordinatorView { counters, ..self.with_record(id, record) };
        lemma_count_insert(self.jobs, id, record, is_active(RetirementPriority::Interactive));
        lemma_count_insert(self.jobs, id, record, is_active(RetirementPriority::Proactive));
        lemma_count_insert(self.jobs, id, record, is_expiry());
        assert(after.jobs.len() == self.jobs.len());
        assert forall|other: u64| #[trigger] after.jobs.contains_key(other) implies after.record_ok(
            other,
        ) by {
            assert(self.jobs.contains_key(other));
            assert(self.record_ok(other));
        }
        assert forall|ticket: u64| #[trigger] has_key(
            after.admitted,
            ticket,
        ) implies after.admission_ok(ticket) by {
            assert(self.admission_ok(ticket));
        }
        assert forall|instance: u64| #[trigger] after.retirement.contains_key(
            instance,
        ) implies after.retirement_ok(instance) by {
            assert(self.retirement_ok(instance));
            if self.retirement[instance].ticket is Some {
                assert(self.admission_ok(self.retirement[instance].ticket->0.id));
            }
        }
        assert forall|i: int| 0 <= i < after.interactive.len() implies after.entry_in(#[trigger] after.interactive[i], RetirementPriority::Interactive) by {
            assert(self.entry_in(self.interactive[i], RetirementPriority::Interactive));
        }
        assert forall|i: int| 0 <= i < after.proactive.len() implies after.entry_in(#[trigger] after.proactive[i], RetirementPriority::Proactive) by {
            assert(self.entry_in(self.proactive[i], RetirementPriority::Proactive));
        }
    }

    /// Changing a reservation without touching its ticket keeps the
    /// correspondence.
    pub proof fn lemma_retirement_changed(
        self,
        config: RetirementConfig,
        instance: u64,
        state: RetirementState,
    )
        requires
            self.wf(config),
            state.ticket == self.retirement_of(instance).ticket,
        ensures
            self.with_retirement(instance, state).wf(config),
    {
        let after = self.with_retirement(instance, state);
        assert forall|other: u64| #[trigger] after.jobs.contains_key(other) implies after.record_ok(
            other,
        ) by {
            assert(self.record_ok(other));
        }
        assert forall|ticket: u64| #[trigger] has_key(
            after.admitted,
            ticket,
        ) implies after.admission_ok(ticket) by {
            assert(self.admission_ok(ticket));
        }
        assert forall|other: u64| #[trigger] after.retirement.contains_key(
            other,
        ) implies after.retirement_ok(other) by {
            if self.retirement.contains_key(other) {
                assert(self.retirement_ok(other));
            }
        }
        assert forall|i: int| 0 <= i < after.interactive.len() implies after.entry_in(#[trigger] after.interactive[i], RetirementPriority::Interactive) by {
            assert(self.entry_in(self.interactive[i], RetirementPriority::Interactive));
        }
        assert forall|i: int| 0 <= i < after.proactive.len() implies after.entry_in(#[trigger] after.proactive[i], RetirementPriority::Proactive) by {
            assert(self.entry_in(self.proactive[i], RetirementPriority::Proactive));
        }
    }

    /// Changing queues, retries, fences and plain counters keeps the
    /// correspondence.
    pub proof fn lemma_rest_changed(self, config: RetirementConfig, after: CoordinatorView)
        requires
            self.wf(config),
            after.jobs == self.jobs,
            after.admitted == self.admitted,
            after.retirement == self.retirement,
            keys_distinct(after.fences),
            forall|id: u64| #[trigger]
                has_key(after.fences, id) ==> value_of(after.fences, id).stream.id == id,
            after.fences.len() <= u64::MAX,
            after.counters.expiry_terminal_cleanup_failed_current == failed_fences(after.fences),
            forall|i: int|
                0 <= i < after.interactive.len() ==> self.entry_in(#[trigger] after.interactive[i], RetirementPriority::Interactive),
            forall|i: int|
                0 <= i < after.proactive.len() ==> self.entry_in(#[trigger] after.proactive[i], RetirementPriority::Proactive),
            retries_ordered(after.retries),
            after.counters.next_admission_sequence == self.counters.next_admission_sequence,
            after.counters.expiry_jobs == self.counters.expiry_jobs,
            after.counters.active_interactive == self.counters.active_interactive,
            after.counters.active_proactive == self.counters.active_proactive,
            after.counters.closed ==> self.counters.closed && after.drained(),
        ensures
            after.wf(config),
    {
        assert forall|other: u64| #[trigger] after.jobs.contains_key(other) implies after.record_ok(
            other,
        ) by {
            assert(self.record_ok(other));
        }
        assert forall|ticket: u64| #[trigger] has_key(
            after.admitted,
            ticket,
        ) implies after.admission_ok(ticket) by {
            assert(self.admission_ok(ticket));
        }
        assert forall|other: u64| #[trigger] after.retirement.contains_key(
            other,
        ) implies after.retirement_ok(other) by {
            assert(self.retirement_ok(other));
        }
        assert forall|i: int| 0 <= i < after.interactive.len() implies after.entry_in(#[trigger] after.interactive[i], RetirementPriority::Interactive) by {
            assert(self.entry_in(after.interactive[i], RetirementPriority::Interactive));
        }
        assert forall|i: int| 0 <= i < after.proactive.len() implies after.entry_in(#[trigger] after.proactive[i], RetirementPriority::Proactive) by {
            assert(self.entry_in(after.proactive[i], RetirementPriority::Proactive));
        }
    }

    /// Every fence operation keeps the correspondence.
    pub proof fn lemma_fences_changed(
        self,
        config: RetirementConfig,
        stream: StreamIdentity,
        now: Moment,
        mode: LocalCleanupMode,
    )
        requires
            self.wf(config),
            !self.counters.closed,
        ensures
            self.without_fence_id(stream.id).wf(config),
            self.without_fence(stream).wf(config),
            self.with_fence(stream, now).fences.len() <= u64::MAX ==> self.with_fence(
                stream,
                now,
            ).wf(config),
            self.with_fence_failure(mode, stream).wf(config),
            self.with_fence_failure_cleared(stream).wf(config),
    {
        let id = stream.id;
        lemma_without_key(self.fences, id);
        let removed = self.without_fence_id(id);
        assert forall|other: u64| #[trigger] has_key(removed.fences, other) implies value_of(
            removed.fences,
            other,
        ).stream.id == other by {
            assert(has_key(self.fences, other));
        }
        lemma_failed_bound(self.fences);
        if has_key(self.fences, id) {
            let p = position_of(self.fences, id);
            let value = self.fences[p].1;
            lemma_failed_removed(self.fences, p);
            lemma_failed_updated(
                self.fences,
                p,
                (id, ExpiryFence { terminal_failure: true, ..value }),
            );
            lemma_failed_updated(
                self.fences,
                p,
                (id, ExpiryFence { terminal_failure: false, ..value }),
            );
        }
        self.lemma_rest_changed(config, removed);
        if !self.fence_matches(stream) {
            let fence = ExpiryFence { stream, fenced_at: now, terminal_failure: false };
            lemma_push_key(removed.fences, id, fence);
            let marked = self.with_fence(stream, now);
            assert(marked.fences.drop_last() =~= removed.fences);
            assert forall|other: u64| #[trigger] has_key(marked.fences, other) implies value_of(
                marked.fences,
                other,
            ).stream.id == other by {
                if other != id {
                    assert(has_key(removed.fences, other));
                }
            }
            if marked.fences.len() <= u64::MAX {
                self.lemma_rest_changed(config, marked);
            }
        } else {
            let value = value_of(self.fences, id);
            let failed = ExpiryFence { terminal_failure: true, ..value };
            let clear = ExpiryFence { terminal_failure: false, ..value };
            lemma_with_value(self.fences, id, failed);
            lemma_with_value(self.fences, id, clear);
            let a = self.with_fence_failure(mode, stream);
            let b = self.with_fence_failure_cleared(stream);
            assert forall|other: u64| #[trigger] has_key(a.fences, other) implies value_of(
                a.fences,
                other,
            ).stream.id == other by {
                assert(has_key(self.fences, other));
            }
            assert forall|other: u64| #[trigger] has_key(b.fences, other) implies value_of(
                b.fences,
                other,
            ).stream.id == other by {
                assert(has_key(self.fences, other));
            }
            self.lemma_rest_changed(config, a);
            self.lemma_rest_changed(config, b);
        }
    }

    /// Adding a job for a stream that has none keeps the correspondence.
    pub proof fn lemma_job_added(
        self,
        config: RetirementConfig,
        stream: StreamIdentity,
        state: RetirementState,
        priority: RetirementPriority,
        mode: LocalCleanupMode,
        now: Moment,
    )
        requires
            self.wf(config),
            !self.counters.closed,
            self.counters.next_admission_sequence < u64::MAX,
            !self.jobs.contains_key(stream.id),
            self.jobs.len() < config.queue_capacity,
            self.retirement_of(stream.instance).ticket is None,
            state.ticket == Some(self.fresh_ticket()),
        ensures
            self.with_retirement(stream.instance, state).with_job(stream, priority, mode, now).wf(
                config,
            ),
    {
        let ticket = self.fresh_ticket();
        let after = self.with_retirement(stream.instance, state).with_job(
            stream,
            priority,
            mode,
            now,
        );
        let record = after.jobs[stream.id];
        assert(!has_key(self.admitted, ticket.id)) by {
            if has_key(self.admitted, ticket.id) {
                assert(self.admission_ok(ticket.id));
                let id = value_of(self.admitted, ticket.id).id;
                assert(self.record_ok(id));
            }
        }
        let admission = Admission { id: stream.id, admitted_at: now };
        lemma_push_key(self.admitted, ticket.id, admission);
        lemma_count_insert(self.jobs, stream.id, record, is_active(RetirementPriority::Interactive));
        lemma_count_insert(self.jobs, stream.id, record, is_active(RetirementPriority::Proactive));
        lemma_count_insert(self.jobs, stream.id, record, is_expiry());
        assert forall|other: u64| #[trigger] after.jobs.contains_key(other) implies after.record_ok(
            other,
        ) by {
            if other != stream.id {
                assert(self.jobs.contains_key(other));
                assert(self.record_ok(other));
            }
        }
        assert forall|t: u64| #[trigger] has_key(after.admitted, t) implies after.admission_ok(
            t,
        ) by {
            if t != ticket.id {
                assert(has_key(self.admitted, t));
                assert(self.admission_ok(t));
            }
        }
        assert forall|other: u64| #[trigger] after.retirement.contains_key(
            other,
        ) implies after.retirement_ok(other) by {
            if other != stream.instance {
                assert(self.retirement.contains_key(other));
                assert(self.retirement_ok(other));
                if self.retirement[other].ticket is Some {
                    assert(self.admission_ok(self.retirement[other].ticket->0.id));
                }
            }
        }
        assert forall|i: int| 0 <= i < after.interactive.len() implies after.entry_in(#[trigger] after.interactive[i], RetirementPriority::Interactive) by {
            assert(self.entry_in(self.interactive[i], RetirementPriority::Interactive));
        }
        assert forall|i: int| 0 <= i < after.proactive.len() implies after.entry_in(#[trigger] after.proactive[i], RetirementPriority::Proactive) by {
            assert(self.entry_in(self.proactive[i], RetirementPriority::Proactive));
        }
    }

    /// An admission keeps the correspondence.
    pub proof fn lemma_admission_wf(
        self,
        config: RetirementConfig,
        stream: StreamIdentity,
        priority: RetirementPriority,
        mode: LocalCleanupMode,
        now: Moment,
    )
        requires
            self.wf(config),
            self.counters.next_admission_sequence < u64::MAX,
        ensures
            self.admission(config, stream, priority, mode, now).0.wf(config),
    {
        let before = self.retirement_of(stream.instance);
        let (reserved, answer) = before.reserved(now, self.fresh_ticket());
        if !self.counters.closed {
            match answer {
                RetirementReservation::Existing(ticket) => {
                    self.lemma_retirement_changed(config, stream.instance, reserved);
                },
                RetirementReservation::CoolingDown => {},
                RetirementReservation::New(ticket) => {
                    let counted = CoordinatorView {
                        counters: RetirementCounters {
                            terminal_cleanup_failed_current: sat_dec(
                                self.counters.terminal_cleanup_failed_current,
                            ),
                            ..self.counters
                        },
                        ..self
                    };
                    self.lemma_rest_changed(config, counted);
                    counted.lemma_fences_changed(config, stream, now, mode);
                    let thawed = if before.cleanup_failed_at is Some {
                        counted.with_fence_failure_cleared(stream)
                    } else {
                        self
                    };
                    thawed.lemma_retirement_changed(
                        config,
                        stream.instance,
                        RetirementState::clean(),
                    );
                    if !self.jobs.contains_key(stream.id) && self.jobs.len()
                        < config.queue_capacity {
                        thawed.lemma_job_added(config, stream, reserved, priority, mode, now);
                    }
                },
            }
        }
    }

    /// A logical release keeps the correspondence.
    pub proof fn lemma_released_wf(
        self,
        config: RetirementConfig,
        stream: StreamIdentity,
        ticket: RetirementTicket,
    )
        requires
            self.wf(config),
            self.prelogical(stream, ticket),
        ensures
            self.released(stream).wf(config),
    {
        let record = self.jobs[stream.id];
        let changed = JobRecord { logical_released: true, ..record };
        assert(self.record_ok(stream.id));
        self.lemma_record_changed(config, stream.id, changed, self.counters);
        let marked = CoordinatorView {
            counters: self.counters,
            ..self.with_record(stream.id, changed)
        };
        assert(marked =~= self.with_record(stream.id, changed));
        marked.lemma_queued_back_wf(config, record.job);
    }

    /// Putting a retained job in line keeps the correspondence.
    pub proof fn lemma_queued_back_wf(self, config: RetirementConfig, job: Job)
        requires
            self.wf(config),
            !self.counters.closed || !self.drained(),
            self.entry_ok(job),
        ensures
            self.queued_back(job).wf(config),
            self.queued_front(job).wf(config),
    {
        let back = self.queued_back(job);
        let front = self.queued_front(job);
        assert forall|i: int| 0 <= i < back.interactive.len() implies self.entry_in(#[trigger] back.interactive[i], RetirementPriority::Interactive) by {
            if i < self.interactive.len() {
                assert(back.interactive[i] == self.interactive[i]);
            }
        }
        assert forall|i: int| 0 <= i < back.proactive.len() implies self.entry_in(#[trigger] back.proactive[i], RetirementPriority::Proactive) by {
            if i < self.proactive.len() {
                assert(back.proactive[i] == self.proactive[i]);
            }
        }
        assert forall|i: int| 0 <= i < front.interactive.len() implies self.entry_in(#[trigger] front.interactive[i], RetirementPriority::Interactive) by {
            if job.priority == RetirementPriority::Interactive && i > 0 {
                assert(front.interactive[i] == self.interactive[i - 1]);
            }
        }
        assert forall|i: int| 0 <= i < front.proactive.len() implies self.entry_in(#[trigger] front.proactive[i], RetirementPriority::Proactive) by {
            if job.priority == RetirementPriority::Proactive && i > 0 {
                assert(front.proactive[i] == self.proactive[i - 1]);
            }
        }
        self.lemma_rest_changed(config, back);
        self.lemma_rest_changed(config, front);
    }

    /// A cancellation before the release keeps the correspondence.
    pub proof fn lemma_prelogical_cancelled_wf(
        self,
        config: RetirementConfig,
        stream: StreamIdentity,
        ticket: RetirementTicket,
    )
        requires
            self.wf(config),
            self.prelogical(stream, ticket),
        ensures
            self.prelogical_cancelled(stream, ticket).wf(config),
    {
        assert(self.record_ok(stream.id));
        let state = self.retirement_of(stream.instance).finished(ticket);
        self.lemma_job_ended(config, stream.id, state);
        let shorter = self.without_job(stream.id).with_retirement(stream.instance, state);
        shorter.lemma_rest_changed(config, self.prelogical_cancelled(stream, ticket));
    }

    /// Cancelling everything keeps the correspondence and leaves nothing.
    pub proof fn lemma_all_cancelled_wf(self, config: RetirementConfig)
        requires
            self.wf(config),
        ensures
            self.all_cancelled().wf(config),
            self.all_cancelled().drained(),
    {
        lemma_count_empty(is_active(RetirementPriority::Interactive));
        lemma_count_empty(is_active(RetirementPriority::Proactive));
        lemma_count_empty(is_expiry());
    }

    /// Putting due retries back in line keeps the correspondence.
    pub proof fn lemma_due_step_wf(self, config: RetirementConfig)
        requires
            self.wf(config),
            self.retries.len() > 0,
        ensures
            ({
                let id = self.retries[0].id;
                let popped = CoordinatorView { retries: self.retries.skip(1), ..self };
                let record = self.jobs[id];
                &&& popped.wf(config)
                &&& self.jobs.contains_key(id) ==> popped.with_record(
                    id,
                    JobRecord { retry_scheduled: false, ..record },
                ).queued_back(record.job).wf(config)
            }),
    {
        let id = self.retries[0].id;
        let popped = CoordinatorView { retries: self.retries.skip(1), ..self };
        assert forall|i: int, j: int| 0 <= i < j < popped.retries.len() implies !retry_before(
            #[trigger] popped.retries[j],
            #[trigger] popped.retries[i],
        ) by {
            assert(popped.retries[j] == self.retries[j + 1]);
            assert(popped.retries[i] == self.retries[i + 1]);
        }
        self.lemma_rest_changed(config, popped);
        if self.jobs.contains_key(id) {
            let record = self.jobs[id];
            let changed = JobRecord { retry_scheduled: false, ..record };
            assert(popped.record_ok(id));
            popped.lemma_record_changed(config, id, changed, popped.counters);
            let marked = popped.with_record(id, changed);
            assert(marked =~= (CoordinatorView { counters: popped.counters, ..marked }));
            marked.lemma_queued_back_wf(config, record.job);
        }
    }

    /// Starting an attempt keeps the correspondence.
    pub proof fn lemma_attempt_started_wf(self, config: RetirementConfig, job: Job)
        requires
            self.wf(config),
            self.dispatchable(job),
            self.entry_ok(job),
            self.counters.active_interactive + self.counters.active_proactive
                < config.coordinator_capacity,
            job.priority == RetirementPriority::Proactive ==> self.counters.active_proactive
                < config.proactive_coordinator_capacity,
        ensures
            self.attempt_started(job).wf(config),
    {
        let id = job.stream.id;
        let instance = job.stream.instance;
        let attempt = self.next_attempt(job);
        let state = RetirementState { attempts: attempt, ..self.retirement_of(instance) };
        self.lemma_retirement_changed(config, instance, state);
        let noted = self.with_retirement(instance, state);
        let after = self.attempt_started(job);
        let record = JobRecord { active_attempt: Some(attempt), ..self.jobs[id] };
        noted.lemma_record_changed(config, id, record, after.counters);
        assert(after =~= (CoordinatorView {
            counters: after.counters,
            ..noted.with_record(id, record)
        }));
    }

    /// Giving up a job keeps the correspondence.
    pub proof fn lemma_settled_wf(self, config: RetirementConfig, job: Job)
        requires
            self.wf(config),
            self.dispatchable(job),
            self.entry_ok(job),
        ensures
            self.settled_without_attempt(job).wf(config),
    {
        let id = job.stream.id;
        assert(self.record_ok(id));
        let state = self.retirement_of(job.stream.instance).finished(job.ticket);
        self.lemma_job_ended(config, id, state);
        let shorter = self.without_job(id).with_retirement(job.stream.instance, state);
        shorter.lemma_rest_changed(config, self.settled_without_attempt(job));
    }

    /// Taking a queue entry keeps the correspondence.
    pub proof fn lemma_without_front_wf(
        self,
        config: RetirementConfig,
        priority: RetirementPriority,
    )
        requires
            self.wf(config),
            self.next_entry(config) == Some(priority),
        ensures
            self.without_front(priority).wf(config),
            self.without_front(priority).entry_in(self.front(priority), priority),
    {
        let after = self.without_front(priority);
        assert(self.entry_in(self.front(priority), priority));
        assert forall|i: int| 0 <= i < after.interactive.len() implies self.entry_in(#[trigger] after.interactive[i], RetirementPriority::Interactive) by {
            if priority == RetirementPriority::Interactive {
                assert(after.interactive[i] == self.interactive[i + 1]);
            }
        }
        assert forall|i: int| 0 <= i < after.proactive.len() implies self.entry_in(#[trigger] after.proactive[i], RetirementPriority::Proactive) by {
            if priority == RetirementPriority::Proactive {
                assert(after.proactive[i] == self.proactive[i + 1]);
            }
        }
        self.lemma_rest_changed(config, after);
    }

    /// Giving a slot back keeps the correspondence.
    pub proof fn lemma_slot_returned_wf(
        self,
        config: RetirementConfig,
        event: WorkerEvent,
        wall_now: WallTime,
    )
        requires
            self.wf(config),
            self.expects(event),
        ensures
            self.slot_returned(event, wall_now).wf(config),
    {
        let old_record = self.jobs[event.id];
        let record = JobRecord {
            active_attempt: None,
            first_attempt_completed: old_record.first_attempt_completed || event.attempt == 1,
            ..old_record
        };
        let after = self.slot_returned(event, wall_now);
        lemma_count_remove(self.jobs, event.id, is_active(RetirementPriority::Interactive));
        lemma_count_remove(self.jobs, event.id, is_active(RetirementPriority::Proactive));
        self.lemma_record_changed(config, event.id, record, after.counters);
        assert(after =~= (CoordinatorView {
            counters: after.counters,
            ..self.with_record(event.id, record)
        }));
    }

    /// A worker's report keeps the correspondence.
    pub proof fn lemma_attempt_finished_wf(
        self,
        config: RetirementConfig,
        event: WorkerEvent,
        now: Moment,
        wall_now: WallTime,
    )
        requires
            self.wf(config),
        ensures
            self.attempt_finished(config, event, now, wall_now).0.wf(config),
    {
        if self.expects(event) {
            let job = self.jobs[event.id].job;
            let idle = self.slot_returned(event, wall_now);
            self.lemma_slot_returned_wf(config, event, wall_now);
            assert(self.record_ok(event.id));
            assert(idle.record_ok(event.id));
            let instance = job.stream.instance;
            let done = idle.retirement_of(instance).finished(job.ticket);
            let cooled = idle.retirement_of(instance).failed(
                job.ticket,
                now,
                wall_now,
                config.cooldown,
            );
            idle.lemma_job_ended(config, event.id, done);
            idle.lemma_job_ended(config, event.id, cooled);
            let ended = idle.without_job(event.id).with_retirement(instance, done);
            let failed = idle.without_job(event.id).with_retirement(instance, cooled);
            match event.result {
                PhysicalAttemptResult::Succeeded { reclaimed_local_bytes, disposition } => {
                    let after = idle.attempt_succeeded(
                        job,
                        event,
                        wall_now,
                        reclaimed_local_bytes,
                        disposition,
                    );
                    ended.lemma_fences_changed(config, job.stream, now, job.mode);
                    let base = if disposition == LocalCleanupDisposition::HardReaped {
                        ended.without_fence(job.stream)
                    } else {
                        ended
                    };
                    base.lemma_rest_changed(config, after);
                },
                PhysicalAttemptResult::Cancelled => {
                    ended.lemma_rest_changed(config, idle.attempt_cancelled(job, event));
                },
                PhysicalAttemptResult::Failed | PhysicalAttemptResult::Panicked => {
                    if event.attempt < MAX_CLEANUP_ATTEMPTS {
                        let after = idle.attempt_retried(event, config, now);
                        let record = JobRecord {
                            retry_scheduled: true,
                            ..idle.jobs[event.id]
                        };
                        idle.lemma_record_changed(config, event.id, record, idle.counters);
                        let waiting = CoordinatorView {
                            counters: idle.counters,
                            ..idle.with_record(event.id, record)
                        };
                        lemma_with_retry_ordered(
                            idle.retries,
                            ScheduledRetry {
                                due: Moment {
                                    nanos: min_int(
                                        now.nanos + backoff_nanos(
                                            event.attempt,
                                            config.retry_base.nanos as int,
                                        ),
                                        u128::MAX as int,
                                    ) as u128,
                                },
                                sequence: wrap_inc(idle.counters.next_retry_sequence),
                                id: event.id,
                            },
                        );
                        waiting.lemma_rest_changed(config, after);
                    } else {
                        let after = idle.attempt_failed(job, event, config, now, wall_now);
                        failed.lemma_fences_changed(config, job.stream, now, job.mode);
                        failed.with_fence_failure(job.mode, job.stream).lemma_rest_changed(
                            config,
                            after,
                        );
                    }
                },
            }
        }
    }
}

} // verus!
