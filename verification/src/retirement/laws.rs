//! What holds of the coordinator across transitions.

use crate::clock::{min_int, Moment, WallTime};
use crate::retirement::foundation::{
    RetirementAdmission, RetirementConfig, RetirementPriority, RetirementState, RetirementTicket,
    MAX_CLEANUP_ATTEMPTS, RESERVED_INTERACTIVE_COORDINATOR_PERMITS,
};
use crate::retirement::index::{
    has_key, keys_distinct, lemma_position, lemma_without_key, position_of,
};
use crate::retirement::model::{
    lemma_failed_bound, CoordinatorView, RetirementAdmissionResult, WorkerEvent,
};
use crate::retirement::physical::{PhysicalAttemptResult, PhysicalView};
use crate::store::cleanup::LocalCleanupMode;
use crate::store::identity::StreamIdentity;
use vstd::prelude::*;

verus! {

/// Whatever is running, eight slots stay free of proactive work.
pub proof fn law_interactive_permits_are_reserved(
    state: CoordinatorView,
    config: RetirementConfig,
)
    requires
        config.valid(),
        state.wf(config),
    ensures
        state.counters.active_proactive + RESERVED_INTERACTIVE_COORDINATOR_PERMITS
            <= config.coordinator_capacity,
        state.counters.active_interactive + state.counters.active_proactive
            <= config.coordinator_capacity,
        state.jobs.len() <= config.queue_capacity,
{
}

/// A stream that is already admitted keeps its ticket, whoever asks again and
/// in whichever lane and mode.
pub proof fn law_duplicates_share_the_ticket(
    state: CoordinatorView,
    config: RetirementConfig,
    stream: StreamIdentity,
    priority: RetirementPriority,
    mode: LocalCleanupMode,
    now: Moment,
    later_priority: RetirementPriority,
    later_mode: LocalCleanupMode,
    later: Moment,
    ticket: RetirementTicket,
)
    requires
        state.wf(config),
        state.admission(config, stream, priority, mode, now).1
            == RetirementAdmissionResult::Admitted(ticket),
    ensures
        state.admission(config, stream, priority, mode, now).0.admission(
            config,
            stream,
            later_priority,
            later_mode,
            later,
        ).1 == RetirementAdmissionResult::Existing(ticket),
{
}

/// Cancelling an admission before its release leaves the jobs, the order of
/// admissions, the queues, the retries and the fences as they were, and the
/// stream as if it had never been admitted.
pub proof fn law_cancel_undoes_admission(
    state: CoordinatorView,
    config: RetirementConfig,
    stream: StreamIdentity,
    priority: RetirementPriority,
    mode: LocalCleanupMode,
    now: Moment,
    ticket: RetirementTicket,
)
    requires
        state.wf(config),
        state.counters.next_admission_sequence < u64::MAX,
        state.retirement_of(stream.instance) == RetirementState::clean(),
        state.admission(config, stream, priority, mode, now).1
            == RetirementAdmissionResult::Admitted(ticket),
    ensures
        ({
            let admitted = state.admission(config, stream, priority, mode, now).0;
            let undone = admitted.prelogical_cancelled(stream, ticket);
            &&& admitted.prelogical(stream, ticket)
            &&& undone.jobs == state.jobs
            &&& undone.admitted == state.admitted
            &&& undone.interactive == state.interactive
            &&& undone.proactive == state.proactive
            &&& undone.retries == state.retries
            &&& undone.fences == state.fences
            &&& undone.retirement_of(stream.instance) == RetirementState::clean()
            &&& undone.counters.expiry_jobs == state.counters.expiry_jobs
            &&& undone.counters.active_interactive == state.counters.active_interactive
            &&& undone.counters.active_proactive == state.counters.active_proactive
        }),
{
    let admitted = state.admission(config, stream, priority, mode, now).0;
    let undone = admitted.prelogical_cancelled(stream, ticket);
    state.lemma_admission_wf(config, stream, priority, mode, now);
    assert(undone.jobs =~= state.jobs);
    let last = state.admitted.len() as int;
    assert(admitted.admitted[last].0 == ticket.id);
    lemma_position(admitted.admitted, last);
    assert(admitted.admitted.remove(last) =~= state.admitted);
    crate::retirement::model::lemma_count_insert(
        state.jobs,
        stream.id,
        admitted.jobs[stream.id],
        crate::retirement::model::is_expiry(),
    );
}

/// Only one release of an admission takes effect, and none after it can be
/// taken back.
pub proof fn law_release_happens_once(
    state: CoordinatorView,
    stream: StreamIdentity,
    ticket: RetirementTicket,
)
    requires
        state.prelogical(stream, ticket),
    ensures
        !state.released(stream).prelogical(stream, ticket),
{
}

/// A closed coordinator admits nothing, expects no report and starts nothing.
pub proof fn law_closed_is_final(
    state: CoordinatorView,
    config: RetirementConfig,
    lanes: PhysicalView,
    stream: StreamIdentity,
    priority: RetirementPriority,
    mode: LocalCleanupMode,
    event: WorkerEvent,
    now: Moment,
    wall_now: WallTime,
)
    requires
        state.wf(config),
        state.counters.closed,
    ensures
        state.admission(config, stream, priority, mode, now) == (
            state,
            RetirementAdmissionResult::Rejected(RetirementAdmission::ShuttingDown),
        ),
        state.attempt_finished(config, event, now, wall_now).0 == state,
        state.attempt_finished(config, event, now, wall_now).1 is None,
        state.due_enqueued(now) == state,
        state.dispatched(lanes, config).state == state,
        state.dispatched(lanes, config).started.len() == 0,
        state.all_cancelled() == state,
{
}

/// Cancelling everything a second time changes nothing.
pub proof fn law_cancel_all_is_idempotent(state: CoordinatorView)
    ensures
        state.all_cancelled().all_cancelled() == state.all_cancelled(),
{
}

/// A report for an attempt that is not running, from before a cancellation or a
/// shutdown, touches no counter and no time.
pub proof fn law_stale_report_is_inert(
    state: CoordinatorView,
    config: RetirementConfig,
    event: WorkerEvent,
    now: Moment,
    wall_now: WallTime,
)
    requires
        !state.expects(event),
    ensures
        state.attempt_finished(config, event, now, wall_now).0 == state,
{
}

/// One report is accepted once: the same report again is stale, and so is it
/// after everything was cancelled.
pub proof fn law_report_is_accepted_once(
    state: CoordinatorView,
    config: RetirementConfig,
    event: WorkerEvent,
    now: Moment,
    wall_now: WallTime,
)
    requires
        state.wf(config),
    ensures
        !state.attempt_finished(config, event, now, wall_now).0.expects(event),
        !state.all_cancelled().expects(event),
{
    if state.counters.closed {
        assert(state.jobs =~= Map::empty());
    }
}

/// No stream is attempted more often than the limit: the report of the last
/// allowed attempt ends the job, whatever it says.
pub proof fn law_attempts_are_bounded(
    state: CoordinatorView,
    config: RetirementConfig,
    event: WorkerEvent,
    now: Moment,
    wall_now: WallTime,
)
    requires
        state.expects(event),
        event.attempt >= MAX_CLEANUP_ATTEMPTS,
    ensures
        !state.attempt_finished(config, event, now, wall_now).0.jobs.contains_key(event.id),
{
}

/// A failure before the limit keeps the job and schedules exactly one retry
/// for it.
pub proof fn law_failure_before_the_limit_retries(
    state: CoordinatorView,
    config: RetirementConfig,
    event: WorkerEvent,
    now: Moment,
    wall_now: WallTime,
)
    requires
        state.wf(config),
        state.expects(event),
        event.attempt < MAX_CLEANUP_ATTEMPTS,
        event.result == PhysicalAttemptResult::Failed || event.result
            == PhysicalAttemptResult::Panicked,
    ensures
        ({
            let after = state.attempt_finished(config, event, now, wall_now).0;
            &&& after.jobs.contains_key(event.id)
            &&& after.jobs[event.id].retry_scheduled
            &&& after.jobs[event.id].job == state.jobs[event.id].job
            &&& after.retries.len() == state.retries.len() + 1
        }),
{
    let idle = state.slot_returned(event, wall_now);
    crate::retirement::model::lemma_retry_slot(
        idle.retries,
        crate::retirement::model::ScheduledRetry {
            due: Moment {
                nanos: crate::clock::min_int(
                    now.nanos + crate::retirement::foundation::backoff_nanos(
                        event.attempt,
                        config.retry_base.nanos as int,
                    ),
                    u128::MAX as int,
                ) as u128,
            },
            sequence: crate::retirement::model::wrap_inc(idle.counters.next_retry_sequence),
            id: event.id,
        },
    );
}

/// A stream whose last attempt failed is refused until its cooldown is over,
/// without any change. From then on its next admission gets a ticket of its own,
/// other than the one that failed; the failure is forgotten, and whoever asks
/// again shares the new ticket.
pub proof fn law_failed_stream_cools_down(
    state: CoordinatorView,
    config: RetirementConfig,
    event: WorkerEvent,
    failed_at: Moment,
    wall_now: WallTime,
    priority: RetirementPriority,
    mode: LocalCleanupMode,
    now: Moment,
    again: Moment,
)
    requires
        state.wf(config),
        state.counters.next_admission_sequence < u64::MAX,
        state.expects(event),
        event.attempt >= MAX_CLEANUP_ATTEMPTS,
        event.result == PhysicalAttemptResult::Failed || event.result
            == PhysicalAttemptResult::Panicked,
    ensures
        ({
            let job = state.jobs[event.id].job;
            let failed = state.attempt_finished(config, event, failed_at, wall_now).0;
            let until = min_int(failed_at.nanos + config.cooldown.nanos, u128::MAX as int);
            let (next, answer) = failed.admission(config, job.stream, priority, mode, now);
            if now.nanos < until {
                &&& next == failed
                &&& answer == RetirementAdmissionResult::Rejected(RetirementAdmission::CoolingDown)
            } else {
                &&& answer == RetirementAdmissionResult::Admitted(failed.fresh_ticket())
                &&& failed.fresh_ticket() != job.ticket
                &&& next.retirement_of(job.stream.instance).cleanup_failed_at is None
                &&& next.admission(config, job.stream, priority, mode, again).1
                    == RetirementAdmissionResult::Existing(failed.fresh_ticket())
            }
        }),
{
    let job = state.jobs[event.id].job;
    let idle = state.slot_returned(event, wall_now);
    let failed = state.attempt_finished(config, event, failed_at, wall_now).0;
    assert(state.jobs.contains_key(event.id));
    assert(state.record_ok(event.id));
    if state.counters.closed {
        assert(state.jobs =~= Map::empty());
    }
    assert(idle.jobs.dom() =~= state.jobs.dom());
    assert(failed.jobs.dom() =~= state.jobs.dom().remove(event.id));
    assert(failed.jobs.len() == state.jobs.len() - 1);
}

/// A stream that cools down is refused in every state, and turned away for no
/// other reason than a full queue or a retained job of another instance once the
/// cooldown is over.
pub proof fn law_cooldown_ends(
    state: CoordinatorView,
    config: RetirementConfig,
    stream: StreamIdentity,
    priority: RetirementPriority,
    mode: LocalCleanupMode,
    now: Moment,
    until: Moment,
)
    requires
        !state.counters.closed,
        state.retirement_of(stream.instance).ticket is None,
        state.retirement_of(stream.instance).cooldown_until == Some(until),
    ensures
        ({
            let (next, answer) = state.admission(config, stream, priority, mode, now);
            if now.nanos < until.nanos {
                &&& next == state
                &&& answer == RetirementAdmissionResult::Rejected(RetirementAdmission::CoolingDown)
            } else {
                &&& next.retirement_of(stream.instance).cooldown_until is None
                &&& answer == (if state.jobs.contains_key(stream.id) {
                    RetirementAdmissionResult::Rejected(RetirementAdmission::IdentityConflict)
                } else if state.jobs.len() >= config.queue_capacity {
                    RetirementAdmissionResult::Rejected(RetirementAdmission::QueueFull)
                } else {
                    RetirementAdmissionResult::Admitted(state.fresh_ticket())
                })
            }
        }),
{
}

/// A dispatch round starts only work that was released, and one attempt of a
/// stream at a time.
pub proof fn law_only_released_work_starts(
    state: CoordinatorView,
    lanes: PhysicalView,
    config: RetirementConfig,
    i: int,
)
    requires
        0 <= i < state.dispatched(lanes, config).started.len(),
    ensures
        ({
            let job = state.dispatched(lanes, config).started[i].job;
            &&& state.jobs.contains_key(job.stream.id)
            &&& state.jobs[job.stream.id].logical_released
            &&& state.jobs[job.stream.id].active_attempt is None
            &&& state.jobs[job.stream.id].job.ticket == job.ticket
        }),
    decreases state.interactive.len() + state.proactive.len(),
{
    if !state.counters.closed {
        if let Some(priority) = state.next_entry(config) {
            let job = state.front(priority);
            let popped = state.without_front(priority);
            if !popped.dispatchable(job) {
                law_only_released_work_starts(popped, lanes, config, i);
            } else if lanes.refusal(job.priority) is None && i > 0 {
                let attempt = popped.next_attempt(job);
                let queued = lanes.queued(
                    job.priority,
                    crate::retirement::physical::PhysicalJob {
                        stream: job.stream,
                        attempt,
                        mode: job.mode,
                    },
                );
                law_only_released_work_starts(popped.attempt_started(job), queued, config, i - 1);
                let rest = popped.attempt_started(job).dispatched(queued, config);
                assert(state.dispatched(lanes, config).started[i] == rest.started[i - 1]);
            }
        }
    }
}

/// An expiry fence outlives the cancellation of its admission; only a hard
/// cleanup of exactly that instance, its disposal or a shutdown ends it.
pub proof fn law_fence_survives_cancellation(
    state: CoordinatorView,
    fenced: StreamIdentity,
    stream: StreamIdentity,
    ticket: RetirementTicket,
)
    requires
        state.fence_matches(fenced),
        state.prelogical(stream, ticket),
    ensures
        state.prelogical_cancelled(stream, ticket).fence_matches(fenced),
        state.released(stream).fence_matches(fenced),
{
}

/// A fence belongs to one instance: marking, failing or disposing of another
/// instance under a different number leaves it alone.
pub proof fn law_fences_are_independent(
    state: CoordinatorView,
    config: RetirementConfig,
    fenced: StreamIdentity,
    other: StreamIdentity,
    now: Moment,
)
    requires
        state.wf(config),
        state.fence_matches(fenced),
        other.id != fenced.id,
    ensures
        state.with_fence(other, now).fence_matches(fenced),
        state.without_fence(other).fence_matches(fenced),
{
    crate::retirement::index::lemma_without_key(state.fences, other.id);
    if !state.fence_matches(other) {
        crate::retirement::index::lemma_push_key(
            state.without_fence_id(other.id).fences,
            other.id,
            crate::retirement::model::ExpiryFence {
                stream: other,
                fenced_at: now,
                terminal_failure: false,
            },
        );
    }
}

/// Removing the fence of a stream leaves the others in their order, and takes a
/// failed one out of the count of failures. Where the number belongs to a fence
/// of another instance, nothing changes.
pub proof fn law_removed_fence_leaves_the_order(
    state: CoordinatorView,
    config: RetirementConfig,
    stream: StreamIdentity,
)
    requires
        state.wf(config),
    ensures
        ({
            let after = state.without_fence(stream);
            let count = state.counters.expiry_terminal_cleanup_failed_current;
            if state.fence_matches(stream) {
                let p = position_of(state.fences, stream.id);
                &&& 0 <= p < state.fences.len()
                &&& after.fences == state.fences.remove(p)
                &&& !has_key(after.fences, stream.id)
                &&& keys_distinct(after.fences)
                &&& after.counters.expiry_terminal_cleanup_failed_current == count - (
                if state.fences[p].1.terminal_failure {
                    1int
                } else {
                    0
                })
            } else {
                after == state
            }
        }),
{
    lemma_without_key(state.fences, stream.id);
    lemma_failed_bound(state.fences);
}

/// Marking a fence twice keeps one mark, with its first time.
pub proof fn law_fence_is_marked_once(
    state: CoordinatorView,
    config: RetirementConfig,
    stream: StreamIdentity,
    now: Moment,
    later: Moment,
)
    requires
        state.wf(config),
    ensures
        state.with_fence(stream, now).fence_matches(stream),
        state.with_fence(stream, now).with_fence(stream, later) == state.with_fence(stream, now),
{
    crate::retirement::index::lemma_without_key(state.fences, stream.id);
    if !state.fence_matches(stream) {
        crate::retirement::index::lemma_push_key(
            state.without_fence_id(stream.id).fences,
            stream.id,
            crate::retirement::model::ExpiryFence {
                stream,
                fenced_at: now,
                terminal_failure: false,
            },
        );
    }
}

} // verus!
