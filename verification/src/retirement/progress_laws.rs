//! How a retirement goes on, from its admission to its end.

use crate::clock::{Moment, Span, WallTime};
use crate::retirement::foundation::{
    backoff_factor, backoff_nanos, FirstAttemptCompletion, LogicalCompletion, RetirementAdmission,
    RetirementConfig, RetirementPriority, RetirementState, RetirementTicket,
    TerminalCleanupCompletion, TicketCells, TicketCompletion,
};
use crate::retirement::index::{has_key, lemma_without_key, value_of};
use crate::retirement::model::{
    cleanup_telemetry_of, CoordinatorView, ExpiryCleanupDisposition, Job,
    RetirementAdmissionResult, ScheduledRetry, WorkerEvent,
};
use crate::retirement::physical::{
    PhysicalAttemptResult, PhysicalJob, PhysicalSubmitError, PhysicalView, WorkerStep,
};
use crate::store::cleanup::{LocalCleanupDisposition, LocalCleanupMode};
use crate::store::identity::StreamIdentity;
use vstd::prelude::*;

verus! {

/// A stream that was never admitted is admitted exactly if there is room and its
/// number is free. It is then the last in the order of admissions, as it was
/// asked for, and is not queued before its release. A refusal leaves the jobs and
/// their order as they are.
pub proof fn law_room_decides_the_admission(
    state: CoordinatorView,
    config: RetirementConfig,
    stream: StreamIdentity,
    priority: RetirementPriority,
    mode: LocalCleanupMode,
    now: Moment,
)
    requires
        !state.counters.closed,
        state.counters.next_admission_sequence < u64::MAX,
        state.retirement_of(stream.instance) == RetirementState::clean(),
    ensures
        ({
            let (next, answer) = state.admission(config, stream, priority, mode, now);
            let room = state.jobs.len() < config.queue_capacity;
            let free = !state.jobs.contains_key(stream.id);
            let record = next.jobs[stream.id];
            &&& !free ==> answer == RetirementAdmissionResult::Rejected(
                RetirementAdmission::IdentityConflict,
            )
            &&& free && !room ==> answer == RetirementAdmissionResult::Rejected(
                RetirementAdmission::QueueFull,
            )
            &&& free && room ==> {
                &&& answer == RetirementAdmissionResult::Admitted(record.job.ticket)
                &&& record.job.ticket.id == state.counters.next_admission_sequence + 1
                &&& record.job.stream == stream
                &&& record.job.priority == priority
                &&& record.job.mode == mode
                &&& !record.logical_released
                &&& record.active_attempt is None
                &&& !record.retry_scheduled
                &&& !record.first_attempt_completed
                &&& next.jobs.remove(stream.id) == state.jobs
                &&& next.admitted.len() == state.admitted.len() + 1
                &&& next.admitted.last().0 == record.job.ticket.id
                &&& next.admitted.last().1.id == stream.id
                &&& next.admitted.last().1.admitted_at == now
                &&& next.admitted.drop_last() == state.admitted
                &&& next.retirement_of(stream.instance).ticket == Some(record.job.ticket)
                &&& next.retirement_of(stream.instance).attempts == 0
            }
            &&& !(free && room) ==> next.jobs == state.jobs && next.admitted == state.admitted
                && next.counters == state.counters
            &&& next.interactive == state.interactive && next.proactive == state.proactive
            &&& next.retries == state.retries && next.fences == state.fences
        }),
{
    let next = state.admission(config, stream, priority, mode, now).0;
    if !state.jobs.contains_key(stream.id) && state.jobs.len() < config.queue_capacity {
        assert(next.jobs.remove(stream.id) =~= state.jobs);
        assert(next.admitted.drop_last() =~= state.admitted);
    }
}

/// Released work waits behind the other work of its lane, and the other lane is
/// as it was.
pub proof fn law_released_work_waits_its_turn(state: CoordinatorView, stream: StreamIdentity)
    ensures
        ({
            let next = state.released(stream);
            let job = state.jobs[stream.id].job;
            &&& next.jobs[stream.id].logical_released
            &&& next.jobs[stream.id].job == job
            &&& next.jobs[stream.id].active_attempt == state.jobs[stream.id].active_attempt
            &&& job.priority == RetirementPriority::Interactive ==> next.interactive
                == state.interactive.push(job) && next.proactive == state.proactive
            &&& job.priority == RetirementPriority::Proactive ==> next.proactive
                == state.proactive.push(job) && next.interactive == state.interactive
            &&& next.jobs.remove(stream.id) == state.jobs.remove(stream.id)
            &&& next.admitted == state.admitted && next.retries == state.retries
            &&& next.fences == state.fences && next.retirement == state.retirement
            &&& next.counters == state.counters
        }),
{
    assert(state.released(stream).jobs.remove(stream.id) =~= state.jobs.remove(stream.id));
}

/// While a slot is free and the lane takes work, the interactive work that waits
/// longest starts next. Proactive work starts only where no interactive work
/// waits and its share is not used up. Each start counts one attempt.
pub proof fn law_longest_waiting_work_starts(
    state: CoordinatorView,
    lanes: PhysicalView,
    config: RetirementConfig,
)
    requires
        !state.counters.closed,
        !lanes.closed,
        state.counters.active_interactive + state.counters.active_proactive
            < config.coordinator_capacity,
    ensures
        ({
            let round = state.dispatched(lanes, config);
            let first = state.interactive[0];
            let other = state.proactive[0];
            &&& state.interactive.len() > 0 && state.dispatchable(first) && first.priority
                == RetirementPriority::Interactive && lanes.interactive.len()
                < lanes.interactive_capacity ==> {
                &&& round.started.len() > 0
                &&& round.started[0].job == first
                &&& round.started[0].attempt == (if state.retirement_of(
                    first.stream.instance,
                ).attempts == 255 {
                    255int
                } else {
                    state.retirement_of(first.stream.instance).attempts + 1
                })
            }
            &&& state.interactive.len() == 0 && state.proactive.len() > 0 && state.dispatchable(
                other,
            ) && other.priority == RetirementPriority::Proactive && lanes.proactive.len()
                < lanes.proactive_capacity && state.counters.active_proactive
                < config.proactive_coordinator_capacity ==> {
                &&& round.started.len() > 0
                &&& round.started[0].job == other
            }
            &&& state.interactive.len() == 0 && (state.proactive.len() == 0
                || state.counters.active_proactive >= config.proactive_coordinator_capacity)
                ==> round.started.len() == 0 && round.state == state && round.lanes == lanes
        }),
{
    if state.interactive.len() > 0 {
        assert(state.without_front(RetirementPriority::Interactive).dispatchable(
            state.interactive[0],
        ) == state.dispatchable(state.interactive[0]));
    } else if state.proactive.len() > 0 {
        assert(state.without_front(RetirementPriority::Proactive).dispatchable(state.proactive[0])
            == state.dispatchable(state.proactive[0]));
    }
}

/// A round of dispatch goes on until every slot is taken, nothing is left that
/// may start, or the lane that is next is full. It starts nothing once the
/// coordinator is closed or where every slot is taken.
pub proof fn law_dispatch_uses_every_slot(
    state: CoordinatorView,
    lanes: PhysicalView,
    config: RetirementConfig,
)
    requires
        state.wf(config),
        !state.counters.closed,
        !lanes.closed,
    ensures
        ({
            let round = state.dispatched(lanes, config);
            let after = round.state;
            let c = after.counters;
            &&& c.active_interactive + c.active_proactive >= config.coordinator_capacity || (
            after.interactive.len() == 0 && (after.proactive.len() == 0 || c.active_proactive
                >= config.proactive_coordinator_capacity)) || (after.interactive.len() > 0
                && round.lanes.interactive.len() >= round.lanes.interactive_capacity) || (
            after.proactive.len() > 0 && round.lanes.proactive.len()
                >= round.lanes.proactive_capacity)
            &&& round.completions.len() == 0
            &&& after.jobs.dom() == state.jobs.dom()
            &&& after.admitted == state.admitted && after.retries == state.retries
            &&& after.fences == state.fences
        }),
    decreases state.interactive.len() + state.proactive.len(),
{
    if let Some(priority) = state.next_entry(config) {
        let job = state.front(priority);
        let popped = state.without_front(priority);
        assert(state.entry_in(job, priority));
        state.lemma_without_front_wf(config, priority);
        if !popped.dispatchable(job) {
            law_dispatch_uses_every_slot(popped, lanes, config);
        } else if lanes.refusal(job.priority) is None {
            let attempt = popped.next_attempt(job);
            let queued = lanes.queued(
                job.priority,
                PhysicalJob { stream: job.stream, attempt, mode: job.mode },
            );
            popped.lemma_attempt_started_wf(config, job);
            law_dispatch_uses_every_slot(popped.attempt_started(job), queued, config);
            assert(popped.attempt_started(job).jobs.dom() =~= state.jobs.dom());
        }
    }
}

/// Work that a full lane does not take stays first in its queue.
pub proof fn law_full_lane_keeps_the_turn(
    state: CoordinatorView,
    lanes: PhysicalView,
    config: RetirementConfig,
    priority: RetirementPriority,
)
    requires
        !state.counters.closed,
        !lanes.closed,
        state.next_entry(config) == Some(priority),
        state.front(priority).priority == priority,
        state.dispatchable(state.front(priority)),
        lanes.lane(priority).len() >= lanes.lane_capacity(priority),
    ensures
        state.dispatched(lanes, config).state == state,
        state.dispatched(lanes, config).started.len() == 0,
        state.dispatched(lanes, config).lanes == lanes,
{
    let job = state.front(priority);
    let popped = state.without_front(priority);
    assert(popped.dispatchable(job) == state.dispatchable(job));
    let after = popped.queued_front(job);
    match priority {
        RetirementPriority::Interactive => {
            assert(after.interactive =~= state.interactive);
        },
        RetirementPriority::Proactive => {
            assert(after.proactive =~= state.proactive);
        },
    }
}

/// What a report does to everything but its own job: one slot of the job's lane
/// is free again, the times of the cleanup are noted, and the other jobs are as
/// they were.
pub proof fn law_report_frees_one_slot(
    state: CoordinatorView,
    config: RetirementConfig,
    event: WorkerEvent,
    now: Moment,
    wall_now: WallTime,
)
    requires
        state.wf(config),
        state.expects(event),
    ensures
        ({
            let job = state.jobs[event.id].job;
            let after = state.attempt_finished(config, event, now, wall_now).0;
            let before = state.counters;
            let c = after.counters;
            &&& after.jobs.remove(event.id) == state.jobs.remove(event.id)
            &&& job.priority == RetirementPriority::Interactive && before.active_interactive > 0
                ==> c.active_interactive == before.active_interactive - 1 && c.active_proactive
                == before.active_proactive
            &&& job.priority == RetirementPriority::Proactive && before.active_proactive > 0
                ==> c.active_proactive == before.active_proactive - 1 && c.active_interactive
                == before.active_interactive
            &&& c.latest_cleanup_wall_time == Some(wall_now)
            &&& c.latest_cleanup_duration == Some(event.duration)
            &&& c.closed == before.closed
            &&& c.next_admission_sequence == before.next_admission_sequence
            &&& c.cumulative_retry_attempts == before.cumulative_retry_attempts
            &&& after.interactive == state.interactive && after.proactive == state.proactive
            &&& forall|other: u64|
                other != job.stream.instance ==> #[trigger] after.retirement_of(other)
                    == state.retirement_of(other)
        }),
{
    let after = state.attempt_finished(config, event, now, wall_now).0;
    assert(after.jobs.remove(event.id) =~= state.jobs.remove(event.id));
}

/// A cleanup that succeeds ends its job: the stream is free for another
/// admission, the bytes are counted, and whoever waits for the ticket learns of
/// the success. Its fence goes exactly if the files are gone.
pub proof fn law_success_ends_the_job(
    state: CoordinatorView,
    config: RetirementConfig,
    event: WorkerEvent,
    now: Moment,
    wall_now: WallTime,
    bytes: u64,
    disposition: LocalCleanupDisposition,
)
    requires
        state.wf(config),
        state.expects(event),
        event.result == (PhysicalAttemptResult::Succeeded {
            reclaimed_local_bytes: bytes,
            disposition,
        }),
    ensures
        ({
            let job = state.jobs[event.id].job;
            let (after, effects) = state.attempt_finished(config, event, now, wall_now);
            let before = state.counters;
            let c = after.counters;
            &&& !after.jobs.contains_key(event.id)
            &&& !has_key(after.admitted, job.ticket.id)
            &&& after.retirement_of(job.stream.instance) == RetirementState::clean()
            &&& after.retries == state.retries
            &&& before.terminal_successes < u64::MAX ==> c.terminal_successes
                == before.terminal_successes + 1
            &&& before.reclaimed_local_bytes + bytes <= u64::MAX ==> c.reclaimed_local_bytes
                == before.reclaimed_local_bytes + bytes
            &&& event.attempt == 1 && before.first_attempt_successes < u64::MAX
                ==> c.first_attempt_successes == before.first_attempt_successes + 1
            &&& event.attempt != 1 ==> c.first_attempt_successes == before.first_attempt_successes
            &&& c.terminal_failures == before.terminal_failures
            &&& c.terminal_cancellations == before.terminal_cancellations
            &&& c.first_attempt_failures == before.first_attempt_failures
            &&& c.last_successful_cleanup_wall_time == Some(wall_now)
            &&& c.last_successful_cleanup_duration == Some(event.duration)
            &&& disposition == LocalCleanupDisposition::HardReaped ==> !after.fence_matches(
                job.stream,
            )
            &&& disposition != LocalCleanupDisposition::HardReaped ==> after.fences == state.fences
            &&& effects matches Some(e)
            &&& e.completions.last() == (TicketCompletion::Terminal {
                ticket: job.ticket,
                result: TerminalCleanupCompletion::Succeeded { reclaimed_local_bytes: bytes },
            })
            &&& event.attempt == 1 ==> e.completions.len() == 2 && e.completions[0] == (
            TicketCompletion::FirstAttempt {
                ticket: job.ticket,
                result: FirstAttemptCompletion::Succeeded { reclaimed_local_bytes: bytes },
            })
            &&& event.attempt != 1 ==> e.completions.len() == 1
            &&& !e.expiry_retry && !e.expiry_failed
        }),
{
    let job = state.jobs[event.id].job;
    assert(state.record_ok(event.id));
    lemma_without_key(state.admitted, job.ticket.id);
    lemma_without_key(state.fences, job.stream.id);
}

/// A cleanup that fails before the limit is tried again after its delay. Nobody
/// learns of an end, only of a failed first attempt; the ticket, the fence and
/// the count of attempts stay. The retries stay in the order in which they are
/// due.
pub proof fn law_failure_is_tried_again(
    state: CoordinatorView,
    config: RetirementConfig,
    event: WorkerEvent,
    now: Moment,
    wall_now: WallTime,
)
    requires
        state.wf(config),
        state.expects(event),
        event.attempt < 10,
        event.result == PhysicalAttemptResult::Failed || event.result
            == PhysicalAttemptResult::Panicked,
    ensures
        ({
            let job = state.jobs[event.id].job;
            let (after, effects) = state.attempt_finished(config, event, now, wall_now);
            let wait = backoff_nanos(event.attempt, config.retry_base.nanos as int);
            let record = after.jobs[event.id];
            &&& after.jobs.contains_key(event.id)
            &&& record.job == job
            &&& record.retry_scheduled && record.active_attempt is None && record.logical_released
            &&& after.admitted == state.admitted && after.fences == state.fences
            &&& after.retirement_of(job.stream.instance) == state.retirement_of(job.stream.instance)
            &&& crate::retirement::model::retries_ordered(after.retries)
            &&& now.nanos + wait <= u128::MAX ==> exists|i: int|
                0 <= i < after.retries.len() && (#[trigger] after.retries[i]).id == event.id
                    && after.retries[i].due.nanos == now.nanos + wait
            &&& after.retries.to_multiset().len() == state.retries.to_multiset().len() + 1
            &&& forall|i: int|
                0 <= i < state.retries.len() ==> after.retries.contains(#[trigger] state.retries[i])
            &&& after.counters.terminal_failures == state.counters.terminal_failures
            &&& after.counters.terminal_successes == state.counters.terminal_successes
            &&& effects matches Some(e)
            &&& e.expiry_retry <==> job.mode == LocalCleanupMode::Expiry
            &&& !e.expiry_failed
            &&& event.attempt == 1 ==> e.completions == seq![
                TicketCompletion::FirstAttempt {
                    ticket: job.ticket,
                    result: FirstAttemptCompletion::Failed,
                },
            ]
            &&& event.attempt != 1 ==> e.completions.len() == 0
        }),
{
    let after = state.attempt_finished(config, event, now, wall_now).0;
    let idle = state.slot_returned(event, wall_now);
    let retry = ScheduledRetry {
        due: Moment {
            nanos: crate::clock::min_int(
                now.nanos + backoff_nanos(event.attempt, config.retry_base.nanos as int),
                u128::MAX as int,
            ) as u128,
        },
        sequence: crate::retirement::model::wrap_inc(idle.counters.next_retry_sequence),
        id: event.id,
    };
    assert(state.record_ok(event.id));
    crate::retirement::model::lemma_retry_slot(idle.retries, retry);
    let slot = crate::retirement::model::retry_slot(idle.retries, retry);
    assert(after.retries == idle.retries.insert(slot, retry));
    assert(after.retries[slot] == retry);
    assert forall|i: int| 0 <= i < state.retries.len() implies after.retries.contains(
        #[trigger] state.retries[i],
    ) by {
        if i < slot {
            assert(after.retries[i] == state.retries[i]);
        } else {
            assert(after.retries[i + 1] == state.retries[i]);
        }
    }
    after.retries.to_multiset_ensures();
    state.retries.to_multiset_ensures();
    crate::retirement::model::lemma_with_retry_ordered(idle.retries, retry);
    vstd::arithmetic::power2::lemma2_to64();
    assert(backoff_factor(event.attempt) >= 1) by {
        if 1 < event.attempt < 7 {
            vstd::arithmetic::power2::lemma_pow2_pos((event.attempt - 1) as nat);
        }
    }
    assert(config.retry_base.nanos * backoff_factor(event.attempt) >= 0) by (nonlinear_arith)
        requires
            backoff_factor(event.attempt) >= 1,
            config.retry_base.nanos >= 0,
    ;
}

/// Each further failure doubles the delay, from the base up to the longest one.
pub proof fn law_delay_doubles(attempt: u8, base: Span)
    requires
        1 <= attempt < 7,
    ensures
        backoff_factor((attempt + 1) as u8) == 2 * backoff_factor(attempt),
        2 * base.nanos * backoff_factor(attempt) <= 60_000_000_000 ==> backoff_nanos(
            (attempt + 1) as u8,
            base.nanos as int,
        ) == 2 * backoff_nanos(attempt, base.nanos as int),
        backoff_nanos(1, base.nanos as int) == (if base.nanos <= 60_000_000_000 {
            base.nanos
        } else {
            60_000_000_000u128
        }),
{
    vstd::arithmetic::power2::lemma2_to64();
    let a = backoff_factor(attempt);
    let b = backoff_factor((attempt + 1) as u8);
    assert(b == 2 * a);
    assert(base.nanos * b == 2 * (base.nanos * a)) by (nonlinear_arith)
        requires
            b == 2 * a,
    ;
    assert(2 * base.nanos * a == 2 * (base.nanos * a)) by (nonlinear_arith);
}

/// The last allowed failure ends the job: whoever waits for the ticket learns of
/// it, the stream cools down, and the fence of an expired stream stays and is
/// marked as failed.
pub proof fn law_last_failure_ends_the_job(
    state: CoordinatorView,
    config: RetirementConfig,
    event: WorkerEvent,
    now: Moment,
    wall_now: WallTime,
)
    requires
        state.wf(config),
        state.expects(event),
        event.attempt >= 10,
        event.result == PhysicalAttemptResult::Failed || event.result
            == PhysicalAttemptResult::Panicked,
    ensures
        ({
            let job = state.jobs[event.id].job;
            let (after, effects) = state.attempt_finished(config, event, now, wall_now);
            let before = state.counters;
            let c = after.counters;
            let own = after.retirement_of(job.stream.instance);
            let expiry = job.mode == LocalCleanupMode::Expiry;
            &&& !after.jobs.contains_key(event.id)
            &&& !has_key(after.admitted, job.ticket.id)
            &&& own.ticket is None
            &&& own.cleanup_failed_at == Some(wall_now)
            &&& now.nanos + config.cooldown.nanos <= u128::MAX ==> (own.cooldown_until matches Some(
                until,
            ) && until.nanos == now.nanos + config.cooldown.nanos)
            &&& after.retries == state.retries
            &&& before.terminal_failures < u64::MAX ==> c.terminal_failures
                == before.terminal_failures + 1
            &&& before.terminal_cleanup_failed_current < u64::MAX
                ==> c.terminal_cleanup_failed_current == before.terminal_cleanup_failed_current + 1
            &&& c.terminal_successes == before.terminal_successes
            &&& c.reclaimed_local_bytes == before.reclaimed_local_bytes
            &&& !expiry ==> after.fences == state.fences
            &&& expiry && state.fence_matches(job.stream) ==> after.fence_matches(job.stream)
                && value_of(after.fences, job.stream.id).terminal_failure && value_of(
                after.fences,
                job.stream.id,
            ).fenced_at == value_of(state.fences, job.stream.id).fenced_at
            &&& effects matches Some(e)
            &&& e.completions.last() == (TicketCompletion::Terminal {
                ticket: job.ticket,
                result: TerminalCleanupCompletion::Failed,
            })
            &&& e.completions.len() == 1
            &&& e.expiry_failed <==> expiry
            &&& !e.expiry_retry
        }),
{
    let job = state.jobs[event.id].job;
    assert(state.record_ok(event.id));
    lemma_without_key(state.admitted, job.ticket.id);
    if state.fence_matches(job.stream) {
        crate::retirement::index::lemma_with_value(
            state.fences,
            job.stream.id,
            crate::retirement::model::ExpiryFence {
                terminal_failure: true,
                ..value_of(state.fences, job.stream.id)
            },
        );
    }
}

/// A cancelled attempt ends its job without a failure: the stream may be admitted
/// again at once.
pub proof fn law_cancelled_attempt_leaves_no_failure(
    state: CoordinatorView,
    config: RetirementConfig,
    event: WorkerEvent,
    now: Moment,
    wall_now: WallTime,
)
    requires
        state.wf(config),
        state.expects(event),
        event.result == PhysicalAttemptResult::Cancelled,
    ensures
        ({
            let job = state.jobs[event.id].job;
            let (after, effects) = state.attempt_finished(config, event, now, wall_now);
            &&& !after.jobs.contains_key(event.id)
            &&& !has_key(after.admitted, job.ticket.id)
            &&& after.retirement_of(job.stream.instance) == RetirementState::clean()
            &&& after.fences == state.fences && after.retries == state.retries
            &&& after.counters.terminal_failures == state.counters.terminal_failures
            &&& after.counters.terminal_successes == state.counters.terminal_successes
            &&& state.counters.terminal_cancellations < u64::MAX
                ==> after.counters.terminal_cancellations == state.counters.terminal_cancellations
                + 1
            &&& effects matches Some(e)
            &&& e.completions.last() == (TicketCompletion::Terminal {
                ticket: job.ticket,
                result: TerminalCleanupCompletion::Cancelled,
            })
            &&& !e.expiry_retry && !e.expiry_failed
        }),
{
    let job = state.jobs[event.id].job;
    assert(state.record_ok(event.id));
    lemma_without_key(state.admitted, job.ticket.id);
}

/// When retries are due they are queued again, and only those that are due: none
/// that is due is left, the later ones stay in their order, and no job is lost or
/// started.
pub proof fn law_due_retries_are_queued(state: CoordinatorView, now: Moment)
    requires
        crate::retirement::model::retries_ordered(state.retries),
    ensures
        ({
            let after = state.due_enqueued(now);
            &&& forall|i: int|
                0 <= i < after.retries.len() ==> (#[trigger] after.retries[i]).due.nanos
                    > now.nanos
            &&& forall|i: int|
                0 <= i < state.retries.len() && (#[trigger] state.retries[i]).due.nanos > now.nanos
                    ==> after.retries.contains(state.retries[i])
            &&& forall|i: int|
                0 <= i < after.retries.len() ==> state.retries.contains(#[trigger] after.retries[i])
            &&& after.jobs.dom() == state.jobs.dom()
            &&& forall|i: int|
                0 <= i < state.retries.len() && (#[trigger] state.retries[i]).due.nanos <= now.nanos
                    && state.jobs.contains_key(state.retries[i].id)
                    ==> !after.jobs[state.retries[i].id].retry_scheduled
            &&& after.interactive.len() >= state.interactive.len()
            &&& after.interactive.take(state.interactive.len() as int) == state.interactive
            &&& after.proactive.len() >= state.proactive.len()
            &&& after.proactive.take(state.proactive.len() as int) == state.proactive
            &&& forall|id: u64| #[trigger]
                state.jobs.contains_key(id) ==> {
                    &&& after.jobs[id].job == state.jobs[id].job
                    &&& after.jobs[id].active_attempt == state.jobs[id].active_attempt
                    &&& after.jobs[id].logical_released == state.jobs[id].logical_released
                    &&& state.jobs[id].retry_scheduled && !after.jobs[id].retry_scheduled ==> (
                    match state.jobs[id].job.priority {
                        RetirementPriority::Interactive => after.interactive.contains(
                            state.jobs[id].job,
                        ),
                        RetirementPriority::Proactive => after.proactive.contains(
                            state.jobs[id].job,
                        ),
                    })
                }
            &&& after.counters == state.counters && after.admitted == state.admitted
            &&& after.fences == state.fences && after.retirement == state.retirement
        }),
    decreases state.retries.len(),
{
    let after = state.due_enqueued(now);
    if state.retries.len() == 0 || state.retries[0].due.nanos > now.nanos {
        assert(after.interactive.take(state.interactive.len() as int) =~= state.interactive);
        assert(after.proactive.take(state.proactive.len() as int) =~= state.proactive);
    } else {
        let id = state.retries[0].id;
        let popped = CoordinatorView { retries: state.retries.skip(1), ..state };
        let record = state.jobs[id];
        let waits = state.jobs.contains_key(id) && record.retry_scheduled;
        let next = if waits {
            popped.with_record(
                id,
                crate::retirement::model::JobRecord { retry_scheduled: false, ..record },
            ).queued_back(record.job)
        } else {
            popped
        };
        assert(after == next.due_enqueued(now));
        law_due_retries_are_queued(next, now);
        assert(next.jobs.dom() =~= state.jobs.dom());
        assert forall|i: int|
            0 <= i < state.retries.len() && (#[trigger] state.retries[i]).due.nanos
                > now.nanos implies after.retries.contains(state.retries[i]) by {
            assert(next.retries[i - 1] == state.retries[i]);
        }
        assert forall|i: int| 0 <= i < after.retries.len() implies state.retries.contains(
            #[trigger] after.retries[i],
        ) by {
            let k = choose|k: int| 0 <= k < next.retries.len() && next.retries[k]
                == after.retries[i];
            assert(state.retries[k + 1] == after.retries[i]);
        }
        assert forall|i: int|
            0 <= i < state.retries.len() && (#[trigger] state.retries[i]).due.nanos <= now.nanos
                && state.jobs.contains_key(
                state.retries[i].id,
            ) implies !after.jobs[state.retries[i].id].retry_scheduled by {
            if i > 0 {
                assert(next.retries[i - 1] == state.retries[i]);
                assert(next.jobs.contains_key(state.retries[i].id));
            } else {
                lemma_unscheduled_stays(next, now, id);
            }
        }
        assert(next.interactive.take(state.interactive.len() as int) =~= state.interactive);
        assert(next.proactive.take(state.proactive.len() as int) =~= state.proactive);
        lemma_prefix(next.interactive, after.interactive, state.interactive);
        lemma_prefix(next.proactive, after.proactive, state.proactive);
        assert forall|k: u64| #[trigger] state.jobs.contains_key(k) implies {
            &&& after.jobs[k].job == state.jobs[k].job
            &&& after.jobs[k].active_attempt == state.jobs[k].active_attempt
            &&& after.jobs[k].logical_released == state.jobs[k].logical_released
            &&& state.jobs[k].retry_scheduled && !after.jobs[k].retry_scheduled ==> (
            match state.jobs[k].job.priority {
                RetirementPriority::Interactive => after.interactive.contains(state.jobs[k].job),
                RetirementPriority::Proactive => after.proactive.contains(state.jobs[k].job),
            })
        } by {
            assert(next.jobs.contains_key(k));
            if k == id && waits {
                match record.job.priority {
                    RetirementPriority::Interactive => {
                        let at = state.interactive.len() as int;
                        assert(next.interactive[at] == record.job);
                        assert(after.interactive.take(next.interactive.len() as int)[at]
                            == record.job);
                        assert(after.interactive[at] == record.job);
                    },
                    RetirementPriority::Proactive => {
                        let at = state.proactive.len() as int;
                        assert(next.proactive[at] == record.job);
                        assert(after.proactive.take(next.proactive.len() as int)[at]
                            == record.job);
                        assert(after.proactive[at] == record.job);
                    },
                }
            }
        }
    }
}

proof fn lemma_prefix(mid: Seq<Job>, whole: Seq<Job>, front: Seq<Job>)
    requires
        whole.len() >= mid.len(),
        whole.take(mid.len() as int) == mid,
        mid.len() >= front.len(),
        mid.take(front.len() as int) == front,
    ensures
        whole.take(front.len() as int) == front,
{
    assert(whole.take(front.len() as int) =~= mid.take(front.len() as int)) by {
        assert forall|i: int| 0 <= i < front.len() implies whole[i] == mid[i] by {
            assert(whole.take(mid.len() as int)[i] == mid[i]);
        }
    }
}

proof fn lemma_unscheduled_stays(state: CoordinatorView, now: Moment, id: u64)
    requires
        state.jobs.contains_key(id),
        !state.jobs[id].retry_scheduled,
    ensures
        !state.due_enqueued(now).jobs[id].retry_scheduled,
    decreases state.retries.len(),
{
    if state.retries.len() > 0 && state.retries[0].due.nanos <= now.nanos {
        let first = state.retries[0].id;
        let popped = CoordinatorView { retries: state.retries.skip(1), ..state };
        if state.jobs.contains_key(first) && state.jobs[first].retry_scheduled {
            let record = state.jobs[first];
            let next = popped.with_record(
                first,
                crate::retirement::model::JobRecord { retry_scheduled: false, ..record },
            ).queued_back(record.job);
            lemma_unscheduled_stays(next, now, id);
        } else {
            lemma_unscheduled_stays(popped, now, id);
        }
    }
}

/// A shutdown ends every job: all are cancelled, each ticket is told so in each
/// of its parts, in the order of admission, and nothing waits any more. No stream
/// keeps a ticket; one that cools down goes on cooling down.
pub proof fn law_shutdown_cancels_everything(state: CoordinatorView, instance: u64)
    requires
        !state.counters.closed,
    ensures
        ({
            let after = state.all_cancelled();
            &&& after.counters.closed
            &&& after.jobs.dom() == Set::<u64>::empty()
            &&& after.interactive.len() == 0 && after.proactive.len() == 0
            &&& after.retries.len() == 0 && after.admitted.len() == 0 && after.fences.len() == 0
            &&& after.counters.active_interactive == 0 && after.counters.active_proactive == 0
            &&& after.counters.expiry_jobs == 0
            &&& state.counters.terminal_cancellations + state.jobs.len() <= u64::MAX
                ==> after.counters.terminal_cancellations == state.counters.terminal_cancellations
                + state.jobs.len()
            &&& after.counters.terminal_failures == state.counters.terminal_failures
            &&& after.counters.terminal_successes == state.counters.terminal_successes
            &&& after.retirement_of(instance).ticket is None
            &&& state.retirement_of(instance).ticket is None ==> after.retirement_of(instance)
                == state.retirement_of(instance)
        }),
{
}

/// A shutdown tells each admitted ticket of its cancellation, one after the other.
pub proof fn law_shutdown_tells_every_ticket(
    admitted: Seq<(u64, crate::retirement::model::Admission)>,
    i: int,
)
    requires
        0 <= i < admitted.len(),
    ensures
        ({
            let all = CoordinatorView::cancel_completions(admitted);
            let ticket = RetirementTicket { id: admitted[i].0 };
            &&& all.len() == 3 * admitted.len()
            &&& all[3 * i] == (TicketCompletion::Logical {
                ticket,
                result: LogicalCompletion::Cancelled,
            })
            &&& all[3 * i + 1] == (TicketCompletion::FirstAttempt {
                ticket,
                result: FirstAttemptCompletion::Cancelled,
            })
            &&& all[3 * i + 2] == (TicketCompletion::Terminal {
                ticket,
                result: TerminalCleanupCompletion::Cancelled,
            })
        }),
    decreases admitted.len(),
{
    let front = admitted.drop_last();
    lemma_three_each(front);
    if i < front.len() {
        law_shutdown_tells_every_ticket(front, i);
        assert(front[i] == admitted[i]);
    }
}

proof fn lemma_three_each(admitted: Seq<(u64, crate::retirement::model::Admission)>)
    ensures
        CoordinatorView::cancel_completions(admitted).len() == 3 * admitted.len(),
    decreases admitted.len(),
{
    if admitted.len() > 0 {
        lemma_three_each(admitted.drop_last());
    }
}

/// What a ticket's holder is told first stays: each part of a completion fills
/// the cell it is meant for, if that is empty, and no other.
pub proof fn law_completion_fills_its_cell(cells: TicketCells, ticket: RetirementTicket)
    ensures
        forall|result: LogicalCompletion|
            cells.logical is None ==> #[trigger] cells.published(
                TicketCompletion::Logical { ticket, result },
            ) == (TicketCells { logical: Some(result), ..cells }),
        forall|result: FirstAttemptCompletion|
            cells.first_attempt is None ==> #[trigger] cells.published(
                TicketCompletion::FirstAttempt { ticket, result },
            ) == (TicketCells { first_attempt: Some(result), ..cells }),
        forall|result: TerminalCleanupCompletion|
            cells.terminal is None ==> #[trigger] cells.published(
                TicketCompletion::Terminal { ticket, result },
            ) == (TicketCells { terminal: Some(result), ..cells }),
{
}

/// Cleanups of expired streams, and no others, are told about, with what became
/// of the stream where they succeeded.
pub proof fn law_expiry_cleanups_are_told(
    mode: LocalCleanupMode,
    result: PhysicalAttemptResult,
    duration: Span,
)
    ensures
        ({
            let told = cleanup_telemetry_of(mode, result, duration);
            &&& told is Some <==> mode == LocalCleanupMode::Expiry
            &&& told matches Some(t) ==> {
                &&& t.duration == duration
                &&& t.disposition is Some <==> result is Succeeded
                &&& result matches PhysicalAttemptResult::Succeeded {
                    reclaimed_local_bytes,
                    disposition,
                } ==> {
                    &&& disposition == LocalCleanupDisposition::HardReaped ==> t.disposition
                        == Some(ExpiryCleanupDisposition::Reaped(reclaimed_local_bytes))
                    &&& disposition == LocalCleanupDisposition::DurableSoftDeleted
                        ==> t.disposition == Some(ExpiryCleanupDisposition::SoftDeleted)
                }
            }
        }),
{
}

/// A lane takes work exactly as long as it is open and has room.
pub proof fn law_lane_takes_what_fits(lanes: PhysicalView, priority: RetirementPriority)
    ensures
        lanes.refusal(priority) is None <==> !lanes.closed && lanes.lane(priority).len()
            < lanes.lane_capacity(priority),
        lanes.closed ==> lanes.refusal(priority) == Some(PhysicalSubmitError::Closed),
        !lanes.closed && lanes.lane(priority).len() >= lanes.lane_capacity(priority)
            ==> lanes.refusal(priority) == Some(PhysicalSubmitError::Full),
{
}

/// A worker takes the first job of its lane and is busy with it until the job
/// ends; then the lanes are as before but for that job. A worker that leaves is
/// gone.
pub proof fn law_worker_takes_one_job(lanes: PhysicalView, index: usize)
    requires
        lanes.wf(),
    ensures
        ({
            let step = lanes.next_step(index);
            let after = lanes.stepped(step);
            match step {
                WorkerStep::Run { job, priority } => {
                    &&& lanes.lane(priority).len() > 0 && job == lanes.lane(priority)[0]
                    &&& after.lane(priority) == lanes.lane(priority).skip(1)
                    &&& after.active_interactive + after.active_proactive
                        == lanes.active_interactive + lanes.active_proactive + 1
                    &&& priority == RetirementPriority::Interactive ==> after.proactive
                        == lanes.proactive && after.ended(priority) == (PhysicalView {
                        interactive: lanes.interactive.skip(1),
                        ..lanes
                    })
                    &&& priority == RetirementPriority::Proactive ==> after.interactive
                        == lanes.interactive && after.ended(priority) == (PhysicalView {
                        proactive: lanes.proactive.skip(1),
                        ..lanes
                    })
                },
                WorkerStep::Wait => after == lanes && !lanes.closed && lanes.interactive.len() == 0
                    && (index == 0 || lanes.proactive.len() == 0),
                WorkerStep::Exit => after == (PhysicalView {
                    workers_live: lanes.workers_live - 1,
                    ..lanes
                }) && lanes.closed,
            }
        }),
{
}

/// Work that a closed executor cannot take ends as a failure without an attempt:
/// the job is gone, its ticket learns of it, and the stream may be admitted again.
pub proof fn law_closed_executor_fails_the_work(
    state: CoordinatorView,
    lanes: PhysicalView,
    config: RetirementConfig,
    priority: RetirementPriority,
)
    requires
        state.wf(config),
        !state.counters.closed,
        lanes.closed,
        state.next_entry(config) == Some(priority),
        state.dispatchable(state.front(priority)),
    ensures
        ({
            let job = state.front(priority);
            let round = state.dispatched(lanes, config);
            let after = round.state;
            &&& round.started.len() == 0
            &&& round.lanes == lanes
            &&& round.completions == seq![
                TicketCompletion::FirstAttempt {
                    ticket: job.ticket,
                    result: FirstAttemptCompletion::Failed,
                },
                TicketCompletion::Terminal {
                    ticket: job.ticket,
                    result: TerminalCleanupCompletion::Failed,
                },
            ]
            &&& !after.jobs.contains_key(job.stream.id)
            &&& !has_key(after.admitted, job.ticket.id)
            &&& after.retirement_of(job.stream.instance) == RetirementState::clean()
            &&& state.counters.terminal_failures < u64::MAX ==> after.counters.terminal_failures
                == state.counters.terminal_failures + 1
        }),
{
    let job = state.front(priority);
    let popped = state.without_front(priority);
    assert(state.entry_in(job, priority));
    assert(popped.dispatchable(job) == state.dispatchable(job));
    assert(state.record_ok(job.stream.id));
    lemma_without_key(state.admitted, job.ticket.id);
}

/// Starting an attempt counts it for its stream and takes a slot of its lane; only
/// an attempt after the first counts as a retry.
pub proof fn law_attempts_are_counted(state: CoordinatorView, job: Job)
    requires
        state.counters.active_interactive < usize::MAX,
        state.counters.active_proactive < usize::MAX,
        state.retirement_of(job.stream.instance).attempts < 255,
        state.counters.cumulative_retry_attempts < u64::MAX,
    ensures
        ({
            let before = state.retirement_of(job.stream.instance).attempts;
            let after = state.attempt_started(job);
            let c = after.counters;
            &&& after.retirement_of(job.stream.instance).attempts == before + 1
            &&& after.retirement_of(job.stream.instance).ticket == state.retirement_of(
                job.stream.instance,
            ).ticket
            &&& after.jobs[job.stream.id].active_attempt == Some((before + 1) as u8)
            &&& after.jobs[job.stream.id].job == state.jobs[job.stream.id].job
            &&& c.cumulative_retry_attempts == state.counters.cumulative_retry_attempts + (
            if before > 0 {
                1int
            } else {
                0
            })
            &&& job.priority == RetirementPriority::Interactive ==> c.active_interactive
                == state.counters.active_interactive + 1 && c.active_proactive
                == state.counters.active_proactive
            &&& job.priority == RetirementPriority::Proactive ==> c.active_proactive
                == state.counters.active_proactive + 1 && c.active_interactive
                == state.counters.active_interactive
        }),
{
}

/// A new fence is the youngest, bears its time, and has not failed; the fences of
/// other streams stay as they are, and one of an earlier stream of its number goes.
pub proof fn law_new_fence_is_the_youngest(
    state: CoordinatorView,
    config: RetirementConfig,
    stream: StreamIdentity,
    now: Moment,
)
    requires
        state.wf(config),
        !state.fence_matches(stream),
    ensures
        ({
            let after = state.with_fence(stream, now);
            &&& after.fences.len() > 0
            &&& after.fences.last().0 == stream.id
            &&& after.fences.last().1.stream == stream
            &&& after.fences.last().1.fenced_at == now
            &&& !after.fences.last().1.terminal_failure
            &&& !has_key(state.fences, stream.id) ==> after.fences.drop_last() == state.fences
            &&& after.jobs == state.jobs && after.admitted == state.admitted
            &&& after.retries == state.retries
        }),
{
    let after = state.with_fence(stream, now);
    assert(after.fences.drop_last() =~= state.without_fence_id(stream.id).fences);
}

/// Taking an admission back before its release is counted as a cancellation, and
/// leaves the stream free to be admitted again.
pub proof fn law_admission_taken_back_is_counted(
    state: CoordinatorView,
    config: RetirementConfig,
    stream: StreamIdentity,
    ticket: RetirementTicket,
)
    requires
        state.wf(config),
        state.prelogical(stream, ticket),
        state.counters.terminal_cancellations < u64::MAX,
        state.counters.first_attempt_cancellations < u64::MAX,
    ensures
        ({
            let after = state.prelogical_cancelled(stream, ticket);
            &&& !after.jobs.contains_key(stream.id)
            &&& !has_key(after.admitted, ticket.id)
            &&& after.retirement_of(stream.instance) == RetirementState::clean()
            &&& after.counters.terminal_cancellations == state.counters.terminal_cancellations + 1
            &&& after.counters.first_attempt_cancellations
                == state.counters.first_attempt_cancellations + 1
            &&& after.counters.terminal_failures == state.counters.terminal_failures
            &&& after.fences == state.fences
            &&& after.jobs == state.jobs.remove(stream.id)
        }),
{
    assert(state.record_ok(stream.id));
    lemma_without_key(state.admitted, ticket.id);
}

/// Limits are accepted exactly if interactive work keeps eight permits and one
/// worker for itself, and the queue is divided without a rest. The usual limits
/// are of that kind.
pub proof fn law_limits_leave_room_for_interactive_work(config: RetirementConfig)
    ensures
        config.complaint() is None <==> {
            &&& config.queue_capacity > 0
            &&& config.proactive_coordinator_capacity + 8 <= config.coordinator_capacity
            &&& config.interactive_physical_capacity > 0
            &&& config.interactive_physical_capacity + config.proactive_physical_capacity
                == config.physical_queue_capacity
            &&& config.cleanup_workers >= 1
        },
        config.complaint() is None <==> config.valid(),
        config.is_default() ==> {
            &&& config.complaint() is None
            &&& config.queue_capacity == 4_096
            &&& config.coordinator_capacity == 64
            &&& config.proactive_coordinator_capacity == 56
            &&& config.physical_queue_capacity == 1_024
            &&& config.interactive_physical_capacity == 64
            &&& config.cleanup_workers == 4
            &&& config.retry_base.nanos == 1_000_000_000
            &&& config.cooldown.nanos == 300_000_000_000
        },
{
}

/// A worker reports what its work came back with: the bytes that were freed, an
/// error, or a crash.
pub proof fn law_work_is_reported_as_it_ended(
    returned: crate::retirement::physical::CleanupReturn,
)
    ensures
        ({
            let result = crate::retirement::physical::attempt_result_of(returned);
            &&& result is Failed <==> returned is ReturnedError
            &&& result is Panicked <==> returned is Panicked
            &&& returned matches crate::retirement::physical::CleanupReturn::Returned(outcome) ==> {
                &&& result matches crate::retirement::physical::PhysicalAttemptResult::Succeeded {
                    reclaimed_local_bytes,
                    disposition,
                }
                &&& reclaimed_local_bytes == outcome.reclaimed_local_bytes
                &&& disposition == outcome.disposition
            }
        }),
{
}

/// A stream whose cleanup failed for good gets a second chance after its cooldown:
/// it no longer counts as failed, and starts with its first attempt.
pub proof fn law_second_chance_clears_the_failure(
    state: CoordinatorView,
    config: RetirementConfig,
    stream: StreamIdentity,
    priority: RetirementPriority,
    mode: LocalCleanupMode,
    now: Moment,
)
    requires
        !state.counters.closed,
        state.counters.next_admission_sequence < u64::MAX,
        state.retirement_of(stream.instance).ticket is None,
        state.retirement_of(stream.instance).cleanup_failed_at is Some,
        state.retirement_of(stream.instance).cooldown_until matches Some(until) && until.nanos
            <= now.nanos,
        state.counters.terminal_cleanup_failed_current > 0,
        !state.jobs.contains_key(stream.id),
        state.jobs.len() < config.queue_capacity,
    ensures
        ({
            let (next, answer) = state.admission(config, stream, priority, mode, now);
            &&& answer is Admitted
            &&& next.counters.terminal_cleanup_failed_current
                == state.counters.terminal_cleanup_failed_current - 1
            &&& next.retirement_of(stream.instance).cleanup_failed_at is None
            &&& next.retirement_of(stream.instance).cooldown_until is None
            &&& next.retirement_of(stream.instance).attempts == 0
            &&& next.jobs.contains_key(stream.id)
            &&& !state.fence_matches(stream) ==> next.fences == state.fences
            &&& next.counters.terminal_failures == state.counters.terminal_failures
        }),
{
}

} // verus!
