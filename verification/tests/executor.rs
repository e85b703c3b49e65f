use durable_streams::clock::{Moment, Span, WallTime};
use durable_streams::retirement::coordinator::{
    expiry_cleanup_telemetry, CoordinatorState, RetirementExecutor,
};
use durable_streams::retirement::foundation::{
    FirstAttemptCompletion, LogicalCompletion, RetirementAdmission, RetirementConfig,
    RetirementPriority, RetirementTicket, TerminalCleanupCompletion, TicketCells, TicketCompletion,
    MAX_CLEANUP_ATTEMPTS,
};
use durable_streams::retirement::model::{
    ExpiryCleanupDisposition, ExpiryCleanupTelemetry, RetirementAdmissionResult, WorkerEvent,
};
use durable_streams::retirement::physical::{
    attempt_result, cancelled_completion, CleanupReturn, PhysicalAttemptResult, PhysicalExecutor,
    PhysicalJob, PhysicalSubmitError, WorkerStep, WorkerWake,
};
use durable_streams::store::cleanup::{
    LocalCleanupDisposition, LocalCleanupMode, LocalCleanupOutcome,
};
use durable_streams::store::identity::StreamIdentity;

const INTERACTIVE: RetirementPriority = RetirementPriority::Interactive;
const PROACTIVE: RetirementPriority = RetirementPriority::Proactive;
const EXPIRY: LocalCleanupMode = LocalCleanupMode::Expiry;

fn config(queue: usize, coordinator: usize, proactive: usize) -> RetirementConfig {
    RetirementConfig {
        queue_capacity: queue,
        coordinator_capacity: coordinator,
        proactive_coordinator_capacity: proactive,
        interactive_physical_capacity: 8,
        proactive_physical_capacity: 8,
        physical_queue_capacity: 16,
        cleanup_workers: 4,
        ..RetirementConfig::default()
    }
}

fn retry_config(queue: usize, retry_base: Span) -> RetirementConfig {
    RetirementConfig { retry_base, ..config(queue, 8, 0) }
}

fn stream(id: u64) -> StreamIdentity {
    StreamIdentity::from_parts(id, id + 1_000)
}

fn now(secs: u64) -> Moment {
    Moment { nanos: 1_000_000_000_000 + secs as u128 * 1_000_000_000 }
}

fn wall() -> WallTime {
    WallTime { nanos: 1_800_000_000_000_000_000 }
}

fn succeeded(bytes: u64) -> PhysicalAttemptResult {
    PhysicalAttemptResult::Succeeded {
        reclaimed_local_bytes: bytes,
        disposition: LocalCleanupDisposition::HardReaped,
    }
}

struct Run {
    executor: RetirementExecutor,
    told: Vec<TicketCompletion>,
    secs: u64,
}

impl Run {
    fn new(config: RetirementConfig) -> Run {
        match RetirementExecutor::new(config) {
            Ok(executor) => Run { executor, told: Vec::new(), secs: 0 },
            Err(message) => panic!("{}", message),
        }
    }

    fn enter(
        &mut self,
        stream: StreamIdentity,
        priority: RetirementPriority,
        mode: LocalCleanupMode,
    ) -> RetirementAdmissionResult {
        self.executor.admit_stream(stream, priority, mode, now(self.secs))
    }

    fn ticket(&mut self, stream: StreamIdentity, priority: RetirementPriority) -> RetirementTicket {
        match self.enter(stream, priority, EXPIRY) {
            RetirementAdmissionResult::Admitted(ticket) => ticket,
            other => panic!("{:?}", other),
        }
    }

    fn release(&mut self, stream: StreamIdentity, ticket: RetirementTicket) -> bool {
        match self.executor.release_logical(stream, ticket) {
            Some(told) => {
                self.told.push(told);
                true
            }
            None => false,
        }
    }

    fn cancel(&mut self, stream: StreamIdentity, ticket: RetirementTicket) -> bool {
        match self.executor.cancel_prelogical(stream, ticket) {
            Some(told) => {
                self.told.extend(told);
                true
            }
            None => false,
        }
    }

    fn admit_released(
        &mut self,
        stream: StreamIdentity,
        priority: RetirementPriority,
    ) -> RetirementTicket {
        let ticket = self.ticket(stream, priority);
        assert!(self.release(stream, ticket));
        ticket
    }

    fn dispatch(&mut self) -> Vec<u64> {
        self.executor.enqueue_due_retries(now(self.secs));
        let report = self.executor.dispatch_ready();
        self.told.extend(report.completions);
        report.started.iter().map(|started| started.job.stream.id).collect()
    }

    fn work(&mut self, result: PhysicalAttemptResult) -> bool {
        match self.executor.physical_step(1) {
            WorkerStep::Run { job, priority } => {
                self.executor.physical_job_ended(priority);
                self.finish(job.stream.id, job.attempt, result);
                true
            }
            _ => false,
        }
    }

    fn finish(&mut self, id: u64, attempt: u8, result: PhysicalAttemptResult) {
        let event = WorkerEvent { id, attempt, result, duration: Span::from_millis(3) };
        if let Some(effects) = self.executor.finish_attempt(event, now(self.secs), wall()) {
            self.told.extend(effects.completions);
        }
    }

    fn shut_down(&mut self) {
        let told = self.executor.cancel_all();
        self.told.extend(told);
        self.executor.close_physical();
    }

    fn cells(&self, ticket: RetirementTicket) -> TicketCells {
        let mut cells = TicketCells::default();
        for told in &self.told {
            let own = match told {
                TicketCompletion::Logical { ticket, .. } => *ticket,
                TicketCompletion::FirstAttempt { ticket, .. } => *ticket,
                TicketCompletion::Terminal { ticket, .. } => *ticket,
            };
            if own == ticket {
                cells.publish(*told);
            }
        }
        cells
    }
}

#[test]
fn retirement_queue_coordinator_deduplicates_ticket_and_retains_stream() {
    let mut run = Run::new(config(2, 8, 0));
    assert!(run.executor.has_tickets_left());
    let first = run.ticket(stream(1), INTERACTIVE);
    let duplicate = match run.enter(stream(1), PROACTIVE, EXPIRY) {
        RetirementAdmissionResult::Existing(ticket) => ticket,
        _ => panic!("duplicate must share the owner ticket"),
    };
    assert!(first.same_identity(&duplicate));
    assert!(run.release(stream(1), first));
    assert_eq!(run.dispatch(), vec![1]);
    assert!(run.work(succeeded(0)));
    let cells = run.cells(first);
    assert_eq!(cells.logical, Some(LogicalCompletion::Completed));
    assert!(matches!(cells.terminal, Some(TerminalCleanupCompletion::Succeeded { .. })));
}

#[test]
fn retirement_queue_coordinator_queue_full_rolls_back_reservation() {
    let mut run = Run::new(config(1, 8, 0));
    let first = run.admit_released(stream(1), INTERACTIVE);
    assert_eq!(
        run.enter(stream(2), INTERACTIVE, EXPIRY),
        RetirementAdmissionResult::Rejected(RetirementAdmission::QueueFull)
    );
    let saturated = run.executor.snapshot(now(0));
    assert_eq!(saturated.total_jobs, 1);
    assert_eq!(saturated.queue_capacity, 1);
    assert!(saturated.active_interactive <= 1);
    run.dispatch();
    assert!(run.work(succeeded(0)));
    assert!(matches!(
        run.cells(first).terminal,
        Some(TerminalCleanupCompletion::Succeeded { .. })
    ));
    let retry = run.admit_released(stream(2), INTERACTIVE);
    run.dispatch();
    assert!(run.work(succeeded(0)));
    assert!(matches!(
        run.cells(retry).terminal,
        Some(TerminalCleanupCompletion::Succeeded { .. })
    ));
}

#[test]
fn retirement_queue_coordinator_reserves_interactive_capacity() {
    let mut run = Run::new(config(8, 10, 2));
    for id in 1..4 {
        run.admit_released(stream(id), PROACTIVE);
    }
    assert_eq!(run.dispatch().len(), 2);
    let snapshot = run.executor.snapshot(now(0));
    assert_eq!((snapshot.active_interactive, snapshot.active_proactive), (0, 2));
    run.admit_released(stream(4), INTERACTIVE);
    assert_eq!(run.dispatch(), vec![4]);
    assert_eq!(run.executor.snapshot(now(0)).active_interactive, 1);
}

#[test]
fn retirement_queue_coordinator_prefers_interactive_and_keeps_fifo() {
    let mut run = Run::new(config(8, 10, 2));
    run.admit_released(stream(1), PROACTIVE);
    run.admit_released(stream(2), PROACTIVE);
    assert_eq!(run.dispatch(), vec![1, 2]);
    run.admit_released(stream(3), PROACTIVE);
    run.admit_released(stream(4), INTERACTIVE);
    run.admit_released(stream(5), INTERACTIVE);
    assert_eq!(run.dispatch(), vec![4, 5]);
    while run.work(succeeded(0)) {}
    assert_eq!(run.dispatch(), vec![3]);
}

#[test]
fn retirement_queue_coordinator_failure_and_shutdown_settle_every_phase() {
    let mut run = Run::new(retry_config(2, Span::from_secs(0)));
    let failed = run.admit_released(stream(1), INTERACTIVE);
    for _ in 0..MAX_CLEANUP_ATTEMPTS {
        assert_eq!(run.dispatch(), vec![1]);
        assert!(run.work(PhysicalAttemptResult::Failed));
    }
    let cells = run.cells(failed);
    assert_eq!(cells.first_attempt, Some(FirstAttemptCompletion::Failed));
    assert_eq!(cells.terminal, Some(TerminalCleanupCompletion::Failed));
    assert_eq!(cells.logical, Some(LogicalCompletion::Completed));

    let mut pending = Run::new(config(2, 8, 0));
    let waiting = pending.ticket(stream(2), INTERACTIVE);
    pending.shut_down();
    let cells = pending.cells(waiting);
    assert_eq!(cells.logical, Some(LogicalCompletion::Cancelled));
    assert_eq!(cells.first_attempt, Some(FirstAttemptCompletion::Cancelled));
    assert_eq!(cells.terminal, Some(TerminalCleanupCompletion::Cancelled));
}

#[test]
fn retirement_queue_coordinator_retry_failure_then_success_preserves_first_result() {
    let mut run = Run::new(retry_config(2, Span::from_secs(0)));
    let ticket = run.admit_released(stream(1), INTERACTIVE);
    run.dispatch();
    assert!(run.work(PhysicalAttemptResult::Failed));
    run.dispatch();
    assert!(run.work(succeeded(9)));
    let cells = run.cells(ticket);
    assert_eq!(cells.first_attempt, Some(FirstAttemptCompletion::Failed));
    assert_eq!(
        cells.terminal,
        Some(TerminalCleanupCompletion::Succeeded { reclaimed_local_bytes: 9 })
    );
    let snapshot = run.executor.snapshot(now(0));
    assert_eq!(snapshot.first_attempt_failures, 1);
    assert_eq!(snapshot.first_attempt_successes, 0);
    assert_eq!(snapshot.cumulative_retry_attempts, 1);
    assert_eq!(snapshot.terminal_successes, 1);
    assert_eq!(snapshot.terminal_failures, 0);
    assert_eq!(snapshot.first_attempt_cancellations, 0);
    assert_eq!(snapshot.reclaimed_local_bytes, 9);
    assert!(snapshot.latest_cleanup_wall_time.is_some());
    assert!(snapshot.latest_cleanup_duration.is_some());
    assert!(snapshot.last_successful_cleanup_duration.is_some());
}

#[test]
fn retirement_queue_coordinator_retry_permanent_failure_cools_down_and_releases_memory() {
    let mut run = Run::new(retry_config(2, Span::from_secs(0)));
    let ticket = run.admit_released(stream(1), INTERACTIVE);
    let mut attempts = 0;
    while run.dispatch() == vec![1] {
        assert!(run.work(PhysicalAttemptResult::Failed));
        attempts += 1;
    }
    assert_eq!(attempts, usize::from(MAX_CLEANUP_ATTEMPTS));
    assert_eq!(run.cells(ticket).first_attempt, Some(FirstAttemptCompletion::Failed));
    assert_eq!(run.cells(ticket).terminal, Some(TerminalCleanupCompletion::Failed));
    assert_eq!(run.executor.pending_and_jobs(), (0, 0, 0));
    assert_eq!(run.executor.snapshot(now(0)).retry_heap_count, 0);
    assert_eq!(
        run.enter(stream(1), INTERACTIVE, EXPIRY),
        RetirementAdmissionResult::Rejected(RetirementAdmission::CoolingDown)
    );
    run.secs = 300;
    let next = match run.enter(stream(1), INTERACTIVE, EXPIRY) {
        RetirementAdmissionResult::Admitted(next) => next,
        other => panic!("{:?}", other),
    };
    assert_ne!(next, ticket);
    assert_eq!(
        run.enter(stream(1), INTERACTIVE, EXPIRY),
        RetirementAdmissionResult::Existing(next)
    );
    assert_eq!(run.executor.snapshot(now(300)).terminal_cleanup_failed_current, 0);
}

#[test]
fn retirement_queue_coordinator_retry_shutdown_and_drop_cancel_scheduled_work() {
    let mut run = Run::new(retry_config(2, Span::from_secs(60)));
    let ticket = run.admit_released(stream(1), INTERACTIVE);
    run.dispatch();
    assert!(run.work(PhysicalAttemptResult::Failed));
    assert_eq!(run.cells(ticket).first_attempt, Some(FirstAttemptCompletion::Failed));
    assert_eq!(run.executor.next_retry_deadline(), Some(now(60)));
    assert!(run.dispatch().is_empty());
    run.shut_down();
    assert_eq!(run.cells(ticket).logical, Some(LogicalCompletion::Completed));
    assert_eq!(run.cells(ticket).terminal, Some(TerminalCleanupCompletion::Cancelled));
    run.secs = 120;
    assert!(run.dispatch().is_empty());
}

#[test]
fn retirement_queue_coordinator_retry_success_on_first_attempt_does_not_schedule() {
    let mut run = Run::new(retry_config(2, Span::from_secs(0)));
    let ticket = run.admit_released(stream(1), INTERACTIVE);
    run.dispatch();
    assert!(run.work(succeeded(0)));
    assert!(matches!(
        run.cells(ticket).terminal,
        Some(TerminalCleanupCompletion::Succeeded { .. })
    ));
    assert_eq!(run.executor.snapshot(now(0)).retry_heap_count, 0);
    assert_eq!(run.executor.next_retry_deadline(), None);
}

#[test]
fn retirement_queue_logical_gate_owner_duplicate_and_one_time_release() {
    let mut run = Run::new(config(2, 8, 0));
    let owner = run.ticket(stream(1), INTERACTIVE);
    assert_eq!(
        run.enter(stream(1), INTERACTIVE, EXPIRY),
        RetirementAdmissionResult::Existing(owner)
    );
    assert!(run.dispatch().is_empty(), "cleanup must not start before logical release");
    assert!(run.release(stream(1), owner));
    assert!(!run.release(stream(1), owner));
    assert_eq!(run.cells(owner).logical, Some(LogicalCompletion::Completed));
    assert_eq!(run.dispatch(), vec![1]);
    assert!(run.work(succeeded(0)));
    assert!(run.dispatch().is_empty(), "one release must submit exactly one cleanup");
}

#[test]
fn retirement_queue_logical_gate_stale_identity_and_cancel_are_noops() {
    let original = stream(1);
    let replacement = StreamIdentity::from_parts(1, 77);
    let mut run = Run::new(config(2, 8, 0));
    let first = run.ticket(original, INTERACTIVE);
    assert!(!run.release(replacement, first));
    assert!(!run.cancel(replacement, first));
    assert_eq!(
        run.enter(replacement, INTERACTIVE, EXPIRY),
        RetirementAdmissionResult::Rejected(RetirementAdmission::IdentityConflict)
    );
    assert!(run.cancel(original, first));
    let cells = run.cells(first);
    assert_eq!(cells.logical, Some(LogicalCompletion::Cancelled));
    assert_eq!(cells.first_attempt, Some(FirstAttemptCompletion::Cancelled));
    assert_eq!(cells.terminal, Some(TerminalCleanupCompletion::Cancelled));

    let second = run.ticket(original, INTERACTIVE);
    assert!(!run.release(original, first));
    assert!(!run.cancel(original, first));
    assert!(run.release(original, second));
    assert!(!run.cancel(original, second));
    run.dispatch();
    assert!(run.work(succeeded(0)));
    assert!(matches!(
        run.cells(second).terminal,
        Some(TerminalCleanupCompletion::Succeeded { .. })
    ));
}

#[test]
fn retirement_queue_logical_gate_capacity_and_unreleased_shutdown_drop() {
    let mut run = Run::new(config(1, 8, 0));
    let first = run.ticket(stream(1), INTERACTIVE);
    assert_eq!(
        run.enter(stream(2), INTERACTIVE, EXPIRY),
        RetirementAdmissionResult::Rejected(RetirementAdmission::QueueFull)
    );
    assert!(run.cancel(stream(1), first));
    let second = run.ticket(stream(2), INTERACTIVE);
    run.shut_down();
    let cells = run.cells(second);
    assert_eq!(cells.logical, Some(LogicalCompletion::Cancelled));
    assert_eq!(cells.first_attempt, Some(FirstAttemptCompletion::Cancelled));
    assert_eq!(cells.terminal, Some(TerminalCleanupCompletion::Cancelled));
    assert_eq!(
        run.enter(stream(3), INTERACTIVE, EXPIRY),
        RetirementAdmissionResult::Rejected(RetirementAdmission::ShuttingDown)
    );
}

#[test]
fn retirement_snapshot_tracks_logical_and_physical_lifecycle() {
    let mut run = Run::new(config(2, 8, 0));
    let empty = run.executor.snapshot(now(0));
    assert_eq!(empty.queue_capacity, 2);
    assert_eq!(empty.total_jobs, 0);
    assert_eq!(empty.cleanup_workers_total, 4);
    assert_eq!(empty.cleanup_workers_live, 4);
    let ticket = run.ticket(stream(1), INTERACTIVE);
    let admitted = run.executor.snapshot(now(5));
    assert_eq!(admitted.total_jobs, 1);
    assert_eq!(admitted.oldest_admitted_age, Some(Span::from_secs(5)));
    assert_eq!(admitted.interactive_pending, 0);
    assert!(run.release(stream(1), ticket));
    run.dispatch();
    assert!(run.work(succeeded(37)));
    assert_eq!(
        run.cells(ticket).terminal,
        Some(TerminalCleanupCompletion::Succeeded { reclaimed_local_bytes: 37 })
    );
    let completed = run.executor.snapshot(now(0));
    assert_eq!(completed.total_jobs, 0);
    assert_eq!(completed.terminal_successes, 1);
    assert_eq!(completed.first_attempt_successes, 1);
    assert_eq!(completed.reclaimed_local_bytes, 37);
    assert!(completed.latest_cleanup_wall_time.is_some());
    assert!(completed.last_successful_cleanup_duration.is_some());
    assert_eq!(completed.oldest_admitted_age, None);
    run.shut_down();
    assert!(run.executor.snapshot(now(0)).closed);
}

#[test]
fn retirement_snapshot_counts_prelogical_cancellation_without_physical_reap() {
    let mut run = Run::new(config(1, 8, 0));
    let ticket = run.ticket(stream(1), INTERACTIVE);
    assert!(run.cancel(stream(1), ticket));
    let snapshot = run.executor.snapshot(now(0));
    assert_eq!(snapshot.total_jobs, 0);
    assert_eq!(snapshot.terminal_cancellations, 1);
    assert_eq!(snapshot.first_attempt_cancellations, 1);
    assert_eq!(snapshot.terminal_successes, 0);
    assert_eq!(snapshot.reclaimed_local_bytes, 0);
}

#[test]
fn expiry_telemetry_state_is_mode_scoped_and_fence_survives_prelogical_cancel() {
    let mut run = Run::new(config(3, 8, 0));
    let expiry = run.ticket(stream(1), INTERACTIVE);
    assert!(run.executor.mark_expiry_fence(stream(1), now(0)));
    let explicit = match run.enter(stream(2), INTERACTIVE, LocalCleanupMode::ExplicitDelete) {
        RetirementAdmissionResult::Admitted(ticket) => ticket,
        other => panic!("{:?}", other),
    };
    assert_eq!(run.executor.expiry_telemetry(now(4)).queue_depth, 1);
    assert_eq!(
        run.executor.expiry_telemetry(now(4)).oldest_fence_age,
        Some(Span::from_secs(4))
    );
    assert!(run.cancel(stream(1), expiry));
    assert_eq!(run.executor.expiry_telemetry(now(4)).queue_depth, 0);
    assert!(run.executor.expiry_telemetry(now(4)).oldest_fence_age.is_some());
    assert!(run.cancel(stream(2), explicit));
    run.shut_down();
    let after = run.executor.expiry_telemetry(now(4));
    assert_eq!((after.queue_depth, after.cleanup_failed, after.oldest_fence_age), (0, 0, None));
    assert!(!run.executor.mark_expiry_fence(stream(1), now(4)));
    assert_eq!(run.executor.expiry_telemetry(now(4)).oldest_fence_age, None);
}

#[test]
fn expiry_fence_index_relinks_head_middle_and_tail_without_duplicate_identity() {
    let mut run = Run::new(config(3, 8, 0));
    assert!(run.executor.mark_expiry_fence(stream(1), now(1)));
    assert!(run.executor.mark_expiry_fence(stream(2), now(2)));
    assert!(run.executor.mark_expiry_fence(stream(3), now(3)));
    assert!(
        !run.executor.mark_expiry_fence(stream(2), now(4)),
        "the same exact identity has one fence node"
    );
    let age = |run: &Run| run.executor.expiry_telemetry(now(10)).oldest_fence_age;
    assert_eq!(age(&run), Some(Span::from_secs(9)));
    assert!(run.executor.stream_disposed(stream(2)));
    assert_eq!(age(&run), Some(Span::from_secs(9)));
    assert!(run.executor.stream_disposed(stream(1)));
    assert_eq!(age(&run), Some(Span::from_secs(7)));
    assert!(!run.executor.stream_disposed(StreamIdentity::from_parts(3, 9)));
    assert!(run.executor.stream_disposed(stream(3)));
    assert_eq!(age(&run), None);
}

#[test]
fn expiry_cleanup_mapping_and_terminal_failure_state_are_mode_scoped() {
    let duration = Span::from_millis(250);
    let hard_zero = succeeded(0);
    let soft = PhysicalAttemptResult::Succeeded {
        reclaimed_local_bytes: 0,
        disposition: LocalCleanupDisposition::DurableSoftDeleted,
    };
    for mode in [
        LocalCleanupMode::ExplicitDelete,
        LocalCleanupMode::CascadeCollection,
    ] {
        assert_eq!(expiry_cleanup_telemetry(mode, hard_zero, duration), None);
        assert_eq!(expiry_cleanup_telemetry(mode, soft, duration), None);
        assert_eq!(
            expiry_cleanup_telemetry(mode, PhysicalAttemptResult::Failed, duration),
            None,
            "non-expiry retries/failures never emit expiry cleanup duration"
        );
    }
    let told = |disposition: Option<ExpiryCleanupDisposition>| {
        Some(ExpiryCleanupTelemetry { duration, disposition })
    };
    assert_eq!(
        expiry_cleanup_telemetry(EXPIRY, hard_zero, duration),
        told(Some(ExpiryCleanupDisposition::Reaped(0)))
    );
    assert_eq!(
        expiry_cleanup_telemetry(EXPIRY, soft, duration),
        told(Some(ExpiryCleanupDisposition::SoftDeleted))
    );
    assert_eq!(
        expiry_cleanup_telemetry(EXPIRY, PhysicalAttemptResult::Failed, duration),
        told(None)
    );

    let mut run = Run::new(retry_config(2, Span::from_secs(0)));
    assert!(run.executor.mark_expiry_fence(stream(1), now(0)));
    run.admit_released(stream(1), INTERACTIVE);
    while run.dispatch() == vec![1] {
        assert!(run.work(PhysicalAttemptResult::Failed));
    }
    assert_eq!(run.executor.expiry_telemetry(now(0)).cleanup_failed, 1);
    assert!(run.executor.stream_disposed(stream(1)));
    assert_eq!(run.executor.expiry_telemetry(now(0)).cleanup_failed, 0);
}

#[test]
fn retirement_snapshot_ignores_stale_worker_events_after_cancellation() {
    let mut run = Run::new(config(1, 8, 0));
    let ticket = run.ticket(stream(1), INTERACTIVE);
    assert!(run.cancel(stream(1), ticket));
    let before = run.executor.snapshot(now(0));
    run.finish(1, 1, succeeded(99));
    let after = run.executor.snapshot(now(0));
    assert_eq!(after.latest_cleanup_wall_time, before.latest_cleanup_wall_time);
    assert_eq!(after.latest_cleanup_duration, before.latest_cleanup_duration);
    assert_eq!(after.terminal_successes, before.terminal_successes);
    assert_eq!(after.reclaimed_local_bytes, before.reclaimed_local_bytes);
}

#[test]
fn retirement_snapshot_ignores_stale_worker_events_after_shutdown() {
    let mut run = Run::new(config(1, 8, 0));
    let _ = run.ticket(stream(1), INTERACTIVE);
    run.shut_down();
    let before = run.executor.snapshot(now(0));
    assert_eq!(before.terminal_cancellations, 1);
    assert_eq!(before.first_attempt_cancellations, 1);
    run.finish(1, 1, succeeded(99));
    assert_eq!(run.executor.snapshot(now(0)), before);
    assert!(run.executor.cancel_all().is_empty());
    assert_eq!(run.executor.snapshot(now(0)), before);
}

#[test]
fn retirement_shutdown_and_drop_count_cancellation_once() {
    let mut run = Run::new(config(1, 8, 0));
    let ticket = run.ticket(stream(1), INTERACTIVE);
    run.shut_down();
    let after = run.executor.snapshot(now(0));
    assert_eq!(after.terminal_cancellations, 1);
    assert_eq!(after.first_attempt_cancellations, 1);
    run.shut_down();
    assert_eq!(run.executor.snapshot(now(0)), after);
    assert_eq!(run.cells(ticket).terminal, Some(TerminalCleanupCompletion::Cancelled));
}

#[test]
fn retirement_snapshot_publishes_first_and_terminal_attempt_one_together() {
    let mut run = Run::new(config(1, 8, 0));
    let ticket = run.admit_released(stream(1), INTERACTIVE);
    run.dispatch();
    assert!(run.work(succeeded(7)));
    let snapshot = run.executor.snapshot(now(0));
    assert_eq!(snapshot.terminal_successes, 1);
    assert_eq!(snapshot.first_attempt_successes, 1);
    assert_eq!(snapshot.active_interactive, 0);
    assert_eq!(snapshot.total_jobs, 0);
    assert_eq!(snapshot.reclaimed_local_bytes, 7);
    assert!(snapshot.latest_cleanup_wall_time.is_some());
    assert!(snapshot.last_successful_cleanup_wall_time.is_some());
    assert_eq!(
        run.cells(ticket).first_attempt,
        Some(FirstAttemptCompletion::Succeeded { reclaimed_local_bytes: 7 })
    );
    assert_eq!(
        run.cells(ticket).terminal,
        Some(TerminalCleanupCompletion::Succeeded { reclaimed_local_bytes: 7 })
    );
}

fn lanes(interactive: usize, proactive: usize, workers: usize) -> PhysicalExecutor {
    let config = RetirementConfig {
        interactive_physical_capacity: interactive,
        proactive_physical_capacity: proactive,
        physical_queue_capacity: interactive + proactive,
        cleanup_workers: workers,
        ..RetirementConfig::default()
    };
    match PhysicalExecutor::new(&config) {
        Ok(lanes) => lanes,
        Err(message) => panic!("{}", message),
    }
}

fn job(id: u64) -> PhysicalJob {
    PhysicalJob { stream: stream(id), attempt: 1, mode: EXPIRY }
}

#[test]
fn retirement_queue_physical_proactive_wakes_a_capable_idle_worker() {
    let mut lanes = lanes(2, 2, 2);
    assert_eq!(lanes.submit(job(1), PROACTIVE), Ok(WorkerWake::All));
    assert_eq!(lanes.next_step(0), WorkerStep::Wait);
    assert_eq!(lanes.next_step(1), WorkerStep::Run { job: job(1), priority: PROACTIVE });
    assert_eq!(lanes.submit(job(2), INTERACTIVE), Ok(WorkerWake::One));
}

#[test]
fn retirement_queue_physical_lanes_fill_independently() {
    let mut lanes = lanes(1, 1, 2);
    assert!(lanes.submit(job(1), INTERACTIVE).is_ok());
    assert_eq!(lanes.submit(job(2), INTERACTIVE), Err(PhysicalSubmitError::Full));
    assert!(lanes.submit(job(3), PROACTIVE).is_ok());
    assert_eq!(lanes.submit(job(4), PROACTIVE), Err(PhysicalSubmitError::Full));
    let snapshot = lanes.snapshot();
    assert_eq!((snapshot.interactive_queued, snapshot.proactive_queued), (1, 1));
}

#[test]
fn retirement_queue_physical_reserves_worker_and_prefers_interactive() {
    let mut lanes = lanes(4, 4, 2);
    assert!(lanes.submit(job(1), PROACTIVE).is_ok());
    assert!(lanes.submit(job(2), INTERACTIVE).is_ok());
    assert_eq!(lanes.next_step(1), WorkerStep::Run { job: job(2), priority: INTERACTIVE });
    assert_eq!(lanes.next_step(0), WorkerStep::Wait);
    lanes.finish_job(INTERACTIVE);
    assert_eq!(lanes.next_step(1), WorkerStep::Run { job: job(1), priority: PROACTIVE });
}

#[test]
fn retirement_queue_physical_fifo_and_strong_arc_retention() {
    let mut lanes = lanes(4, 4, 2);
    for id in 1..4 {
        assert!(lanes.submit(job(id), INTERACTIVE).is_ok());
    }
    for id in 1..4 {
        assert_eq!(lanes.next_step(1), WorkerStep::Run { job: job(id), priority: INTERACTIVE });
        lanes.finish_job(INTERACTIVE);
    }
}

#[test]
fn retirement_queue_physical_reports_error_panic_and_worker_survives() {
    assert_eq!(attempt_result(CleanupReturn::ReturnedError), PhysicalAttemptResult::Failed);
    assert_eq!(attempt_result(CleanupReturn::Panicked), PhysicalAttemptResult::Panicked);
    let outcome = LocalCleanupOutcome {
        reclaimed_local_bytes: 11,
        ..LocalCleanupOutcome::default()
    };
    assert_eq!(attempt_result(CleanupReturn::Returned(outcome)), succeeded(11));
}

#[test]
fn retirement_queue_physical_shutdown_drains_and_drop_is_nonblocking() {
    let mut lanes = lanes(4, 4, 2);
    assert!(lanes.submit(job(1), INTERACTIVE).is_ok());
    lanes.close_admission();
    assert_eq!(lanes.submit(job(2), INTERACTIVE), Err(PhysicalSubmitError::Closed));
    assert_eq!(lanes.next_step(0), WorkerStep::Run { job: job(1), priority: INTERACTIVE });
    lanes.finish_job(INTERACTIVE);
    assert_eq!(lanes.next_step(0), WorkerStep::Exit);
    assert!(lanes.cancel_queued().is_empty());
}

#[test]
fn dropped_attempts_count_as_cancelled_at_once() {
    let completion = cancelled_completion();
    assert_eq!(completion.result, PhysicalAttemptResult::Cancelled);
    assert_eq!(completion.duration, Span { nanos: 0 });
}

#[test]
fn expiry_fence_lease_drop_removes_the_exact_middle_failure_node() {
    let mut run = Run::new(retry_config(3, Span::from_secs(0)));
    for id in 1..4 {
        assert!(run.executor.mark_expiry_fence(stream(id), now(id)));
    }
    run.admit_released(stream(2), INTERACTIVE);
    while run.dispatch() == vec![2] {
        assert!(run.work(PhysicalAttemptResult::Failed));
    }
    assert_eq!(run.executor.expiry_telemetry(now(10)).cleanup_failed, 1);
    assert!(run.executor.stream_disposed(stream(2)));
    let left = run.executor.expiry_telemetry(now(10));
    assert_eq!(left.cleanup_failed, 0);
    assert_eq!(left.oldest_fence_age, Some(Span::from_secs(9)));
    assert!(run.executor.stream_disposed(stream(1)));
    assert_eq!(
        run.executor.expiry_telemetry(now(10)).oldest_fence_age,
        Some(Span::from_secs(7))
    );
}

#[test]
fn a_removed_fence_leaves_the_others_in_the_order_of_marking() {
    let mut state = CoordinatorState::new();
    for id in 1..4 {
        assert!(state.mark_expiry_fence(stream(id), now(id)));
    }
    assert!(!state.mark_expiry_fence(stream(2), now(9)));
    assert!(!state.remove_expiry_fence(StreamIdentity::from_parts(2, 99)));
    assert!(state.remove_expiry_fence(stream(2)));
    assert!(!state.remove_expiry_fence(stream(2)));
    assert!(state.remove_expiry_fence(stream(1)));
    assert!(state.remove_expiry_fence(stream(3)));
    assert!(state.mark_expiry_fence(stream(2), now(9)));
}
