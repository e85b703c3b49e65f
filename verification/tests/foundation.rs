use durable_streams::clock::{Moment, Span, WallTime};
use durable_streams::retirement::foundation::{
    retry_backoff, FirstAttemptCompletion, LogicalCompletion, RetirementConfig,
    RetirementReservation, RetirementState, RetirementTicket, TerminalCleanupCompletion,
    TicketCells, CLEANUP_FAILURE_COOLDOWN_NANOS, DEFAULT_CLEANUP_WORKERS,
    DEFAULT_INTERACTIVE_PHYSICAL_QUEUE_CAPACITY, DEFAULT_PROACTIVE_CLEANUP_WORKERS,
    DEFAULT_PROACTIVE_COORDINATOR_CONCURRENCY, DEFAULT_PROACTIVE_PHYSICAL_QUEUE_CAPACITY,
    DEFAULT_RETIREMENT_CONCURRENCY, DEFAULT_RETIREMENT_QUEUE_CAPACITY, MAX_CLEANUP_ATTEMPTS,
    MAX_RETRY_BACKOFF_NANOS, RESERVED_INTERACTIVE_COORDINATOR_PERMITS,
};
use durable_streams::retirement::physical::PhysicalExecutor;

fn moment(secs: u64) -> Moment {
    Moment { nanos: 1_000_000_000_000 + secs as u128 * 1_000_000_000 }
}

fn wall() -> WallTime {
    WallTime { nanos: 1_700_000_000_000_000_000 }
}

fn ticket(id: u64) -> RetirementTicket {
    RetirementTicket { id }
}

#[test]
fn retirement_queue_coordinator_retry_backoff_is_capped_and_overflow_safe() {
    let base = Span::from_secs(1);
    assert_eq!(retry_backoff(1, base), Span::from_secs(1));
    assert_eq!(retry_backoff(2, base), Span::from_secs(2));
    assert_eq!(retry_backoff(3, base), Span::from_secs(4));
    assert_eq!(retry_backoff(7, base), Span::from_secs(60));
    assert_eq!(retry_backoff(u8::MAX, Span::longest()), Span::from_secs(60));
}

#[test]
fn backoff_doubles_between_its_ends() {
    let base = Span::from_millis(250);
    assert_eq!(retry_backoff(0, base), Span::from_millis(250));
    assert_eq!(retry_backoff(4, base), Span::from_secs(2));
    assert_eq!(retry_backoff(5, base), Span::from_secs(4));
    assert_eq!(retry_backoff(6, base), Span::from_secs(8));
    assert_eq!(retry_backoff(7, base), Span::from_secs(16));
    assert_eq!(retry_backoff(200, base), Span::from_secs(16));
}

#[test]
fn retirement_queue_ticket_defaults_and_config_are_pinned() {
    let config = RetirementConfig::default();
    assert_eq!(DEFAULT_RETIREMENT_QUEUE_CAPACITY, 4096);
    assert_eq!(DEFAULT_RETIREMENT_CONCURRENCY, 64);
    assert_eq!(RESERVED_INTERACTIVE_COORDINATOR_PERMITS, 8);
    assert_eq!(DEFAULT_PROACTIVE_COORDINATOR_CONCURRENCY, 56);
    assert_eq!(DEFAULT_INTERACTIVE_PHYSICAL_QUEUE_CAPACITY, 64);
    assert_eq!(DEFAULT_PROACTIVE_PHYSICAL_QUEUE_CAPACITY, 960);
    assert_eq!(DEFAULT_CLEANUP_WORKERS, 4);
    assert_eq!(DEFAULT_PROACTIVE_CLEANUP_WORKERS, 3);
    assert_eq!(MAX_CLEANUP_ATTEMPTS, 10);
    assert_eq!(Span { nanos: MAX_RETRY_BACKOFF_NANOS }, Span::from_secs(60));
    assert_eq!(Span { nanos: CLEANUP_FAILURE_COOLDOWN_NANOS }, Span::from_secs(5 * 60));
    assert!(config.validate().is_ok());

    let mut invalid = config.clone();
    invalid.queue_capacity = 0;
    assert!(invalid.validate().is_err());
    invalid = config.clone();
    invalid.coordinator_capacity = RESERVED_INTERACTIVE_COORDINATOR_PERMITS - 1;
    assert!(invalid.validate().is_err());
    invalid = config.clone();
    invalid.proactive_coordinator_capacity = DEFAULT_PROACTIVE_COORDINATOR_CONCURRENCY + 1;
    assert!(invalid.validate().is_err());
    invalid = config.clone();
    invalid.proactive_physical_capacity -= 1;
    assert!(invalid.validate().is_err());
    invalid = config.clone();
    invalid.physical_queue_capacity = 0;
    invalid.interactive_physical_capacity = 0;
    invalid.proactive_physical_capacity = 0;
    assert!(invalid.validate().is_err());
    invalid = config.clone();
    invalid.interactive_physical_capacity = 0;
    invalid.proactive_physical_capacity = 1024;
    assert!(invalid.validate().is_err());
    invalid = config;
    invalid.cleanup_workers = 0;
    assert!(invalid.validate().is_err());
}

#[test]
fn each_bad_limit_has_its_own_complaint() {
    let config = RetirementConfig::default();
    let mut bad = config;
    bad.queue_capacity = 0;
    assert_eq!(bad.validate(), Err("retirement capacities must be non-zero"));
    bad = config;
    bad.coordinator_capacity = 7;
    assert_eq!(
        bad.validate(),
        Err("coordination capacity must reserve eight interactive permits")
    );
    bad = config;
    bad.proactive_coordinator_capacity = 57;
    assert_eq!(bad.validate(), Err("proactive coordination must preserve interactive permits"));
    bad = config;
    bad.cleanup_workers = 0;
    assert_eq!(bad.validate(), Err("cleanup workers must reserve one interactive worker"));
}

#[test]
fn retirement_queue_ticket_late_subscribers_observe_each_phase() {
    let mut cells = TicketCells::default();
    assert!(cells.complete_logical(LogicalCompletion::Completed));
    assert!(cells.complete_first_attempt(FirstAttemptCompletion::Failed));
    assert!(cells.complete_terminal(TerminalCleanupCompletion::Failed));
    assert_eq!(cells.logical, Some(LogicalCompletion::Completed));
    assert_eq!(cells.first_attempt, Some(FirstAttemptCompletion::Failed));
    assert_eq!(cells.terminal, Some(TerminalCleanupCompletion::Failed));

    assert!(!cells.complete_logical(LogicalCompletion::Cancelled));
    assert!(!cells.complete_first_attempt(FirstAttemptCompletion::Cancelled));
    assert!(!cells.complete_terminal(TerminalCleanupCompletion::Cancelled));
    assert_eq!(cells.logical, Some(LogicalCompletion::Completed));
    assert_eq!(cells.first_attempt, Some(FirstAttemptCompletion::Failed));
    assert_eq!(cells.terminal, Some(TerminalCleanupCompletion::Failed));
}

#[test]
fn retirement_queue_state_deduplicates_and_clears() {
    let now = moment(0);
    let mut state = RetirementState::default();
    let first = match state.reserve(now, ticket(1)) {
        RetirementReservation::New(ticket) => ticket,
        _ => panic!("first reservation must allocate"),
    };
    let duplicate = match state.reserve(now, ticket(2)) {
        RetirementReservation::Existing(ticket) => ticket,
        _ => panic!("duplicate reservation must share ticket"),
    };
    assert!(first.same_identity(&duplicate));
    assert_eq!(state.record_attempt(), 1);
    assert!(state.finish(&first));
    assert!(state.is_clean());
}

#[test]
fn retirement_queue_state_terminal_failure_enforces_cooldown() {
    let now = moment(0);
    let mut state = RetirementState::default();
    let first = match state.reserve(now, ticket(1)) {
        RetirementReservation::New(ticket) => ticket,
        _ => panic!("first reservation must allocate"),
    };
    assert!(state.fail_terminal(&first, now, wall(), Span::from_secs(5)));
    assert!(matches!(
        state.reserve(moment(4), ticket(2)),
        RetirementReservation::CoolingDown
    ));
    assert!(matches!(
        state.reserve(moment(5), ticket(3)),
        RetirementReservation::New(_)
    ));
}

#[test]
fn retirement_queue_state_stale_ticket_cannot_complete_an_aba_replacement() {
    let now = moment(0);
    let mut state = RetirementState::default();
    let first = match state.reserve(now, ticket(1)) {
        RetirementReservation::New(ticket) => ticket,
        _ => panic!("first reservation must allocate"),
    };
    assert!(state.finish(&first));
    let replacement = match state.reserve(now, ticket(2)) {
        RetirementReservation::New(ticket) => ticket,
        _ => panic!("replacement must allocate"),
    };
    assert!(!state.finish(&first));
    assert!(!state.fail_terminal(&first, now, wall(), Span::from_secs(5)));
    assert!(matches!(
        state.reserve(now, ticket(3)),
        RetirementReservation::Existing(ticket) if ticket.same_identity(&replacement)
    ));
}

#[test]
fn retirement_queue_physical_defaults_are_exact() {
    let config = RetirementConfig::default();
    assert_eq!(config.interactive_physical_capacity, 64);
    assert_eq!(config.proactive_physical_capacity, 960);
    assert_eq!(config.physical_queue_capacity, 1024);
    assert_eq!(config.cleanup_workers, 4);
    let executor = match PhysicalExecutor::new(&config) {
        Ok(executor) => executor,
        Err(message) => panic!("{}", message),
    };
    assert_eq!(executor.worker_count(), DEFAULT_CLEANUP_WORKERS);
}
