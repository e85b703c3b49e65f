//! Limits, tickets and the per-stream admission state of retirement.

use crate::clock::{min_int, Moment, Span, WallTime};
use vstd::prelude::*;

verus! {

pub const DEFAULT_RETIREMENT_QUEUE_CAPACITY: usize = 4096;

pub const DEFAULT_RETIREMENT_CONCURRENCY: usize = 64;

pub const RESERVED_INTERACTIVE_COORDINATOR_PERMITS: usize = 8;

pub const DEFAULT_PROACTIVE_COORDINATOR_CONCURRENCY: usize = DEFAULT_RETIREMENT_CONCURRENCY
    - RESERVED_INTERACTIVE_COORDINATOR_PERMITS;

pub const DEFAULT_PHYSICAL_QUEUE_CAPACITY: usize = 1024;

pub const DEFAULT_INTERACTIVE_PHYSICAL_QUEUE_CAPACITY: usize = 64;

pub const DEFAULT_PROACTIVE_PHYSICAL_QUEUE_CAPACITY: usize = DEFAULT_PHYSICAL_QUEUE_CAPACITY
    - DEFAULT_INTERACTIVE_PHYSICAL_QUEUE_CAPACITY;

pub const DEFAULT_CLEANUP_WORKERS: usize = 4;

pub const RESERVED_INTERACTIVE_CLEANUP_WORKERS: usize = 1;

pub const DEFAULT_PROACTIVE_CLEANUP_WORKERS: usize = DEFAULT_CLEANUP_WORKERS
    - RESERVED_INTERACTIVE_CLEANUP_WORKERS;

pub const MAX_CLEANUP_ATTEMPTS: u8 = 10;

/// Sixty seconds, in nanoseconds.
pub const MAX_RETRY_BACKOFF_NANOS: u128 = 60_000_000_000;

/// Five minutes, in nanoseconds.
pub const CLEANUP_FAILURE_COOLDOWN_NANOS: u128 = 300_000_000_000;

/// Which lane a retirement uses.
#[derive(Clone, Copy, Debug, PartialEq, Eq, Structural)]
pub enum RetirementPriority {
    Interactive,
    Proactive,
}

/// Why an admission was turned away.
#[derive(Clone, Copy, Debug, PartialEq, Eq, Structural)]
pub enum RetirementAdmission {
    QueueFull,
    CoolingDown,
    ShuttingDown,
    IdentityConflict,
}

#[derive(Clone, Copy, Debug, PartialEq, Eq, Structural)]
pub enum LogicalCompletion {
    Completed,
    Cancelled,
}

#[derive(Clone, Copy, Debug, PartialEq, Eq, Structural)]
pub enum FirstAttemptCompletion {
    Succeeded { reclaimed_local_bytes: u64 },
    Failed,
    Cancelled,
}

#[derive(Clone, Copy, Debug, PartialEq, Eq, Structural)]
pub enum TerminalCleanupCompletion {
    Succeeded { reclaimed_local_bytes: u64 },
    Failed,
    Cancelled,
}

/// Fixed limits of the worker pool and of the coordinator.
#[derive(Clone, Copy, Debug, PartialEq, Eq, Structural)]
pub struct RetirementConfig {
    pub queue_capacity: usize,
    pub coordinator_capacity: usize,
    pub proactive_coordinator_capacity: usize,
    pub interactive_physical_capacity: usize,
    pub proactive_physical_capacity: usize,
    pub physical_queue_capacity: usize,
    pub cleanup_workers: usize,
    pub retry_base: Span,
    pub cooldown: Span,
}

impl Default for RetirementConfig {
    fn default() -> (r: Self)
        ensures
            r.is_default(),
            r.valid(),
    {
        RetirementConfig {
            queue_capacity: DEFAULT_RETIREMENT_QUEUE_CAPACITY,
            coordinator_capacity: DEFAULT_RETIREMENT_CONCURRENCY,
            proactive_coordinator_capacity: DEFAULT_PROACTIVE_COORDINATOR_CONCURRENCY,
            interactive_physical_capacity: DEFAULT_INTERACTIVE_PHYSICAL_QUEUE_CAPACITY,
            proactive_physical_capacity: DEFAULT_PROACTIVE_PHYSICAL_QUEUE_CAPACITY,
            physical_queue_capacity: DEFAULT_PHYSICAL_QUEUE_CAPACITY,
            cleanup_workers: DEFAULT_CLEANUP_WORKERS,
            retry_base: Span::from_secs(1),
            cooldown: Span { nanos: CLEANUP_FAILURE_COOLDOWN_NANOS },
        }
    }
}

impl RetirementConfig {
    /// The default limits: a second before the first retry, and five minutes of
    /// cooldown.
    pub open spec fn is_default(&self) -> bool {
        &&& self.queue_capacity == DEFAULT_RETIREMENT_QUEUE_CAPACITY
        &&& self.coordinator_capacity == DEFAULT_RETIREMENT_CONCURRENCY
        &&& self.proactive_coordinator_capacity == DEFAULT_PROACTIVE_COORDINATOR_CONCURRENCY
        &&& self.interactive_physical_capacity == DEFAULT_INTERACTIVE_PHYSICAL_QUEUE_CAPACITY
        &&& self.proactive_physical_capacity == DEFAULT_PROACTIVE_PHYSICAL_QUEUE_CAPACITY
        &&& self.physical_queue_capacity == DEFAULT_PHYSICAL_QUEUE_CAPACITY
        &&& self.cleanup_workers == DEFAULT_CLEANUP_WORKERS
        &&& self.retry_base.nanos == 1_000_000_000
        &&& self.cooldown.nanos == CLEANUP_FAILURE_COOLDOWN_NANOS
    }

    /// The limits leave every reserved slot available.
    pub open spec fn valid(&self) -> bool {
        &&& self.queue_capacity > 0
        &&& self.coordinator_capacity >= RESERVED_INTERACTIVE_COORDINATOR_PERMITS
        &&& self.proactive_coordinator_capacity + RESERVED_INTERACTIVE_COORDINATOR_PERMITS
            <= self.coordinator_capacity
        &&& self.interactive_physical_capacity > 0
        &&& self.interactive_physical_capacity + self.proactive_physical_capacity
            == self.physical_queue_capacity
        &&& self.cleanup_workers >= RESERVED_INTERACTIVE_CLEANUP_WORKERS
    }

    /// The first complaint about these limits, in the order in which they are
    /// examined.
    pub open spec fn complaint(&self) -> Option<Seq<char>> {
        if self.queue_capacity == 0 || self.coordinator_capacity == 0 {
            Some("retirement capacities must be non-zero"@)
        } else if self.coordinator_capacity < RESERVED_INTERACTIVE_COORDINATOR_PERMITS {
            Some("coordination capacity must reserve eight interactive permits"@)
        } else if self.proactive_coordinator_capacity + RESERVED_INTERACTIVE_COORDINATOR_PERMITS
            > self.coordinator_capacity {
            Some("proactive coordination must preserve interactive permits"@)
        } else if self.physical_queue_capacity == 0 {
            Some("physical queue capacity must be non-zero"@)
        } else if self.interactive_physical_capacity == 0 {
            Some("physical queue must reserve interactive capacity"@)
        } else if self.interactive_physical_capacity + self.proactive_physical_capacity
            != self.physical_queue_capacity {
            Some("physical queue partition must total the configured capacity"@)
        } else if self.cleanup_workers < RESERVED_INTERACTIVE_CLEANUP_WORKERS {
            Some("cleanup workers must reserve one interactive worker"@)
        } else {
            None
        }
    }

    /// Reject limits that could starve interactive work.
    pub fn validate(&self) -> (r: Result<(), &'static str>)
        ensures
            r is Ok <==> self.valid(),
            match r {
                Ok(_) => self.complaint() is None,
                Err(message) => self.complaint() == Some(message@),
            },
    {
        if self.queue_capacity == 0 || self.coordinator_capacity == 0 {
            return Err("retirement capacities must be non-zero");
        }
        if self.coordinator_capacity < RESERVED_INTERACTIVE_COORDINATOR_PERMITS {
            return Err("coordination capacity must reserve eight interactive permits");
        }
        if self.proactive_coordinator_capacity > self.coordinator_capacity
            - RESERVED_INTERACTIVE_COORDINATOR_PERMITS {
            return Err("proactive coordination must preserve interactive permits");
        }
        if self.physical_queue_capacity == 0 {
            return Err("physical queue capacity must be non-zero");
        }
        if self.interactive_physical_capacity == 0 {
            return Err("physical queue must reserve interactive capacity");
        }
        let partition = self.interactive_physical_capacity.checked_add(
            self.proactive_physical_capacity,
        );
        if partition != Some(self.physical_queue_capacity) {
            return Err("physical queue partition must total the configured capacity");
        }
        if self.cleanup_workers < RESERVED_INTERACTIVE_CLEANUP_WORKERS {
            return Err("cleanup workers must reserve one interactive worker");
        }
        Ok(())
    }
}

/// How many times the base delay the wait after attempt `attempt` is, before
/// the cap: it doubles from one attempt to the next and stops at sixty-four.
pub open spec fn backoff_factor(attempt: u8) -> int {
    if attempt <= 1 {
        1
    } else if attempt >= 7 {
        64
    } else {
        vstd::arithmetic::power2::pow2((attempt - 1) as nat) as int
    }
}

/// The wait after attempt `attempt`, in nanoseconds.
pub open spec fn backoff_nanos(attempt: u8, base: int) -> int {
    min_int(base * backoff_factor(attempt), MAX_RETRY_BACKOFF_NANOS as int)
}

/// Exponential retry delay after a failed physical cleanup attempt, capped at
/// one minute whatever the attempt number and the base are.
pub fn retry_backoff(attempt: u8, base: Span) -> (r: Span)
    ensures
        r.nanos == backoff_nanos(attempt, base.nanos as int),
{
    proof {
        vstd::arithmetic::power2::lemma2_to64();
    }
    let factor: u128 = if attempt <= 1 {
        1
    } else if attempt == 2 {
        2
    } else if attempt == 3 {
        4
    } else if attempt == 4 {
        8
    } else if attempt == 5 {
        16
    } else if attempt == 6 {
        32
    } else {
        64
    };
    assert(factor == backoff_factor(attempt));
    if base.nanos >= MAX_RETRY_BACKOFF_NANOS {
        proof {
            assert(base.nanos * factor >= base.nanos) by (nonlinear_arith)
                requires
                    factor >= 1,
            ;
        }
        return Span { nanos: MAX_RETRY_BACKOFF_NANOS };
    }
    proof {
        assert(base.nanos * factor <= MAX_RETRY_BACKOFF_NANOS * 64) by (nonlinear_arith)
            requires
                0 <= base.nanos <= MAX_RETRY_BACKOFF_NANOS,
                1 <= factor <= 64,
        ;
    }
    let scaled: u128 = base.nanos * factor;
    if scaled <= MAX_RETRY_BACKOFF_NANOS {
        Span { nanos: scaled }
    } else {
        Span { nanos: MAX_RETRY_BACKOFF_NANOS }
    }
}

/// The delay never exceeds a minute, is never shorter for a later attempt, and
/// is the base itself after the first attempt while the base is under the cap.
pub proof fn law_backoff_is_capped_and_monotone(earlier: u8, later: u8, base: Span)
    requires
        earlier <= later,
    ensures
        backoff_nanos(later, base.nanos as int) <= MAX_RETRY_BACKOFF_NANOS,
        backoff_nanos(earlier, base.nanos as int) <= backoff_nanos(later, base.nanos as int),
        base.nanos <= MAX_RETRY_BACKOFF_NANOS ==> backoff_nanos(1, base.nanos as int) == base.nanos,
{
    vstd::arithmetic::power2::lemma2_to64();
    let a = backoff_factor(earlier);
    let b = backoff_factor(later);
    assert(a <= b) by {
        if 1 < earlier && earlier < 7 && 1 < later && later < 7 && earlier < later {
            vstd::arithmetic::power2::lemma_pow2_strictly_increases(
                (earlier - 1) as nat,
                (later - 1) as nat,
            );
        }
        if 1 < earlier && earlier < 7 && later >= 7 {
            vstd::arithmetic::power2::lemma_pow2_strictly_increases((earlier - 1) as nat, 6);
        }
        if earlier <= 1 && 1 < later && later < 7 {
            vstd::arithmetic::power2::lemma_pow2_pos((later - 1) as nat);
        }
    }
    assert(base.nanos * a <= base.nanos * b) by (nonlinear_arith)
        requires
            a <= b,
            0 <= base.nanos,
    ;
}

/// Identity of one admission. Duplicate admissions share it.
#[derive(Clone, Copy, Debug, PartialEq, Eq, Structural)]
pub struct RetirementTicket {
    pub id: u64,
}

impl RetirementTicket {
    /// Whether both handles observe the same admission.
    pub fn same_identity(&self, other: &Self) -> (r: bool)
        ensures
            r == (self == other),
    {
        self.id == other.id
    }
}

/// The three completions that the holders of a ticket observe. Each is written
/// at most once.
#[derive(Clone, Copy, Debug, PartialEq, Eq, Structural)]
pub struct TicketCells {
    pub logical: Option<LogicalCompletion>,
    pub first_attempt: Option<FirstAttemptCompletion>,
    pub terminal: Option<TerminalCleanupCompletion>,
}

/// One completion to be published to the holders of a ticket.
#[allow(inconsistent_fields)]
#[derive(Clone, Copy, Debug, PartialEq, Eq, Structural)]
pub enum TicketCompletion {
    Logical { ticket: RetirementTicket, result: LogicalCompletion },
    FirstAttempt { ticket: RetirementTicket, result: FirstAttemptCompletion },
    Terminal { ticket: RetirementTicket, result: TerminalCleanupCompletion },
}

/// What a write-once cell holds after `value` was offered to it.
pub open spec fn write_once<T>(cell: Option<T>, value: T) -> Option<T> {
    if cell is Some {
        cell
    } else {
        Some(value)
    }
}

impl Default for TicketCells {
    fn default() -> (r: Self)
        ensures
            r.logical is None,
            r.first_attempt is None,
            r.terminal is None,
    {
        TicketCells { logical: None, first_attempt: None, terminal: None }
    }
}

impl TicketCells {
    /// The cells after `completion` was published.
    pub open spec fn published(self, completion: TicketCompletion) -> TicketCells {
        match completion {
            TicketCompletion::Logical { ticket, result } => TicketCells {
                logical: write_once(self.logical, result),
                ..self
            },
            TicketCompletion::FirstAttempt { ticket, result } => TicketCells {
                first_attempt: write_once(self.first_attempt, result),
                ..self
            },
            TicketCompletion::Terminal { ticket, result } => TicketCells {
                terminal: write_once(self.terminal, result),
                ..self
            },
        }
    }

    pub fn complete_logical(&mut self, result: LogicalCompletion) -> (changed: bool)
        ensures
            *final(self) == (TicketCells {
                logical: write_once(old(self).logical, result),
                ..*old(self)
            }),
            changed == (old(self).logical is None),
    {
        if self.logical.is_some() {
            false
        } else {
            self.logical = Some(result);
            true
        }
    }

    pub fn complete_first_attempt(&mut self, result: FirstAttemptCompletion) -> (changed: bool)
        ensures
            *final(self) == (TicketCells {
                first_attempt: write_once(old(self).first_attempt, result),
                ..*old(self)
            }),
            changed == (old(self).first_attempt is None),
    {
        if self.first_attempt.is_some() {
            false
        } else {
            self.first_attempt = Some(result);
            true
        }
    }

    pub fn complete_terminal(&mut self, result: TerminalCleanupCompletion) -> (changed: bool)
        ensures
            *final(self) == (TicketCells {
                terminal: write_once(old(self).terminal, result),
                ..*old(self)
            }),
            changed == (old(self).terminal is None),
    {
        if self.terminal.is_some() {
            false
        } else {
            self.terminal = Some(result);
            true
        }
    }

    /// Publish one completion; `changed` tells whether a waiter must be woken.
    pub fn publish(&mut self, completion: TicketCompletion) -> (changed: bool)
        ensures
            *final(self) == old(self).published(completion),
            changed == (*final(self) != *old(self)),
    {
        match completion {
            TicketCompletion::Logical { ticket: _, result } => self.complete_logical(result),
            TicketCompletion::FirstAttempt { ticket: _, result } => self.complete_first_attempt(
                result,
            ),
            TicketCompletion::Terminal { ticket: _, result } => self.complete_terminal(result),
        }
    }
}

/// A published completion is never replaced: after any later publication each
/// cell that already held a value still holds the same value.
pub proof fn law_completions_are_write_once(cells: TicketCells, later: TicketCompletion)
    ensures
        cells.logical is Some ==> cells.published(later).logical == cells.logical,
        cells.first_attempt is Some ==> cells.published(later).first_attempt == cells.first_attempt,
        cells.terminal is Some ==> cells.published(later).terminal == cells.terminal,
{
}

/// Admission state of one stream. It is never persisted, so an old failure
/// imposes no cooldown after a restart.
#[derive(Clone, Copy, Debug, PartialEq, Eq, Structural)]
pub struct RetirementState {
    pub ticket: Option<RetirementTicket>,
    pub attempts: u8,
    pub cleanup_failed_at: Option<WallTime>,
    pub cooldown_until: Option<Moment>,
}

#[derive(Clone, Copy, Debug, PartialEq, Eq, Structural)]
pub enum RetirementReservation {
    New(RetirementTicket),
    Existing(RetirementTicket),
    CoolingDown,
}

impl Default for RetirementState {
    fn default() -> (r: Self)
        ensures
            r == RetirementState::clean(),
    {
        RetirementState {
            ticket: None,
            attempts: 0,
            cleanup_failed_at: None,
            cooldown_until: None,
        }
    }
}

impl RetirementState {
    /// The state of a stream that was never admitted.
    pub open spec fn clean() -> RetirementState {
        RetirementState {
            ticket: None,
            attempts: 0,
            cleanup_failed_at: None,
            cooldown_until: None,
        }
    }

    /// Whether a terminal failure still holds admissions back at `now`.
    pub open spec fn cooling_down(self, now: Moment) -> bool {
        self.cooldown_until matches Some(until) && now.nanos < until.nanos
    }

    /// The state after a reservation at `now`, and its answer. `fresh` is the
    /// identity given to a new admission.
    pub open spec fn reserved(self, now: Moment, fresh: RetirementTicket) -> (
        RetirementState,
        RetirementReservation,
    ) {
        if self.cooling_down(now) {
            (self, RetirementReservation::CoolingDown)
        } else {
            let thawed = if self.cooldown_until is Some {
                RetirementState { cooldown_until: None, cleanup_failed_at: None, ..self }
            } else {
                self
            };
            match self.ticket {
                Some(ticket) => (thawed, RetirementReservation::Existing(ticket)),
                None => (
                    RetirementState { ticket: Some(fresh), attempts: 0, ..thawed },
                    RetirementReservation::New(fresh),
                ),
            }
        }
    }

    /// The state after the admission `ticket` ended well or was cancelled.
    pub open spec fn finished(self, ticket: RetirementTicket) -> RetirementState {
        if self.ticket == Some(ticket) {
            RetirementState::clean()
        } else {
            self
        }
    }

    /// The state after the admission `ticket` ran out of attempts.
    pub open spec fn failed(
        self,
        ticket: RetirementTicket,
        now: Moment,
        wall_now: WallTime,
        cooldown: Span,
    ) -> RetirementState {
        if self.ticket == Some(ticket) {
            RetirementState {
                ticket: None,
                attempts: 0,
                cleanup_failed_at: Some(wall_now),
                cooldown_until: Some(
                    Moment {
                        nanos: min_int(now.nanos + cooldown.nanos, u128::MAX as int) as u128,
                    },
                ),
            }
        } else {
            self
        }
    }

    pub fn has_terminal_failure(&self) -> (r: bool)
        ensures
            r == (self.cleanup_failed_at is Some),
    {
        self.cleanup_failed_at.is_some()
    }

    /// Join the admission in progress, start one as `fresh`, or report that the
    /// stream is still cooling down.
    pub fn reserve(&mut self, now: Moment, fresh: RetirementTicket) -> (r: RetirementReservation)
        ensures
            (*final(self), r) == old(self).reserved(now, fresh),
    {
        if let Some(until) = self.cooldown_until {
            if now.nanos < until.nanos {
                return RetirementReservation::CoolingDown;
            }
            self.cooldown_until = None;
            self.cleanup_failed_at = None;
        }
        if let Some(ticket) = self.ticket {
            return RetirementReservation::Existing(ticket);
        }
        self.ticket = Some(fresh);
        self.attempts = 0;
        RetirementReservation::New(fresh)
    }

    /// Count one more physical attempt and give its number.
    pub fn record_attempt(&mut self) -> (r: u8)
        ensures
            r == min_int(old(self).attempts + 1, 255),
            *final(self) == (RetirementState { attempts: r, ..*old(self) }),
    {
        self.attempts = self.attempts.saturating_add(1);
        self.attempts
    }

    /// Forget the admission `ticket`; any other ticket changes nothing.
    pub fn finish(&mut self, ticket: &RetirementTicket) -> (r: bool)
        ensures
            r == (old(self).ticket == Some(*ticket)),
            *final(self) == old(self).finished(*ticket),
    {
        if !self.owns(ticket) {
            return false;
        }
        self.ticket = None;
        self.attempts = 0;
        self.cleanup_failed_at = None;
        self.cooldown_until = None;
        true
    }

    /// Start the cooldown after the admission `ticket` failed for good; any
    /// other ticket changes nothing.
    pub fn fail_terminal(
        &mut self,
        ticket: &RetirementTicket,
        now: Moment,
        wall_now: WallTime,
        cooldown: Span,
    ) -> (r: bool)
        ensures
            r == (old(self).ticket == Some(*ticket)),
            *final(self) == old(self).failed(*ticket, now, wall_now, cooldown),
    {
        if !self.owns(ticket) {
            return false;
        }
        self.ticket = None;
        self.attempts = 0;
        self.cleanup_failed_at = Some(wall_now);
        self.cooldown_until = Some(now.later(cooldown));
        true
    }

    pub fn owns(&self, ticket: &RetirementTicket) -> (r: bool)
        ensures
            r == (self.ticket == Some(*ticket)),
    {
        match self.ticket {
            Some(current) => current.same_identity(ticket),
            None => false,
        }
    }

    pub fn is_clean(&self) -> (r: bool)
        ensures
            r == (*self == RetirementState::clean()),
    {
        self.ticket.is_none() && self.attempts == 0 && self.cleanup_failed_at.is_none()
            && self.cooldown_until.is_none()
    }
}

/// A ticket from before a replacement changes nothing, whichever way it ends.
pub proof fn law_stale_ticket_is_inert(
    state: RetirementState,
    stale: RetirementTicket,
    now: Moment,
    wall_now: WallTime,
    cooldown: Span,
)
    requires
        state.ticket != Some(stale),
    ensures
        state.finished(stale) == state,
        state.failed(stale, now, wall_now, cooldown) == state,
{
}

/// After a terminal failure every reservation before the end of the cooldown is
/// refused and changes nothing. The first one at or after it starts a new
/// admission under the fresh identity and forgets the failure; every further one
/// shares its ticket, which the failed one, being another, cannot end.
pub proof fn law_cooldown_bounds_the_next_admission(
    state: RetirementState,
    ticket: RetirementTicket,
    failed_at: Moment,
    wall_now: WallTime,
    cooldown: Span,
    now: Moment,
    fresh: RetirementTicket,
    again: Moment,
    another: RetirementTicket,
)
    requires
        state.ticket == Some(ticket),
    ensures
        ({
            let failed = state.failed(ticket, failed_at, wall_now, cooldown);
            let until = min_int(failed_at.nanos + cooldown.nanos, u128::MAX as int);
            let (next, answer) = failed.reserved(now, fresh);
            &&& failed.cleanup_failed_at == Some(wall_now)
            &&& if now.nanos < until {
                (next, answer) == (failed, RetirementReservation::CoolingDown)
            } else {
                &&& answer == RetirementReservation::New(fresh)
                &&& next.ticket == Some(fresh)
                &&& next.cleanup_failed_at is None
                &&& fresh != ticket ==> next.finished(ticket) == next && next.failed(
                    ticket,
                    again,
                    wall_now,
                    cooldown,
                ) == next
                &&& next.reserved(again, another) == (next, RetirementReservation::Existing(fresh))
            }
        }),
{
}

/// Finishing a fresh reservation restores the state of a stream that was never
/// admitted.
pub proof fn law_finish_undoes_reserve(now: Moment, fresh: RetirementTicket)
    ensures
        RetirementState::clean().reserved(now, fresh).0.finished(fresh) == RetirementState::clean(),
{
}

} // verus!
