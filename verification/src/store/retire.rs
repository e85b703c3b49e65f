//! Retiring a stream on request: what is decided between the waits for its
//! appender, its appends and its subscribers.

use crate::clock::Moment;
use crate::retirement::coordinator::{initial_state, RetirementExecutor};
use crate::retirement::foundation::{
    RetirementAdmission, RetirementConfig, RetirementPriority, RetirementTicket, TicketCompletion,
};
use crate::retirement::model::{cancelled_ticket, RetirementAdmissionResult};
use crate::retirement::physical::PhysicalExecutor;
use crate::store::cleanup::LocalCleanupMode;
use crate::store::identity::StreamIdentity;
use crate::store::lifecycle::{Linearized, ParentAction};
use crate::store::stream::StreamView;
use crate::store::table::{Store, StoreView};
use vstd::prelude::*;

verus! {

/// What came of a request to retire a stream. Only the caller that gets `Owner`
/// took the stream out; others share its ticket.
#[derive(Clone, Copy, Debug, PartialEq, Eq, Structural)]
pub enum ExplicitRetirementResult {
    Owner(RetirementTicket),
    Existing(RetirementTicket),
    Missing,
    Gone,
    Stale,
    Rejected(RetirementAdmission),
    Unavailable,
    Cancelled(RetirementTicket),
}

/// The result of a retirement, and what its ticket is to be told.
pub struct RetirementEnd {
    pub result: ExplicitRetirementResult,
    pub completions: Vec<TicketCompletion>,
}

/// The place of the one retirement executor, empty until it is set up.
pub struct RetirementSlot {
    pub executor: Option<RetirementExecutor>,
}

/// What a cleanup has to do for a retired stream.
#[derive(Clone, Copy, Debug, PartialEq, Eq, Structural)]
pub enum CleanupPlan {
    /// Write the sidecar of the tombstone.
    WriteTombstone,
    /// Remove the files.
    RemoveFiles,
}

impl RetirementSlot {
    /// An executor that is there is in order.
    pub open spec fn wf(&self) -> bool {
        self.executor matches Some(executor) ==> executor.wf()
    }

    /// No executor yet.
    pub fn new() -> (r: Self)
        ensures
            r.wf(),
            r.executor is None,
    {
        RetirementSlot { executor: None }
    }

    /// Set up the executor with the default limits. There is only ever one.
    pub fn init_retirement_executor(&mut self) -> (r: Result<(), &'static str>)
        requires
            old(self).wf(),
        ensures
            final(self).wf(),
            if old(self).executor is Some {
                &&& r matches Err(message) && message@
                    == "retirement executor already initialized"@
                &&& *final(self) == *old(self)
            } else {
                &&& r is Ok
                &&& final(self).executor matches Some(executor)
                &&& executor.config().is_default()
                &&& executor.state() == initial_state()
                &&& executor.lanes() == PhysicalExecutor::initial(executor.config())
            },
    {
        if self.executor.is_some() {
            return Err("retirement executor already initialized");
        }
        match RetirementExecutor::new(RetirementConfig::default()) {
            Ok(executor) => {
                self.executor = Some(executor);
                Ok(())
            },
            Err(message) => Err(message),
        }
    }
}

impl StoreView {
    /// Why a stream cannot be retired at all, if so.
    pub open spec fn retirement_refusal(
        self,
        instance: u64,
        ready: bool,
    ) -> Option<ExplicitRetirementResult> {
        let path = self.streams[instance].path;
        if !self.registry.contains_key(path) {
            Some(ExplicitRetirementResult::Missing)
        } else if self.registry[path] != instance {
            Some(ExplicitRetirementResult::Stale)
        } else if self.streams[instance].soft_deleted {
            Some(ExplicitRetirementResult::Gone)
        } else if !ready {
            Some(ExplicitRetirementResult::Unavailable)
        } else {
            None
        }
    }

    /// Whether exactly this stream is at its path and not deleted.
    pub open spec fn exact_live(self, instance: u64) -> bool {
        self.exact(instance) && !self.streams[instance].soft_deleted
    }

    /// The store after a retirement took effect, and how.
    pub open spec fn linearized(self, instance: u64) -> (StoreView, Linearized) {
        let stream = self.streams[instance];
        if !self.exact_live(instance) {
            (self, Linearized::Lost)
        } else if stream.ref_count > 0 {
            (self.with_tombstone(instance, true), Linearized::SoftDeleted)
        } else {
            let out = self.unregistered(instance);
            (
                StoreView {
                    inventory: out.inventory.without_entry(stream.path, stream.identity.id),
                    ..out
                },
                Linearized::Removed,
            )
        }
    }

    /// The store with a stream back in its place, unless another one is there.
    pub open spec fn restored(self, instance: u64) -> StoreView {
        let path = self.streams[instance].path;
        if self.registry.contains_key(path) {
            self
        } else {
            StoreView { registry: self.registry.insert(path, instance), ..self }.published(instance)
        }
    }

    /// The store with a stream fenced for its retirement, and whether it was
    /// this call that fenced it.
    pub open spec fn fencing(self, instance: u64) -> (StoreView, bool) {
        if self.exact_live(instance) && !self.streams[instance].fenced {
            (
                self.with_stream(
                    instance,
                    StreamView { fenced: true, ..self.streams[instance] },
                ),
                true,
            )
        } else {
            (self, false)
        }
    }

    /// The store after a retirement took effect, given whether its admission was
    /// still there.
    pub open spec fn retired(self, instance: u64, owned: bool) -> StoreView {
        let (out, how) = self.linearized(instance);
        if how == Linearized::Removed && !owned {
            out.restored(instance)
        } else {
            out
        }
    }

    /// What the cleanup of a retired stream has to do.
    pub open spec fn cleanup_plan(self, instance: u64) -> CleanupPlan {
        if self.streams[instance].soft_deleted {
            CleanupPlan::WriteTombstone
        } else {
            CleanupPlan::RemoveFiles
        }
    }

    /// What the end of a cleanup does, and what is left to do for the parents.
    pub open spec fn cleaned_up(self, instance: u64, plan: CleanupPlan) -> (
        StoreView,
        Seq<ParentAction>,
    ) {
        match plan {
            CleanupPlan::WriteTombstone => (self.published(instance), Seq::empty()),
            CleanupPlan::RemoveFiles => self.released(self.streams[instance].parent),
        }
    }

    /// Why the files of a retired stream must not be touched, if so.
    pub open spec fn cleanup_complaint(self, instance: u64) -> Option<Seq<char>> {
        let stream = self.streams[instance];
        if !stream.fenced {
            Some("retirement cleanup requires a fenced stream"@)
        } else if stream.soft_deleted && !self.exact(instance) {
            Some("soft retirement lost its exact registry tombstone"@)
        } else if !stream.soft_deleted && self.exact(instance) {
            Some("hard retirement must leave the registry before cleanup"@)
        } else {
            None
        }
    }
}

/// What an admission means for the request that asked for it.
pub open spec fn admission_means(
    answer: RetirementAdmissionResult,
) -> Result<RetirementTicket, ExplicitRetirementResult> {
    match answer {
        RetirementAdmissionResult::Admitted(ticket) => Ok(ticket),
        RetirementAdmissionResult::Existing(ticket) => Err(
            ExplicitRetirementResult::Existing(ticket),
        ),
        RetirementAdmissionResult::Rejected(reason) => Err(
            ExplicitRetirementResult::Rejected(reason),
        ),
    }
}

/// Take back an admission that did not take effect.
pub fn cancel_explicit_retirement(
    slot: &mut RetirementSlot,
    stream: StreamIdentity,
    ticket: RetirementTicket,
) -> (r: RetirementEnd)
    requires
        old(slot).wf(),
        old(slot).executor is Some,
    ensures
        final(slot).wf(),
        final(slot).executor is Some,
        final(slot).executor->0.config() == old(slot).executor->0.config(),
        final(slot).executor->0.lanes() == old(slot).executor->0.lanes(),
        r.result == ExplicitRetirementResult::Cancelled(ticket),
        ({
            let before = old(slot).executor->0.state();
            let after = final(slot).executor->0.state();
            if before.prelogical(stream, ticket) {
                &&& r.completions@ == cancelled_ticket(ticket)
                &&& after == before.prelogical_cancelled(stream, ticket)
            } else {
                &&& r.completions@.len() == 0
                &&& after == before
            }
        }),
{
    let mut completions: Vec<TicketCompletion> = Vec::new();
    match slot.executor.take() {
        Some(executor) => {
            let mut executor = executor;
            if let Some(told) = executor.cancel_prelogical(stream, ticket) {
                completions = told;
            }
            slot.executor = Some(executor);
        },
        None => {},
    }
    RetirementEnd { result: ExplicitRetirementResult::Cancelled(ticket), completions }
}

impl Store {
    /// Begin to retire a stream: ask for its admission, if it can be retired.
    pub fn begin_retirement(&self, instance: u64, slot: &mut RetirementSlot, now: Moment) -> (r:
        Result<RetirementTicket, ExplicitRetirementResult>)
        requires
            self.wf(),
            self@.streams.contains_key(instance),
            old(slot).wf(),
            old(slot).executor matches Some(executor)
                ==> executor.state().counters.next_admission_sequence < u64::MAX,
        ensures
            final(slot).wf(),
            match self@.retirement_refusal(instance, old(slot).executor is Some) {
                Some(refusal) => r == Err::<RetirementTicket, _>(refusal) && *final(slot) == *old(
                    slot,
                ),
                None => {
                    let before = old(slot).executor->0;
                    let (state, answer) = before.state().admission(
                        before.config(),
                        self@.streams[instance].identity,
                        RetirementPriority::Interactive,
                        LocalCleanupMode::ExplicitDelete,
                        now,
                    );
                    &&& r == admission_means(answer)
                    &&& final(slot).executor matches Some(after)
                    &&& after.state() == state
                    &&& after.config() == before.config()
                    &&& after.lanes() == before.lanes()
                },
            },
    {
        let (identity, soft_deleted, present) = match self.stream(instance) {
            Some(stream) => (stream.identity, stream.soft_deleted, self.registered_at(
                stream.path.as_str(),
            )),
            None => {
                return Err(ExplicitRetirementResult::Missing);
            },
        };
        match present {
            None => {
                return Err(ExplicitRetirementResult::Missing);
            },
            Some(current) => {
                if current != instance {
                    return Err(ExplicitRetirementResult::Stale);
                }
            },
        }
        if soft_deleted {
            return Err(ExplicitRetirementResult::Gone);
        }
        if slot.executor.is_none() {
            return Err(ExplicitRetirementResult::Unavailable);
        }
        match slot.executor.take() {
            Some(executor) => {
                let mut executor = executor;
                let answer = executor.admit_stream(
                    identity,
                    RetirementPriority::Interactive,
                    LocalCleanupMode::ExplicitDelete,
                    now,
                );
                slot.executor = Some(executor);
                match answer {
                    RetirementAdmissionResult::Admitted(ticket) => Ok(ticket),
                    RetirementAdmissionResult::Existing(ticket) => Err(
                        ExplicitRetirementResult::Existing(ticket),
                    ),
                    RetirementAdmissionResult::Rejected(reason) => Err(
                        ExplicitRetirementResult::Rejected(reason),
                    ),
                }
            },
            None => Err(ExplicitRetirementResult::Unavailable),
        }
    }

    /// Fence a stream for its retirement, while its appender is held. A stream
    /// that is gone, deleted or fenced already is left alone.
    pub fn fence_for_retirement(&mut self, instance: u64) -> (r: bool)
        requires
            old(self).wf(),
        ensures
            final(self).wf(),
            final(self).settings == old(self).settings,
            r == (old(self)@.exact_live(instance) && !old(self)@.streams[instance].fenced),
            final(self)@ == (if r {
                old(self)@.with_stream(
                    instance,
                    StreamView { fenced: true, ..old(self)@.streams[instance] },
                )
            } else {
                old(self)@
            }),
            (final(self)@, r) == old(self)@.fencing(instance),
    {
        if !self.is_exact_live(instance) {
            return false;
        }
        let fenced = match self.stream(instance) {
            Some(stream) => stream.fenced,
            None => true,
        };
        if fenced {
            return false;
        }
        self.fence(instance);
        true
    }

    /// Let a retirement take effect once the stream is fenced, drained and told
    /// to its subscribers. Where the admission is gone by then, a stream that was
    /// taken out comes back.
    pub fn complete_retirement(
        &mut self,
        instance: u64,
        slot: &mut RetirementSlot,
        ticket: RetirementTicket,
    ) -> (r: RetirementEnd)
        requires
            old(self).wf(),
            old(self)@.streams.contains_key(instance),
            old(slot).wf(),
            old(slot).executor is Some,
        ensures
            final(self).wf(),
            final(self).settings == old(self).settings,
            final(slot).wf(),
            final(slot).executor is Some,
            final(slot).executor->0.config() == old(slot).executor->0.config(),
            final(slot).executor->0.lanes() == old(slot).executor->0.lanes(),
            ({
                let stream = old(self)@.streams[instance].identity;
                let (out, how) = old(self)@.linearized(instance);
                let before = old(slot).executor->0.state();
                let after = final(slot).executor->0.state();
                let owned = before.prelogical(stream, ticket);
                if how == Linearized::Lost {
                    &&& r.result == ExplicitRetirementResult::Cancelled(ticket)
                    &&& final(self)@ == old(self)@
                    &&& r.completions@ == (if owned {
                        cancelled_ticket(ticket)
                    } else {
                        Seq::empty()
                    })
                    &&& after == (if owned {
                        before.prelogical_cancelled(stream, ticket)
                    } else {
                        before
                    })
                } else if owned {
                    &&& r.result == ExplicitRetirementResult::Owner(ticket)
                    &&& final(self)@ == out
                    &&& r.completions@ == seq![
                        TicketCompletion::Logical {
                            ticket,
                            result: crate::retirement::foundation::LogicalCompletion::Completed,
                        },
                    ]
                    &&& after == before.released(stream)
                } else {
                    &&& r.result == ExplicitRetirementResult::Cancelled(ticket)
                    &&& r.completions@.len() == 0
                    &&& after == before
                    &&& final(self)@ == (if how == Linearized::Removed {
                        out.restored(instance)
                    } else {
                        out
                    })
                }
            }),
            final(self)@ == old(self)@.retired(
                instance,
                old(slot).executor->0.state().prelogical(
                    old(self)@.streams[instance].identity,
                    ticket,
                ),
            ),
            r.result is Owner <==> old(self)@.linearized(instance).1 != Linearized::Lost && old(
                slot,
            ).executor->0.state().prelogical(old(self)@.streams[instance].identity, ticket),
    {
        let identity = match self.stream(instance) {
            Some(stream) => stream.identity,
            None => StreamIdentity { id: 0, instance },
        };
        let how = self.linearize_retirement(instance);
        if how == Linearized::Lost {
            let end = cancel_explicit_retirement(slot, identity, ticket);
            proof {
                if !old(slot).executor->0.state().prelogical(identity, ticket) {
                    assert(end.completions@ =~= Seq::empty());
                }
            }
            return end;
        }
        let mut completions: Vec<TicketCompletion> = Vec::new();
        match slot.executor.take() {
            Some(executor) => {
                let mut executor = executor;
                if let Some(told) = executor.release_logical(identity, ticket) {
                    completions.push(told);
                }
                slot.executor = Some(executor);
            },
            None => {},
        }
        if completions.len() > 0 {
            return RetirementEnd { result: ExplicitRetirementResult::Owner(ticket), completions };
        }
        if how == Linearized::Removed {
            let _ = self.restore_exact_registration(instance);
        }
        RetirementEnd { result: ExplicitRetirementResult::Cancelled(ticket), completions }
    }

    /// What the cleanup of a retired stream has to do, or why it must not be
    /// done.
    pub fn plan_retirement_cleanup(&self, instance: u64) -> (r: Result<CleanupPlan, &'static str>)
        requires
            self.wf(),
            self@.streams.contains_key(instance),
        ensures
            match r {
                Ok(plan) => {
                    &&& self@.cleanup_complaint(instance) is None
                    &&& plan == self@.cleanup_plan(instance)
                    &&& plan == (if self@.streams[instance].soft_deleted {
                        CleanupPlan::WriteTombstone
                    } else {
                        CleanupPlan::RemoveFiles
                    })
                },
                Err(message) => self@.cleanup_complaint(instance) == Some(message@),
            },
    {
        let exact = self.is_exact_registered(instance);
        let (fenced, soft_deleted) = match self.stream(instance) {
            Some(stream) => (stream.fenced, stream.soft_deleted),
            None => (false, false),
        };
        if !fenced {
            return Err("retirement cleanup requires a fenced stream");
        }
        if soft_deleted {
            if !exact {
                return Err("soft retirement lost its exact registry tombstone");
            }
            return Ok(CleanupPlan::WriteTombstone);
        }
        if exact {
            return Err("hard retirement must leave the registry before cleanup");
        }
        Ok(CleanupPlan::RemoveFiles)
    }

    /// Finish a cleanup that succeeded, and say what is left to do for the
    /// parents.
    pub fn finish_retirement_cleanup(&mut self, instance: u64, plan: CleanupPlan) -> (r: Vec<
        ParentAction,
    >)
        requires
            old(self).wf(),
            old(self)@.streams.contains_key(instance),
        ensures
            final(self).wf(),
            final(self).settings == old(self).settings,
            (final(self)@, r@) == (match plan {
                CleanupPlan::WriteTombstone => (old(self)@.published(instance), Seq::empty()),
                CleanupPlan::RemoveFiles => old(self)@.released(old(self)@.streams[instance].parent),
            }),
            (final(self)@, r@) == old(self)@.cleaned_up(instance, plan),
    {
        match plan {
            CleanupPlan::WriteTombstone => {
                self.publish_inventory(instance);
                let none: Vec<ParentAction> = Vec::new();
                assert(none@ =~= Seq::empty());
                none
            },
            CleanupPlan::RemoveFiles => {
                let parent = match self.stream(instance) {
                    Some(stream) => stream.parent,
                    None => None,
                };
                self.release_parent(parent)
            },
        }
    }
}

/// What an admission means for who asked for a retirement: the one who was
/// admitted owns it, one who comes later shares it, and a refusal is told as such.
pub proof fn law_admission_is_passed_on(answer: RetirementAdmissionResult)
    ensures
        answer matches RetirementAdmissionResult::Admitted(ticket) ==> admission_means(answer)
            == Ok::<RetirementTicket, ExplicitRetirementResult>(ticket),
        answer matches RetirementAdmissionResult::Existing(ticket) ==> admission_means(answer)
            == Err::<RetirementTicket, ExplicitRetirementResult>(
            ExplicitRetirementResult::Existing(ticket),
        ),
        answer matches RetirementAdmissionResult::Rejected(reason) ==> admission_means(answer)
            == Err::<RetirementTicket, ExplicitRetirementResult>(
            ExplicitRetirementResult::Rejected(reason),
        ),
{
}

} // verus!
