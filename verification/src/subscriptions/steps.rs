//! What a request does to the subscriptions, before it is known whether that
//! can be kept.

use crate::subscriptions::links::{StreamStatus, StreamTable};
use crate::subscriptions::reply::{internal_subscription_error, state_error, Reply, ReplyView};
use crate::subscriptions::resume::{opt_lease, Lease, LeaseView};
use crate::subscriptions::state::{ManagerState, StateView, Undo};
use crate::subscriptions::subscription::{opt_delivery, Delivery, DeliveryView};
use crate::subscriptions::token::{WakeSeed, WakeSeedView};
use vstd::prelude::*;

verus! {

/// What a request finds around it: the streams, the token secret, randomness
/// for one wake, and the time.
pub struct Surroundings<'a> {
    pub table: &'a StreamTable,
    pub secret: &'a Vec<u8>,
    pub seed: &'a WakeSeed,
    pub now_ms: u64,
}

/// The surroundings as a mathematical value.
pub struct SurroundingsView {
    pub table: Map<Seq<char>, StreamStatus>,
    pub secret: Seq<u8>,
    pub seed: WakeSeedView,
    pub now_ms: u64,
}

impl<'a> View for Surroundings<'a> {
    type V = SurroundingsView;

    open spec fn view(&self) -> SurroundingsView {
        SurroundingsView {
            table: self.table@,
            secret: self.secret@,
            seed: self.seed@,
            now_ms: self.now_ms,
        }
    }
}

impl<'a> Surroundings<'a> {
    /// The table is sorted, and the secret and the randomness have their length.
    pub open spec fn wf(&self) -> bool {
        &&& self.table.wf()
        &&& self.secret@.len() == 32
        &&& self.seed@.full()
    }
}

/// What a request does: the state after it, the state to go back to if that
/// cannot be kept, the reply, and what has to be done once it is kept.
#[verifier::ext_equal]
pub struct StepView {
    pub state: StateView,
    pub base: StateView,
    pub reply: ReplyView,
    pub keep: bool,
    pub delivery: Option<DeliveryView>,
    pub lease: Option<LeaseView>,
}

/// A request that changes nothing.
pub open spec fn only_reply(state: StateView, reply: ReplyView) -> StepView {
    StepView { state, base: state, reply, keep: false, delivery: None, lease: None }
}

/// A request that is refused.
pub open spec fn refusal(
    state: StateView,
    status: u16,
    code: Seq<char>,
    message: Seq<char>,
) -> StepView {
    only_reply(state, ReplyView::Refused { status, code, message })
}

/// A change that is still to be kept.
pub struct Change {
    pub undo: Undo,
    pub delivery: Option<Delivery>,
    pub lease: Option<Lease>,
}

/// A reply together with the change that it reports.
pub struct Prepared {
    pub reply: Reply,
    pub change: Option<Change>,
}

impl Prepared {
    /// Whether this is what the step says, with `now` as the state after it.
    pub open spec fn carries(&self, now: StateView, step: StepView) -> bool {
        &&& now == step.state
        &&& self.reply@ == step.reply
        &&& match self.change {
            Some(change) => {
                &&& step.keep
                &&& opt_delivery(change.delivery) == step.delivery
                &&& opt_lease(change.lease) == step.lease
                &&& change.undo.wf()
                &&& now.undone(change.undo@) == step.base
            },
            None => !step.keep && step.delivery is None && step.lease is None,
        }
    }

    /// A reply without a change.
    pub fn reply_only(reply: Reply) -> (r: Prepared)
        ensures
            r.reply@ == reply@,
            r.change is None,
    {
        Prepared { reply, change: None }
    }

    /// A refusal.
    pub fn refuse(status: u16, code: &'static str, message: &'static str) -> (r: Prepared)
        ensures
            r.reply@ == (ReplyView::Refused { status, code: code@, message: message@ }),
            r.change is None,
    {
        Prepared { reply: Reply::Refused { status, code, message }, change: None }
    }
}

/// What remains to be done for a request.
pub struct Finished {
    pub reply: Reply,
    pub delivery: Option<Delivery>,
    pub lease: Option<Lease>,
}

impl Finished {
    /// Whether this is what remains of a prepared request.
    pub open spec fn follows(&self, prepared: Prepared, kept: bool) -> bool {
        match prepared.change {
            Some(change) => if kept {
                &&& self.reply@ == prepared.reply@
                &&& opt_delivery(self.delivery) == opt_delivery(change.delivery)
                &&& opt_lease(self.lease) == opt_lease(change.lease)
            } else {
                &&& self.reply@ == state_error()
                &&& self.delivery is None
                &&& self.lease is None
            },
            None => {
                &&& self.reply@ == prepared.reply@
                &&& self.delivery is None
                &&& self.lease is None
            },
        }
    }
}

impl ManagerState {
    /// Finish a request, given whether its change was kept. A change that was
    /// not kept is taken back, and the reply says so.
    pub fn finish(&mut self, prepared: Prepared, kept: bool) -> (r: Finished)
        requires
            old(self).wf(),
            prepared.change matches Some(change) ==> change.undo.wf(),
        ensures
            final(self).wf(),
            final(self)@ == (match prepared.change {
                Some(change) => if kept {
                    old(self)@
                } else {
                    old(self)@.undone(change.undo@)
                },
                None => old(self)@,
            }),
            r.follows(prepared, kept),
    {
        match prepared.change {
            Some(change) => {
                if kept {
                    Finished {
                        reply: prepared.reply,
                        delivery: change.delivery,
                        lease: change.lease,
                    }
                } else {
                    self.undo(change.undo);
                    Finished { reply: internal_subscription_error(), delivery: None, lease: None }
                }
            },
            None => Finished { reply: prepared.reply, delivery: None, lease: None },
        }
    }
}

} // verus!
