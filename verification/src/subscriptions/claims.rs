//! Workers claiming, acknowledging and releasing wakes.

use crate::subscription_auth::ServiceJwtError;
use crate::subscriptions::config::{SubscriptionKind, SubscriptionStatus};
use crate::subscriptions::cursors::asked_acks;
use crate::subscriptions::paths::{key_of, subscription_key};
use crate::subscriptions::reply::{no_subscription, CallbackRequest, Reply, ReplyView};
use crate::subscriptions::state::{ManagerState, StateView};
use crate::subscriptions::steps::{
    only_reply, refusal, Change, Prepared, StepView, Surroundings, SurroundingsView,
};
use crate::subscriptions::subscription::{later_ms, next_u64, AckView, SubView, Subscription};
use crate::subscriptions::token::{
    fits_token, generate_token, token_expiry, token_matches, token_text, token_verdict,
    tokens_agree, validate_token,
};
use crate::text::{copy_optional, opt_text, same_optional, same_text};
use vstd::prelude::*;

verus! {

/// What a worker reports about a wake, as a mathematical value.
#[verifier::ext_equal]
pub struct CallbackView {
    pub wake_id: Option<Seq<char>>,
    pub generation: Option<u64>,
    pub acks: Seq<AckView>,
    pub done: bool,
}

impl View for CallbackRequest {
    type V = CallbackView;

    open spec fn view(&self) -> CallbackView {
        CallbackView {
            wake_id: opt_text(self.wake_id),
            generation: self.generation,
            acks: asked_acks(self.acks),
            done: self.done == Some(true),
        }
    }
}

/// The contents of an optional report.
pub open spec fn opt_callback(request: Option<CallbackRequest>) -> Option<CallbackView> {
    match request {
        Some(request) => Some(request@),
        None => None,
    }
}

impl SubView {
    /// Whether the holder's lease is over.
    pub open spec fn lease_over(self, now_ms: u64) -> bool {
        self.holder is Some && (self.lease_expires_at_ms matches Some(deadline) && deadline
            <= now_ms)
    }

    /// The subscription as a claim finds it: an expired lease does not count.
    pub open spec fn reclaimable(self, now_ms: u64) -> SubView {
        if self.lease_over(now_ms) {
            self.cleared()
        } else {
            self
        }
    }

    /// The subscription with its lease starting anew.
    pub open spec fn leased(self, now_ms: u64) -> SubView {
        SubView {
            lease_nonce: next_u64(self.lease_nonce),
            wake_delivery_pending: false,
            next_attempt_at_ms: None,
            status: SubscriptionStatus::Active,
            retry_count: 0,
            lease_expires_at_ms: Some(later_ms(now_ms, self.config.lease_ttl_ms)),
            ..self
        }
    }

    /// The subscription claimed by a worker.
    pub open spec fn claimed(self, worker: Seq<char>, around: SurroundingsView) -> SubView {
        let woken = if self.wake_id is None {
            self.woken(
                around.table,
                self.first_pending(around.table),
                around.secret,
                around.seed,
                around.now_ms,
            )
        } else {
            self
        };
        SubView {
            holder: Some(worker),
            token: Some(
                token_text(
                    around.secret,
                    woken.key(),
                    woken.generation,
                    token_expiry((around.now_ms / 1000) as u64),
                    around.seed.token,
                ),
            ),
            ..woken.leased(around.now_ms)
        }
    }

    /// Whether a report is about another wake than the one under way.
    pub open spec fn fences(
        self,
        secret: Seq<u8>,
        token: Seq<char>,
        token_generation: u64,
        request: CallbackView,
    ) -> bool {
        ||| self.wake_id is None
        ||| !tokens_agree(secret, self.token, token)
        ||| token_generation != self.generation
        ||| request.generation != Some(self.generation)
        ||| request.wake_id != self.wake_id
    }
}

/// The refusal of a claim whose service token was not accepted.
pub open spec fn auth_refusal(state: StateView, error: ServiceJwtError) -> StepView {
    match error {
        ServiceJwtError::Unavailable => refusal(
            state,
            503,
            "SERVICE_JWT_NOT_CONFIGURED"@,
            "Pull-wake claims require service-JWT verification"@,
        ),
        ServiceJwtError::Missing => refusal(
            state,
            401,
            "SERVICE_JWT_REQUIRED"@,
            "Missing service JWT Authorization header"@,
        ),
        ServiceJwtError::Invalid => refusal(
            state,
            401,
            "SERVICE_JWT_INVALID"@,
            "Service JWT is invalid"@,
        ),
        ServiceJwtError::Forbidden => refusal(
            state,
            403,
            "SERVICE_JWT_FORBIDDEN"@,
            "Service JWT does not grant the required scope"@,
        ),
    }
}

impl StateView {
    /// What a claim does.
    pub open spec fn claim(
        self,
        key: Seq<char>,
        auth: Result<(), ServiceJwtError>,
        worker: Option<Seq<char>>,
        around: SurroundingsView,
    ) -> StepView {
        if let Err(error) = auth {
            auth_refusal(self, error)
        } else if worker is None || worker->0.len() == 0 {
            refusal(self, 400, "INVALID_REQUEST"@, "worker must be a non-empty string"@)
        } else if !self.subscriptions.contains_key(key) {
            only_reply(self, no_subscription())
        } else if self.subscriptions[key].config.kind != SubscriptionKind::PullWake {
            refusal(self, 400, "INVALID_REQUEST"@, "Subscription is not pull-wake"@)
        } else {
            let sub = self.subscriptions[key].reclaimable(around.now_ms);
            let base = self.with_sub(key, sub);
            if let Some(holder) = sub.holder {
                only_reply(
                    base,
                    ReplyView::AlreadyClaimed { holder, generation: sub.generation },
                )
            } else if !sub.has_pending(around.table) {
                refusal(base, 409, "NO_PENDING_WORK"@, "Subscription has no pending work"@)
            } else {
                let claimed = sub.claimed(worker->0, around);
                StepView {
                    state: base.with_sub(key, claimed),
                    base,
                    reply: ReplyView::Claimed {
                        wake_id: claimed.wake_id,
                        generation: claimed.generation,
                        token: claimed.token->0,
                        streams: claimed.infos(around.table),
                        lease_ttl_ms: claimed.config.lease_ttl_ms,
                    },
                    keep: true,
                    delivery: None,
                    lease: Some(claimed.lease(claimed.lease_expires_at_ms->0)),
                }
            }
        }
    }

    /// Why a report is refused before its acknowledgements are looked at.
    pub open spec fn report_refusal(
        self,
        key: Seq<char>,
        kind: SubscriptionKind,
        token: Option<Seq<char>>,
        request: Option<CallbackView>,
        around: SurroundingsView,
    ) -> Option<ReplyView> {
        if token is None {
            Some(
                ReplyView::Refused {
                    status: 401,
                    code: "TOKEN_INVALID"@,
                    message: "Missing or malformed Authorization header"@,
                },
            )
        } else if request is None {
            Some(
                ReplyView::Refused {
                    status: 400,
                    code: "INVALID_REQUEST"@,
                    message: "Invalid JSON body"@,
                },
            )
        } else {
            match token_verdict(around.secret, key, token->0, (around.now_ms / 1000) as u64) {
                Err(code) => Some(
                    ReplyView::Refused { status: 401, code, message: "Token invalid"@ },
                ),
                Ok(generation) => if !self.subscriptions.contains_key(key) {
                    Some(no_subscription())
                } else if self.subscriptions[key].config.kind != kind {
                    Some(
                        ReplyView::Refused {
                            status: 400,
                            code: "INVALID_REQUEST"@,
                            message: "Subscription is not pull-wake"@,
                        },
                    )
                } else if self.subscriptions[key].fences(
                    around.secret,
                    token->0,
                    generation,
                    request->0,
                ) {
                    Some(
                        ReplyView::Refused {
                            status: 409,
                            code: "FENCED"@,
                            message: "Wake generation is stale"@,
                        },
                    )
                } else {
                    None
                },
            }
        }
    }

    /// What a worker's report does: it moves cursors, and either ends the wake
    /// or prolongs its lease.
    pub open spec fn callback(
        self,
        key: Seq<char>,
        kind: SubscriptionKind,
        token: Option<Seq<char>>,
        request: Option<CallbackView>,
        around: SurroundingsView,
    ) -> StepView {
        match self.report_refusal(key, kind, token, request, around) {
            Some(reply) => only_reply(self, reply),
            None => {
                let sub = self.subscriptions[key];
                let acks = request->0.acks;
                match sub.ack_complaint(around.table, acks) {
                    Some(complaint) => refusal(self, 409, "INVALID_OFFSET"@, complaint),
                    None => if request->0.done {
                        let (next, delivery) = sub.acked(acks).rewoken(
                            around.table,
                            around.secret,
                            around.seed,
                            around.now_ms,
                        );
                        StepView {
                            state: self.with_sub(key, next),
                            base: self,
                            reply: ReplyView::Acknowledged { next_wake: delivery is Some },
                            keep: true,
                            delivery,
                            lease: None,
                        }
                    } else {
                        let next = sub.acked(acks).leased(around.now_ms);
                        StepView {
                            state: self.with_sub(key, next),
                            base: self,
                            reply: ReplyView::Acknowledged { next_wake: false },
                            keep: true,
                            delivery: None,
                            lease: Some(next.lease(next.lease_expires_at_ms->0)),
                        }
                    },
                }
            },
        }
    }

    /// What a worker's release does: the wake ends without any cursor moved.
    pub open spec fn release(
        self,
        key: Seq<char>,
        token: Option<Seq<char>>,
        request: Option<CallbackView>,
        around: SurroundingsView,
    ) -> StepView {
        match self.report_refusal(key, SubscriptionKind::PullWake, token, request, around) {
            Some(reply) => only_reply(self, reply),
            None => {
                let (next, delivery) = self.subscriptions[key].rewoken(
                    around.table,
                    around.secret,
                    around.seed,
                    around.now_ms,
                );
                StepView {
                    state: self.with_sub(key, next),
                    base: self,
                    reply: ReplyView::Done,
                    keep: true,
                    delivery,
                    lease: None,
                }
            },
        }
    }
}

impl Subscription {
    /// Start the lease anew.
    fn renew_lease(&mut self, now_ms: u64) -> (r: u64)
        requires
            old(self).wf(),
        ensures
            final(self).wf(),
            final(self)@ == old(self)@.leased(now_ms),
            final(self)@.lease_expires_at_ms == Some(r),
    {
        let expires_at_ms: u64 = now_ms.saturating_add(self.config.lease_ttl_ms);
        self.lease_nonce = self.lease_nonce.wrapping_add(1);
        self.wake_delivery_pending = false;
        self.next_attempt_at_ms = None;
        self.status = SubscriptionStatus::Active;
        self.retry_count = 0;
        self.lease_expires_at_ms = Some(expires_at_ms);
        assert(self@ =~= old(self)@.leased(now_ms));
        expires_at_ms
    }

    fn lease_over(&self, now_ms: u64) -> (r: bool)
        ensures
            r == self@.lease_over(now_ms),
    {
        self.holder.is_some() && match self.lease_expires_at_ms {
            Some(deadline) => deadline <= now_ms,
            None => false,
        }
    }

    /// Hand the wake to a worker: its token, and when the lease ends.
    fn hand_to(&mut self, worker: String, around: &Surroundings<'_>) -> (r: (String, u64))
        requires
            old(self).wf(),
            around.wf(),
        ensures
            final(self).wf(),
            final(self)@ == old(self)@.claimed(worker@, around@),
            final(self)@.token == Some(r.0@),
            final(self)@.lease_expires_at_ms == Some(r.1),
    {
        if self.wake_id.is_none() {
            let trigger = self.first_pending(around.table);
            let _ = self.create_wake(
                around.table,
                trigger,
                around.secret,
                around.seed,
                around.now_ms,
            );
        }
        let ghost woken = self@;
        self.holder = Some(worker);
        let key = self.key();
        let token = generate_token(
            around.secret,
            key.as_str(),
            self.generation,
            around.now_ms / 1000,
            &around.seed.token,
        );
        self.token = Some(token.clone());
        let expires_at_ms = self.renew_lease(around.now_ms);
        assert(self@ =~= old(self)@.claimed(worker@, around@));
        (token, expires_at_ms)
    }

    fn fences(
        &self,
        secret: &Vec<u8>,
        token: &str,
        token_generation: u64,
        request: &CallbackRequest,
    ) -> (r: bool)
        requires
            self.wf(),
            secret@.len() == 32,
            fits_token(token@),
        ensures
            r == self@.fences(secret@, token@, token_generation, request@),
    {
        self.wake_id.is_none() || !token_matches(secret, &self.token, token) || token_generation
            != self.generation || request.generation != Some(self.generation) || !same_optional(
            &request.wake_id,
            &self.wake_id,
        )
    }
}

impl ManagerState {
    /// A worker claims the work of a subscription.
    pub fn handle_claim(
        &mut self,
        stream_root: &str,
        id: &str,
        auth: Result<(), ServiceJwtError>,
        worker: Option<String>,
        around: &Surroundings<'_>,
    ) -> (r: Prepared)
        requires
            old(self).wf(),
            around.wf(),
        ensures
            final(self).wf(),
            r.carries(
                final(self)@,
                old(self)@.claim(
                    key_of(stream_root@, id@),
                    auth,
                    opt_text(worker),
                    around@,
                ),
            ),
    {
        match auth {
            Ok(()) => {},
            Err(ServiceJwtError::Unavailable) => {
                return Prepared::refuse(
                    503,
                    "SERVICE_JWT_NOT_CONFIGURED",
                    "Pull-wake claims require service-JWT verification",
                );
            },
            Err(ServiceJwtError::Missing) => {
                return Prepared::refuse(
                    401,
                    "SERVICE_JWT_REQUIRED",
                    "Missing service JWT Authorization header",
                );
            },
            Err(ServiceJwtError::Invalid) => {
                return Prepared::refuse(401, "SERVICE_JWT_INVALID", "Service JWT is invalid");
            },
            Err(ServiceJwtError::Forbidden) => {
                return Prepared::refuse(
                    403,
                    "SERVICE_JWT_FORBIDDEN",
                    "Service JWT does not grant the required scope",
                );
            },
        }
        let worker = match worker {
            Some(worker) => worker,
            None => {
                return Prepared::refuse(
                    400,
                    "INVALID_REQUEST",
                    "worker must be a non-empty string",
                );
            },
        };
        if is_empty(worker.as_str()) {
            return Prepared::refuse(400, "INVALID_REQUEST", "worker must be a non-empty string");
        }
        let key = subscription_key(stream_root, id);
        let at = match self.subscriptions.position(key.as_str()) {
            Some(at) => at,
            None => {
                return Prepared::reply_only(
                    crate::subscriptions::reply::subscription_not_found(),
                );
            },
        };
        if self.at(at).config.kind != SubscriptionKind::PullWake {
            return Prepared::refuse(400, "INVALID_REQUEST", "Subscription is not pull-wake");
        }
        if self.at(at).lease_over(around.now_ms) {
            let mut cleared = self.at(at).copy();
            cleared.clear_wake();
            self.set(at, cleared);
        } else {
            proof {
                let sub = self@.subscriptions[key@];
                assert(self@.with_sub(key@, sub).subscriptions =~= self@.subscriptions);
            }
        }
        let ghost base = self@;
        assert(base =~= old(self)@.with_sub(
            key@,
            old(self)@.subscriptions[key@].reclaimable(around.now_ms),
        ));
        let sub = self.at(at);
        match &sub.holder {
            Some(holder) => {
                return Prepared::reply_only(
                    Reply::AlreadyClaimed { holder: holder.clone(), generation: sub.generation },
                );
            },
            None => {},
        }
        if !sub.has_pending_work(around.table) {
            return Prepared::refuse(409, "NO_PENDING_WORK", "Subscription has no pending work");
        }
        let mut claimed = sub.copy();
        let (token, expires_at_ms) = claimed.hand_to(worker, around);
        let lease = claimed.lease(expires_at_ms);
        let reply = Reply::Claimed {
            wake_id: copy_optional(&claimed.wake_id),
            generation: claimed.generation,
            token,
            streams: claimed.stream_infos(around.table),
            lease_ttl_ms: claimed.config.lease_ttl_ms,
        };
        let undo = self.replace(at, claimed);
        Prepared { reply, change: Some(Change { undo, delivery: None, lease: Some(lease) }) }
    }

    /// Whether a report is about the wake under way; where the subscription
    /// stands, or the refusal.
    fn check_report(
        &self,
        key: &str,
        kind: SubscriptionKind,
        token: &Option<String>,
        request: &Option<CallbackRequest>,
        around: &Surroundings<'_>,
    ) -> (r: Result<usize, Reply>)
        requires
            self.wf(),
            around.wf(),
            fits_token(key@),
            token matches Some(text) ==> fits_token(text@),
        ensures
            match self@.report_refusal(
                key@,
                kind,
                opt_text(*token),
                opt_callback(*request),
                around@,
            ) {
                Some(reply) => r matches Err(actual) && actual@ == reply,
                None => {
                    &&& r matches Ok(at)
                    &&& at < self.subscriptions.key_list().len()
                    &&& self.subscriptions.key_list()[at as int] == key@
                },
            },
    {
        let token = match token {
            Some(token) => token,
            None => {
                return Err(
                    Reply::Refused {
                        status: 401,
                        code: "TOKEN_INVALID",
                        message: "Missing or malformed Authorization header",
                    },
                );
            },
        };
        let request = match request {
            Some(request) => request,
            None => {
                return Err(
                    Reply::Refused {
                        status: 400,
                        code: "INVALID_REQUEST",
                        message: "Invalid JSON body",
                    },
                );
            },
        };
        let generation = match validate_token(
            around.secret,
            key,
            token.as_str(),
            around.now_ms / 1000,
        ) {
            Ok(generation) => generation,
            Err(code) => {
                return Err(Reply::Refused { status: 401, code, message: "Token invalid" });
            },
        };
        let at = match self.subscriptions.position(key) {
            Some(at) => at,
            None => {
                return Err(crate::subscriptions::reply::subscription_not_found());
            },
        };
        let sub = self.at(at);
        if sub.config.kind != kind {
            return Err(
                Reply::Refused {
                    status: 400,
                    code: "INVALID_REQUEST",
                    message: "Subscription is not pull-wake",
                },
            );
        }
        if sub.fences(around.secret, token.as_str(), generation, request) {
            return Err(
                Reply::Refused { status: 409, code: "FENCED", message: "Wake generation is stale" },
            );
        }
        Ok(at)
    }

    /// A worker reports on a wake.
    pub fn handle_callback(
        &mut self,
        stream_root: &str,
        id: &str,
        kind: SubscriptionKind,
        token: Option<String>,
        request: Option<CallbackRequest>,
        around: &Surroundings<'_>,
    ) -> (r: Prepared)
        requires
            old(self).wf(),
            around.wf(),
            fits_token(key_of(stream_root@, id@)),
            token matches Some(text) ==> fits_token(text@),
        ensures
            final(self).wf(),
            r.carries(
                final(self)@,
                old(self)@.callback(
                    key_of(stream_root@, id@),
                    kind,
                    opt_text(token),
                    opt_callback(request),
                    around@,
                ),
            ),
    {
        let key = subscription_key(stream_root, id);
        let at = match self.check_report(key.as_str(), kind, &token, &request, around) {
            Ok(at) => at,
            Err(reply) => {
                return Prepared::reply_only(reply);
            },
        };
        let request = match request {
            Some(request) => request,
            None => {
                return Prepared::refuse(400, "INVALID_REQUEST", "Invalid JSON body");
            },
        };
        let mut sub = self.at(at).copy();
        let ghost before = sub@;
        assert(before == old(self)@.subscriptions[key@]);
        match sub.apply_acks(&request.acks, around.table) {
            Ok(()) => {},
            Err(message) => {
                return Prepared::refuse(409, "INVALID_OFFSET", message);
            },
        }
        let done = match request.done {
            Some(done) => done,
            None => false,
        };
        let (delivery, lease) = if done {
            (sub.rewake(around.table, around.secret, around.seed, around.now_ms), None)
        } else {
            let expires_at_ms = sub.renew_lease(around.now_ms);
            (None, Some(sub.lease(expires_at_ms)))
        };
        let reply = Reply::Acknowledged { next_wake: delivery.is_some() };
        let undo = self.replace(at, sub);
        Prepared { reply, change: Some(Change { undo, delivery, lease }) }
    }

    /// A worker releases a wake.
    pub fn handle_release(
        &mut self,
        stream_root: &str,
        id: &str,
        token: Option<String>,
        request: Option<CallbackRequest>,
        around: &Surroundings<'_>,
    ) -> (r: Prepared)
        requires
            old(self).wf(),
            around.wf(),
            fits_token(key_of(stream_root@, id@)),
            token matches Some(text) ==> fits_token(text@),
        ensures
            final(self).wf(),
            r.carries(
                final(self)@,
                old(self)@.release(
                    key_of(stream_root@, id@),
                    opt_text(token),
                    opt_callback(request),
                    around@,
                ),
            ),
    {
        let key = subscription_key(stream_root, id);
        let at = match self.check_report(
            key.as_str(),
            SubscriptionKind::PullWake,
            &token,
            &request,
            around,
        ) {
            Ok(at) => at,
            Err(reply) => {
                return Prepared::reply_only(reply);
            },
        };
        let mut sub = self.at(at).copy();
        let delivery = sub.rewake(around.table, around.secret, around.seed, around.now_ms);
        let undo = self.replace(at, sub);
        Prepared { reply: Reply::Done, change: Some(Change { undo, delivery, lease: None }) }
    }
}

fn is_empty(text: &str) -> (r: bool)
    ensures
        r == (text@.len() == 0),
{
    let empty = String::new();
    proof {
        if text@.len() == 0 {
            assert(text@ =~= empty@);
        }
    }
    same_text(text, empty.as_str())
}

} // verus!
