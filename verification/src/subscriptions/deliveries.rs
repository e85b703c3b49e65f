//! Deliveries and leases running their course, and taking them up after a
//! restart.

use crate::path_map::in_order;
use crate::subscriptions::config::SubscriptionStatus;
use crate::subscriptions::crypto::ed25519_signature;
use crate::subscriptions::encoding::base64_url_text;
use crate::subscriptions::events::{seed_list, seeds_suffice, MAX_RETRY_DELAY_MS};
use crate::subscriptions::keys::{RingView, SigningKeyRing};
use crate::subscriptions::links::{listed, list_streams, StreamStatus, StreamTable};
use crate::subscriptions::resume::{opt_attempt, opt_lease, Attempt, Lease, LeaseView};
use crate::subscriptions::state::{ManagerState, StateView};
use crate::subscriptions::steps::{Surroundings, SurroundingsView};
use crate::subscriptions::subscription::{
    info_list, later_ms, opt_delivery, Delivery, DeliveryView, InfoView, StreamInfo, SubView,
    Subscription,
};
use crate::subscriptions::token::{WakeSeed, WakeSeedView};
use crate::text::{copy_optional, decimal, opt_text, push_decimal, texts};
use vstd::arithmetic::power2::pow2;
use vstd::prelude::*;
use vstd::utf8::encode_utf8;

verus! {

/// Which delivery of which subscription is meant.
pub struct DeliveryId {
    pub key: String,
    pub generation: u64,
    pub wake_id: String,
    pub nonce: u64,
}

/// Which delivery is meant, as a mathematical value.
#[verifier::ext_equal]
pub struct DeliveryIdView {
    pub key: Seq<char>,
    pub generation: u64,
    pub wake_id: Seq<char>,
    pub nonce: u64,
}

impl View for DeliveryId {
    type V = DeliveryIdView;

    open spec fn view(&self) -> DeliveryIdView {
        DeliveryIdView {
            key: self.key@,
            generation: self.generation,
            wake_id: self.wake_id@,
            nonce: self.nonce,
        }
    }
}

impl DeliveryView {
    /// Which delivery an announcement belongs to.
    pub open spec fn id(self) -> DeliveryIdView {
        match self {
            DeliveryView::Webhook { key, generation, wake_id, nonce } => DeliveryIdView {
                key,
                generation,
                wake_id,
                nonce,
            },
            DeliveryView::PullWake { key, generation, wake_id, nonce, .. } => DeliveryIdView {
                key,
                generation,
                wake_id,
                nonce,
            },
        }
    }
}

impl Delivery {
    /// Which delivery an announcement belongs to.
    pub fn id(&self) -> (r: DeliveryId)
        ensures
            r@ == self@.id(),
    {
        match self {
            Delivery::Webhook { key, generation, wake_id, nonce } => DeliveryId {
                key: key.clone(),
                generation: *generation,
                wake_id: wake_id.clone(),
                nonce: *nonce,
            },
            Delivery::PullWake { key, generation, wake_id, nonce, .. } => DeliveryId {
                key: key.clone(),
                generation: *generation,
                wake_id: wake_id.clone(),
                nonce: *nonce,
            },
        }
    }
}

/// What a webhook tells its receiver.
pub struct WebhookMessage {
    pub url: String,
    pub subscription_id: String,
    pub wake_id: Option<String>,
    pub generation: u64,
    pub streams: Vec<StreamInfo>,
    pub callback_url: String,
    pub callback_token: Option<String>,
}

/// What a webhook tells its receiver, as a mathematical value.
#[verifier::ext_equal]
pub struct MessageView {
    pub url: Seq<char>,
    pub subscription_id: Seq<char>,
    pub wake_id: Option<Seq<char>>,
    pub generation: u64,
    pub streams: Seq<InfoView>,
    pub callback_url: Seq<char>,
    pub callback_token: Option<Seq<char>>,
}

impl View for WebhookMessage {
    type V = MessageView;

    open spec fn view(&self) -> MessageView {
        MessageView {
            url: self.url@,
            subscription_id: self.subscription_id@,
            wake_id: opt_text(self.wake_id),
            generation: self.generation,
            streams: info_list(self.streams@),
            callback_url: self.callback_url@,
            callback_token: opt_text(self.callback_token),
        }
    }
}

/// How long the first, second, and so on retry waits before jitter: a second,
/// doubled each time, up to the longest delay.
pub open spec fn retry_base(count: u32) -> int {
    let exponent = if count == 0 {
        0
    } else if count > 16 {
        16
    } else {
        count - 1
    };
    let doubled = 1000 * pow2(exponent as nat);
    if doubled > MAX_RETRY_DELAY_MS {
        MAX_RETRY_DELAY_MS as int
    } else {
        doubled as int
    }
}

/// How long a retry waits: up to a fifth less or more than its base.
pub open spec fn retry_delay(count: u32, random: u16) -> int {
    retry_base(count) * (80 + random as int % 41) / 100
}

/// How long a retry waits.
pub fn retry_delay_ms(count: u32, random: u16) -> (r: u64)
    ensures
        r == retry_delay(count, random),
        r <= 72_000,
{
    let exponent: u64 = if count == 0 {
        0
    } else if count > 16 {
        16
    } else {
        (count - 1) as u64
    };
    proof {
        vstd::arithmetic::power2::lemma2_to64();
        if exponent < 16 {
            vstd::arithmetic::power2::lemma_pow2_strictly_increases(exponent as nat, 16);
        }
        vstd::bits::lemma_u64_shl_is_mul(1, exponent);
    }
    let doubled: u64 = 1000 * (1u64 << exponent);
    let base: u64 = if doubled > MAX_RETRY_DELAY_MS {
        MAX_RETRY_DELAY_MS
    } else {
        doubled
    };
    let jitter: u64 = 80 + random as u64 % 41;
    proof {
        let b = base as int;
        let j = jitter as int;
        assert(0 <= b * j <= 60_000 * 120) by (nonlinear_arith)
            requires
                0 <= b <= 60_000,
                0 <= j <= 120,
        ;
    }
    base * jitter / 100
}

/// A retry waits at least four fifths of a second and at most six fifths of the
/// longest delay, and the base never shrinks from one retry to the next.
pub proof fn law_retry_delay_bounds(count: u32, random: u16)
    ensures
        800 <= retry_delay(count, random) <= 72_000,
        count < u32::MAX ==> retry_base(count) <= retry_base((count + 1) as u32),
{
    vstd::arithmetic::power2::lemma2_to64();
    lemma_retry_base(count);
    let b = retry_base(count);
    let j = 80 + random as int % 41;
    assert(1_000 * 80 <= b * j <= 60_000 * 120) by (nonlinear_arith)
        requires
            1_000 <= b <= 60_000,
            80 <= j <= 120,
    ;
    if count < u32::MAX {
        lemma_retry_base((count + 1) as u32);
        if 1 <= count <= 15 {
            vstd::arithmetic::power2::lemma_pow2_strictly_increases(
                (count - 1) as nat,
                count as nat,
            );
        }
    }
}

/// A retry waits twice as long as the one before, from one second up to the
/// longest delay; chance moves it by at most a fifth, and neither way more often.
pub proof fn law_retry_delay_doubles(count: u32, random: u16)
    ensures
        retry_base(0) == 1_000,
        retry_base(1) == 1_000,
        1 <= count < 6 ==> retry_base((count + 1) as u32) == 2 * retry_base(count),
        count >= 7 ==> retry_base(count) == 60_000,
        5 * retry_delay(count, random) <= 6 * retry_base(count),
        5 * retry_delay(count, random) + 5 > 4 * retry_base(count),
        random % 41 == 20 ==> retry_delay(count, random) == retry_base(count),
{
    vstd::arithmetic::power2::lemma2_to64();
    lemma_retry_base(count);
    let b = retry_base(count);
    let j = 80 + random as int % 41;
    assert(b * j <= b * 120 && b * j >= b * 80) by (nonlinear_arith)
        requires
            1_000 <= b,
            80 <= j <= 120,
    ;
    if random % 41 == 20 {
        assert(b * j == b * 100);
    }
    if 7 <= count <= 16 {
        if count > 7 {
            vstd::arithmetic::power2::lemma_pow2_strictly_increases(6, (count - 1) as nat);
        }
    }
}

proof fn lemma_retry_base(count: u32)
    ensures
        1_000 <= retry_base(count) <= 60_000,
{
    vstd::arithmetic::power2::lemma2_to64();
    let exponent = if count == 0 {
        0
    } else if count > 16 {
        16
    } else {
        count - 1
    };
    if exponent > 0 {
        vstd::arithmetic::power2::lemma_pow2_strictly_increases(0, exponent as nat);
    }
}

impl SubView {
    /// The subscription with its delivery put off.
    pub open spec fn put_off(self, random: u16, now_ms: u64) -> SubView {
        let count = if self.retry_count == u32::MAX {
            u32::MAX
        } else {
            (self.retry_count + 1) as u32
        };
        SubView {
            status: SubscriptionStatus::Failed,
            retry_count: count,
            next_attempt_at_ms: Some(later_ms(now_ms, retry_delay(count, random) as u64)),
            wake_delivery_pending: true,
            ..self
        }
    }

    /// What the webhook of the wake under way tells.
    pub open spec fn message(self, table: Map<Seq<char>, StreamStatus>) -> Option<MessageView> {
        match self.config.webhook_url {
            Some(url) => Some(
                MessageView {
                    url,
                    subscription_id: self.id,
                    wake_id: self.wake_id,
                    generation: self.generation,
                    streams: self.infos(table),
                    callback_url: self.public_root() + "/__ds/subscriptions/"@ + self.id
                        + "/callback"@,
                    callback_token: self.token,
                },
            ),
            None => None,
        }
    }

    /// Whether this is the lease that runs.
    pub open spec fn holds_lease(self, lease: LeaseView) -> bool {
        &&& self.generation == lease.generation
        &&& self.wake_id == Some(lease.wake_id)
        &&& self.lease_nonce == lease.nonce
        &&& self.lease_expires_at_ms == Some(lease.expires_at_ms)
    }

    /// The subscription after its webhook was accepted, and the next wake.
    /// Where the receiver is done, everything that was announced is
    /// acknowledged; otherwise it will call back.
    pub open spec fn answered(self, done: bool, around: SurroundingsView) -> (
        SubView,
        Option<DeliveryView>,
    ) {
        if done {
            self.delivered().snapshot_acknowledged().rewoken(
                around.table,
                around.secret,
                around.seed,
                around.now_ms,
            )
        } else {
            (self.delivered(), None)
        }
    }
}

impl StateView {
    /// Whether a delivery is still the one to make.
    pub open spec fn current(self, id: DeliveryIdView) -> bool {
        self.subscriptions.contains_key(id.key) && self.subscriptions[id.key].delivers(
            id.generation,
            id.wake_id,
            id.nonce,
        )
    }

    /// The state once a pull wake reached its channel.
    pub open spec fn told(self, id: DeliveryIdView) -> StateView {
        if self.current(id) {
            self.with_sub(id.key, self.subscriptions[id.key].delivered())
        } else {
            self
        }
    }

    /// The state once a delivery failed, and when to try again.
    pub open spec fn told_later(self, id: DeliveryIdView, random: u16, now_ms: u64) -> (
        StateView,
        Option<u64>,
    ) {
        if self.current(id) {
            let next = self.subscriptions[id.key].put_off(random, now_ms);
            (self.with_sub(id.key, next), next.next_attempt_at_ms)
        } else {
            (self, None)
        }
    }

    /// The state once a webhook took its message, and the next wake's message.
    pub open spec fn told_and_answered(
        self,
        id: DeliveryIdView,
        done: bool,
        around: SurroundingsView,
    ) -> (StateView, Option<DeliveryView>) {
        if self.current(id) {
            let (next, delivery) = self.subscriptions[id.key].answered(done, around);
            (self.with_sub(id.key, next), delivery)
        } else {
            (self, None)
        }
    }

    /// The state once a lease ran out, and the next wake's message.
    pub open spec fn lease_ended(self, lease: LeaseView, around: SurroundingsView) -> (
        StateView,
        Option<DeliveryView>,
    ) {
        if self.lease_runs(lease) {
            let (next, delivery) = self.subscriptions[lease.key].rewoken(
                around.table,
                around.secret,
                around.seed,
                around.now_ms,
            );
            (self.with_sub(lease.key, next), delivery)
        } else {
            (self, None)
        }
    }

    /// Whether a lease still runs.
    pub open spec fn lease_runs(self, lease: LeaseView) -> bool {
        self.subscriptions.contains_key(lease.key) && self.subscriptions[lease.key].holds_lease(
            lease,
        )
    }
}

impl Subscription {
    fn put_off(&mut self, random: u16, now_ms: u64) -> (r: u64)
        requires
            old(self).wf(),
        ensures
            final(self).wf(),
            final(self)@ == old(self)@.put_off(random, now_ms),
            final(self)@.next_attempt_at_ms == Some(r),
    {
        self.status = SubscriptionStatus::Failed;
        self.retry_count = self.retry_count.saturating_add(1);
        let delay = retry_delay_ms(self.retry_count, random);
        let at_ms: u64 = now_ms.saturating_add(delay);
        self.next_attempt_at_ms = Some(at_ms);
        self.wake_delivery_pending = true;
        assert(self@ =~= old(self)@.put_off(random, now_ms));
        at_ms
    }

    fn message(&self, table: &StreamTable) -> (r: Option<WebhookMessage>)
        requires
            self.wf(),
            table.wf(),
        ensures
            match r {
                Some(message) => self@.message(table@) == Some(message@),
                None => self@.message(table@) is None,
            },
    {
        match &self.config.webhook_url {
            Some(url) => {
                let mut callback_url = self.public_root();
                callback_url.append("/__ds/subscriptions/");
                callback_url.append(self.id.as_str());
                callback_url.append("/callback");
                Some(
                    WebhookMessage {
                        url: url.clone(),
                        subscription_id: self.id.clone(),
                        wake_id: copy_optional(&self.wake_id),
                        generation: self.generation,
                        streams: self.stream_infos(table),
                        callback_url,
                        callback_token: copy_optional(&self.token),
                    },
                )
            },
            None => None,
        }
    }

    fn holds_lease(&self, lease: &Lease) -> (r: bool)
        ensures
            r == self@.holds_lease(lease@),
    {
        self.generation == lease.generation && crate::text::optional_is(
            &self.wake_id,
            lease.wake_id.as_str(),
        ) && self.lease_nonce == lease.nonce && match self.lease_expires_at_ms {
            Some(expires_at_ms) => expires_at_ms == lease.expires_at_ms,
            None => false,
        }
    }
}

impl ManagerState {
    /// Where the subscription stands whose delivery is still to be made.
    fn current_at(&self, id: &DeliveryId) -> (r: Option<usize>)
        requires
            self.wf(),
        ensures
            match r {
                Some(at) => {
                    &&& self@.current(id@)
                    &&& at < self.subscriptions.key_list().len()
                    &&& self.subscriptions.key_list()[at as int] == id@.key
                },
                None => !self@.current(id@),
            },
    {
        match self.subscriptions.position(id.key.as_str()) {
            Some(at) => if self.at(at).delivers(id.generation, id.wake_id.as_str(), id.nonce) {
                Some(at)
            } else {
                None
            },
            None => None,
        }
    }

    /// Whether a delivery is still the one to make.
    pub fn delivery_is_current(&self, id: &DeliveryId) -> (r: bool)
        requires
            self.wf(),
        ensures
            r == self@.current(id@),
    {
        self.current_at(id).is_some()
    }

    /// Note that a pull wake reached its channel.
    pub fn pull_wake_delivered(&mut self, id: &DeliveryId)
        requires
            old(self).wf(),
        ensures
            final(self).wf(),
            final(self)@ == (if old(self)@.current(id@) {
                old(self)@.with_sub(id@.key, old(self)@.subscriptions[id@.key].delivered())
            } else {
                old(self)@
            }),
            final(self)@ == old(self)@.told(id@),
    {
        match self.current_at(id) {
            Some(at) => {
                let mut sub = self.at(at).copy();
                sub.note_delivered();
                self.set(at, sub);
            },
            None => {},
        }
    }

    /// Put a delivery off that failed: when to try again, if it is still the
    /// one to make.
    pub fn schedule_retry(&mut self, id: &DeliveryId, random: u16, now_ms: u64) -> (r: Option<u64>)
        requires
            old(self).wf(),
        ensures
            final(self).wf(),
            match r {
                Some(at_ms) => {
                    let next = old(self)@.subscriptions[id@.key].put_off(random, now_ms);
                    &&& old(self)@.current(id@)
                    &&& final(self)@ == old(self)@.with_sub(id@.key, next)
                    &&& next.next_attempt_at_ms == Some(at_ms)
                    &&& final(self)@.current(id@)
                },
                None => !old(self)@.current(id@) && final(self)@ == old(self)@,
            },
            (final(self)@, r) == old(self)@.told_later(id@, random, now_ms),
    {
        match self.current_at(id) {
            Some(at) => {
                let mut sub = self.at(at).copy();
                let at_ms = sub.put_off(random, now_ms);
                self.set(at, sub);
                Some(at_ms)
            },
            None => None,
        }
    }

    /// The lease that a webhook delivery starts to watch, if it is still the
    /// one to make.
    pub fn webhook_lease(&self, id: &DeliveryId) -> (r: Option<Option<Lease>>)
        requires
            self.wf(),
        ensures
            match r {
                Some(lease) => {
                    let sub = self@.subscriptions[id@.key];
                    &&& self@.current(id@)
                    &&& opt_lease(lease) == (match sub.lease_expires_at_ms {
                        Some(expires_at_ms) => Some(sub.lease(expires_at_ms)),
                        None => None,
                    })
                },
                None => !self@.current(id@),
            },
    {
        match self.current_at(id) {
            Some(at) => {
                let sub = self.at(at);
                Some(
                    match sub.lease_expires_at_ms {
                        Some(expires_at_ms) => Some(sub.lease(expires_at_ms)),
                        None => None,
                    },
                )
            },
            None => None,
        }
    }

    /// What the webhook of a delivery tells, if it is still the one to make.
    pub fn webhook_message(&self, id: &DeliveryId, table: &StreamTable) -> (r: Option<
        WebhookMessage,
    >)
        requires
            self.wf(),
            table.wf(),
        ensures
            match r {
                Some(message) => self@.current(id@) && self@.subscriptions[id@.key].message(table@)
                    == Some(message@),
                None => self@.current(id@) ==> self@.subscriptions[id@.key].message(table@) is None,
            },
    {
        match self.current_at(id) {
            Some(at) => self.at(at).message(table),
            None => None,
        }
    }

    /// Note that a webhook was accepted: the next wake, if there is one.
    pub fn webhook_answered(&mut self, id: &DeliveryId, done: bool, around: &Surroundings<'_>) -> (r:
        Option<Delivery>)
        requires
            old(self).wf(),
            around.wf(),
        ensures
            final(self).wf(),
            ({
                let (next, delivery) = old(self)@.subscriptions[id@.key].answered(done, around@);
                if old(self)@.current(id@) {
                    final(self)@ == old(self)@.with_sub(id@.key, next) && opt_delivery(r)
                        == delivery
                } else {
                    final(self)@ == old(self)@ && r is None
                }
            }),
            (final(self)@, opt_delivery(r)) == old(self)@.told_and_answered(id@, done, around@),
    {
        match self.current_at(id) {
            Some(at) => {
                let mut sub = self.at(at).copy();
                sub.note_delivered();
                let delivery = if done {
                    sub.acknowledge_wake_snapshot();
                    sub.rewake(around.table, around.secret, around.seed, around.now_ms)
                } else {
                    None
                };
                self.set(at, sub);
                delivery
            },
            None => None,
        }
    }

    /// Note that a lease came to its end. Says whether it still ran, and gives
    /// the next wake.
    pub fn lease_expired(&mut self, lease: &Lease, around: &Surroundings<'_>) -> (r: (
        bool,
        Option<Delivery>,
    ))
        requires
            old(self).wf(),
            around.wf(),
        ensures
            final(self).wf(),
            r.0 == old(self)@.lease_runs(lease@),
            ({
                let (next, delivery) = old(self)@.subscriptions[lease@.key].rewoken(
                    around@.table,
                    around@.secret,
                    around@.seed,
                    around@.now_ms,
                );
                if r.0 {
                    final(self)@ == old(self)@.with_sub(lease@.key, next) && opt_delivery(r.1)
                        == delivery
                } else {
                    final(self)@ == old(self)@ && r.1 is None
                }
            }),
            (final(self)@, opt_delivery(r.1)) == old(self)@.lease_ended(lease@, around@),
    {
        let at = match self.subscriptions.position(lease.key.as_str()) {
            Some(at) => at,
            None => {
                return (false, None);
            },
        };
        if !self.at(at).holds_lease(lease) {
            return (false, None);
        }
        let mut sub = self.at(at).copy();
        let delivery = sub.rewake(around.table, around.secret, around.seed, around.now_ms);
        self.set(at, sub);
        (true, delivery)
    }
}

/// What is signed of a webhook: the time and the body.
pub open spec fn signed_text(timestamp: u64, body: Seq<char>) -> Seq<char> {
    decimal(timestamp as nat).push('.') + body
}

/// The signature header of a webhook.
pub open spec fn signature_text(ring: RingView, timestamp: u64, body: Seq<char>) -> Seq<char> {
    let key = ring.active();
    "t="@ + decimal(timestamp as nat) + ",kid="@ + key.kid + ",ed25519="@ + base64_url_text(
        ed25519_signature(key.document, encode_utf8(signed_text(timestamp, body))),
    )
}

impl SigningKeyRing {
    /// Sign a webhook with the active key: its signature header.
    pub fn sign_webhook(&self, timestamp: u64, body: &str) -> (r: Option<String>)
        ensures
            match r {
                Some(header) => self@.has_active() && header@ == signature_text(
                    self@,
                    timestamp,
                    body@,
                ),
                None => !self@.wf(),
            },
    {
        let mut text = String::new();
        push_decimal(&mut text, timestamp);
        text.push('.');
        text.append(body);
        assert(text@ =~= signed_text(timestamp, body@));
        match self.sign_message(text.as_str().as_bytes()) {
            Some((kid, signature)) => {
                let mut header = "t=".to_owned();
                push_decimal(&mut header, timestamp);
                header.append(",kid=");
                header.append(kid.as_str());
                header.append(",ed25519=");
                header.append(signature.as_str());
                Some(header)
            },
            None => None,
        }
    }
}

/// How long to sleep before looking at the clock again, while a deadline is
/// ahead: to the deadline, but at most a second.
pub fn next_nap_ms(now_ms: u64, deadline_ms: u64) -> (r: Option<u64>)
    ensures
        match r {
            Some(nap) => {
                &&& now_ms < deadline_ms
                &&& 0 < nap <= 1000
                &&& nap == 1000 || nap == deadline_ms - now_ms
                &&& now_ms + nap <= deadline_ms
            },
            None => now_ms >= deadline_ms,
        },
{
    if now_ms >= deadline_ms {
        None
    } else if deadline_ms - now_ms < 1000 {
        Some(deadline_ms - now_ms)
    } else {
        Some(1000)
    }
}

impl StateView {
    /// What a restart does to the subscription at position `i`.
    pub open spec fn restart_at(
        self,
        i: int,
        table: Map<Seq<char>, StreamStatus>,
        secret: Seq<u8>,
        seeds: Seq<WakeSeedView>,
        now_ms: u64,
    ) -> (SubView, Option<(DeliveryView, u64)>, Option<LeaseView>) {
        let sub = self.subscriptions[self.keys()[i]];
        sub.reconciled(
            table,
            self.wake_streams.dom(),
            listed(in_order(table.dom()), table, sub.root),
        ).resumed(table, secret, seeds[i], now_ms)
    }

    /// The subscriptions after a restart.
    pub open spec fn after_restart(
        self,
        table: Map<Seq<char>, StreamStatus>,
        secret: Seq<u8>,
        seeds: Seq<WakeSeedView>,
        now_ms: u64,
    ) -> StateView {
        StateView {
            subscriptions: Map::new(
                |key: Seq<char>| self.subscriptions.contains_key(key),
                |key: Seq<char>|
                    self.restart_at(self.keys().index_of(key), table, secret, seeds, now_ms).0,
            ),
            ..self
        }
    }

    /// The deliveries of the first `n` subscriptions to take up after a restart.
    pub open spec fn attempts(
        self,
        n: int,
        table: Map<Seq<char>, StreamStatus>,
        secret: Seq<u8>,
        seeds: Seq<WakeSeedView>,
        now_ms: u64,
    ) -> Seq<(DeliveryView, u64)>
        decreases n,
    {
        if n <= 0 {
            Seq::empty()
        } else {
            let front = self.attempts(n - 1, table, secret, seeds, now_ms);
            match self.restart_at(n - 1, table, secret, seeds, now_ms).1 {
                Some(attempt) => front.push(attempt),
                None => front,
            }
        }
    }

    /// The leases of the first `n` subscriptions to watch after a restart.
    pub open spec fn leases(
        self,
        n: int,
        table: Map<Seq<char>, StreamStatus>,
        secret: Seq<u8>,
        seeds: Seq<WakeSeedView>,
        now_ms: u64,
    ) -> Seq<LeaseView>
        decreases n,
    {
        if n <= 0 {
            Seq::empty()
        } else {
            let front = self.leases(n - 1, table, secret, seeds, now_ms);
            match self.restart_at(n - 1, table, secret, seeds, now_ms).2 {
                Some(lease) => front.push(lease),
                None => front,
            }
        }
    }
}

/// The contents of several attempts.
pub open spec fn attempt_list(attempts: Seq<Attempt>) -> Seq<(DeliveryView, u64)> {
    attempts.map_values(|attempt: Attempt| (attempt.delivery@, attempt.at_ms))
}

/// The contents of several leases.
pub open spec fn lease_list(leases: Seq<Lease>) -> Seq<LeaseView> {
    leases.map_values(|lease: Lease| lease@)
}

impl SubView {
    /// A restart leaves the name of the subscription alone.
    proof fn lemma_restart_keeps_key(
        self,
        table: Map<Seq<char>, StreamStatus>,
        wake_paths: Set<Seq<char>>,
        names: Seq<Seq<char>>,
        secret: Seq<u8>,
        seed: WakeSeedView,
        now_ms: u64,
    )
        ensures
            self.reconciled(table, wake_paths, names).key() == self.key(),
            self.reconciled(table, wake_paths, names).resumed(table, secret, seed, now_ms).0.key()
                == self.key(),
    {
    }
}

impl ManagerState {
    /// Bring all subscriptions in line with the recovered streams: the
    /// deliveries to take up again, and the leases to watch.
    pub fn resume(
        &mut self,
        table: &StreamTable,
        secret: &Vec<u8>,
        seeds: &Vec<WakeSeed>,
        now_ms: u64,
    ) -> (r: (Vec<Attempt>, Vec<Lease>))
        requires
            old(self).wf(),
            table.wf(),
            secret@.len() == 32,
            seeds_suffice(seeds@, old(self)@.subscriptions.dom().len()),
        ensures
            final(self).wf(),
            final(self)@ == old(self)@.after_restart(table@, secret@, seed_list(seeds@), now_ms),
            attempt_list(r.0@) == old(self)@.attempts(
                old(self)@.keys().len() as int,
                table@,
                secret@,
                seed_list(seeds@),
                now_ms,
            ),
            lease_list(r.1@) == old(self)@.leases(
                old(self)@.keys().len() as int,
                table@,
                secret@,
                seed_list(seeds@),
                now_ms,
            ),
    {
        let ghost before = self@;
        let ghost keys = self.subscriptions.key_list();
        let ghost list = seed_list(seeds@);
        let mut attempts: Vec<Attempt> = Vec::new();
        let mut leases: Vec<Lease> = Vec::new();
        let mut i: usize = 0;
        proof {
            self.subscriptions.lemma_lists();
            assert(attempt_list(attempts@) =~= before.attempts(0, table@, secret@, list, now_ms));
            assert(lease_list(leases@) =~= before.leases(0, table@, secret@, list, now_ms));
        }
        while i < self.subscriptions.len()
            invariant
                self.wf(),
                table.wf(),
                secret@.len() == 32,
                seeds_suffice(seeds@, keys.len()),
                list == seed_list(seeds@),
                keys == self.subscriptions.key_list(),
                keys == before.keys(),
                keys.no_duplicates(),
                i <= keys.len(),
                self@.wake_streams == before.wake_streams,
                self@.subscriptions.dom() == before.subscriptions.dom(),
                forall|k: int|
                    0 <= k < i ==> self@.subscriptions[#[trigger] keys[k]] == before.restart_at(
                        k,
                        table@,
                        secret@,
                        list,
                        now_ms,
                    ).0,
                forall|k: int|
                    i <= k < keys.len() ==> self@.subscriptions[#[trigger] keys[k]]
                        == before.subscriptions[keys[k]],
                attempt_list(attempts@) == before.attempts(
                    i as int,
                    table@,
                    secret@,
                    list,
                    now_ms,
                ),
                lease_list(leases@) == before.leases(i as int, table@, secret@, list, now_ms),
            decreases keys.len() - i,
        {
            let ghost attempts_before = attempt_list(attempts@);
            let ghost leases_before = lease_list(leases@);
            assert(list[i as int] == seeds@[i as int]@);
            proof {
                self.subscriptions.lemma_lists();
            }
            let mut sub = self.at(i).copy();
            let names = list_streams(table, sub.stream_root.as_str());
            proof {
                sub@.lemma_restart_keeps_key(
                    table@,
                    before.wake_streams.dom(),
                    texts(names@),
                    secret@,
                    list[i as int],
                    now_ms,
                );
            }
            sub.reconcile(&names, &self.wake_streams, table);
            let (attempt, lease) = sub.resume_wake(table, secret, &seeds[i], now_ms);
            assert((sub@, opt_attempt(attempt), opt_lease(lease)) == before.restart_at(
                i as int,
                table@,
                secret@,
                list,
                now_ms,
            ));
            match attempt {
                Some(attempt) => {
                    attempts.push(attempt);
                    assert(attempt_list(attempts@) =~= attempts_before.push(
                        (attempt.delivery@, attempt.at_ms),
                    ));
                },
                None => {},
            }
            match lease {
                Some(lease) => {
                    leases.push(lease);
                    assert(lease_list(leases@) =~= leases_before.push(lease@));
                },
                None => {},
            }
            self.set(i, sub);
            assert(self@.subscriptions.dom() =~= before.subscriptions.dom());
            i = i + 1;
        }
        proof {
            self.subscriptions.lemma_lists();
            let goal = before.after_restart(table@, secret@, list, now_ms);
            assert forall|key: Seq<char>| self@.subscriptions.contains_key(key) implies
                self@.subscriptions[key] == goal.subscriptions[key] by {
                assert(keys.contains(key));
                let k = keys.index_of(key);
                assert(keys[k] == key);
            }
            assert(self@.subscriptions =~= goal.subscriptions);
            assert(self@ =~= goal);
        }
        (attempts, leases)
    }
}

/// While a deadline is ahead one sleeps, not beyond it and not for more than a
/// second.
pub proof fn law_naps_end_at_the_deadline(now_ms: u64, deadline_ms: u64, nap: Option<u64>)
    requires
        call_ensures(next_nap_ms, (now_ms, deadline_ms), nap),
    ensures
        nap is Some <==> now_ms < deadline_ms,
        now_ms < deadline_ms && deadline_ms - now_ms <= 1_000 ==> nap == Some(
            (deadline_ms - now_ms) as u64,
        ),
        now_ms + 1_000 <= deadline_ms ==> nap == Some(1_000u64),
{
}

} // verus!
