//! One subscription: its links, its cursor on each stream, and its wake.

use crate::path_map::{in_order, Duplicate, PathMap};
use crate::store::offset::{format_offset, offset_denotes, offset_text, ParsedOffset};
use crate::subscriptions::config::{
    ConfigView, SubscriptionConfig, SubscriptionKind, SubscriptionStatus,
};
use crate::subscriptions::links::{
    live_at, live_tail_offset, tail_at, tail_offset, LinkView, StreamLink, StreamStatus,
    StreamTable,
};
use crate::subscriptions::paths::{key_of, subscription_key};
use crate::subscriptions::token::{
    fits_token, generate_token, token_expiry, token_text, WakeSeed, WakeSeedView,
};
use crate::text::{
    copy_optional, least, lemma_least_is, opt_text, same_text, text_before, text_less, trim_both,
};
use vstd::prelude::*;

verus! {

/// A subscription.
pub struct Subscription {
    pub id: String,
    pub stream_root: String,
    pub config: SubscriptionConfig,
    pub callback_base_url: String,
    pub created_at: String,
    pub status: SubscriptionStatus,
    pub streams: PathMap<StreamLink>,
    pub generation: u64,
    pub wake_id: Option<String>,
    pub wake_snapshot: PathMap<String>,
    pub token: Option<String>,
    pub holder: Option<String>,
    pub lease_nonce: u64,
    pub retry_count: u32,
    pub next_attempt_at_ms: Option<u64>,
    pub lease_expires_at_ms: Option<u64>,
    pub wake_trigger: Option<String>,
    pub wake_delivery_pending: bool,
}

/// A subscription as a mathematical value.
#[verifier::ext_equal]
pub struct SubView {
    pub id: Seq<char>,
    pub root: Seq<char>,
    pub config: ConfigView,
    pub callback_base: Seq<char>,
    pub created_at: Seq<char>,
    pub status: SubscriptionStatus,
    pub streams: Map<Seq<char>, LinkView>,
    pub generation: u64,
    pub wake_id: Option<Seq<char>>,
    pub wake_snapshot: Map<Seq<char>, Seq<char>>,
    pub token: Option<Seq<char>>,
    pub holder: Option<Seq<char>>,
    pub lease_nonce: u64,
    pub retry_count: u32,
    pub next_attempt_at_ms: Option<u64>,
    pub lease_expires_at_ms: Option<u64>,
    pub wake_trigger: Option<Seq<char>>,
    pub wake_delivery_pending: bool,
}

impl View for Subscription {
    type V = SubView;

    open spec fn view(&self) -> SubView {
        SubView {
            id: self.id@,
            root: self.stream_root@,
            config: self.config@,
            callback_base: self.callback_base_url@,
            created_at: self.created_at@,
            status: self.status,
            streams: self.streams@,
            generation: self.generation,
            wake_id: opt_text(self.wake_id),
            wake_snapshot: self.wake_snapshot@,
            token: opt_text(self.token),
            holder: opt_text(self.holder),
            lease_nonce: self.lease_nonce,
            retry_count: self.retry_count,
            next_attempt_at_ms: self.next_attempt_at_ms,
            lease_expires_at_ms: self.lease_expires_at_ms,
            wake_trigger: opt_text(self.wake_trigger),
            wake_delivery_pending: self.wake_delivery_pending,
        }
    }
}

/// The number behind `n`, starting again at zero.
pub open spec fn next_u64(n: u64) -> u64 {
    if n == u64::MAX {
        0
    } else {
        (n + 1) as u64
    }
}

/// A time that is `ms` later, as far as the clock reaches.
pub open spec fn later_ms(now_ms: u64, ms: u64) -> u64 {
    if now_ms + ms > u64::MAX {
        u64::MAX
    } else {
        (now_ms + ms) as u64
    }
}

/// What is told about one linked stream.
#[verifier::ext_equal]
pub struct InfoView {
    pub path: Seq<char>,
    pub link_type: Seq<char>,
    pub acked: Seq<char>,
    pub tail: Seq<char>,
    pub has_pending: bool,
}

/// What is told about one linked stream.
pub struct StreamInfo {
    pub path: String,
    pub link_type: &'static str,
    pub acked_offset: String,
    pub tail_offset: String,
    pub has_pending: bool,
}

impl View for StreamInfo {
    type V = InfoView;

    open spec fn view(&self) -> InfoView {
        InfoView {
            path: self.path@,
            link_type: self.link_type@,
            acked: self.acked_offset@,
            tail: self.tail_offset@,
            has_pending: self.has_pending,
        }
    }
}

/// The contents of several infos.
pub open spec fn info_list(infos: Seq<StreamInfo>) -> Seq<InfoView> {
    infos.map_values(|info: StreamInfo| info@)
}

/// One request to move a cursor.
pub struct AckRequest {
    pub stream: Option<String>,
    pub path: Option<String>,
    pub offset: String,
}

/// A request to move a cursor as a mathematical value: which stream, and where to.
#[verifier::ext_equal]
pub struct AckView {
    pub stream: Seq<char>,
    pub offset: Seq<char>,
}

impl View for AckRequest {
    type V = AckView;

    open spec fn view(&self) -> AckView {
        AckView {
            stream: trim_both(
                match (self.stream, self.path) {
                    (Some(stream), _) => stream@,
                    (None, Some(path)) => path@,
                    (None, None) => Seq::empty(),
                },
                '/',
            ),
            offset: self.offset@,
        }
    }
}

/// The contents of several cursor moves.
pub open spec fn ack_list(acks: Seq<AckRequest>) -> Seq<AckView> {
    acks.map_values(|ack: AckRequest| ack@)
}

/// Whether every move names a position in a stream.
pub open spec fn ack_offsets_valid(acks: Seq<AckView>) -> bool {
    forall|i: int|
        0 <= i < acks.len() ==> offset_denotes(
            Some((#[trigger] acks[i]).offset),
        ) matches Some(ParsedOffset::At(_))
}

/// Where the moves lead each stream: to the furthest position named for it.
pub open spec fn ack_targets(acks: Seq<AckView>) -> Map<Seq<char>, Seq<char>>
    decreases acks.len(),
{
    if acks.len() == 0 {
        Map::empty()
    } else {
        let front = ack_targets(acks.drop_last());
        let ack = acks.last();
        if front.contains_key(ack.stream) && !text_before(front[ack.stream], ack.offset) {
            front
        } else {
            front.insert(ack.stream, ack.offset)
        }
    }
}

impl SubView {
    /// The name under which the subscription is kept.
    pub open spec fn key(self) -> Seq<char> {
        key_of(self.root, self.id)
    }

    /// The key and the token are short enough to be authenticated.
    pub open spec fn fits(self) -> bool {
        &&& fits_token(self.key())
        &&& self.token matches Some(token) ==> fits_token(token)
    }

    /// Whether a linked stream has something that is not acknowledged.
    pub open spec fn pending_at(
        self,
        table: Map<Seq<char>, StreamStatus>,
        path: Seq<char>,
    ) -> bool {
        &&& self.streams.contains_key(path)
        &&& live_at(table, self.root, path) is Some
        &&& tail_at(table, self.root, path) != offset_text(0)
        &&& text_before(self.streams[path].acked, tail_at(table, self.root, path))
    }

    /// Whether there is work.
    pub open spec fn has_pending(self, table: Map<Seq<char>, StreamStatus>) -> bool {
        exists|path: Seq<char>| self.pending_at(table, path)
    }

    /// The first stream with work.
    pub open spec fn first_pending(self, table: Map<Seq<char>, StreamStatus>) -> Seq<char> {
        if self.has_pending(table) {
            least(|path: Seq<char>| self.pending_at(table, path))
        } else {
            Seq::empty()
        }
    }

    /// What is told about one linked stream.
    pub open spec fn info(self, table: Map<Seq<char>, StreamStatus>, path: Seq<char>) -> InfoView {
        InfoView {
            path,
            link_type: if self.streams[path].explicit {
                "explicit"@
            } else {
                "glob"@
            },
            acked: self.streams[path].acked,
            tail: tail_at(table, self.root, path),
            has_pending: self.pending_at(table, path),
        }
    }

    /// What is told about the linked streams, in the order of their paths.
    pub open spec fn infos(self, table: Map<Seq<char>, StreamStatus>) -> Seq<InfoView> {
        in_order(self.streams.dom()).map_values(|path: Seq<char>| self.info(table, path))
    }

    /// Where each linked stream ends.
    pub open spec fn tails(self, table: Map<Seq<char>, StreamStatus>) -> Map<Seq<char>, Seq<char>> {
        Map::new(
            |path: Seq<char>| self.streams.contains_key(path),
            |path: Seq<char>| tail_at(table, self.root, path),
        )
    }

    /// The subscription without its wake.
    pub open spec fn cleared(self) -> SubView {
        SubView {
            holder: None,
            token: None,
            wake_id: None,
            wake_snapshot: Map::empty(),
            lease_nonce: next_u64(self.lease_nonce),
            status: SubscriptionStatus::Active,
            retry_count: 0,
            next_attempt_at_ms: None,
            lease_expires_at_ms: None,
            wake_trigger: None,
            wake_delivery_pending: false,
            ..self
        }
    }

    /// The subscription with a new wake.
    pub open spec fn woken(
        self,
        table: Map<Seq<char>, StreamStatus>,
        trigger: Seq<char>,
        secret: Seq<u8>,
        seed: WakeSeedView,
        now_ms: u64,
    ) -> SubView {
        let generation = next_u64(self.generation);
        let webhook = self.config.kind == SubscriptionKind::Webhook;
        SubView {
            generation,
            wake_id: Some(seed.wake_id()),
            wake_snapshot: self.tails(table),
            status: SubscriptionStatus::Active,
            retry_count: 0,
            next_attempt_at_ms: None,
            lease_expires_at_ms: if webhook {
                Some(later_ms(now_ms, self.config.lease_ttl_ms))
            } else {
                None
            },
            wake_trigger: Some(trigger),
            wake_delivery_pending: true,
            lease_nonce: next_u64(self.lease_nonce),
            token: if webhook {
                Some(
                    token_text(
                        secret,
                        self.key(),
                        generation,
                        token_expiry((now_ms / 1000) as u64),
                        seed.token,
                    ),
                )
            } else {
                self.token
            },
            ..self
        }
    }

    /// The message that a wake sends out.
    pub open spec fn announcement(self, trigger: Seq<char>) -> DeliveryView {
        match self.config.kind {
            SubscriptionKind::Webhook => DeliveryView::Webhook {
                key: self.key(),
                generation: self.generation,
                wake_id: self.wake_id->0,
                nonce: self.lease_nonce,
            },
            SubscriptionKind::PullWake => DeliveryView::PullWake {
                key: self.key(),
                id: self.id,
                root: self.root,
                wake_stream: match self.config.wake_stream {
                    Some(stream) => stream,
                    None => Seq::empty(),
                },
                stream: trigger,
                generation: self.generation,
                wake_id: self.wake_id->0,
                nonce: self.lease_nonce,
            },
        }
    }

    /// The subscription after its wake ended: with the next wake if there is
    /// still work, and what that wake sends out.
    pub open spec fn rewoken(
        self,
        table: Map<Seq<char>, StreamStatus>,
        secret: Seq<u8>,
        seed: WakeSeedView,
        now_ms: u64,
    ) -> (SubView, Option<DeliveryView>) {
        let cleared = self.cleared();
        if cleared.has_pending(table) {
            let trigger = cleared.first_pending(table);
            let woken = cleared.woken(table, trigger, secret, seed, now_ms);
            (woken, Some(woken.announcement(trigger)))
        } else {
            (cleared, None)
        }
    }

    /// The message of the wake that is under way.
    pub open spec fn current_delivery(self, table: Map<Seq<char>, StreamStatus>) -> Option<
        DeliveryView,
    > {
        if self.wake_id is None || (self.config.kind == SubscriptionKind::PullWake
            && self.config.wake_stream is None) {
            None
        } else {
            Some(
                self.announcement(
                    match self.wake_trigger {
                        Some(trigger) => trigger,
                        None => self.first_pending(table),
                    },
                ),
            )
        }
    }

    /// Whether the wake that is still to be delivered is the named one.
    pub open spec fn delivers(self, generation: u64, wake_id: Seq<char>, nonce: u64) -> bool {
        &&& self.generation == generation
        &&& self.wake_id == Some(wake_id)
        &&& self.lease_nonce == nonce
        &&& self.wake_delivery_pending
    }

    /// The subscription once its wake was delivered.
    pub open spec fn delivered(self) -> SubView {
        SubView {
            status: SubscriptionStatus::Active,
            retry_count: 0,
            next_attempt_at_ms: None,
            wake_delivery_pending: false,
            ..self
        }
    }

    /// The links with every cursor moved up to where its stream ended when the
    /// wake was issued.
    pub open spec fn snapshot_acknowledged(self) -> SubView {
        SubView {
            streams: Map::new(
                |path: Seq<char>| self.streams.contains_key(path),
                |path: Seq<char>|
                    {
                        let link = self.streams[path];
                        if self.wake_snapshot.contains_key(path) && text_before(
                            link.acked,
                            self.wake_snapshot[path],
                        ) {
                            LinkView { acked: self.wake_snapshot[path], ..link }
                        } else {
                            link
                        }
                    },
            ),
            ..self
        }
    }

    /// What is wrong with moving the cursor of one stream to `offset`.
    pub open spec fn ack_problem(
        self,
        table: Map<Seq<char>, StreamStatus>,
        stream: Seq<char>,
        offset: Seq<char>,
    ) -> Option<Seq<char>> {
        if !self.streams.contains_key(stream) {
            Some("Ack references an unknown subscription stream"@)
        } else if text_before(offset, self.streams[stream].acked) || text_before(
            tail_at(table, self.root, stream),
            offset,
        ) {
            Some("Ack offset is invalid for the subscription stream"@)
        } else {
            None
        }
    }

    /// Whether something is wrong with one of several moves.
    pub open spec fn ack_wrong(
        self,
        table: Map<Seq<char>, StreamStatus>,
        targets: Map<Seq<char>, Seq<char>>,
        stream: Seq<char>,
    ) -> bool {
        targets.contains_key(stream) && self.ack_problem(table, stream, targets[stream]) is Some
    }

    /// What is wrong with a request to move cursors: a malformed position, or
    /// else what is wrong with the first stream that has something wrong.
    pub open spec fn ack_complaint(
        self,
        table: Map<Seq<char>, StreamStatus>,
        acks: Seq<AckView>,
    ) -> Option<Seq<char>> {
        let targets = ack_targets(acks);
        let first = least(|stream: Seq<char>| self.ack_wrong(table, targets, stream));
        if !ack_offsets_valid(acks) {
            Some("Ack offset is invalid for the subscription stream"@)
        } else if exists|stream: Seq<char>| self.ack_wrong(table, targets, stream) {
            Some(self.ack_problem(table, first, targets[first])->0)
        } else {
            None
        }
    }

    /// The subscription with its cursors moved.
    pub open spec fn acked(self, acks: Seq<AckView>) -> SubView {
        let targets = ack_targets(acks);
        SubView {
            streams: Map::new(
                |path: Seq<char>| self.streams.contains_key(path),
                |path: Seq<char>|
                    if targets.contains_key(path) {
                        LinkView { acked: targets[path], ..self.streams[path] }
                    } else {
                        self.streams[path]
                    },
            ),
            ..self
        }
    }
}

/// What has to be sent out to announce a wake.
pub enum Delivery {
    Webhook { key: String, generation: u64, wake_id: String, nonce: u64 },
    PullWake {
        key: String,
        id: String,
        stream_root: String,
        wake_stream: String,
        stream: String,
        generation: u64,
        wake_id: String,
        nonce: u64,
    },
}

/// An announcement as a mathematical value.
#[verifier::ext_equal]
pub enum DeliveryView {
    Webhook { key: Seq<char>, generation: u64, wake_id: Seq<char>, nonce: u64 },
    PullWake {
        key: Seq<char>,
        id: Seq<char>,
        root: Seq<char>,
        wake_stream: Seq<char>,
        stream: Seq<char>,
        generation: u64,
        wake_id: Seq<char>,
        nonce: u64,
    },
}

impl View for Delivery {
    type V = DeliveryView;

    open spec fn view(&self) -> DeliveryView {
        match self {
            Delivery::Webhook { key, generation, wake_id, nonce } => DeliveryView::Webhook {
                key: key@,
                generation: *generation,
                wake_id: wake_id@,
                nonce: *nonce,
            },
            Delivery::PullWake {
                key,
                id,
                stream_root,
                wake_stream,
                stream,
                generation,
                wake_id,
                nonce,
            } => DeliveryView::PullWake {
                key: key@,
                id: id@,
                root: stream_root@,
                wake_stream: wake_stream@,
                stream: stream@,
                generation: *generation,
                wake_id: wake_id@,
                nonce: *nonce,
            },
        }
    }
}

/// The contents of an optional announcement.
pub open spec fn opt_delivery(d: Option<Delivery>) -> Option<DeliveryView> {
    match d {
        Some(delivery) => Some(delivery@),
        None => None,
    }
}

impl Subscription {
    /// The maps are sorted, and key and token are short enough.
    pub open spec fn wf(&self) -> bool {
        &&& self.streams.wf()
        &&& self.wake_snapshot.wf()
        &&& self@.fits()
    }

    /// A copy.
    pub fn copy(&self) -> (r: Subscription)
        requires
            self.wf(),
        ensures
            r.wf(),
            r@ == self@,
    {
        let config = self.config.copy();
        let r = Subscription {
            id: self.id.clone(),
            stream_root: self.stream_root.clone(),
            config,
            callback_base_url: self.callback_base_url.clone(),
            created_at: self.created_at.clone(),
            status: self.status,
            streams: self.streams.duplicate(),
            generation: self.generation,
            wake_id: copy_optional(&self.wake_id),
            wake_snapshot: self.wake_snapshot.duplicate(),
            token: copy_optional(&self.token),
            holder: copy_optional(&self.holder),
            lease_nonce: self.lease_nonce,
            retry_count: self.retry_count,
            next_attempt_at_ms: self.next_attempt_at_ms,
            lease_expires_at_ms: self.lease_expires_at_ms,
            wake_trigger: copy_optional(&self.wake_trigger),
            wake_delivery_pending: self.wake_delivery_pending,
        };
        assert(r@ =~= self@);
        r
    }

    /// The name under which the subscription is kept.
    pub fn key(&self) -> (r: String)
        ensures
            r@ == self@.key(),
    {
        subscription_key(self.stream_root.as_str(), self.id.as_str())
    }

    fn pending_link(&self, table: &StreamTable, i: usize) -> (r: bool)
        requires
            self.wf(),
            table.wf(),
            i < self.streams.key_list().len(),
        ensures
            r == self@.pending_at(table@, self.streams.key_list()[i as int]),
    {
        let path = self.streams.key_at(i);
        let link = self.streams.value_at(i);
        match live_tail_offset(table, self.stream_root.as_str(), path.as_str()) {
            Some(tail) => {
                let zero = format_offset(0);
                !same_text(tail.as_str(), zero.as_str()) && text_less(
                    link.acked_offset.as_str(),
                    tail.as_str(),
                )
            },
            None => false,
        }
    }

    /// The position of the first link with work.
    fn first_pending_link(&self, table: &StreamTable) -> (r: Option<usize>)
        requires
            self.wf(),
            table.wf(),
        ensures
            match r {
                Some(i) => {
                    &&& i < self.streams.key_list().len()
                    &&& self@.has_pending(table@)
                    &&& self.streams.key_list()[i as int] == self@.first_pending(table@)
                },
                None => !self@.has_pending(table@),
            },
    {
        let ghost keys = self.streams.key_list();
        proof {
            self.streams.lemma_lists();
        }
        let mut i: usize = 0;
        while i < self.streams.len()
            invariant
                self.wf(),
                table.wf(),
                keys == self.streams.key_list(),
                i <= keys.len(),
                forall|k: int| 0 <= k < i ==> !self@.pending_at(table@, #[trigger] keys[k]),
            decreases keys.len() - i,
        {
            if self.pending_link(table, i) {
                proof {
                    self.streams.lemma_lists();
                    let p = |path: Seq<char>| self@.pending_at(table@, path);
                    assert(p(keys[i as int]));
                    assert forall|j: Seq<char>| #[trigger] p(j) implies j == keys[i as int]
                        || text_before(keys[i as int], j) by {
                        assert(self.streams@.contains_key(j));
                        assert(keys.contains(j));
                        let k = keys.index_of(j);
                        assert(keys[k] == j);
                        if i < k {
                            assert(text_before(keys[i as int], keys[k]));
                        }
                    }
                    lemma_least_is(p, keys[i as int]);
                }
                return Some(i);
            }
            i = i + 1;
        }
        proof {
            self.streams.lemma_lists();
            assert forall|path: Seq<char>| !self@.pending_at(table@, path) by {
                if self@.pending_at(table@, path) {
                    assert(self.streams@.contains_key(path));
                    assert(keys.contains(path));
                    let k = keys.index_of(path);
                    assert(keys[k] == path);
                }
            }
        }
        None
    }

    /// Whether there is work.
    pub fn has_pending_work(&self, table: &StreamTable) -> (r: bool)
        requires
            self.wf(),
            table.wf(),
        ensures
            r == self@.has_pending(table@),
    {
        self.first_pending_link(table).is_some()
    }

    /// The first stream with work; no name if there is none.
    pub fn first_pending(&self, table: &StreamTable) -> (r: String)
        requires
            self.wf(),
            table.wf(),
        ensures
            r@ == self@.first_pending(table@),
    {
        match self.first_pending_link(table) {
            Some(i) => self.streams.key_at(i).clone(),
            None => String::new(),
        }
    }

    /// What is told about the linked streams.
    pub fn stream_infos(&self, table: &StreamTable) -> (r: Vec<StreamInfo>)
        requires
            self.wf(),
            table.wf(),
        ensures
            info_list(r@) == self@.infos(table@),
    {
        let ghost keys = self.streams.key_list();
        let mut infos: Vec<StreamInfo> = Vec::new();
        let mut i: usize = 0;
        while i < self.streams.len()
            invariant
                self.wf(),
                table.wf(),
                keys == self.streams.key_list(),
                i <= keys.len(),
                infos@.len() == i,
                forall|k: int| 0 <= k < i ==> (#[trigger] infos@[k])@ == self@.info(table@, keys[k]),
            decreases keys.len() - i,
        {
            let path = self.streams.key_at(i);
            let link = self.streams.value_at(i);
            let has_pending = self.pending_link(table, i);
            let tail = tail_offset(table, self.stream_root.as_str(), path.as_str());
            let link_type: &'static str = if link.explicit {
                "explicit"
            } else {
                "glob"
            };
            infos.push(
                StreamInfo {
                    path: path.clone(),
                    link_type,
                    acked_offset: link.acked_offset.clone(),
                    tail_offset: tail,
                    has_pending,
                },
            );
            i = i + 1;
        }
        proof {
            self.streams.lemma_lists();
            assert(info_list(infos@) =~= self@.infos(table@));
        }
        infos
    }

    /// Where each linked stream ends.
    fn tails(&self, table: &StreamTable) -> (r: PathMap<String>)
        requires
            self.wf(),
            table.wf(),
        ensures
            r.wf(),
            r@ == self@.tails(table@),
    {
        let ghost keys = self.streams.key_list();
        let mut tails: PathMap<String> = PathMap::new();
        let mut i: usize = 0;
        while i < self.streams.len()
            invariant
                self.wf(),
                table.wf(),
                keys == self.streams.key_list(),
                i <= keys.len(),
                tails.wf(),
                forall|path: Seq<char>| #[trigger]
                    tails@.contains_key(path) <==> keys.take(i as int).contains(path),
                forall|path: Seq<char>| #[trigger]
                    tails@.contains_key(path) ==> tails@[path] == tail_at(
                        table@,
                        self.stream_root@,
                        path,
                    ),
            decreases keys.len() - i,
        {
            let path = self.streams.key_at(i);
            let tail = tail_offset(table, self.stream_root.as_str(), path.as_str());
            tails.insert(path.clone(), tail);
            proof {
                lemma_take_contains(keys, i as int);
            }
            i = i + 1;
        }
        proof {
            self.streams.lemma_lists();
            assert(keys.take(keys.len() as int) =~= keys);
            assert(tails@ =~= self@.tails(table@));
        }
        tails
    }

    /// Forget the wake.
    pub fn clear_wake(&mut self)
        requires
            old(self).wf(),
        ensures
            final(self).wf(),
            final(self)@ == old(self)@.cleared(),
    {
        self.holder = None;
        self.token = None;
        self.wake_id = None;
        self.wake_snapshot = PathMap::new();
        self.lease_nonce = self.lease_nonce.wrapping_add(1);
        self.status = SubscriptionStatus::Active;
        self.retry_count = 0;
        self.next_attempt_at_ms = None;
        self.lease_expires_at_ms = None;
        self.wake_trigger = None;
        self.wake_delivery_pending = false;
        assert(self@ =~= old(self)@.cleared());
    }

    fn announcement(&self, trigger: String) -> (r: Delivery)
        requires
            self.wake_id is Some,
        ensures
            r@ == self@.announcement(trigger@),
    {
        let key = self.key();
        let wake_id = match &self.wake_id {
            Some(wake_id) => wake_id.clone(),
            None => String::new(),
        };
        match self.config.kind {
            SubscriptionKind::Webhook => Delivery::Webhook {
                key,
                generation: self.generation,
                wake_id,
                nonce: self.lease_nonce,
            },
            SubscriptionKind::PullWake => {
                let wake_stream = match &self.config.wake_stream {
                    Some(stream) => stream.clone(),
                    None => String::new(),
                };
                Delivery::PullWake {
                    key,
                    id: self.id.clone(),
                    stream_root: self.stream_root.clone(),
                    wake_stream,
                    stream: trigger,
                    generation: self.generation,
                    wake_id,
                    nonce: self.lease_nonce,
                }
            },
        }
    }

    /// Issue the next wake.
    pub fn create_wake(
        &mut self,
        table: &StreamTable,
        triggered_by: String,
        secret: &Vec<u8>,
        seed: &WakeSeed,
        now_ms: u64,
    ) -> (r: Delivery)
        requires
            old(self).wf(),
            table.wf(),
            secret@.len() == 32,
            seed@.full(),
        ensures
            final(self).wf(),
            final(self)@ == old(self)@.woken(table@, triggered_by@, secret@, seed@, now_ms),
            r@ == final(self)@.announcement(triggered_by@),
    {
        let tails = self.tails(table);
        self.generation = self.generation.wrapping_add(1);
        self.wake_id = Some(seed.wake_id());
        self.wake_snapshot = tails;
        self.status = SubscriptionStatus::Active;
        self.retry_count = 0;
        self.next_attempt_at_ms = None;
        self.lease_expires_at_ms = None;
        self.wake_trigger = Some(triggered_by.clone());
        self.wake_delivery_pending = true;
        self.lease_nonce = self.lease_nonce.wrapping_add(1);
        if self.config.kind == SubscriptionKind::Webhook {
            let key = self.key();
            let token = generate_token(
                secret,
                key.as_str(),
                self.generation,
                now_ms / 1000,
                &seed.token,
            );
            self.token = Some(token);
            self.lease_expires_at_ms = Some(now_ms.saturating_add(self.config.lease_ttl_ms));
        }
        assert(self@ =~= old(self)@.woken(table@, triggered_by@, secret@, seed@, now_ms));
        self.announcement(triggered_by)
    }

    /// End the wake, and issue the next one if there is still work.
    pub fn rewake(
        &mut self,
        table: &StreamTable,
        secret: &Vec<u8>,
        seed: &WakeSeed,
        now_ms: u64,
    ) -> (r: Option<Delivery>)
        requires
            old(self).wf(),
            table.wf(),
            secret@.len() == 32,
            seed@.full(),
        ensures
            final(self).wf(),
            final(self)@ == old(self)@.rewoken(table@, secret@, seed@, now_ms).0,
            opt_delivery(r) == old(self)@.rewoken(table@, secret@, seed@, now_ms).1,
    {
        self.clear_wake();
        if self.has_pending_work(table) {
            let trigger = self.first_pending(table);
            Some(self.create_wake(table, trigger, secret, seed, now_ms))
        } else {
            None
        }
    }

    /// The message of the wake that is under way.
    pub fn current_delivery(&self, table: &StreamTable) -> (r: Option<Delivery>)
        requires
            self.wf(),
            table.wf(),
        ensures
            opt_delivery(r) == self@.current_delivery(table@),
    {
        if self.wake_id.is_none() {
            return None;
        }
        if self.config.kind == SubscriptionKind::PullWake && self.config.wake_stream.is_none() {
            return None;
        }
        let trigger = match &self.wake_trigger {
            Some(trigger) => trigger.clone(),
            None => self.first_pending(table),
        };
        Some(self.announcement(trigger))
    }

    /// Whether the wake that is still to be delivered is the named one.
    pub fn delivers(&self, generation: u64, wake_id: &str, nonce: u64) -> (r: bool)
        ensures
            r == self@.delivers(generation, wake_id@, nonce),
    {
        self.generation == generation && crate::text::optional_is(&self.wake_id, wake_id)
            && self.lease_nonce == nonce && self.wake_delivery_pending
    }

    /// Note that the wake was delivered.
    pub fn note_delivered(&mut self)
        requires
            old(self).wf(),
        ensures
            final(self).wf(),
            final(self)@ == old(self)@.delivered(),
    {
        self.status = SubscriptionStatus::Active;
        self.retry_count = 0;
        self.next_attempt_at_ms = None;
        self.wake_delivery_pending = false;
        assert(self@ =~= old(self)@.delivered());
    }
}

/// Taking one more element adds just that one.
pub proof fn lemma_take_contains(keys: Seq<Seq<char>>, i: int)
    requires
        0 <= i < keys.len(),
    ensures
        forall|path: Seq<char>| #[trigger]
            keys.take(i + 1).contains(path) <==> keys.take(i).contains(path) || path == keys[i],
{
    let more = keys.take(i + 1);
    let less = keys.take(i);
    assert(more =~= less.push(keys[i]));
    assert forall|path: Seq<char>| #[trigger]
        more.contains(path) <==> less.contains(path) || path == keys[i] by {
        if more.contains(path) {
            let k = choose|k: int| 0 <= k < more.len() && more[k] == path;
            if k < i {
                assert(less[k] == path);
            }
        }
        if less.contains(path) {
            let k = choose|k: int| 0 <= k < less.len() && less[k] == path;
            assert(more[k] == path);
        }
        assert(more[i] == keys[i]);
    }
}

} // verus!
