//! Taking over what an earlier run left behind.

use crate::path_map::{in_order, PathMap};
use crate::subscriptions::config::{SubscriptionKind, MAX_STREAMS_PER_SUBSCRIPTION};
use crate::subscriptions::creation::MAX_SUBSCRIPTIONS;
use crate::subscriptions::keys::SigningKeyRing;
use crate::subscriptions::manager::SubscriptionManager;
use crate::subscriptions::membership::WakeStreams;
use crate::subscriptions::paths::{
    absolute_path, absolute_stream_path, valid_id, valid_relative_stream_path, valid_stream_path,
    valid_subscription_id,
};
use crate::subscriptions::state::{used_once_more, ManagerState, StateView};
use crate::subscriptions::subscription::{SubView, Subscription};
use crate::subscriptions::webhook::{validate_webhook_url_with_local_policy, webhook_complaint};
use crate::text::opt_text;
use vstd::prelude::*;

verus! {

/// The layout of the kept subscriptions.
pub const STATE_VERSION: u32 = 1;

/// What is wrong with kept subscriptions.
#[derive(Clone, Copy, Debug, PartialEq, Eq, Structural)]
pub enum StateFault {
    Version,
    TooMany,
    Invalid,
    Duplicate,
}

impl StateFault {
    /// What to say about the fault.
    pub open spec fn text(self) -> Seq<char> {
        match self {
            StateFault::Version => "unsupported subscription state version"@,
            StateFault::TooMany => {
                "persisted subscription count exceeds the configured safety limit"@
            },
            StateFault::Invalid => "persisted subscription state failed validation"@,
            StateFault::Duplicate => {
                "persisted subscription state contains duplicate identities"@
            },
        }
    }

    /// What to say about the fault.
    pub fn message(self) -> (r: &'static str)
        ensures
            r@ == self.text(),
    {
        match self {
            StateFault::Version => "unsupported subscription state version",
            StateFault::TooMany => {
                "persisted subscription count exceeds the configured safety limit"
            },
            StateFault::Invalid => "persisted subscription state failed validation",
            StateFault::Duplicate => "persisted subscription state contains duplicate identities",
        }
    }
}

/// The contents of several subscriptions.
pub open spec fn sub_list(subs: Seq<Subscription>) -> Seq<SubView> {
    subs.map_values(|sub: Subscription| sub@)
}

/// Whether a kept subscription is one that could have been created.
pub open spec fn kept_sub_valid(sub: SubView, allow_local: bool) -> bool {
    &&& valid_id(sub.id)
    &&& sub.streams.dom().len() <= MAX_STREAMS_PER_SUBSCRIPTION
    &&& forall|path: Seq<char>| #[trigger]
        sub.streams.contains_key(path) ==> valid_stream_path(path)
    &&& sub.config.webhook_url matches Some(url) ==> webhook_complaint(url, allow_local) is None
}

/// A kept subscription as it is taken over: remains of a wake are dropped.
pub open spec fn taken_over(sub: SubView) -> SubView {
    if sub.wake_id is None {
        sub.cleared()
    } else {
        sub
    }
}

/// The kept subscriptions under their keys.
pub open spec fn by_key(subs: Seq<SubView>) -> Map<Seq<char>, SubView>
    decreases subs.len(),
{
    if subs.len() == 0 {
        Map::empty()
    } else {
        by_key(subs.drop_last()).insert(subs.last().key(), taken_over(subs.last()))
    }
}

/// What is wrong with the first wrong one of the kept subscriptions.
pub open spec fn first_fault(subs: Seq<SubView>, allow_local: bool) -> Option<StateFault>
    decreases subs.len(),
{
    if subs.len() == 0 {
        None
    } else {
        match first_fault(subs.drop_last(), allow_local) {
            Some(fault) => Some(fault),
            None => if !kept_sub_valid(subs.last(), allow_local) {
                Some(StateFault::Invalid)
            } else if by_key(subs.drop_last()).contains_key(subs.last().key()) {
                Some(StateFault::Duplicate)
            } else {
                None
            },
        }
    }
}

/// What is wrong with kept subscriptions.
pub open spec fn state_fault(version: u32, subs: Seq<SubView>, allow_local: bool) -> Option<
    StateFault,
> {
    if version != STATE_VERSION {
        Some(StateFault::Version)
    } else if subs.len() > MAX_SUBSCRIPTIONS {
        Some(StateFault::TooMany)
    } else {
        first_fault(subs, allow_local)
    }
}

fn kept_sub_ok(sub: &Subscription, allow_local: bool) -> (r: bool)
    requires
        sub.wf(),
    ensures
        r == kept_sub_valid(sub@, allow_local),
{
    if !valid_subscription_id(sub.id.as_str()) || sub.streams.len() > MAX_STREAMS_PER_SUBSCRIPTION {
        return false;
    }
    let ghost keys = sub.streams.key_list();
    let mut i: usize = 0;
    while i < sub.streams.len()
        invariant
            sub.wf(),
            keys == sub.streams.key_list(),
            i <= keys.len(),
            forall|k: int| 0 <= k < i ==> valid_stream_path(#[trigger] keys[k]),
        decreases keys.len() - i,
    {
        let path = sub.streams.key_at(i);
        if !valid_relative_stream_path(path.as_str()) {
            assert(sub@.streams.contains_key(path@));
            return false;
        }
        i = i + 1;
    }
    proof {
        sub.streams.lemma_lists();
        assert forall|path: Seq<char>| #[trigger] sub@.streams.contains_key(path) implies
            valid_stream_path(path) by {
            assert(keys.contains(path));
            let k = keys.index_of(path);
            assert(keys[k] == path);
        }
    }
    match &sub.config.webhook_url {
        Some(url) => validate_webhook_url_with_local_policy(url.as_str(), allow_local).is_ok(),
        None => true,
    }
}

/// A fault in some of the subscriptions is the fault of all of them.
proof fn lemma_fault_stays(subs: Seq<SubView>, k: int, allow_local: bool)
    requires
        0 <= k <= subs.len(),
        first_fault(subs.take(k), allow_local) is Some,
    ensures
        first_fault(subs, allow_local) == first_fault(subs.take(k), allow_local),
    decreases subs.len(),
{
    if k == subs.len() {
        assert(subs.take(k) =~= subs);
    } else {
        assert(subs.drop_last().take(k) =~= subs.take(k));
        lemma_fault_stays(subs.drop_last(), k, allow_local);
    }
}

/// Take kept subscriptions over.
pub fn load_persisted_state(version: u32, subs: Vec<Subscription>, allow_local: bool) -> (r: Result<
    ManagerState,
    StateFault,
>)
    requires
        forall|i: int| 0 <= i < subs@.len() ==> (#[trigger] subs@[i]).wf(),
    ensures
        match r {
            Ok(state) => {
                &&& state_fault(version, sub_list(subs@), allow_local) is None
                &&& state.wf()
                &&& state@.subscriptions == by_key(sub_list(subs@))
                &&& state@.wake_streams == Map::<Seq<char>, usize>::empty()
            },
            Err(fault) => state_fault(version, sub_list(subs@), allow_local) == Some(fault),
        },
{
    if version != STATE_VERSION {
        return Err(StateFault::Version);
    }
    let ghost list = sub_list(subs@);
    assert(list.len() == subs@.len());
    if subs.len() > MAX_SUBSCRIPTIONS {
        return Err(StateFault::TooMany);
    }
    let mut state = ManagerState::new();
    let mut i: usize = 0;
    assert(list.take(0) =~= Seq::empty());
    while i < subs.len()
        invariant
            forall|k: int| 0 <= k < subs@.len() ==> (#[trigger] subs@[k]).wf(),
            list == sub_list(subs@),
            version == STATE_VERSION,
            list.len() <= MAX_SUBSCRIPTIONS,
            i <= subs@.len(),
            state.wf(),
            state@.subscriptions == by_key(list.take(i as int)),
            state@.wake_streams == Map::<Seq<char>, usize>::empty(),
            first_fault(list.take(i as int), allow_local) is None,
        decreases subs.len() - i,
    {
        let sub = &subs[i];
        assert(list.take(i + 1).drop_last() =~= list.take(i as int));
        assert(list.take(i + 1).last() == sub@);
        let key = sub.key();
        if !kept_sub_ok(sub, allow_local) {
            proof {
                lemma_fault_stays(list, i + 1, allow_local);
            }
            return Err(StateFault::Invalid);
        }
        if state.subscriptions.contains(key.as_str()) {
            proof {
                lemma_fault_stays(list, i + 1, allow_local);
            }
            return Err(StateFault::Duplicate);
        }
        let mut taken = sub.copy();
        if taken.wake_id.is_none() {
            taken.clear_wake();
        }
        state.subscriptions.insert(key, taken);
        i = i + 1;
    }
    assert(list.take(list.len() as int) =~= list);
    Ok(state)
}

/// The subscription with the server's public address for callbacks.
pub open spec fn readdressed(sub: SubView, base: Option<Seq<char>>) -> SubView {
    if sub.config.kind == SubscriptionKind::Webhook {
        SubView {
            callback_base: match base {
                Some(url) => url,
                None => Seq::empty(),
            },
            ..sub
        }
    } else {
        sub
    }
}

/// How often each path serves as the wake channel of the subscriptions.
pub open spec fn counted(keys: Seq<Seq<char>>, subs: Map<Seq<char>, SubView>) -> Map<
    Seq<char>,
    usize,
>
    decreases keys.len(),
{
    if keys.len() == 0 {
        Map::empty()
    } else {
        let front = counted(keys.drop_last(), subs);
        let sub = subs[keys.last()];
        match sub.config.wake_stream {
            Some(stream) => used_once_more(front, absolute_path(sub.root, stream)),
            None => front,
        }
    }
}

impl StateView {
    /// Whether there is a subscription that needs the public address.
    pub open spec fn has_webhook(self) -> bool {
        exists|key: Seq<char>|
            self.subscriptions.contains_key(key) && (#[trigger] self.subscriptions[key]).config.kind
                == SubscriptionKind::Webhook
    }

    /// The state with the public address put in and the wake channels counted.
    pub open spec fn settled_in(self, base: Option<Seq<char>>) -> StateView {
        let subscriptions = self.subscriptions.map_values(|sub: SubView| readdressed(sub, base));
        StateView {
            subscriptions,
            wake_streams: counted(in_order(self.subscriptions.dom()), subscriptions),
        }
    }
}

impl ManagerState {
    fn has_webhook(&self) -> (r: bool)
        requires
            self.wf(),
        ensures
            r == self@.has_webhook(),
    {
        let ghost keys = self.subscriptions.key_list();
        let mut i: usize = 0;
        while i < self.subscriptions.len()
            invariant
                self.wf(),
                keys == self.subscriptions.key_list(),
                i <= keys.len(),
                forall|k: int|
                    0 <= k < i ==> self@.subscriptions[#[trigger] keys[k]].config.kind
                        != SubscriptionKind::Webhook,
            decreases keys.len() - i,
        {
            let sub = self.at(i);
            if sub.config.kind == SubscriptionKind::Webhook {
                assert(self@.subscriptions[sub@.key()].config.kind == SubscriptionKind::Webhook);
                return true;
            }
            i = i + 1;
        }
        proof {
            self.subscriptions.lemma_lists();
            if self@.has_webhook() {
                let key = choose|key: Seq<char>|
                    self@.subscriptions.contains_key(key) && (
                    #[trigger] self@.subscriptions[key]).config.kind == SubscriptionKind::Webhook;
                assert(keys.contains(key));
                let k = keys.index_of(key);
                assert(keys[k] == key);
            }
        }
        false
    }

    /// Put the public address into the subscriptions that need it, and count
    /// the wake channels.
    pub fn settle_in(&mut self, public_base_url: &Option<String>) -> (r: Result<(), &'static str>)
        requires
            old(self).wf(),
        ensures
            final(self).wf(),
            if old(self)@.has_webhook() && public_base_url is None {
                &&& r matches Err(message)
                &&& message@
                    == "DS_PUBLIC_BASE_URL is required to resume persisted webhook subscriptions"@
                &&& final(self)@ == old(self)@
            } else {
                &&& r is Ok
                &&& final(self)@ == old(self)@.settled_in(opt_text(*public_base_url))
            },
    {
        if public_base_url.is_none() && self.has_webhook() {
            return Err(
                "DS_PUBLIC_BASE_URL is required to resume persisted webhook subscriptions",
            );
        }
        let ghost before = self@;
        let ghost keys = self.subscriptions.key_list();
        let ghost base = opt_text(*public_base_url);
        let ghost goal = before.settled_in(base);
        let mut channels: WakeStreams = PathMap::new();
        let mut i: usize = 0;
        proof {
            self.subscriptions.lemma_lists();
            assert(keys.take(0) =~= Seq::empty());
        }
        while i < self.subscriptions.len()
            invariant
                self.wf(),
                keys == self.subscriptions.key_list(),
                keys.no_duplicates(),
                base == opt_text(*public_base_url),
                goal == before.settled_in(base),
                i <= keys.len(),
                channels.wf(),
                channels@ == counted(keys.take(i as int), goal.subscriptions),
                self@.subscriptions.dom() == before.subscriptions.dom(),
                forall|k: int|
                    0 <= k < i ==> self@.subscriptions[#[trigger] keys[k]]
                        == goal.subscriptions[keys[k]],
                forall|k: int|
                    i <= k < keys.len() ==> self@.subscriptions[#[trigger] keys[k]]
                        == before.subscriptions[keys[k]],
            decreases keys.len() - i,
        {
            proof {
                self.subscriptions.lemma_lists();
                assert(keys.take(i + 1).drop_last() =~= keys.take(i as int));
                assert(keys.take(i + 1).last() == keys[i as int]);
            }
            let mut sub = self.at(i).copy();
            if sub.config.kind == SubscriptionKind::Webhook {
                sub.callback_base_url = match public_base_url {
                    Some(url) => url.clone(),
                    None => String::new(),
                };
            }
            assert(sub@ =~= readdressed(before.subscriptions[keys[i as int]], base));
            match &sub.config.wake_stream {
                Some(stream) => {
                    let path = absolute_stream_path(sub.stream_root.as_str(), stream.as_str());
                    let more: usize = match channels.get(path.as_str()) {
                        Some(uses) => (*uses).saturating_add(1),
                        None => 1,
                    };
                    channels.insert(path, more);
                },
                None => {},
            }
            self.set(i, sub);
            assert(self@.subscriptions.dom() =~= before.subscriptions.dom());
            i = i + 1;
        }
        self.wake_streams = channels;
        proof {
            self.subscriptions.lemma_lists();
            assert(keys.take(keys.len() as int) =~= keys);
            assert forall|key: Seq<char>| self@.subscriptions.contains_key(key) implies
                self@.subscriptions[key] == goal.subscriptions[key] by {
                assert(keys.contains(key));
                let k = keys.index_of(key);
                assert(keys[k] == key);
            }
            assert(self@.subscriptions =~= goal.subscriptions);
            assert(self@ =~= goal);
        }
        Ok(())
    }
}

/// Whether a start has to be refused because there are subscriptions but their
/// secrets are gone. New ones would disown what was promised to workers.
pub fn secrets_are_missing(state: &ManagerState, secrets_exist: bool) -> (r: bool)
    requires
        state.wf(),
    ensures
        r == (!secrets_exist && state@.subscriptions.dom().len() > 0),
{
    !secrets_exist && state.subscriptions.len() > 0
}

impl SubscriptionManager {
    /// The control plane from what an earlier run left behind.
    pub fn new(
        state: ManagerState,
        signing_keys: SigningKeyRing,
        token_secret: Vec<u8>,
        signing_rotation_ms: u64,
        signing_replay_window_ms: u64,
        public_base_url: Option<String>,
        allow_local_webhooks: bool,
    ) -> (r: Result<SubscriptionManager, &'static str>)
        requires
            state.wf(),
            signing_keys@.wf(),
            token_secret@.len() == 32,
        ensures
            match r {
                Ok(manager) => {
                    &&& manager.wf()
                    &&& !state@.has_webhook() || public_base_url is Some
                    &&& manager.state@ == state@.settled_in(opt_text(public_base_url))
                    &&& manager.signing_keys@ == signing_keys@
                    &&& manager.token_secret@ == token_secret@
                    &&& manager.signing_rotation_ms == signing_rotation_ms
                    &&& manager.signing_replay_window_ms == signing_replay_window_ms
                    &&& opt_text(manager.public_base_url) == opt_text(public_base_url)
                    &&& manager.allow_local_webhooks == allow_local_webhooks
                },
                Err(message) => {
                    &&& state@.has_webhook() && public_base_url is None
                    &&& message@
                        == "DS_PUBLIC_BASE_URL is required to resume persisted webhook subscriptions"@
                },
            },
    {
        let mut state = state;
        match state.settle_in(&public_base_url) {
            Ok(()) => {},
            Err(message) => {
                return Err(message);
            },
        }
        Ok(
            SubscriptionManager {
                state,
                signing_keys,
                signing_rotation_ms,
                signing_replay_window_ms,
                token_secret,
                public_base_url,
                allow_local_webhooks,
            },
        )
    }
}

} // verus!
