//! Wake channels are kept out of ordinary membership, and their uses are counted.

use crate::path_map::{in_order, lemma_order_of, lemma_sorted_distinct};
use crate::subscription_auth::ServiceJwtError;
use crate::subscriptions::claims::CallbackView;
use crate::subscriptions::config::{
    create_complaint, law_accepted_config_is_sound, trimmed_paths, RawCreateView, SubscriptionKind,
};
use crate::subscriptions::creation::{
    config_of, CreationRulesView, WakeStreamLookup, MAX_SUBSCRIPTIONS,
};
use crate::subscriptions::keys::RingView;
use crate::subscriptions::links::{listed, StreamStatus};
use crate::subscriptions::manager::{BodyView, FindingsView};
use crate::subscriptions::paths::{
    absolute_path, key_of, law_keys_identify_subscriptions, law_relative_undoes_absolute,
    lemma_valid_path_trimmed, relative_path, valid_id, valid_stream_path,
};
use crate::subscriptions::reply::{bearer_of, says_json, Method, Req};
use crate::subscriptions::route::{route_of, RouteView};
use crate::subscriptions::startup::{by_key, counted, first_fault, state_fault, taken_over};
use crate::subscriptions::state::StateView;
use crate::subscriptions::steps::SurroundingsView;
use crate::subscriptions::subscription::SubView;
use crate::subscriptions::token::WakeSeedView;
use crate::text::{opt_text, trim_both, trim_end, trim_start};
use vstd::prelude::*;

verus! {

impl SubView {
    /// Whether none of the subscription's streams is a wake channel. Nothing is
    /// said of names that do not lead back to themselves, as below a root with a
    /// trailing slash: several of them lead to one path.
    pub open spec fn apart_from(self, channels: Set<Seq<char>>) -> bool {
        forall|path: Seq<char>| #[trigger]
            self.streams.contains_key(path) && proper_name(self.root, path) ==> !channels.contains(
                absolute_path(self.root, path),
            )
    }
}

/// Whether a stream's name below a root leads to a path that has this name below
/// the root.
pub open spec fn proper_name(root: Seq<char>, path: Seq<char>) -> bool {
    relative_path(root, absolute_path(root, path)) == Some(path)
}

/// A proper name and its root carry no slashes that would be trimmed.
proof fn lemma_proper_name(root: Seq<char>, path: Seq<char>)
    requires
        proper_name(root, path),
    ensures
        trim_end(root, '/') == root,
        trim_both(path, '/') == path,
        absolute_path(root, path) == root.push('/') + path,
{
    let absolute = absolute_path(root, path);
    lemma_trim_end_shortens(root, '/');
    lemma_trim_both_shortens(path, '/');
    let rest = absolute.skip(root.len() as int);
    assert(rest.skip(1) == path);
    assert(absolute.len() == trim_end(root, '/').len() + 1 + trim_both(path, '/').len());
    assert(absolute.len() == root.len() + 1 + path.len());
}

/// The path that has a name below a root.
proof fn lemma_relative_of(root: Seq<char>, absolute: Seq<char>, path: Seq<char>)
    requires
        relative_path(root, absolute) == Some(path),
    ensures
        absolute == root.push('/') + path,
{
    let rest = absolute.skip(root.len() as int);
    assert(absolute =~= absolute.take(root.len() as int) + rest);
    assert(rest =~= seq!['/'] + rest.skip(1));
    assert(absolute =~= root.push('/') + path);
}

proof fn lemma_trim_end_shortens(s: Seq<char>, c: char)
    ensures
        trim_end(s, c).len() <= s.len(),
        trim_end(s, c).len() == s.len() ==> trim_end(s, c) == s,
    decreases s.len(),
{
    if s.len() > 0 && s.last() == c {
        lemma_trim_end_shortens(s.drop_last(), c);
    }
}

proof fn lemma_trim_start_shortens(s: Seq<char>, c: char)
    ensures
        trim_start(s, c).len() <= s.len(),
        trim_start(s, c).len() == s.len() ==> trim_start(s, c) == s,
    decreases s.len(),
{
    if s.len() > 0 && s[0] == c {
        lemma_trim_start_shortens(s.skip(1), c);
    }
}

proof fn lemma_trim_both_shortens(s: Seq<char>, c: char)
    ensures
        trim_both(s, c).len() <= s.len(),
        trim_both(s, c).len() == s.len() ==> trim_both(s, c) == s,
{
    lemma_trim_start_shortens(s, c);
    lemma_trim_end_shortens(trim_start(s, c), c);
}

/// Every valid name below a root without a trailing slash is proper.
pub proof fn law_valid_names_are_proper(root: Seq<char>, path: Seq<char>)
    requires
        trim_end(root, '/') == root,
        valid_stream_path(path),
    ensures
        proper_name(root, path),
{
    law_relative_undoes_absolute(root, path);
}

impl StateView {
    /// Whether every subscription has a valid name and stands under its key.
    pub open spec fn well_named(self) -> bool {
        forall|key: Seq<char>| #[trigger]
            self.subscriptions.contains_key(key) ==> {
                &&& self.subscriptions[key].key() == key
                &&& valid_id(self.subscriptions[key].id)
            }
    }

    /// Whether no stream of any subscription is a wake channel.
    pub open spec fn channels_apart(self) -> bool {
        forall|key: Seq<char>| #[trigger]
            self.subscriptions.contains_key(key) ==> self.subscriptions[key].apart_from(
                self.wake_streams.dom(),
            )
    }
}

impl StateView {
    /// Well named, with the wake channels kept apart from all members. Every step
    /// of the control plane keeps this.
    pub open spec fn orderly(self) -> bool {
        self.well_named() && self.channels_apart()
    }
}

/// Fewer links and fewer channels stay apart.
proof fn lemma_fewer_apart(
    before: SubView,
    after: SubView,
    channels: Set<Seq<char>>,
    fewer: Set<Seq<char>>,
)
    requires
        before.apart_from(channels),
        after.root == before.root,
        after.streams.dom().subset_of(before.streams.dom()),
        fewer.subset_of(channels),
    ensures
        after.apart_from(fewer),
{
    assert forall|path: Seq<char>| #[trigger]
        after.streams.contains_key(path) && proper_name(after.root, path) implies !fewer.contains(absolute_path(after.root, path)) by {
        assert(before.streams.contains_key(path));
    }
}

/// Registering a channel takes it away from every subscription.
proof fn lemma_channel_taken(
    sub: SubView,
    table: Map<Seq<char>, StreamStatus>,
    channels: Set<Seq<char>>,
    channel: Seq<char>,
)
    requires
        sub.apart_from(channels),
    ensures
        sub.without_wake_channel(table, channel).apart_from(channels.insert(channel)),
{
    let after = sub.without_wake_channel(table, channel);
    assert forall|path: Seq<char>| #[trigger]
        after.streams.contains_key(path) && proper_name(after.root, path) implies !channels.insert(channel).contains(
        absolute_path(after.root, path),
    ) by {
        assert(sub.streams.contains_key(path));
    }
}

/// Adding names that are no channels keeps a subscription apart.
proof fn lemma_explicit_apart(
    sub: SubView,
    table: Map<Seq<char>, StreamStatus>,
    names: Seq<Seq<char>>,
    channels: Set<Seq<char>>,
)
    requires
        sub.apart_from(channels),
        forall|i: int|
            0 <= i < names.len() ==> !channels.contains(
                absolute_path(sub.root, #[trigger] names[i]),
            ),
    ensures
        sub.with_explicit(table, names).apart_from(channels),
{
    let after = sub.with_explicit(table, names);
    assert forall|path: Seq<char>| #[trigger]
        after.streams.contains_key(path) && proper_name(after.root, path) implies !channels.contains(absolute_path(after.root, path)) by {
        if !sub.streams.contains_key(path) {
            let i = choose|i: int| 0 <= i < names.len() && names[i] == path;
            assert(names[i] == path);
        }
    }
}

/// A created subscription is apart from all channels, its own included.
proof fn lemma_created_apart(
    state: StateView,
    root: Seq<char>,
    id: Seq<char>,
    raw: RawCreateView,
    rules: CreationRulesView,
    created_at: Seq<char>,
    table: Map<Seq<char>, StreamStatus>,
)
    requires
        create_complaint(raw) is None,
        !state.names_channel(root, config_of(raw).streams),
        crate::subscriptions::config::config_follows(config_of(raw), raw),
    ensures
        ({
            let requested = state.requested(root, id, raw, rules, created_at, table);
            let names = listed(in_order(table.dom()), table, root);
            let sub = requested.with_globs(table, state.wake_streams.dom(), names);
            sub.apart_from(
                match sub.wake_channel() {
                    Some(channel) => state.wake_streams.dom().insert(channel),
                    None => state.wake_streams.dom(),
                },
            )
        }),
{
    let config = config_of(raw);
    let requested = state.requested(root, id, raw, rules, created_at, table);
    let names = listed(in_order(table.dom()), table, root);
    let taken = state.wake_streams.dom();
    let sub = requested.with_globs(table, taken, names);
    law_accepted_config_is_sound(config, raw);
    assert forall|path: Seq<char>| #[trigger]
        sub.streams.contains_key(path) && proper_name(sub.root, path) implies !taken.contains(absolute_path(sub.root, path)) && sub.wake_channel()
        != Some(absolute_path(sub.root, path)) by {
        lemma_proper_name(root, path);
        if requested.streams.contains_key(path) {
            let i = choose|i: int| 0 <= i < config.streams.len() && config.streams[i] == path;
            assert(config.streams[i] == path);
        }
        if let Some(wake) = config.wake_stream {
            lemma_valid_path_trimmed(wake);
            if absolute_path(root, path) == absolute_path(root, wake) {
                let front = trim_end(root, '/').push('/');
                assert(absolute_path(root, path).skip(front.len() as int) =~= path);
                assert(absolute_path(root, wake).skip(front.len() as int) =~= wake);
            }
        }
    }
}

/// No request lets a wake channel become a member of a subscription, so that
/// workers cannot wake each other without end; nor does one that has to be taken
/// back. Names stay valid and keys stay those of their subscriptions.
pub proof fn law_requests_keep_channels_apart(
    state: StateView,
    req: Req,
    ring: RingView,
    rules: CreationRulesView,
    findings: FindingsView,
    around: SurroundingsView,
)
    requires
        state.orderly(),
    ensures
        state.handle(req, ring, rules, findings, around).state.orderly(),
        state.handle(req, ring, rules, findings, around).base.orderly(),
{
    let route = route_of(req.path@);
    lemma_route_ids(req.path@);
    match route {
        RouteView::Base(root, id) => {
            lemma_base_apart(
                state,
                root,
                id,
                req.method,
                says_json(opt_text(req.content_type)),
                req.body@,
                rules,
                findings,
                around.table,
            );
        },
        RouteView::Stream(root, id, stream) => {
            lemma_remove_apart(state, key_of(root, id), stream);
        },
        RouteView::Jwks => {},
        RouteView::UnknownControl => {},
        _ => {
            lemma_post_apart(
                state,
                route,
                bearer_of(opt_text(req.authorization)),
                req.body@,
                findings,
                around,
            );
        },
    }
}

/// The id that a route for creating or for adding streams carries is valid.
proof fn lemma_route_ids(path: Seq<char>)
    ensures
        route_of(path) matches RouteView::Base(root, id) ==> valid_id(id),
        route_of(path) matches RouteView::Streams(root, id) ==> valid_id(id),
{
}

proof fn lemma_remove_apart(state: StateView, key: Seq<char>, stream: Seq<char>)
    requires
        state.orderly(),
    ensures
        state.remove_stream(key, stream).state.orderly(),
        state.remove_stream(key, stream).base.orderly(),
{
    if state.subscriptions.contains_key(key) {
        let after = state.subscriptions[key].without_explicit(trim_both(stream, '/'));
        lemma_one_replaced(state, key, after);
    }
}

proof fn lemma_base_apart(
    state: StateView,
    root: Seq<char>,
    id: Seq<char>,
    method: Method,
    json: bool,
    body: BodyView,
    rules: CreationRulesView,
    findings: FindingsView,
    table: Map<Seq<char>, StreamStatus>,
)
    requires
        state.orderly(),
        valid_id(id),
    ensures
        ({
            let step = state.handle_base(root, id, method, json, body, rules, findings, table);
            step.state.orderly() && step.base.orderly()
        }),
{
    match method {
        Method::Put => {
            lemma_create_apart(
                state,
                root,
                id,
                body.create(),
                findings.found,
                rules,
                findings.created_at,
                table,
            );
        },
        Method::Delete => {
            lemma_delete_apart(state, key_of(root, id));
        },
        _ => {},
    }
}

proof fn lemma_post_apart(
    state: StateView,
    route: RouteView,
    token: Option<Seq<char>>,
    body: BodyView,
    findings: FindingsView,
    around: SurroundingsView,
)
    requires
        state.orderly(),
        route matches RouteView::Streams(root, id) ==> valid_id(id),
    ensures
        state.handle_post(route, token, body, findings, around).state.orderly(),
        state.handle_post(route, token, body, findings, around).base.orderly(),
{
    match route {
        RouteView::Streams(root, id) => {
            lemma_add_apart(state, root, id, body.streams(), around.table);
        },
        RouteView::Claim(root, id) => {
            lemma_claim_apart(state, key_of(root, id), findings.auth, body.worker(), around);
        },
        RouteView::Callback(root, id) => {
            lemma_callback_apart(
                state,
                key_of(root, id),
                SubscriptionKind::Webhook,
                token,
                body.callback(),
                around,
            );
        },
        RouteView::Ack(root, id) => {
            lemma_callback_apart(
                state,
                key_of(root, id),
                SubscriptionKind::PullWake,
                token,
                body.callback(),
                around,
            );
        },
        RouteView::Release(root, id) => {
            lemma_release_apart(state, key_of(root, id), token, body.callback(), around);
        },
        _ => {},
    }
}

proof fn lemma_claim_apart(
    state: StateView,
    key: Seq<char>,
    auth: Result<(), ServiceJwtError>,
    worker: Option<Seq<char>>,
    around: SurroundingsView,
)
    requires
        state.orderly(),
    ensures
        state.claim(key, auth, worker, around).state.orderly(),
        state.claim(key, auth, worker, around).base.orderly(),
{
    if state.subscriptions.contains_key(key) {
        let sub = state.subscriptions[key].reclaimable(around.now_ms);
        lemma_one_replaced(state, key, sub);
        let base = state.with_sub(key, sub);
        if let Some(worker) = worker {
            lemma_one_replaced(base, key, sub.claimed(worker, around));
        }
    }
}

proof fn lemma_release_apart(
    state: StateView,
    key: Seq<char>,
    token: Option<Seq<char>>,
    request: Option<CallbackView>,
    around: SurroundingsView,
)
    requires
        state.orderly(),
    ensures
        state.release(key, token, request, around).state.orderly(),
        state.release(key, token, request, around).base.orderly(),
{
    if state.subscriptions.contains_key(key) {
        let next = state.subscriptions[key].rewoken(
            around.table,
            around.secret,
            around.seed,
            around.now_ms,
        ).0;
        lemma_one_replaced(state, key, next);
    }
}

/// Replacing one subscription by one with no more links keeps channels apart.
proof fn lemma_one_replaced(state: StateView, key: Seq<char>, after: SubView)
    requires
        state.orderly(),
        state.subscriptions.contains_key(key),
        after.root == state.subscriptions[key].root,
        after.id == state.subscriptions[key].id,
        after.streams.dom().subset_of(state.subscriptions[key].streams.dom()),
    ensures
        state.with_sub(key, after).orderly(),
{
    let channels = state.wake_streams.dom();
    lemma_fewer_apart(state.subscriptions[key], after, channels, channels);
    let next = state.with_sub(key, after);
    assert forall|k: Seq<char>| #[trigger] next.subscriptions.contains_key(k) implies
        next.subscriptions[k].apart_from(next.wake_streams.dom()) by {
        if k != key {
            assert(state.subscriptions.contains_key(k));
        }
    }
}

proof fn lemma_callback_apart(
    state: StateView,
    key: Seq<char>,
    kind: SubscriptionKind,
    token: Option<Seq<char>>,
    request: Option<CallbackView>,
    around: SurroundingsView,
)
    requires
        state.orderly(),
    ensures
        state.callback(key, kind, token, request, around).state.orderly(),
        state.callback(key, kind, token, request, around).base.orderly(),
{
    if let Some(request) = request {
        if state.subscriptions.contains_key(key) {
            let acked = state.subscriptions[key].acked(request.acks);
            assert(acked.streams.dom() =~= state.subscriptions[key].streams.dom());
            lemma_one_replaced(
                state,
                key,
                acked.rewoken(around.table, around.secret, around.seed, around.now_ms).0,
            );
            lemma_one_replaced(state, key, acked.leased(around.now_ms));
        }
    }
}

proof fn lemma_delete_apart(state: StateView, key: Seq<char>)
    requires
        state.orderly(),
    ensures
        state.delete(key).state.orderly(),
        state.delete(key).base.orderly(),
{
    let next = state.delete(key).state;
    assert forall|k: Seq<char>| #[trigger] next.subscriptions.contains_key(k) implies
        next.subscriptions[k].apart_from(next.wake_streams.dom()) by {
        assert(state.subscriptions.contains_key(k));
        lemma_fewer_apart(
            state.subscriptions[k],
            next.subscriptions[k],
            state.wake_streams.dom(),
            next.wake_streams.dom(),
        );
    }
}

proof fn lemma_add_apart(
    state: StateView,
    root: Seq<char>,
    id: Seq<char>,
    streams: Option<Seq<Seq<char>>>,
    table: Map<Seq<char>, StreamStatus>,
)
    requires
        state.orderly(),
        valid_id(id),
    ensures
        state.add_streams(root, id, streams, table).state.orderly(),
        state.add_streams(root, id, streams, table).base.orderly(),
{
    let step = state.add_streams(root, id, streams, table);
    let key = key_of(root, id);
    if step.keep {
        let names = in_order(trimmed_paths(streams->0).to_set());
        let sub = state.subscriptions[key];
        law_keys_identify_subscriptions(sub.root, sub.id, root, id);
        assert forall|k: Seq<char>| #[trigger] step.state.subscriptions.contains_key(k) implies
            step.state.subscriptions[k].apart_from(step.state.wake_streams.dom()) by {
            assert(state.subscriptions.contains_key(k));
            if k == key {
                assert forall|i: int| 0 <= i < names.len() implies !state.wake_streams.dom().contains(
                    absolute_path(sub.root, #[trigger] names[i]),
                ) by {
                    assert(!state.wake_streams.contains_key(absolute_path(root, names[i])));
                }
                lemma_explicit_apart(sub, table, names, state.wake_streams.dom());
            }
        }
    }
}

proof fn lemma_create_apart(
    state: StateView,
    root: Seq<char>,
    id: Seq<char>,
    raw: Option<RawCreateView>,
    found: WakeStreamLookup,
    rules: CreationRulesView,
    created_at: Seq<char>,
    table: Map<Seq<char>, StreamStatus>,
)
    requires
        state.orderly(),
        valid_id(id),
    ensures
        state.create(root, id, raw, found, rules, created_at, table).state.orderly(),
        state.create(root, id, raw, found, rules, created_at, table).base.orderly(),
{
    let step = state.create(root, id, raw, found, rules, created_at, table);
    if step.keep {
        let raw = raw->0;
        let key = key_of(root, id);
        crate::subscriptions::creation::lemma_config_follows(raw);
        lemma_created_apart(state, root, id, raw, rules, created_at, table);
        let sub = step.state.subscriptions[key];
        assert forall|k: Seq<char>| #[trigger] step.state.subscriptions.contains_key(k) implies
            step.state.subscriptions[k].apart_from(step.state.wake_streams.dom()) by {
            match sub.wake_channel() {
                Some(channel) => {
                    assert(step.state.wake_streams.dom() =~= state.wake_streams.dom().insert(
                        channel,
                    ));
                    if k != key {
                        assert(state.subscriptions.contains_key(k));
                        lemma_channel_taken(
                            state.subscriptions[k],
                            table,
                            state.wake_streams.dom(),
                            channel,
                        );
                    }
                },
                None => {
                    if k != key {
                        assert(state.subscriptions.contains_key(k));
                    }
                },
            }
        }
    }
}

/// An append never makes a wake channel a member.
pub proof fn law_appends_keep_channels_apart(
    state: StateView,
    table: Map<Seq<char>, StreamStatus>,
    absolute: Seq<char>,
    secret: Seq<u8>,
    seeds: Seq<WakeSeedView>,
    now_ms: u64,
)
    requires
        state.orderly(),
        state.subscriptions.dom().finite(),
    ensures
        state.after_append(table, absolute, secret, seeds, now_ms).0.orderly(),
{
    let next = state.after_append(table, absolute, secret, seeds, now_ms).0;
    let channels = state.wake_streams.dom();
    if !channels.contains(absolute) {
        lemma_order_of(state.subscriptions.dom());
        assert forall|key: Seq<char>| #[trigger] next.subscriptions.contains_key(key) implies
            next.subscriptions[key].apart_from(next.wake_streams.dom()) by {
            let keys = state.keys();
            let i = keys.index_of(key);
            assert(keys.to_set().contains(key));
            assert(keys[i] == key);
            lemma_appended_apart(
                state.subscriptions[key],
                table,
                absolute,
                secret,
                seeds[i],
                now_ms,
                channels,
            );
        }
    }
}

proof fn lemma_appended_apart(
    sub: SubView,
    table: Map<Seq<char>, StreamStatus>,
    absolute: Seq<char>,
    secret: Seq<u8>,
    seed: WakeSeedView,
    now_ms: u64,
    channels: Set<Seq<char>>,
)
    requires
        sub.apart_from(channels),
        !channels.contains(absolute),
    ensures
        sub.appended(table, absolute, secret, seed, now_ms).0.apart_from(channels),
{
    let after = sub.appended(table, absolute, secret, seed, now_ms).0;
    assert(after.root == sub.root);
    assert forall|path: Seq<char>| #[trigger]
        after.streams.contains_key(path) && proper_name(after.root, path) implies !channels.contains(absolute_path(after.root, path)) by {
        if !sub.streams.contains_key(path) {
            assert(relative_path(sub.root, absolute) == Some(path));
            lemma_relative_of(sub.root, absolute, path);
            lemma_proper_name(sub.root, path);
        }
    }
}

/// A restart never makes a wake channel a member.
pub proof fn law_restart_keeps_channels_apart(
    state: StateView,
    table: Map<Seq<char>, StreamStatus>,
    secret: Seq<u8>,
    seeds: Seq<WakeSeedView>,
    now_ms: u64,
)
    requires
        state.orderly(),
        state.subscriptions.dom().finite(),
    ensures
        state.after_restart(table, secret, seeds, now_ms).orderly(),
{
    let next = state.after_restart(table, secret, seeds, now_ms);
    let channels = state.wake_streams.dom();
    lemma_order_of(state.subscriptions.dom());
    assert forall|key: Seq<char>| #[trigger] next.subscriptions.contains_key(key) implies
        next.subscriptions[key].apart_from(next.wake_streams.dom()) by {
        let keys = state.keys();
        let i = keys.index_of(key);
        assert(keys.to_set().contains(key));
        assert(keys[i] == key);
        let sub = state.subscriptions[key];
        let names = listed(in_order(table.dom()), table, sub.root);
        lemma_reconciled_apart(sub, table, channels, names);
        let reconciled = sub.reconciled(table, channels, names);
        let after = reconciled.resumed(table, secret, seeds[i], now_ms).0;
        lemma_fewer_apart(reconciled, after, channels, channels);
    }
}

proof fn lemma_reconciled_apart(
    sub: SubView,
    table: Map<Seq<char>, StreamStatus>,
    channels: Set<Seq<char>>,
    names: Seq<Seq<char>>,
)
    requires
        sub.apart_from(channels),
    ensures
        sub.reconciled(table, channels, names).apart_from(channels),
{
    let linked = SubView { streams: sub.recovered_links(table), ..sub };
    let fenced = if sub.any_incarnation_changed(table) {
        linked.cleared()
    } else {
        linked
    };
    let after = sub.reconciled(table, channels, names);
    assert forall|path: Seq<char>| #[trigger]
        after.streams.contains_key(path) && proper_name(after.root, path) implies !channels.contains(absolute_path(after.root, path)) by {
        lemma_adopted_from(fenced, table, channels, names, path);
        if fenced.streams.contains_key(path) {
            assert(sub.streams.contains_key(path));
        }
    }
}

proof fn lemma_adopted_from(
    sub: SubView,
    table: Map<Seq<char>, StreamStatus>,
    channels: Set<Seq<char>>,
    names: Seq<Seq<char>>,
    path: Seq<char>,
)
    requires
        sub.adopted(table, channels, names).contains_key(path),
    ensures
        sub.streams.contains_key(path) || sub.globs(channels, path),
    decreases names.len(),
{
    if names.len() > 0 {
        if sub.adopted(table, channels, names.drop_last()).contains_key(path) {
            lemma_adopted_from(sub, table, channels, names.drop_last(), path);
        }
    }
}

/// The retirement of a stream never makes a wake channel a member.
pub proof fn law_retirements_keep_channels_apart(
    state: StateView,
    table: Map<Seq<char>, StreamStatus>,
    absolute: Seq<char>,
    stream_id: u64,
    secret: Seq<u8>,
    seeds: Seq<WakeSeedView>,
    now_ms: u64,
)
    requires
        state.orderly(),
        state.subscriptions.dom().finite(),
    ensures
        state.after_retirement(table, absolute, stream_id, secret, seeds, now_ms).0.orderly(),
{
    let next = state.after_retirement(table, absolute, stream_id, secret, seeds, now_ms).0;
    let channels = state.wake_streams.dom();
    lemma_order_of(state.subscriptions.dom());
    assert forall|key: Seq<char>| #[trigger] next.subscriptions.contains_key(key) implies
        next.subscriptions[key].apart_from(channels) && next.subscriptions[key].key() == key
            && valid_id(next.subscriptions[key].id) by {
        let keys = state.keys();
        let i = keys.index_of(key);
        assert(keys.to_set().contains(key));
        assert(keys[i] == key);
        let sub = state.subscriptions[key];
        assert(state.subscriptions.contains_key(key));
        let after = next.subscriptions[key];
        assert(after == state.retire_at(
            i,
            table,
            absolute,
            stream_id,
            secret,
            seeds,
            now_ms,
        ).0);
        assert(after.streams.dom().subset_of(sub.streams.dom()));
        lemma_fewer_apart(sub, after, channels, channels);
    }
}

/// No delivery, however it ends, and no lease that runs out makes a wake channel
/// a member.
pub proof fn law_deliveries_keep_channels_apart(
    state: StateView,
    key: Seq<char>,
    random: u16,
    done: bool,
    around: SurroundingsView,
)
    requires
        state.orderly(),
        state.subscriptions.contains_key(key),
    ensures
        ({
            let sub = state.subscriptions[key];
            &&& state.with_sub(key, sub.delivered()).orderly()
            &&& state.with_sub(key, sub.put_off(random, around.now_ms)).orderly()
            &&& state.with_sub(key, sub.answered(done, around).0).orderly()
            &&& state.with_sub(
                key,
                sub.rewoken(around.table, around.secret, around.seed, around.now_ms).0,
            ).orderly()
        }),
{
    let sub = state.subscriptions[key];
    lemma_one_replaced(state, key, sub.delivered());
    lemma_one_replaced(state, key, sub.put_off(random, around.now_ms));
    lemma_one_replaced(state, key, sub.answered(done, around).0);
    lemma_one_replaced(
        state,
        key,
        sub.rewoken(around.table, around.secret, around.seed, around.now_ms).0,
    );
}

/// The paths that kept subscriptions name as their wake channels.
pub open spec fn kept_channels(subs: Seq<SubView>) -> Set<Seq<char>> {
    Set::new(
        |path: Seq<char>|
            exists|i: int|
                0 <= i < subs.len() && (#[trigger] subs[i]).config.wake_stream is Some
                    && absolute_path(subs[i].root, subs[i].config.wake_stream->0) == path,
    )
}

/// A start takes over only valid names, each under its key, and keeps the wake
/// channels apart if they were apart when the subscriptions were kept.
pub proof fn law_start_keeps_channels_apart(
    version: u32,
    subs: Seq<SubView>,
    allow_local: bool,
    base: Option<Seq<char>>,
)
    requires
        state_fault(version, subs, allow_local) is None,
    ensures
        ({
            let loaded = StateView { subscriptions: by_key(subs), wake_streams: Map::empty() };
            &&& loaded.settled_in(base).well_named()
            &&& (forall|i: int|
                0 <= i < subs.len() ==> (#[trigger] subs[i]).apart_from(kept_channels(subs)))
                ==> loaded.settled_in(base).orderly()
        }),
{
    let loaded = StateView { subscriptions: by_key(subs), wake_streams: Map::empty() };
    let next = loaded.settled_in(base);
    lemma_loaded(subs, allow_local);
    let keys = in_order(loaded.subscriptions.dom());
    lemma_order_of(loaded.subscriptions.dom());
    assert forall|key: Seq<char>| #[trigger] next.subscriptions.contains_key(key) implies
        next.subscriptions[key].key() == key && valid_id(next.subscriptions[key].id) by {
        assert(loaded.subscriptions.contains_key(key));
    }
    if forall|i: int| 0 <= i < subs.len() ==> (#[trigger] subs[i]).apart_from(kept_channels(subs)) {
        assert forall|path: Seq<char>| #[trigger] next.wake_streams.contains_key(path) implies
            kept_channels(subs).contains(path) by {
            lemma_counted_from(keys, next.subscriptions, path);
            let k = choose|k: int|
                0 <= k < keys.len() && {
                    let sub = next.subscriptions[#[trigger] keys[k]];
                    sub.config.wake_stream is Some && absolute_path(
                        sub.root,
                        sub.config.wake_stream->0,
                    ) == path
                };
            assert(keys.to_set().contains(keys[k]));
            assert(loaded.subscriptions.contains_key(keys[k]));
            let i = choose|i: int|
                0 <= i < subs.len() && loaded.subscriptions[keys[k]] == taken_over(
                    #[trigger] subs[i],
                );
            assert(subs[i].config.wake_stream is Some);
        }
        assert(next.wake_streams.dom().subset_of(kept_channels(subs)));
        assert forall|key: Seq<char>| #[trigger] next.subscriptions.contains_key(key) implies
            next.subscriptions[key].apart_from(next.wake_streams.dom()) by {
            assert(loaded.subscriptions.contains_key(key));
            let i = choose|i: int|
                0 <= i < subs.len() && loaded.subscriptions[key] == taken_over(#[trigger] subs[i]);
            lemma_fewer_apart(
                subs[i],
                next.subscriptions[key],
                kept_channels(subs),
                next.wake_streams.dom(),
            );
        }
    }
}

/// What is taken over are the kept subscriptions, under their keys.
proof fn lemma_loaded(subs: Seq<SubView>, allow_local: bool)
    requires
        first_fault(subs, allow_local) is None,
    ensures
        by_key(subs).dom().finite(),
        forall|key: Seq<char>| #[trigger]
            by_key(subs).contains_key(key) ==> {
                &&& by_key(subs)[key].key() == key
                &&& valid_id(by_key(subs)[key].id)
                &&& exists|i: int|
                    0 <= i < subs.len() && by_key(subs)[key] == taken_over(#[trigger] subs[i])
            },
    decreases subs.len(),
{
    if subs.len() > 0 {
        let front = subs.drop_last();
        lemma_loaded(front, allow_local);
        assert forall|key: Seq<char>| #[trigger] by_key(subs).contains_key(key) implies {
            &&& by_key(subs)[key].key() == key
            &&& valid_id(by_key(subs)[key].id)
            &&& exists|i: int|
                0 <= i < subs.len() && by_key(subs)[key] == taken_over(#[trigger] subs[i])
        } by {
            if key == subs.last().key() {
                assert(by_key(subs)[key] == taken_over(subs[subs.len() - 1]));
            } else {
                assert(by_key(front).contains_key(key));
                let i = choose|i: int|
                    0 <= i < front.len() && by_key(front)[key] == taken_over(#[trigger] front[i]);
                assert(by_key(subs)[key] == taken_over(subs[i]));
            }
        }
    }
}

/// A counted channel is the channel of one of the subscriptions.
proof fn lemma_counted_from(keys: Seq<Seq<char>>, subs: Map<Seq<char>, SubView>, path: Seq<char>)
    requires
        counted(keys, subs).contains_key(path),
    ensures
        exists|k: int|
            0 <= k < keys.len() && {
                let sub = subs[#[trigger] keys[k]];
                sub.config.wake_stream is Some && absolute_path(sub.root, sub.config.wake_stream->0)
                    == path
            },
    decreases keys.len(),
{
    if keys.len() > 0 {
        let sub = subs[keys[keys.len() - 1]];
        if sub.config.wake_stream is Some && absolute_path(sub.root, sub.config.wake_stream->0)
            == path {
        } else {
            let front = keys.drop_last();
            lemma_counted_from(front, subs, path);
            let k = choose|k: int|
                0 <= k < front.len() && {
                    let sub = subs[#[trigger] front[k]];
                    sub.config.wake_stream is Some && absolute_path(
                        sub.root,
                        sub.config.wake_stream->0,
                    ) == path
                };
            assert(keys[k] == front[k]);
        }
    }
}

impl StateView {
    /// The subscriptions that use a path as their wake channel.
    pub open spec fn users(self, path: Seq<char>) -> Set<Seq<char>> {
        self.subscriptions.dom().filter(
            |key: Seq<char>| self.subscriptions[key].wake_channel() == Some(path),
        )
    }

    /// Whether the uses of every wake channel are counted.
    pub open spec fn channels_counted(self) -> bool {
        &&& self.subscriptions.dom().finite()
        &&& forall|path: Seq<char>| #[trigger]
            self.wake_streams.contains_key(path) <==> self.users(path).len() > 0
        &&& forall|path: Seq<char>| #[trigger]
            self.wake_streams.contains_key(path) ==> self.wake_streams[path] == self.users(
                path,
            ).len()
    }
}

/// A creation counts its wake channel, and no other.
pub proof fn law_creation_counts_its_channel(
    state: StateView,
    root: Seq<char>,
    id: Seq<char>,
    raw: Option<RawCreateView>,
    found: WakeStreamLookup,
    rules: CreationRulesView,
    created_at: Seq<char>,
    table: Map<Seq<char>, StreamStatus>,
)
    requires
        state.channels_counted(),
    ensures
        state.create(root, id, raw, found, rules, created_at, table).state.channels_counted(),
{
    let step = state.create(root, id, raw, found, rules, created_at, table);
    if step.keep {
        let key = key_of(root, id);
        let sub = step.state.subscriptions[key];
        let next = step.state;
        assert(next.subscriptions.dom() =~= state.subscriptions.dom().insert(key));
        assert forall|path: Seq<char>| next.users(path) == (if sub.wake_channel() == Some(path) {
            state.users(path).insert(key)
        } else {
            state.users(path)
        }) by {
            assert forall|k: Seq<char>| state.subscriptions.contains_key(k) implies
                next.subscriptions[k].wake_channel() == state.subscriptions[k].wake_channel() by {}
            assert(next.users(path) =~= (if sub.wake_channel() == Some(path) {
                state.users(path).insert(key)
            } else {
                state.users(path)
            }));
        }
        assert forall|path: Seq<char>| state.users(path).len() <= state.subscriptions.dom().len()
            && state.users(path).finite() && !state.users(path).contains(key) by {
            vstd::set_lib::lemma_len_subset(state.users(path), state.subscriptions.dom());
        }
        assert forall|path: Seq<char>| #[trigger]
            next.wake_streams.contains_key(path) <==> next.users(path).len() > 0 by {
            assert(state.users(path).finite());
            assert(state.wake_streams.contains_key(path) <==> state.users(path).len() > 0);
        }
        assert forall|path: Seq<char>| #[trigger] next.wake_streams.contains_key(path) implies
            next.wake_streams[path] == next.users(path).len() by {
            assert(state.users(path).finite());
            assert(state.wake_streams.contains_key(path) <==> state.users(path).len() > 0);
        }
    }
}

/// A deletion gives up one use of its wake channel, and of no other.
pub proof fn law_deletion_gives_up_its_channel(state: StateView, key: Seq<char>)
    requires
        state.channels_counted(),
    ensures
        state.delete(key).state.channels_counted(),
{
    let step = state.delete(key);
    if step.keep {
        let sub = state.subscriptions[key];
        let next = step.state;
        assert forall|path: Seq<char>| next.users(path) == state.users(path).remove(key) by {
            assert(next.users(path) =~= state.users(path).remove(key));
        }
        assert forall|path: Seq<char>| state.users(path).finite() && state.users(path).contains(key)
            == (sub.wake_channel() == Some(path)) by {
            vstd::set_lib::lemma_len_subset(state.users(path), state.subscriptions.dom());
        }
        assert forall|path: Seq<char>| #[trigger]
            next.wake_streams.contains_key(path) <==> next.users(path).len() > 0 by {
            assert(state.users(path).finite());
            assert(state.wake_streams.contains_key(path) <==> state.users(path).len() > 0);
        }
        assert forall|path: Seq<char>| #[trigger] next.wake_streams.contains_key(path) implies
            next.wake_streams[path] == next.users(path).len() by {
            assert(state.users(path).finite());
            assert(state.wake_streams.contains_key(path) <==> state.users(path).len() > 0);
        }
    }
}

/// After a start, the uses of every wake channel are counted, provided that
/// only pull-wake subscriptions name one.
pub proof fn law_start_counts_channels(state: StateView, base: Option<Seq<char>>)
    requires
        state.subscriptions.dom().finite(),
        state.subscriptions.dom().len() <= MAX_SUBSCRIPTIONS,
        forall|key: Seq<char>| #[trigger]
            state.subscriptions.contains_key(key) && state.subscriptions[key].config.wake_stream
                is Some ==> state.subscriptions[key].config.kind == SubscriptionKind::PullWake,
    ensures
        state.settled_in(base).channels_counted(),
{
    let next = state.settled_in(base);
    let keys = in_order(state.subscriptions.dom());
    lemma_order_of(state.subscriptions.dom());
    lemma_sorted_distinct(keys);
    keys.unique_seq_to_set();
    assert(next.subscriptions.dom() =~= state.subscriptions.dom());
    assert forall|i: int| 0 <= i < keys.len() && next.subscriptions[#[trigger] keys[i]].config.wake_stream
        is Some implies next.subscriptions[keys[i]].config.kind == SubscriptionKind::PullWake by {
        assert(keys.to_set().contains(keys[i]));
        assert(state.subscriptions.contains_key(keys[i]));
    }
    assert forall|path: Seq<char>|
        #![trigger next.wake_streams.contains_key(path)]
        (next.wake_streams.contains_key(path) <==> next.users(path).len() > 0) && (next.wake_streams.contains_key(path) ==> next.wake_streams[path] == next.users(
        path,
    ).len()) by {
        lemma_counted(keys, next.subscriptions, path);
        assert(next.users(path) =~= keys.to_set().filter(
            |key: Seq<char>| next.subscriptions[key].wake_channel() == Some(path),
        ));
    }
}

proof fn lemma_counted(keys: Seq<Seq<char>>, subs: Map<Seq<char>, SubView>, path: Seq<char>)
    requires
        keys.no_duplicates(),
        keys.len() <= MAX_SUBSCRIPTIONS,
        forall|i: int|
            0 <= i < keys.len() && subs[#[trigger] keys[i]].config.wake_stream is Some
                ==> subs[keys[i]].config.kind == SubscriptionKind::PullWake,
    ensures
        ({
            let users = keys.to_set().filter(
                |key: Seq<char>| subs[key].wake_channel() == Some(path),
            );
            &&& users.finite()
            &&& users.len() <= keys.len()
            &&& counted(keys, subs).contains_key(path) <==> users.len() > 0
            &&& counted(keys, subs).contains_key(path) ==> counted(keys, subs)[path] == users.len()
        }),
    decreases keys.len(),
{
    let p = |key: Seq<char>| subs[key].wake_channel() == Some(path);
    if keys.len() == 0 {
        assert(keys.to_set().filter(p) =~= Set::<Seq<char>>::empty());
    } else {
        let front = keys.drop_last();
        let last = keys.last();
        assert forall|i: int| 0 <= i < front.len() implies #[trigger] front[i] == keys[i] by {}
        lemma_counted(front, subs, path);
        assert(keys =~= front.push(last));
        assert(!front.contains(last)) by {
            if front.contains(last) {
                let i = choose|i: int| 0 <= i < front.len() && front[i] == last;
                assert(keys[i] == keys[keys.len() - 1]);
            }
        }
        assert forall|k: Seq<char>| keys.to_set().contains(k) == front.to_set().insert(
            last,
        ).contains(k) by {
            if keys.contains(k) {
                let i = choose|i: int| 0 <= i < keys.len() && keys[i] == k;
                if i < front.len() {
                    assert(front[i] == k);
                }
            }
            if front.contains(k) {
                let i = choose|i: int| 0 <= i < front.len() && front[i] == k;
                assert(keys[i] == k);
            }
            assert(keys[keys.len() - 1] == last);
        }
        assert(keys.to_set() =~= front.to_set().insert(last));
        assert(keys[keys.len() - 1] == last);
        if p(last) {
            assert(keys.to_set().filter(p) =~= front.to_set().filter(p).insert(last));
        } else {
            assert(keys.to_set().filter(p) =~= front.to_set().filter(p));
        }
    }
}

} // verus!
