//! What requests do to subscriptions, and what they leave alone.

use crate::path_map::{in_order, lemma_order_of};
use crate::subscriptions::config::{
    optional_path, requested_kind, trimmed_paths, RawCreateView, SubscriptionKind,
    SubscriptionStatus,
};
use crate::subscriptions::creation::{config_of, CreationRulesView, WakeStreamLookup};
use crate::subscriptions::glob::matches_glob;
use crate::subscriptions::keys::RingView;
use crate::subscriptions::links::{listed, live_at, tail_at, LinkView, StreamStatus};
use crate::subscriptions::manager::FindingsView;
use crate::subscriptions::paths::{absolute_path, key_of, relative_path};
use crate::subscriptions::reply::{bearer_of, says_json, Method, ReplyView, Req};
use crate::subscriptions::route::{route_of, RouteView};
use crate::subscriptions::state::StateView;
use crate::subscriptions::steps::SurroundingsView;
use crate::subscriptions::subscription::SubView;
use crate::subscriptions::wake_laws::{at_rest, same_subscription};
use crate::text::{opt_text, text_before, trim_both, trim_end};
use vstd::prelude::*;

verus! {

/// A new subscription is what the request asks for. It is linked to the streams
/// that were named and to those that its pattern matches among the live ones, and
/// to no other; never to a wake channel through its pattern. It has no wake.
pub proof fn law_new_subscription_is_what_was_asked_for(
    state: StateView,
    root: Seq<char>,
    id: Seq<char>,
    raw: RawCreateView,
    found: WakeStreamLookup,
    rules: CreationRulesView,
    created_at: Seq<char>,
    table: Map<Seq<char>, StreamStatus>,
    path: Seq<char>,
)
    requires
        state.create(root, id, Some(raw), found, rules, created_at, table).keep,
    ensures
        ({
            let key = key_of(root, id);
            let step = state.create(root, id, Some(raw), found, rules, created_at, table);
            let sub = step.state.subscriptions[key];
            let named = trimmed_paths(raw.streams).contains(path);
            let asked = sub.config.pattern matches Some(pattern) && matches_glob(pattern, path)
                && listed(in_order(table.dom()), table, root).contains(path)
                && !state.wake_streams.contains_key(absolute_path(root, path))
                && sub.config.wake_stream != Some(path);
            &&& !state.subscriptions.contains_key(key)
            &&& sub.id == id && sub.root == root && sub.created_at == created_at
            &&& requested_kind(raw.kind) == Some(sub.config.kind)
            &&& sub.config.pattern == optional_path(raw.pattern)
            &&& sub.config.wake_stream == optional_path(raw.wake_stream)
            &&& sub.config.webhook_url == raw.webhook_url
            &&& sub.config.lease_ttl_ms == raw.lease_ttl_ms
            &&& sub.config.description == raw.description
            &&& sub.config.streams.to_set() == trimmed_paths(raw.streams).to_set()
            &&& sub.config.kind == SubscriptionKind::Webhook ==> rules.public_base_url == Some(
                sub.callback_base,
            )
            &&& sub.streams.contains_key(path) <==> named || asked
            &&& sub.streams.contains_key(path) ==> {
                &&& sub.streams[path].explicit == named
                &&& sub.streams[path].glob == asked
            }
            &&& at_rest(sub)
            &&& sub.generation == 0
            &&& state.subscriptions.dom().len() < 4_096
            &&& step.reply matches ReplyView::Described { status, document } && status == 201
                && document.id == id && document.status == SubscriptionStatus::Active
        }),
{
    let key = key_of(root, id);
    let step = state.create(root, id, Some(raw), found, rules, created_at, table);
    let sub = step.state.subscriptions[key];
    crate::subscriptions::creation::lemma_config_follows(raw);
    let config = config_of(raw);
    assert(config.streams.to_set().contains(path) <==> trimmed_paths(raw.streams).to_set().contains(
        path,
    ));
    assert(config.streams.contains(path) <==> trimmed_paths(raw.streams).contains(path));
    assert(sub.wake_snapshot.dom() =~= Set::empty());
}

/// A creation leaves the other subscriptions alone. Only where a new wake channel
/// was a member of one does that one lose this member, and no other; its cursors
/// stay.
pub proof fn law_creation_takes_only_the_channel(
    state: StateView,
    root: Seq<char>,
    id: Seq<char>,
    raw: Option<RawCreateView>,
    found: WakeStreamLookup,
    rules: CreationRulesView,
    created_at: Seq<char>,
    table: Map<Seq<char>, StreamStatus>,
    other: Seq<char>,
    path: Seq<char>,
)
    requires
        state.subscriptions.contains_key(other),
    ensures
        ({
            let step = state.create(root, id, raw, found, rules, created_at, table);
            let sub = state.subscriptions[other];
            let next = step.state.subscriptions[other];
            let channel = match optional_path(raw->0.wake_stream) {
                Some(stream) => relative_path(sub.root, absolute_path(root, stream)) == Some(path),
                None => false,
            };
            &&& step.state.subscriptions.contains_key(other)
            &&& !step.keep ==> step.state == state
            &&& same_subscription(sub, next)
            &&& sub.streams.contains_key(path) && !(step.keep && channel)
                ==> next.streams.contains_key(path) && next.streams[path] == sub.streams[path]
            &&& step.keep && channel && step.state.subscriptions[key_of(root, id)].config.kind
                == SubscriptionKind::PullWake && other != key_of(root, id)
                ==> !next.streams.contains_key(path)
            &&& !sub.streams.contains_key(path) ==> !next.streams.contains_key(path)
            &&& next.generation == sub.generation
            &&& next.wake_id == sub.wake_id || (sub.holder is None && !next.has_pending(table)
                && next.wake_id is None)
            &&& next.holder == sub.holder || next.wake_id is None
            &&& next.wake_id is Some && sub.wake_snapshot.contains_key(path) && !(step.keep
                && channel) ==> next.wake_snapshot.contains_key(path) && next.wake_snapshot[path]
                == sub.wake_snapshot[path]
        }),
{
    let step = state.create(root, id, raw, found, rules, created_at, table);
    if step.keep {
        let sub = state.subscriptions[other];
        let next = step.state.subscriptions[other];
        if let Some(at) = step.state.subscriptions[key_of(root, id)].wake_channel() {
            if let Some(p) = relative_path(sub.root, at) {
                let left = SubView {
                    streams: sub.streams.remove(p),
                    wake_snapshot: sub.wake_snapshot.remove(p),
                    ..sub
                };
                if sub.streams.contains_key(p) {
                    crate::subscriptions::cursor_laws::lemma_pending_by_links(left, next, table);
                }
            }
        }
    }
}

/// A creation is refused, and changes nothing, where the limit on subscriptions
/// is reached, where a named stream is a wake channel, where the subscription
/// would have too many streams, and where one of that name is there that is
/// something else.
pub proof fn law_creation_keeps_the_limits(
    state: StateView,
    root: Seq<char>,
    id: Seq<char>,
    raw: RawCreateView,
    found: WakeStreamLookup,
    rules: CreationRulesView,
    created_at: Seq<char>,
    table: Map<Seq<char>, StreamStatus>,
    i: int,
)
    ensures
        ({
            let step = state.create(root, id, Some(raw), found, rules, created_at, table);
            let there = state.subscriptions.contains_key(key_of(root, id));
            let sub = step.state.subscriptions[key_of(root, id)];
            let names = trimmed_paths(raw.streams);
            &&& there ==> !step.keep && step.state == state
            &&& state.subscriptions.dom().len() >= 4_096 ==> !step.keep
            &&& state.rooted(root).len() >= 1_024 ==> !step.keep
            &&& 0 <= i < names.len() && state.wake_streams.contains_key(
                absolute_path(root, names[i]),
            ) ==> !step.keep
            &&& step.keep ==> sub.streams.dom().len() <= 10_000
                || sub.streams.dom() == names.to_set()
            &&& !step.keep ==> step.state == state && step.delivery is None && step.lease is None
            &&& !step.keep && !there ==> 400 <= step.reply.status()
        }),
{
    if requested_kind(raw.kind) is Some {
        crate::subscriptions::creation::lemma_config_follows(raw);
        let config = config_of(raw);
        let names = trimmed_paths(raw.streams);
        if 0 <= i < names.len() {
            assert(names.to_set().contains(names[i]));
            assert(config.streams.to_set().contains(names[i]));
            let k = choose|k: int| 0 <= k < config.streams.len() && config.streams[k] == names[i];
            assert(absolute_path(root, config.streams[k]) == absolute_path(root, names[i]));
        }
        let requested = state.requested(root, id, raw, rules, created_at, table);
        assert(requested.streams.dom() =~= config.streams.to_set());
    }
}

/// Adding streams links each of them by name. One that was not linked starts at
/// its end; one that was keeps its cursor. The other links, the wake and its
/// holder stay, and so do the other subscriptions.
pub proof fn law_added_streams_start_at_the_end(
    state: StateView,
    root: Seq<char>,
    id: Seq<char>,
    streams: Seq<Seq<char>>,
    table: Map<Seq<char>, StreamStatus>,
    path: Seq<char>,
)
    requires
        state.add_streams(root, id, Some(streams), table).keep,
    ensures
        ({
            let key = key_of(root, id);
            let step = state.add_streams(root, id, Some(streams), table);
            let sub = state.subscriptions[key];
            let next = step.state.subscriptions[key];
            let named = trimmed_paths(streams).contains(path);
            &&& state.subscriptions.contains_key(key)
            &&& streams.len() > 0 && !streams.contains(Seq::empty())
            &&& next == (SubView { streams: next.streams, ..sub })
            &&& next.streams.contains_key(path) <==> sub.streams.contains_key(path) || named
            &&& sub.streams.contains_key(path) ==> next.streams[path] == (LinkView {
                explicit: sub.streams[path].explicit || named,
                ..sub.streams[path]
            })
            &&& !sub.streams.contains_key(path) && named ==> {
                let link = next.streams[path];
                &&& link.explicit && !link.glob
                &&& link.acked == tail_at(table, sub.root, path)
                &&& match live_at(table, sub.root, path) {
                    Some(status) => link.stream_id == Some(status.id),
                    None => link.stream_id is None,
                }
            }
            &&& named ==> !state.wake_streams.contains_key(absolute_path(root, path))
            &&& next.streams.dom().len() <= 10_000
            &&& step.reply == ReplyView::Done
            &&& step.delivery is None && step.lease is None
            &&& step.state.subscriptions.remove(key) == state.subscriptions.remove(key)
            &&& step.state.wake_streams == state.wake_streams
        }),
{
    let key = key_of(root, id);
    let step = state.add_streams(root, id, Some(streams), table);
    let set = trimmed_paths(streams).to_set();
    lemma_order_of(set);
    let names = in_order(set);
    assert(names.contains(path) <==> names.to_set().contains(path));
    assert(set.contains(path) <==> trimmed_paths(streams).contains(path));
    if names.contains(path) {
        let k = choose|k: int| 0 <= k < names.len() && names[k] == path;
        assert(absolute_path(root, names[k]) == absolute_path(root, path));
    }
    assert(step.state.subscriptions.remove(key) =~= state.subscriptions.remove(key));
}

/// Taking a stream out takes back that it was named. It stays linked, with its
/// cursor, if the pattern asks for it too; otherwise the link is gone. No other
/// link changes.
pub proof fn law_removed_stream_is_no_longer_named(
    state: StateView,
    key: Seq<char>,
    stream: Seq<char>,
    path: Seq<char>,
)
    requires
        state.subscriptions.contains_key(key),
    ensures
        ({
            let step = state.remove_stream(key, stream);
            let sub = state.subscriptions[key];
            let next = step.state.subscriptions[key];
            let name = trim_both(stream, '/');
            &&& step.keep && step.reply == ReplyView::Done
            &&& step.delivery is None && step.lease is None
            &&& next == (SubView { streams: next.streams, ..sub })
            &&& path != name ==> (next.streams.contains_key(path) <==> sub.streams.contains_key(
                path,
            )) && next.streams[path] == sub.streams[path]
            &&& next.streams.contains_key(name) <==> sub.streams.contains_key(name)
                && sub.streams[name].glob
            &&& next.streams.contains_key(name) ==> next.streams[name] == (LinkView {
                explicit: false,
                ..sub.streams[name]
            })
            &&& step.state.subscriptions.remove(key) == state.subscriptions.remove(key)
            &&& step.state.wake_streams == state.wake_streams
        }),
{
    let step = state.remove_stream(key, stream);
    assert(step.state.subscriptions.remove(key) =~= state.subscriptions.remove(key));
}

/// Deleting a subscription removes it and nothing else; what is not there is
/// deleted already. It cannot be described any more, and can be created anew.
pub proof fn law_deleted_subscription_is_gone(
    state: StateView,
    key: Seq<char>,
    signing_kid: Seq<char>,
)
    ensures
        ({
            let step = state.delete(key);
            &&& !step.state.subscriptions.contains_key(key)
            &&& step.state.subscriptions.remove(key) == state.subscriptions.remove(key)
            &&& step.keep <==> state.subscriptions.contains_key(key)
            &&& !step.keep ==> step.state == state
            &&& step.reply == ReplyView::Done
            &&& step.delivery is None && step.lease is None
            &&& step.state.describe(key, signing_kid).reply.status() == 404
            &&& step.state.delete(key).state == step.state
        }),
{
    let step = state.delete(key);
    assert(step.state.subscriptions.remove(key) =~= state.subscriptions.remove(key));
}

/// A description tells what the subscription is: how it was asked for, and for
/// every linked stream how it is linked and where its cursor stands. It changes
/// nothing.
pub proof fn law_description_is_faithful(
    state: StateView,
    key: Seq<char>,
    signing_kid: Seq<char>,
    path: Seq<char>,
)
    requires
        state.subscriptions.contains_key(key),
        state.subscriptions[key].streams.dom().finite(),
    ensures
        ({
            let sub = state.subscriptions[key];
            let step = state.describe(key, signing_kid);
            &&& step.state == state && !step.keep
            &&& step.reply matches ReplyView::Described { status, document }
            &&& status == 200
            &&& document.id == sub.id
            &&& document.kind == sub.config.kind
            &&& document.pattern == sub.config.pattern
            &&& document.wake_stream == sub.config.wake_stream
            &&& document.lease_ttl_ms == sub.config.lease_ttl_ms
            &&& document.created_at == sub.created_at
            &&& document.status == sub.status
            &&& document.description == sub.config.description
            &&& document.webhook matches Some(webhook) ==> {
                &&& sub.config.webhook_url == Some(webhook.url)
                &&& webhook.kid == signing_kid
                &&& webhook.jwks_url == trim_end(sub.callback_base, '/') + sub.root
                    + "/__ds/jwks.json"@
            }
            &&& document.webhook is Some <==> sub.config.kind == SubscriptionKind::Webhook
                && sub.config.webhook_url is Some
            &&& sub.streams.contains_key(path) ==> exists|i: int|
                0 <= i < document.streams.len() && (#[trigger] document.streams[i]).path == path
            &&& forall|i: int|
                0 <= i < document.streams.len() ==> {
                    let line = #[trigger] document.streams[i];
                    let link = sub.streams[line.path];
                    &&& sub.streams.contains_key(line.path)
                    &&& line.acked == link.acked
                    &&& link.explicit ==> line.link_type == "explicit"@
                    &&& !link.explicit ==> line.link_type == "glob"@
                }
            &&& forall|i: int, j: int|
                0 <= i < j < document.streams.len() ==> text_before(
                    (#[trigger] document.streams[i]).path,
                    (#[trigger] document.streams[j]).path,
                )
        }),
{
    let sub = state.subscriptions[key];
    let names = in_order(sub.streams.dom());
    lemma_order_of(sub.streams.dom());
    let lines = sub.document(signing_kid).streams;
    assert(lines.len() == names.len());
    assert forall|i: int| 0 <= i < lines.len() implies (#[trigger] lines[i]) == sub.link_info(
        names[i],
    ) && sub.streams.contains_key(names[i]) by {
        assert(names.to_set().contains(names[i]));
    }
    if sub.streams.contains_key(path) {
        assert(names.to_set().contains(path));
        let i = choose|i: int| 0 <= i < names.len() && names[i] == path;
        assert(lines[i].path == path);
    }
    reveal_strlit("explicit");
    reveal_strlit("glob");
}

/// A request touches the subscription that its path names and no other; only a
/// creation may also take a new wake channel out of the others.
pub proof fn law_request_touches_one_subscription(
    state: StateView,
    req: Req,
    ring: RingView,
    rules: CreationRulesView,
    findings: FindingsView,
    around: SurroundingsView,
    other: Seq<char>,
)
    requires
        state.subscriptions.contains_key(other),
        match route_of(req.path@) {
            RouteView::Base(root, id) => other != key_of(root, id) && req.method != Method::Put,
            RouteView::Streams(root, id) => other != key_of(root, id),
            RouteView::Stream(root, id, _) => other != key_of(root, id),
            RouteView::Callback(root, id) => other != key_of(root, id),
            RouteView::Claim(root, id) => other != key_of(root, id),
            RouteView::Ack(root, id) => other != key_of(root, id),
            RouteView::Release(root, id) => other != key_of(root, id),
            _ => true,
        },
    ensures
        ({
            let after = state.handle(req, ring, rules, findings, around).state;
            &&& after.subscriptions.contains_key(other)
            &&& after.subscriptions[other] == state.subscriptions[other]
        }),
{
}

/// Requests that only ask, and requests that are too large, in another format or
/// with another method than the path takes, change nothing.
pub proof fn law_idle_request_changes_nothing(
    state: StateView,
    req: Req,
    ring: RingView,
    rules: CreationRulesView,
    findings: FindingsView,
    around: SurroundingsView,
)
    ensures
        ({
            let step = state.handle(req, ring, rules, findings, around);
            let route = route_of(req.path@);
            let json = says_json(opt_text(req.content_type));
            let posted = route is Streams || route is Callback || route is Claim || route is Ack
                || route is Release;
            let idle = {
                ||| req.body_len > 1_048_576
                ||| req.method == Method::Get
                ||| req.method == Method::Other
                ||| route is Jwks
                ||| route is UnknownControl
                ||| posted && (req.method != Method::Post || !json)
                ||| route is Base && req.method == Method::Put && !json
                ||| route is Base && req.method == Method::Post
                ||| route is Stream && req.method != Method::Delete
            };
            &&& idle ==> step.state == state && !step.keep && step.delivery is None
                && step.lease is None
            &&& req.body_len > 1_048_576 ==> step.reply.status() == 413
            &&& req.body_len <= 1_048_576 ==> {
                &&& route is UnknownControl ==> step.reply.status() == 404
                &&& posted && req.method != Method::Post ==> step.reply.status() == 405
                &&& posted && req.method == Method::Post && !json ==> step.reply.status() == 415
                &&& route is Base && req.method == Method::Put && !json ==> step.reply.status()
                    == 415
                &&& route is Base && (req.method == Method::Post || req.method == Method::Other)
                    ==> step.reply.status() == 405
                &&& route is Stream && req.method != Method::Delete ==> step.reply.status() == 405
                &&& route is Jwks && req.method != Method::Get ==> step.reply.status() == 405
            }
        }),
{
}

/// Each path and method leads to its own work: what is put is created, what is
/// deleted is deleted, and a claim, an acknowledgement, a webhook's callback and a
/// release are heard as what they are.
pub proof fn law_requests_reach_their_work(
    state: StateView,
    req: Req,
    ring: RingView,
    rules: CreationRulesView,
    findings: FindingsView,
    around: SurroundingsView,
)
    requires
        req.body_len <= 1_048_576,
    ensures
        ({
            let step = state.handle(req, ring, rules, findings, around);
            let json = says_json(opt_text(req.content_type));
            let posted = req.method == Method::Post && json;
            let token = bearer_of(opt_text(req.authorization));
            match route_of(req.path@) {
                RouteView::Base(root, id) => {
                    &&& req.method == Method::Put && json ==> step == state.create(
                        root,
                        id,
                        req.body@.create(),
                        findings.found,
                        rules,
                        findings.created_at,
                        around.table,
                    )
                    &&& req.method == Method::Delete ==> step == state.delete(key_of(root, id))
                    &&& req.method == Method::Get ==> step == state.describe(
                        key_of(root, id),
                        rules.signing_kid,
                    )
                },
                RouteView::Streams(root, id) => posted ==> step == state.add_streams(
                    root,
                    id,
                    req.body@.streams(),
                    around.table,
                ),
                RouteView::Stream(root, id, stream) => req.method == Method::Delete ==> step
                    == state.remove_stream(key_of(root, id), stream),
                RouteView::Callback(root, id) => posted ==> step == state.callback(
                    key_of(root, id),
                    SubscriptionKind::Webhook,
                    token,
                    req.body@.callback(),
                    around,
                ),
                RouteView::Claim(root, id) => posted ==> step == state.claim(
                    key_of(root, id),
                    findings.auth,
                    req.body@.worker(),
                    around,
                ),
                RouteView::Ack(root, id) => posted ==> step == state.callback(
                    key_of(root, id),
                    SubscriptionKind::PullWake,
                    token,
                    req.body@.callback(),
                    around,
                ),
                RouteView::Release(root, id) => posted ==> step == state.release(
                    key_of(root, id),
                    token,
                    req.body@.callback(),
                    around,
                ),
                RouteView::Jwks => req.method == Method::Get && findings.keys_fresh ==> (
                step.reply matches ReplyView::Keys { keys } && keys.len() == ring.keys.len()
                    && forall|i: int|
                    0 <= i < keys.len() ==> #[trigger] keys[i] == (
                        ring.keys[i].x,
                        ring.keys[i].kid,
                    )),
                RouteView::UnknownControl => true,
            }
        }),
{
}

/// Streams are added wherever the request is sound: names that are valid and no
/// wake channels, a subscription that is there, and room for them.
pub proof fn law_sound_addition_is_carried_out(
    state: StateView,
    root: Seq<char>,
    id: Seq<char>,
    streams: Seq<Seq<char>>,
    table: Map<Seq<char>, StreamStatus>,
)
    requires
        state.subscriptions.contains_key(key_of(root, id)),
        0 < streams.len() <= 10_000,
        !streams.contains(Seq::empty()),
        forall|i: int|
            0 <= i < streams.len() ==> {
                let name = trim_both(#[trigger] streams[i], '/');
                &&& crate::subscriptions::paths::valid_stream_path(name)
                &&& !state.wake_streams.contains_key(absolute_path(root, name))
            },
        (state.subscriptions[key_of(root, id)].streams.dom() + trimmed_paths(
            streams,
        ).to_set()).len() <= 10_000,
    ensures
        state.add_streams(root, id, Some(streams), table).keep,
{
    let set = trimmed_paths(streams).to_set();
    let sub = state.subscriptions[key_of(root, id)];
    lemma_order_of(set);
    let names = in_order(set);
    assert forall|k: int| 0 <= k < names.len() implies exists|i: int|
        0 <= i < streams.len() && #[trigger] names[k] == trim_both(#[trigger] streams[i], '/') by {
        assert(names.to_set().contains(names[k]));
        assert(set.contains(names[k]));
        let i = choose|i: int|
            0 <= i < trimmed_paths(streams).len() && trimmed_paths(streams)[i] == names[k];
        assert(names[k] == trim_both(streams[i], '/'));
    }
    let more = sub.with_explicit(table, names);
    assert(more.streams.dom() =~= sub.streams.dom() + set) by {
        assert forall|p: Seq<char>| names.contains(p) <==> set.contains(p) by {
            assert(names.to_set().contains(p) <==> set.contains(p));
        }
    }
}

/// A subscription is created wherever the request is sound: it is accepted as
/// such, its webhook may be reached, its wake channel is an open stream of JSON
/// messages, the server has an address, none of that name is there, and the
/// limits are not reached.
pub proof fn law_sound_creation_is_carried_out(
    state: StateView,
    root: Seq<char>,
    id: Seq<char>,
    raw: RawCreateView,
    found: WakeStreamLookup,
    rules: CreationRulesView,
    created_at: Seq<char>,
    table: Map<Seq<char>, StreamStatus>,
)
    requires
        crate::subscriptions::config::create_complaint(raw) is None,
        raw.webhook_url matches Some(url) ==> crate::subscriptions::webhook::webhook_complaint(
            url,
            rules.allow_local,
        ) is None,
        raw.kind == "webhook"@ ==> rules.public_base_url is Some,
        raw.kind == "pull-wake"@ ==> found == (WakeStreamLookup::Live {
            closed: false,
            is_json: true,
        }),
        !state.subscriptions.contains_key(key_of(root, id)),
        state.subscriptions.dom().len() < 4_096,
        state.rooted(root).len() < 1_024,
        forall|i: int|
            0 <= i < raw.streams.len() ==> !state.wake_streams.contains_key(
                absolute_path(root, trim_both(#[trigger] raw.streams[i], '/')),
            ),
        optional_path(raw.pattern) is None || (trimmed_paths(raw.streams).to_set() + listed(
            in_order(table.dom()),
            table,
            root,
        ).to_set()).len() <= 10_000,
    ensures
        state.create(root, id, Some(raw), found, rules, created_at, table).keep,
{
    let names = trimmed_paths(raw.streams);
    let config = config_of(raw);
    crate::subscriptions::creation::lemma_config_follows(raw);
    assert forall|k: int| 0 <= k < config.streams.len() implies !state.wake_streams.contains_key(
        absolute_path(root, #[trigger] config.streams[k]),
    ) by {
        assert(config.streams.to_set().contains(config.streams[k]));
        let i = choose|i: int| 0 <= i < names.len() && names[i] == config.streams[k];
        assert(names[i] == trim_both(raw.streams[i], '/'));
    }
    let requested = state.requested(root, id, raw, rules, created_at, table);
    let sub = requested.with_globs(
        table,
        state.wake_streams.dom(),
        listed(in_order(table.dom()), table, root),
    );
    if optional_path(raw.pattern) is None {
        assert(sub.streams.dom() =~= requested.streams.dom());
    } else {
        let found_names = listed(in_order(table.dom()), table, root);
        let all = names.to_set() + found_names.to_set();
        vstd::seq_lib::seq_to_set_is_finite(names);
        vstd::seq_lib::seq_to_set_is_finite(found_names);
        assert forall|p: Seq<char>| sub.streams.dom().contains(p) implies all.contains(p) by {
            if config.streams.contains(p) {
                assert(config.streams.to_set().contains(p));
            }
        }
        vstd::set_lib::lemma_len_subset(sub.streams.dom(), all);
    }
    reveal_strlit("webhook");
    reveal_strlit("pull-wake");
    assert("webhook"@.len() != "pull-wake"@.len());
}

/// A creation is refused for a webhook that may not be reached, for a wake
/// channel that is missing, expired, deleted, closed or of another type, and for a
/// webhook where the server has no address.
pub proof fn law_unsound_creation_is_refused(
    state: StateView,
    root: Seq<char>,
    id: Seq<char>,
    raw: Option<RawCreateView>,
    found: WakeStreamLookup,
    rules: CreationRulesView,
    created_at: Seq<char>,
    table: Map<Seq<char>, StreamStatus>,
)
    requires
        ({
            ||| raw is None
            ||| crate::subscriptions::config::create_complaint(raw->0) is Some
            ||| raw->0.webhook_url is Some && crate::subscriptions::webhook::webhook_complaint(
                raw->0.webhook_url->0,
                rules.allow_local,
            ) is Some
            ||| raw->0.kind == "pull-wake"@ && found != (WakeStreamLookup::Live {
                closed: false,
                is_json: true,
            })
            ||| raw->0.kind == "webhook"@ && rules.public_base_url is None
        }),
    ensures
        ({
            let step = state.create(root, id, raw, found, rules, created_at, table);
            &&& step.state == state
            &&& !step.keep
            &&& 400 <= step.reply.status() < 600
        }),
{
    reveal_strlit("webhook");
    reveal_strlit("pull-wake");
    assert("webhook"@.len() != "pull-wake"@.len());
}

/// Replies carry the status of what happened: done without content, found or made,
/// and a conflict where another holds the wake.
pub proof fn law_replies_carry_their_status(reply: ReplyView)
    ensures
        reply is Done ==> reply.status() == 204 && reply.content_type() is None,
        reply is Claimed ==> reply.status() == 200,
        reply is Acknowledged ==> reply.status() == 200,
        reply is Keys ==> reply.status() == 200,
        reply is AlreadyClaimed ==> reply.status() == 409,
        reply is MethodNotAllowed ==> reply.status() == 405,
        reply matches ReplyView::Refused { status, .. } ==> reply.status() == status,
        reply matches ReplyView::Described { status, .. } ==> reply.status() == status,
        !(reply is Done) ==> reply.content_type() is Some,
        reply is Claimed || reply is Acknowledged || reply is Described || reply is Refused
            || reply is AlreadyClaimed ==> reply.content_type() == Some("application/json"@),
{
}

/// A token is read from behind its scheme, and from nowhere else.
pub proof fn law_bearer_token_is_read(token: Seq<char>, header: Seq<char>)
    ensures
        token.len() > 0 ==> bearer_of(Some("Bearer "@ + token)) == Some(token),
        bearer_of(Some("Bearer "@)) is None,
        bearer_of(None) is None,
        bearer_of(Some(header)) matches Some(found) ==> header == "Bearer "@ + found,
{
    let scheme = "Bearer "@;
    let whole = scheme + token;
    assert(whole.take(scheme.len() as int) =~= scheme);
    assert(whole.skip(scheme.len() as int) =~= token);
    if bearer_of(Some(header)) is Some {
        assert(header =~= header.take(scheme.len() as int) + header.skip(scheme.len() as int));
    }
}

/// A body is taken as JSON by the name of its type, in letters of either case and
/// whatever parameters follow.
pub proof fn law_json_may_have_parameters(name: Seq<char>, rest: Seq<char>)
    requires
        !name.contains(';'),
        crate::text::trim_space(name) == name,
    ensures
        says_json(Some(name)) <==> crate::text::ascii_lower(name) == "application/json"@,
        says_json(Some(name.push(';') + rest)) <==> says_json(Some(name)),
        !says_json(None),
{
    crate::text::lemma_split_concat(name, ';', rest);
    crate::text::lemma_split_absent(name, ';');
}

/// Asking again for a subscription that is there succeeds exactly if everything
/// that was asked for is what it has; with any difference there is a conflict.
/// Either way nothing changes.
pub proof fn law_existing_subscription_is_compared(
    state: StateView,
    root: Seq<char>,
    id: Seq<char>,
    raw: RawCreateView,
    found: WakeStreamLookup,
    rules: CreationRulesView,
    created_at: Seq<char>,
    table: Map<Seq<char>, StreamStatus>,
)
    requires
        state.subscriptions.contains_key(key_of(root, id)),
        crate::subscriptions::creation::request_refusal(Some(raw), found, rules) is None,
    ensures
        ({
            let config = state.subscriptions[key_of(root, id)].config;
            let step = state.create(root, id, Some(raw), found, rules, created_at, table);
            let same = {
                &&& requested_kind(raw.kind) == Some(config.kind)
                &&& config.pattern == optional_path(raw.pattern)
                &&& config.wake_stream == optional_path(raw.wake_stream)
                &&& config.webhook_url == raw.webhook_url
                &&& config.lease_ttl_ms == raw.lease_ttl_ms
                &&& config.description == raw.description
                &&& config.streams == in_order(trimmed_paths(raw.streams).to_set())
            };
            &&& step.state == state && !step.keep
            &&& step.delivery is None && step.lease is None
            &&& same ==> step.reply == state.describe(key_of(root, id), rules.signing_kid).reply
            &&& !same ==> step.reply.status() == 409
        }),
{
    let config = state.subscriptions[key_of(root, id)].config;
    let wanted = config_of(raw);
    if config.kind == wanted.kind && config.pattern == wanted.pattern && config.wake_stream
        == wanted.wake_stream && config.webhook_url == wanted.webhook_url && config.lease_ttl_ms
        == wanted.lease_ttl_ms && config.description == wanted.description && config.streams
        == wanted.streams {
        assert(config == wanted);
    }
    reveal_strlit("webhook");
    reveal_strlit("pull-wake");
}

/// A creation is refused with what stands in its way: the request itself, the wake
/// stream, a missing public address, or a limit.
pub proof fn law_refused_creation_is_told_why(
    state: StateView,
    root: Seq<char>,
    id: Seq<char>,
    raw: RawCreateView,
    found: WakeStreamLookup,
    rules: CreationRulesView,
    created_at: Seq<char>,
    table: Map<Seq<char>, StreamStatus>,
)
    ensures
        ({
            let status = state.create(
                root,
                id,
                Some(raw),
                found,
                rules,
                created_at,
                table,
            ).reply.status();
            let sound = crate::subscriptions::config::create_complaint(raw) is None;
            let reachable = raw.webhook_url matches Some(url)
                ==> crate::subscriptions::webhook::webhook_complaint(url, rules.allow_local)
                is None;
            let channel = raw.kind == "pull-wake"@ ==> found == (WakeStreamLookup::Live {
                closed: false,
                is_json: true,
            });
            let addressed = raw.kind == "webhook"@ ==> rules.public_base_url is Some;
            let full = state.subscriptions.dom().len() >= 4_096 || state.rooted(root).len()
                >= 1_024;
            &&& !sound || !reachable ==> status == 400
            &&& sound && reachable && !channel ==> status == 409
            &&& sound && reachable && channel && !addressed ==> status == 503
            &&& sound && reachable && channel && addressed && full
                && !state.subscriptions.contains_key(key_of(root, id)) ==> status == 429
        }),
{
    reveal_strlit("webhook");
    reveal_strlit("pull-wake");
    assert("webhook"@.len() != "pull-wake"@.len());
}

/// Streams are not added where the list is missing, empty or too long, where it
/// holds what is no stream path or a wake channel, and where they would be too
/// many; and nothing changes.
pub proof fn law_unsound_addition_is_refused(
    state: StateView,
    root: Seq<char>,
    id: Seq<char>,
    streams: Option<Seq<Seq<char>>>,
    table: Map<Seq<char>, StreamStatus>,
    i: int,
)
    requires
        ({
            let name = trim_both(streams->0[i], '/');
            ||| streams is None
            ||| streams->0.len() == 0
            ||| streams->0.len() > 10_000
            ||| 0 <= i < streams->0.len() && streams->0[i].len() == 0
            ||| 0 <= i < streams->0.len() && !crate::subscriptions::paths::valid_stream_path(name)
            ||| 0 <= i < streams->0.len() && state.wake_streams.contains_key(
                absolute_path(root, name),
            )
        }),
    ensures
        ({
            let step = state.add_streams(root, id, streams, table);
            &&& step.state == state && !step.keep
            &&& step.delivery is None && step.lease is None
            &&& step.reply.status() == 400
        }),
{
    if streams is Some && 0 <= i < streams->0.len() {
        let given = streams->0;
        let trimmed = trimmed_paths(given);
        let names = in_order(trimmed.to_set());
        let name = trim_both(given[i], '/');
        if given[i].len() == 0 {
            assert(given[i] =~= Seq::empty());
            assert(given.contains(given[i]));
        }
        vstd::seq_lib::seq_to_set_is_finite(trimmed);
        lemma_order_of(trimmed.to_set());
        assert(trimmed[i] == name);
        assert(trimmed.to_set().contains(name));
        assert(names.to_set().contains(name));
        let k = choose|k: int| 0 <= k < names.len() && names[k] == name;
        assert(names[k] == name);
    }
}

/// Where there is no subscription, whoever asks for it is told so, and deleting it
/// is done already.
pub proof fn law_missing_subscription_is_told(
    state: StateView,
    key: Seq<char>,
    signing_kid: Seq<char>,
    stream: Seq<char>,
    worker: Seq<char>,
    around: SurroundingsView,
)
    requires
        !state.subscriptions.contains_key(key),
        worker.len() > 0,
    ensures
        state.describe(key, signing_kid).reply.status() == 404,
        state.remove_stream(key, stream).reply.status() == 404,
        state.claim(key, Ok(()), Some(worker), around).reply.status() == 404,
        state.delete(key).reply.status() == 204,
        state.describe(key, signing_kid).state == state,
        state.remove_stream(key, stream).state == state,
        state.claim(key, Ok(()), Some(worker), around).state == state,
        state.delete(key).state == state,
{
}

} // verus!
