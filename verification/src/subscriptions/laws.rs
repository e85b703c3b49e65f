//! What holds of the control plane as a whole.

use crate::subscriptions::claims::CallbackView;
use crate::subscriptions::config::{
    RawCreateView, SubscriptionKind, MAX_STREAMS_PER_SUBSCRIPTION,
};
use crate::subscriptions::creation::{CreationRulesView, WakeStreamLookup};
use crate::subscriptions::keys::RingView;
use crate::subscriptions::links::{LinkView, StreamStatus};
use crate::subscriptions::manager::FindingsView;
use crate::subscriptions::membership::before_first;
use crate::subscriptions::paths::{key_of, relative_path};
use crate::subscriptions::reply::{ReplyView, Req};
use crate::subscriptions::route::{route_of, RouteView};
use crate::subscriptions::state::StateView;
use crate::subscriptions::steps::SurroundingsView;
use crate::subscriptions::subscription::{AckView, SubView};
use crate::subscriptions::token::{law_issued_token_is_accepted, token_expiry, WakeSeedView};
use vstd::prelude::*;

verus! {

/// A change that cannot be kept leaves nothing behind: the state to go back to
/// is the one before the request. Only a claim that finds an expired lease goes
/// back to that lease being over, which it is either way.
pub proof fn law_failed_requests_leave_nothing(
    state: StateView,
    req: Req,
    ring: RingView,
    rules: CreationRulesView,
    findings: FindingsView,
    around: SurroundingsView,
)
    ensures
        ({
            let base = state.handle(req, ring, rules, findings, around).base;
            base == state || (route_of(req.path@) matches RouteView::Claim(root, id) && {
                let key = key_of(root, id);
                &&& state.subscriptions.contains_key(key)
                &&& state.subscriptions[key].lease_over(around.now_ms)
                &&& base == state.with_sub(key, state.subscriptions[key].cleared())
            })
        }),
{
    if let RouteView::Claim(root, id) = route_of(req.path@) {
        let key = key_of(root, id);
        if state.subscriptions.contains_key(key) {
            let sub = state.subscriptions[key];
            assert(state.with_sub(key, sub).subscriptions =~= state.subscriptions);
        }
    }
}

/// When a wake ends, whoever knew it is shut out: its delivery is no longer the
/// one to make, and reports about it are stale.
pub proof fn law_ended_wake_is_fenced(
    sub: SubView,
    around: SurroundingsView,
    token: Seq<char>,
    request: CallbackView,
)
    requires
        request.generation == Some(sub.generation),
    ensures
        ({
            let next = sub.rewoken(around.table, around.secret, around.seed, around.now_ms).0;
            &&& next.fences(around.secret, token, sub.generation, request)
            &&& forall|wake_id: Seq<char>, nonce: u64|
                !next.delivers(sub.generation, wake_id, nonce)
        }),
{
}

/// When a wake ends, there is a next one exactly if there is still work.
pub proof fn law_pending_work_has_a_wake(
    sub: SubView,
    table: Map<Seq<char>, StreamStatus>,
    secret: Seq<u8>,
    seed: WakeSeedView,
    now_ms: u64,
)
    ensures
        ({
            let (next, delivery) = sub.rewoken(table, secret, seed, now_ms);
            &&& next.wake_id is Some <==> sub.has_pending(table)
            &&& delivery is Some <==> sub.has_pending(table)
            &&& next.holder is None
            &&& next.streams == sub.streams
        }),
{
    let cleared = sub.cleared();
    assert forall|path: Seq<char>| #[trigger] cleared.pending_at(table, path) == sub.pending_at(
        table,
        path,
    ) by {}
    if sub.has_pending(table) {
        let path = choose|path: Seq<char>| sub.pending_at(table, path);
        assert(cleared.pending_at(table, path));
    }
    if cleared.has_pending(table) {
        let path = choose|path: Seq<char>| cleared.pending_at(table, path);
        assert(sub.pending_at(table, path));
    }
}

/// After an append to a stream that a subscription is linked to, or that its
/// pattern asks for and has room for, there is a wake or a holder if there is
/// work.
pub proof fn law_append_wakes_somebody(
    sub: SubView,
    table: Map<Seq<char>, StreamStatus>,
    absolute: Seq<char>,
    secret: Seq<u8>,
    seed: WakeSeedView,
    now_ms: u64,
)
    requires
        relative_path(sub.root, absolute) matches Some(path) && sub.appended(
            table,
            absolute,
            secret,
            seed,
            now_ms,
        ).0.streams.contains_key(path),
    ensures
        ({
            let (next, changed, delivery) = sub.appended(table, absolute, secret, seed, now_ms);
            &&& next.has_pending(table) ==> next.wake_id is Some || next.holder is Some
            &&& delivery is Some ==> changed && next.wake_id is Some
        }),
{
    let path = relative_path(sub.root, absolute)->0;
    let (grown, changed, left_out) = sub.grown(table, path);
    let next = sub.appended(table, absolute, secret, seed, now_ms).0;
    if left_out {
        let pruned = sub.followed(table, path).pruned(table);
        assert(grown == pruned);
        assert(!pruned.has_room(path));
    }
    if next.has_pending(table) && next.wake_id is None && next.holder is None {
        assert(next == grown);
    }
}

/// A retirement that comes late, after another stream took the path, changes
/// nothing; and no retirement touches the link to another stream.
pub proof fn law_late_retirement_spares_the_replacement(
    state: StateView,
    table: Map<Seq<char>, StreamStatus>,
    absolute: Seq<char>,
    stream_id: u64,
    sub: SubView,
    path: Seq<char>,
    secret: Seq<u8>,
    seed: WakeSeedView,
    now_ms: u64,
)
    ensures
        table.contains_key(absolute) && table[absolute].id != stream_id
            ==> !state.retirement_matters(table, absolute, stream_id),
        sub.streams.contains_key(path) && sub.streams[path].stream_id != Some(stream_id) ==> {
            let next = sub.bereft(table, path, stream_id, secret, seed, now_ms).0;
            &&& next.streams == sub.streams
        },
{
}

/// A stream that was named outlives its deletion as a member, and starts anew
/// with the next stream at its path; one that only a pattern asked for is let go.
/// The other members stay as they are.
pub proof fn law_named_members_outlive_deletion(
    sub: SubView,
    table: Map<Seq<char>, StreamStatus>,
    path: Seq<char>,
    stream_id: u64,
    secret: Seq<u8>,
    seed: WakeSeedView,
    now_ms: u64,
)
    requires
        sub.linked_to(path, stream_id),
    ensures
        ({
            let next = sub.bereft(table, path, stream_id, secret, seed, now_ms).0;
            &&& next.streams.contains_key(path) <==> sub.streams[path].explicit
            &&& sub.streams[path].explicit ==> next.streams[path] == (LinkView {
                explicit: true,
                glob: false,
                acked: before_first(),
                stream_id: None,
            })
            &&& next.streams.remove(path) == sub.streams.remove(path)
        }),
{
    let next = sub.bereft(table, path, stream_id, secret, seed, now_ms).0;
    assert(next.streams.remove(path) =~= sub.streams.remove(path));
}

/// Whoever knew a wake with a stream in it is shut out once that stream is
/// deleted, or once another stream at its path is appended to.
pub proof fn law_replaced_stream_fences_its_wake(
    sub: SubView,
    absolute: Seq<char>,
    path: Seq<char>,
    stream_id: u64,
    around: SurroundingsView,
    token: Seq<char>,
    request: CallbackView,
)
    requires
        relative_path(sub.root, absolute) == Some(path),
        request.generation == Some(sub.generation),
    ensures
        sub.wake_id is Some && sub.wake_snapshot.contains_key(path) ==> {
            let next = sub.bereft(
                around.table,
                path,
                stream_id,
                around.secret,
                around.seed,
                around.now_ms,
            ).0;
            &&& next.fences(around.secret, token, sub.generation, request)
            &&& forall|wake_id: Seq<char>, nonce: u64|
                !next.delivers(sub.generation, wake_id, nonce)
        },
        sub.replaced_at(around.table, path) ==> {
            let next = sub.appended(
                around.table,
                absolute,
                around.secret,
                around.seed,
                around.now_ms,
            ).0;
            &&& next.fences(around.secret, token, sub.generation, request)
            &&& forall|wake_id: Seq<char>, nonce: u64|
                !next.delivers(sub.generation, wake_id, nonce)
        },
{
}

/// Where a worker claimed a wake, it can report on it with what it was given,
/// for as long as the token lasts.
pub proof fn law_claimed_wake_can_be_acknowledged(
    state: StateView,
    key: Seq<char>,
    worker: Seq<char>,
    around: SurroundingsView,
    later: SurroundingsView,
    acks: Seq<AckView>,
    done: bool,
)
    requires
        state.claim(key, Ok(()), Some(worker), around).keep,
        state.subscriptions[key].key() == key,
        later.secret == around.secret,
        later.now_ms / 1000 <= token_expiry((around.now_ms / 1000) as u64),
    ensures
        ({
            let step = state.claim(key, Ok(()), Some(worker), around);
            &&& step.reply matches ReplyView::Claimed { wake_id, generation, token, .. }
            &&& step.state.report_refusal(
                key,
                SubscriptionKind::PullWake,
                Some(token),
                Some(CallbackView { wake_id, generation: Some(generation), acks, done }),
                later,
            ) is None
        }),
{
    let sub = state.subscriptions[key].reclaimable(around.now_ms);
    let claimed = sub.claimed(worker, around);
    law_issued_token_is_accepted(
        around.secret,
        key,
        claimed.generation,
        token_expiry((around.now_ms / 1000) as u64),
        around.seed.token,
        (later.now_ms / 1000) as u64,
    );
    assert(claimed.key() == key);
}

/// Asking for the same subscription again finds it and changes nothing.
pub proof fn law_creation_is_idempotent(
    state: StateView,
    root: Seq<char>,
    id: Seq<char>,
    raw: RawCreateView,
    found: WakeStreamLookup,
    rules: CreationRulesView,
    created_at: Seq<char>,
    later: Seq<char>,
    table: Map<Seq<char>, StreamStatus>,
    table_later: Map<Seq<char>, StreamStatus>,
)
    requires
        state.create(root, id, Some(raw), found, rules, created_at, table).keep,
    ensures
        ({
            let made = state.create(root, id, Some(raw), found, rules, created_at, table).state;
            let again = made.create(root, id, Some(raw), found, rules, later, table_later);
            &&& again.state == made
            &&& !again.keep
            &&& again.reply matches ReplyView::Described { status, .. } && status == 200
        }),
{
}

/// After a restart a subscription is linked to every live stream that its
/// pattern asks for, as far as there is room: nothing that was appended before
/// a crash is lost.
pub proof fn law_restart_finds_every_stream(
    sub: SubView,
    table: Map<Seq<char>, StreamStatus>,
    wake_paths: Set<Seq<char>>,
    names: Seq<Seq<char>>,
    name: Seq<char>,
)
    requires
        names.contains(name),
        sub.globs(wake_paths, name),
    ensures
        ({
            let next = sub.reconciled(table, wake_paths, names);
            next.streams.contains_key(name) || next.streams.dom().len()
                >= MAX_STREAMS_PER_SUBSCRIPTION
        }),
{
    let linked = SubView { streams: sub.recovered_links(table), ..sub };
    let fenced = if sub.any_incarnation_changed(table) {
        linked.cleared()
    } else {
        linked
    };
    assert(fenced.globs(wake_paths, name));
    let i = choose|i: int| 0 <= i < names.len() && names[i] == name;
    lemma_adopted(fenced, table, wake_paths, names, i);
}

proof fn lemma_adopted(
    sub: SubView,
    table: Map<Seq<char>, StreamStatus>,
    wake_paths: Set<Seq<char>>,
    names: Seq<Seq<char>>,
    i: int,
)
    requires
        0 <= i < names.len(),
        sub.globs(wake_paths, names[i]),
    ensures
        sub.adopted(table, wake_paths, names).contains_key(names[i]) || sub.adopted(
            table,
            wake_paths,
            names,
        ).dom().len() >= MAX_STREAMS_PER_SUBSCRIPTION,
    decreases names.len(),
{
    let front = names.drop_last();
    if i < front.len() {
        assert(front[i] == names[i]);
        lemma_adopted(sub, table, wake_paths, front, i);
    }
}

} // verus!
