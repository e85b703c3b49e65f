//! How wakes begin, who works on them, and how they end.

use crate::path_map::{in_order, lemma_order_of};
use crate::subscription_auth::ServiceJwtError;
use crate::subscriptions::claims::CallbackView;
use crate::subscriptions::config::{SubscriptionKind, SubscriptionStatus};
use crate::subscriptions::cursor_laws::{lemma_key_place, lemma_pending_by_links};
use crate::subscriptions::events::announced;
use crate::subscriptions::glob::matches_glob;
use crate::subscriptions::links::{live_at, tail_at, LinkView, StreamStatus};
use crate::subscriptions::paths::relative_path;
use crate::subscriptions::reply::ReplyView;
use crate::subscriptions::resume::LeaseView;
use crate::subscriptions::state::StateView;
use crate::subscriptions::steps::SurroundingsView;
use crate::subscriptions::subscription::{DeliveryView, SubView};
use crate::subscriptions::token::{token_expiry, token_text, tokens_agree, WakeSeedView};
use crate::text::text_before;
use vstd::prelude::*;

verus! {

/// Whether a message announces the wake that a subscription is in.
pub open spec fn announces(delivery: DeliveryView, sub: SubView) -> bool {
    let id = delivery.id();
    &&& id.key == sub.key()
    &&& id.generation == sub.generation
    &&& sub.wake_id == Some(id.wake_id)
    &&& id.nonce == sub.lease_nonce
    &&& sub.wake_delivery_pending
    &&& delivery is Webhook <==> sub.config.kind == SubscriptionKind::Webhook
    &&& delivery matches DeliveryView::PullWake { id, root, wake_stream, .. } ==> {
        &&& id == sub.id
        &&& root == sub.root
        &&& sub.config.wake_stream is Some ==> wake_stream == sub.config.wake_stream->0
    }
}

/// What a wake that just began is like. It has a number of its own, it announces
/// all that the linked streams hold, and nobody holds it. A webhook has its token
/// and its lease from the start; a worker gets them with its claim.
pub open spec fn just_woken(before: SubView, next: SubView, around: SurroundingsView) -> bool {
    &&& next.generation == (if before.generation == u64::MAX {
        0
    } else {
        before.generation + 1
    })
    &&& next.wake_id == Some("w_"@ + crate::subscriptions::encoding::hex_text(around.seed.wake))
    &&& next.wake_delivery_pending
    &&& next.holder is None
    &&& next.lease_nonce != before.lease_nonce
    &&& next.retry_count == 0
    &&& next.next_attempt_at_ms is None
    &&& next.status == SubscriptionStatus::Active
    &&& next.wake_snapshot.dom() == next.streams.dom()
    &&& forall|path: Seq<char>| #[trigger]
        next.streams.contains_key(path) ==> next.wake_snapshot[path] == tail_at(
            around.table,
            next.root,
            path,
        )
    &&& next.config.kind == SubscriptionKind::Webhook ==> {
        &&& next.lease_expires_at_ms == Some(
            if around.now_ms + next.config.lease_ttl_ms > u64::MAX {
                u64::MAX
            } else {
                (around.now_ms + next.config.lease_ttl_ms) as u64
            },
        )
        &&& next.token == Some(
            token_text(
                around.secret,
                next.key(),
                next.generation,
                token_expiry((around.now_ms / 1000) as u64),
                around.seed.token,
            ),
        )
    }
    &&& next.config.kind == SubscriptionKind::PullWake ==> next.lease_expires_at_ms is None
}

/// What stays of a subscription when its wake ends, begins or changes hands.
pub open spec fn same_subscription(before: SubView, next: SubView) -> bool {
    &&& next.id == before.id
    &&& next.root == before.root
    &&& next.config == before.config
    &&& next.callback_base == before.callback_base
    &&& next.created_at == before.created_at
}

/// Whether a subscription is at rest: without a wake, a holder, a lease or a
/// delivery to make.
pub open spec fn at_rest(sub: SubView) -> bool {
    &&& sub.wake_id is None
    &&& sub.holder is None
    &&& sub.token is None
    &&& sub.wake_snapshot.dom() == Set::<Seq<char>>::empty()
    &&& sub.next_attempt_at_ms is None
    &&& sub.lease_expires_at_ms is None
    &&& sub.wake_trigger is None
    &&& !sub.wake_delivery_pending
    &&& sub.retry_count == 0
    &&& sub.status == SubscriptionStatus::Active
}

/// When a wake ends, the subscription rests if nothing is left to read. If
/// something is, the next wake begins at once and is announced. No cursor moves,
/// and the old wake's messages and leases are no longer current.
pub proof fn law_wake_ends_in_rest_or_the_next(sub: SubView, around: SurroundingsView)
    ensures
        ({
            let (next, delivery) = sub.rewoken(
                around.table,
                around.secret,
                around.seed,
                around.now_ms,
            );
            &&& same_subscription(sub, next)
            &&& next.streams == sub.streams
            &&& !sub.has_pending(around.table) ==> {
                &&& delivery is None
                &&& at_rest(next)
                &&& next.generation == sub.generation
                &&& next.lease_nonce != sub.lease_nonce
            }
            &&& sub.has_pending(around.table) ==> {
                &&& next.generation != sub.generation
                &&& just_woken(sub, next, around)
                &&& delivery matches Some(message)
                &&& announces(message, next)
                &&& message matches DeliveryView::PullWake { stream, .. } ==> stream
                    == sub.first_pending(around.table)
                &&& next.wake_trigger == Some(sub.first_pending(around.table))
            }
        }),
{
    lemma_pending_by_links(sub, sub.cleared(), around.table);
    let cleared = sub.cleared();
    let next = sub.rewoken(around.table, around.secret, around.seed, around.now_ms).0;
    assert(next.wake_snapshot.dom() =~= if sub.has_pending(around.table) {
        next.streams.dom()
    } else {
        Set::empty()
    });
    assert((|path: Seq<char>| cleared.pending_at(around.table, path)) =~= (|path: Seq<char>|
        sub.pending_at(around.table, path)));
}

/// A claim that succeeds gives the wake to the worker that asked: it holds the
/// lease from now on and for as long as the subscription says. A wake that is
/// under way is the one it gets; otherwise a new one begins. No cursor moves and
/// no other subscription is touched. The answer tells the worker its token and
/// where every linked stream stands.
pub proof fn law_claim_gives_the_wake_to_its_worker(
    state: StateView,
    key: Seq<char>,
    auth: Result<(), ServiceJwtError>,
    worker: Option<Seq<char>>,
    around: SurroundingsView,
)
    requires
        state.claim(key, auth, worker, around).keep,
    ensures
        ({
            let sub = state.subscriptions[key];
            let step = state.claim(key, auth, worker, around);
            let next = step.state.subscriptions[key];
            let kept = sub.holder is None;
            &&& auth is Ok
            &&& worker matches Some(name) && name.len() > 0
            &&& state.subscriptions.contains_key(key)
            &&& sub.config.kind == SubscriptionKind::PullWake
            &&& sub.holder is Some ==> (sub.lease_expires_at_ms matches Some(end) && end
                <= around.now_ms)
            &&& sub.has_pending(around.table)
            &&& same_subscription(sub, next)
            &&& next.streams == sub.streams
            &&& next.holder == worker
            &&& next.lease_expires_at_ms == Some(
                if around.now_ms + sub.config.lease_ttl_ms > u64::MAX {
                    u64::MAX
                } else {
                    (around.now_ms + sub.config.lease_ttl_ms) as u64
                },
            )
            &&& next.token == Some(
                token_text(
                    around.secret,
                    sub.key(),
                    next.generation,
                    token_expiry((around.now_ms / 1000) as u64),
                    around.seed.token,
                ),
            )
            &&& !next.wake_delivery_pending && next.next_attempt_at_ms is None
            &&& next.retry_count == 0 && next.status == SubscriptionStatus::Active
            &&& next.wake_id is Some
            &&& kept && sub.wake_id is Some ==> {
                &&& next.wake_id == sub.wake_id
                &&& next.generation == sub.generation
                &&& next.wake_snapshot == sub.wake_snapshot
                &&& next.lease_nonce != sub.lease_nonce
            }
            &&& !(kept && sub.wake_id is Some) ==> {
                &&& next.generation != sub.generation
                &&& next.wake_id == Some(
                    "w_"@ + crate::subscriptions::encoding::hex_text(around.seed.wake),
                )
                &&& forall|path: Seq<char>| #[trigger]
                    next.streams.contains_key(path) ==> next.wake_snapshot.contains_key(path)
                        && next.wake_snapshot[path] == tail_at(around.table, next.root, path)
            }
            &&& step.reply == (ReplyView::Claimed {
                wake_id: next.wake_id,
                generation: next.generation,
                token: next.token->0,
                streams: sub.infos(around.table),
                lease_ttl_ms: sub.config.lease_ttl_ms,
            })
            &&& step.delivery is None
            &&& step.lease == Some(
                LeaseView {
                    key: sub.key(),
                    generation: next.generation,
                    wake_id: next.wake_id->0,
                    nonce: next.lease_nonce,
                    expires_at_ms: next.lease_expires_at_ms->0,
                },
            )
            &&& step.state.subscriptions.remove(key) == state.subscriptions.remove(key)
            &&& step.state.wake_streams == state.wake_streams
        }),
{
    let sub = state.subscriptions[key];
    let step = state.claim(key, auth, worker, around);
    let next = step.state.subscriptions[key];
    lemma_pending_by_links(sub, sub.reclaimable(around.now_ms), around.table);
    lemma_same_infos(sub, next, around.table);
    assert(step.state.subscriptions.remove(key) =~= state.subscriptions.remove(key));
}

proof fn lemma_same_infos(a: SubView, b: SubView, table: Map<Seq<char>, StreamStatus>)
    requires
        a.streams == b.streams,
        a.root == b.root,
    ensures
        a.infos(table) == b.infos(table),
{
    assert forall|path: Seq<char>| a.info(table, path) == b.info(table, path) by {}
    assert(a.infos(table) =~= b.infos(table));
}

/// While one worker holds a wake and its lease runs, everyone else is turned
/// away and told who holds it; the claim changes nothing.
pub proof fn law_held_wake_is_not_given_away(
    state: StateView,
    key: Seq<char>,
    worker: Seq<char>,
    other: Seq<char>,
    around: SurroundingsView,
    later: SurroundingsView,
)
    requires
        state.claim(key, Ok(()), Some(worker), around).keep,
        other.len() > 0,
        later.now_ms < state.claim(
            key,
            Ok(()),
            Some(worker),
            around,
        ).state.subscriptions[key].lease_expires_at_ms->0,
    ensures
        ({
            let held = state.claim(key, Ok(()), Some(worker), around).state;
            let again = held.claim(key, Ok(()), Some(other), later);
            &&& !again.keep
            &&& again.state == held
            &&& again.reply == (ReplyView::AlreadyClaimed {
                holder: worker,
                generation: held.subscriptions[key].generation,
            })
            &&& again.lease is None && again.delivery is None
        }),
{
    let held = state.claim(key, Ok(()), Some(worker), around).state;
    let again = held.claim(key, Ok(()), Some(other), later);
    assert(again.state.subscriptions =~= held.subscriptions);
}

/// A claim is refused without an accepted service token, without a worker's
/// name, for a subscription that is not there or is no pull-wake one, while
/// another holds the wake, and where there is nothing to read. In each case no
/// wake begins and no cursor moves.
pub proof fn law_claim_is_refused_without_cause(
    state: StateView,
    key: Seq<char>,
    auth: Result<(), ServiceJwtError>,
    worker: Option<Seq<char>>,
    around: SurroundingsView,
)
    requires
        ({
            let sub = state.subscriptions[key];
            ||| auth is Err
            ||| worker is None
            ||| worker->0.len() == 0
            ||| !state.subscriptions.contains_key(key)
            ||| sub.config.kind == SubscriptionKind::Webhook
            ||| !sub.has_pending(around.table)
            ||| sub.holder is Some && sub.lease_expires_at_ms is None
            ||| sub.holder is Some && sub.lease_expires_at_ms->0 > around.now_ms
        }),
    ensures
        ({
            let step = state.claim(key, auth, worker, around);
            let status = step.reply.status();
            &&& !step.keep
            &&& step.delivery is None && step.lease is None
            &&& 400 <= status < 600
            &&& auth is Ok ==> status != 401 && status != 403 && status != 503
            &&& auth is Ok && worker is Some && worker->0.len() > 0
                && !state.subscriptions.contains_key(key) ==> status == 404
            &&& forall|other: Seq<char>| #[trigger]
                state.subscriptions.contains_key(other) ==> {
                    &&& step.state.subscriptions.contains_key(other)
                    &&& step.state.subscriptions[other].streams
                        == state.subscriptions[other].streams
                    &&& step.state.subscriptions[other].generation
                        == state.subscriptions[other].generation
                }
            &&& step.state.wake_streams == state.wake_streams
        }),
{
    let sub = state.subscriptions[key];
    lemma_pending_by_links(sub, sub.reclaimable(around.now_ms), around.table);
}

/// A report is heard only about the wake that is under way, and only from who
/// has its token: with another generation, another wake, another token or no
/// wake at all it is refused, and changes nothing.
pub proof fn law_stale_report_changes_nothing(
    state: StateView,
    key: Seq<char>,
    kind: SubscriptionKind,
    token: Option<Seq<char>>,
    request: Option<CallbackView>,
    around: SurroundingsView,
)
    requires
        ({
            let sub = state.subscriptions[key];
            ||| token is None
            ||| request is None
            ||| !state.subscriptions.contains_key(key)
            ||| sub.config.kind != kind
            ||| sub.wake_id is None
            ||| request->0.generation != Some(sub.generation)
            ||| request->0.wake_id != sub.wake_id
            ||| !tokens_agree(around.secret, sub.token, token->0)
        }),
    ensures
        ({
            let report = state.callback(key, kind, token, request, around);
            &&& report.state == state && !report.keep
            &&& report.delivery is None && report.lease is None
            &&& 400 <= report.reply.status() < 500
            &&& kind == SubscriptionKind::PullWake ==> {
                let release = state.release(key, token, request, around);
                &&& release.state == state && !release.keep
                &&& release.delivery is None && release.lease is None
                &&& 400 <= release.reply.status() < 500
            }
        }),
{
    match token {
        Some(text) => {
            let verdict = crate::subscriptions::token::token_verdict(
                around.secret,
                key,
                text,
                (around.now_ms / 1000) as u64,
            );
        },
        None => {},
    }
}

/// A report that does not end the wake prolongs it: the same worker goes on with
/// the same wake and token, and its lease starts anew.
pub proof fn law_progress_prolongs_the_wake(
    state: StateView,
    key: Seq<char>,
    kind: SubscriptionKind,
    token: Option<Seq<char>>,
    request: CallbackView,
    around: SurroundingsView,
)
    requires
        state.callback(key, kind, token, Some(request), around).keep,
        !request.done,
    ensures
        ({
            let sub = state.subscriptions[key];
            let step = state.callback(key, kind, token, Some(request), around);
            let next = step.state.subscriptions[key];
            &&& same_subscription(sub, next)
            &&& next.wake_id == sub.wake_id
            &&& next.generation == sub.generation
            &&& next.token == sub.token
            &&& next.holder == sub.holder
            &&& next.wake_snapshot == sub.wake_snapshot
            &&& next.lease_nonce != sub.lease_nonce
            &&& !next.wake_delivery_pending
            &&& next.lease_expires_at_ms == Some(
                if around.now_ms + sub.config.lease_ttl_ms > u64::MAX {
                    u64::MAX
                } else {
                    (around.now_ms + sub.config.lease_ttl_ms) as u64
                },
            )
            &&& step.lease == Some(
                LeaseView {
                    key: sub.key(),
                    generation: sub.generation,
                    wake_id: sub.wake_id->0,
                    nonce: next.lease_nonce,
                    expires_at_ms: next.lease_expires_at_ms->0,
                },
            )
            &&& step.delivery is None
            &&& step.reply == (ReplyView::Acknowledged { next_wake: false })
        }),
{
}

/// A report that ends the wake takes it from its worker. If something is still
/// to be read, the next wake begins and is announced, and the answer says so.
pub proof fn law_done_ends_the_wake(
    state: StateView,
    key: Seq<char>,
    kind: SubscriptionKind,
    token: Option<Seq<char>>,
    request: CallbackView,
    around: SurroundingsView,
)
    requires
        state.callback(key, kind, token, Some(request), around).keep,
        request.done,
    ensures
        ({
            let sub = state.subscriptions[key];
            let step = state.callback(key, kind, token, Some(request), around);
            let next = step.state.subscriptions[key];
            let more = next.has_pending(around.table);
            &&& same_subscription(sub, next)
            &&& next.holder is None
            &&& more <==> next.wake_id is Some
            &&& more <==> step.delivery is Some
            &&& step.reply == (ReplyView::Acknowledged { next_wake: more })
            &&& step.lease is None
            &&& more ==> next.generation != sub.generation && announces(step.delivery->0, next)
            &&& !more ==> at_rest(next)
        }),
{
    let sub = state.subscriptions[key];
    let acked = sub.acked(request.acks);
    let step = state.callback(key, kind, token, Some(request), around);
    let next = step.state.subscriptions[key];
    law_wake_ends_in_rest_or_the_next(acked, around);
    lemma_pending_by_links(acked, next, around.table);
}

/// A webhook that answers that it is done has read what its wake announced, no
/// more and no less: each cursor stands where its stream ended then, unless it
/// stood further already. What came in meanwhile begins the next wake.
pub proof fn law_done_webhook_read_its_wake(
    sub: SubView,
    around: SurroundingsView,
    path: Seq<char>,
)
    requires
        sub.streams.contains_key(path),
    ensures
        ({
            let (next, delivery) = sub.answered(true, around);
            let old = sub.streams[path];
            &&& same_subscription(sub, next)
            &&& next.streams.dom() == sub.streams.dom()
            &&& next.streams[path] == (LinkView {
                acked: if sub.wake_snapshot.contains_key(path) && text_before(
                    old.acked,
                    sub.wake_snapshot[path],
                ) {
                    sub.wake_snapshot[path]
                } else {
                    old.acked
                },
                ..old
            })
            &&& next.holder is None
            &&& next.has_pending(around.table) <==> next.wake_id is Some
            &&& next.has_pending(around.table) <==> delivery is Some
            &&& next.wake_id is Some ==> next.generation != sub.generation
            &&& next.wake_id is None ==> at_rest(next)
            &&& delivery matches Some(message) ==> announces(message, next)
        }),
{
    let read = sub.delivered().snapshot_acknowledged();
    let next = sub.answered(true, around).0;
    law_wake_ends_in_rest_or_the_next(read, around);
    lemma_pending_by_links(read, next, around.table);
    assert(next.streams.dom() =~= sub.streams.dom());
}

/// A webhook that takes its message without saying that it is done keeps its
/// wake: no cursor moves, and the message is not sent again.
pub proof fn law_taken_webhook_keeps_its_wake(sub: SubView, around: SurroundingsView)
    ensures
        ({
            let (next, delivery) = sub.answered(false, around);
            &&& delivery is None
            &&& !next.wake_delivery_pending
            &&& next.next_attempt_at_ms is None
            &&& next.retry_count == 0
            &&& next.status == SubscriptionStatus::Active
            &&& next == (SubView {
                wake_delivery_pending: false,
                next_attempt_at_ms: None,
                retry_count: 0,
                status: SubscriptionStatus::Active,
                ..sub
            })
        }),
{
}

/// A message that could not be delivered is put off, and nothing is lost: the
/// wake, its lease and every cursor stay, and the message is still to be sent, at
/// a time that is not before now and at most the longest delay and a fifth away.
pub proof fn law_failed_delivery_is_put_off(sub: SubView, random: u16, now_ms: u64)
    ensures
        ({
            let next = sub.put_off(random, now_ms);
            &&& next.wake_delivery_pending
            &&& next.status == SubscriptionStatus::Failed
            &&& next.retry_count == (if sub.retry_count == u32::MAX {
                sub.retry_count as int
            } else {
                sub.retry_count + 1
            })
            &&& next.next_attempt_at_ms matches Some(at)
            &&& at >= now_ms
            &&& at <= now_ms + 72_000
            &&& next == (SubView {
                wake_delivery_pending: true,
                status: SubscriptionStatus::Failed,
                retry_count: next.retry_count,
                next_attempt_at_ms: next.next_attempt_at_ms,
                ..sub
            })
        }),
{
    let count = sub.put_off(random, now_ms).retry_count;
    crate::subscriptions::deliveries::law_retry_delay_bounds(count, random);
}

/// What is told about the linked streams is one line for each, in the order of
/// their paths, with the cursor, the end of the stream, and whether something
/// lies between.
pub proof fn law_infos_tell_of_every_stream(
    sub: SubView,
    table: Map<Seq<char>, StreamStatus>,
    path: Seq<char>,
)
    requires
        sub.streams.dom().finite(),
    ensures
        ({
            let infos = sub.infos(table);
            &&& sub.streams.contains_key(path) ==> exists|i: int|
                0 <= i < infos.len() && (#[trigger] infos[i]).path == path
            &&& forall|i: int|
                0 <= i < infos.len() ==> {
                    let info = #[trigger] infos[i];
                    let link = sub.streams[info.path];
                    &&& sub.streams.contains_key(info.path)
                    &&& info.acked == link.acked
                    &&& info.tail == tail_at(table, sub.root, info.path)
                    &&& info.has_pending == sub.pending_at(table, info.path)
                    &&& link.explicit ==> info.link_type == "explicit"@
                    &&& !link.explicit ==> info.link_type == "glob"@
                }
            &&& forall|i: int, j: int|
                0 <= i < j < infos.len() ==> text_before(
                    (#[trigger] infos[i]).path,
                    (#[trigger] infos[j]).path,
                )
        }),
{
    let names = in_order(sub.streams.dom());
    lemma_order_of(sub.streams.dom());
    let infos = sub.infos(table);
    assert(infos.len() == names.len());
    assert forall|i: int| 0 <= i < infos.len() implies (#[trigger] infos[i]) == sub.info(
        table,
        names[i],
    ) && sub.streams.contains_key(names[i]) by {
        assert(names.to_set().contains(names[i]));
    }
    if sub.streams.contains_key(path) {
        assert(names.to_set().contains(path));
        let i = choose|i: int| 0 <= i < names.len() && names[i] == path;
        assert(infos[i].path == path);
    }
}

/// An append never moves a cursor. Only where another stream took the path of
/// the linked one does its cursor go back before the first byte. A stream that
/// the pattern asks for is linked from its first byte. What was named stays
/// linked.
pub proof fn law_append_moves_no_cursor(
    state: StateView,
    table: Map<Seq<char>, StreamStatus>,
    absolute: Seq<char>,
    secret: Seq<u8>,
    seeds: Seq<WakeSeedView>,
    now_ms: u64,
    key: Seq<char>,
    path: Seq<char>,
)
    requires
        state.subscriptions.dom().finite(),
        state.subscriptions.contains_key(key),
    ensures
        ({
            let sub = state.subscriptions[key];
            let after = state.after_append(table, absolute, secret, seeds, now_ms).0;
            let next = after.subscriptions[key];
            let here = relative_path(sub.root, absolute) == Some(path);
            let old = sub.streams[path];
            let new = next.streams[path];
            &&& after.subscriptions.dom() == state.subscriptions.dom()
            &&& after.wake_streams == state.wake_streams
            &&& same_subscription(sub, next)
            &&& sub.streams.contains_key(path) && old.explicit ==> next.streams.contains_key(path)
            &&& sub.streams.contains_key(path) && live_at(table, sub.root, path) is Some
                ==> next.streams.contains_key(path)
            &&& sub.streams.contains_key(path) && next.streams.contains_key(path) && !here ==> new
                == old
            &&& sub.streams.contains_key(path) && next.streams.contains_key(path) ==> {
                let same = match live_at(table, sub.root, path) {
                    Some(status) => old.stream_id == Some(status.id),
                    None => false,
                };
                &&& new.explicit == old.explicit
                &&& new.acked == old.acked || new.acked == "-1"@
                &&& old.stream_id is None || same ==> new.acked == old.acked
                &&& here && old.stream_id is Some && !same && !state.wake_streams.contains_key(
                    absolute,
                ) ==> new.acked == "-1"@
            }
            &&& here && next.streams.contains_key(path) && !state.wake_streams.contains_key(absolute)
                ==> (match live_at(table, sub.root, path) {
                Some(status) => new.stream_id == Some(status.id),
                None => new.stream_id is None,
            })
            &&& !sub.streams.contains_key(path) && next.streams.contains_key(path) ==> {
                &&& here
                &&& sub.config.pattern matches Some(pattern) && matches_glob(pattern, path)
                &&& !state.wake_streams.contains_key(absolute)
                &&& new.acked == "-1"@
                &&& new.glob && !new.explicit
            }
        }),
{
    lemma_key_place(state, key);
    let sub = state.subscriptions[key];
    let after = state.after_append(table, absolute, secret, seeds, now_ms).0;
    assert(after.subscriptions.dom() =~= state.subscriptions.dom());
    let i = state.keys().index_of(key);
    let next = sub.appended(table, absolute, secret, seeds[i], now_ms).0;
    if let Some(at) = relative_path(sub.root, absolute) {
        let followed = sub.followed(table, at);
        let grown = sub.grown(table, at).0;
        assert(next.streams == grown.streams);
    }
}

/// An append to a linked stream with something to read begins a wake, unless one
/// is under way or held; the wake names the stream that was appended to. Every
/// wake that begins is announced, in the order of the subscriptions' keys.
pub proof fn law_append_begins_a_wake(
    state: StateView,
    table: Map<Seq<char>, StreamStatus>,
    absolute: Seq<char>,
    secret: Seq<u8>,
    seeds: Seq<WakeSeedView>,
    now_ms: u64,
    key: Seq<char>,
)
    requires
        state.subscriptions.dom().finite(),
        state.subscriptions.contains_key(key),
        !state.wake_streams.contains_key(absolute),
        relative_path(state.subscriptions[key].root, absolute) matches Some(path)
            && state.subscriptions[key].streams.contains_key(path),
    ensures
        ({
            let sub = state.subscriptions[key];
            let path = relative_path(sub.root, absolute)->0;
            let (after, changed, sent) = state.after_append(table, absolute, secret, seeds, now_ms);
            let next = after.subscriptions[key];
            let around = SurroundingsView {
                table,
                secret,
                seed: seeds[state.keys().index_of(key)],
                now_ms,
            };
            &&& sub.wake_id is None && sub.holder is None && next.has_pending(table) ==> {
                &&& changed
                &&& next.wake_id is Some
                &&& just_woken(sub, next, around)
                &&& next.wake_trigger == Some(path)
                &&& exists|k: int|
                    0 <= k < sent.len() && announces(#[trigger] sent[k], next) && (
                    sent[k] matches DeliveryView::PullWake { stream, .. } ==> stream == path)
            }
            &&& sub.wake_id is Some && !sub.replaced_at(table, path) ==> {
                &&& next.wake_id == sub.wake_id
                &&& next.generation == sub.generation
                &&& next.wake_snapshot == sub.wake_snapshot
                &&& next.token == sub.token
                &&& next.lease_nonce == sub.lease_nonce
                &&& next.lease_expires_at_ms == sub.lease_expires_at_ms
                &&& next.wake_delivery_pending == sub.wake_delivery_pending
            }
            &&& !sub.replaced_at(table, path) ==> next.holder == sub.holder
            &&& !next.has_pending(table) && !sub.replaced_at(table, path) ==> next.generation
                == sub.generation
        }),
{
    lemma_key_place(state, key);
    let sub = state.subscriptions[key];
    let path = relative_path(sub.root, absolute)->0;
    let (after, changed, sent) = state.after_append(table, absolute, secret, seeds, now_ms);
    let next = after.subscriptions[key];
    let i = state.keys().index_of(key);
    let one = state.append_at(i, table, absolute, secret, seeds, now_ms);
    let grown = sub.grown(table, path).0;
    assert(grown.streams == next.streams);
    assert(grown.root == next.root);
    lemma_pending_by_links(grown, next, table);
    let results = |k: int| state.append_at(k, table, absolute, secret, seeds, now_ms).2;
    if sub.wake_id is None && sub.holder is None && next.has_pending(table) {
        assert(one.2 is Some);
        lemma_announced(results, state.keys().len() as int, i);
        assert(results(i) == one.2);
        let k = choose|k: int| 0 <= k < sent.len() && Some(#[trigger] sent[k]) == results(i);
        assert(announces(sent[k], next));
        assert(next.wake_snapshot.dom() =~= next.streams.dom());
        assert(one.1);
    }
}

/// What is sent out is what the single subscriptions have to send: none is left
/// out.
pub proof fn lemma_announced(results: spec_fn(int) -> Option<DeliveryView>, n: int, i: int)
    requires
        0 <= i < n,
        results(i) is Some,
    ensures
        exists|k: int|
            0 <= k < announced(results, n).len() && Some(#[trigger] announced(results, n)[k])
                == results(i),
    decreases n,
{
    let all = announced(results, n);
    let front = announced(results, n - 1);
    if i < n - 1 {
        lemma_announced(results, n - 1, i);
        let k = choose|k: int|
            0 <= k < front.len() && Some(#[trigger] front[k]) == results(i);
        assert(all[k] == front[k]);
    } else {
        assert(Some(all[front.len() as int]) == results(i));
    }
}

/// Nothing is sent out but what a subscription has to send, and there is no
/// message without its subscription.
pub proof fn law_messages_come_from_subscriptions(
    results: spec_fn(int) -> Option<DeliveryView>,
    n: int,
    k: int,
)
    requires
        0 <= k < announced(results, n).len(),
    ensures
        exists|i: int| 0 <= i < n && #[trigger] results(i) == Some(announced(results, n)[k]),
    decreases n,
{
    let front = announced(results, n - 1);
    if k < front.len() {
        law_messages_come_from_subscriptions(results, n - 1, k);
        let i = choose|i: int| 0 <= i < n - 1 && #[trigger] results(i) == Some(front[k]);
        assert(announced(results, n)[k] == front[k]);
        assert(results(i) == Some(announced(results, n)[k]));
    } else {
        assert(results(n - 1) == Some(announced(results, n)[k]));
    }
}

/// Appends to a wake channel, and to streams that a subscription neither is
/// linked to nor asks for, leave it alone.
pub proof fn law_append_leaves_strangers_alone(
    state: StateView,
    table: Map<Seq<char>, StreamStatus>,
    absolute: Seq<char>,
    secret: Seq<u8>,
    seeds: Seq<WakeSeedView>,
    now_ms: u64,
    key: Seq<char>,
)
    requires
        state.subscriptions.dom().finite(),
        state.subscriptions.contains_key(key),
        ({
            let sub = state.subscriptions[key];
            ||| state.wake_streams.contains_key(absolute)
            ||| relative_path(sub.root, absolute) is None
            ||| {
                let path = relative_path(sub.root, absolute)->0;
                &&& !sub.streams.contains_key(path)
                &&& sub.config.pattern is None || !matches_glob(sub.config.pattern->0, path)
            }
        }),
    ensures
        state.after_append(table, absolute, secret, seeds, now_ms).0.subscriptions[key]
            == state.subscriptions[key],
        state.wake_streams.contains_key(absolute) ==> state.after_append(
            table,
            absolute,
            secret,
            seeds,
            now_ms,
        ) == (state, false, Seq::<DeliveryView>::empty()),
{
    lemma_key_place(state, key);
}

/// The retirement of a stream touches only the subscriptions that were linked to
/// that very stream or wake their workers through it. The other links of those
/// keep their cursors.
pub proof fn law_retirement_touches_its_subscribers(
    state: StateView,
    table: Map<Seq<char>, StreamStatus>,
    absolute: Seq<char>,
    stream_id: u64,
    secret: Seq<u8>,
    seeds: Seq<WakeSeedView>,
    now_ms: u64,
    key: Seq<char>,
    path: Seq<char>,
)
    requires
        state.subscriptions.dom().finite(),
        state.subscriptions.contains_key(key),
    ensures
        ({
            let sub = state.subscriptions[key];
            let at = relative_path(sub.root, absolute);
            let after = state.after_retirement(
                table,
                absolute,
                stream_id,
                secret,
                seeds,
                now_ms,
            ).0;
            let next = after.subscriptions[key];
            let linked = at matches Some(p) && sub.streams.contains_key(p)
                && sub.streams[p].stream_id == Some(stream_id);
            let woke = at matches Some(p) && sub.config.wake_stream == Some(p);
            &&& after.subscriptions.dom() == state.subscriptions.dom()
            &&& after.wake_streams == state.wake_streams
            &&& !linked && !woke ==> next == sub
            &&& same_subscription(sub, next)
            &&& sub.streams.contains_key(path) && at != Some(path) ==> next.streams.contains_key(
                path,
            ) && next.streams[path] == sub.streams[path]
            &&& !sub.streams.contains_key(path) ==> !next.streams.contains_key(path)
            &&& linked && at == Some(path) ==> {
                &&& next.streams.contains_key(path) <==> sub.streams[path].explicit
                &&& next.streams.contains_key(path) ==> next.streams[path] == (LinkView {
                    explicit: true,
                    glob: false,
                    acked: "-1"@,
                    stream_id: None,
                })
            }
            &&& !linked && at == Some(path) && sub.streams.contains_key(path)
                ==> next.streams[path] == sub.streams[path] && next.streams.contains_key(path)
        }),
{
    lemma_key_place(state, key);
    let after = state.after_retirement(table, absolute, stream_id, secret, seeds, now_ms).0;
    assert(after.subscriptions.dom() =~= state.subscriptions.dom());
}

/// A retirement ends a wake that announced the stream, or that was called
/// through it, and also one that nobody holds and that has nothing left to read.
/// Any other wake goes on.
pub proof fn law_retirement_ends_its_wakes(
    sub: SubView,
    path: Seq<char>,
    stream_id: u64,
    around: SurroundingsView,
)
    ensures
        ({
            let (next, delivery) = sub.bereft(
                around.table,
                path,
                stream_id,
                around.secret,
                around.seed,
                around.now_ms,
            );
            let announced = sub.config.wake_stream == Some(path) || sub.wake_snapshot.contains_key(
                path,
            );
            let more = next.has_pending(around.table);
            &&& sub.wake_id is Some && announced && more ==> next.generation != sub.generation
                && delivery is Some && announces(delivery->0, next)
            &&& sub.wake_id is Some && announced && !more ==> at_rest(next) && delivery is None
            &&& sub.wake_id is Some && !announced && sub.holder is None && !more ==> at_rest(next)
                && delivery is None
            &&& sub.wake_id is None || (!announced && (sub.holder is Some || more)) ==> next == (
            SubView { streams: next.streams, ..sub }) && delivery is None
        }),
{
    let left = sub.without_stream(path, stream_id);
    let next = sub.bereft(
        around.table,
        path,
        stream_id,
        around.secret,
        around.seed,
        around.now_ms,
    ).0;
    law_wake_ends_in_rest_or_the_next(left, around);
    lemma_pending_by_links(left, next, around.table);
    assert(left.cleared().wake_snapshot.dom() =~= Set::empty());
}

/// A restart goes on with the wake it finds, as long as the streams are the same
/// and its lease is not over: the same worker can report on it, and its lease is
/// watched again. A message that was not delivered is sent again, when its time
/// has come.
pub proof fn law_restart_goes_on_with_the_wake(
    state: StateView,
    table: Map<Seq<char>, StreamStatus>,
    secret: Seq<u8>,
    seeds: Seq<WakeSeedView>,
    now_ms: u64,
    key: Seq<char>,
)
    requires
        state.subscriptions.dom().finite(),
        state.subscriptions.contains_key(key),
        state.subscriptions[key].wake_id is Some,
        forall|path: Seq<char>|
            #![trigger state.subscriptions[key].streams[path]]
            state.subscriptions[key].streams.contains_key(path)
                && state.subscriptions[key].streams[path].stream_id is Some ==> {
                &&& live_at(table, state.subscriptions[key].root, path) matches Some(status)
                &&& state.subscriptions[key].streams[path].stream_id == Some(status.id)
            },
        state.subscriptions[key].lease_expires_at_ms matches Some(end) ==> end > now_ms,
    ensures
        ({
            let sub = state.subscriptions[key];
            let (next, attempt, lease) = state.restart_at(
                state.keys().index_of(key),
                table,
                secret,
                seeds,
                now_ms,
            );
            let webhook = sub.config.kind == SubscriptionKind::Webhook;
            let untold = sub.wake_delivery_pending || (webhook && sub.lease_expires_at_ms is None);
            &&& same_subscription(sub, next)
            &&& next.wake_id == sub.wake_id
            &&& next.generation == sub.generation
            &&& next.token == sub.token
            &&& next.holder == sub.holder
            &&& next.lease_nonce == sub.lease_nonce
            &&& next.wake_snapshot == sub.wake_snapshot
            &&& next.lease_expires_at_ms == sub.lease_expires_at_ms
            &&& next.retry_count == sub.retry_count
            &&& sub.lease_expires_at_ms matches Some(end) ==> lease == Some(
                LeaseView {
                    key: sub.key(),
                    generation: sub.generation,
                    wake_id: sub.wake_id->0,
                    nonce: sub.lease_nonce,
                    expires_at_ms: end,
                },
            )
            &&& sub.lease_expires_at_ms is None ==> lease is None
            &&& untold && (webhook || sub.lease_expires_at_ms is None) && (webhook
                || sub.config.wake_stream is Some) ==> {
                &&& attempt matches Some((message, at))
                &&& announces(message, next)
                &&& message matches DeliveryView::PullWake { stream, .. } ==> (
                sub.wake_trigger matches Some(trigger) ==> stream == trigger)
                &&& at == (match sub.next_attempt_at_ms {
                    Some(time) if sub.wake_delivery_pending => time,
                    _ => now_ms,
                })
            }
            &&& !untold ==> attempt is None
        }),
{
    lemma_key_place(state, key);
    let sub = state.subscriptions[key];
    assert(!sub.any_incarnation_changed(table));
}

/// A wake whose lease ran out while the process was down ends with the restart;
/// what is left to read begins the next one, and is announced at once.
pub proof fn law_restart_ends_a_wake_that_ran_out(sub: SubView, around: SurroundingsView)
    requires
        sub.wake_id is Some,
        sub.lease_expires_at_ms matches Some(end) && end <= around.now_ms,
    ensures
        ({
            let (next, attempt, lease) = sub.resumed(
                around.table,
                around.secret,
                around.seed,
                around.now_ms,
            );
            &&& lease is None
            &&& next.holder is None
            &&& sub.has_pending(around.table) ==> {
                &&& next.generation != sub.generation
                &&& attempt matches Some((message, at))
                &&& at == around.now_ms
                &&& announces(message, next)
            }
            &&& !sub.has_pending(around.table) ==> attempt is None && at_rest(next)
        }),
{
    law_wake_ends_in_rest_or_the_next(sub, around);
}

/// A subscription without a wake that has something to read after a restart is
/// woken, and its wake is announced at once.
pub proof fn law_restart_wakes_for_what_is_unread(sub: SubView, around: SurroundingsView)
    requires
        sub.wake_id is None,
    ensures
        ({
            let (next, attempt, lease) = sub.resumed(
                around.table,
                around.secret,
                around.seed,
                around.now_ms,
            );
            &&& lease is None
            &&& next.streams == sub.streams
            &&& sub.has_pending(around.table) ==> {
                &&& next.generation != sub.generation
                &&& attempt matches Some((message, at))
                &&& at == around.now_ms
                &&& announces(message, next)
                &&& next.wake_snapshot.dom() == sub.streams.dom()
            }
            &&& !sub.has_pending(around.table) ==> attempt is None && next == sub
        }),
{
    let next = sub.resumed(around.table, around.secret, around.seed, around.now_ms).0;
    if sub.has_pending(around.table) {
        assert(next.wake_snapshot.dom() =~= sub.streams.dom());
    }
}

/// A delivery is current exactly as long as its wake is: the same subscription,
/// the same wake, no change of hands since, and not delivered yet. A lease runs
/// exactly as long as nobody renewed it.
pub proof fn law_only_the_current_wake_counts(
    state: StateView,
    id: crate::subscriptions::deliveries::DeliveryIdView,
    lease: LeaseView,
)
    ensures
        state.current(id) <==> {
            let sub = state.subscriptions[id.key];
            &&& state.subscriptions.contains_key(id.key)
            &&& sub.generation == id.generation
            &&& sub.wake_id == Some(id.wake_id)
            &&& sub.lease_nonce == id.nonce
            &&& sub.wake_delivery_pending
        },
        state.lease_runs(lease) <==> {
            let sub = state.subscriptions[lease.key];
            &&& state.subscriptions.contains_key(lease.key)
            &&& sub.generation == lease.generation
            &&& sub.wake_id == Some(lease.wake_id)
            &&& sub.lease_nonce == lease.nonce
            &&& sub.lease_expires_at_ms == Some(lease.expires_at_ms)
        },
{
}

/// The message of a webhook tells which wake it is for, where to report, with
/// which token, and where every linked stream stands.
pub proof fn law_webhook_message_is_faithful(
    sub: SubView,
    table: Map<Seq<char>, StreamStatus>,
)
    ensures
        sub.message(table) is Some <==> sub.config.webhook_url is Some,
        sub.message(table) matches Some(message) ==> {
            &&& sub.config.webhook_url == Some(message.url)
            &&& message.subscription_id == sub.id
            &&& message.wake_id == sub.wake_id
            &&& message.generation == sub.generation
            &&& message.callback_token == sub.token
            &&& message.streams == sub.infos(table)
            &&& message.callback_url == crate::text::trim_end(sub.callback_base, '/') + sub.root
                + "/__ds/subscriptions/"@ + sub.id + "/callback"@
        },
{
}

/// A report whose acknowledgements are wrong is refused as a whole: the wake goes
/// on as it was, and no cursor moves.
pub proof fn law_refused_acks_change_nothing(
    state: StateView,
    key: Seq<char>,
    kind: SubscriptionKind,
    token: Option<Seq<char>>,
    request: CallbackView,
    around: SurroundingsView,
)
    requires
        state.subscriptions[key].ack_complaint(around.table, request.acks) is Some,
    ensures
        ({
            let step = state.callback(key, kind, token, Some(request), around);
            &&& step.state == state
            &&& !step.keep
            &&& step.delivery is None && step.lease is None
            &&& 400 <= step.reply.status() < 500
            &&& state.report_refusal(key, kind, token, Some(request), around) is None
                ==> step.reply.status() == 409
        }),
{
}

/// A report about the wake that is under way, with its own token, is carried out
/// if its acknowledgements are right.
pub proof fn law_current_report_is_carried_out(
    state: StateView,
    key: Seq<char>,
    kind: SubscriptionKind,
    token: Seq<char>,
    request: CallbackView,
    around: SurroundingsView,
)
    requires
        state.subscriptions.contains_key(key),
        ({
            let sub = state.subscriptions[key];
            &&& sub.config.kind == kind
            &&& sub.wake_id is Some
            &&& sub.token == Some(token)
            &&& request.wake_id == sub.wake_id
            &&& request.generation == Some(sub.generation)
            &&& crate::subscriptions::token::token_verdict(
                around.secret,
                key,
                token,
                (around.now_ms / 1000) as u64,
            ) == Ok::<u64, Seq<char>>(sub.generation)
        }),
    ensures
        state.subscriptions[key].ack_complaint(around.table, request.acks) is None
            ==> state.callback(key, kind, Some(token), Some(request), around).keep,
        kind == SubscriptionKind::PullWake ==> state.release(
            key,
            Some(token),
            Some(request),
            around,
        ).keep,
{
    crate::subscriptions::token::law_token_agrees_with_itself(around.secret, token);
}

/// A restart that finds another stream, or none, in the place of one that was
/// linked ends the wake: whoever held it, holds it no more.
pub proof fn law_restart_ends_wakes_of_replaced_streams(
    state: StateView,
    table: Map<Seq<char>, StreamStatus>,
    secret: Seq<u8>,
    seeds: Seq<WakeSeedView>,
    now_ms: u64,
    key: Seq<char>,
    path: Seq<char>,
)
    requires
        state.subscriptions.dom().finite(),
        state.subscriptions.contains_key(key),
        state.subscriptions[key].streams.contains_key(path),
        state.subscriptions[key].streams[path].stream_id is Some,
        match live_at(table, state.subscriptions[key].root, path) {
            Some(status) => state.subscriptions[key].streams[path].stream_id != Some(status.id),
            None => true,
        },
    ensures
        ({
            let sub = state.subscriptions[key];
            let (next, attempt, lease) = state.restart_at(
                state.keys().index_of(key),
                table,
                secret,
                seeds,
                now_ms,
            );
            &&& next.holder is None
            &&& lease is None
            &&& next.wake_id is Some ==> next.generation != sub.generation
            &&& next.wake_id is Some <==> next.has_pending(table)
            &&& next.wake_id is Some <==> attempt is Some
            &&& attempt matches Some((message, at)) ==> at == now_ms && announces(message, next)
        }),
{
    lemma_key_place(state, key);
    let sub = state.subscriptions[key];
    let i = state.keys().index_of(key);
    assert(crate::subscriptions::resume::incarnation_changed(
        sub.streams[path],
        crate::subscriptions::links::id_at(table, sub.root, path),
    ));
    assert(sub.any_incarnation_changed(table));
    let names = crate::subscriptions::links::listed(in_order(table.dom()), table, sub.root);
    let reconciled = sub.reconciled(table, state.wake_streams.dom(), names);
    let next = reconciled.resumed(table, secret, seeds[i], now_ms).0;
    lemma_pending_by_links(reconciled, next, table);
}

/// A stream that the pattern asks for becomes a member with its first append, as
/// long as there is room. And whatever changes among the members, their cursors
/// or the wake is told to be worth keeping.
pub proof fn law_pattern_finds_new_streams(
    state: StateView,
    table: Map<Seq<char>, StreamStatus>,
    absolute: Seq<char>,
    secret: Seq<u8>,
    seeds: Seq<WakeSeedView>,
    now_ms: u64,
    key: Seq<char>,
    path: Seq<char>,
)
    requires
        state.subscriptions.dom().finite(),
        state.subscriptions.contains_key(key),
        !state.wake_streams.contains_key(absolute),
        relative_path(state.subscriptions[key].root, absolute) == Some(path),
    ensures
        ({
            let sub = state.subscriptions[key];
            let (after, changed, sent) = state.after_append(table, absolute, secret, seeds, now_ms);
            let next = after.subscriptions[key];
            let asked = sub.config.pattern matches Some(pattern) && matches_glob(pattern, path);
            &&& asked && (sub.streams.contains_key(path) || sub.streams.dom().len() < 10_000) ==> {
                &&& next.streams.contains_key(path)
                &&& next.streams[path].glob
            }
            &&& !asked || sub.streams.contains_key(path) || sub.streams.dom().len() < 10_000
                ==> sub.streams.dom().subset_of(next.streams.dom())
            &&& next.streams.contains_key(path) && sub.wake_id is None && sub.holder is None
                && next.has_pending(table) ==> {
                &&& changed
                &&& next.wake_id is Some
                &&& next.wake_trigger == Some(path)
                &&& exists|k: int| 0 <= k < sent.len() && announces(#[trigger] sent[k], next)
            }
            &&& !changed ==> {
                &&& next.streams.dom() == sub.streams.dom()
                &&& next.wake_id == sub.wake_id
                &&& next.generation == sub.generation
                &&& next.holder == sub.holder
                &&& forall|p: Seq<char>| #[trigger]
                    sub.streams.contains_key(p) ==> next.streams[p].acked == sub.streams[p].acked
                        && next.streams[p].explicit == sub.streams[p].explicit
                        && next.streams[p].glob == sub.streams[p].glob
            }
        }),
{
    lemma_key_place(state, key);
    let sub = state.subscriptions[key];
    let (after, changed, sent) = state.after_append(table, absolute, secret, seeds, now_ms);
    let next = after.subscriptions[key];
    let i = state.keys().index_of(key);
    let one = state.append_at(i, table, absolute, secret, seeds, now_ms);
    let followed = sub.followed(table, path);
    if sub.streams.contains_key(path) {
        assert(followed.streams.dom() =~= sub.streams.dom());
    }
    if !changed {
        assert(!one.1);
        assert(next.streams.dom() =~= sub.streams.dom());
    }
    let grown = sub.grown(table, path).0;
    lemma_pending_by_links(grown, next, table);
    let results = |k: int| state.append_at(k, table, absolute, secret, seeds, now_ms).2;
    if next.streams.contains_key(path) && sub.wake_id is None && sub.holder is None
        && next.has_pending(table) {
        assert(one.2 is Some);
        assert(results(i) == one.2);
        lemma_announced(results, state.keys().len() as int, i);
        let k = choose|k: int| 0 <= k < sent.len() && Some(#[trigger] sent[k]) == results(i);
        assert(announces(sent[k], next));
    }
}

/// A delivery or a lease that is not current any more changes nothing; a current
/// one changes its own subscription and no other.
pub proof fn law_stale_outcomes_change_nothing(
    state: StateView,
    id: crate::subscriptions::deliveries::DeliveryIdView,
    lease: LeaseView,
    random: u16,
    done: bool,
    around: SurroundingsView,
)
    ensures
        ({
            let told = state.told(id);
            let later = state.told_later(id, random, around.now_ms);
            let answered = state.told_and_answered(id, done, around);
            let ended = state.lease_ended(lease, around);
            &&& !state.current(id) ==> {
                &&& told == state
                &&& later == (state, None::<u64>)
                &&& answered == (state, None::<DeliveryView>)
            }
            &&& !state.lease_runs(lease) ==> ended == (state, None::<DeliveryView>)
            &&& told.subscriptions.remove(id.key) == state.subscriptions.remove(id.key)
            &&& later.0.subscriptions.remove(id.key) == state.subscriptions.remove(id.key)
            &&& answered.0.subscriptions.remove(id.key) == state.subscriptions.remove(id.key)
            &&& ended.0.subscriptions.remove(lease.key) == state.subscriptions.remove(lease.key)
            &&& told.wake_streams == state.wake_streams
            &&& later.0.wake_streams == state.wake_streams
            &&& answered.0.wake_streams == state.wake_streams
            &&& ended.0.wake_streams == state.wake_streams
        }),
{
    let told = state.told(id);
    let later = state.told_later(id, random, around.now_ms);
    let answered = state.told_and_answered(id, done, around);
    let ended = state.lease_ended(lease, around);
    assert(told.subscriptions.remove(id.key) =~= state.subscriptions.remove(id.key));
    assert(later.0.subscriptions.remove(id.key) =~= state.subscriptions.remove(id.key));
    assert(answered.0.subscriptions.remove(id.key) =~= state.subscriptions.remove(id.key));
    assert(ended.0.subscriptions.remove(lease.key) =~= state.subscriptions.remove(lease.key));
}

/// What becomes of a current delivery: one that reached its channel is not made
/// again, and the wake goes on; one that failed is made again, at the time that
/// is told; a webhook that is done ends its wake, and one that is not keeps it.
pub proof fn law_current_delivery_has_its_outcome(
    state: StateView,
    id: crate::subscriptions::deliveries::DeliveryIdView,
    random: u16,
    around: SurroundingsView,
)
    requires
        state.current(id),
    ensures
        ({
            let sub = state.subscriptions[id.key];
            let told = state.told(id);
            let (later, at) = state.told_later(id, random, around.now_ms);
            let (kept, none) = state.told_and_answered(id, false, around);
            let (ended, next) = state.told_and_answered(id, true, around);
            let done = ended.subscriptions[id.key];
            &&& !told.current(id)
            &&& told.subscriptions[id.key].wake_id == sub.wake_id
            &&& told.subscriptions[id.key].streams == sub.streams
            &&& told.subscriptions[id.key].generation == sub.generation
            &&& told.subscriptions[id.key].retry_count == 0
            &&& later.current(id)
            &&& at is Some && later.subscriptions[id.key].next_attempt_at_ms == at
            &&& at->0 >= around.now_ms
            &&& later.subscriptions[id.key].streams == sub.streams
            &&& later.subscriptions[id.key].lease_expires_at_ms == sub.lease_expires_at_ms
            &&& !kept.current(id) && none is None
            &&& kept.subscriptions[id.key].wake_id == sub.wake_id
            &&& kept.subscriptions[id.key].streams == sub.streams
            &&& kept.subscriptions[id.key].token == sub.token
            &&& !ended.current(id)
            &&& done.wake_id is Some ==> done.generation != sub.generation
            &&& next is Some <==> done.has_pending(around.table)
            &&& told.subscriptions[id.key] == sub.answered(false, around).0
            &&& kept.subscriptions[id.key] == sub.answered(false, around).0
            &&& later.subscriptions[id.key] == sub.put_off(random, around.now_ms)
            &&& (done, next) == sub.answered(true, around)
        }),
{
    let sub = state.subscriptions[id.key];
    law_failed_delivery_is_put_off(sub, random, around.now_ms);
    let read = sub.delivered().snapshot_acknowledged();
    law_wake_ends_in_rest_or_the_next(read, around);
    lemma_pending_by_links(
        read,
        state.told_and_answered(id, true, around).0.subscriptions[id.key],
        around.table,
    );
}

/// A lease that runs out takes the wake from its holder without moving a cursor;
/// what is still to be read begins the next wake, which is announced.
pub proof fn law_lease_that_runs_out_is_taken_back(
    state: StateView,
    lease: LeaseView,
    around: SurroundingsView,
)
    requires
        state.lease_runs(lease),
    ensures
        ({
            let sub = state.subscriptions[lease.key];
            let (after, message) = state.lease_ended(lease, around);
            let next = after.subscriptions[lease.key];
            &&& next.streams == sub.streams
            &&& next.holder is None
            &&& !after.lease_runs(lease)
            &&& sub.has_pending(around.table) ==> next.wake_id is Some && next.generation
                != sub.generation && message is Some && announces(message->0, next)
            &&& !sub.has_pending(around.table) ==> at_rest(next) && message is None
        }),
{
    law_wake_ends_in_rest_or_the_next(state.subscriptions[lease.key], around);
}

/// What a worker without an accepted service token is told: that claims are not
/// set up, that its token is missing or invalid, or that it may not claim.
pub proof fn law_refused_worker_is_told_why(
    state: StateView,
    key: Seq<char>,
    error: ServiceJwtError,
    worker: Option<Seq<char>>,
    around: SurroundingsView,
)
    ensures
        ({
            let step = state.claim(key, Err(error), worker, around);
            &&& step.state == state && !step.keep
            &&& step.reply.status() == (match error {
                ServiceJwtError::Unavailable => 503int,
                ServiceJwtError::Missing => 401int,
                ServiceJwtError::Invalid => 401int,
                ServiceJwtError::Forbidden => 403int,
            })
        }),
{
}

/// The retirement of a stream that some subscription is linked to, or wakes its
/// workers through, is not overlooked, as long as no other stream has the path.
pub proof fn law_retirement_is_noticed(
    state: StateView,
    table: Map<Seq<char>, StreamStatus>,
    absolute: Seq<char>,
    stream_id: u64,
    key: Seq<char>,
    path: Seq<char>,
)
    requires
        state.subscriptions.dom().finite(),
        state.subscriptions.contains_key(key),
        relative_path(state.subscriptions[key].root, absolute) == Some(path),
        !table.contains_key(absolute) || table[absolute].id == stream_id,
        ({
            let sub = state.subscriptions[key];
            ||| sub.streams.contains_key(path) && sub.streams[path].stream_id == Some(stream_id)
            ||| sub.config.wake_stream == Some(path)
        }),
    ensures
        state.retirement_matters(table, absolute, stream_id),
{
    lemma_key_place(state, key);
    assert(state.affected_at(state.keys().index_of(key), absolute, stream_id));
}

/// A signature is made over the time and the body together: no other time and no
/// other body have the same signed text.
pub proof fn law_signatures_cover_time_and_body(
    time: u64,
    body: Seq<char>,
    other_time: u64,
    other_body: Seq<char>,
)
    requires
        crate::subscriptions::deliveries::signed_text(time, body)
            == crate::subscriptions::deliveries::signed_text(other_time, other_body),
    ensures
        time == other_time,
        body == other_body,
{
    let a = crate::text::decimal(time as nat);
    let b = crate::text::decimal(other_time as nat);
    let text = a.push('.') + body;
    let other = b.push('.') + other_body;
    assert(text == other);
    crate::text::lemma_decimal_value(time as nat);
    crate::text::lemma_decimal_value(other_time as nat);
    assert(a.len() == b.len()) by {
        if a.len() < b.len() {
            assert(text[a.len() as int] == '.');
            assert(other[a.len() as int] == b[a.len() as int]);
            assert(crate::text::is_digit(b[a.len() as int]));
        }
        if b.len() < a.len() {
            assert(other[b.len() as int] == '.');
            assert(text[b.len() as int] == a[b.len() as int]);
            assert(crate::text::is_digit(a[b.len() as int]));
        }
    }
    assert(a =~= text.take(a.len() as int));
    assert(b =~= other.take(b.len() as int));
    assert(body =~= text.skip((a.len() + 1) as int));
    assert(other_body =~= other.skip((b.len() + 1) as int));
    crate::text::lemma_parse_decimal(time);
    crate::text::lemma_parse_decimal(other_time);
}

/// Work that nobody holds goes to the worker that asks for it, and so does work
/// whose holder let its lease run out.
pub proof fn law_free_work_can_be_claimed(
    state: StateView,
    key: Seq<char>,
    worker: Seq<char>,
    around: SurroundingsView,
)
    requires
        worker.len() > 0,
        state.subscriptions.contains_key(key),
        state.subscriptions[key].config.kind == SubscriptionKind::PullWake,
        state.subscriptions[key].has_pending(around.table),
        state.subscriptions[key].holder is Some ==> (
        state.subscriptions[key].lease_expires_at_ms matches Some(end) && end <= around.now_ms),
    ensures
        state.claim(key, Ok(()), Some(worker), around).keep,
{
    let sub = state.subscriptions[key];
    lemma_pending_by_links(sub, sub.reclaimable(around.now_ms), around.table);
}

/// A report with a token that was not issued for the subscription, or not for its
/// present wake, or that ran out, is refused and changes nothing.
pub proof fn law_report_needs_a_good_token(
    state: StateView,
    key: Seq<char>,
    kind: SubscriptionKind,
    token: Seq<char>,
    request: CallbackView,
    around: SurroundingsView,
)
    requires
        crate::subscriptions::token::token_verdict(
            around.secret,
            key,
            token,
            (around.now_ms / 1000) as u64,
        ) != Ok::<u64, Seq<char>>(state.subscriptions[key].generation),
    ensures
        ({
            let verdict = crate::subscriptions::token::token_verdict(
                around.secret,
                key,
                token,
                (around.now_ms / 1000) as u64,
            );
            let report = state.callback(key, kind, Some(token), Some(request), around);
            let release = state.release(key, Some(token), Some(request), around);
            &&& report.state == state && !report.keep
            &&& report.delivery is None && report.lease is None
            &&& release.state == state && !release.keep
            &&& release.delivery is None && release.lease is None
            &&& verdict is Err ==> report.reply.status() == 401 && release.reply.status() == 401
            &&& 400 <= report.reply.status() < 500
            &&& 400 <= release.reply.status() < 500
        }),
{
}

/// The retirement of a stream does to each subscriber what it does to one alone,
/// and sends out every message that follows from it.
pub proof fn law_retirement_reaches_every_subscriber(
    state: StateView,
    table: Map<Seq<char>, StreamStatus>,
    absolute: Seq<char>,
    stream_id: u64,
    secret: Seq<u8>,
    seeds: Seq<WakeSeedView>,
    now_ms: u64,
    key: Seq<char>,
    path: Seq<char>,
)
    requires
        state.subscriptions.dom().finite(),
        state.subscriptions.contains_key(key),
        relative_path(state.subscriptions[key].root, absolute) == Some(path),
        ({
            let sub = state.subscriptions[key];
            ||| sub.streams.contains_key(path) && sub.streams[path].stream_id == Some(stream_id)
            ||| sub.config.wake_stream == Some(path)
        }),
    ensures
        ({
            let (after, sent) = state.after_retirement(
                table,
                absolute,
                stream_id,
                secret,
                seeds,
                now_ms,
            );
            let (next, message) = state.subscriptions[key].bereft(
                table,
                path,
                stream_id,
                secret,
                seeds[state.keys().index_of(key)],
                now_ms,
            );
            &&& after.subscriptions[key] == next
            &&& message matches Some(delivery) ==> sent.contains(delivery)
        }),
{
    lemma_key_place(state, key);
    let i = state.keys().index_of(key);
    let results = |k: int|
        state.retire_at(k, table, absolute, stream_id, secret, seeds, now_ms).1;
    let sent = state.after_retirement(table, absolute, stream_id, secret, seeds, now_ms).1;
    let one = state.retire_at(i, table, absolute, stream_id, secret, seeds, now_ms);
    assert(results(i) == one.1);
    if one.1 is Some {
        lemma_announced(results, state.keys().len() as int, i);
        let k = choose|k: int| 0 <= k < sent.len() && Some(#[trigger] sent[k]) == results(i);
        assert(sent[k] == one.1->0);
    }
}

/// A restart leaves no work without a wake. A wake that it begins is announced at
/// once, and it begins none where there is no work.
pub proof fn law_restart_leaves_no_work_behind(
    state: StateView,
    table: Map<Seq<char>, StreamStatus>,
    secret: Seq<u8>,
    seeds: Seq<WakeSeedView>,
    now_ms: u64,
    key: Seq<char>,
)
    requires
        state.subscriptions.dom().finite(),
        state.subscriptions.contains_key(key),
    ensures
        ({
            let sub = state.subscriptions[key];
            let (next, attempt, lease) = state.restart_at(
                state.keys().index_of(key),
                table,
                secret,
                seeds,
                now_ms,
            );
            let over = sub.wake_id is None || (sub.lease_expires_at_ms matches Some(end) && end
                <= now_ms);
            &&& state.after_restart(table, secret, seeds, now_ms).subscriptions[key] == next
            &&& state.after_restart(table, secret, seeds, now_ms).subscriptions.dom()
                == state.subscriptions.dom()
            &&& state.after_restart(table, secret, seeds, now_ms).wake_streams == state.wake_streams
            &&& same_subscription(sub, next)
            &&& next.has_pending(table) ==> next.wake_id is Some
            &&& over ==> {
                &&& next.wake_id is Some <==> next.has_pending(table)
                &&& next.wake_id is Some <==> attempt is Some
                &&& next.wake_id is Some ==> next.generation != sub.generation
                &&& attempt matches Some((message, at)) ==> at == now_ms && announces(
                    message,
                    next,
                )
                &&& lease is None
            }
        }),
{
    lemma_key_place(state, key);
    let sub = state.subscriptions[key];
    let i = state.keys().index_of(key);
    let names = crate::subscriptions::links::listed(in_order(table.dom()), table, sub.root);
    let reconciled = sub.reconciled(table, state.wake_streams.dom(), names);
    let next = reconciled.resumed(table, secret, seeds[i], now_ms).0;
    lemma_pending_by_links(reconciled, next, table);
    lemma_pending_by_links(reconciled, reconciled.cleared(), table);
    assert(state.after_restart(table, secret, seeds, now_ms).subscriptions.dom()
        =~= state.subscriptions.dom());
}

/// An append is worth keeping only if it changes something.
pub proof fn law_append_keeps_only_news(
    sub: SubView,
    absolute: Seq<char>,
    around: SurroundingsView,
)
    ensures
        ({
            let (next, changed, message) = sub.appended(
                around.table,
                absolute,
                around.secret,
                around.seed,
                around.now_ms,
            );
            &&& changed ==> next != sub
            &&& message is Some ==> changed && next.wake_id is Some
        }),
{
    if let Some(path) = relative_path(sub.root, absolute) {
        let followed = sub.followed(around.table, path);
        let grown = sub.grown(around.table, path).0;
        if sub.streams.contains_key(path) {
            assert(followed.streams[path].glob == sub.streams[path].glob);
        }
        if sub.replaced_at(around.table, path) {
            assert(grown.streams[path].stream_id != sub.streams[path].stream_id);
        }
    }
}

} // verus!
