//! Where the cursors of a subscription stand, whatever happens to it.

use crate::path_map::{in_order, lemma_order_of};
use crate::store::offset::{law_offset_order, offset_text, OFFSET_LIMIT};
use crate::subscriptions::claims::CallbackView;
use crate::subscriptions::config::{RawCreateView, SubscriptionKind};
use crate::subscriptions::creation::{CreationRulesView, WakeStreamLookup};
use crate::subscriptions::cursors::lemma_target_asked;
use crate::subscriptions::glob::matches_glob;
use crate::subscriptions::links::{listed, live_at, tail_at, LinkView, StreamStatus};
use crate::subscriptions::paths::{absolute_path, key_of};
use crate::subscriptions::reply::ReplyView;
use crate::subscriptions::state::StateView;
use crate::subscriptions::steps::SurroundingsView;
use crate::subscriptions::subscription::{ack_targets, AckView, SubView};
use crate::subscriptions::token::WakeSeedView;
use crate::text::{
    lemma_text_before_asymmetric, lemma_text_before_total, lemma_text_before_transitive,
    text_before,
};
use vstd::prelude::*;

verus! {

/// A linked stream has work exactly if bytes of it lie behind the cursor. A
/// cursor before the first byte leaves every byte to be read.
pub proof fn law_unread_bytes_are_work(
    sub: SubView,
    table: Map<Seq<char>, StreamStatus>,
    path: Seq<char>,
    read: u64,
)
    requires
        sub.streams.contains_key(path),
        table.contains_key(absolute_path(sub.root, path)),
        !table[absolute_path(sub.root, path)].fenced,
        !table[absolute_path(sub.root, path)].expired,
        !table[absolute_path(sub.root, path)].soft_deleted,
        table[absolute_path(sub.root, path)].tail_bytes < OFFSET_LIMIT,
        read < OFFSET_LIMIT,
    ensures
        ({
            let written = table[absolute_path(sub.root, path)].tail_bytes;
            &&& sub.streams[path].acked == offset_text(read) ==> sub.pending_at(table, path) == (
            read < written)
            &&& sub.streams[path].acked == "-1"@ ==> sub.pending_at(table, path) == (written > 0)
            &&& sub.pending_at(table, path) ==> sub.has_pending(table)
        }),
{
    let written = table[absolute_path(sub.root, path)].tail_bytes;
    law_offset_order(read, written);
    law_offset_order(written, 0);
}

/// There is work only where a linked stream is there to be read.
pub proof fn law_work_lies_in_live_streams(
    sub: SubView,
    table: Map<Seq<char>, StreamStatus>,
    path: Seq<char>,
)
    requires
        !sub.streams.contains_key(path) || !table.contains_key(absolute_path(sub.root, path)) || ({
            let status = table[absolute_path(sub.root, path)];
            status.fenced || status.expired || status.soft_deleted
        }),
    ensures
        !sub.pending_at(table, path),
{
}

/// There is work exactly if one of the linked streams has some, and the first
/// of them is the one that is named.
pub proof fn law_work_is_work_of_a_stream(
    sub: SubView,
    table: Map<Seq<char>, StreamStatus>,
    path: Seq<char>,
)
    requires
        sub.streams.dom().finite(),
    ensures
        sub.pending_at(table, path) ==> sub.has_pending(table),
        sub.has_pending(table) ==> sub.pending_at(table, sub.first_pending(table)),
        sub.pending_at(table, path) ==> sub.first_pending(table) == path || text_before(
            sub.first_pending(table),
            path,
        ),
{
    if sub.has_pending(table) {
        let found = choose|p: Seq<char>| sub.pending_at(table, p);
        let names = in_order(sub.streams.dom());
        lemma_order_of(sub.streams.dom());
        assert(names.to_set().contains(found));
        let k = choose|k: int| 0 <= k < names.len() && names[k] == found;
        lemma_first_in_order(sub, table, names, k);
    }
}

proof fn lemma_first_in_order(
    sub: SubView,
    table: Map<Seq<char>, StreamStatus>,
    names: Seq<Seq<char>>,
    k: int,
)
    requires
        names == in_order(sub.streams.dom()),
        names.to_set() == sub.streams.dom(),
        crate::path_map::strictly_sorted(names),
        0 <= k < names.len(),
        sub.pending_at(table, names[k]),
    ensures
        sub.pending_at(table, sub.first_pending(table)),
        forall|path: Seq<char>| #[trigger]
            sub.pending_at(table, path) ==> sub.first_pending(table) == path || text_before(
                sub.first_pending(table),
                path,
            ),
    decreases k,
{
    let p = |path: Seq<char>| sub.pending_at(table, path);
    if exists|j: int| 0 <= j < k && sub.pending_at(table, #[trigger] names[j]) {
        let j = choose|j: int| 0 <= j < k && sub.pending_at(table, #[trigger] names[j]);
        lemma_first_in_order(sub, table, names, j);
    } else {
        assert forall|path: Seq<char>| #[trigger] p(path) implies path == names[k] || text_before(
            names[k],
            path,
        ) by {
            assert(names.to_set().contains(path));
            let j = choose|j: int| 0 <= j < names.len() && names[j] == path;
            assert(sub.pending_at(table, names[j]));
        }
        assert(p(names[k]));
        crate::text::lemma_least_is(p, names[k]);
        assert forall|path: Seq<char>| #[trigger] sub.pending_at(table, path) implies names[k]
            == path || text_before(names[k], path) by {
            assert(p(path));
        }
    }
}

/// The end of a wake and the start of the next one leave the links alone.
proof fn lemma_wakes_keep_links(sub: SubView, around: SurroundingsView)
    ensures
        sub.cleared().streams == sub.streams,
        sub.rewoken(around.table, around.secret, around.seed, around.now_ms).0.streams
            == sub.streams,
        sub.resumed(around.table, around.secret, around.seed, around.now_ms).0.streams
            == sub.streams,
{
}

proof fn lemma_adoption(
    sub: SubView,
    table: Map<Seq<char>, StreamStatus>,
    wake_paths: Set<Seq<char>>,
    names: Seq<Seq<char>>,
    path: Seq<char>,
)
    ensures
        ({
            let links = sub.adopted(table, wake_paths, names);
            &&& sub.streams.contains_key(path) ==> links.contains_key(path) && links[path]
                == sub.streams[path]
            &&& !sub.streams.contains_key(path) && links.contains_key(path) ==> {
                &&& names.contains(path)
                &&& sub.globs(wake_paths, path)
                &&& !links[path].explicit
                &&& links[path].glob
                &&& links[path].acked == "-1"@
                &&& links[path].stream_id == crate::subscriptions::links::id_at(
                    table,
                    sub.root,
                    path,
                )
            }
        }),
    decreases names.len(),
{
    if names.len() > 0 {
        let front = names.drop_last();
        lemma_adoption(sub, table, wake_paths, front, path);
        if front.contains(path) {
            let i = choose|i: int| 0 <= i < front.len() && front[i] == path;
            assert(names[i] == path);
        }
        assert(names[names.len() - 1] == names.last());
    }
}

pub proof fn lemma_key_place(state: StateView, key: Seq<char>)
    requires
        state.subscriptions.dom().finite(),
        state.subscriptions.contains_key(key),
    ensures
        0 <= state.keys().index_of(key) < state.keys().len(),
        state.keys()[state.keys().index_of(key)] == key,
{
    lemma_order_of(state.subscriptions.dom());
    assert(state.keys().to_set().contains(key));
    assert(state.keys().contains(key));
}

/// After a restart every cursor stands where it stood, as long as the stream at
/// its path is still the one it was for, or none was known. With another stream
/// at its path it starts before the first byte. A named stream that is gone
/// stays linked, without a stream, to be read from its first byte when it comes
/// back; a link that nothing asks for any more is dropped.
pub proof fn law_restart_keeps_cursors(
    state: StateView,
    table: Map<Seq<char>, StreamStatus>,
    secret: Seq<u8>,
    seeds: Seq<WakeSeedView>,
    now_ms: u64,
    key: Seq<char>,
    path: Seq<char>,
)
    requires
        state.subscriptions.dom().finite(),
        state.subscriptions.contains_key(key),
        state.subscriptions[key].streams.contains_key(path),
    ensures
        ({
            let sub = state.subscriptions[key];
            let link = sub.streams[path];
            let next = state.after_restart(table, secret, seeds, now_ms).subscriptions[key];
            let asked = sub.config.pattern matches Some(pattern) && matches_glob(pattern, path);
            match live_at(table, sub.root, path) {
                Some(status) => {
                    &&& next.streams.contains_key(path) <==> link.explicit || asked
                    &&& next.streams.contains_key(path) ==> {
                        let after = next.streams[path];
                        &&& link.stream_id is None || link.stream_id == Some(status.id)
                            ==> after.acked == link.acked
                        &&& link.stream_id is Some && link.stream_id != Some(status.id)
                            ==> after.acked == "-1"@
                        &&& after.stream_id == Some(status.id)
                        &&& after.explicit == link.explicit
                        &&& after.glob == asked
                    }
                },
                None => {
                    &&& link.explicit ==> next.streams.contains_key(path) && next.streams[path] == (
                    LinkView { explicit: true, glob: false, acked: "-1"@, stream_id: None })
                    &&& !link.explicit && !asked ==> !next.streams.contains_key(path)
                    &&& next.streams.contains_key(path) ==> next.streams[path].acked == "-1"@
                },
            }
        }),
{
    let sub = state.subscriptions[key];
    lemma_key_place(state, key);
    let i = state.keys().index_of(key);
    let names = listed(in_order(table.dom()), table, sub.root);
    let linked = SubView { streams: sub.recovered_links(table), ..sub };
    let fenced = if sub.any_incarnation_changed(table) {
        linked.cleared()
    } else {
        linked
    };
    lemma_adoption(fenced, table, state.wake_streams.dom(), names, path);
    let reconciled = sub.reconciled(table, state.wake_streams.dom(), names);
    lemma_wakes_keep_links(
        reconciled,
        SurroundingsView { table, secret, seed: seeds[i], now_ms },
    );
}

/// A stream that a restart finds for a pattern is read from its first byte, and
/// only streams that the pattern asks for and that are no wake channels are
/// added.
pub proof fn law_restart_reads_found_streams_whole(
    state: StateView,
    table: Map<Seq<char>, StreamStatus>,
    secret: Seq<u8>,
    seeds: Seq<WakeSeedView>,
    now_ms: u64,
    key: Seq<char>,
    path: Seq<char>,
)
    requires
        state.subscriptions.dom().finite(),
        state.subscriptions.contains_key(key),
        !state.subscriptions[key].streams.contains_key(path),
        state.after_restart(
            table,
            secret,
            seeds,
            now_ms,
        ).subscriptions[key].streams.contains_key(path),
    ensures
        ({
            let sub = state.subscriptions[key];
            let link = state.after_restart(
                table,
                secret,
                seeds,
                now_ms,
            ).subscriptions[key].streams[path];
            &&& sub.config.pattern matches Some(pattern)
            &&& matches_glob(pattern, path)
            &&& sub.config.wake_stream != Some(path)
            &&& !state.wake_streams.contains_key(absolute_path(sub.root, path))
            &&& link.acked == "-1"@
            &&& link.glob
            &&& !link.explicit
            &&& match live_at(table, sub.root, path) {
                Some(status) => link.stream_id == Some(status.id),
                None => link.stream_id is None,
            }
        }),
{
    let sub = state.subscriptions[key];
    lemma_key_place(state, key);
    let i = state.keys().index_of(key);
    let names = listed(in_order(table.dom()), table, sub.root);
    let linked = SubView { streams: sub.recovered_links(table), ..sub };
    let fenced = if sub.any_incarnation_changed(table) {
        linked.cleared()
    } else {
        linked
    };
    lemma_adoption(fenced, table, state.wake_streams.dom(), names, path);
    let reconciled = sub.reconciled(table, state.wake_streams.dom(), names);
    lemma_wakes_keep_links(
        reconciled,
        SurroundingsView { table, secret, seed: seeds[i], now_ms },
    );
}

/// A subscription without a wake and without work, whose streams are all still
/// there and whose pattern asks for no other, has no work after a restart
/// either: it gets no wake, and nothing is sent out for it.
pub proof fn law_settled_subscription_restarts_quietly(
    state: StateView,
    table: Map<Seq<char>, StreamStatus>,
    secret: Seq<u8>,
    seeds: Seq<WakeSeedView>,
    now_ms: u64,
    key: Seq<char>,
)
    requires
        state.subscriptions.dom().finite(),
        state.subscriptions.contains_key(key),
        state.subscriptions[key].wake_id is None,
        !state.subscriptions[key].has_pending(table),
        forall|path: Seq<char>| #[trigger]
            state.subscriptions[key].streams.contains_key(path) ==> {
                let known = state.subscriptions[key].streams[path].stream_id;
                &&& live_at(table, state.subscriptions[key].root, path) matches Some(status)
                &&& known is None || known == Some(status.id)
            },
        forall|name: Seq<char>|
            #![trigger state.subscriptions[key].streams.contains_key(name)]
            listed(in_order(table.dom()), table, state.subscriptions[key].root).contains(name)
                && state.subscriptions[key].globs(state.wake_streams.dom(), name)
                ==> state.subscriptions[key].streams.contains_key(name),
    ensures
        ({
            let sub = state.subscriptions[key];
            let (next, attempt, lease) = state.restart_at(
                state.keys().index_of(key),
                table,
                secret,
                seeds,
                now_ms,
            );
            &&& attempt is None
            &&& lease is None
            &&& next.wake_id is None
            &&& next.generation == sub.generation
            &&& !next.has_pending(table)
        }),
{
    let sub = state.subscriptions[key];
    lemma_key_place(state, key);
    let i = state.keys().index_of(key);
    let names = listed(in_order(table.dom()), table, sub.root);
    assert(!sub.any_incarnation_changed(table));
    let fenced = SubView { streams: sub.recovered_links(table), ..sub };
    let reconciled = sub.reconciled(table, state.wake_streams.dom(), names);
    assert forall|path: Seq<char>| !reconciled.pending_at(table, path) by {
        lemma_adoption(fenced, table, state.wake_streams.dom(), names, path);
        assert(!sub.pending_at(table, path));
        if reconciled.streams.contains_key(path) {
            if !fenced.streams.contains_key(path) {
                assert(sub.streams.contains_key(path));
                assert(sub.pattern_matches(path));
            }
            assert(sub.streams.contains_key(path));
        }
    }
    lemma_wakes_keep_links(
        reconciled,
        SurroundingsView { table, secret, seed: seeds[i], now_ms },
    );
}

/// What a restart takes up again are the deliveries and leases of the single
/// subscriptions: none is left out and none is added.
pub proof fn law_restart_takes_up_every_delivery(
    state: StateView,
    table: Map<Seq<char>, StreamStatus>,
    secret: Seq<u8>,
    seeds: Seq<WakeSeedView>,
    now_ms: u64,
    n: int,
)
    ensures
        ({
            let attempts = state.attempts(n, table, secret, seeds, now_ms);
            let leases = state.leases(n, table, secret, seeds, now_ms);
            &&& forall|i: int|
                0 <= i < n ==> ((#[trigger] state.restart_at(i, table, secret, seeds, now_ms)).1
                    matches Some(attempt) ==> attempts.contains(attempt))
            &&& forall|i: int|
                0 <= i < n ==> ((#[trigger] state.restart_at(i, table, secret, seeds, now_ms)).2
                    matches Some(lease) ==> leases.contains(lease))
            &&& forall|k: int|
                0 <= k < attempts.len() ==> exists|i: int|
                    0 <= i < n && (#[trigger] state.restart_at(i, table, secret, seeds, now_ms)).1
                        == Some(#[trigger] attempts[k])
            &&& forall|k: int|
                0 <= k < leases.len() ==> exists|i: int|
                    0 <= i < n && (#[trigger] state.restart_at(i, table, secret, seeds, now_ms)).2
                        == Some(#[trigger] leases[k])
        }),
    decreases n,
{
    if n > 0 {
        law_restart_takes_up_every_delivery(state, table, secret, seeds, now_ms, n - 1);
        let attempts = state.attempts(n, table, secret, seeds, now_ms);
        let leases = state.leases(n, table, secret, seeds, now_ms);
        let attempts_before = state.attempts(n - 1, table, secret, seeds, now_ms);
        let leases_before = state.leases(n - 1, table, secret, seeds, now_ms);
        let last = state.restart_at(n - 1, table, secret, seeds, now_ms);
        assert forall|i: int| 0 <= i < n implies (#[trigger] state.restart_at(
            i,
            table,
            secret,
            seeds,
            now_ms,
        )).1 matches Some(attempt) ==> attempts.contains(attempt) by {
            let one = state.restart_at(i, table, secret, seeds, now_ms);
            if let Some(attempt) = one.1 {
                if i < n - 1 {
                    let k = choose|k: int|
                        0 <= k < attempts_before.len() && attempts_before[k] == attempt;
                    assert(attempts[k] == attempt);
                } else {
                    assert(attempts[attempts_before.len() as int] == attempt);
                }
            }
        }
        assert forall|i: int| 0 <= i < n implies (#[trigger] state.restart_at(
            i,
            table,
            secret,
            seeds,
            now_ms,
        )).2 matches Some(lease) ==> leases.contains(lease) by {
            let one = state.restart_at(i, table, secret, seeds, now_ms);
            if let Some(lease) = one.2 {
                if i < n - 1 {
                    let k = choose|k: int| 0 <= k < leases_before.len() && leases_before[k] == lease;
                    assert(leases[k] == lease);
                } else {
                    assert(leases[leases_before.len() as int] == lease);
                }
            }
        }
        assert forall|k: int| 0 <= k < attempts.len() implies exists|i: int|
            0 <= i < n && (#[trigger] state.restart_at(i, table, secret, seeds, now_ms)).1 == Some(
                #[trigger] attempts[k],
            ) by {
            if k < attempts_before.len() {
                assert(attempts_before[k] == attempts[k]);
            } else {
                assert(last.1 == Some(attempts[k]));
            }
        }
        assert forall|k: int| 0 <= k < leases.len() implies exists|i: int|
            0 <= i < n && (#[trigger] state.restart_at(i, table, secret, seeds, now_ms)).2 == Some(
                #[trigger] leases[k],
            ) by {
            if k < leases_before.len() {
                assert(leases_before[k] == leases[k]);
            } else {
                assert(last.2 == Some(leases[k]));
            }
        }
    }
}

/// The furthest of several positions for a stream is at least each of them.
proof fn lemma_target_is_furthest(acks: Seq<AckView>, i: int)
    requires
        0 <= i < acks.len(),
    ensures
        ack_targets(acks).contains_key(acks[i].stream),
        !text_before(ack_targets(acks)[acks[i].stream], acks[i].offset),
    decreases acks.len(),
{
    let front = ack_targets(acks.drop_last());
    let last = acks.last();
    lemma_text_before_asymmetric(last.offset, last.offset);
    if i < acks.len() - 1 {
        assert(acks.drop_last()[i] == acks[i]);
        lemma_target_is_furthest(acks.drop_last(), i);
        let old = front[acks[i].stream];
        if last.stream == acks[i].stream && text_before(old, last.offset) {
            if text_before(last.offset, acks[i].offset) {
                lemma_text_before_transitive(old, last.offset, acks[i].offset);
            }
        }
    }
}

/// Every accepted acknowledgement is carried out, wherever it stands in the
/// list: its stream is linked, the cursor is not before its position, and it is
/// at a position that was acknowledged for that stream.
pub proof fn law_accepted_acks_are_carried_out(
    sub: SubView,
    table: Map<Seq<char>, StreamStatus>,
    acks: Seq<AckView>,
    i: int,
)
    requires
        sub.ack_complaint(table, acks) is None,
        0 <= i < acks.len(),
    ensures
        sub.streams.contains_key(acks[i].stream),
        sub.acked(acks).streams.contains_key(acks[i].stream),
        !text_before(sub.acked(acks).streams[acks[i].stream].acked, acks[i].offset),
        exists|k: int|
            0 <= k < acks.len() && (#[trigger] acks[k]).stream == acks[i].stream && acks[k].offset
                == sub.acked(acks).streams[acks[i].stream].acked,
        !text_before(tail_at(table, sub.root, acks[i].stream), acks[i].offset),
{
    let stream = acks[i].stream;
    lemma_target_is_furthest(acks, i);
    lemma_target_asked(acks, stream);
    assert(!sub.ack_wrong(table, ack_targets(acks), stream));
    let tail = tail_at(table, sub.root, stream);
    let target = ack_targets(acks)[stream];
    if text_before(tail, acks[i].offset) {
        lemma_text_before_total(target, acks[i].offset);
        if target != acks[i].offset {
            lemma_text_before_transitive(tail, acks[i].offset, target);
        }
    }
}

/// A list of acknowledgements is refused, and moves nothing, if one of them,
/// wherever it stands, is for a stream that is not linked, or past the end of
/// its stream; or if all those for one stream are behind its cursor.
pub proof fn law_wrong_acks_are_refused(
    sub: SubView,
    table: Map<Seq<char>, StreamStatus>,
    acks: Seq<AckView>,
    i: int,
)
    requires
        0 <= i < acks.len(),
        ({
            ||| !sub.streams.contains_key(acks[i].stream)
            ||| text_before(tail_at(table, sub.root, acks[i].stream), acks[i].offset)
            ||| forall|k: int|
                0 <= k < acks.len() && (#[trigger] acks[k]).stream == acks[i].stream
                    ==> text_before(acks[k].offset, sub.streams[acks[i].stream].acked)
        }),
    ensures
        sub.ack_complaint(table, acks) is Some,
{
    if sub.ack_complaint(table, acks) is None {
        law_accepted_acks_are_carried_out(sub, table, acks, i);
        lemma_target_is_furthest(acks, i);
        lemma_target_asked(acks, acks[i].stream);
        assert(!sub.ack_wrong(table, ack_targets(acks), acks[i].stream));
    }
}

/// Acknowledgements are accepted if each is a position in a linked stream that
/// is neither behind the cursor nor past the end.
pub proof fn law_sound_acks_are_accepted(
    sub: SubView,
    table: Map<Seq<char>, StreamStatus>,
    acks: Seq<AckView>,
)
    requires
        forall|i: int|
            0 <= i < acks.len() ==> {
                let ack = #[trigger] acks[i];
                &&& crate::store::offset::offset_denotes(Some(ack.offset)) matches Some(
                    crate::store::offset::ParsedOffset::At(_),
                )
                &&& sub.streams.contains_key(ack.stream)
                &&& !text_before(ack.offset, sub.streams[ack.stream].acked)
                &&& !text_before(tail_at(table, sub.root, ack.stream), ack.offset)
            },
    ensures
        sub.ack_complaint(table, acks) is None,
{
    let targets = ack_targets(acks);
    assert forall|stream: Seq<char>| !sub.ack_wrong(table, targets, stream) by {
        if targets.contains_key(stream) {
            lemma_target_asked(acks, stream);
        }
    }
}

/// A report that is accepted moves the cursor of every stream it acknowledges at
/// least to the acknowledged position, and no other cursor. It touches no other
/// subscription.
pub proof fn law_report_moves_the_named_cursors(
    state: StateView,
    key: Seq<char>,
    kind: SubscriptionKind,
    token: Option<Seq<char>>,
    request: CallbackView,
    around: SurroundingsView,
    path: Seq<char>,
)
    requires
        state.callback(key, kind, token, Some(request), around).keep,
    ensures
        ({
            let before = state.subscriptions[key].streams;
            let after = state.callback(key, kind, token, Some(request), around).state;
            let links = after.subscriptions[key].streams;
            &&& links.dom() == before.dom()
            &&& forall|i: int|
                0 <= i < request.acks.len() ==> {
                    let ack = #[trigger] request.acks[i];
                    &&& links.contains_key(ack.stream)
                    &&& !text_before(links[ack.stream].acked, ack.offset)
                }
            &&& (forall|i: int|
                0 <= i < request.acks.len() ==> (#[trigger] request.acks[i]).stream != path)
                && before.contains_key(path) ==> links[path] == before[path]
            &&& before.contains_key(path) ==> links[path] == (LinkView {
                acked: links[path].acked,
                ..before[path]
            }) && !text_before(links[path].acked, before[path].acked)
            &&& after.subscriptions.remove(key) == state.subscriptions.remove(key)
            &&& after.wake_streams == state.wake_streams
        }),
{
    let sub = state.subscriptions[key];
    let acks = request.acks;
    let after = state.callback(key, kind, token, Some(request), around).state;
    let links = after.subscriptions[key].streams;
    lemma_wakes_keep_links(sub.acked(acks), around);
    assert(links == sub.acked(acks).streams);
    assert(links.dom() =~= sub.streams.dom());
    assert forall|i: int| 0 <= i < acks.len() implies links.contains_key(
        (#[trigger] acks[i]).stream,
    ) && !text_before(links[acks[i].stream].acked, acks[i].offset) by {
        law_accepted_acks_are_carried_out(sub, around.table, acks, i);
    }
    if sub.streams.contains_key(path) {
        crate::subscriptions::cursors::law_acks_never_regress(sub, around.table, acks, path);
    }
    assert(after.subscriptions.remove(key) =~= state.subscriptions.remove(key));
}

/// A worker that gives its wake back leaves every cursor where it was. What was
/// to be read is then offered again, by a new wake that is sent out.
pub proof fn law_release_moves_no_cursor(
    state: StateView,
    key: Seq<char>,
    token: Option<Seq<char>>,
    request: Option<CallbackView>,
    around: SurroundingsView,
)
    requires
        state.subscriptions.contains_key(key),
    ensures
        ({
            let sub = state.subscriptions[key];
            let step = state.release(key, token, request, around);
            let next = step.state.subscriptions[key];
            &&& step.state.subscriptions.contains_key(key)
            &&& next.streams == sub.streams
            &&& next.config == sub.config
            &&& step.keep && sub.has_pending(around.table) ==> {
                &&& next.has_pending(around.table)
                &&& next.wake_id is Some
                &&& next.generation != sub.generation
                &&& step.delivery matches Some(delivery)
                &&& delivery.id().wake_id == next.wake_id->0
                &&& delivery.id().generation == next.generation
                &&& delivery.id().nonce == next.lease_nonce
                &&& next.wake_delivery_pending
            }
            &&& step.keep && !sub.has_pending(around.table) ==> next.wake_id is None
                && step.delivery is None
            &&& step.keep ==> next.holder is None && step.lease is None
            &&& step.state.subscriptions.remove(key) == state.subscriptions.remove(key)
            &&& step.state.wake_streams == state.wake_streams
        }),
{
    let sub = state.subscriptions[key];
    let step = state.release(key, token, request, around);
    lemma_pending_by_links(sub, sub.cleared(), around.table);
    lemma_pending_by_links(sub, step.state.subscriptions[key], around.table);
    assert(step.state.subscriptions.remove(key) =~= state.subscriptions.remove(key));
}

/// Work depends on the links alone.
pub proof fn lemma_pending_by_links(a: SubView, b: SubView, table: Map<Seq<char>, StreamStatus>)
    requires
        a.streams == b.streams,
        a.root == b.root,
    ensures
        a.has_pending(table) == b.has_pending(table),
{
    assert forall|path: Seq<char>| a.pending_at(table, path) == b.pending_at(table, path) by {}
    if a.has_pending(table) {
        let path = choose|path: Seq<char>| a.pending_at(table, path);
        assert(b.pending_at(table, path));
    }
    if b.has_pending(table) {
        let path = choose|path: Seq<char>| b.pending_at(table, path);
        assert(a.pending_at(table, path));
    }
}

/// A new subscription starts at the end of every stream it is linked to, whether
/// the stream was named or found by the pattern: what was written before is not
/// work for it.
pub proof fn law_new_subscription_starts_at_the_end(
    state: StateView,
    root: Seq<char>,
    id: Seq<char>,
    raw: RawCreateView,
    found: WakeStreamLookup,
    rules: CreationRulesView,
    created_at: Seq<char>,
    table: Map<Seq<char>, StreamStatus>,
    path: Seq<char>,
)
    requires
        state.create(root, id, Some(raw), found, rules, created_at, table).keep,
    ensures
        ({
            let step = state.create(root, id, Some(raw), found, rules, created_at, table);
            let sub = step.state.subscriptions[key_of(root, id)];
            &&& step.reply matches ReplyView::Described { status, .. } && status == 201
            &&& step.state.subscriptions.contains_key(key_of(root, id))
            &&& sub.streams.contains_key(path) ==> {
                &&& sub.streams[path].acked == tail_at(table, root, path)
                &&& match live_at(table, root, path) {
                    Some(status) => {
                        &&& sub.streams[path].acked == offset_text(status.tail_bytes)
                        &&& sub.streams[path].stream_id == Some(status.id)
                    },
                    None => sub.streams[path].stream_id is None,
                }
            }
            &&& !sub.has_pending(table)
            &&& sub.wake_id is None
            &&& sub.holder is None
            &&& sub.root == root
            &&& sub.id == id
            &&& step.delivery is None
            &&& step.lease is None
        }),
{
    let step = state.create(root, id, Some(raw), found, rules, created_at, table);
    let sub = step.state.subscriptions[key_of(root, id)];
    assert forall|p: Seq<char>| !sub.pending_at(table, p) by {
        let tail = tail_at(table, root, p);
        lemma_text_before_asymmetric(tail, tail);
    }
}

} // verus!
