//! The rules for names, patterns, targets, tokens, keys and kept state.

use crate::clock::Moment;
use crate::store::offset::offset_text;
use crate::subscriptions::config::{
    create_complaint, optional_path, pattern_ok, trimmed_paths, RawCreateView,
};
use crate::subscriptions::crypto::hmac_sha256;
use crate::subscriptions::encoding::hex_bytes;
use crate::subscriptions::glob::segments_match;
use crate::subscriptions::ip::{ip_value, is_loopback_ip, is_public_ip, IpView};
use crate::subscriptions::keys::{due_index, KeyView, RingView};
use crate::subscriptions::links::{id_at, live_at, tail_at, StreamStatus};
use crate::subscriptions::paths::{absolute_path, valid_stream_path};
use crate::subscriptions::secrets::{lemma_active_needed, lemma_due, lemma_filtered};
use crate::subscriptions::startup::{by_key, first_fault, kept_sub_valid, state_fault};
use crate::subscriptions::state::StateView;
use crate::subscriptions::subscription::SubView;
use crate::subscriptions::token::{signed_message, token_expiry, token_verdict};
use crate::subscriptions::wake_laws::{at_rest, same_subscription};
use crate::subscriptions::webhook::{address_allowed, bare_host, target_complaint, UrlView};
use crate::text::{ascii_lower, join_with, parsed_u64, split_on, trim_both, utf8_len};
use vstd::prelude::*;

verus! {

/// A stream counts for subscriptions exactly if it is at its path below the root
/// and neither on its way out, nor past its time, nor deleted. Where none is, its
/// end is the beginning.
pub proof fn law_live_streams_count(
    table: Map<Seq<char>, StreamStatus>,
    root: Seq<char>,
    path: Seq<char>,
)
    ensures
        ({
            let at = absolute_path(root, path);
            let there = table.contains_key(at) && !table[at].fenced && !table[at].expired
                && !table[at].soft_deleted;
            &&& there ==> {
                &&& live_at(table, root, path) == Some(table[at])
                &&& id_at(table, root, path) == Some(table[at].id)
                &&& tail_at(table, root, path) == offset_text(table[at].tail_bytes)
            }
            &&& !there ==> {
                &&& live_at(table, root, path) is None
                &&& id_at(table, root, path) is None
                &&& tail_at(table, root, path) == offset_text(0)
            }
        }),
{
}

/// A request is accepted exactly if it names a kind, asks for something, keeps
/// within the bounds, and has the target of its kind and no other.
pub proof fn law_sound_request_is_accepted(raw: RawCreateView)
    ensures
        create_complaint(raw) is None <==> {
            let webhook = raw.kind == "webhook"@;
            let pull = raw.kind == "pull-wake"@;
            let pattern = optional_path(raw.pattern);
            let streams = trimmed_paths(raw.streams);
            let wake = optional_path(raw.wake_stream);
            &&& webhook || pull
            &&& pattern is Some || streams.len() > 0
            &&& pattern matches Some(p) ==> pattern_ok(p)
            &&& streams.len() <= 10_000
            &&& forall|i: int| 0 <= i < streams.len() ==> valid_stream_path(#[trigger] streams[i])
            &&& 1_000 <= raw.lease_ttl_ms <= 600_000
            &&& webhook ==> raw.webhook_url is Some && raw.webhook_url->0.len() > 0 && wake is None
            &&& !webhook ==> raw.webhook_url is None && wake is Some
            &&& wake matches Some(w) ==> valid_stream_path(w) && !streams.contains(w)
            &&& raw.description matches Some(d) ==> utf8_len(d) <= 4_096
        },
        optional_path(raw.pattern) is Some <==> raw.pattern is Some && raw.pattern->0.len() > 0,
        optional_path(raw.pattern) matches Some(p) ==> p == trim_both(raw.pattern->0, '/'),
        trimmed_paths(raw.streams).len() == raw.streams.len(),
        forall|i: int|
            0 <= i < raw.streams.len() ==> #[trigger] trimmed_paths(raw.streams)[i] == trim_both(
                raw.streams[i],
                '/',
            ),
{
    reveal_strlit("webhook");
    reveal_strlit("pull-wake");
    assert("webhook"@.len() != "pull-wake"@.len());
}

/// Patterns that match two paths match them one behind the other.
pub proof fn law_patterns_match_piece_by_piece(
    front: Seq<Seq<char>>,
    back: Seq<Seq<char>>,
    first: Seq<Seq<char>>,
    rest: Seq<Seq<char>>,
)
    requires
        segments_match(front, first),
        segments_match(back, rest),
    ensures
        segments_match(front + back, first + rest),
    decreases back.len(),
{
    if back.len() == 0 {
        assert(front + back =~= front);
        assert(first + rest =~= first);
    } else {
        let whole = front + back;
        let path = first + rest;
        assert(whole.last() == back.last());
        assert(whole.drop_last() =~= front + back.drop_last());
        if back.last() == "**"@ {
            let k = choose|k: int|
                0 <= k <= rest.len() && segments_match(back.drop_last(), #[trigger] rest.take(k));
            law_patterns_match_piece_by_piece(front, back.drop_last(), first, rest.take(k));
            assert(path.take(first.len() + k) =~= first + rest.take(k));
        } else {
            law_patterns_match_piece_by_piece(front, back.drop_last(), first, rest.drop_last());
            assert(path.drop_last() =~= first + rest.drop_last());
            assert(path.last() == rest.last());
        }
    }
}

/// Two stars alone match every path; without stars at its end a pattern fixes the
/// last segment.
pub proof fn law_two_stars_match_everything(
    pattern: Seq<Seq<char>>,
    path: Seq<Seq<char>>,
    name: Seq<char>,
    segment: Seq<char>,
)
    requires
        name != "*"@,
        name != "**"@,
    ensures
        segments_match(seq!["**"@], path),
        segments_match(pattern.push(name), path.push(segment)) <==> name == segment
            && segments_match(pattern, path),
        !segments_match(pattern.push(name), Seq::empty()),
        segments_match(Seq::empty(), path) <==> path.len() == 0,
{
    assert(seq!["**"@].drop_last() =~= Seq::<Seq<char>>::empty());
    assert(path.take(0) =~= Seq::<Seq<char>>::empty());
    assert(segments_match(Seq::<Seq<char>>::empty(), path.take(0)));
    assert(pattern.push(name).drop_last() =~= pattern);
    assert(path.push(segment).drop_last() =~= path);
}

/// A webhook may go exactly where the rules allow: over HTTPS to a name or a
/// public address, or, where that is allowed, over plain HTTP to this machine;
/// never with credentials or a fragment.
pub proof fn law_targets_follow_the_rules(url: UrlView, allow_local: bool)
    ensures
        target_complaint(url, allow_local) is None <==> {
            let host = ascii_lower(url.host->0);
            let ip = ip_value(bare_host(host));
            &&& url.username.len() == 0 && !url.has_password && !url.has_fragment
            &&& url.host is Some
            &&& ({
                ||| url.scheme == "https"@ && host != "localhost"@ && (ip is None || is_public_ip(
                    ip->0,
                ))
                ||| url.scheme == "http"@ && allow_local && (host == "localhost"@ || (
                ip matches Some(IpView::V4(octets)) && octets[0] == 127))
            })
        },
{
    reveal_strlit("http");
    reveal_strlit("https");
    assert("http"@.len() != "https"@.len());
}

/// No address of a private, local, shared or reserved network is public, nor one
/// of the next version that stands for an address of the old one.
pub proof fn law_private_networks_are_not_public(b: u8, c: u8, d: u8, pieces: Seq<u16>)
    requires
        pieces.len() == 8,
    ensures
        !is_public_ip(IpView::V4(seq![0u8, b, c, d])),
        !is_public_ip(IpView::V4(seq![10u8, b, c, d])),
        !is_public_ip(IpView::V4(seq![127u8, b, c, d])),
        16 <= b <= 31 ==> !is_public_ip(IpView::V4(seq![172u8, b, c, d])),
        !is_public_ip(IpView::V4(seq![192u8, 168u8, c, d])),
        !is_public_ip(IpView::V4(seq![169u8, 254u8, c, d])),
        64 <= b <= 127 ==> !is_public_ip(IpView::V4(seq![100u8, b, c, d])),
        !is_public_ip(IpView::V4(seq![192u8, 0u8, c, d])),
        !is_public_ip(IpView::V4(seq![198u8, 18u8, c, d])),
        !is_public_ip(IpView::V4(seq![198u8, 19u8, c, d])),
        !is_public_ip(IpView::V4(seq![198u8, 51u8, 100u8, d])),
        !is_public_ip(IpView::V4(seq![203u8, 0u8, 113u8, d])),
        b >= 224 ==> !is_public_ip(IpView::V4(seq![b, c, d, d])),
        1 <= b <= 9 || 11 <= b <= 99 || 128 <= b <= 168 || 204 <= b <= 223 ==> is_public_ip(
            IpView::V4(seq![b, c, d, d]),
        ),
        pieces[0] < 0x2000 || pieces[0] > 0x3fff ==> !is_public_ip(IpView::V6(pieces)),
        pieces[0] == 0x2002 ==> !is_public_ip(IpView::V6(pieces)),
        pieces[0] == 0x2001 && (pieces[1] == 0 || pieces[1] == 0x0db8) ==> !is_public_ip(
            IpView::V6(pieces),
        ),
        0x2003 <= pieces[0] <= 0x3fff ==> is_public_ip(IpView::V6(pieces)),
{
}

/// A delivery for local development reaches this machine and nothing else; any
/// other one reaches public addresses and nothing else.
pub proof fn law_delivery_reaches_what_it_may(ip: IpView)
    ensures
        address_allowed(ip, true) <==> is_loopback_ip(ip),
        address_allowed(ip, false) <==> is_public_ip(ip),
        !(address_allowed(ip, true) && address_allowed(ip, false)),
{
}

/// An accepted token was signed with the secret for this very subscription, it
/// carries the generation that is read from it, and it is not past its end.
pub proof fn law_accepted_token_was_signed(
    secret: Seq<u8>,
    key: Seq<char>,
    token: Seq<char>,
    now_secs: u64,
)
    requires
        token_verdict(secret, key, token, now_secs) is Ok,
    ensures
        exists|parts: Seq<Seq<char>>|
            {
                let unsigned = parts[0].push('.') + (parts[1].push('.') + parts[2]);
                &&& parts.len() == 4
                &&& token == #[trigger] join_with(parts, '.')
                &&& hex_bytes(parts[3]) == Some(hmac_sha256(secret, signed_message(key, unsigned)))
                &&& parsed_u64(parts[0]) == Some(token_verdict(secret, key, token, now_secs)->Ok_0)
                &&& parsed_u64(parts[1]) matches Some(end) && now_secs <= end
            },
{
    let parts = split_on(token, '.');
    crate::text::law_join_undoes_split(token, '.');
    assert(token == join_with(parts, '.'));
}

/// A token lasts an hour.
pub proof fn law_token_lasts_an_hour(now_secs: u64)
    requires
        now_secs <= u64::MAX - 3_600,
    ensures
        token_expiry(now_secs) == now_secs + 3_600,
{
}

/// Kept state that passes has every subscription that was kept, under its own
/// name, with its links and cursors. One in the middle of a wake goes on with it;
/// any other is at rest. Nothing else is there.
pub proof fn law_kept_subscriptions_come_back(
    version: u32,
    subs: Seq<SubView>,
    allow_local: bool,
    i: int,
)
    requires
        state_fault(version, subs, allow_local) is None,
        0 <= i < subs.len(),
    ensures
        ({
            let loaded = by_key(subs);
            let sub = subs[i];
            let next = loaded[sub.key()];
            &&& loaded.contains_key(sub.key())
            &&& same_subscription(sub, next)
            &&& next.streams == sub.streams
            &&& next.generation == sub.generation
            &&& sub.wake_id is Some ==> next == sub
            &&& sub.wake_id is None ==> at_rest(next)
            &&& version == 1
            &&& subs.len() <= 4_096
            &&& kept_sub_valid(sub, allow_local)
            &&& loaded.dom() == subs.map_values(|s: SubView| s.key()).to_set()
        }),
{
    lemma_loaded(subs, allow_local, i);
    lemma_loaded_names(subs);
    let next = by_key(subs)[subs[i].key()];
    if subs[i].wake_id is None {
        assert(next.wake_snapshot.dom() =~= Set::<Seq<char>>::empty());
    }
}

proof fn lemma_loaded(subs: Seq<SubView>, allow_local: bool, i: int)
    requires
        first_fault(subs, allow_local) is None,
        0 <= i < subs.len(),
    ensures
        by_key(subs).contains_key(subs[i].key()),
        by_key(subs)[subs[i].key()] == crate::subscriptions::startup::taken_over(subs[i]),
        kept_sub_valid(subs[i], allow_local),
    decreases subs.len(),
{
    let front = subs.drop_last();
    if i < front.len() {
        lemma_loaded(front, allow_local, i);
        assert(front[i] == subs[i]);
    }
}

proof fn lemma_loaded_names(subs: Seq<SubView>)
    ensures
        by_key(subs).dom() == subs.map_values(|s: SubView| s.key()).to_set(),
    decreases subs.len(),
{
    let names = subs.map_values(|s: SubView| s.key());
    if subs.len() == 0 {
        assert(by_key(subs).dom() =~= names.to_set());
    } else {
        let front = subs.drop_last();
        let before = front.map_values(|s: SubView| s.key());
        lemma_loaded_names(front);
        assert(names =~= before.push(subs.last().key()));
        assert forall|name: Seq<char>| by_key(subs).dom().contains(name)
            == names.to_set().contains(name) by {
            if before.contains(name) {
                let k = choose|k: int| 0 <= k < before.len() && before[k] == name;
                assert(names[k] == name);
            }
            assert(names[names.len() - 1] == subs.last().key());
            if names.contains(name) {
                let k = choose|k: int| 0 <= k < names.len() && names[k] == name;
                if k < before.len() {
                    assert(before[k] == name);
                }
            }
            assert(before.contains(name) <==> before.to_set().contains(name));
        }
        assert(by_key(subs).dom() =~= names.to_set());
    }
}

/// Two kept subscriptions of one name are a fault, and so is one that would not
/// be accepted.
pub proof fn law_faulty_state_is_refused(
    version: u32,
    subs: Seq<SubView>,
    allow_local: bool,
    i: int,
    j: int,
)
    requires
        0 <= i < subs.len(),
        ({
            ||| !kept_sub_valid(subs[i], allow_local)
            ||| i < j < subs.len() && subs[i].key() == subs[j].key()
            ||| version != 1
            ||| subs.len() > 4_096
        }),
    ensures
        state_fault(version, subs, allow_local) is Some,
{
    if state_fault(version, subs, allow_local) is None {
        lemma_loaded(subs, allow_local, i);
        if i < j < subs.len() && subs[i].key() == subs[j].key() {
            lemma_no_repeats(subs, allow_local, i, j);
        }
    }
}

proof fn lemma_no_repeats(subs: Seq<SubView>, allow_local: bool, i: int, j: int)
    requires
        first_fault(subs, allow_local) is None,
        0 <= i < j < subs.len(),
    ensures
        subs[i].key() != subs[j].key(),
    decreases subs.len(),
{
    let front = subs.drop_last();
    if j < front.len() {
        lemma_no_repeats(front, allow_local, i, j);
        assert(front[i] == subs[i] && front[j] == subs[j]);
    } else {
        lemma_loaded(front, allow_local, i);
        assert(front[i] == subs[i]);
    }
}

/// A start gives webhooks the server's address and changes nothing else of any
/// subscription.
pub proof fn law_start_only_readdresses(
    state: StateView,
    base: Option<Seq<char>>,
    key: Seq<char>,
)
    requires
        state.subscriptions.contains_key(key),
    ensures
        ({
            let sub = state.subscriptions[key];
            let next = state.settled_in(base).subscriptions[key];
            &&& state.settled_in(base).subscriptions.dom() == state.subscriptions.dom()
            &&& next == (SubView { callback_base: next.callback_base, ..sub })
            &&& sub.config.kind == crate::subscriptions::config::SubscriptionKind::PullWake
                ==> next == sub
            &&& sub.config.kind == crate::subscriptions::config::SubscriptionKind::Webhook
                && base is Some ==> base == Some(next.callback_base)
        }),
{
    assert(state.settled_in(base).subscriptions.dom() =~= state.subscriptions.dom());
}

/// As time goes on, the ring keeps the active key, keys that wait for their turn,
/// and keys whose signatures may still be checked, and no other. A key whose turn
/// has come is the one that signs from then on; where there is none, the active
/// key stays the active one.
pub proof fn law_ring_keeps_what_is_needed(
    ring: RingView,
    now_ms: u64,
    moment: Moment,
    replay_ms: u64,
    i: int,
)
    requires
        ring.wf(),
        0 <= i < ring.keys.len(),
    ensures
        ({
            let next = ring.advanced(now_ms, moment, replay_ms);
            let key = ring.keys[i];
            let wanted = key.kid == ring.active_kid || key.activate_after_ms is Some || (
            key.retire_after_ms matches Some(end) && end > now_ms);
            let come = key.activate_after_ms matches Some(from) && from <= now_ms && (
            key.activate_not_before matches Some(at) ==> at.nanos <= moment.nanos);
            &&& wanted ==> exists|k: int|
                0 <= k < next.keys.len() && (#[trigger] next.keys[k]).kid == key.kid
                    && next.keys[k].document == key.document
            &&& forall|k: int|
                0 <= k < next.keys.len() ==> exists|m: int|
                    0 <= m < ring.keys.len() && (#[trigger] ring.keys[m]).kid == (
                    #[trigger] next.keys[k]).kid && ring.keys[m].document == next.keys[k].document
                        && ring.keys[m].needed(ring.active_kid, now_ms)
            &&& come ==> exists|m: int|
                0 <= m < ring.keys.len() && (#[trigger] ring.keys[m]).kid == next.active_kid
                    && ring.keys[m].due(now_ms, moment)
            &&& (forall|m: int|
                0 <= m < ring.keys.len() ==> !(#[trigger] ring.keys[m]).due(now_ms, moment))
                ==> next.active_kid == ring.active_kid
        }),
{
    let p = |key: KeyView| key.needed(ring.active_kid, now_ms);
    let needed = ring.needed_keys(now_ms);
    lemma_filtered(ring.keys, p);
    lemma_active_needed(ring, now_ms);
    lemma_due(needed, now_ms, moment);
    let next = ring.advanced(now_ms, moment, replay_ms);
    let key = ring.keys[i];
    assert(next.keys.len() == needed.len());
    assert forall|k: int| 0 <= k < needed.len() implies (#[trigger] next.keys[k]).kid
        == needed[k].kid && next.keys[k].document == needed[k].document by {}
    if p(key) {
        let k = choose|k: int| 0 <= k < needed.len() && needed[k] == key;
        assert(next.keys[k].kid == key.kid);
    }
    assert forall|k: int| 0 <= k < next.keys.len() implies exists|m: int|
        0 <= m < ring.keys.len() && (#[trigger] ring.keys[m]).kid == (#[trigger] next.keys[k]).kid
            && ring.keys[m].document == next.keys[k].document && ring.keys[m].needed(
            ring.active_kid,
            now_ms,
        ) by {
        assert(p(needed[k]));
        let m = choose|m: int| 0 <= m < ring.keys.len() && ring.keys[m] == needed[k];
        assert(ring.keys[m].kid == next.keys[k].kid);
    }
    match due_index(needed, now_ms, moment) {
        Some(due) => {
            let m = choose|m: int| 0 <= m < ring.keys.len() && ring.keys[m] == needed[due];
            assert(ring.keys[m].due(now_ms, moment));
            assert(ring.keys[m].kid == next.active_kid);
        },
        None => {
            if key.due(now_ms, moment) {
                assert(p(key));
                let k = choose|k: int| 0 <= k < needed.len() && needed[k] == key;
                assert(needed[k].due(now_ms, moment));
            }
        },
    }
}

/// A key is replaced once it is old enough, and not while another one waits for
/// its turn, nor where replacing is switched off.
pub proof fn law_old_keys_are_replaced(ring: RingView, now_ms: u64, rotation_ms: u64, i: int)
    requires
        0 <= i < ring.keys.len(),
    ensures
        !ring.rotation_due(now_ms, 0),
        ring.keys[i].activate_after_ms is Some ==> !ring.rotation_due(now_ms, rotation_ms),
        now_ms < ring.active().created_at_ms + rotation_ms ==> !ring.rotation_due(
            now_ms,
            rotation_ms,
        ),
        rotation_ms > 0 && now_ms >= ring.active().created_at_ms + rotation_ms && (forall|k: int|
            0 <= k < ring.keys.len() ==> (#[trigger] ring.keys[k]).activate_after_ms is None)
            ==> ring.rotation_due(now_ms, rotation_ms),
{
}

/// A delivery goes to the host and port of its address, the host in small letters
/// and without brackets. Only plain HTTP to this machine is local development, and
/// only a name has to be looked up.
pub proof fn law_delivery_goes_to_its_address(url: UrlView)
    ensures
        match crate::subscriptions::webhook::plan_of(url) {
            Ok(target) => {
                &&& url.host is Some
                &&& url.port == Some(target.port)
                &&& target.host == ascii_lower(
                    crate::subscriptions::webhook::trim_brackets(url.host->0),
                )
                &&& target.needs_dns <==> ip_value(target.host) is None
                &&& target.local_development ==> url.scheme == "http"@
                &&& url.scheme == "http"@ && target.host == "localhost"@ ==> target.local_development
                &&& url.scheme == "https"@ ==> !target.local_development
            },
            Err(_) => url.host is None || url.port is None,
        },
{
    reveal_strlit("http");
    reveal_strlit("https");
    assert("http"@.len() != "https"@.len());
}

/// The server's own address is an origin and nothing more, over HTTPS unless it is
/// this machine.
pub proof fn law_public_address_is_an_origin(url: UrlView)
    ensures
        crate::subscriptions::webhook::origin_complaint(url) is None <==> {
            &&& url.username.len() == 0 && !url.has_password
            &&& !url.has_query && !url.has_fragment
            &&& url.path == "/"@
            &&& url.host is Some
            &&& url.scheme == "https"@ || (url.scheme == "http"@ && (url.host->0 == "localhost"@
                || (crate::subscriptions::ip::v4_value(url.host->0) matches Some(octets)
                && octets[0] == 127)))
        },
{
}

/// A kept subscription passes exactly if it has a name, links to streams that may
/// be linked, not too many, and a webhook that may be reached.
pub proof fn law_kept_subscription_is_valid(sub: SubView, allow_local: bool)
    ensures
        kept_sub_valid(sub, allow_local) <==> {
            &&& crate::subscriptions::paths::valid_id(sub.id)
            &&& sub.streams.dom().len() <= 10_000
            &&& forall|path: Seq<char>| #[trigger]
                sub.streams.contains_key(path) ==> valid_stream_path(path)
            &&& sub.config.webhook_url matches Some(url)
                ==> crate::subscriptions::webhook::webhook_complaint(url, allow_local) is None
        },
{
}

/// Kept secrets are refused if they are of another version, if the token secret is
/// no text for its bytes or of another length, if a key is not the one it says it
/// is, and if the active key is not among them.
pub proof fn law_faulty_secrets_are_refused(
    kept: crate::subscriptions::keys::KeptSecretsView,
    i: int,
)
    requires
        ({
            ||| kept.version != 1
            ||| hex_bytes(kept.token_secret) is None
            ||| hex_bytes(kept.token_secret)->0.len() != 32
            ||| 0 <= i < kept.keys.len() && wrong_key(kept.keys[i])
            ||| forall|k: int|
                0 <= k < kept.keys.len() ==> (#[trigger] kept.keys[k]).kid != kept.active_kid
        }),
    ensures
        kept.complaint() is Some,
{
    if 0 <= i < kept.keys.len() && wrong_key(kept.keys[i]) {
        lemma_wrong_key_is_found(kept.keys, i);
    }
}

/// Whether a kept key is not the one it says it is: no document, a document
/// without a key pair, another public key, or another name.
pub open spec fn wrong_key(key: crate::subscriptions::keys::KeptKeyView) -> bool {
    let document = hex_bytes(key.pkcs8);
    let public = crate::subscriptions::crypto::ed25519_public_key(document->0);
    ||| document is None
    ||| public is None
    ||| key.x != crate::subscriptions::encoding::base64_url_text(public->0)
    ||| key.kid != crate::subscriptions::keys::kid_of(key.x)
}

proof fn lemma_wrong_key_is_found(
    keys: Seq<crate::subscriptions::keys::KeptKeyView>,
    i: int,
)
    requires
        0 <= i < keys.len(),
        wrong_key(keys[i]),
    ensures
        crate::subscriptions::keys::kept_keys_complaint(keys) is Some,
    decreases keys.len(),
{
    if i < keys.len() - 1 {
        assert(keys.drop_last()[i] == keys[i]);
        lemma_wrong_key_is_found(keys.drop_last(), i);
    }
}

/// A valid path is made of its segments: each of them says something, and put
/// together again they are the path.
pub proof fn law_valid_path_is_its_segments(path: Seq<char>)
    requires
        valid_stream_path(path),
    ensures
        join_with(crate::subscriptions::glob::segments_of(path), '/') == path,
        forall|i: int|
            0 <= i < crate::subscriptions::glob::segments_of(path).len() ==> {
                let segment = #[trigger] crate::subscriptions::glob::segments_of(path)[i];
                segment.len() > 0 && segment != "."@ && segment != ".."@ && !segment.contains('/')
            },
{
    crate::subscriptions::paths::lemma_valid_path_trimmed(path);
    let parts = split_on(path, '/');
    let p = |part: Seq<char>| part.len() > 0;
    lemma_nothing_filtered(parts, p);
    crate::text::law_join_undoes_split(path, '/');
    crate::text::lemma_split_pieces(path, '/');
    assert(crate::subscriptions::glob::segments_of(path) == parts);
}

proof fn lemma_nothing_filtered(parts: Seq<Seq<char>>, p: spec_fn(Seq<char>) -> bool)
    requires
        forall|i: int| 0 <= i < parts.len() ==> p(#[trigger] parts[i]),
    ensures
        parts.filter(p) == parts,
    decreases parts.len(),
{
    reveal(Seq::filter);
    if parts.len() > 0 {
        assert forall|i: int| 0 <= i < parts.drop_last().len() implies p(
            #[trigger] parts.drop_last()[i],
        ) by {
            assert(parts.drop_last()[i] == parts[i]);
        }
        lemma_nothing_filtered(parts.drop_last(), p);
        assert(p(parts[parts.len() - 1]));
        assert(parts.filter(p) =~= parts);
    }
}

/// A plain path as a pattern matches that path and no other valid one.
pub proof fn law_plain_path_matches_itself(pattern: Seq<char>, path: Seq<char>)
    requires
        valid_stream_path(pattern),
        valid_stream_path(path),
        !pattern.contains('*'),
    ensures
        crate::subscriptions::glob::matches_glob(pattern, path) <==> pattern == path,
{
    law_valid_path_is_its_segments(pattern);
    law_valid_path_is_its_segments(path);
    let parts = crate::subscriptions::glob::segments_of(pattern);
    crate::subscriptions::paths::lemma_valid_path_trimmed(pattern);
    let pieces = split_on(pattern, '/');
    let p = |part: Seq<char>| part.len() > 0;
    lemma_nothing_filtered(pieces, p);
    assert forall|i: int| 0 <= i < parts.len() implies #[trigger] parts[i] != "*"@ && parts[i]
        != "**"@ by {
        reveal_strlit("*");
        reveal_strlit("**");
        if parts[i] == "*"@ || parts[i] == "**"@ {
            assert(parts[i][0] == '*');
            lemma_piece_chars(pattern, '/', i, 0);
        }
    }
    crate::subscriptions::glob::law_plain_pattern_matches_itself(
        parts,
        crate::subscriptions::glob::segments_of(path),
    );
}

/// The characters of a piece are characters of the text.
proof fn lemma_piece_chars(s: Seq<char>, c: char, i: int, k: int)
    requires
        0 <= i < split_on(s, c).len(),
        0 <= k < split_on(s, c)[i].len(),
    ensures
        s.contains(split_on(s, c)[i][k]),
    decreases s.len(),
{
    if s.len() > 0 {
        let front = split_on(s.drop_last(), c);
        crate::text::lemma_split_pieces(s.drop_last(), c);
        let x = split_on(s, c)[i][k];
        if s.last() == c {
            assert(i < front.len());
            lemma_piece_chars(s.drop_last(), c, i, k);
            let j = choose|j: int| 0 <= j < s.drop_last().len() && s.drop_last()[j] == x;
            assert(s[j] == x);
        } else if i < front.len() - 1 {
            lemma_piece_chars(s.drop_last(), c, i, k);
            let j = choose|j: int| 0 <= j < s.drop_last().len() && s.drop_last()[j] == x;
            assert(s[j] == x);
        } else if k < front.last().len() {
            lemma_piece_chars(s.drop_last(), c, front.len() - 1, k);
            let j = choose|j: int| 0 <= j < s.drop_last().len() && s.drop_last()[j] == x;
            assert(s[j] == x);
        } else {
            assert(s[s.len() - 1] == x);
        }
    }
}

/// An absolute path leads back to its name below a root and the other way round.
pub proof fn law_absolute_undoes_relative(root: Seq<char>, absolute: Seq<char>, name: Seq<char>)
    requires
        crate::text::trim_end(root, '/') == root,
        crate::subscriptions::paths::relative_path(root, absolute) == Some(name),
        trim_both(name, '/') == name,
    ensures
        absolute_path(root, name) == absolute,
{
    assert(absolute =~= root.push('/') + name) by {
        assert(absolute.take(root.len() as int) == root);
        let rest = absolute.skip(root.len() as int);
        assert(rest =~= seq![rest[0]] + rest.skip(1));
        assert(absolute =~= absolute.take(root.len() as int) + rest);
    }
}

/// What stands behind the name of a subscription in a path says what is asked of
/// it.
pub proof fn law_path_ends_name_the_work(root: Seq<char>, id: Seq<char>, word: Seq<char>)
    ensures
        crate::subscriptions::route::tail_route(root, id, Seq::empty())
            == crate::subscriptions::route::RouteView::Base(root, id),
        crate::subscriptions::route::tail_route(root, id, seq!["claim"@])
            == crate::subscriptions::route::RouteView::Claim(root, id),
        crate::subscriptions::route::tail_route(root, id, seq!["ack"@])
            == crate::subscriptions::route::RouteView::Ack(root, id),
        crate::subscriptions::route::tail_route(root, id, seq!["release"@])
            == crate::subscriptions::route::RouteView::Release(root, id),
        crate::subscriptions::route::tail_route(root, id, seq!["callback"@])
            == crate::subscriptions::route::RouteView::Callback(root, id),
        crate::subscriptions::route::tail_route(root, id, seq!["streams"@])
            == crate::subscriptions::route::RouteView::Streams(root, id),
        word != "streams"@ ==> crate::subscriptions::route::tail_route(root, id, seq![word, word])
            == crate::subscriptions::route::RouteView::UnknownControl,
        word != "claim"@ && word != "ack"@ && word != "release"@ && word != "callback"@ && word
            != "streams"@ ==> crate::subscriptions::route::tail_route(root, id, seq![word])
            == crate::subscriptions::route::RouteView::UnknownControl,
{
    reveal_strlit("claim");
    reveal_strlit("ack");
    reveal_strlit("release");
    reveal_strlit("callback");
    reveal_strlit("streams");
    assert("claim"@.len() == 5 && "ack"@.len() == 3 && "release"@.len() == 7 && "callback"@.len()
        == 8 && "streams"@.len() == 7);
    assert("release"@[0] != "streams"@[0]);
}

/// A path that names a stream is short enough and holds no sign that ends a path.
/// One segment that says something, and is not the reserved one, names a stream.
pub proof fn law_paths_have_limits(path: Seq<char>)
    ensures
        valid_stream_path(path) ==> {
            &&& path.len() > 0
            &&& utf8_len(path) <= 4_096
            &&& forall|i: int|
                0 <= i < path.len() ==> #[trigger] path[i] != '\0' && path[i] != '?' && path[i]
                    != '#'
            &&& split_on(path, '/')[0] != "__ds"@
        },
        utf8_len(path) <= 4_096 && path.len() > 0 && !path.contains('/') && !path.contains('\0')
            && !path.contains('?') && !path.contains('#') && path != "."@ && path != ".."@ && path
            != "__ds"@ ==> valid_stream_path(path),
{
    if valid_stream_path(path) {
        assert forall|i: int| 0 <= i < path.len() implies #[trigger] path[i] != '\0' && path[i]
            != '?' && path[i] != '#' by {
            assert(path.contains(path[i]));
        }
    }
    if !path.contains('/') {
        crate::text::lemma_split_absent(path, '/');
    }
}

/// A pattern is a path with at most sixty-four segments and a thousand and
/// twenty-four bytes.
pub proof fn law_patterns_have_limits(pattern: Seq<char>)
    ensures
        pattern_ok(pattern) <==> valid_stream_path(pattern) && utf8_len(pattern) <= 1_024
            && split_on(pattern, '/').len() <= 64,
{
}

/// Two paths that name streams name one together, if that is short enough.
pub proof fn law_paths_can_be_joined(front: Seq<char>, back: Seq<char>)
    requires
        valid_stream_path(front),
        valid_stream_path(back),
        utf8_len(front.push('/') + back) <= 4_096,
    ensures
        valid_stream_path(front.push('/') + back),
{
    let whole = front.push('/') + back;
    crate::text::lemma_split_concat(front, '/', back);
    crate::text::lemma_split_pieces(front, '/');
    let first = split_on(front, '/');
    let second = split_on(back, '/');
    assert forall|i: int| 0 <= i < split_on(whole, '/').len() implies {
        let segment = #[trigger] split_on(whole, '/')[i];
        segment.len() > 0 && segment != "."@ && segment != ".."@
    } by {
        if i < first.len() {
            assert(split_on(whole, '/')[i] == first[i]);
        } else {
            assert(split_on(whole, '/')[i] == second[i - first.len()]);
        }
    }
    assert(split_on(whole, '/')[0] == first[0]);
    assert forall|c: char| whole.contains(c) implies c == '/' || front.contains(c)
        || back.contains(c) by {
        let k = choose|k: int| 0 <= k < whole.len() && whole[k] == c;
        if k < front.len() {
            assert(front[k] == c);
        } else if k > front.len() {
            assert(back[k - front.len() - 1] == c);
        }
    }
}

/// A subscription's name has at most two hundred and fifty-six characters, each a
/// letter, a digit or one of four signs.
pub proof fn law_names_are_plain(id: Seq<char>)
    ensures
        crate::subscriptions::paths::valid_id(id) <==> 0 < id.len() <= 256 && forall|i: int|
            0 <= i < id.len() ==> {
                let c = #[trigger] id[i];
                ||| 'a' <= c <= 'z'
                ||| 'A' <= c <= 'Z'
                ||| '0' <= c <= '9'
                ||| "-._~"@.contains(c)
            },
{
    reveal_strlit("-._~");
    let signs = "-._~"@;
    assert(signs[0] == '-' && signs[1] == '.' && signs[2] == '_' && signs[3] == '~');
    assert forall|c: char| #[trigger] signs.contains(c) <==> c == '-' || c == '.' || c == '_' || c
        == '~' by {
        if c == '-' {
            assert(signs.contains(signs[0]));
        }
        if c == '.' {
            assert(signs.contains(signs[1]));
        }
        if c == '_' {
            assert(signs.contains(signs[2]));
        }
        if c == '~' {
            assert(signs.contains(signs[3]));
        }
    }
}

} // verus!
