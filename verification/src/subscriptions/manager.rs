//! The control plane as a whole: which request does what.

use crate::path_map::{in_order, lemma_in_order};
use crate::subscription_auth::ServiceJwtError;
use crate::subscriptions::claims::{opt_callback, CallbackView};
use crate::subscriptions::config::{
    all_paths_valid, all_valid, normalized_paths, sorted_unique, trimmed_paths, RawCreateView,
    SubscriptionKind, MAX_STREAMS_PER_SUBSCRIPTION,
};
use crate::subscriptions::creation::{CreationRules, CreationRulesView, WakeStreamLookup};
use crate::subscriptions::keys::{KeyView, RingView, SigningKeyRing};
use crate::subscriptions::links::{StreamStatus, StreamTable};
use crate::subscriptions::paths::{
    absolute_stream_path, is_id_char, key_of, normalize_relative_path, subscription_key, valid_id,
};
use crate::subscriptions::reply::{
    bearer_of, bearer_token, internal_subscription_error, json_content_type_required, json_required,
    no_subscription, request_is_json, says_json, state_error, subscription_not_found,
    CallbackRequest, PublishedKey, Method, Reply, ReplyView, Req, ReqBody, MAX_SUBSCRIPTION_BODY_BYTES,
};
use crate::subscriptions::route::{parse_route, route_of, Route, RouteView};
use crate::subscriptions::state::{
    entry_of, law_undo_restores, mentions, touched_view, ChannelBefore, ManagerState, StateView,
    Touched, Undo,
};
use crate::subscriptions::steps::{
    only_reply, refusal, Change, Finished, Prepared, StepView, Surroundings, SurroundingsView,
};
use crate::subscriptions::token::{fits_token, WakeSeed};
use crate::text::{
    lemma_utf8_len_ascii, lemma_utf8_len_concat, opt_text, texts, trim_both, utf8_len,
};
use vstd::prelude::*;

verus! {

/// The control plane of a server.
pub struct SubscriptionManager {
    pub state: ManagerState,
    pub signing_keys: SigningKeyRing,
    pub signing_rotation_ms: u64,
    pub signing_replay_window_ms: u64,
    pub token_secret: Vec<u8>,
    pub public_base_url: Option<String>,
    pub allow_local_webhooks: bool,
}

impl SubscriptionManager {
    /// The subscriptions are in order, and the secrets are complete.
    pub open spec fn wf(&self) -> bool {
        &&& self.state.wf()
        &&& self.signing_keys@.wf()
        &&& self.token_secret@.len() == 32
    }

    /// Everything but the subscriptions is as it was.
    pub open spec fn same_setting(&self, other: &SubscriptionManager) -> bool {
        &&& self.signing_keys == other.signing_keys
        &&& self.signing_rotation_ms == other.signing_rotation_ms
        &&& self.signing_replay_window_ms == other.signing_replay_window_ms
        &&& self.token_secret == other.token_secret
        &&& self.public_base_url == other.public_base_url
        &&& self.allow_local_webhooks == other.allow_local_webhooks
    }

    /// What the server brings to a creation.
    pub open spec fn rules(&self) -> CreationRulesView {
        CreationRulesView {
            public_base_url: opt_text(self.public_base_url),
            allow_local: self.allow_local_webhooks,
            signing_kid: self.signing_keys@.active().kid,
        }
    }
}

/// A body as a mathematical value.
pub enum BodyView {
    Unreadable,
    Create(RawCreateView),
    Streams(Seq<Seq<char>>),
    Claim(Seq<char>),
    Callback(CallbackView),
}

impl View for ReqBody {
    type V = BodyView;

    open spec fn view(&self) -> BodyView {
        match self {
            ReqBody::Unreadable => BodyView::Unreadable,
            ReqBody::Create(raw) => BodyView::Create(raw@),
            ReqBody::Streams(streams) => BodyView::Streams(texts(streams@)),
            ReqBody::Claim(worker) => BodyView::Claim(worker@),
            ReqBody::Callback(request) => BodyView::Callback(request@),
        }
    }
}

impl BodyView {
    /// The body as a request to create a subscription.
    pub open spec fn create(self) -> Option<RawCreateView> {
        match self {
            BodyView::Create(raw) => Some(raw),
            _ => None,
        }
    }

    /// The body as a list of streams.
    pub open spec fn streams(self) -> Option<Seq<Seq<char>>> {
        match self {
            BodyView::Streams(streams) => Some(streams),
            _ => None,
        }
    }

    /// The body as the name of a worker.
    pub open spec fn worker(self) -> Option<Seq<char>> {
        match self {
            BodyView::Claim(worker) => Some(worker),
            _ => None,
        }
    }

    /// The body as a report.
    pub open spec fn callback(self) -> Option<CallbackView> {
        match self {
            BodyView::Callback(request) => Some(request),
            _ => None,
        }
    }
}

/// What only the outside can tell about a request: what a look at the wanted
/// wake stream found, whether a service token was accepted, whether the
/// signing keys are up to date, and how the present time is written down.
pub struct Findings {
    pub found: WakeStreamLookup,
    pub auth: Result<(), ServiceJwtError>,
    pub keys_fresh: bool,
    pub created_at: String,
}

/// The findings as a mathematical value.
pub struct FindingsView {
    pub found: WakeStreamLookup,
    pub auth: Result<(), ServiceJwtError>,
    pub keys_fresh: bool,
    pub created_at: Seq<char>,
}

impl View for Findings {
    type V = FindingsView;

    open spec fn view(&self) -> FindingsView {
        FindingsView {
            found: self.found,
            auth: self.auth,
            keys_fresh: self.keys_fresh,
            created_at: self.created_at@,
        }
    }
}

/// The published keys.
pub open spec fn key_set(ring: RingView) -> ReplyView {
    ReplyView::Keys { keys: ring.keys.map_values(|key: KeyView| (key.x, key.kid)) }
}

impl StateView {
    /// What a request to describe a subscription does.
    pub open spec fn describe(self, key: Seq<char>, signing_kid: Seq<char>) -> StepView {
        if self.subscriptions.contains_key(key) {
            only_reply(
                self,
                ReplyView::Described {
                    status: 200,
                    document: self.subscriptions[key].document(signing_kid),
                },
            )
        } else {
            only_reply(self, no_subscription())
        }
    }

    /// What a request to delete a subscription does. Where there is none,
    /// nothing is left to do.
    pub open spec fn delete(self, key: Seq<char>) -> StepView {
        if self.subscriptions.contains_key(key) {
            StepView {
                state: self.without_sub(key).without_channel(self.subscriptions[key]),
                base: self,
                reply: ReplyView::Done,
                keep: true,
                delivery: None,
                lease: None,
            }
        } else {
            only_reply(self, ReplyView::Done)
        }
    }

    /// What a request to add streams to a subscription does.
    pub open spec fn add_streams(
        self,
        root: Seq<char>,
        id: Seq<char>,
        streams: Option<Seq<Seq<char>>>,
        table: Map<Seq<char>, StreamStatus>,
    ) -> StepView {
        let key = key_of(root, id);
        if streams is None || streams->0.len() == 0 {
            refusal(self, 400, "INVALID_REQUEST"@, "streams must be a non-empty string array"@)
        } else if streams->0.len() > MAX_STREAMS_PER_SUBSCRIPTION || streams->0.contains(
            Seq::empty(),
        ) {
            refusal(
                self,
                400,
                "INVALID_REQUEST"@,
                "streams must be a bounded non-empty string array"@,
            )
        } else {
            let names = in_order(trimmed_paths(streams->0).to_set());
            if !all_valid(names) {
                refusal(
                    self,
                    400,
                    "INVALID_REQUEST"@,
                    "streams must contain valid relative paths"@,
                )
            } else if self.names_channel(root, names) {
                refusal(
                    self,
                    400,
                    "INVALID_REQUEST"@,
                    "streams must not include a registered wake stream"@,
                )
            } else if !self.subscriptions.contains_key(key) {
                only_reply(self, no_subscription())
            } else {
                let more = self.subscriptions[key].with_explicit(table, names);
                if more.streams.dom().len() > MAX_STREAMS_PER_SUBSCRIPTION {
                    refusal(
                        self,
                        429,
                        "SUBSCRIPTION_LIMIT_EXCEEDED"@,
                        "Subscription stream limit exceeded"@,
                    )
                } else {
                    StepView {
                        state: self.with_sub(key, more),
                        base: self,
                        reply: ReplyView::Done,
                        keep: true,
                        delivery: None,
                        lease: None,
                    }
                }
            }
        }
    }

    /// What a request to remove a stream from a subscription does.
    pub open spec fn remove_stream(self, key: Seq<char>, stream: Seq<char>) -> StepView {
        if self.subscriptions.contains_key(key) {
            StepView {
                state: self.with_sub(
                    key,
                    self.subscriptions[key].without_explicit(trim_both(stream, '/')),
                ),
                base: self,
                reply: ReplyView::Done,
                keep: true,
                delivery: None,
                lease: None,
            }
        } else {
            only_reply(self, no_subscription())
        }
    }

    /// What a request at a subscription itself does.
    pub open spec fn handle_base(
        self,
        root: Seq<char>,
        id: Seq<char>,
        method: Method,
        json: bool,
        body: BodyView,
        rules: CreationRulesView,
        findings: FindingsView,
        table: Map<Seq<char>, StreamStatus>,
    ) -> StepView {
        match method {
            Method::Put => if json {
                self.create(
                    root,
                    id,
                    body.create(),
                    findings.found,
                    rules,
                    findings.created_at,
                    table,
                )
            } else {
                only_reply(self, json_required())
            },
            Method::Get => self.describe(key_of(root, id), rules.signing_kid),
            Method::Delete => self.delete(key_of(root, id)),
            _ => only_reply(self, ReplyView::MethodNotAllowed),
        }
    }

    /// What a request at one of the routes does that take a posted document.
    pub open spec fn handle_post(
        self,
        route: RouteView,
        token: Option<Seq<char>>,
        body: BodyView,
        findings: FindingsView,
        around: SurroundingsView,
    ) -> StepView {
        match route {
            RouteView::Streams(root, id) => self.add_streams(
                root,
                id,
                body.streams(),
                around.table,
            ),
            RouteView::Callback(root, id) => self.callback(
                key_of(root, id),
                SubscriptionKind::Webhook,
                token,
                body.callback(),
                around,
            ),
            RouteView::Claim(root, id) => self.claim(
                key_of(root, id),
                findings.auth,
                body.worker(),
                around,
            ),
            RouteView::Ack(root, id) => self.callback(
                key_of(root, id),
                SubscriptionKind::PullWake,
                token,
                body.callback(),
                around,
            ),
            RouteView::Release(root, id) => self.release(
                key_of(root, id),
                token,
                body.callback(),
                around,
            ),
            _ => only_reply(self, ReplyView::MethodNotAllowed),
        }
    }

    /// What a request does.
    pub open spec fn handle(
        self,
        req: Req,
        ring: RingView,
        rules: CreationRulesView,
        findings: FindingsView,
        around: SurroundingsView,
    ) -> StepView {
        let json = says_json(opt_text(req.content_type));
        if req.body_len > MAX_SUBSCRIPTION_BODY_BYTES {
            refusal(
                self,
                413,
                "REQUEST_TOO_LARGE"@,
                "Subscription request body is too large"@,
            )
        } else {
            match route_of(req.path@) {
                RouteView::Jwks => if req.method != Method::Get {
                    only_reply(self, ReplyView::MethodNotAllowed)
                } else if !findings.keys_fresh {
                    only_reply(self, state_error())
                } else {
                    only_reply(self, key_set(ring))
                },
                RouteView::Base(root, id) => self.handle_base(
                    root,
                    id,
                    req.method,
                    json,
                    req.body@,
                    rules,
                    findings,
                    around.table,
                ),
                RouteView::Stream(root, id, stream) => if req.method != Method::Delete {
                    only_reply(self, ReplyView::MethodNotAllowed)
                } else {
                    self.remove_stream(key_of(root, id), stream)
                },
                RouteView::UnknownControl => refusal(
                    self,
                    404,
                    "SUBSCRIPTION_NOT_FOUND"@,
                    "Durable Streams control route not found"@,
                ),
                route => if req.method != Method::Post {
                    only_reply(self, ReplyView::MethodNotAllowed)
                } else if !json {
                    only_reply(self, json_required())
                } else {
                    self.handle_post(
                        route,
                        bearer_of(opt_text(req.authorization)),
                        req.body@,
                        findings,
                        around,
                    )
                },
            }
        }
    }
}

impl ManagerState {
    /// Describe a subscription.
    pub fn handle_describe(&self, stream_root: &str, id: &str, signing_kid: &str) -> (r: Prepared)
        requires
            self.wf(),
        ensures
            r.carries(self@, self@.describe(key_of(stream_root@, id@), signing_kid@)),
    {
        let key = subscription_key(stream_root, id);
        match self.subscriptions.position(key.as_str()) {
            Some(at) => Prepared::reply_only(
                Reply::Described { status: 200, document: self.at(at).serialize(signing_kid) },
            ),
            None => Prepared::reply_only(subscription_not_found()),
        }
    }

    /// Delete a subscription.
    pub fn handle_delete(&mut self, stream_root: &str, id: &str) -> (r: Prepared)
        requires
            old(self).wf(),
        ensures
            final(self).wf(),
            r.carries(final(self)@, old(self)@.delete(key_of(stream_root@, id@))),
    {
        let key = subscription_key(stream_root, id);
        let removed = match self.subscriptions.remove(key.as_str()) {
            Some(removed) => removed,
            None => {
                return Prepared::reply_only(Reply::Done);
            },
        };
        let ghost before = old(self)@;
        let ghost gone = removed@;
        assert(self@ =~= before.without_sub(key@));
        let channel = match (removed.config.kind, &removed.config.wake_stream) {
            (SubscriptionKind::PullWake, Some(stream)) => {
                let path = absolute_stream_path(removed.stream_root.as_str(), stream.as_str());
                let uses: Option<usize> = match self.wake_streams.get(path.as_str()) {
                    Some(uses) => Some(*uses),
                    None => None,
                };
                Some(ChannelBefore { path, uses })
            },
            _ => None,
        };
        self.unregister_wake_stream(&removed);
        let mut touched: Vec<Touched> = Vec::new();
        let ghost entry = Touched { key, before: Some(removed) };
        touched.push(Touched { key, before: Some(removed) });
        let undo = Undo { touched, channel };
        proof {
            let list = undo@.touched;
            assert(list =~= seq![touched_view(entry)]);
            assert forall|k: Seq<char>|
                #![trigger entry_of(self@.subscriptions, k)]
                !mentions(list, k) implies entry_of(self@.subscriptions, k) == entry_of(
                before.subscriptions,
                k,
            ) by {
                assert(list[0].0 != k);
            }
            assert(self@.undone(undo@).wake_streams =~= before.wake_streams);
            law_undo_restores(undo@, self@, before);
        }
        Prepared {
            reply: Reply::Done,
            change: Some(Change { undo, delivery: None, lease: None }),
        }
    }

    /// Add streams to a subscription.
    pub fn handle_add_streams(
        &mut self,
        stream_root: &str,
        id: &str,
        streams: Option<Vec<String>>,
        table: &StreamTable,
    ) -> (r: Prepared)
        requires
            old(self).wf(),
            table.wf(),
        ensures
            final(self).wf(),
            r.carries(
                final(self)@,
                old(self)@.add_streams(
                    stream_root@,
                    id@,
                    match streams {
                        Some(streams) => Some(texts(streams@)),
                        None => None,
                    },
                    table@,
                ),
            ),
    {
        let streams = match streams {
            Some(streams) => streams,
            None => {
                return Prepared::refuse(
                    400,
                    "INVALID_REQUEST",
                    "streams must be a non-empty string array",
                );
            },
        };
        assert(texts(streams@).len() == streams@.len());
        if streams.len() == 0 {
            return Prepared::refuse(
                400,
                "INVALID_REQUEST",
                "streams must be a non-empty string array",
            );
        }
        let empty = String::new();
        proof {
            assert(empty@ =~= Seq::<char>::empty());
        }
        if streams.len() > MAX_STREAMS_PER_SUBSCRIPTION
            || crate::subscriptions::config::names_contain(&streams, empty.as_str()) {
            return Prepared::refuse(
                400,
                "INVALID_REQUEST",
                "streams must be a bounded non-empty string array",
            );
        }
        let trimmed = normalized_paths(&streams);
        let names = sorted_unique(&trimmed);
        proof {
            lemma_in_order(texts(names@));
        }
        if !all_paths_valid(&names) {
            return Prepared::refuse(
                400,
                "INVALID_REQUEST",
                "streams must contain valid relative paths",
            );
        }
        if self.names_channel(stream_root, &names) {
            return Prepared::refuse(
                400,
                "INVALID_REQUEST",
                "streams must not include a registered wake stream",
            );
        }
        let key = subscription_key(stream_root, id);
        let at = match self.subscriptions.position(key.as_str()) {
            Some(at) => at,
            None => {
                return Prepared::reply_only(subscription_not_found());
            },
        };
        let mut more = self.at(at).copy();
        more.link_explicit(&names, table);
        if more.streams.len() > MAX_STREAMS_PER_SUBSCRIPTION {
            return Prepared::refuse(
                429,
                "SUBSCRIPTION_LIMIT_EXCEEDED",
                "Subscription stream limit exceeded",
            );
        }
        let undo = self.replace(at, more);
        Prepared {
            reply: Reply::Done,
            change: Some(Change { undo, delivery: None, lease: None }),
        }
    }

    /// Remove a stream from a subscription.
    pub fn handle_remove_stream(&mut self, stream_root: &str, id: &str, stream: &str) -> (r:
        Prepared)
        requires
            old(self).wf(),
        ensures
            final(self).wf(),
            r.carries(
                final(self)@,
                old(self)@.remove_stream(key_of(stream_root@, id@), stream@),
            ),
    {
        let key = subscription_key(stream_root, id);
        let at = match self.subscriptions.position(key.as_str()) {
            Some(at) => at,
            None => {
                return Prepared::reply_only(subscription_not_found());
            },
        };
        let path = normalize_relative_path(stream);
        let mut changed = self.at(at).copy();
        changed.unlink_explicit(path.as_str());
        let undo = self.replace(at, changed);
        Prepared {
            reply: Reply::Done,
            change: Some(Change { undo, delivery: None, lease: None }),
        }
    }
}

impl SigningKeyRing {
    /// The published keys.
    pub fn jwks(&self) -> (r: Reply)
        ensures
            r@ == key_set(self@),
    {
        let mut keys: Vec<PublishedKey> = Vec::new();
        let mut i: usize = 0;
        while i < self.keys.len()
            invariant
                i <= self.keys@.len(),
                keys@.len() == i,
                forall|k: int|
                    0 <= k < i ==> (#[trigger] keys@[k]).x@ == self.keys@[k]@.x && keys@[k].kid@
                        == self.keys@[k]@.kid,
            decreases self.keys.len() - i,
        {
            keys.push(PublishedKey { x: self.keys[i].x.clone(), kid: self.keys[i].kid.clone() });
            i = i + 1;
        }
        let ghost listed = keys@.map_values(|key: PublishedKey| (key.x@, key.kid@));
        assert(listed =~= self@.keys.map_values(|key: KeyView| (key.x, key.kid)));
        Reply::Keys { keys }
    }
}

/// How long a path can be: beyond any memory.
pub const MAX_REQUEST_PATH_BYTES: u64 = 0x80_0000_0000_0000;

/// The key of a root at the front of a path and a valid id fits if the path does.
proof fn lemma_route_key_fits(path: Seq<char>, root: Seq<char>, id: Seq<char>)
    requires
        utf8_len(path) <= MAX_REQUEST_PATH_BYTES,
        exists|cut: int| 0 <= cut <= path.len() && root == #[trigger] path.take(cut),
        valid_id(id),
    ensures
        fits_token(key_of(root, id)),
{
    let cut = choose|cut: int| 0 <= cut <= path.len() && root == #[trigger] path.take(cut);
    assert(path =~= path.take(cut) + path.skip(cut));
    lemma_utf8_len_concat(path.take(cut), path.skip(cut));
    assert(vstd::utf8::is_ascii_chars(id)) by {
        assert forall|i: int| 0 <= i < id.len() implies '\0' <= #[trigger] id[i] <= '\u{7f}' by {
            assert(is_id_char(id[i]));
        }
    }
    lemma_utf8_len_ascii(id);
    let zero = seq!['\0'];
    lemma_utf8_len_ascii(zero);
    assert(root.push('\0') =~= root + zero);
    lemma_utf8_len_concat(root, zero);
    lemma_utf8_len_concat(root.push('\0'), id);
}

impl ManagerState {
    /// Answer a request at a subscription itself.
    fn handle_base(
        &mut self,
        root: String,
        id: String,
        method: Method,
        json: bool,
        body: ReqBody,
        rules: &CreationRules<'_>,
        findings: Findings,
        table: &StreamTable,
    ) -> (r: Prepared)
        requires
            old(self).wf(),
            table.wf(),
            fits_token(key_of(root@, id@)),
        ensures
            final(self).wf(),
            r.carries(
                final(self)@,
                old(self)@.handle_base(
                    root@,
                    id@,
                    method,
                    json,
                    body@,
                    rules@,
                    findings@,
                    table@,
                ),
            ),
    {
        match method {
            Method::Put => {
                if !json {
                    return Prepared::reply_only(json_content_type_required());
                }
                let raw = match body {
                    ReqBody::Create(raw) => Some(raw),
                    _ => None,
                };
                self.handle_create(
                    root,
                    id,
                    raw,
                    findings.found,
                    rules,
                    findings.created_at,
                    table,
                )
            },
            Method::Get => self.handle_describe(root.as_str(), id.as_str(), rules.signing_kid),
            Method::Delete => self.handle_delete(root.as_str(), id.as_str()),
            _ => Prepared::reply_only(Reply::MethodNotAllowed),
        }
    }

    /// Answer a request at one of the routes that take a posted document.
    fn handle_post(
        &mut self,
        route: Route,
        token: Option<String>,
        body: ReqBody,
        findings: Findings,
        around: &Surroundings<'_>,
    ) -> (r: Prepared)
        requires
            old(self).wf(),
            around.wf(),
            route_parts(route@) matches Some((root, id)) ==> fits_token(key_of(root, id)),
            token matches Some(text) ==> fits_token(text@),
        ensures
            final(self).wf(),
            r.carries(
                final(self)@,
                old(self)@.handle_post(route@, opt_text(token), body@, findings@, around@),
            ),
    {
        match route {
            Route::Streams(root, id) => {
                let streams = match body {
                    ReqBody::Streams(streams) => Some(streams),
                    _ => None,
                };
                self.handle_add_streams(root.as_str(), id.as_str(), streams, around.table)
            },
            Route::Claim(root, id) => {
                let worker = match body {
                    ReqBody::Claim(worker) => Some(worker),
                    _ => None,
                };
                self.handle_claim(root.as_str(), id.as_str(), findings.auth, worker, around)
            },
            Route::Callback(root, id) => self.handle_callback(
                root.as_str(),
                id.as_str(),
                SubscriptionKind::Webhook,
                token,
                report_of(body),
                around,
            ),
            Route::Ack(root, id) => self.handle_callback(
                root.as_str(),
                id.as_str(),
                SubscriptionKind::PullWake,
                token,
                report_of(body),
                around,
            ),
            Route::Release(root, id) => self.handle_release(
                root.as_str(),
                id.as_str(),
                token,
                report_of(body),
                around,
            ),
            _ => Prepared::reply_only(Reply::MethodNotAllowed),
        }
    }
}

impl SubscriptionManager {
    /// Answer a request. Where the reply carries a change, the change is in
    /// place but still to be kept: see [`SubscriptionManager::finish`].
    #[verifier::rlimit(60)]
    pub fn handle(
        &mut self,
        req: Req,
        findings: Findings,
        table: &StreamTable,
        seed: &WakeSeed,
        now_ms: u64,
    ) -> (r: Prepared)
        requires
            old(self).wf(),
            table.wf(),
            seed@.full(),
            utf8_len(req.path@) <= MAX_REQUEST_PATH_BYTES,
            bearer_of(opt_text(req.authorization)) matches Some(token) ==> fits_token(token),
        ensures
            final(self).wf(),
            final(self).same_setting(old(self)),
            r.carries(
                final(self).state@,
                old(self).state@.handle(
                    req,
                    old(self).signing_keys@,
                    old(self).rules(),
                    findings@,
                    (SurroundingsView {
                        table: table@,
                        secret: old(self).token_secret@,
                        seed: seed@,
                        now_ms,
                    }),
                ),
            ),
    {
        if req.body_len > MAX_SUBSCRIPTION_BODY_BYTES {
            return Prepared::refuse(
                413,
                "REQUEST_TOO_LARGE",
                "Subscription request body is too large",
            );
        }
        let route = parse_route(req.path.as_str());
        proof {
            lemma_route_parts(req.path@);
        }
        let json = request_is_json(&req.content_type);
        match route {
            Route::Jwks => {
                if req.method != Method::Get {
                    return Prepared::reply_only(Reply::MethodNotAllowed);
                }
                if !findings.keys_fresh {
                    return Prepared::reply_only(internal_subscription_error());
                }
                Prepared::reply_only(self.signing_keys.jwks())
            },
            Route::Base(root, id) => {
                let (kid, _) = self.signing_keys.active_signing_metadata();
                let rules = CreationRules {
                    public_base_url: &self.public_base_url,
                    allow_local: self.allow_local_webhooks,
                    signing_kid: kid.as_str(),
                };
                self.state.handle_base(
                    root,
                    id,
                    req.method,
                    json,
                    req.body,
                    &rules,
                    findings,
                    table,
                )
            },
            Route::Stream(root, id, stream) => {
                if req.method != Method::Delete {
                    return Prepared::reply_only(Reply::MethodNotAllowed);
                }
                self.state.handle_remove_stream(root.as_str(), id.as_str(), stream.as_str())
            },
            Route::UnknownControl => Prepared::refuse(
                404,
                "SUBSCRIPTION_NOT_FOUND",
                "Durable Streams control route not found",
            ),
            route => {
                if req.method != Method::Post {
                    return Prepared::reply_only(Reply::MethodNotAllowed);
                }
                if !json {
                    return Prepared::reply_only(json_content_type_required());
                }
                let token = bearer_token(&req.authorization);
                let around = Surroundings { table, secret: &self.token_secret, seed, now_ms };
                self.state.handle_post(route, token, req.body, findings, &around)
            },
        }
    }

    /// Finish a request, given whether its change was kept.
    pub fn finish(&mut self, prepared: Prepared, kept: bool) -> (r: Finished)
        requires
            old(self).wf(),
            prepared.change matches Some(change) ==> change.undo.wf(),
        ensures
            final(self).wf(),
            final(self).same_setting(old(self)),
            final(self).state@ == (match prepared.change {
                Some(change) => if kept {
                    old(self).state@
                } else {
                    old(self).state@.undone(change.undo@)
                },
                None => old(self).state@,
            }),
            r.follows(prepared, kept),
    {
        self.state.finish(prepared, kept)
    }
}

/// The body as a report.
fn report_of(body: ReqBody) -> (r: Option<CallbackRequest>)
    ensures
        opt_callback(r) == body@.callback(),
{
    match body {
        ReqBody::Callback(request) => Some(request),
        _ => None,
    }
}

/// The root and the id that a route carries.
spec fn route_parts(route: RouteView) -> Option<(Seq<char>, Seq<char>)> {
    match route {
        RouteView::Base(root, id) => Some((root, id)),
        RouteView::Streams(root, id) => Some((root, id)),
        RouteView::Stream(root, id, _) => Some((root, id)),
        RouteView::Callback(root, id) => Some((root, id)),
        RouteView::Claim(root, id) => Some((root, id)),
        RouteView::Ack(root, id) => Some((root, id)),
        RouteView::Release(root, id) => Some((root, id)),
        _ => None,
    }
}

/// The key of a route fits if the path does.
proof fn lemma_route_parts(path: Seq<char>)
    requires
        utf8_len(path) <= MAX_REQUEST_PATH_BYTES,
    ensures
        route_parts(route_of(path)) matches Some((root, id)) ==> fits_token(key_of(root, id)),
{
    if crate::subscriptions::paths::is_control(path) {
        crate::subscriptions::route::law_root_precedes_first_reserved_segment(path);
        let cut = crate::subscriptions::route::first_reserved(path);
        if let Some((root, id)) = route_parts(route_of(path)) {
            assert(root == path.take(cut));
            lemma_route_key_fits(path, root, id);
        }
    }
}

} // verus!
