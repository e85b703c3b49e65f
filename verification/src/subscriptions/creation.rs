//! Creating a subscription.

use crate::path_map::{in_order, lemma_in_order, lemma_order_of, PathMap};
use crate::subscriptions::config::{
    config_follows, create_complaint, normalize_create_request, optional_path, requested_kind,
    trimmed_paths, ConfigView, RawCreateRequest, RawCreateView, SubscriptionConfig,
    SubscriptionKind, SubscriptionStatus,
};
use crate::subscriptions::links::{listed, list_streams, StreamStatus, StreamTable};
use crate::subscriptions::paths::{absolute_path, absolute_stream_path, key_of, subscription_key};
use crate::subscriptions::reply::{Reply, ReplyView};
use crate::subscriptions::state::{
    entry_of, law_undo_restores, mentions, ManagerState, StateView, Touched, Undo,
};
use crate::subscriptions::steps::{only_reply, refusal, Change, Prepared, StepView};
use crate::subscriptions::subscription::{SubView, Subscription};
use crate::subscriptions::token::fits_token;
use crate::subscriptions::webhook::{validate_webhook_url_with_local_policy, webhook_complaint};
use crate::text::{opt_text, same_text, texts};
use vstd::prelude::*;

verus! {

/// How many subscriptions there may be.
pub const MAX_SUBSCRIPTIONS: usize = 4096;

/// How many subscriptions one root may have.
pub const MAX_SUBSCRIPTIONS_PER_ROOT: usize = 1024;

/// What a look at the wake stream found.
#[derive(Clone, Copy, Debug, PartialEq, Eq, Structural)]
pub enum WakeStreamLookup {
    Live { closed: bool, is_json: bool },
    Gone,
    Missing,
    Expired,
}

/// What is wrong with a stream as a wake channel.
pub open spec fn wake_stream_complaint(
    wake_stream: Option<Seq<char>>,
    found: WakeStreamLookup,
) -> Option<Seq<char>> {
    if wake_stream is None {
        Some("pull-wake subscriptions require wake_stream"@)
    } else {
        match found {
            WakeStreamLookup::Gone => Some("wake_stream is deleted"@),
            WakeStreamLookup::Missing => Some(
                "wake_stream must be created before the subscription"@,
            ),
            WakeStreamLookup::Expired => Some(
                "wake_stream must be created before the subscription"@,
            ),
            WakeStreamLookup::Live { closed, is_json } => if closed {
                Some("wake_stream must be open"@)
            } else if !is_json {
                Some("wake_stream must use application/json"@)
            } else {
                None
            },
        }
    }
}

/// Whether a stream can be the wake channel of a subscription.
pub fn validate_wake_stream(config: &SubscriptionConfig, found: WakeStreamLookup) -> (r: Result<
    (),
    &'static str,
>)
    ensures
        match wake_stream_complaint(config@.wake_stream, found) {
            Some(complaint) => r matches Err(message) && message@ == complaint,
            None => r is Ok,
        },
{
    if config.wake_stream.is_none() {
        return Err("pull-wake subscriptions require wake_stream");
    }
    match found {
        WakeStreamLookup::Gone => Err("wake_stream is deleted"),
        WakeStreamLookup::Missing => Err("wake_stream must be created before the subscription"),
        WakeStreamLookup::Expired => Err("wake_stream must be created before the subscription"),
        WakeStreamLookup::Live { closed, is_json } => if closed {
            Err("wake_stream must be open")
        } else if !is_json {
            Err("wake_stream must use application/json")
        } else {
            Ok(())
        },
    }
}

/// A time of day and date in the notation of RFC 3339, if the calendar reaches it.
pub uninterp spec fn rfc3339_text(nanos_since_epoch: int) -> Option<Seq<char>>;

/// `time::OffsetDateTime::from_unix_timestamp_nanos` and
/// `time::OffsetDateTime::format` with `Rfc3339`: a function of the timestamp,
/// without a result outside the calendar.
#[verifier::external_body]
fn format_rfc3339(nanos_since_epoch: i128) -> (r: Option<String>)
    ensures
        opt_text(r) == rfc3339_text(nanos_since_epoch as int),
{
    let time = time::OffsetDateTime::from_unix_timestamp_nanos(nanos_since_epoch).ok()?;
    time.format(&time::format_description::well_known::Rfc3339).ok()
}

/// The text that notes when a subscription was created.
pub open spec fn created_at_text(formatted: Option<Seq<char>>) -> Seq<char> {
    match formatted {
        Some(text) => text,
        None => "1970-01-01T00:00:00Z"@,
    }
}

/// The text that notes when a subscription was created.
pub fn created_at(nanos_since_epoch: i128) -> (r: String)
    ensures
        r@ == created_at_text(rfc3339_text(nanos_since_epoch as int)),
{
    match format_rfc3339(nanos_since_epoch) {
        Some(text) => text,
        None => "1970-01-01T00:00:00Z".to_owned(),
    }
}

/// The fixed part of the subscription that a request asks for.
pub open spec fn config_of(raw: RawCreateView) -> ConfigView {
    ConfigView {
        kind: requested_kind(raw.kind)->0,
        pattern: optional_path(raw.pattern),
        streams: in_order(trimmed_paths(raw.streams).to_set()),
        webhook_url: raw.webhook_url,
        wake_stream: optional_path(raw.wake_stream),
        lease_ttl_ms: raw.lease_ttl_ms,
        description: raw.description,
    }
}

/// A request asks for one configuration.
proof fn lemma_one_config(config: ConfigView, raw: RawCreateView)
    requires
        config_follows(config, raw),
    ensures
        config == config_of(raw),
{
    lemma_in_order(config.streams);
}

/// The configuration of a request follows it.
pub proof fn lemma_config_follows(raw: RawCreateView)
    requires
        requested_kind(raw.kind) is Some,
    ensures
        config_follows(config_of(raw), raw),
{
    vstd::seq_lib::seq_to_set_is_finite(trimmed_paths(raw.streams));
    lemma_order_of(trimmed_paths(raw.streams).to_set());
}

/// A subscription without links and without a wake.
pub open spec fn blank(
    id: Seq<char>,
    root: Seq<char>,
    config: ConfigView,
    callback_base: Seq<char>,
    created_at: Seq<char>,
) -> SubView {
    SubView {
        id,
        root,
        config,
        callback_base,
        created_at,
        status: SubscriptionStatus::Active,
        streams: Map::empty(),
        generation: 0,
        wake_id: None,
        wake_snapshot: Map::empty(),
        token: None,
        holder: None,
        lease_nonce: 0,
        retry_count: 0,
        next_attempt_at_ms: None,
        lease_expires_at_ms: None,
        wake_trigger: None,
        wake_delivery_pending: false,
    }
}

/// What the server brings to a creation: its public address, whether webhooks
/// may go to the local host, and the key that signs them.
pub struct CreationRules<'a> {
    pub public_base_url: &'a Option<String>,
    pub allow_local: bool,
    pub signing_kid: &'a str,
}

/// The rules of a creation as a mathematical value.
pub struct CreationRulesView {
    pub public_base_url: Option<Seq<char>>,
    pub allow_local: bool,
    pub signing_kid: Seq<char>,
}

impl<'a> View for CreationRules<'a> {
    type V = CreationRulesView;

    open spec fn view(&self) -> CreationRulesView {
        CreationRulesView {
            public_base_url: opt_text(*self.public_base_url),
            allow_local: self.allow_local,
            signing_kid: self.signing_kid@,
        }
    }
}

/// Why a request to create a subscription is refused whatever subscriptions
/// there are.
pub open spec fn request_refusal(
    raw: Option<RawCreateView>,
    found: WakeStreamLookup,
    rules: CreationRulesView,
) -> Option<ReplyView> {
    if raw is None {
        Some(
            ReplyView::Refused {
                status: 400,
                code: "INVALID_REQUEST"@,
                message: "Request body must be valid JSON"@,
            },
        )
    } else if let Some(complaint) = create_complaint(raw->0) {
        Some(ReplyView::Refused { status: 400, code: "INVALID_REQUEST"@, message: complaint })
    } else {
        let config = config_of(raw->0);
        if config.webhook_url is Some && webhook_complaint(
            config.webhook_url->0,
            rules.allow_local,
        ) is Some {
            Some(
                ReplyView::Refused {
                    status: 400,
                    code: "WEBHOOK_URL_REJECTED"@,
                    message: webhook_complaint(config.webhook_url->0, rules.allow_local)->0,
                },
            )
        } else if config.kind == SubscriptionKind::PullWake && wake_stream_complaint(
            config.wake_stream,
            found,
        ) is Some {
            Some(
                ReplyView::Refused {
                    status: 409,
                    code: "WAKE_STREAM_INVALID"@,
                    message: wake_stream_complaint(config.wake_stream, found)->0,
                },
            )
        } else if config.kind == SubscriptionKind::Webhook && rules.public_base_url is None {
            Some(
                ReplyView::Refused {
                    status: 503,
                    code: "PUBLIC_BASE_URL_REQUIRED"@,
                    message: "DS_PUBLIC_BASE_URL is required for webhook subscriptions"@,
                },
            )
        } else {
            None
        }
    }
}

impl StateView {
    /// The subscriptions of one root.
    pub open spec fn rooted(self, root: Seq<char>) -> Set<Seq<char>> {
        self.subscriptions.dom().filter(|key: Seq<char>| self.subscriptions[key].root == root)
    }

    /// Whether one of the streams is a wake channel.
    pub open spec fn names_channel(self, root: Seq<char>, streams: Seq<Seq<char>>) -> bool {
        exists|i: int|
            0 <= i < streams.len() && self.wake_streams.contains_key(
                absolute_path(root, #[trigger] streams[i]),
            )
    }

    /// The subscription that a request asks for, with its explicit links.
    pub open spec fn requested(
        self,
        root: Seq<char>,
        id: Seq<char>,
        raw: RawCreateView,
        rules: CreationRulesView,
        created_at: Seq<char>,
        table: Map<Seq<char>, StreamStatus>,
    ) -> SubView {
        let config = config_of(raw);
        let base = if config.kind == SubscriptionKind::Webhook {
            rules.public_base_url->0
        } else {
            Seq::empty()
        };
        blank(id, root, config, base, created_at).with_explicit(table, config.streams)
    }

    /// What a request to create a subscription does.
    pub open spec fn create(
        self,
        root: Seq<char>,
        id: Seq<char>,
        raw: Option<RawCreateView>,
        found: WakeStreamLookup,
        rules: CreationRulesView,
        created_at: Seq<char>,
        table: Map<Seq<char>, StreamStatus>,
    ) -> StepView {
        let key = key_of(root, id);
        if let Some(reply) = request_refusal(raw, found, rules) {
            only_reply(self, reply)
        } else if self.subscriptions.contains_key(key) {
            if self.subscriptions[key].config != config_of(raw->0) {
                refusal(
                    self,
                    409,
                    "SUBSCRIPTION_ALREADY_EXISTS"@,
                    "Subscription already exists with different configuration"@,
                )
            } else {
                only_reply(
                    self,
                    ReplyView::Described {
                        status: 200,
                        document: self.subscriptions[key].document(rules.signing_kid),
                    },
                )
            }
        } else if self.subscriptions.dom().len() >= MAX_SUBSCRIPTIONS {
            refusal(
                self,
                429,
                "SUBSCRIPTION_LIMIT_EXCEEDED"@,
                "Global subscription count limit exceeded"@,
            )
        } else if self.rooted(root).len() >= MAX_SUBSCRIPTIONS_PER_ROOT {
            refusal(
                self,
                429,
                "SUBSCRIPTION_LIMIT_EXCEEDED"@,
                "Subscription count limit exceeded for this stream root"@,
            )
        } else if self.names_channel(root, config_of(raw->0).streams) {
            refusal(
                self,
                400,
                "INVALID_REQUEST"@,
                "streams must not include a registered wake stream"@,
            )
        } else {
            let requested = self.requested(root, id, raw->0, rules, created_at, table);
            let names = listed(in_order(table.dom()), table, root);
            let sub = requested.with_globs(table, self.wake_streams.dom(), names);
            if requested.over_limit(sub) {
                refusal(
                    self,
                    429,
                    "SUBSCRIPTION_LIMIT_EXCEEDED"@,
                    "Subscription stream limit exceeded"@,
                )
            } else {
                StepView {
                    state: self.with_channel(sub, table).with_sub(key, sub),
                    base: self,
                    reply: ReplyView::Described {
                        status: 201,
                        document: sub.document(rules.signing_kid),
                    },
                    keep: true,
                    delivery: None,
                    lease: None,
                }
            }
        }
    }
}

/// The stream that a request to create a subscription wants to be looked up: the
/// wake channel of a sound request for pull-wake, and nothing for any other.
pub fn wanted_wake_stream(stream_root: &str, raw: RawCreateRequest) -> (r: Option<String>)
    ensures
        match r {
            Some(path) => {
                &&& create_complaint(raw@) is None
                &&& config_of(raw@).kind == SubscriptionKind::PullWake
                &&& config_of(raw@).wake_stream matches Some(wake_stream)
                &&& path@ == absolute_path(stream_root@, wake_stream)
            },
            None => create_complaint(raw@) is Some || config_of(raw@).kind
                != SubscriptionKind::PullWake,
        },
{
    let ghost view = raw@;
    match normalize_create_request(raw) {
        Ok(config) => {
            proof {
                lemma_one_config(config@, view);
            }
            match (config.kind, &config.wake_stream) {
                (SubscriptionKind::PullWake, Some(wake_stream)) => Some(
                    absolute_stream_path(stream_root, wake_stream.as_str()),
                ),
                _ => None,
            }
        },
        Err(_) => None,
    }
}

/// The configuration that a request asks for, or the refusal.
fn check_request(
    raw: Option<RawCreateRequest>,
    found: WakeStreamLookup,
    rules: &CreationRules<'_>,
) -> (r: Result<SubscriptionConfig, Reply>)
    ensures
        ({
            let view = match raw {
                Some(raw) => Some(raw@),
                None => None,
            };
            match request_refusal(view, found, rules@) {
                Some(reply) => r matches Err(actual) && actual@ == reply,
                None => {
                    &&& raw is Some
                    &&& r matches Ok(config)
                    &&& config@ == config_of(raw->0@)
                },
            }
        }),
{
    let raw = match raw {
        Some(raw) => raw,
        None => {
            return Err(
                Reply::Refused {
                    status: 400,
                    code: "INVALID_REQUEST",
                    message: "Request body must be valid JSON",
                },
            );
        },
    };
    let ghost view = raw@;
    let config = match normalize_create_request(raw) {
        Ok(config) => config,
        Err(message) => {
            return Err(Reply::Refused { status: 400, code: "INVALID_REQUEST", message });
        },
    };
    proof {
        lemma_one_config(config@, view);
    }
    match &config.webhook_url {
        Some(url) => match validate_webhook_url_with_local_policy(url.as_str(), rules.allow_local) {
            Ok(()) => {},
            Err(message) => {
                return Err(Reply::Refused { status: 400, code: "WEBHOOK_URL_REJECTED", message });
            },
        },
        None => {},
    }
    if config.kind == SubscriptionKind::PullWake {
        match validate_wake_stream(&config, found) {
            Ok(()) => {},
            Err(message) => {
                return Err(Reply::Refused { status: 409, code: "WAKE_STREAM_INVALID", message });
            },
        }
    }
    if config.kind == SubscriptionKind::Webhook && rules.public_base_url.is_none() {
        return Err(
            Reply::Refused {
                status: 503,
                code: "PUBLIC_BASE_URL_REQUIRED",
                message: "DS_PUBLIC_BASE_URL is required for webhook subscriptions",
            },
        );
    }
    Ok(config)
}

impl ManagerState {
    /// How many subscriptions one root has.
    fn count_rooted(&self, root: &str) -> (r: usize)
        requires
            self.wf(),
        ensures
            r == self@.rooted(root@).len(),
    {
        let ghost keys = self.subscriptions.key_list();
        let ghost wanted = |key: Seq<char>| self@.subscriptions[key].root == root@;
        let mut count: usize = 0;
        let mut i: usize = 0;
        proof {
            self.subscriptions.lemma_lists();
            assert(keys.take(0).to_set().filter(wanted) =~= Set::<Seq<char>>::empty());
        }
        while i < self.subscriptions.len()
            invariant
                self.wf(),
                keys == self.subscriptions.key_list(),
                keys.no_duplicates(),
                wanted == (|key: Seq<char>| self@.subscriptions[key].root == root@),
                i <= keys.len(),
                count <= i,
                keys.take(i as int).to_set().filter(wanted).finite(),
                count == keys.take(i as int).to_set().filter(wanted).len(),
            decreases keys.len() - i,
        {
            let ghost before = keys.take(i as int).to_set();
            let ghost key = keys[i as int];
            proof {
                crate::subscriptions::subscription::lemma_take_contains(keys, i as int);
                assert(keys.take(i + 1).to_set() =~= before.insert(key));
                if before.contains(key) {
                    let k = choose|k: int| 0 <= k < i && keys.take(i as int)[k] == key;
                    assert(keys[k] == key);
                }
            }
            if same_text(self.at(i).stream_root.as_str(), root) {
                assert(before.insert(key).filter(wanted) =~= before.filter(wanted).insert(key));
                count = count + 1;
            } else {
                assert(before.insert(key).filter(wanted) =~= before.filter(wanted));
            }
            i = i + 1;
        }
        proof {
            self.subscriptions.lemma_lists();
            assert(keys.take(keys.len() as int) =~= keys);
            assert(keys.to_set().filter(wanted) =~= self@.rooted(root@));
        }
        count
    }

    /// Whether one of the streams is a wake channel.
    pub(crate) fn names_channel(&self, root: &str, streams: &Vec<String>) -> (r: bool)
        requires
            self.wf(),
        ensures
            r == self@.names_channel(root@, texts(streams@)),
    {
        let mut i: usize = 0;
        while i < streams.len()
            invariant
                self.wf(),
                i <= streams@.len(),
                forall|k: int|
                    0 <= k < i ==> !self@.wake_streams.contains_key(
                        absolute_path(root@, #[trigger] texts(streams@)[k]),
                    ),
            decreases streams.len() - i,
        {
            let path = absolute_stream_path(root, streams[i].as_str());
            assert(texts(streams@)[i as int] == streams@[i as int]@);
            if self.wake_streams.contains(path.as_str()) {
                return true;
            }
            i = i + 1;
        }
        false
    }

    /// Create a subscription, or find that it is there already.
    pub fn handle_create(
        &mut self,
        stream_root: String,
        id: String,
        raw: Option<RawCreateRequest>,
        found: WakeStreamLookup,
        rules: &CreationRules<'_>,
        created_at: String,
        table: &StreamTable,
    ) -> (r: Prepared)
        requires
            old(self).wf(),
            table.wf(),
            fits_token(key_of(stream_root@, id@)),
        ensures
            final(self).wf(),
            r.carries(
                final(self)@,
                old(self)@.create(
                    stream_root@,
                    id@,
                    match raw {
                        Some(raw) => Some(raw@),
                        None => None,
                    },
                    found,
                    rules@,
                    created_at@,
                    table@,
                ),
            ),
    {
        let ghost view = raw;
        let config = match check_request(raw, found, rules) {
            Ok(config) => config,
            Err(reply) => {
                return Prepared::reply_only(reply);
            },
        };
        let key = subscription_key(stream_root.as_str(), id.as_str());
        match self.subscriptions.position(key.as_str()) {
            Some(at) => {
                let existing = self.at(at);
                if !existing.config.same_as(&config) {
                    return Prepared::refuse(
                        409,
                        "SUBSCRIPTION_ALREADY_EXISTS",
                        "Subscription already exists with different configuration",
                    );
                }
                return Prepared::reply_only(
                    Reply::Described {
                        status: 200,
                        document: existing.serialize(rules.signing_kid),
                    },
                );
            },
            None => {},
        }
        if self.subscriptions.len() >= MAX_SUBSCRIPTIONS {
            return Prepared::refuse(
                429,
                "SUBSCRIPTION_LIMIT_EXCEEDED",
                "Global subscription count limit exceeded",
            );
        }
        if self.count_rooted(stream_root.as_str()) >= MAX_SUBSCRIPTIONS_PER_ROOT {
            return Prepared::refuse(
                429,
                "SUBSCRIPTION_LIMIT_EXCEEDED",
                "Subscription count limit exceeded for this stream root",
            );
        }
        if self.names_channel(stream_root.as_str(), &config.streams) {
            return Prepared::refuse(
                400,
                "INVALID_REQUEST",
                "streams must not include a registered wake stream",
            );
        }
        let callback_base_url = match (config.kind, rules.public_base_url) {
            (SubscriptionKind::Webhook, Some(url)) => url.clone(),
            _ => String::new(),
        };
        let names = list_streams(table, stream_root.as_str());
        let explicit = config.copy();
        let mut sub = Subscription {
            id,
            stream_root,
            config,
            callback_base_url,
            created_at,
            status: SubscriptionStatus::Active,
            streams: PathMap::new(),
            generation: 0,
            wake_id: None,
            wake_snapshot: PathMap::new(),
            token: None,
            holder: None,
            lease_nonce: 0,
            retry_count: 0,
            next_attempt_at_ms: None,
            lease_expires_at_ms: None,
            wake_trigger: None,
            wake_delivery_pending: false,
        };
        assert(sub@ =~= blank(
            id@,
            stream_root@,
            config_of(view->0@),
            callback_base_url@,
            created_at@,
        ));
        sub.link_explicit(&explicit.streams, table);
        if !sub.link_globs(&names, &self.wake_streams, table) {
            return Prepared::refuse(
                429,
                "SUBSCRIPTION_LIMIT_EXCEEDED",
                "Subscription stream limit exceeded",
            );
        }
        let document = sub.serialize(rules.signing_kid);
        let ghost before = self@;
        let ghost added = sub@;
        let Undo { mut touched, channel } = self.register_wake_stream(&sub, table);
        let ghost registered = self@;
        let ghost part = Undo { touched, channel };
        assert(part@.covers(registered, before));
        touched.push(Touched { key: key.clone(), before: None });
        self.subscriptions.insert(key, sub);
        let undo = Undo { touched, channel };
        proof {
            let list = undo@.touched;
            assert(list =~= part@.touched.push((added.key(), None)));
            assert forall|t: int| 0 <= t < list.len() implies (#[trigger] list[t]).1 == entry_of(
                before.subscriptions,
                list[t].0,
            ) by {
                if t < part@.touched.len() {
                    assert(list[t] == part@.touched[t]);
                }
            }
            assert forall|k: Seq<char>|
                #![trigger entry_of(self@.subscriptions, k)]
                !mentions(list, k) implies entry_of(self@.subscriptions, k) == entry_of(
                before.subscriptions,
                k,
            ) by {
                assert(list[list.len() - 1].0 != k);
                assert(entry_of(registered.subscriptions, k) == entry_of(
                    self@.subscriptions,
                    k,
                ));
                if mentions(part@.touched, k) {
                    let t = choose|t: int|
                        0 <= t < part@.touched.len() && (#[trigger] part@.touched[t]).0 == k;
                    assert(list[t].0 == k);
                }
            }
            assert(undo@.covers(self@, before));
            law_undo_restores(undo@, self@, before);
            assert forall|t: int| 0 <= t < undo.touched@.len() implies ((
            #[trigger] undo.touched@[t]).before matches Some(s) ==> s.wf() && s@.key()
                == undo.touched@[t].key@) by {
                if t < part.touched@.len() {
                    assert(undo.touched@[t] == part.touched@[t]);
                }
            }
        }
        Prepared {
            reply: Reply::Described { status: 201, document },
            change: Some(Change { undo, delivery: None, lease: None }),
        }
    }
}

} // verus!
