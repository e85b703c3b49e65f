//! Requests to the control plane and the replies to them.

use crate::path_map::in_order;
use crate::subscriptions::config::{RawCreateRequest, SubscriptionKind, SubscriptionStatus};
use crate::subscriptions::subscription::{
    info_list, AckRequest, InfoView, StreamInfo, SubView, Subscription,
};
use crate::text::{
    after_prefix, ascii_lower, copy_optional, opt_text, same_text, split_on, split_text,
    starts_with, texts, to_ascii_lower, trim_end, trim_end_char, trim_space, trimmed,
};
use vstd::prelude::*;

verus! {

/// The longest body that is read.
pub const MAX_SUBSCRIPTION_BODY_BYTES: usize = 1_048_576;

/// The method of a request.
#[derive(Clone, Copy, Debug, PartialEq, Eq, Structural)]
pub enum Method {
    Get,
    Put,
    Post,
    Delete,
    Other,
}

/// What a worker reports about a wake.
pub struct CallbackRequest {
    pub wake_id: Option<String>,
    pub generation: Option<u64>,
    pub acks: Option<Vec<AckRequest>>,
    pub done: Option<bool>,
}

/// The body of a request, read as what its route expects.
pub enum ReqBody {
    Unreadable,
    Create(RawCreateRequest),
    Streams(Vec<String>),
    Claim(String),
    Callback(CallbackRequest),
}

/// A request.
pub struct Req {
    pub method: Method,
    pub path: String,
    pub content_type: Option<String>,
    pub authorization: Option<String>,
    pub body_len: usize,
    pub body: ReqBody,
}

/// Whether a content type says JSON.
pub open spec fn says_json(content_type: Option<Seq<char>>) -> bool {
    content_type matches Some(value) && ascii_lower(trim_space(split_on(value, ';')[0]))
        == "application/json"@
}

/// Whether a content type says JSON.
pub fn request_is_json(content_type: &Option<String>) -> (r: bool)
    ensures
        r == says_json(opt_text(*content_type)),
{
    match content_type {
        Some(value) => {
            let parts = split_text(value.as_str(), ';');
            assert(texts(parts@)[0] == parts@[0]@);
            let essence = trimmed(parts[0].as_str());
            let lower = to_ascii_lower(essence.as_str());
            same_text(lower.as_str(), "application/json")
        },
        None => false,
    }
}

/// The token that an authorization header carries.
pub open spec fn bearer_of(authorization: Option<Seq<char>>) -> Option<Seq<char>> {
    match authorization {
        Some(header) => if starts_with(header, "Bearer "@) && header.len() > "Bearer "@.len() {
            Some(header.skip("Bearer "@.len() as int))
        } else {
            None
        },
        None => None,
    }
}

/// The token that an authorization header carries.
pub fn bearer_token(authorization: &Option<String>) -> (r: Option<String>)
    ensures
        opt_text(r) == bearer_of(opt_text(*authorization)),
{
    match authorization {
        Some(header) => match after_prefix(header.as_str(), "Bearer ") {
            Some(token) => {
                let empty = String::new();
                if same_text(token.as_str(), empty.as_str()) {
                    assert(token@.len() == 0);
                    None
                } else {
                    assert(token@.len() > 0) by {
                        if token@.len() == 0 {
                            assert(token@ =~= empty@);
                        }
                    }
                    Some(token)
                }
            },
            None => None,
        },
        None => None,
    }
}

/// What is told about a linked stream in the description of its subscription.
pub struct LinkInfo {
    pub path: String,
    pub link_type: &'static str,
    pub acked_offset: String,
}

/// What is told about a linked stream in the description of its subscription.
#[verifier::ext_equal]
pub struct LinkInfoView {
    pub path: Seq<char>,
    pub link_type: Seq<char>,
    pub acked: Seq<char>,
}

impl View for LinkInfo {
    type V = LinkInfoView;

    open spec fn view(&self) -> LinkInfoView {
        LinkInfoView {
            path: self.path@,
            link_type: self.link_type@,
            acked: self.acked_offset@,
        }
    }
}

/// How webhooks of a subscription are signed.
pub struct WebhookInfo {
    pub url: String,
    pub kid: String,
    pub jwks_url: String,
}

/// How webhooks of a subscription are signed.
#[verifier::ext_equal]
pub struct WebhookInfoView {
    pub url: Seq<char>,
    pub kid: Seq<char>,
    pub jwks_url: Seq<char>,
}

/// The description of a subscription.
pub struct Document {
    pub id: String,
    pub kind: SubscriptionKind,
    pub pattern: Option<String>,
    pub streams: Vec<LinkInfo>,
    pub webhook: Option<WebhookInfo>,
    pub wake_stream: Option<String>,
    pub lease_ttl_ms: u64,
    pub created_at: String,
    pub status: SubscriptionStatus,
    pub description: Option<String>,
}

/// The description of a subscription as a mathematical value.
#[verifier::ext_equal]
pub struct DocumentView {
    pub id: Seq<char>,
    pub kind: SubscriptionKind,
    pub pattern: Option<Seq<char>>,
    pub streams: Seq<LinkInfoView>,
    pub webhook: Option<WebhookInfoView>,
    pub wake_stream: Option<Seq<char>>,
    pub lease_ttl_ms: u64,
    pub created_at: Seq<char>,
    pub status: SubscriptionStatus,
    pub description: Option<Seq<char>>,
}

impl View for Document {
    type V = DocumentView;

    open spec fn view(&self) -> DocumentView {
        DocumentView {
            id: self.id@,
            kind: self.kind,
            pattern: opt_text(self.pattern),
            streams: self.streams@.map_values(|info: LinkInfo| info@),
            webhook: match self.webhook {
                Some(webhook) => Some(
                    WebhookInfoView {
                        url: webhook.url@,
                        kid: webhook.kid@,
                        jwks_url: webhook.jwks_url@,
                    },
                ),
                None => None,
            },
            wake_stream: opt_text(self.wake_stream),
            lease_ttl_ms: self.lease_ttl_ms,
            created_at: self.created_at@,
            status: self.status,
            description: opt_text(self.description),
        }
    }
}

impl SubView {
    /// What is told about a linked stream in the description.
    pub open spec fn link_info(self, path: Seq<char>) -> LinkInfoView {
        LinkInfoView {
            path,
            link_type: if self.streams[path].explicit {
                "explicit"@
            } else {
                "glob"@
            },
            acked: self.streams[path].acked,
        }
    }

    /// The address below the public one at which the subscription's root is reached.
    pub open spec fn public_root(self) -> Seq<char> {
        trim_end(self.callback_base, '/') + self.root
    }

    /// The description of the subscription.
    pub open spec fn document(self, signing_kid: Seq<char>) -> DocumentView {
        DocumentView {
            id: self.id,
            kind: self.config.kind,
            pattern: self.config.pattern,
            streams: in_order(self.streams.dom()).map_values(
                |path: Seq<char>| self.link_info(path),
            ),
            webhook: if self.config.kind == SubscriptionKind::Webhook && self.config.webhook_url
                is Some {
                Some(
                    WebhookInfoView {
                        url: self.config.webhook_url->0,
                        kid: signing_kid,
                        jwks_url: self.public_root() + "/__ds/jwks.json"@,
                    },
                )
            } else {
                None
            },
            wake_stream: self.config.wake_stream,
            lease_ttl_ms: self.config.lease_ttl_ms,
            created_at: self.created_at,
            status: self.status,
            description: self.config.description,
        }
    }
}

impl Subscription {
    /// The address below the public one at which the subscription's root is reached.
    pub fn public_root(&self) -> (r: String)
        ensures
            r@ == self@.public_root(),
    {
        let mut url = trim_end_char(self.callback_base_url.as_str(), '/');
        url.append(self.stream_root.as_str());
        url
    }

    /// The description of the subscription.
    pub fn serialize(&self, signing_kid: &str) -> (r: Document)
        requires
            self.wf(),
        ensures
            r@ == self@.document(signing_kid@),
    {
        let ghost keys = self.streams.key_list();
        let mut streams: Vec<LinkInfo> = Vec::new();
        let mut i: usize = 0;
        while i < self.streams.len()
            invariant
                self.wf(),
                keys == self.streams.key_list(),
                i <= keys.len(),
                streams@.len() == i,
                forall|k: int| 0 <= k < i ==> (#[trigger] streams@[k])@ == self@.link_info(keys[k]),
            decreases keys.len() - i,
        {
            let link = self.streams.value_at(i);
            let link_type: &'static str = if link.explicit {
                "explicit"
            } else {
                "glob"
            };
            streams.push(
                LinkInfo {
                    path: self.streams.key_at(i).clone(),
                    link_type,
                    acked_offset: link.acked_offset.clone(),
                },
            );
            i = i + 1;
        }
        let webhook = match (self.config.kind, &self.config.webhook_url) {
            (SubscriptionKind::Webhook, Some(url)) => {
                let mut jwks_url = self.public_root();
                jwks_url.append("/__ds/jwks.json");
                Some(WebhookInfo { url: url.clone(), kid: signing_kid.to_owned(), jwks_url })
            },
            _ => None,
        };
        let r = Document {
            id: self.id.clone(),
            kind: self.config.kind,
            pattern: copy_optional(&self.config.pattern),
            streams,
            webhook,
            wake_stream: copy_optional(&self.config.wake_stream),
            lease_ttl_ms: self.config.lease_ttl_ms,
            created_at: self.created_at.clone(),
            status: self.status,
            description: copy_optional(&self.config.description),
        };
        proof {
            self.streams.lemma_lists();
            assert(r@.streams =~= self@.document(signing_kid@).streams);
            assert(r@ =~= self@.document(signing_kid@));
        }
        r
    }
}

/// A published key.
pub struct PublishedKey {
    pub x: String,
    pub kid: String,
}

/// A reply.
pub enum Reply {
    /// Nothing to say: done.
    Done,
    MethodNotAllowed,
    Refused { status: u16, code: &'static str, message: &'static str },
    Described { status: u16, document: Document },
    Keys { keys: Vec<PublishedKey> },
    Claimed {
        wake_id: Option<String>,
        generation: u64,
        token: String,
        streams: Vec<StreamInfo>,
        lease_ttl_ms: u64,
    },
    AlreadyClaimed { holder: String, generation: u64 },
    Acknowledged { next_wake: bool },
}

/// A reply as a mathematical value.
#[verifier::ext_equal]
pub enum ReplyView {
    Done,
    MethodNotAllowed,
    Refused { status: u16, code: Seq<char>, message: Seq<char> },
    Described { status: u16, document: DocumentView },
    Keys { keys: Seq<(Seq<char>, Seq<char>)> },
    Claimed {
        wake_id: Option<Seq<char>>,
        generation: u64,
        token: Seq<char>,
        streams: Seq<InfoView>,
        lease_ttl_ms: u64,
    },
    AlreadyClaimed { holder: Seq<char>, generation: u64 },
    Acknowledged { next_wake: bool },
}

impl View for Reply {
    type V = ReplyView;

    open spec fn view(&self) -> ReplyView {
        match self {
            Reply::Done => ReplyView::Done,
            Reply::MethodNotAllowed => ReplyView::MethodNotAllowed,
            Reply::Refused { status, code, message } => ReplyView::Refused {
                status: *status,
                code: code@,
                message: message@,
            },
            Reply::Described { status, document } => ReplyView::Described {
                status: *status,
                document: document@,
            },
            Reply::Keys { keys } => ReplyView::Keys {
                keys: keys@.map_values(|key: PublishedKey| (key.x@, key.kid@)),
            },
            Reply::Claimed { wake_id, generation, token, streams, lease_ttl_ms } => {
                ReplyView::Claimed {
                    wake_id: opt_text(*wake_id),
                    generation: *generation,
                    token: token@,
                    streams: info_list(streams@),
                    lease_ttl_ms: *lease_ttl_ms,
                }
            },
            Reply::AlreadyClaimed { holder, generation } => ReplyView::AlreadyClaimed {
                holder: holder@,
                generation: *generation,
            },
            Reply::Acknowledged { next_wake } => ReplyView::Acknowledged {
                next_wake: *next_wake,
            },
        }
    }
}

impl ReplyView {
    /// The status code of the reply.
    pub open spec fn status(self) -> u16 {
        match self {
            ReplyView::Done => 204,
            ReplyView::MethodNotAllowed => 405,
            ReplyView::Refused { status, .. } => status,
            ReplyView::Described { status, .. } => status,
            ReplyView::Keys { .. } => 200,
            ReplyView::Claimed { .. } => 200,
            ReplyView::AlreadyClaimed { .. } => 409,
            ReplyView::Acknowledged { .. } => 200,
        }
    }

    /// The type of the reply's body.
    pub open spec fn content_type(self) -> Option<Seq<char>> {
        match self {
            ReplyView::Done => None,
            ReplyView::MethodNotAllowed => Some("text/plain"@),
            ReplyView::Keys { .. } => Some("application/jwk-set+json"@),
            _ => Some("application/json"@),
        }
    }
}

impl Reply {
    /// The status code of the reply.
    pub fn status(&self) -> (r: u16)
        ensures
            r == self@.status(),
    {
        match self {
            Reply::Done => 204,
            Reply::MethodNotAllowed => 405,
            Reply::Refused { status, .. } => *status,
            Reply::Described { status, .. } => *status,
            Reply::Keys { .. } => 200,
            Reply::Claimed { .. } => 200,
            Reply::AlreadyClaimed { .. } => 409,
            Reply::Acknowledged { .. } => 200,
        }
    }

    /// The type of the reply's body.
    pub fn content_type(&self) -> (r: Option<&'static str>)
        ensures
            match r {
                Some(text) => self@.content_type() == Some(text@),
                None => self@.content_type() is None,
            },
    {
        match self {
            Reply::Done => None,
            Reply::MethodNotAllowed => Some("text/plain"),
            Reply::Keys { .. } => Some("application/jwk-set+json"),
            _ => Some("application/json"),
        }
    }

    /// How long the reply may be kept: only the published keys may.
    pub fn cache_control(&self) -> (r: Option<&'static str>)
        ensures
            match r {
                Some(text) => self@ is Keys && text@ == "public, max-age=300, must-revalidate"@,
                None => !(self@ is Keys),
            },
    {
        match self {
            Reply::Keys { .. } => Some("public, max-age=300, must-revalidate"),
            _ => None,
        }
    }
}

/// The refusal of a body that is not JSON.
pub open spec fn json_required() -> ReplyView {
    ReplyView::Refused {
        status: 415,
        code: "UNSUPPORTED_MEDIA_TYPE"@,
        message: "Subscription request bodies require Content-Type: application/json"@,
    }
}

/// The refusal of a body that is not JSON.
pub fn json_content_type_required() -> (r: Reply)
    ensures
        r@ == json_required(),
{
    Reply::Refused {
        status: 415,
        code: "UNSUPPORTED_MEDIA_TYPE",
        message: "Subscription request bodies require Content-Type: application/json",
    }
}

/// The reply where a change could not be kept.
pub open spec fn state_error() -> ReplyView {
    ReplyView::Refused {
        status: 500,
        code: "SUBSCRIPTION_STATE_ERROR"@,
        message: "Subscription state could not be persisted"@,
    }
}

/// The reply where a change could not be kept.
pub fn internal_subscription_error() -> (r: Reply)
    ensures
        r@ == state_error(),
{
    Reply::Refused {
        status: 500,
        code: "SUBSCRIPTION_STATE_ERROR",
        message: "Subscription state could not be persisted",
    }
}

/// The reply where there is no such subscription.
pub open spec fn no_subscription() -> ReplyView {
    ReplyView::Refused {
        status: 404,
        code: "SUBSCRIPTION_NOT_FOUND"@,
        message: "Subscription not found"@,
    }
}

/// The reply where there is no such subscription.
pub fn subscription_not_found() -> (r: Reply)
    ensures
        r@ == no_subscription(),
{
    Reply::Refused {
        status: 404,
        code: "SUBSCRIPTION_NOT_FOUND",
        message: "Subscription not found",
    }
}

} // verus!
