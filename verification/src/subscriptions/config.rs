//! What a client may ask a subscription to be.

use crate::path_map::{strictly_sorted, PathMap};
use crate::subscriptions::paths::{
    normalize_relative_path, valid_relative_stream_path, valid_stream_path,
};
use crate::text::{copy_optional, opt_text, same_optional, same_text, split_on, split_text, texts, trim_both, utf8_len};
use vstd::prelude::*;

verus! {

pub const DEFAULT_LEASE_TTL_MS: u64 = 30_000;

pub const MIN_LEASE_TTL_MS: u64 = 1_000;

pub const MAX_LEASE_TTL_MS: u64 = 600_000;

pub const MAX_STREAMS_PER_SUBSCRIPTION: usize = 10_000;

pub const MAX_PATTERN_BYTES: usize = 1024;

pub const MAX_PATTERN_SEGMENTS: usize = 64;

pub const MAX_DESCRIPTION_BYTES: usize = 4096;

/// How a subscription is woken.
#[derive(Clone, Copy, Debug, PartialEq, Eq, Structural)]
pub enum SubscriptionKind {
    Webhook,
    PullWake,
}

impl SubscriptionKind {
    pub open spec fn name(self) -> Seq<char> {
        match self {
            SubscriptionKind::Webhook => "webhook"@,
            SubscriptionKind::PullWake => "pull-wake"@,
        }
    }

    pub fn as_str(&self) -> (r: &'static str)
        ensures
            r@ == self.name(),
    {
        match self {
            SubscriptionKind::Webhook => "webhook",
            SubscriptionKind::PullWake => "pull-wake",
        }
    }
}

/// Whether the last delivery worked.
#[derive(Clone, Copy, Debug, PartialEq, Eq, Structural)]
pub enum SubscriptionStatus {
    Active,
    Failed,
}

impl SubscriptionStatus {
    pub open spec fn name(self) -> Seq<char> {
        match self {
            SubscriptionStatus::Active => "active"@,
            SubscriptionStatus::Failed => "failed"@,
        }
    }

    pub fn as_str(self) -> (r: &'static str)
        ensures
            r@ == self.name(),
    {
        match self {
            SubscriptionStatus::Active => "active",
            SubscriptionStatus::Failed => "failed",
        }
    }
}

/// A subscription's fixed part.
pub struct SubscriptionConfig {
    pub kind: SubscriptionKind,
    pub pattern: Option<String>,
    pub streams: Vec<String>,
    pub webhook_url: Option<String>,
    pub wake_stream: Option<String>,
    pub lease_ttl_ms: u64,
    pub description: Option<String>,
}

/// The fixed part as a mathematical value.
#[verifier::ext_equal]
pub struct ConfigView {
    pub kind: SubscriptionKind,
    pub pattern: Option<Seq<char>>,
    pub streams: Seq<Seq<char>>,
    pub webhook_url: Option<Seq<char>>,
    pub wake_stream: Option<Seq<char>>,
    pub lease_ttl_ms: u64,
    pub description: Option<Seq<char>>,
}

impl View for SubscriptionConfig {
    type V = ConfigView;

    open spec fn view(&self) -> ConfigView {
        ConfigView {
            kind: self.kind,
            pattern: opt_text(self.pattern),
            streams: texts(self.streams@),
            webhook_url: opt_text(self.webhook_url),
            wake_stream: opt_text(self.wake_stream),
            lease_ttl_ms: self.lease_ttl_ms,
            description: opt_text(self.description),
        }
    }
}

/// A creation request as it was sent.
#[derive(Clone)]
pub struct RawCreateRequest {
    pub kind: String,
    pub pattern: Option<String>,
    pub streams: Option<Vec<String>>,
    pub webhook_url: Option<String>,
    pub wake_stream: Option<String>,
    pub lease_ttl_ms: Option<u64>,
    pub description: Option<String>,
}

/// A creation request as a mathematical value.
pub struct RawCreateView {
    pub kind: Seq<char>,
    pub pattern: Option<Seq<char>>,
    pub streams: Seq<Seq<char>>,
    pub webhook_url: Option<Seq<char>>,
    pub wake_stream: Option<Seq<char>>,
    pub lease_ttl_ms: u64,
    pub description: Option<Seq<char>>,
}

impl View for RawCreateRequest {
    type V = RawCreateView;

    open spec fn view(&self) -> RawCreateView {
        RawCreateView {
            kind: self.kind@,
            pattern: opt_text(self.pattern),
            streams: match self.streams {
                Some(streams) => texts(streams@),
                None => Seq::empty(),
            },
            webhook_url: opt_text(self.webhook_url),
            wake_stream: opt_text(self.wake_stream),
            lease_ttl_ms: match self.lease_ttl_ms {
                Some(ms) => ms,
                None => DEFAULT_LEASE_TTL_MS,
            },
            description: opt_text(self.description),
        }
    }
}

/// An optional path: an empty one counts as absent, slashes at its ends go.
pub open spec fn optional_path(path: Option<Seq<char>>) -> Option<Seq<char>> {
    match path {
        Some(text) => if text.len() == 0 {
            None
        } else {
            Some(trim_both(text, '/'))
        },
        None => None,
    }
}

/// The stream names without slashes at their ends.
pub open spec fn trimmed_paths(streams: Seq<Seq<char>>) -> Seq<Seq<char>> {
    streams.map_values(|s: Seq<char>| trim_both(s, '/'))
}

/// Whether a pattern is small enough and outside the reserved segment.
pub open spec fn pattern_ok(pattern: Seq<char>) -> bool {
    &&& utf8_len(pattern) <= MAX_PATTERN_BYTES
    &&& split_on(pattern, '/').len() <= MAX_PATTERN_SEGMENTS
    &&& valid_stream_path(pattern)
}

pub open spec fn all_valid(paths: Seq<Seq<char>>) -> bool {
    forall|i: int| 0 <= i < paths.len() ==> valid_stream_path(#[trigger] paths[i])
}

/// The kind that a request names.
pub open spec fn requested_kind(kind: Seq<char>) -> Option<SubscriptionKind> {
    if kind == "webhook"@ {
        Some(SubscriptionKind::Webhook)
    } else if kind == "pull-wake"@ {
        Some(SubscriptionKind::PullWake)
    } else {
        None
    }
}

/// The first complaint about a creation request, in the order in which its
/// parts are examined.
pub open spec fn create_complaint(raw: RawCreateView) -> Option<Seq<char>> {
    let pattern = optional_path(raw.pattern);
    let streams = trimmed_paths(raw.streams);
    let wake = optional_path(raw.wake_stream);
    let webhook = requested_kind(raw.kind) == Some(SubscriptionKind::Webhook);
    if requested_kind(raw.kind) is None {
        Some("type must be \"webhook\" or \"pull-wake\""@)
    } else if pattern matches Some(p) && !pattern_ok(p) {
        Some("pattern is too complex or targets a reserved path"@)
    } else if streams.len() > MAX_STREAMS_PER_SUBSCRIPTION || !all_valid(streams) {
        Some("streams must contain only bounded, valid relative paths"@)
    } else if pattern is None && streams.len() == 0 {
        Some("At least one of pattern or streams is required"@)
    } else if !(MIN_LEASE_TTL_MS <= raw.lease_ttl_ms <= MAX_LEASE_TTL_MS) {
        Some("lease_ttl_ms must be an integer from 1000 to 600000"@)
    } else if webhook && (raw.webhook_url is None || raw.webhook_url->0.len() == 0) {
        Some("webhook subscriptions require webhook.url"@)
    } else if !webhook && raw.webhook_url is Some {
        Some("pull-wake subscriptions must not include webhook"@)
    } else if !webhook && wake is None {
        Some("pull-wake subscriptions require wake_stream"@)
    } else if webhook && wake is Some {
        Some("webhook subscriptions must not include wake_stream"@)
    } else if wake matches Some(w) && !valid_stream_path(w) {
        Some("wake_stream must be a valid non-reserved relative path"@)
    } else if wake matches Some(w) && streams.contains(w) {
        Some("streams must not explicitly include wake_stream"@)
    } else if raw.description matches Some(d) && utf8_len(d) > MAX_DESCRIPTION_BYTES {
        Some("description is too long"@)
    } else {
        None
    }
}

/// Whether `config` is what a sound request asks for: normalized paths, and the
/// streams sorted with each named once.
pub open spec fn config_follows(config: ConfigView, raw: RawCreateView) -> bool {
    &&& requested_kind(raw.kind) == Some(config.kind)
    &&& config.pattern == optional_path(raw.pattern)
    &&& strictly_sorted(config.streams)
    &&& config.streams.to_set() == trimmed_paths(raw.streams).to_set()
    &&& config.webhook_url == raw.webhook_url
    &&& config.wake_stream == optional_path(raw.wake_stream)
    &&& config.lease_ttl_ms == raw.lease_ttl_ms
    &&& config.description == raw.description
}

fn optional_normalized(path: &Option<String>) -> (r: Option<String>)
    ensures
        opt_text(r) == optional_path(opt_text(*path)),
{
    match path {
        Some(text) => if text.as_str().is_empty() {
            None
        } else {
            Some(normalize_relative_path(text.as_str()))
        },
        None => None,
    }
}

/// The texts in their order, each once.
pub fn sorted_unique(names: &Vec<String>) -> (r: Vec<String>)
    ensures
        strictly_sorted(texts(r@)),
        texts(r@).to_set() == texts(names@).to_set(),
        r@.len() <= names@.len(),
{
    let ghost all = texts(names@);
    let mut seen: PathMap<bool> = PathMap::new();
    let mut i: usize = 0;
    assert(all.take(0).to_set() =~= Set::empty());
    assert(seen@.dom() =~= all.take(0).to_set());
    while i < names.len()
        invariant
            i <= names@.len(),
            all == texts(names@),
            seen.wf(),
            seen@.dom() == all.take(i as int).to_set(),
            seen@.dom().finite(),
            seen@.dom().len() <= i,
        decreases names.len() - i,
    {
        proof {
            let next = all.take(i as int + 1);
            let before = all.take(i as int);
            assert(next =~= before.push(all[i as int]));
            assert forall|x: Seq<char>| next.to_set().contains(x) <==> before.to_set().insert(
                all[i as int],
            ).contains(x) by {
                if next.contains(x) {
                    let k = choose|k: int| 0 <= k < next.len() && next[k] == x;
                    if k < i {
                        assert(before[k] == x);
                    }
                }
                if before.contains(x) {
                    let k = choose|k: int| 0 <= k < before.len() && before[k] == x;
                    assert(next[k] == x);
                }
                assert(next[i as int] == all[i as int]);
            }
            assert(next.to_set() =~= before.to_set().insert(all[i as int]));
        }
        let ghost earlier = seen@;
        seen.insert(names[i].as_str().to_owned(), true);
        assert(seen@.dom() =~= earlier.dom().insert(all[i as int]));
        i = i + 1;
    }
    assert(all.take(all.len() as int) =~= all);
    proof {
        seen.lemma_lists();
    }
    let ghost keys = seen.key_list();
    let count: usize = seen.len();
    let mut out: Vec<String> = Vec::new();
    let mut j: usize = 0;
    while j < count
        invariant
            j <= count,
            count == keys.len(),
            seen.wf(),
            keys == seen.key_list(),
            texts(out@) == keys.take(j as int),
        decreases count - j,
    {
        let ghost before = texts(out@);
        out.push(seen.key_at(j).as_str().to_owned());
        assert(texts(out@) =~= before.push(keys[j as int]));
        assert(keys.take(j as int + 1) =~= keys.take(j as int).push(keys[j as int]));
        j = j + 1;
    }
    assert(keys.take(keys.len() as int) =~= keys);
    assert(texts(out@).len() == out@.len());
    out
}

/// Each stream name without slashes at its ends.
pub fn normalized_paths(streams: &Vec<String>) -> (r: Vec<String>)
    ensures
        texts(r@) == trimmed_paths(texts(streams@)),
{
    let ghost all = trimmed_paths(texts(streams@));
    let mut out: Vec<String> = Vec::new();
    let mut i: usize = 0;
    assert(texts(out@) =~= all.take(0));
    while i < streams.len()
        invariant
            i <= streams@.len(),
            all == trimmed_paths(texts(streams@)),
            texts(out@) == all.take(i as int),
        decreases streams.len() - i,
    {
        let ghost before = texts(out@);
        out.push(normalize_relative_path(streams[i].as_str()));
        assert(texts(out@) =~= before.push(all[i as int]));
        assert(all.take(i as int + 1) =~= all.take(i as int).push(all[i as int]));
        i = i + 1;
    }
    assert(all.take(all.len() as int) =~= all);
    out
}

/// Whether every path names a stream.
pub fn all_paths_valid(paths: &Vec<String>) -> (r: bool)
    ensures
        r == all_valid(texts(paths@)),
{
    let ghost all = texts(paths@);
    let mut i: usize = 0;
    while i < paths.len()
        invariant
            i <= paths@.len(),
            all == texts(paths@),
            forall|k: int| 0 <= k < i ==> valid_stream_path(#[trigger] all[k]),
        decreases paths.len() - i,
    {
        assert(all[i as int] == paths@[i as int]@);
        if !valid_relative_stream_path(paths[i].as_str()) {
            return false;
        }
        i = i + 1;
    }
    true
}

/// Whether a text is among the names.
pub fn names_contain(names: &Vec<String>, name: &str) -> (r: bool)
    ensures
        r == texts(names@).contains(name@),
{
    let ghost all = texts(names@);
    let mut i: usize = 0;
    while i < names.len()
        invariant
            i <= names@.len(),
            all == texts(names@),
            forall|k: int| 0 <= k < i ==> #[trigger] all[k] != name@,
        decreases names.len() - i,
    {
        assert(all[i as int] == names@[i as int]@);
        if same_text(names[i].as_str(), name) {
            return true;
        }
        i = i + 1;
    }
    false
}

/// Turn a creation request into a subscription's fixed part, or say what is
/// wrong with it.
pub fn normalize_create_request(raw: RawCreateRequest) -> (r: Result<
    SubscriptionConfig,
    &'static str,
>)
    ensures
        match r {
            Ok(config) => create_complaint(raw@) is None && config_follows(config@, raw@),
            Err(message) => create_complaint(raw@) == Some(message@),
        },
{
    let ghost request = raw@;
    let kind = if same_text(raw.kind.as_str(), "webhook") {
        SubscriptionKind::Webhook
    } else if same_text(raw.kind.as_str(), "pull-wake") {
        SubscriptionKind::PullWake
    } else {
        return Err("type must be \"webhook\" or \"pull-wake\"");
    };
    let pattern = optional_normalized(&raw.pattern);
    if let Some(text) = &pattern {
        let pieces = split_text(text.as_str(), '/');
        assert(texts(pieces@).len() == pieces@.len());
        if text.as_str().as_bytes().len() > MAX_PATTERN_BYTES || pieces.len() > MAX_PATTERN_SEGMENTS
            || !valid_relative_stream_path(text.as_str()) {
            return Err("pattern is too complex or targets a reserved path");
        }
    }
    let requested = match &raw.streams {
        Some(streams) => normalized_paths(streams),
        None => Vec::new(),
    };
    assert(texts(requested@) =~= trimmed_paths(request.streams));
    assert(texts(requested@).len() == requested@.len());
    if requested.len() > MAX_STREAMS_PER_SUBSCRIPTION || !all_paths_valid(&requested) {
        return Err("streams must contain only bounded, valid relative paths");
    }
    if pattern.is_none() && requested.len() == 0 {
        return Err("At least one of pattern or streams is required");
    }
    let lease_ttl_ms = match raw.lease_ttl_ms {
        Some(ms) => ms,
        None => DEFAULT_LEASE_TTL_MS,
    };
    if lease_ttl_ms < MIN_LEASE_TTL_MS || lease_ttl_ms > MAX_LEASE_TTL_MS {
        return Err("lease_ttl_ms must be an integer from 1000 to 600000");
    }
    let webhook = kind == SubscriptionKind::Webhook;
    let url_missing = match &raw.webhook_url {
        Some(url) => url.as_str().is_empty(),
        None => true,
    };
    if webhook && url_missing {
        return Err("webhook subscriptions require webhook.url");
    }
    if !webhook && raw.webhook_url.is_some() {
        return Err("pull-wake subscriptions must not include webhook");
    }
    let wake_stream = optional_normalized(&raw.wake_stream);
    if !webhook && wake_stream.is_none() {
        return Err("pull-wake subscriptions require wake_stream");
    }
    if webhook && wake_stream.is_some() {
        return Err("webhook subscriptions must not include wake_stream");
    }
    if let Some(wake) = &wake_stream {
        if !valid_relative_stream_path(wake.as_str()) {
            return Err("wake_stream must be a valid non-reserved relative path");
        }
        if names_contain(&requested, wake.as_str()) {
            return Err("streams must not explicitly include wake_stream");
        }
    }
    if let Some(description) = &raw.description {
        if description.as_str().as_bytes().len() > MAX_DESCRIPTION_BYTES {
            return Err("description is too long");
        }
    }
    let streams = sorted_unique(&requested);
    Ok(
        SubscriptionConfig {
            kind,
            pattern,
            streams,
            webhook_url: raw.webhook_url,
            wake_stream,
            lease_ttl_ms,
            description: raw.description,
        },
    )
}

/// A subscription that was accepted is never linked explicitly to its own wake
/// stream, has exactly the target that its kind needs, and a lease within
/// bounds.
pub proof fn law_accepted_config_is_sound(config: ConfigView, raw: RawCreateView)
    requires
        create_complaint(raw) is None,
        config_follows(config, raw),
    ensures
        config.wake_stream matches Some(wake) ==> !config.streams.contains(wake),
        config.kind == SubscriptionKind::Webhook ==> config.webhook_url is Some
            && config.wake_stream is None,
        config.kind == SubscriptionKind::PullWake ==> config.webhook_url is None
            && config.wake_stream is Some,
        MIN_LEASE_TTL_MS <= config.lease_ttl_ms <= MAX_LEASE_TTL_MS,
        all_valid(config.streams),
        config.pattern matches Some(p) ==> pattern_ok(p),
{
    let asked = trimmed_paths(raw.streams);
    if config.wake_stream is Some {
        let wake = config.wake_stream->0;
        if config.streams.contains(wake) {
            assert(config.streams.to_set().contains(wake));
            assert(asked.to_set().contains(wake));
        }
    }
    assert forall|i: int| 0 <= i < config.streams.len() implies valid_stream_path(
        #[trigger] config.streams[i],
    ) by {
        assert(config.streams.to_set().contains(config.streams[i]));
        assert(asked.to_set().contains(config.streams[i]));
        let k = choose|k: int| 0 <= k < asked.len() && asked[k] == config.streams[i];
        assert(valid_stream_path(asked[k]));
    }
}

impl SubscriptionConfig {
    /// A copy.
    pub fn copy(&self) -> (r: SubscriptionConfig)
        ensures
            r@ == self@,
    {
        let mut streams: Vec<String> = Vec::new();
        let mut i: usize = 0;
        while i < self.streams.len()
            invariant
                i <= self.streams@.len(),
                streams@.len() == i,
                forall|k: int| 0 <= k < i ==> (#[trigger] streams@[k])@ == self.streams@[k]@,
            decreases self.streams.len() - i,
        {
            streams.push(self.streams[i].clone());
            i = i + 1;
        }
        assert(texts(streams@) =~= texts(self.streams@));
        SubscriptionConfig {
            kind: self.kind,
            pattern: copy_optional(&self.pattern),
            streams,
            webhook_url: copy_optional(&self.webhook_url),
            wake_stream: copy_optional(&self.wake_stream),
            lease_ttl_ms: self.lease_ttl_ms,
            description: copy_optional(&self.description),
        }
    }

    /// Whether two fixed parts agree.
    pub fn same_as(&self, other: &SubscriptionConfig) -> (r: bool)
        ensures
            r == (self@ == other@),
    {
        if self.kind != other.kind || self.lease_ttl_ms != other.lease_ttl_ms {
            return false;
        }
        if !same_optional(&self.pattern, &other.pattern) || !same_optional(
            &self.webhook_url,
            &other.webhook_url,
        ) || !same_optional(&self.wake_stream, &other.wake_stream) || !same_optional(
            &self.description,
            &other.description,
        ) {
            return false;
        }
        assert(texts(self.streams@).len() == self.streams@.len());
        assert(texts(other.streams@).len() == other.streams@.len());
        if self.streams.len() != other.streams.len() {
            return false;
        }
        let mut i: usize = 0;
        while i < self.streams.len()
            invariant
                i <= self.streams@.len(),
                self.streams@.len() == other.streams@.len(),
                forall|k: int|
                    0 <= k < i ==> #[trigger] texts(self.streams@)[k] == texts(other.streams@)[k],
            decreases self.streams.len() - i,
        {
            assert(texts(self.streams@)[i as int] == self.streams@[i as int]@);
            assert(texts(other.streams@)[i as int] == other.streams@[i as int]@);
            if !same_text(self.streams[i].as_str(), other.streams[i].as_str()) {
                return false;
            }
            i = i + 1;
        }
        assert(texts(self.streams@) =~= texts(other.streams@));
        true
    }
}

} // verus!
