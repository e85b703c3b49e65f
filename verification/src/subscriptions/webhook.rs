//! Where webhooks may be sent.

use crate::subscriptions::ip::{
    ip_value, is_loopback_ip, is_public_ip, loopback_ip, parse_ip, public_webhook_ip, v4_value,
    IpLiteral, IpView,
};
use crate::text::{opt_text, ascii_lower, chars_of, same_text, string_of, to_ascii_lower};
use vstd::prelude::*;

verus! {

pub const MAX_WEBHOOK_RESPONSE_BYTES: usize = 64 * 1024;

pub const MAX_PINNED_WEBHOOK_CLIENTS: usize = 256;

/// What the policies read of a URL.
pub struct UrlParts {
    pub scheme: String,
    pub username: String,
    pub has_password: bool,
    pub host: Option<String>,
    pub port: Option<u16>,
    pub path: String,
    pub has_query: bool,
    pub has_fragment: bool,
    pub origin: String,
}

/// The parts of a URL as a mathematical value.
pub struct UrlView {
    pub scheme: Seq<char>,
    pub username: Seq<char>,
    pub has_password: bool,
    pub host: Option<Seq<char>>,
    pub port: Option<u16>,
    pub path: Seq<char>,
    pub has_query: bool,
    pub has_fragment: bool,
    pub origin: Seq<char>,
}

impl View for UrlParts {
    type V = UrlView;

    open spec fn view(&self) -> UrlView {
        UrlView {
            scheme: self.scheme@,
            username: self.username@,
            has_password: self.has_password,
            host: opt_text(self.host),
            port: self.port,
            path: self.path@,
            has_query: self.has_query,
            has_fragment: self.has_fragment,
            origin: self.origin@,
        }
    }
}

/// The parts of a text that is a URL.
pub uninterp spec fn parsed_url(raw: Seq<char>) -> Option<UrlView>;

/// `reqwest::Url::parse` and the accessors of the parsed URL. Parsing is a
/// function of the text alone; the parts are taken over one for one. What the
/// URL grammar accepts is left to that crate.
#[verifier::external_body]
fn parse_url(raw: &str) -> (r: Option<UrlParts>)
    ensures
        match r {
            Some(parts) => parsed_url(raw@) == Some(parts@),
            None => parsed_url(raw@) is None,
        },
{
    let url = reqwest::Url::parse(raw).ok()?;
    Some(UrlParts {
        scheme: url.scheme().to_string(),
        username: url.username().to_string(),
        has_password: url.password().is_some(),
        host: url.host_str().map(str::to_string),
        port: url.port_or_known_default(),
        path: url.path().to_string(),
        has_query: url.query().is_some(),
        has_fragment: url.fragment().is_some(),
        origin: url.origin().ascii_serialization(),
    })
}

/// A host without the brackets of an IPv6 literal.
pub open spec fn bare_host(host: Seq<char>) -> Seq<char> {
    if host.len() >= 2 && host[0] == '[' && host.last() == ']' {
        host.subrange(1, host.len() - 1)
    } else {
        host
    }
}

/// What is wrong with a URL as a webhook target, if anything.
pub open spec fn target_complaint(url: UrlView, allow_local: bool) -> Option<Seq<char>> {
    if url.username.len() > 0 || url.has_password || url.has_fragment {
        Some("webhook.url must not include credentials or a fragment"@)
    } else if url.host is None {
        Some("webhook.url must include a hostname"@)
    } else {
        let host = ascii_lower(url.host->0);
        let ip = ip_value(bare_host(host));
        if url.scheme == "http"@ {
            if allow_local && (host == "localhost"@ || (ip matches Some(IpView::V4(octets))
                && octets[0] == 127)) {
                None
            } else {
                Some(
                    "http webhook URLs require DS_WEBHOOK_ALLOW_LOCALHOST=1 and a localhost target"@,
                )
            }
        } else if url.scheme == "https"@ {
            if host == "localhost"@ {
                Some("localhost webhook URLs must use http for development"@)
            } else if ip matches Some(address) && !is_public_ip(address) {
                Some("webhook.url must not target private or link-local hosts"@)
            } else {
                None
            }
        } else {
            Some("webhook.url must use https"@)
        }
    }
}

/// What is wrong with a text as a webhook URL, if anything.
pub open spec fn webhook_complaint(raw: Seq<char>, allow_local: bool) -> Option<Seq<char>> {
    match parsed_url(raw) {
        Some(url) => target_complaint(url, allow_local),
        None => Some("webhook.url must be a valid URL"@),
    }
}

fn strip_brackets(host: &str) -> (r: String)
    ensures
        r@ == bare_host(host@),
{
    let chars = chars_of(host);
    if chars.len() >= 2 && chars[0] == '[' && chars[chars.len() - 1] == ']' {
        string_of(&chars, 1, chars.len() - 1)
    } else {
        host.to_owned()
    }
}

/// Hold a URL that was taken apart to the policy for webhook targets: public
/// HTTPS hosts, and plain HTTP on this machine where that is allowed.
pub fn check_webhook_target(url: &UrlParts, allow_local: bool) -> (r: Result<(), &'static str>)
    ensures
        match r {
            Ok(_) => target_complaint(url@, allow_local) is None,
            Err(message) => target_complaint(url@, allow_local) == Some(message@),
        },
{
    if !url.username.as_str().is_empty() || url.has_password || url.has_fragment {
        return Err("webhook.url must not include credentials or a fragment");
    }
    let host = match &url.host {
        Some(host) => to_ascii_lower(host.as_str()),
        None => {
            return Err("webhook.url must include a hostname");
        },
    };
    let bare = strip_brackets(host.as_str());
    let ip = parse_ip(bare.as_str());
    if same_text(url.scheme.as_str(), "http") {
        if allow_local && same_text(host.as_str(), "localhost") {
            return Ok(());
        }
        if let Some(IpLiteral::V4(octets)) = ip {
            if allow_local && octets[0] == 127 {
                return Ok(());
            }
        }
        return Err("http webhook URLs require DS_WEBHOOK_ALLOW_LOCALHOST=1 and a localhost target");
    }
    if same_text(url.scheme.as_str(), "https") {
        if same_text(host.as_str(), "localhost") {
            return Err("localhost webhook URLs must use http for development");
        }
        if let Some(address) = ip {
            if !public_webhook_ip(&address) {
                return Err("webhook.url must not target private or link-local hosts");
            }
        }
        return Ok(());
    }
    Err("webhook.url must use https")
}

/// Hold a text to the policy for webhook URLs.
pub fn validate_webhook_url_with_local_policy(raw: &str, allow_local: bool) -> (r: Result<
    (),
    &'static str,
>)
    ensures
        match r {
            Ok(_) => webhook_complaint(raw@, allow_local) is None,
            Err(message) => webhook_complaint(raw@, allow_local) == Some(message@),
        },
{
    match parse_url(raw) {
        Some(url) => check_webhook_target(&url, allow_local),
        None => Err("webhook.url must be a valid URL"),
    }
}

/// Without local delivery no accepted URL names this machine or a literal
/// address that is not public, and its scheme is always HTTPS.
pub proof fn law_accepted_targets_are_public(url: UrlView)
    requires
        target_complaint(url, false) is None,
    ensures
        url.scheme == "https"@,
        url.host is Some,
        ascii_lower(url.host->0) != "localhost"@,
        ip_value(bare_host(ascii_lower(url.host->0))) matches Some(address) ==> is_public_ip(
            address,
        ),
{
}

/// Allowing local delivery only ever adds targets.
pub proof fn law_local_policy_only_widens(url: UrlView)
    requires
        target_complaint(url, false) is None,
    ensures
        target_complaint(url, true) is None,
{
}

/// Where one delivery goes.
pub struct DeliveryTarget {
    pub host: String,
    pub port: u16,
    pub local_development: bool,
    pub needs_dns: bool,
}

/// Whether a scheme and a host mean plain HTTP on this machine.
pub open spec fn is_local_http(scheme: Seq<char>, host: Seq<char>) -> bool {
    scheme == "http"@ && (host == "localhost"@ || (v4_value(host) matches Some(octets) && octets[0]
        == 127))
}

fn local_http(scheme: &str, host: &str) -> (r: bool)
    ensures
        r == is_local_http(scheme@, host@),
{
    if !same_text(scheme, "http") {
        return false;
    }
    if same_text(host, "localhost") {
        return true;
    }
    match crate::subscriptions::ip::parse_v4(host) {
        Some(octets) => octets[0] == 127,
        None => false,
    }
}

/// A place to deliver to as a mathematical value.
#[verifier::ext_equal]
pub struct TargetView {
    pub host: Seq<char>,
    pub port: u16,
    pub local_development: bool,
    pub needs_dns: bool,
}

impl View for DeliveryTarget {
    type V = TargetView;

    open spec fn view(&self) -> TargetView {
        TargetView {
            host: self.host@,
            port: self.port,
            local_development: self.local_development,
            needs_dns: self.needs_dns,
        }
    }
}

/// Whether a character encloses a literal address.
pub open spec fn is_bracket(c: char) -> bool {
    c == '[' || c == ']'
}

/// A host without brackets in front.
pub open spec fn trim_brackets_start(s: Seq<char>) -> Seq<char>
    decreases s.len(),
{
    if s.len() > 0 && is_bracket(s[0]) {
        trim_brackets_start(s.skip(1))
    } else {
        s
    }
}

/// A host without brackets behind.
pub open spec fn trim_brackets_end(s: Seq<char>) -> Seq<char>
    decreases s.len(),
{
    if s.len() > 0 && is_bracket(s.last()) {
        trim_brackets_end(s.drop_last())
    } else {
        s
    }
}

/// A host without brackets around it.
pub open spec fn trim_brackets(s: Seq<char>) -> Seq<char> {
    trim_brackets_end(trim_brackets_start(s))
}

proof fn lemma_trim_start(s: Seq<char>, from: int)
    requires
        0 <= from <= s.len(),
        forall|k: int| 0 <= k < from ==> is_bracket(#[trigger] s[k]),
        from == s.len() || !is_bracket(s[from]),
    ensures
        trim_brackets_start(s) == s.skip(from),
    decreases from,
{
    if from == 0 {
        assert(s.skip(0) =~= s);
    } else {
        assert(is_bracket(s[0]));
        let rest = s.skip(1);
        assert forall|k: int| 0 <= k < from - 1 implies is_bracket(#[trigger] rest[k]) by {
            assert(rest[k] == s[k + 1]);
        }
        lemma_trim_start(rest, from - 1);
        assert(rest.skip(from - 1) =~= s.skip(from));
    }
}

proof fn lemma_trim_end(s: Seq<char>, to: int)
    requires
        0 <= to <= s.len(),
        forall|k: int| to <= k < s.len() ==> is_bracket(#[trigger] s[k]),
        to == 0 || !is_bracket(s[to - 1]),
    ensures
        trim_brackets_end(s) == s.take(to),
    decreases s.len() - to,
{
    if to == s.len() {
        assert(s.take(to) =~= s);
    } else {
        assert(is_bracket(s[s.len() - 1]));
        lemma_trim_end(s.drop_last(), to);
        assert(s.drop_last().take(to) =~= s.take(to));
    }
}

fn without_brackets(host: &str) -> (r: String)
    ensures
        r@ == trim_brackets(host@),
{
    let chars = chars_of(host);
    let mut from: usize = 0;
    while from < chars.len() && (chars[from] == '[' || chars[from] == ']')
        invariant
            from <= chars@.len(),
            forall|k: int| 0 <= k < from ==> is_bracket(#[trigger] chars@[k]),
        decreases chars.len() - from,
    {
        from = from + 1;
    }
    let mut to: usize = chars.len();
    while from < to && (chars[to - 1] == '[' || chars[to - 1] == ']')
        invariant
            from <= to <= chars@.len(),
            forall|k: int| to <= k < chars@.len() ==> is_bracket(#[trigger] chars@[k]),
        decreases to,
    {
        to = to - 1;
    }
    proof {
        lemma_trim_start(host@, from as int);
        let rest = host@.skip(from as int);
        assert forall|k: int| to - from <= k < rest.len() implies is_bracket(#[trigger] rest[k]) by {
            assert(rest[k] == host@[k + from]);
        }
        lemma_trim_end(rest, to - from);
        assert(rest.take(to - from) =~= host@.subrange(from as int, to as int));
    }
    string_of(&chars, from, to)
}

/// Where a webhook goes: the bare host, the port, and whether the name must be
/// resolved first.
pub open spec fn plan_of(url: UrlView) -> Result<TargetView, Seq<char>> {
    if url.host is None {
        Err("webhook URL has no host"@)
    } else if url.port is None {
        Err("webhook URL has no usable port"@)
    } else {
        let host = ascii_lower(trim_brackets(url.host->0));
        Ok(
            TargetView {
                host,
                port: url.port->0,
                local_development: is_local_http(url.scheme, host),
                needs_dns: ip_value(host) is None,
            },
        )
    }
}

/// Take an accepted webhook URL apart for its delivery.
pub fn plan_delivery(url: &UrlParts) -> (r: Result<DeliveryTarget, &'static str>)
    ensures
        match plan_of(url@) {
            Ok(plan) => r matches Ok(target) && target@ == plan,
            Err(complaint) => r matches Err(message) && message@ == complaint,
        },
{
    let host = match &url.host {
        Some(host) => {
            let bare = without_brackets(host.as_str());
            to_ascii_lower(bare.as_str())
        },
        None => {
            return Err("webhook URL has no host");
        },
    };
    let port = match url.port {
        Some(port) => port,
        None => {
            return Err("webhook URL has no usable port");
        },
    };
    let local_development = local_http(url.scheme.as_str(), host.as_str());
    let needs_dns = parse_ip(host.as_str()).is_none();
    Ok(DeliveryTarget { host, port, local_development, needs_dns })
}

/// Take a text apart for a delivery, once more under the policy.
pub fn plan_webhook(raw: &str, allow_local: bool) -> (r: Result<DeliveryTarget, &'static str>)
    ensures
        match webhook_complaint(raw@, allow_local) {
            Some(complaint) => r matches Err(message) && message@ == complaint,
            None => match plan_of(parsed_url(raw@)->0) {
                Ok(plan) => r matches Ok(target) && target@ == plan,
                Err(complaint) => r matches Err(message) && message@ == complaint,
            },
        },
{
    match parse_url(raw) {
        Some(url) => match check_webhook_target(&url, allow_local) {
            Ok(_) => plan_delivery(&url),
            Err(message) => Err(message),
        },
        None => Err("webhook.url must be a valid URL"),
    }
}

/// Whether one resolved address may be connected to.
pub open spec fn address_allowed(ip: IpView, local_development: bool) -> bool {
    if local_development {
        is_loopback_ip(ip)
    } else {
        is_public_ip(ip)
    }
}

/// Hold every address that a name resolved to to the policy: a local delivery
/// stays on this machine, any other goes to public addresses only.
pub fn check_resolved_addresses(addresses: &Vec<IpLiteral>, local_development: bool) -> (r: Result<
    (),
    &'static str,
>)
    ensures
        match r {
            Ok(_) => addresses@.len() > 0 && forall|i: int|
                0 <= i < addresses@.len() ==> address_allowed(
                    (#[trigger] addresses@[i])@,
                    local_development,
                ),
            Err(message) => if addresses@.len() == 0 {
                message@ == "webhook DNS resolution returned no addresses"@
            } else {
                &&& message@ == "webhook DNS resolved to a private or local address"@
                &&& exists|i: int|
                    0 <= i < addresses@.len() && !address_allowed(
                        (#[trigger] addresses@[i])@,
                        local_development,
                    )
            },
        },
{
    if addresses.len() == 0 {
        return Err("webhook DNS resolution returned no addresses");
    }
    let mut i: usize = 0;
    while i < addresses.len()
        invariant
            i <= addresses@.len(),
            addresses@.len() > 0,
            forall|k: int|
                0 <= k < i ==> address_allowed((#[trigger] addresses@[k])@, local_development),
        decreases addresses.len() - i,
    {
        let address = &addresses[i];
        let allowed = if local_development {
            loopback_ip(address)
        } else {
            public_webhook_ip(address)
        };
        if !allowed {
            assert(!address_allowed(addresses@[i as int]@, local_development));
            return Err("webhook DNS resolved to a private or local address");
        }
        i = i + 1;
    }
    Ok(())
}

/// Whether the pinned clients must be dropped before another one is kept.
pub fn pinned_clients_full(kept: usize) -> (r: bool)
    ensures
        r == (kept >= MAX_PINNED_WEBHOOK_CLIENTS),
{
    kept >= MAX_PINNED_WEBHOOK_CLIENTS
}

/// Whether a response body that grows by `chunk` bytes stays within its limit.
pub fn response_fits(read: usize, chunk: usize) -> (r: bool)
    ensures
        r == (read + chunk <= MAX_WEBHOOK_RESPONSE_BYTES),
{
    read <= MAX_WEBHOOK_RESPONSE_BYTES && chunk <= MAX_WEBHOOK_RESPONSE_BYTES - read
}

/// Hold the announced length of a response, if there is one, to the limit.
pub fn check_length(announced: Option<u64>) -> (r: Result<(), &'static str>)
    ensures
        match r {
            Ok(()) => announced matches Some(length) ==> length <= MAX_WEBHOOK_RESPONSE_BYTES,
            Err(message) => {
                &&& announced matches Some(length)
                &&& length > MAX_WEBHOOK_RESPONSE_BYTES
                &&& message@ == "webhook response exceeds 64 KiB"@
            },
        },
{
    match announced {
        Some(length) => if length > MAX_WEBHOOK_RESPONSE_BYTES as u64 {
            Err("webhook response exceeds 64 KiB")
        } else {
            Ok(())
        },
        None => Ok(()),
    }
}

/// Add a part to what was read of a response, as long as all of it stays within
/// the limit.
pub fn take_chunk(body: &mut Vec<u8>, chunk: &[u8]) -> (r: Result<(), &'static str>)
    ensures
        match r {
            Ok(()) => {
                &&& old(body)@.len() + chunk@.len() <= MAX_WEBHOOK_RESPONSE_BYTES
                &&& final(body)@ == old(body)@ + chunk@
            },
            Err(message) => {
                &&& old(body)@.len() + chunk@.len() > MAX_WEBHOOK_RESPONSE_BYTES
                &&& final(body)@ == old(body)@
                &&& message@ == "webhook response exceeds 64 KiB"@
            },
        },
{
    if !response_fits(body.len(), chunk.len()) {
        return Err("webhook response exceeds 64 KiB");
    }
    body.extend_from_slice(chunk);
    assert(body@ =~= old(body)@ + chunk@);
    Ok(())
}

/// What JSON bytes hold under a name, where they are an object with a boolean
/// there.
pub uninterp spec fn named_flag(body: Seq<u8>, name: Seq<char>) -> Option<bool>;

/// `serde_json::from_slice` into a `serde_json::Value`, then `Value::get` and
/// `Value::as_bool`: the boolean that JSON bytes hold under a name. It depends on
/// the bytes and the name alone; bytes that are no JSON hold none.
#[verifier::external_body]
fn flag_in(body: &[u8], name: &str) -> (r: Option<bool>)
    ensures
        r == named_flag(body@, name@),
{
    let value = serde_json::from_slice::<serde_json::Value>(body).ok()?;
    value.get(name)?.as_bool()
}

/// Whether the receiver of a webhook is done, given what its answer says of it.
/// Silence means that it will call back.
pub fn flag_says_done(flag: Option<bool>) -> (r: bool)
    ensures
        r == (flag == Some(true)),
{
    match flag {
        Some(done) => done,
        None => false,
    }
}

/// Whether the answer to a webhook says that its receiver is done.
pub fn answers_done(body: &[u8]) -> (r: bool)
    ensures
        r == (named_flag(body@, "done"@) == Some(true)),
{
    flag_says_done(flag_in(body, "done"))
}

/// What is wrong with a URL as the public origin of this server, if anything.
pub open spec fn origin_complaint(url: UrlView) -> Option<Seq<char>> {
    if url.username.len() > 0 || url.has_password || url.has_query || url.has_fragment || url.path
        != "/"@ || url.host is None {
        Some("DS_PUBLIC_BASE_URL must be an origin URL without credentials, path, or query"@)
    } else if url.scheme != "https"@ && !is_local_http(url.scheme, url.host->0) {
        Some("DS_PUBLIC_BASE_URL must use https except for local development"@)
    } else {
        None
    }
}

/// Hold a URL that was taken apart to the policy for this server's own origin.
pub fn check_public_origin(url: &UrlParts) -> (r: Result<String, &'static str>)
    ensures
        match r {
            Ok(origin) => origin_complaint(url@) is None && origin@ == url@.origin,
            Err(message) => origin_complaint(url@) == Some(message@),
        },
{
    if !url.username.as_str().is_empty() || url.has_password || url.has_query || url.has_fragment
        || !same_text(url.path.as_str(), "/") {
        return Err("DS_PUBLIC_BASE_URL must be an origin URL without credentials, path, or query");
    }
    let host = match &url.host {
        Some(host) => host.as_str(),
        None => {
            return Err(
                "DS_PUBLIC_BASE_URL must be an origin URL without credentials, path, or query",
            );
        },
    };
    if !same_text(url.scheme.as_str(), "https") && !local_http(url.scheme.as_str(), host) {
        return Err("DS_PUBLIC_BASE_URL must use https except for local development");
    }
    Ok(url.origin.as_str().to_owned())
}

/// The canonical origin of a configured public base URL.
pub fn validate_public_base_url(configured: &str) -> (r: Result<String, &'static str>)
    ensures
        match parsed_url(configured@) {
            None => r matches Err(message) && message@ == "DS_PUBLIC_BASE_URL must be a valid URL"@,
            Some(url) => match r {
                Ok(origin) => origin_complaint(url) is None && origin@ == url.origin,
                Err(message) => origin_complaint(url) == Some(message@),
            },
        },
{
    match parse_url(configured) {
        Some(url) => check_public_origin(&url),
        None => Err("DS_PUBLIC_BASE_URL must be a valid URL"),
    }
}

/// The answer to a webhook is read up to sixty-four kilobytes, and two hundred and
/// fifty-six clients are kept.
pub proof fn law_answers_are_bounded(read: usize, chunk: usize, fits: bool, kept: usize, full: bool)
    requires
        call_ensures(response_fits, (read, chunk), fits),
        call_ensures(pinned_clients_full, (kept,), full),
    ensures
        fits <==> read + chunk <= 65_536,
        full <==> kept >= 256,
{
}

/// Only an answer that says so ends a wake: silence and a refusal do not.
pub proof fn law_silence_is_not_done(flag: Option<bool>, done: bool)
    requires
        call_ensures(flag_says_done, (flag,), done),
    ensures
        flag is None ==> !done,
        flag matches Some(said) ==> done == said,
{
}

} // verus!
