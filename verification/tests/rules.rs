use durable_streams::clock::{Moment, Span};
use durable_streams::store::offset::format_offset;
use durable_streams::subscriptions::config::{
    normalize_create_request, RawCreateRequest, SubscriptionKind, DEFAULT_LEASE_TTL_MS,
};
use durable_streams::subscriptions::encoding::{base64_url_encode, hex_decode, hex_encode};
use durable_streams::subscriptions::glob::glob_match;
use durable_streams::subscriptions::ip::{parse_ip, public_webhook_ip};
use durable_streams::subscriptions::keys::{
    generate_signing_key, rotate_signing_keys_if_due, signing_key_from, SigningKey, SigningKeyRing,
};
use durable_streams::subscriptions::paths::{
    absolute_stream_path, is_control_path, relative_stream_path, valid_relative_stream_path,
    valid_subscription_id,
};
use durable_streams::subscriptions::route::{parse_route, Route};
use durable_streams::subscriptions::secrets::{
    load_secrets, plan_refresh, secrets_from, settle_refresh,
};
use durable_streams::subscriptions::webhook::{
    answers_done, check_length, check_resolved_addresses, flag_says_done, plan_webhook,
    response_fits, take_chunk, validate_public_base_url, validate_webhook_url_with_local_policy,
};

const NOW_MS: u64 = 1_800_000_000_000;

fn validate_webhook_url(raw: &str) -> Result<(), &'static str> {
    validate_webhook_url_with_local_policy(raw, true)
}

fn raw(kind: &str) -> RawCreateRequest {
    RawCreateRequest {
        kind: kind.to_string(),
        pattern: None,
        streams: None,
        webhook_url: None,
        wake_stream: None,
        lease_ttl_ms: None,
        description: None,
    }
}

fn some(text: &str) -> Option<String> {
    Some(text.to_string())
}

#[test]
fn protocol_globs_match_segments() {
    assert_eq!(format_offset(0), "0000000000000000_0000000000000000");
    assert!(glob_match("events/*", "events/a"));
    assert!(!glob_match("events/*", "events/a/b"));
    assert!(glob_match("events/**", "events"));
    assert!(glob_match("events/**", "events/a/b"));
    assert!(glob_match("**/**/**/**/**/**/**/**/x", "a/b/c/d/e/f/g/h/x"));
    assert!(!glob_match(
        "**/**/**/**/**/**/**/**/x",
        "a/b/c/d/e/f/g/h/y"
    ));
}

#[test]
fn webhook_url_policy_allows_only_explicit_local_http() {
    assert!(
        validate_webhook_url_with_local_policy("http://127.0.0.1:1234/hook", false).is_err()
    );
    assert!(validate_webhook_url("http://127.0.0.1:1234/hook").is_ok());
    assert!(validate_webhook_url("http://localhost:1234/hook").is_ok());
    assert!(validate_webhook_url("http://10.0.0.1/hook").is_err());
    assert!(validate_webhook_url("https://10.0.0.1/hook").is_err());
    assert!(validate_webhook_url("https://100.64.0.5/hook").is_err());
    assert!(validate_webhook_url("https://192.0.0.5/hook").is_err());
    assert!(validate_webhook_url("https://198.18.0.1/hook").is_err());
    assert!(validate_webhook_url("https://224.0.0.1/hook").is_err());
    assert!(validate_webhook_url("https://240.0.0.1/hook").is_err());
    assert!(validate_webhook_url("https://0.0.0.1/hook").is_err());
    assert!(validate_webhook_url("https://[::1]/hook").is_err());
    assert!(validate_webhook_url("https://[fd00::1]/hook").is_err());
    assert!(validate_webhook_url("https://[::ffff:10.0.0.1]/hook").is_err());
    assert!(validate_webhook_url("https://worker.example/hook").is_ok());
}

#[test]
fn each_bad_webhook_url_has_its_own_complaint() {
    let complaint = |url: &str| validate_webhook_url(url).err();
    assert_eq!(complaint("not a url"), Some("webhook.url must be a valid URL"));
    assert_eq!(complaint("ftp://worker.example/"), Some("webhook.url must use https"));
    assert_eq!(
        complaint("https://user@worker.example/"),
        Some("webhook.url must not include credentials or a fragment")
    );
    assert_eq!(
        complaint("https://worker.example/#a"),
        Some("webhook.url must not include credentials or a fragment")
    );
    assert_eq!(
        complaint("https://localhost/"),
        Some("localhost webhook URLs must use http for development")
    );
    assert_eq!(
        complaint("https://192.168.1.2/"),
        Some("webhook.url must not target private or link-local hosts")
    );
}

#[test]
fn public_callback_origin_is_operator_configured_and_canonical() {
    assert_eq!(
        validate_public_base_url("https://streams.example:8443").unwrap(),
        "https://streams.example:8443"
    );
    assert_eq!(
        validate_public_base_url("http://localhost:4562").unwrap(),
        "http://localhost:4562"
    );
    assert!(validate_public_base_url("http://evil.example").is_err());
    assert!(validate_public_base_url("https://user@streams.example").is_err());
    assert!(validate_public_base_url("https://streams.example/prefix").is_err());
}

#[test]
fn deliveries_go_to_resolved_public_addresses() {
    let target = match plan_webhook("https://Worker.Example/hook", false) {
        Ok(target) => target,
        Err(message) => panic!("{}", message),
    };
    assert_eq!(target.host, "worker.example");
    assert_eq!(target.port, 443);
    assert!(target.needs_dns);
    assert!(!target.local_development);
    let public = vec![parse_ip("8.8.8.8").unwrap()];
    assert_eq!(check_resolved_addresses(&public, false), Ok(()));
    let private = vec![parse_ip("8.8.8.8").unwrap(), parse_ip("10.1.1.1").unwrap()];
    assert_eq!(
        check_resolved_addresses(&private, false),
        Err("webhook DNS resolved to a private or local address")
    );
    assert_eq!(
        check_resolved_addresses(&Vec::new(), false),
        Err("webhook DNS resolution returned no addresses")
    );
    assert_eq!(check_resolved_addresses(&public, true).is_err(), true);
    assert!(response_fits(0, 65_536));
    assert!(!response_fits(65_536, 1));
}

fn ring_of(keys: Vec<SigningKey>, active_kid: &str) -> SigningKeyRing {
    SigningKeyRing { active_kid: active_kid.to_string(), keys }
}

#[test]
fn signing_rotation_persists_the_new_key_and_retains_the_old_replay_key() {
    let moment = Moment { nanos: 1 };
    let old = generate_signing_key(NOW_MS - 10_000).ok().unwrap();
    let old_kid = old.kid.clone();
    let mut keys = ring_of(vec![old], &old_kid);
    assert_eq!(rotate_signing_keys_if_due(&mut keys, NOW_MS, moment, 1_000, 300_000), Ok(true));
    assert_eq!(keys.active_kid, old_kid, "new key must be prepublished");
    assert_eq!(keys.keys.len(), 2);
    let pending = keys.keys.iter_mut().find(|key| key.kid != old_kid).unwrap();
    pending.activate_after_ms = Some(0);
    pending.activate_not_before = Some(moment);
    assert_eq!(rotate_signing_keys_if_due(&mut keys, NOW_MS, moment, 1_000, 300_000), Ok(true));
    assert_ne!(keys.active_kid, old_kid);
    assert_eq!(keys.keys.len(), 2);
    assert!(keys
        .keys
        .iter()
        .find(|key| key.kid == old_kid)
        .unwrap()
        .retire_after_ms
        .is_some_and(|retire_after| retire_after > NOW_MS));

    let token_secret = vec![7u8; 32];
    let persisted = keys.persisted(&token_secret);
    let (reloaded, reloaded_token_secret) = load_secrets(&persisted, moment).ok().unwrap();
    assert_eq!(reloaded.active_kid, keys.active_kid);
    assert_eq!(reloaded.keys.len(), 2);
    assert_eq!(reloaded_token_secret, token_secret);
}

#[test]
fn a_pending_key_waits_for_both_clocks() {
    let start = Moment { nanos: 1 };
    let old = generate_signing_key(0).ok().unwrap();
    let old_kid = old.kid.clone();
    let mut keys = ring_of(vec![old], &old_kid);
    assert_eq!(rotate_signing_keys_if_due(&mut keys, NOW_MS, start, 1_000, 300_000), Ok(true));
    let late_ms = NOW_MS + 301_000;
    assert_eq!(rotate_signing_keys_if_due(&mut keys, late_ms, start, 1_000, 300_000), Ok(false));
    assert_eq!(keys.active_kid, old_kid);
    let late = start.later(Span::from_secs(301));
    assert_eq!(rotate_signing_keys_if_due(&mut keys, late_ms, late, 1_000, 300_000), Ok(true));
    assert_ne!(keys.active_kid, old_kid);
}

#[test]
fn failed_signing_key_persistence_never_changes_the_live_keyring() {
    let moment = Moment { nanos: 1 };
    let key = generate_signing_key(0).ok().unwrap();
    let kid = key.kid.clone();
    let mut live = ring_of(vec![key], &kid);
    let before = live.active_signing_metadata();
    let before_len = live.keys.len();
    let candidate = match plan_refresh(&live, NOW_MS, moment, 1, 300_000) {
        Ok(Some(candidate)) => candidate,
        _ => panic!("a rotation is due"),
    };
    assert_eq!(candidate.keys.len(), before_len + 1);
    settle_refresh(&mut live, candidate, false);
    assert_eq!(live.active_signing_metadata(), before);
    assert_eq!(live.keys.len(), before_len);
    let candidate = plan_refresh(&live, NOW_MS, moment, 1, 300_000).ok().unwrap().unwrap();
    settle_refresh(&mut live, candidate, true);
    assert_eq!(live.keys.len(), before_len + 1);
}

#[test]
fn signatures_verify_with_the_published_key() {
    let key = generate_signing_key(NOW_MS).ok().unwrap();
    let kid = key.kid.clone();
    let public = key.x.clone();
    let live = ring_of(vec![key], &kid);
    let (signer, signature) = live.sign_message(b"payload").unwrap();
    assert_eq!(signer, kid);
    let raw_signature = decode_url(&signature);
    let raw_public = decode_url(&public);
    let verifier =
        ring::signature::UnparsedPublicKey::new(&ring::signature::ED25519, raw_public);
    assert!(verifier.verify(b"payload", &raw_signature).is_ok());
    assert!(verifier.verify(b"other", &raw_signature).is_err());
}

fn decode_url(text: &str) -> Vec<u8> {
    let alphabet = b"ABCDEFGHIJKLMNOPQRSTUVWXYZabcdefghijklmnopqrstuvwxyz0123456789-_";
    let mut bits: u32 = 0;
    let mut have = 0;
    let mut out = Vec::new();
    for c in text.bytes() {
        let value = alphabet.iter().position(|&a| a == c).unwrap() as u32;
        bits = (bits << 6) | value;
        have += 6;
        if have >= 8 {
            have -= 8;
            out.push((bits >> have) as u8);
            bits &= (1 << have) - 1;
        }
    }
    out
}

#[test]
fn texts_for_bytes_are_exact() {
    assert_eq!(base64_url_encode(b""), "");
    assert_eq!(base64_url_encode(b"f"), "Zg");
    assert_eq!(base64_url_encode(b"fo"), "Zm8");
    assert_eq!(base64_url_encode(b"foo"), "Zm9v");
    assert_eq!(base64_url_encode(&[0xfb, 0xff]), "-_8");
    assert_eq!(hex_encode(&[0, 0xab, 0x0f]), "00ab0f");
    assert_eq!(hex_decode("00AB0f"), Some(vec![0, 0xab, 0x0f]));
    assert_eq!(hex_decode("0"), None);
    assert_eq!(hex_decode("zz"), None);
}

#[test]
fn dns_target_policy_accepts_public_ipv6_and_rejects_local_ranges() {
    assert!(public_webhook_ip(&parse_ip("2606:4700:4700::1111").unwrap()));
    for ip in [
        "::1",
        "fd00::1",
        "fe80::1",
        "2001::1",
        "2001:db8::1",
        "2002:7f00:1::",
    ] {
        assert!(!public_webhook_ip(&parse_ip(ip).unwrap()), "{ip}");
    }
}

#[test]
fn pull_wake_cannot_explicitly_subscribe_to_its_own_wake_stream() {
    let mut request = raw("pull-wake");
    request.streams = Some(vec!["wake/pool".to_string()]);
    request.wake_stream = some("wake/pool");
    assert!(normalize_create_request(request).is_err());
    let mut request = raw("pull-wake");
    request.pattern = some("events/*");
    request.wake_stream = some("wake/pool");
    request.webhook_url = some("https://worker.example/hook");
    assert!(normalize_create_request(request).is_err());
}

#[test]
fn requests_are_normalized() {
    let mut request = raw("pull-wake");
    request.pattern = some("/events/*/");
    request.streams = Some(vec!["/b".to_string(), "a/".to_string(), "b".to_string()]);
    request.wake_stream = some("/wake/pool");
    let config = match normalize_create_request(request) {
        Ok(config) => config,
        Err(message) => panic!("{}", message),
    };
    assert_eq!(config.kind, SubscriptionKind::PullWake);
    assert_eq!(config.pattern, some("events/*"));
    assert_eq!(config.streams, vec!["a", "b"]);
    assert_eq!(config.wake_stream, some("wake/pool"));
    assert_eq!(config.lease_ttl_ms, DEFAULT_LEASE_TTL_MS);
    assert!(normalize_create_request(raw("webhook")).is_err());
    assert!(normalize_create_request(raw("push")).is_err());
}

#[test]
fn reserved_routes_preserve_the_implementation_defined_stream_root() {
    let root = "/circuits/v1/dev/store/group-a";
    let path = format!("{root}/__ds/subscriptions/sub-1/claim");
    match parse_route(&path) {
        Route::Claim(parsed_root, id) => {
            assert_eq!(parsed_root, root);
            assert_eq!(id, "sub-1");
        }
        _ => panic!("expected a claim route"),
    }

    assert!(is_control_path(&path));
    assert!(!is_control_path(&format!("{root}/events/__ds-not-control")));
    assert!(is_control_path(&format!(
        "{root}/__ds/subscriptions/sub-1/unknown/__dsy"
    )));
    match parse_route(&format!(
        "{root}/__ds/subscriptions/sub-1/streams/__ds/subscriptions/sub-2"
    )) {
        Route::Stream(parsed_root, id, _) => {
            assert_eq!(parsed_root, root);
            assert_eq!(id, "sub-1");
        }
        _ => panic!("the first reserved segment must define the control root"),
    }
    assert!(matches!(
        parse_route(&format!("{root}/__ds/subscriptions/bad%2Fid")),
        Route::UnknownControl
    ));
    assert_eq!(
        relative_stream_path(root, &format!("{root}/events/a")),
        Some("events/a".to_string())
    );
    assert_eq!(
        absolute_stream_path(root, "wake/pool-a"),
        format!("{root}/wake/pool-a")
    );
    assert_eq!(
        relative_stream_path(root, "/circuits/v1/dev/store/group-ab/events/a"),
        None,
        "a neighboring root must not leak into this subscription"
    );
}

#[test]
fn names_in_routes_are_percent_decoded() {
    match parse_route("/root/__ds/subscriptions/sub%2D1/streams/a%20b") {
        Route::Stream(root, id, stream) => {
            assert_eq!(root, "/root");
            assert_eq!(id, "sub-1");
            assert_eq!(stream, "a b");
        }
        _ => panic!("expected a stream route"),
    }
    assert!(matches!(parse_route("/root/__ds/jwks.json"), Route::Jwks));
    assert!(matches!(
        parse_route("/root/__ds/subscriptions/%FF"),
        Route::UnknownControl
    ));
}

#[test]
fn names_and_paths_have_limits() {
    assert!(valid_subscription_id("sub-1"));
    assert!(!valid_subscription_id(""));
    assert!(!valid_subscription_id("a/b"));
    assert!(!valid_subscription_id(&"x".repeat(257)));
    assert!(valid_relative_stream_path("events/a"));
    assert!(!valid_relative_stream_path(""));
    assert!(!valid_relative_stream_path("a//b"));
    assert!(!valid_relative_stream_path("a/../b"));
}

#[test]
fn a_key_comes_of_its_document_alone() {
    let drawn = generate_signing_key(5).ok().unwrap();
    let key = signing_key_from(Some(drawn.document.clone()), 9).ok().unwrap();
    assert_eq!(key.kid, drawn.kid);
    assert_eq!(key.x, drawn.x);
    assert_eq!(key.created_at_ms, 9);
    assert_eq!(key.retire_after_ms, None);
    assert_eq!(key.activate_after_ms, None);
    assert!(key.activate_not_before.is_none());
    assert_eq!(
        signing_key_from(None, 9).err(),
        Some("failed to generate webhook signing key")
    );
    assert_eq!(
        signing_key_from(Some(vec![1, 2, 3]), 9).err(),
        Some("failed to parse webhook signing key")
    );
}

#[test]
fn secrets_need_a_token_secret_and_a_key() {
    let key = generate_signing_key(5).ok().unwrap();
    let kid = key.kid.clone();
    let (ring, secret) = secrets_from(Some(vec![7; 32]), Ok(key)).ok().unwrap();
    assert_eq!(ring.active_kid, kid);
    assert_eq!(ring.keys.len(), 1);
    assert_eq!(ring.keys[0].kid, kid);
    assert_eq!(secret, vec![7; 32]);
    assert_eq!(
        secrets_from(None, Err("no key")).err(),
        Some("failed to generate callback token key")
    );
    assert_eq!(secrets_from(Some(vec![7; 32]), Err("no key")).err(), Some("no key"));
}

#[test]
fn a_refresh_announces_a_key_or_leaves_the_keys_alone() {
    let moment = Moment { nanos: 1 };
    let key = generate_signing_key(0).ok().unwrap();
    let kid = key.kid.clone();
    let live = ring_of(vec![key], &kid);
    assert!(matches!(plan_refresh(&live, NOW_MS, moment, 0, 300_000), Ok(None)));
    let planned = plan_refresh(&live, NOW_MS, moment, 1, 300_000).ok().unwrap().unwrap();
    assert_eq!(planned.keys[1].created_at_ms, NOW_MS);
    assert_eq!(planned.keys[1].activate_after_ms, Some(NOW_MS + 300_000));
    assert_eq!(
        planned.keys[1].activate_not_before.map(|at| at.nanos),
        Some(300_000_000_001)
    );
    assert_eq!(planned.active_kid, kid);
}

#[test]
fn answers_to_webhooks_are_bounded_and_read() {
    assert!(answers_done(br#"{"done":true}"#));
    assert!(!answers_done(br#"{"done":false}"#));
    assert!(!answers_done(br#"{"done":"true"}"#));
    assert!(!answers_done(br#"{"other":true}"#));
    assert!(!answers_done(b"true"));
    assert!(!answers_done(b"not json"));
    assert!(!answers_done(b""));
    assert!(flag_says_done(Some(true)));
    assert!(!flag_says_done(Some(false)));
    assert!(!flag_says_done(None));
    assert_eq!(check_length(None), Ok(()));
    assert_eq!(check_length(Some(65_536)), Ok(()));
    assert_eq!(check_length(Some(65_537)), Err("webhook response exceeds 64 KiB"));
    let mut body = vec![0u8; 65_535];
    assert_eq!(take_chunk(&mut body, &[1]), Ok(()));
    assert_eq!(body.len(), 65_536);
    assert_eq!(body[65_535], 1);
    assert_eq!(take_chunk(&mut body, &[2]), Err("webhook response exceeds 64 KiB"));
    assert_eq!(body.len(), 65_536);
}

#[test]
fn kept_keys_are_written_back_as_they_were_read() {
    let moment = Moment { nanos: 1 };
    let key = generate_signing_key(5).ok().unwrap();
    let kid = key.kid.clone();
    let mut persisted = ring_of(vec![key], &kid).persisted(&vec![0xab; 32]);
    assert_eq!(persisted.signing_keys[0].pkcs8, persisted.signing_keys[0].pkcs8.to_lowercase());
    let capitals = persisted.signing_keys[0].pkcs8.to_uppercase();
    persisted.signing_keys[0].pkcs8 = capitals.clone();
    persisted.token_secret = persisted.token_secret.to_uppercase();
    let (ring, secret) = load_secrets(&persisted, moment).ok().unwrap();
    assert_eq!(secret, vec![0xab; 32]);
    let back = ring.persisted(&secret);
    assert_eq!(back.signing_keys[0].pkcs8, capitals);
    assert_eq!(back.signing_keys[0].kid, kid);
    assert_eq!(back.token_secret, "ab".repeat(32));
    assert!(ring.sign_message(b"payload").is_some());
}
