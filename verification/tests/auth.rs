use durable_streams::clock::Moment;
use durable_streams::subscription_auth::{
    allowed_algorithm, check_header, configure, decide_claim, decide_claims, env_flag, file_wanted,
    has_scope, jwk_authorizes_algorithm, key_algorithm_matches, load_jwks, read_header,
    required_spec_claims, token_checks, verify_with_jwks, Admission, Algorithm, AuthSettings,
    ClaimValue, Curve, JwksFault, KeyAlgorithm, KeyCache, KeyFamily, KeyTraits, Mode,
    ServiceJwtError, TokenHeader, VerifierConfig,
};
use durable_streams::subscriptions::encoding::base64_url_encode;
use ring::rand::SystemRandom;
use ring::signature::{Ed25519KeyPair, KeyPair};

fn text(value: &str) -> ClaimValue {
    ClaimValue::Text(value.to_string())
}

fn list(values: &[&str]) -> ClaimValue {
    ClaimValue::List(values.iter().map(|value| Some(value.to_string())).collect())
}

fn unix_seconds() -> u64 {
    std::time::SystemTime::now()
        .duration_since(std::time::UNIX_EPOCH)
        .unwrap()
        .as_secs()
}

fn config(audience: &str, scope: Option<&str>, subject: Option<&str>) -> VerifierConfig {
    VerifierConfig {
        issuer: "https://identity.example".into(),
        audience: audience.into(),
        required_scope: scope.map(str::to_string),
        required_subject: subject.map(str::to_string),
    }
}

fn signed(pair: &Ed25519KeyPair, header: &str, payload: &str) -> String {
    let unsigned = format!(
        "{}.{}",
        base64_url_encode(header.as_bytes()),
        base64_url_encode(payload.as_bytes())
    );
    format!("{}.{}", unsigned, base64_url_encode(pair.sign(unsigned.as_bytes()).as_ref()))
}

fn key_pair() -> Ed25519KeyPair {
    let rng = SystemRandom::new();
    let pkcs8 = Ed25519KeyPair::generate_pkcs8(&rng).unwrap();
    Ed25519KeyPair::from_pkcs8(pkcs8.as_ref()).unwrap()
}

fn key_file(pair: &Ed25519KeyPair, kid: &str) -> Vec<u8> {
    format!(
        r#"{{"keys":[{{"kty":"OKP","crv":"Ed25519","kid":"{}","use":"sig","alg":"EdDSA","x":"{}"}}]}}"#,
        kid,
        base64_url_encode(pair.public_key().as_ref())
    )
    .into_bytes()
}

#[test]
fn scope_accepts_oauth_string_and_array_forms() {
    assert!(has_scope(&text("read claim write"), "claim"));
    assert!(has_scope(&list(&["read", "claim"]), "claim"));
    assert!(!has_scope(&text("claim-other"), "claim"));
}

#[test]
fn scopes_are_whole_words() {
    assert!(!has_scope(&ClaimValue::Absent, "claim"));
    assert!(!has_scope(&ClaimValue::Other, "claim"));
    assert!(!has_scope(&list(&["read claim"]), "claim"));
    assert!(has_scope(&text("  claim\tread "), "claim"));
    assert!(has_scope(&ClaimValue::List(vec![None, Some("claim".to_string())]), "claim"));
}

#[test]
fn symmetric_algorithms_are_never_accepted_for_jwks_claim_auth() {
    assert!(!allowed_algorithm(Algorithm::HS256));
    assert!(allowed_algorithm(Algorithm::EdDSA));
    assert!(allowed_algorithm(Algorithm::RS256));
}

#[test]
fn jwk_metadata_must_authorize_the_requested_signature_algorithm() {
    let file = br#"{"keys":[
        {"kty": "OKP", "crv": "Ed25519", "x": "AA", "kid": "one",
            "use": "sig", "key_ops": ["verify"], "alg": "EdDSA"},
        {"kty": "OKP", "crv": "Ed25519", "x": "AA", "kid": "two",
            "use": "enc", "alg": "EdDSA"},
        {"kty": "OKP", "crv": "Ed25519", "x": "AA", "kid": "three",
            "key_ops": ["sign"], "alg": "EdDSA"}
    ]}"#;
    let keys = match load_jwks(&file.to_vec()) {
        Ok(keys) => keys,
        Err(fault) => panic!("{:?}", fault),
    };
    assert!(jwk_authorizes_algorithm(&keys[0].traits, Algorithm::EdDSA));
    assert!(!jwk_authorizes_algorithm(&keys[1].traits, Algorithm::EdDSA));
    assert!(!jwk_authorizes_algorithm(&keys[2].traits, Algorithm::EdDSA));
    assert_eq!(keys[2].kid, Some("three".to_string()));
    assert_eq!(keys[0].traits.family, KeyFamily::OctetKeyPair(Curve::Ed25519));
    assert_eq!(keys[0].traits.algorithm, Some(KeyAlgorithm::Signing(Algorithm::EdDSA)));
}

#[test]
fn key_families_fit_their_algorithms() {
    let bare = |family: KeyFamily| KeyTraits {
        usage: None,
        operations: None,
        algorithm: None,
        family,
    };
    assert!(jwk_authorizes_algorithm(&bare(KeyFamily::Rsa), Algorithm::PS512));
    assert!(jwk_authorizes_algorithm(&bare(KeyFamily::EllipticCurve(Curve::P256)), Algorithm::ES256));
    assert!(!jwk_authorizes_algorithm(&bare(KeyFamily::EllipticCurve(Curve::P256)), Algorithm::ES384));
    assert!(!jwk_authorizes_algorithm(&bare(KeyFamily::Rsa), Algorithm::EdDSA));
    assert!(!jwk_authorizes_algorithm(&bare(KeyFamily::OctetKey), Algorithm::HS256));
    assert!(key_algorithm_matches(KeyAlgorithm::Signing(Algorithm::RS256), Algorithm::RS256));
    assert!(!key_algorithm_matches(KeyAlgorithm::Signing(Algorithm::RS256), Algorithm::RS384));
    assert!(!key_algorithm_matches(KeyAlgorithm::RsaOaep, Algorithm::RS256));
}

#[test]
fn duplicate_jwks_kids_are_rejected() {
    let file = r#"{"keys":[{"kty":"OKP","crv":"Ed25519","x":"AA","kid":"same"},{"kty":"OKP","crv":"Ed25519","x":"AQ","kid":"same"}]}"#;
    assert!(load_jwks(&file.as_bytes().to_vec()).is_err());
    assert_eq!(load_jwks(&file.as_bytes().to_vec()).err(), Some(JwksFault::BadKid));
}

#[test]
fn each_fault_of_a_key_file_is_told() {
    let fault = |file: &str| load_jwks(&file.as_bytes().to_vec()).err();
    assert_eq!(
        fault("{"),
        Some(JwksFault::Unreadable(
            "EOF while parsing an object at line 1 column 1".to_string()
        ))
    );
    assert_eq!(fault(r#"{"keys":[]}"#), Some(JwksFault::Empty));
    assert_eq!(
        fault(r#"{"keys":[{"kty":"OKP","crv":"Ed25519","x":"AA"}]}"#),
        Some(JwksFault::WithoutKid)
    );
    assert_eq!(
        fault(r#"{"keys":[{"kty":"OKP","crv":"Ed25519","x":"AA","kid":""}]}"#),
        Some(JwksFault::BadKid)
    );
    assert_eq!(load_jwks(&vec![b' '; 1_048_577]).err(), Some(JwksFault::TooLarge));
    assert_eq!(
        JwksFault::Empty.message("/etc/keys.json"),
        "service-JWT JWKS /etc/keys.json contains no keys"
    );
    assert_eq!(
        JwksFault::Unreadable("bad".to_string()).message("k.json"),
        "invalid service-JWT JWKS k.json: bad"
    );
}

#[test]
fn unconfigured_verifier_fails_closed() {
    assert!(matches!(
        Mode::Unconfigured.first_decision(Some("unused".to_string())),
        Err(ServiceJwtError::Unavailable)
    ));
}

#[test]
fn guarded_claims_need_a_token() {
    let guarded = Mode::Jwks {
        jwks_file: "/etc/keys.json".to_string(),
        config: config("durable-streams", None, None),
    };
    assert!(matches!(guarded.first_decision(None), Err(ServiceJwtError::Missing)));
    assert!(matches!(
        guarded.first_decision(Some("t".to_string())),
        Ok(Admission::ByToken(token)) if token == "t"
    ));
    assert!(matches!(
        Mode::InsecureDevelopment.first_decision(None),
        Ok(Admission::Accepted)
    ));
}

#[test]
fn verifies_signature_issuer_audience_expiry_and_scope() {
    let pair = key_pair();
    let kid = "service-key-1";
    let cache = KeyCache {
        keys: load_jwks(&key_file(&pair, kid)).ok().unwrap(),
        loaded_at: Moment { nanos: 0 },
        reload_failed: false,
    };
    let header = format!(r#"{{"alg":"EdDSA","kid":"{}"}}"#, kid);
    let payload = format!(
        r#"{{"iss":"https://identity.example","aud":"durable-streams","exp":{},"scope":"streams:read streams:claim"}}"#,
        unix_seconds() + 60
    );
    let token = signed(&pair, &header, &payload);
    let (name, algorithm) = read_header(&token).unwrap();
    assert_eq!(name, kid);
    assert_eq!(algorithm, Algorithm::EdDSA);
    let verify = |config: &VerifierConfig| cache.verify(&token, &name, algorithm, config);
    assert_eq!(verify(&config("durable-streams", Some("streams:claim"), None)), Ok(()));
    assert_eq!(
        verify(&config("another-service", Some("streams:claim"), None)),
        Err(ServiceJwtError::Invalid)
    );
    assert_eq!(
        verify(&config("durable-streams", Some("streams:admin"), None)),
        Err(ServiceJwtError::Forbidden)
    );
    assert_eq!(
        verify(&config("durable-streams", None, Some("worker-7"))),
        Err(ServiceJwtError::Invalid)
    );
    assert_eq!(
        cache.verify(&token, "another-key", algorithm, &config("durable-streams", None, None)),
        Err(ServiceJwtError::Invalid)
    );
}

#[test]
fn expired_and_forged_tokens_are_invalid() {
    let pair = key_pair();
    let cache = KeyCache {
        keys: load_jwks(&key_file(&pair, "k")).ok().unwrap(),
        loaded_at: Moment { nanos: 0 },
        reload_failed: false,
    };
    let header = r#"{"alg":"EdDSA","kid":"k"}"#;
    let payload = |exp: u64| {
        format!(r#"{{"iss":"https://identity.example","aud":"durable-streams","exp":{}}}"#, exp)
    };
    let wanted = config("durable-streams", None, None);
    let expired = signed(&pair, header, &payload(unix_seconds() - 3600));
    assert_eq!(
        cache.verify(&expired, "k", Algorithm::EdDSA, &wanted),
        Err(ServiceJwtError::Invalid)
    );
    let forged = signed(&key_pair(), header, &payload(unix_seconds() + 60));
    assert_eq!(
        cache.verify(&forged, "k", Algorithm::EdDSA, &wanted),
        Err(ServiceJwtError::Invalid)
    );
    let good = signed(&pair, header, &payload(unix_seconds() + 60));
    assert_eq!(cache.verify(&good, "k", Algorithm::EdDSA, &wanted), Ok(()));
}

#[test]
fn headers_are_checked_before_any_key() {
    assert_eq!(read_header("not-a-token").err(), Some(ServiceJwtError::Invalid));
    let shared = format!("{}.e30.AA", base64_url_encode(br#"{"alg":"HS256","kid":"k"}"#));
    assert_eq!(read_header(&shared).err(), Some(ServiceJwtError::Invalid));
    let unnamed = TokenHeader { algorithm: Algorithm::EdDSA, kid: None };
    assert_eq!(check_header(Some(unnamed)).err(), Some(ServiceJwtError::Invalid));
    let named = TokenHeader { algorithm: Algorithm::ES256, kid: Some("k".to_string()) };
    assert_eq!(check_header(Some(named)), Ok(("k".to_string(), Algorithm::ES256)));
}

#[test]
fn keys_are_reloaded_once_a_second() {
    let pair = key_pair();
    let mut cache = KeyCache {
        keys: load_jwks(&key_file(&pair, "old")).ok().unwrap(),
        loaded_at: Moment { nanos: 0 },
        reload_failed: false,
    };
    assert!(!cache.reload_due(Moment { nanos: 999_999_999 }));
    assert!(cache.reload_due(Moment { nanos: 1_000_000_000 }));
    assert_eq!(cache.refresh(Moment { nanos: 5 }, None), Ok(()));
    assert_eq!(cache.keys[0].kid, Some("old".to_string()));
    let later = Moment { nanos: 2_000_000_000 };
    assert_eq!(cache.refresh(later, None), Err(ServiceJwtError::Unavailable));
    assert_eq!(
        cache.refresh(Moment { nanos: 2_500_000_000 }, Some(key_file(&pair, "new"))),
        Err(ServiceJwtError::Unavailable)
    );
    assert_eq!(
        cache.refresh(Moment { nanos: 3_000_000_000 }, Some(key_file(&pair, "new"))),
        Ok(())
    );
    assert_eq!(cache.keys[0].kid, Some("new".to_string()));
}

#[test]
fn demanded_claims_follow_the_configuration() {
    assert_eq!(required_spec_claims(&None), vec!["exp", "iss", "aud"]);
    assert_eq!(
        required_spec_claims(&Some("worker".to_string())),
        vec!["exp", "iss", "aud", "sub"]
    );
    let checks = token_checks(&config("a", Some("s"), Some("worker")));
    assert_eq!(checks.issuer, "https://identity.example");
    assert_eq!(checks.audience, "a");
    assert_eq!(checks.subject, Some("worker".to_string()));
    assert!(checks.expiry && checks.not_before);
    let scope = Some("s".to_string());
    assert_eq!(decide_claim(Some(text("s")), &scope), Ok(()));
    assert_eq!(decide_claim(Some(text("t")), &scope), Err(ServiceJwtError::Forbidden));
    assert_eq!(decide_claim(None, &scope), Err(ServiceJwtError::Invalid));
    assert_eq!(decide_claim(Some(ClaimValue::Absent), &None), Ok(()));
    let claims = |text: &str| Some(text.to_string());
    assert_eq!(decide_claims(claims("{\"scope\": \"r s\"}"), &scope), Ok(()));
    assert_eq!(decide_claims(claims("{\"scope\": [1, \"s\"]}"), &scope), Ok(()));
    assert_eq!(
        decide_claims(claims("{\"scopes\": \"s\"}"), &scope),
        Err(ServiceJwtError::Forbidden)
    );
    assert_eq!(
        decide_claims(claims("{\"scope\": 7}"), &scope),
        Err(ServiceJwtError::Forbidden)
    );
    assert_eq!(decide_claims(claims("{}"), &None), Ok(()));
    assert_eq!(decide_claims(None, &None), Err(ServiceJwtError::Invalid));
}

fn settings() -> AuthSettings {
    AuthSettings {
        insecure: None,
        jwks_file: None,
        issuer: None,
        audience: None,
        required_scope: None,
        required_subject: None,
    }
}

#[test]
fn settings_go_together() {
    assert!(matches!(configure(&settings()), Ok(Mode::Unconfigured)));
    let mut insecure = settings();
    insecure.insecure = Some("1".to_string());
    assert!(matches!(configure(&insecure), Ok(Mode::InsecureDevelopment)));
    let mut partial = settings();
    partial.issuer = Some("i".to_string());
    assert_eq!(
        configure(&partial).err().unwrap(),
        "DS_SUBSCRIPTION_SERVICE_JWT_JWKS_FILE, DS_SUBSCRIPTION_SERVICE_JWT_ISSUER, and DS_SUBSCRIPTION_SERVICE_JWT_AUDIENCE must be configured together"
    );
    partial.jwks_file = Some("f".to_string());
    partial.audience = Some("a".to_string());
    partial.required_scope = Some(String::new());
    match configure(&partial) {
        Ok(Mode::Jwks { jwks_file, config }) => {
            assert_eq!(jwks_file, "f");
            assert_eq!(config.required_scope, None);
        }
        _ => panic!("expected a key file"),
    }
    assert_eq!(env_flag("F", &Some(String::new())), Ok(false));
    assert_eq!(env_flag("F", &Some("0".to_string())), Ok(false));
    assert_eq!(env_flag("F", &Some("yes".to_string())), Err("F must be 0 or 1".to_string()));
}

#[test]
fn tokens_are_verified_in_the_order_header_file_key() {
    let pair = key_pair();
    let mut cache = KeyCache {
        keys: load_jwks(&key_file(&pair, "old")).ok().unwrap(),
        loaded_at: Moment { nanos: 0 },
        reload_failed: false,
    };
    let header = r#"{"alg":"EdDSA","kid":"new"}"#;
    let payload = format!(
        r#"{{"iss":"https://identity.example","aud":"durable-streams","exp":{}}}"#,
        unix_seconds() + 60
    );
    let token = signed(&pair, header, &payload);
    let wanted = config("durable-streams", None, None);
    let later = Moment { nanos: 2_000_000_000 };
    assert!(!file_wanted(&cache, later, "not-a-token"));
    assert!(!file_wanted(&cache, Moment { nanos: 5 }, &token));
    assert!(file_wanted(&cache, later, &token));
    assert_eq!(
        verify_with_jwks(&mut cache, later, None, "not-a-token", &wanted),
        Err(ServiceJwtError::Invalid)
    );
    assert_eq!(cache.loaded_at, Moment { nanos: 0 });
    assert_eq!(
        verify_with_jwks(&mut cache, Moment { nanos: 5 }, None, &token, &wanted),
        Err(ServiceJwtError::Invalid)
    );
    assert_eq!(
        verify_with_jwks(&mut cache, later, None, &token, &wanted),
        Err(ServiceJwtError::Unavailable)
    );
    let again = Moment { nanos: 4_000_000_000 };
    assert_eq!(
        verify_with_jwks(&mut cache, again, Some(key_file(&pair, "new")), &token, &wanted),
        Ok(())
    );
    assert_eq!(cache.loaded_at, again);
}
