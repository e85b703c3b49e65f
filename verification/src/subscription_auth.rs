//! Who may claim the work of pull-wake subscriptions: bearers of a service
//! token that one of the configured keys signed.

use crate::clock::Moment;
use crate::text::{
    chars_of, copy_optional, joined, opt_text, optional_is, same_text, string_of, texts,
};
use jsonwebtoken::jwk::{
    AlgorithmParameters, EllipticCurve, JwkSet, KeyAlgorithm as NamedAlgorithm, KeyOperations,
    PublicKeyUse,
};
use jsonwebtoken::Algorithm as Scheme;
use vstd::prelude::*;

verus! {

/// The longest key file that is read.
pub const MAX_JWKS_BYTES: usize = 1_048_576;

/// How long read keys are used before the file is read again, in nanoseconds.
pub const JWKS_CACHE_TTL_NANOS: u128 = 1_000_000_000;

/// Why a service token is not accepted.
#[derive(Clone, Copy, Debug, PartialEq, Eq, Structural)]
pub enum ServiceJwtError {
    Unavailable,
    Missing,
    Invalid,
    Forbidden,
}

/// How a token is signed.
#[derive(Clone, Copy, Debug, PartialEq, Eq, Structural)]
pub enum Algorithm {
    HS256,
    HS384,
    HS512,
    ES256,
    ES384,
    RS256,
    RS384,
    RS512,
    PS256,
    PS384,
    PS512,
    EdDSA,
}

/// What a key says it is for: one way of signing, or encrypting keys.
#[derive(Clone, Copy, Debug, PartialEq, Eq, Structural)]
pub enum KeyAlgorithm {
    Signing(Algorithm),
    Rsa15,
    RsaOaep,
    RsaOaep256,
}

/// What a public key may be used for.
#[derive(Clone, Copy, Debug, PartialEq, Eq, Structural)]
pub enum KeyUse {
    Signature,
    Encryption,
    Other,
}

/// What may be done with a key.
#[derive(Clone, Copy, Debug, PartialEq, Eq, Structural)]
pub enum KeyOperation {
    Sign,
    Verify,
    Encrypt,
    Decrypt,
    WrapKey,
    UnwrapKey,
    DeriveKey,
    DeriveBits,
    Other,
}

/// A named curve.
#[derive(Clone, Copy, Debug, PartialEq, Eq, Structural)]
pub enum Curve {
    P256,
    P384,
    P521,
    Ed25519,
}

/// The mathematics of a key.
#[derive(Clone, Copy, Debug, PartialEq, Eq, Structural)]
pub enum KeyFamily {
    Rsa,
    EllipticCurve(Curve),
    OctetKeyPair(Curve),
    OctetKey,
}

/// What a key says about itself.
pub struct KeyTraits {
    pub usage: Option<KeyUse>,
    pub operations: Option<Vec<KeyOperation>>,
    pub algorithm: Option<KeyAlgorithm>,
    pub family: KeyFamily,
}

/// What a key says about itself, as a mathematical value.
#[verifier::ext_equal]
pub struct TraitsView {
    pub usage: Option<KeyUse>,
    pub operations: Option<Seq<KeyOperation>>,
    pub algorithm: Option<KeyAlgorithm>,
    pub family: KeyFamily,
}

impl View for KeyTraits {
    type V = TraitsView;

    open spec fn view(&self) -> TraitsView {
        TraitsView {
            usage: self.usage,
            operations: match self.operations {
                Some(operations) => Some(operations@),
                None => None,
            },
            algorithm: self.algorithm,
            family: self.family,
        }
    }
}

/// Whether tokens signed in this way can be accepted: with a public key only.
pub open spec fn is_allowed(algorithm: Algorithm) -> bool {
    !(algorithm == Algorithm::HS256 || algorithm == Algorithm::HS384 || algorithm
        == Algorithm::HS512)
}

/// Whether tokens signed in this way can be accepted.
pub fn allowed_algorithm(algorithm: Algorithm) -> (r: bool)
    ensures
        r == is_allowed(algorithm),
{
    match algorithm {
        Algorithm::HS256 => false,
        Algorithm::HS384 => false,
        Algorithm::HS512 => false,
        _ => true,
    }
}

/// Whether what a key says it is for is this way of signing.
pub fn key_algorithm_matches(key_algorithm: KeyAlgorithm, algorithm: Algorithm) -> (r: bool)
    ensures
        r == (is_allowed(algorithm) && key_algorithm == KeyAlgorithm::Signing(algorithm)),
{
    match key_algorithm {
        KeyAlgorithm::Signing(own) => own == algorithm && allowed_algorithm(algorithm),
        _ => false,
    }
}

/// Whether a family of keys can sign in a given way.
pub open spec fn family_signs(family: KeyFamily, algorithm: Algorithm) -> bool {
    match family {
        KeyFamily::Rsa => {
            ||| algorithm == Algorithm::RS256
            ||| algorithm == Algorithm::RS384
            ||| algorithm == Algorithm::RS512
            ||| algorithm == Algorithm::PS256
            ||| algorithm == Algorithm::PS384
            ||| algorithm == Algorithm::PS512
        },
        KeyFamily::EllipticCurve(curve) => {
            ||| curve == Curve::P256 && algorithm == Algorithm::ES256
            ||| curve == Curve::P384 && algorithm == Algorithm::ES384
        },
        KeyFamily::OctetKeyPair(curve) => curve == Curve::Ed25519 && algorithm == Algorithm::EdDSA,
        KeyFamily::OctetKey => false,
    }
}

impl TraitsView {
    /// Whether the key is meant to verify tokens signed in this way.
    pub open spec fn authorizes(self, algorithm: Algorithm) -> bool {
        &&& self.usage matches Some(usage) ==> usage == KeyUse::Signature
        &&& self.operations matches Some(operations) ==> operations.contains(KeyOperation::Verify)
        &&& self.algorithm matches Some(own) ==> is_allowed(algorithm) && own
            == KeyAlgorithm::Signing(algorithm)
        &&& family_signs(self.family, algorithm)
    }
}

/// Whether a key is meant to verify tokens signed in this way.
pub fn jwk_authorizes_algorithm(key: &KeyTraits, algorithm: Algorithm) -> (r: bool)
    ensures
        r == key@.authorizes(algorithm),
{
    match key.usage {
        Some(usage) => {
            if usage != KeyUse::Signature {
                return false;
            }
        },
        None => {},
    }
    match &key.operations {
        Some(operations) => {
            if !lists_verify(operations) {
                return false;
            }
        },
        None => {},
    }
    match key.algorithm {
        Some(own) => {
            if !key_algorithm_matches(own, algorithm) {
                return false;
            }
        },
        None => {},
    }
    match key.family {
        KeyFamily::Rsa => match algorithm {
            Algorithm::RS256 => true,
            Algorithm::RS384 => true,
            Algorithm::RS512 => true,
            Algorithm::PS256 => true,
            Algorithm::PS384 => true,
            Algorithm::PS512 => true,
            _ => false,
        },
        KeyFamily::EllipticCurve(curve) => (curve == Curve::P256 && algorithm == Algorithm::ES256)
            || (curve == Curve::P384 && algorithm == Algorithm::ES384),
        KeyFamily::OctetKeyPair(curve) => curve == Curve::Ed25519 && algorithm == Algorithm::EdDSA,
        KeyFamily::OctetKey => false,
    }
}

fn lists_verify(operations: &Vec<KeyOperation>) -> (r: bool)
    ensures
        r == operations@.contains(KeyOperation::Verify),
{
    let mut i: usize = 0;
    while i < operations.len()
        invariant
            i <= operations@.len(),
            forall|k: int| 0 <= k < i ==> operations@[k] != KeyOperation::Verify,
        decreases operations.len() - i,
    {
        if operations[i] == KeyOperation::Verify {
            return true;
        }
        i = i + 1;
    }
    false
}

/// No key with a shared secret ever authorizes a token.
pub proof fn law_shared_secrets_never_authorize(key: TraitsView, algorithm: Algorithm)
    ensures
        key.authorizes(algorithm) ==> is_allowed(algorithm),
        key.family == KeyFamily::OctetKey ==> !key.authorizes(algorithm),
{
}

/// A claim of a token.
pub enum ClaimValue {
    Absent,
    Text(String),
    List(Vec<Option<String>>),
    Other,
}

/// ASCII white space.
pub open spec fn is_ascii_space(c: char) -> bool {
    c == ' ' || c == '\t' || c == '\n' || c == '\r' || c == '\u{c}'
}

fn ascii_space(c: char) -> (r: bool)
    ensures
        r == is_ascii_space(c),
{
    c == ' ' || c == '\t' || c == '\n' || c == '\r' || c == '\u{c}'
}

/// Whether a word stands from `i` to `j`.
pub open spec fn word_at(s: Seq<char>, i: int, j: int) -> bool {
    &&& 0 <= i < j <= s.len()
    &&& forall|k: int| i <= k < j ==> !is_ascii_space(#[trigger] s[k])
    &&& i == 0 || is_ascii_space(s[i - 1])
    &&& j == s.len() || is_ascii_space(s[j])
}

/// Whether one of the words of a text is the given one.
pub open spec fn has_word(s: Seq<char>, word: Seq<char>) -> bool {
    exists|i: int, j: int| #[trigger] word_at(s, i, j) && s.subrange(i, j) == word
}

/// A claim by its content.
#[verifier::ext_equal]
pub ghost enum ClaimView {
    Absent,
    Text(Seq<char>),
    List(Seq<Option<Seq<char>>>),
    Other,
}

impl View for ClaimValue {
    type V = ClaimView;

    open spec fn view(&self) -> ClaimView {
        match self {
            ClaimValue::Absent => ClaimView::Absent,
            ClaimValue::Text(text) => ClaimView::Text(text@),
            ClaimValue::List(items) => ClaimView::List(
                items@.map_values(|item: Option<String>| opt_text(item)),
            ),
            ClaimValue::Other => ClaimView::Other,
        }
    }
}

/// Whether a scope claim grants a scope: as one of several words, or as one of
/// several texts.
pub open spec fn grants(claim: ClaimView, required: Seq<char>) -> bool {
    match claim {
        ClaimView::Text(text) => has_word(text, required),
        ClaimView::List(items) => items.contains(Some(required)),
        _ => false,
    }
}

fn contains_word(text: &str, word: &str) -> (r: bool)
    ensures
        r == has_word(text@, word@),
{
    let chars = chars_of(text);
    let mut at: usize = 0;
    while at < chars.len()
        invariant
            chars@ == text@,
            at <= chars@.len(),
            at == 0 || at == chars@.len() || is_ascii_space(chars@[at - 1]) || is_ascii_space(
                chars@[at as int],
            ),
            forall|i: int, j: int| #[trigger]
                word_at(text@, i, j) && i < at ==> text@.subrange(i, j) != word@,
        decreases chars.len() - at,
    {
        if ascii_space(chars[at]) {
            at = at + 1;
        } else {
            let start: usize = at;
            let mut end: usize = at;
            while end < chars.len() && !ascii_space(chars[end])
                invariant
                    start <= end <= chars@.len(),
                    forall|k: int| start <= k < end ==> !is_ascii_space(#[trigger] chars@[k]),
                decreases chars.len() - end,
            {
                end = end + 1;
            }
            assert(word_at(text@, start as int, end as int));
            let found = string_of(&chars, start, end);
            if same_text(found.as_str(), word) {
                return true;
            }
            assert forall|i: int, j: int| #[trigger] word_at(text@, i, j) && i < end implies
                text@.subrange(i, j) != word@ by {
                if i > start {
                    assert(!is_ascii_space(chars@[i - 1]));
                } else if i == start {
                    if j < end {
                        assert(!is_ascii_space(chars@[j]));
                    } else if end < j {
                        assert(!is_ascii_space(text@[end as int]));
                    }
                }
            }
            at = end;
        }
    }
    assert forall|i: int, j: int| #[trigger] word_at(text@, i, j) implies text@.subrange(i, j)
        != word@ by {}
    false
}

fn lists_text(items: &Vec<Option<String>>, text: &str) -> (r: bool)
    ensures
        r == items@.map_values(|item: Option<String>| opt_text(item)).contains(Some(text@)),
{
    let ghost all = items@.map_values(|item: Option<String>| opt_text(item));
    let mut i: usize = 0;
    while i < items.len()
        invariant
            i <= items@.len(),
            all == items@.map_values(|item: Option<String>| opt_text(item)),
            forall|k: int| 0 <= k < i ==> #[trigger] all[k] != Some(text@),
        decreases items.len() - i,
    {
        assert(all[i as int] == opt_text(items@[i as int]));
        if optional_is(&items[i], text) {
            return true;
        }
        i = i + 1;
    }
    false
}

/// Whether a scope claim grants a scope.
pub fn has_scope(claim: &ClaimValue, required: &str) -> (r: bool)
    ensures
        r == grants(claim@, required@),
{
    match claim {
        ClaimValue::Text(text) => contains_word(text.as_str(), required),
        ClaimValue::List(items) => lists_text(items, required),
        ClaimValue::Absent => false,
        ClaimValue::Other => false,
    }
}

/// The front matter of a token.
pub struct TokenHeader {
    pub algorithm: Algorithm,
    pub kid: Option<String>,
}

/// The front matter of a token as a mathematical value.
#[verifier::ext_equal]
pub struct HeaderView {
    pub algorithm: Algorithm,
    pub kid: Option<Seq<char>>,
}

impl View for TokenHeader {
    type V = HeaderView;

    open spec fn view(&self) -> HeaderView {
        HeaderView { algorithm: self.algorithm, kid: opt_text(self.kid) }
    }
}

/// The front matter that a token carries, if it is one.
pub uninterp spec fn token_header(token: Seq<char>) -> Option<HeaderView>;

/// `jsonwebtoken::decode_header`: a function of the token alone. The algorithm
/// is taken over by its name.
#[verifier::external_body]
fn decode_header(token: &str) -> (r: Option<TokenHeader>)
    ensures
        match r {
            Some(header) => token_header(token@) == Some(header@),
            None => token_header(token@) is None,
        },
{
    let header = jsonwebtoken::decode_header(token).ok()?;
    let algorithm = match header.alg {
        Scheme::HS256 => Algorithm::HS256, Scheme::HS384 => Algorithm::HS384,
        Scheme::HS512 => Algorithm::HS512, Scheme::ES256 => Algorithm::ES256,
        Scheme::ES384 => Algorithm::ES384, Scheme::RS256 => Algorithm::RS256,
        Scheme::RS384 => Algorithm::RS384, Scheme::RS512 => Algorithm::RS512,
        Scheme::PS256 => Algorithm::PS256, Scheme::PS384 => Algorithm::PS384,
        Scheme::PS512 => Algorithm::PS512, Scheme::EdDSA => Algorithm::EdDSA,
    };
    Some(TokenHeader { algorithm, kid: header.kid })
}

/// A key set.
#[verifier::external_type_specification]
#[verifier::external_body]
pub struct ExJwkSet(JwkSet);

/// A key: its name, what it says about itself, and the whole of it as JSON.
pub struct ServiceKey {
    pub kid: Option<String>,
    pub traits: KeyTraits,
    pub jwk: String,
}

/// A key as a mathematical value.
#[verifier::ext_equal]
pub struct ServiceKeyView {
    pub kid: Option<Seq<char>>,
    pub traits: TraitsView,
    pub jwk: Seq<char>,
}

impl View for ServiceKey {
    type V = ServiceKeyView;

    open spec fn view(&self) -> ServiceKeyView {
        ServiceKeyView { kid: opt_text(self.kid), traits: self.traits@, jwk: self.jwk@ }
    }
}

/// The keys that a key set holds.
pub uninterp spec fn keys_held(set: JwkSet) -> Seq<ServiceKeyView>;

/// The keys that a file describes, or why it describes no key set.
pub uninterp spec fn described_keys(bytes: Seq<u8>) -> Result<Seq<ServiceKeyView>, Seq<char>>;

/// `serde_json::from_slice` for `jsonwebtoken::jwk::JwkSet`, an error as its text:
/// a function of the bytes alone.
#[verifier::external_body]
fn parse_key_set(bytes: &Vec<u8>) -> (r: Result<JwkSet, String>)
    ensures
        match r {
            Ok(set) => described_keys(bytes@) == Ok::<_, Seq<char>>(keys_held(set)),
            Err(error) => described_keys(bytes@) == Err::<Seq<ServiceKeyView>, _>(error@),
        },
{
    serde_json::from_slice::<JwkSet>(bytes).map_err(|error| error.to_string())
}

/// The length of the list in a `jsonwebtoken::jwk::JwkSet`.
#[verifier::external_body]
fn key_count(set: &JwkSet) -> (r: usize)
    ensures
        r == keys_held(*set).len(),
{
    set.keys.len()
}

/// `key_id` of a key in a `jsonwebtoken::jwk::JwkSet`.
#[verifier::external_body]
fn kid_at(set: &JwkSet, i: usize) -> (r: Option<String>)
    requires
        i < keys_held(*set).len(),
    ensures
        opt_text(r) == keys_held(*set)[i as int].kid,
{
    set.keys[i].common.key_id.clone()
}

/// `public_key_use` of a key in a `jsonwebtoken::jwk::JwkSet`, by the name of its
/// variant.
#[verifier::external_body]
fn usage_at(set: &JwkSet, i: usize) -> (r: Option<KeyUse>)
    requires
        i < keys_held(*set).len(),
    ensures
        r == keys_held(*set)[i as int].traits.usage,
{
    set.keys[i].common.public_key_use.as_ref().map(|usage| match usage {
        PublicKeyUse::Signature => KeyUse::Signature,
        PublicKeyUse::Encryption => KeyUse::Encryption,
        PublicKeyUse::Other(_) => KeyUse::Other,
    })
}

/// `key_operations` of a key in a `jsonwebtoken::jwk::JwkSet`, each by the name of
/// its variant.
#[verifier::external_body]
fn operations_at(set: &JwkSet, i: usize) -> (r: Option<Vec<KeyOperation>>)
    requires
        i < keys_held(*set).len(),
    ensures
        match r {
            Some(list) => keys_held(*set)[i as int].traits.operations == Some(list@),
            None => keys_held(*set)[i as int].traits.operations is None,
        },
{
    set.keys[i].common.key_operations.as_ref().map(|list| list.iter().map(|own| match own {
        KeyOperations::Sign => KeyOperation::Sign,
        KeyOperations::Verify => KeyOperation::Verify,
        KeyOperations::Encrypt => KeyOperation::Encrypt,
        KeyOperations::Decrypt => KeyOperation::Decrypt,
        KeyOperations::WrapKey => KeyOperation::WrapKey,
        KeyOperations::UnwrapKey => KeyOperation::UnwrapKey,
        KeyOperations::DeriveKey => KeyOperation::DeriveKey,
        KeyOperations::DeriveBits => KeyOperation::DeriveBits,
        KeyOperations::Other(_) => KeyOperation::Other,
    }).collect())
}

/// `key_algorithm` of a key in a `jsonwebtoken::jwk::JwkSet`, by the name of its
/// variant.
#[verifier::external_body]
fn algorithm_at(set: &JwkSet, i: usize) -> (r: Option<KeyAlgorithm>)
    requires
        i < keys_held(*set).len(),
    ensures
        r == keys_held(*set)[i as int].traits.algorithm,
{
    let signing = match set.keys[i].common.key_algorithm? {
        NamedAlgorithm::HS256 => Algorithm::HS256, NamedAlgorithm::HS384 => Algorithm::HS384,
        NamedAlgorithm::HS512 => Algorithm::HS512, NamedAlgorithm::ES256 => Algorithm::ES256,
        NamedAlgorithm::ES384 => Algorithm::ES384, NamedAlgorithm::RS256 => Algorithm::RS256,
        NamedAlgorithm::RS384 => Algorithm::RS384, NamedAlgorithm::RS512 => Algorithm::RS512,
        NamedAlgorithm::PS256 => Algorithm::PS256, NamedAlgorithm::PS384 => Algorithm::PS384,
        NamedAlgorithm::PS512 => Algorithm::PS512, NamedAlgorithm::EdDSA => Algorithm::EdDSA,
        NamedAlgorithm::RSA1_5 => return Some(KeyAlgorithm::Rsa15),
        NamedAlgorithm::RSA_OAEP => return Some(KeyAlgorithm::RsaOaep),
        NamedAlgorithm::RSA_OAEP_256 => return Some(KeyAlgorithm::RsaOaep256),
    };
    Some(KeyAlgorithm::Signing(signing))
}

/// `algorithm` of a key in a `jsonwebtoken::jwk::JwkSet`, by the names of its
/// variant and of its curve.
#[verifier::external_body]
fn family_at(set: &JwkSet, i: usize) -> (r: KeyFamily)
    requires
        i < keys_held(*set).len(),
    ensures
        r == keys_held(*set)[i as int].traits.family,
{
    match &set.keys[i].algorithm {
        AlgorithmParameters::RSA(_) => KeyFamily::Rsa,
        AlgorithmParameters::EllipticCurve(own) => KeyFamily::EllipticCurve(match own.curve {
            EllipticCurve::P256 => Curve::P256, EllipticCurve::P384 => Curve::P384,
            EllipticCurve::P521 => Curve::P521, EllipticCurve::Ed25519 => Curve::Ed25519,
        }),
        AlgorithmParameters::OctetKeyPair(own) => KeyFamily::OctetKeyPair(match own.curve {
            EllipticCurve::P256 => Curve::P256, EllipticCurve::P384 => Curve::P384,
            EllipticCurve::P521 => Curve::P521, EllipticCurve::Ed25519 => Curve::Ed25519,
        }),
        AlgorithmParameters::OctetKey(_) => KeyFamily::OctetKey,
    }
}

/// `serde_json::to_string` of a key in a `jsonwebtoken::jwk::JwkSet`, all of whose
/// parts are texts.
#[verifier::external_body]
fn text_at(set: &JwkSet, i: usize) -> (r: String)
    requires
        i < keys_held(*set).len(),
    ensures
        r@ == keys_held(*set)[i as int].jwk,
{
    serde_json::to_string(&set.keys[i]).unwrap_or_default()
}

/// One key of a key set.
fn key_at(set: &JwkSet, i: usize) -> (r: ServiceKey)
    requires
        i < keys_held(*set).len(),
    ensures
        r@ == keys_held(*set)[i as int],
{
    let traits = KeyTraits {
        usage: usage_at(set, i),
        operations: operations_at(set, i),
        algorithm: algorithm_at(set, i),
        family: family_at(set, i),
    };
    let key = ServiceKey { kid: kid_at(set, i), traits, jwk: text_at(set, i) };
    assert(key@ =~= keys_held(*set)[i as int]);
    key
}

/// What is wrong with a key file.
#[derive(Debug, PartialEq, Eq)]
pub enum JwksFault {
    TooLarge,
    Unreadable(String),
    Empty,
    WithoutKid,
    BadKid,
}

/// What is wrong with a key file, as a mathematical value.
#[verifier::ext_equal]
pub ghost enum FaultView {
    TooLarge,
    Unreadable(Seq<char>),
    Empty,
    WithoutKid,
    BadKid,
}

impl View for JwksFault {
    type V = FaultView;

    open spec fn view(&self) -> FaultView {
        match self {
            JwksFault::TooLarge => FaultView::TooLarge,
            JwksFault::Unreadable(error) => FaultView::Unreadable(error@),
            JwksFault::Empty => FaultView::Empty,
            JwksFault::WithoutKid => FaultView::WithoutKid,
            JwksFault::BadKid => FaultView::BadKid,
        }
    }
}

impl FaultView {
    /// What to say about the fault of the file at `path`.
    pub open spec fn text(self, path: Seq<char>) -> Seq<char> {
        match self {
            FaultView::TooLarge => "service-JWT JWKS "@ + path + " exceeds 1 MiB"@,
            FaultView::Unreadable(error) => "invalid service-JWT JWKS "@ + path + ": "@ + error,
            FaultView::Empty => "service-JWT JWKS "@ + path + " contains no keys"@,
            FaultView::WithoutKid => "service-JWT JWKS "@ + path + " has a key without kid"@,
            FaultView::BadKid => "service-JWT JWKS "@ + path + " has an empty or duplicate kid"@,
        }
    }
}

impl JwksFault {
    /// What to say about the fault of the file at `path`.
    pub fn message(&self, path: &str) -> (r: String)
        ensures
            r@ == self@.text(path@),
    {
        match self {
            JwksFault::TooLarge => {
                let mut text = joined("service-JWT JWKS ", path);
                text.append(" exceeds 1 MiB");
                text
            },
            JwksFault::Unreadable(error) => {
                let mut text = joined("invalid service-JWT JWKS ", path);
                text.append(": ");
                text.append(error.as_str());
                text
            },
            JwksFault::Empty => {
                let mut text = joined("service-JWT JWKS ", path);
                text.append(" contains no keys");
                text
            },
            JwksFault::WithoutKid => {
                let mut text = joined("service-JWT JWKS ", path);
                text.append(" has a key without kid");
                text
            },
            JwksFault::BadKid => {
                let mut text = joined("service-JWT JWKS ", path);
                text.append(" has an empty or duplicate kid");
                text
            },
        }
    }
}

/// Whether one of the keys has this name.
pub open spec fn has_kid(keys: Seq<ServiceKeyView>, kid: Seq<char>) -> bool {
    exists|i: int| 0 <= i < keys.len() && (#[trigger] keys[i]).kid == Some(kid)
}

/// What is wrong with the first wrong one of several keys: every key needs a
/// name of its own.
pub open spec fn kid_fault(keys: Seq<ServiceKeyView>) -> Option<FaultView>
    decreases keys.len(),
{
    if keys.len() == 0 {
        None
    } else {
        match kid_fault(keys.drop_last()) {
            Some(fault) => Some(fault),
            None => match keys.last().kid {
                Some(kid) => if kid.len() == 0 || has_kid(keys.drop_last(), kid) {
                    Some(FaultView::BadKid)
                } else {
                    None
                },
                None => Some(FaultView::WithoutKid),
            },
        }
    }
}

/// What is wrong with a key file.
pub open spec fn jwks_fault(bytes: Seq<u8>) -> Option<FaultView> {
    if bytes.len() > MAX_JWKS_BYTES {
        Some(FaultView::TooLarge)
    } else {
        match described_keys(bytes) {
            Ok(keys) => if keys.len() == 0 {
                Some(FaultView::Empty)
            } else {
                kid_fault(keys)
            },
            Err(error) => Some(FaultView::Unreadable(error)),
        }
    }
}

/// The contents of several keys.
pub open spec fn key_list(keys: Seq<ServiceKey>) -> Seq<ServiceKeyView> {
    keys.map_values(|key: ServiceKey| key@)
}

/// Whether every key has a name of its own.
pub fn check_kids(keys: &Vec<ServiceKey>) -> (r: Result<(), JwksFault>)
    ensures
        match r {
            Ok(()) => kid_fault(key_list(keys@)) is None,
            Err(fault) => kid_fault(key_list(keys@)) == Some(fault@),
        },
{
    let ghost list = key_list(keys@);
    let mut i: usize = 0;
    while i < keys.len()
        invariant
            list == key_list(keys@),
            i <= keys@.len(),
            kid_fault(list.take(i as int)) is None,
        decreases keys.len() - i,
    {
        assert(list.take(i + 1).drop_last() =~= list.take(i as int));
        assert(list.take(i + 1).last() == keys@[i as int]@);
        let problem = match &keys[i].kid {
            Some(kid) => {
                let empty = String::new();
                let mut taken = same_text(kid.as_str(), empty.as_str());
                proof {
                    if kid@.len() == 0 {
                        assert(kid@ =~= empty@);
                    }
                }
                let mut k: usize = 0;
                while k < i
                    invariant
                        list == key_list(keys@),
                        k <= i <= keys@.len(),
                        taken == (kid@.len() == 0 || exists|j: int|
                            0 <= j < k && (#[trigger] list[j]).kid == Some(kid@)),
                    decreases i - k,
                {
                    assert(list[k as int] == keys@[k as int]@);
                    taken = taken || optional_is(&keys[k].kid, kid.as_str());
                    k = k + 1;
                }
                proof {
                    let front = list.take(i as int);
                    if has_kid(front, kid@) {
                        let j = choose|j: int|
                            0 <= j < front.len() && (#[trigger] front[j]).kid == Some(kid@);
                        assert(list[j].kid == Some(kid@));
                    }
                    if exists|j: int| 0 <= j < i && (#[trigger] list[j]).kid == Some(kid@) {
                        let j = choose|j: int|
                            0 <= j < i && (#[trigger] list[j]).kid == Some(kid@);
                        assert(front[j].kid == Some(kid@));
                    }
                }
                if taken {
                    Some(JwksFault::BadKid)
                } else {
                    None
                }
            },
            None => Some(JwksFault::WithoutKid),
        };
        match problem {
            Some(fault) => {
                proof {
                    lemma_fault_stays(list, i + 1);
                }
                return Err(fault);
            },
            None => {},
        }
        i = i + 1;
    }
    assert(list.take(list.len() as int) =~= list);
    Ok(())
}

proof fn lemma_fault_stays(keys: Seq<ServiceKeyView>, k: int)
    requires
        0 <= k <= keys.len(),
        kid_fault(keys.take(k)) is Some,
    ensures
        kid_fault(keys) == kid_fault(keys.take(k)),
    decreases keys.len(),
{
    if k == keys.len() {
        assert(keys.take(k) =~= keys);
    } else {
        assert(keys.drop_last().take(k) =~= keys.take(k));
        lemma_fault_stays(keys.drop_last(), k);
    }
}

/// Read a key file.
pub fn load_jwks(bytes: &Vec<u8>) -> (r: Result<Vec<ServiceKey>, JwksFault>)
    ensures
        match r {
            Ok(keys) => jwks_fault(bytes@) is None && described_keys(bytes@) == Ok::<_, Seq<char>>(
                key_list(keys@),
            ),
            Err(fault) => jwks_fault(bytes@) == Some(fault@),
        },
{
    if bytes.len() > MAX_JWKS_BYTES {
        return Err(JwksFault::TooLarge);
    }
    let set = match parse_key_set(bytes) {
        Ok(set) => set,
        Err(error) => {
            return Err(JwksFault::Unreadable(error));
        },
    };
    let ghost held = keys_held(set);
    let count: usize = key_count(&set);
    if count == 0 {
        return Err(JwksFault::Empty);
    }
    let mut keys: Vec<ServiceKey> = Vec::new();
    while keys.len() < count
        invariant
            held == keys_held(set),
            count == held.len(),
            keys@.len() <= count,
            forall|k: int| 0 <= k < keys@.len() ==> (#[trigger] keys@[k])@ == held[k],
        decreases count - keys.len(),
    {
        let key = key_at(&set, keys.len());
        keys.push(key);
    }
    assert(key_list(keys@) =~= held);
    match check_kids(&keys) {
        Ok(()) => Ok(keys),
        Err(fault) => Err(fault),
    }
}

/// The keys in use, when they were read, and whether the last reading failed.
pub struct KeyCache {
    pub keys: Vec<ServiceKey>,
    pub loaded_at: Moment,
    pub reload_failed: bool,
}

/// What is demanded of a token.
pub struct VerifierConfig {
    pub issuer: String,
    pub audience: String,
    pub required_scope: Option<String>,
    pub required_subject: Option<String>,
}

/// The claims that a token must carry.
pub open spec fn required_claims(subject: Option<Seq<char>>) -> Seq<Seq<char>> {
    let claims = seq!["exp"@, "iss"@, "aud"@];
    if subject is Some {
        claims.push("sub"@)
    } else {
        claims
    }
}

/// The claims that a token must carry.
pub fn required_spec_claims(subject: &Option<String>) -> (r: Vec<String>)
    ensures
        texts(r@) == required_claims(opt_text(*subject)),
{
    let mut claims: Vec<String> = Vec::new();
    claims.push("exp".to_owned());
    claims.push("iss".to_owned());
    claims.push("aud".to_owned());
    if subject.is_some() {
        claims.push("sub".to_owned());
    }
    assert(texts(claims@) =~= required_claims(opt_text(*subject)));
    claims
}

/// What the signature and the standard claims of a token are held to.
pub struct TokenChecks {
    pub issuer: String,
    pub audience: String,
    pub subject: Option<String>,
    pub required: Vec<String>,
    pub expiry: bool,
    pub not_before: bool,
}

/// What tokens are held to under a configuration: its issuer, its audience and
/// its subject, the claims that must be there, and both ends of their time.
pub fn token_checks(config: &VerifierConfig) -> (r: TokenChecks)
    ensures
        r.issuer@ == config.issuer@,
        r.audience@ == config.audience@,
        opt_text(r.subject) == opt_text(config.required_subject),
        texts(r.required@) == required_claims(opt_text(config.required_subject)),
        r.expiry,
        r.not_before,
{
    TokenChecks {
        issuer: config.issuer.clone(),
        audience: config.audience.clone(),
        subject: copy_optional(&config.required_subject),
        required: required_spec_claims(&config.required_subject),
        expiry: true,
        not_before: true,
    }
}

/// The claims of a token that a key signed, as JSON, where they name the issuer,
/// the audience and the subject, hold the required ones, and pass the checks of
/// their end and of their beginning, as far as these are made, at some time.
pub uninterp spec fn accepted_claims(
    token: Seq<char>,
    key: Seq<char>,
    issuer: Seq<char>,
    audience: Seq<char>,
    subject: Option<Seq<char>>,
    required: Seq<Seq<char>>,
    expiry: bool,
    not_before: bool,
) -> Option<Seq<char>>;

/// `jsonwebtoken::DecodingKey::from_jwk` and `jsonwebtoken::decode` with a
/// `jsonwebtoken::Validation` for the token's own algorithm: the claims of a token
/// that passes are those that its signature and the standard claims let pass,
/// which is a function of the arguments. Whether a token passes depends on the
/// time of the call too, so nothing is said of when one does.
#[verifier::external_body]
fn decode_claims(token: &str, key: &str, checks: &TokenChecks) -> (r: Option<String>)
    ensures
        r matches Some(claims) ==> accepted_claims(
            token@,
            key@,
            checks.issuer@,
            checks.audience@,
            opt_text(checks.subject),
            texts(checks.required@),
            checks.expiry,
            checks.not_before,
        ) == Some(claims@),
{
    let key = jsonwebtoken::DecodingKey::from_jwk(&serde_json::from_str(key).ok()?).ok()?;
    let mut validation = jsonwebtoken::Validation::new(jsonwebtoken::decode_header(token).ok()?.alg);
    validation.set_issuer(&[checks.issuer.as_str()]);
    validation.set_audience(&[checks.audience.as_str()]);
    validation.set_required_spec_claims(&checks.required);
    validation.sub = checks.subject.clone();
    validation.validate_exp = checks.expiry;
    validation.validate_nbf = checks.not_before;
    let decoded = jsonwebtoken::decode::<serde_json::Value>(token, &key, &validation).ok()?;
    Some(decoded.claims.to_string())
}

/// The claims of a token that a key signed, as a configuration accepts them: its
/// end and its beginning are always checked.
pub open spec fn verified_claims(
    token: Seq<char>,
    key: Seq<char>,
    config: VerifierConfig,
) -> Option<Seq<char>> {
    accepted_claims(
        token,
        key,
        config.issuer@,
        config.audience@,
        opt_text(config.required_subject),
        required_claims(opt_text(config.required_subject)),
        true,
        true,
    )
}

/// What JSON text holds under a name, if it is an object.
pub uninterp spec fn named_claim(claims: Seq<char>, name: Seq<char>) -> ClaimView;

/// `serde_json::from_str` and `serde_json::Value::get`: what JSON text holds under
/// a name, by the variant of the value, with `as_str` of each value of a list. It
/// depends on the text and the name alone.
#[verifier::external_body]
fn claim_in(claims: &str, name: &str) -> (r: ClaimValue)
    ensures
        r@ == named_claim(claims@, name@),
{
    match serde_json::from_str::<serde_json::Value>(claims).unwrap_or_default().get(name) {
        Some(serde_json::Value::String(text)) => ClaimValue::Text(text.clone()),
        Some(serde_json::Value::Array(items)) => ClaimValue::List(
            items.iter().map(|item| item.as_str().map(str::to_string)).collect(),
        ),
        Some(_) => ClaimValue::Other,
        None => ClaimValue::Absent,
    }
}

/// Whether a token's front matter is acceptable: the name of its key, and how
/// it is signed.
pub open spec fn header_verdict(header: Option<HeaderView>) -> Result<
    (Seq<char>, Algorithm),
    ServiceJwtError,
> {
    match header {
        Some(header) => if is_allowed(header.algorithm) && header.kid is Some {
            Ok((header.kid->0, header.algorithm))
        } else {
            Err(ServiceJwtError::Invalid)
        },
        None => Err(ServiceJwtError::Invalid),
    }
}

/// Whether front matter is acceptable.
pub fn check_header(header: Option<TokenHeader>) -> (r: Result<
    (String, Algorithm),
    ServiceJwtError,
>)
    ensures
        ({
            let view = match header {
                Some(header) => Some(header@),
                None => None,
            };
            match header_verdict(view) {
                Ok((kid, algorithm)) => r matches Ok((own, other)) && own@ == kid && other
                    == algorithm,
                Err(error) => r == Err::<(String, Algorithm), ServiceJwtError>(error),
            }
        }),
{
    match header {
        Some(header) => {
            if !allowed_algorithm(header.algorithm) {
                return Err(ServiceJwtError::Invalid);
            }
            match header.kid {
                Some(kid) => Ok((kid, header.algorithm)),
                None => Err(ServiceJwtError::Invalid),
            }
        },
        None => Err(ServiceJwtError::Invalid),
    }
}

/// Look at the front matter of a token: the name of its key, and how it is
/// signed. This comes before any file is read.
pub fn read_header(token: &str) -> (r: Result<(String, Algorithm), ServiceJwtError>)
    ensures
        match header_verdict(token_header(token@)) {
            Ok((kid, algorithm)) => r matches Ok((own, other)) && own@ == kid && other == algorithm,
            Err(error) => r == Err::<(String, Algorithm), ServiceJwtError>(error),
        },
{
    check_header(decode_header(token))
}

/// Where the first key with a name stands.
pub open spec fn kid_index(keys: Seq<ServiceKeyView>, kid: Seq<char>) -> Option<int> {
    if has_kid(keys, kid) {
        Some(
            choose|i: int|
                0 <= i < keys.len() && (#[trigger] keys[i]).kid == Some(kid) && forall|k: int|
                    0 <= k < i ==> (#[trigger] keys[k]).kid != Some(kid),
        )
    } else {
        None
    }
}

/// What a verified token leads to, given its scope claim and the scope that is
/// demanded. Nothing comes in where the token did not verify.
pub open spec fn claim_verdict(claim: Option<ClaimView>, scope: Option<Seq<char>>) -> Result<
    (),
    ServiceJwtError,
> {
    match claim {
        Some(claim) => if scope matches Some(required) && !grants(claim, required) {
            Err(ServiceJwtError::Forbidden)
        } else {
            Ok(())
        },
        None => Err(ServiceJwtError::Invalid),
    }
}

/// What a verified token leads to.
pub fn decide_claim(claim: Option<ClaimValue>, scope: &Option<String>) -> (r: Result<
    (),
    ServiceJwtError,
>)
    ensures
        r == claim_verdict(
            match claim {
                Some(claim) => Some(claim@),
                None => None,
            },
            opt_text(*scope),
        ),
{
    match claim {
        Some(claim) => match scope {
            Some(required) => if has_scope(&claim, required.as_str()) {
                Ok(())
            } else {
                Err(ServiceJwtError::Forbidden)
            },
            None => Ok(()),
        },
        None => Err(ServiceJwtError::Invalid),
    }
}

/// What a token leads to, given the claims of one that verified: its claim
/// `scope` decides.
pub open spec fn claims_verdict(claims: Option<Seq<char>>, scope: Option<Seq<char>>) -> Result<
    (),
    ServiceJwtError,
> {
    claim_verdict(
        match claims {
            Some(claims) => Some(named_claim(claims, "scope"@)),
            None => None,
        },
        scope,
    )
}

/// What a token leads to, given its claims as JSON if it verified.
pub fn decide_claims(claims: Option<String>, scope: &Option<String>) -> (r: Result<
    (),
    ServiceJwtError,
>)
    ensures
        r == claims_verdict(opt_text(claims), opt_text(*scope)),
{
    match claims {
        Some(claims) => decide_claim(Some(claim_in(claims.as_str(), "scope")), scope),
        None => decide_claim(None, scope),
    }
}

/// The contents of a file that may be missing.
pub open spec fn opt_file(file: Option<Vec<u8>>) -> Option<Seq<u8>> {
    match file {
        Some(bytes) => Some(bytes@),
        None => None,
    }
}

impl KeyCache {
    /// Whether the key file has to be read again.
    pub open spec fn stale(self, now: Moment) -> bool {
        now.nanos >= self.loaded_at.nanos + JWKS_CACHE_TTL_NANOS
    }

    /// Whether the keys become `next` when the key file is taken in, if it is
    /// due. A file that is missing or at fault leaves the keys as they are.
    pub open spec fn refreshes_to(self, next: KeyCache, now: Moment, file: Option<Seq<u8>>) -> bool {
        let good = file matches Some(bytes) && jwks_fault(bytes) is None;
        if self.stale(now) {
            &&& next.loaded_at == now
            &&& next.reload_failed == !good
            &&& if good {
                described_keys(file->0) == Ok::<_, Seq<char>>(key_list(next.keys@))
            } else {
                next.keys@ == self.keys@
            }
        } else {
            next == self
        }
    }

    /// Whether `r` may come of a token: a key of that name must be meant for
    /// the algorithm, and the claims that it signed must be accepted.
    pub open spec fn decides(
        self,
        token: Seq<char>,
        kid: Seq<char>,
        algorithm: Algorithm,
        config: VerifierConfig,
        r: Result<(), ServiceJwtError>,
    ) -> bool {
        match kid_index(key_list(self.keys@), kid) {
            Some(i) => if self.keys@[i]@.traits.authorizes(algorithm) {
                let claims = verified_claims(token, self.keys@[i]@.jwk, config);
                ||| r == Err::<(), ServiceJwtError>(ServiceJwtError::Invalid)
                ||| claims is Some && r == claims_verdict(claims, opt_text(config.required_scope))
            } else {
                r == Err::<(), ServiceJwtError>(ServiceJwtError::Invalid)
            },
            None => r == Err::<(), ServiceJwtError>(ServiceJwtError::Invalid),
        }
    }

    /// Whether the key file has to be read again.
    pub fn reload_due(&self, now: Moment) -> (r: bool)
        ensures
            r == self.stale(now),
    {
        now.saturating_since(self.loaded_at).nanos >= JWKS_CACHE_TTL_NANOS
    }

    /// Take the key file in, if it is due; nothing stands for a file that could
    /// not be read. While the last reading failed, no key is used.
    pub fn refresh(&mut self, now: Moment, file: Option<Vec<u8>>) -> (r: Result<
        (),
        ServiceJwtError,
    >)
        ensures
            old(self).refreshes_to(*final(self), now, opt_file(file)),
            r == (if final(self).reload_failed {
                Err::<(), ServiceJwtError>(ServiceJwtError::Unavailable)
            } else {
                Ok::<(), ServiceJwtError>(())
            }),
    {
        if self.reload_due(now) {
            self.loaded_at = now;
            match file {
                Some(bytes) => match load_jwks(&bytes) {
                    Ok(keys) => {
                        self.keys = keys;
                        self.reload_failed = false;
                    },
                    Err(_) => {
                        self.reload_failed = true;
                    },
                },
                None => {
                    self.reload_failed = true;
                },
            }
        }
        if self.reload_failed {
            Err(ServiceJwtError::Unavailable)
        } else {
            Ok(())
        }
    }

    fn find(&self, kid: &str) -> (r: Option<usize>)
        ensures
            match r {
                Some(i) => i < self.keys@.len() && kid_index(key_list(self.keys@), kid@) == Some(
                    i as int,
                ),
                None => kid_index(key_list(self.keys@), kid@) is None,
            },
    {
        let ghost list = key_list(self.keys@);
        let mut i: usize = 0;
        while i < self.keys.len()
            invariant
                list == key_list(self.keys@),
                i <= self.keys@.len(),
                forall|k: int| 0 <= k < i ==> (#[trigger] list[k]).kid != Some(kid@),
            decreases self.keys.len() - i,
        {
            assert(list[i as int] == self.keys@[i as int]@);
            if optional_is(&self.keys[i].kid, kid) {
                proof {
                    let found = kid_index(list, kid@)->0;
                    assert(list[i as int].kid == Some(kid@));
                    if found < i {
                        assert(list[found].kid != Some(kid@));
                    }
                }
                return Some(i);
            }
            i = i + 1;
        }
        None
    }

    /// Verify a token with the keys in use. A token of an unknown key, or of
    /// one that is not meant for its algorithm, is invalid; for the others the
    /// signature, the time and the demanded claims decide.
    pub fn verify(
        &self,
        token: &str,
        kid: &str,
        algorithm: Algorithm,
        config: &VerifierConfig,
    ) -> (r: Result<(), ServiceJwtError>)
        ensures
            self.decides(token@, kid@, algorithm, *config, r),
    {
        let key = match self.find(kid) {
            Some(i) => &self.keys[i],
            None => {
                return Err(ServiceJwtError::Invalid);
            },
        };
        if !jwk_authorizes_algorithm(&key.traits, algorithm) {
            return Err(ServiceJwtError::Invalid);
        }
        let checks = token_checks(config);
        decide_claims(decode_claims(token, key.jwk.as_str(), &checks), &config.required_scope)
    }
}

/// Whether the key file has to be read before a token can be verified: not
/// for a token whose front matter is refused.
pub fn file_wanted(cache: &KeyCache, now: Moment, token: &str) -> (r: bool)
    ensures
        r == (header_verdict(token_header(token@)) is Ok && cache.stale(now)),
{
    match read_header(token) {
        Ok(_) => cache.reload_due(now),
        Err(_) => false,
    }
}

/// Verify a token against the key file: its front matter first, with which
/// nothing is taken in if it is refused, then the file, if it is due, and then
/// the key that the front matter names.
pub fn verify_with_jwks(
    cache: &mut KeyCache,
    now: Moment,
    file: Option<Vec<u8>>,
    token: &str,
    config: &VerifierConfig,
) -> (r: Result<(), ServiceJwtError>)
    ensures
        match header_verdict(token_header(token@)) {
            Ok((kid, algorithm)) => {
                &&& old(cache).refreshes_to(*final(cache), now, opt_file(file))
                &&& if final(cache).reload_failed {
                    r == Err::<(), ServiceJwtError>(ServiceJwtError::Unavailable)
                } else {
                    final(cache).decides(token@, kid, algorithm, *config, r)
                }
            },
            Err(error) => *final(cache) == *old(cache) && r == Err::<(), ServiceJwtError>(error),
        },
{
    let (kid, algorithm) = match read_header(token) {
        Ok(named) => named,
        Err(error) => {
            return Err(error);
        },
    };
    match cache.refresh(now, file) {
        Ok(()) => cache.verify(token, kid.as_str(), algorithm, config),
        Err(error) => Err(error),
    }
}

/// How claims are guarded.
pub enum Mode {
    Unconfigured,
    InsecureDevelopment,
    Jwks { jwks_file: String, config: VerifierConfig },
}

/// The first decision on a claim: refused, accepted without a token, or to be
/// decided by the token.
pub enum Admission {
    Accepted,
    ByToken(String),
}

impl Mode {
    /// Decide on a claim as far as no token has to be verified.
    pub fn first_decision(&self, bearer_token: Option<String>) -> (r: Result<
        Admission,
        ServiceJwtError,
    >)
        ensures
            match self {
                Mode::Unconfigured => r matches Err(error) && error
                    == ServiceJwtError::Unavailable,
                Mode::InsecureDevelopment => r matches Ok(Admission::Accepted),
                Mode::Jwks { .. } => match bearer_token {
                    Some(token) => r matches Ok(Admission::ByToken(own)) && own@ == token@,
                    None => r matches Err(error) && error == ServiceJwtError::Missing,
                },
            },
    {
        match self {
            Mode::Unconfigured => Err(ServiceJwtError::Unavailable),
            Mode::InsecureDevelopment => Ok(Admission::Accepted),
            Mode::Jwks { .. } => match bearer_token {
                Some(token) => Ok(Admission::ByToken(token)),
                None => Err(ServiceJwtError::Missing),
            },
        }
    }
}

/// The settings that decide how claims are guarded, as they are found.
pub struct AuthSettings {
    pub insecure: Option<String>,
    pub jwks_file: Option<String>,
    pub issuer: Option<String>,
    pub audience: Option<String>,
    pub required_scope: Option<String>,
    pub required_subject: Option<String>,
}

/// A setting that is there and not empty.
pub open spec fn given(value: Option<Seq<char>>) -> Option<Seq<char>> {
    if value matches Some(text) && text.len() == 0 {
        None
    } else {
        value
    }
}

fn nonempty(value: &Option<String>) -> (r: Option<String>)
    ensures
        opt_text(r) == given(opt_text(*value)),
{
    match value {
        Some(text) => {
            let empty = String::new();
            proof {
                if text@.len() == 0 {
                    assert(text@ =~= empty@);
                }
            }
            if same_text(text.as_str(), empty.as_str()) {
                None
            } else {
                Some(text.clone())
            }
        },
        None => None,
    }
}

/// What a flag says, if it says something sensible.
pub open spec fn flag_value(value: Option<Seq<char>>) -> Option<bool> {
    match value {
        None => Some(false),
        Some(text) => if text == "1"@ {
            Some(true)
        } else if text == "0"@ || text.len() == 0 {
            Some(false)
        } else {
            None
        },
    }
}

/// Read a flag.
pub fn env_flag(name: &str, value: &Option<String>) -> (r: Result<bool, String>)
    ensures
        match flag_value(opt_text(*value)) {
            Some(flag) => r == Ok::<bool, String>(flag),
            None => r matches Err(message) && message@ == name@ + " must be 0 or 1"@,
        },
{
    match value {
        None => Ok(false),
        Some(text) => {
            proof {
                reveal_strlit("1");
                reveal_strlit("0");
            }
            if same_text(text.as_str(), "1") {
                Ok(true)
            } else if same_text(text.as_str(), "0") || nonempty(value).is_none() {
                Ok(false)
            } else {
                Err(joined(name, " must be 0 or 1"))
            }
        },
    }
}

/// How claims are guarded under the given settings. File, issuer and audience
/// go together.
pub fn configure(settings: &AuthSettings) -> (r: Result<Mode, String>)
    ensures
        ({
            let file = given(opt_text(settings.jwks_file));
            let issuer = given(opt_text(settings.issuer));
            let audience = given(opt_text(settings.audience));
            match flag_value(opt_text(settings.insecure)) {
                None => r matches Err(message) && message@
                    == "DS_SUBSCRIPTION_INSECURE_ALLOW_UNAUTHENTICATED_CLAIMS"@
                    + " must be 0 or 1"@,
                Some(true) => r matches Ok(Mode::InsecureDevelopment),
                Some(false) => if file is None && issuer is None && audience is None {
                    r matches Ok(Mode::Unconfigured)
                } else if file is Some && issuer is Some && audience is Some {
                    &&& r matches Ok(Mode::Jwks { jwks_file, config })
                    &&& jwks_file@ == file->0
                    &&& config.issuer@ == issuer->0
                    &&& config.audience@ == audience->0
                    &&& opt_text(config.required_scope) == given(opt_text(settings.required_scope))
                    &&& opt_text(config.required_subject) == given(
                        opt_text(settings.required_subject),
                    )
                } else {
                    r matches Err(message) && message@ == together_message()
                },
            }
        }),
{
    match env_flag(
        "DS_SUBSCRIPTION_INSECURE_ALLOW_UNAUTHENTICATED_CLAIMS",
        &settings.insecure,
    ) {
        Ok(true) => {
            return Ok(Mode::InsecureDevelopment);
        },
        Ok(false) => {},
        Err(message) => {
            return Err(message);
        },
    }
    match (nonempty(&settings.jwks_file), nonempty(&settings.issuer), nonempty(&settings.audience)) {
        (None, None, None) => Ok(Mode::Unconfigured),
        (Some(jwks_file), Some(issuer), Some(audience)) => Ok(
            Mode::Jwks {
                jwks_file,
                config: VerifierConfig {
                    issuer,
                    audience,
                    required_scope: nonempty(&settings.required_scope),
                    required_subject: nonempty(&settings.required_subject),
                },
            },
        ),
        _ => Err(
            "DS_SUBSCRIPTION_SERVICE_JWT_JWKS_FILE, DS_SUBSCRIPTION_SERVICE_JWT_ISSUER, and DS_SUBSCRIPTION_SERVICE_JWT_AUDIENCE must be configured together".to_owned(),
        ),
    }
}

/// The complaint about an incomplete configuration.
pub open spec fn together_message() -> Seq<char> {
    "DS_SUBSCRIPTION_SERVICE_JWT_JWKS_FILE, DS_SUBSCRIPTION_SERVICE_JWT_ISSUER, and DS_SUBSCRIPTION_SERVICE_JWT_AUDIENCE must be configured together"@
}

/// A claim is let through exactly if its token passed and, where a scope is
/// asked for, the token grants it. A token that did not pass is invalid; one
/// without the scope is forbidden.
pub proof fn law_scope_decides(claim: Option<ClaimView>, scope: Option<Seq<char>>)
    ensures
        claim is None ==> claim_verdict(claim, scope) == Err::<(), ServiceJwtError>(
            ServiceJwtError::Invalid,
        ),
        claim is Some && scope is None ==> claim_verdict(claim, scope) == Ok::<
            (),
            ServiceJwtError,
        >(()),
        claim is Some && scope is Some && grants(claim->0, scope->0) ==> claim_verdict(claim, scope)
            == Ok::<(), ServiceJwtError>(()),
        claim is Some && scope is Some && !grants(claim->0, scope->0) ==> claim_verdict(
            claim,
            scope,
        ) == Err::<(), ServiceJwtError>(ServiceJwtError::Forbidden),
{
}

/// A list grants what it names. A text grants its words as a whole: the word
/// alone, or between white space, and not as a part of a longer one.
pub proof fn law_scope_is_a_whole_word(
    front: Seq<char>,
    word: Seq<char>,
    back: Seq<char>,
    items: Seq<Option<Seq<char>>>,
    i: int,
)
    requires
        word.len() > 0,
        forall|k: int| 0 <= k < word.len() ==> !is_ascii_space(#[trigger] word[k]),
    ensures
        grants(ClaimView::Text(word), word),
        (front.len() == 0 || is_ascii_space(front.last())) && (back.len() == 0 || is_ascii_space(
            back[0],
        )) ==> grants(ClaimView::Text(front + word + back), word),
        !grants(ClaimView::Text(Seq::empty()), word),
        back.len() > 0 && !is_ascii_space(back.last()) && (forall|k: int|
            0 <= k < back.len() ==> !is_ascii_space(#[trigger] back[k])) ==> !grants(
            ClaimView::Text(word + back),
            word,
        ),
        0 <= i < items.len() && items[i] == Some(word) ==> grants(ClaimView::List(items), word),
        grants(ClaimView::List(items), word) ==> items.contains(Some(word)),
        !grants(ClaimView::Absent, word),
        !grants(ClaimView::Other, word),
{
    assert(word_at(word, 0, word.len() as int));
    assert(word.subrange(0, word.len() as int) =~= word);
    let text = front + word + back;
    if (front.len() == 0 || is_ascii_space(front.last())) && (back.len() == 0 || is_ascii_space(
        back[0],
    )) {
        let a = front.len() as int;
        let b = (front.len() + word.len()) as int;
        assert forall|k: int| a <= k < b implies !is_ascii_space(#[trigger] text[k]) by {
            assert(text[k] == word[k - a]);
        }
        assert(word_at(text, a, b));
        assert(text.subrange(a, b) =~= word);
    }
    let longer = word + back;
    if back.len() > 0 && (forall|k: int|
        0 <= k < back.len() ==> !is_ascii_space(#[trigger] back[k])) {
        assert forall|x: int, y: int| #[trigger] word_at(longer, x, y) implies longer.subrange(x, y)
            != word by {
            assert forall|k: int| 0 <= k < longer.len() implies !is_ascii_space(
                #[trigger] longer[k],
            ) by {
                if k < word.len() {
                    assert(longer[k] == word[k]);
                } else {
                    assert(longer[k] == back[k - word.len()]);
                }
            }
            if x > 0 {
                assert(!is_ascii_space(longer[x - 1]));
            }
            if y < longer.len() {
                assert(!is_ascii_space(longer[y]));
            }
            assert(longer.subrange(x, y).len() == longer.len());
        }
    }
}

/// A key file passes exactly if it is not too long, can be read, holds a key, and
/// every key in it has a name of its own.
pub proof fn law_key_file_names_every_key(bytes: Seq<u8>)
    ensures
        jwks_fault(bytes) is None <==> bytes.len() <= 1_048_576 && (described_keys(
            bytes,
        ) matches Ok(keys) && keys.len() > 0 && kids_distinct(keys)),
{
    if let Ok(keys) = described_keys(bytes) {
        lemma_kid_fault(keys);
    }
}

/// Whether every key has a name, and no two have the same.
pub open spec fn kids_distinct(keys: Seq<ServiceKeyView>) -> bool {
    &&& forall|i: int|
        0 <= i < keys.len() ==> ((#[trigger] keys[i]).kid matches Some(kid) && kid.len() > 0)
    &&& forall|i: int, j: int|
        0 <= i < j < keys.len() ==> (#[trigger] keys[i]).kid != (#[trigger] keys[j]).kid
}

proof fn lemma_kid_fault(keys: Seq<ServiceKeyView>)
    ensures
        kid_fault(keys) is None <==> kids_distinct(keys),
    decreases keys.len(),
{
    if keys.len() > 0 {
        let front = keys.drop_last();
        let last = keys.last();
        lemma_kid_fault(front);
        assert(forall|i: int| 0 <= i < front.len() ==> front[i] == keys[i]);
        if kid_fault(keys) is None {
            assert forall|i: int, j: int| 0 <= i < j < keys.len() implies (#[trigger] keys[i]).kid
                != (#[trigger] keys[j]).kid by {
                if j == keys.len() - 1 {
                    assert(front[i].kid == keys[i].kid);
                } else {
                    assert(front[i].kid != front[j].kid);
                }
            }
            assert forall|i: int| 0 <= i < keys.len() implies ((#[trigger] keys[i]).kid matches Some(
                kid,
            ) && kid.len() > 0) by {
                if i < front.len() {
                    assert(front[i] == keys[i]);
                }
            }
        }
        if kids_distinct(keys) {
            assert forall|i: int| 0 <= i < front.len() implies ((
            #[trigger] front[i]).kid matches Some(kid) && kid.len() > 0) by {
                assert(front[i] == keys[i]);
            }
            assert forall|i: int, j: int| 0 <= i < j < front.len() implies (#[trigger] front[i]).kid
                != (#[trigger] front[j]).kid by {
                assert(front[i] == keys[i] && front[j] == keys[j]);
            }
            assert(keys[keys.len() - 1] == last);
            if last.kid is Some && has_kid(front, last.kid->0) {
                let i = choose|i: int|
                    0 <= i < front.len() && (#[trigger] front[i]).kid == Some(last.kid->0);
                assert(keys[i].kid == keys[keys.len() - 1].kid);
            }
        }
    }
}

/// Whether a token passes under a key: the key has the name that the token gives
/// and is good for its algorithm, its claims passed for the configured issuer,
/// audience and subject, and they grant the scope that is asked for.
pub open spec fn passes_under(
    key: ServiceKeyView,
    token: Seq<char>,
    kid: Seq<char>,
    algorithm: Algorithm,
    config: VerifierConfig,
) -> bool {
    let subject = opt_text(config.required_subject);
    let claims = accepted_claims(
        token,
        key.jwk,
        config.issuer@,
        config.audience@,
        subject,
        required_claims(subject),
        true,
        true,
    );
    &&& key.kid == Some(kid)
    &&& key.traits.authorizes(algorithm)
    &&& claims is Some
    &&& opt_text(config.required_scope) matches Some(scope) ==> grants(
        named_claim(claims->0, "scope"@),
        scope,
    )
}

/// A token is accepted only where it passes under a key of the cache.
pub proof fn law_accepted_token_has_key_and_scope(
    cache: KeyCache,
    token: Seq<char>,
    kid: Seq<char>,
    algorithm: Algorithm,
    config: VerifierConfig,
)
    requires
        cache.decides(token, kid, algorithm, config, Ok(())),
    ensures
        exists|i: int|
            0 <= i < cache.keys@.len() && passes_under(
                (#[trigger] cache.keys@[i])@,
                token,
                kid,
                algorithm,
                config,
            ),
{
    let keys = key_list(cache.keys@);
    if has_kid(keys, kid) {
        let k = choose|k: int| 0 <= k < keys.len() && (#[trigger] keys[k]).kid == Some(kid);
        lemma_first_kid(keys, kid, k);
        let i = kid_index(keys, kid)->0;
        assert(keys[i] == cache.keys@[i]@);
        assert(passes_under(cache.keys@[i]@, token, kid, algorithm, config));
    }
}

/// The end, the issuer and the audience of a token are always asked for, and the
/// subject where one is configured.
pub proof fn law_claims_are_always_asked_for(subject: Option<Seq<char>>)
    ensures
        required_claims(subject).contains("exp"@),
        required_claims(subject).contains("iss"@),
        required_claims(subject).contains("aud"@),
        subject is Some ==> required_claims(subject).contains("sub"@),
{
    let required = required_claims(subject);
    assert(required[0] == "exp"@ && required[1] == "iss"@ && required[2] == "aud"@);
    if subject is Some {
        assert(required[3] == "sub"@);
    }
}

proof fn lemma_first_kid(keys: Seq<ServiceKeyView>, kid: Seq<char>, bound: int)
    requires
        0 <= bound < keys.len(),
        keys[bound].kid == Some(kid),
    ensures
        kid_index(keys, kid) matches Some(i) && 0 <= i < keys.len() && keys[i].kid == Some(kid),
    decreases bound,
{
    if exists|k: int| 0 <= k < bound && (#[trigger] keys[k]).kid == Some(kid) {
        let k = choose|k: int| 0 <= k < bound && (#[trigger] keys[k]).kid == Some(kid);
        lemma_first_kid(keys, kid, k);
    } else {
        assert(has_kid(keys, kid));
        assert(0 <= bound < keys.len() && keys[bound].kid == Some(kid) && forall|k: int|
            0 <= k < bound ==> (#[trigger] keys[k]).kid != Some(kid));
    }
}

/// Keys are used for a second before their file is read again. A file that cannot
/// be used leaves the keys as they were and is told as a failure; a good one
/// replaces them all.
pub proof fn law_keys_are_read_again(
    cache: KeyCache,
    next: KeyCache,
    now: Moment,
    file: Option<Seq<u8>>,
)
    requires
        cache.refreshes_to(next, now, file),
    ensures
        now.nanos < cache.loaded_at.nanos + 1_000_000_000 ==> next == cache,
        now.nanos >= cache.loaded_at.nanos + 1_000_000_000 ==> {
            &&& next.loaded_at == now
            &&& next.reload_failed <==> file is None || jwks_fault(file->0) is Some
            &&& next.reload_failed ==> next.keys@ == cache.keys@
            &&& !next.reload_failed ==> described_keys(file->0) == Ok::<_, Seq<char>>(
                key_list(next.keys@),
            )
        },
{
}

/// A key is good for an algorithm only as its own marks say: for signatures, for
/// verifying, for that algorithm where it names one, and of the right family. A
/// key without marks is good for the algorithms of its family.
pub proof fn law_marks_limit_a_key(key: TraitsView, algorithm: Algorithm)
    ensures
        key.usage == Some(KeyUse::Encryption) ==> !key.authorizes(algorithm),
        key.usage == Some(KeyUse::Other) ==> !key.authorizes(algorithm),
        key.operations matches Some(operations) && !operations.contains(KeyOperation::Verify)
            ==> !key.authorizes(algorithm),
        key.algorithm matches Some(own) && own != KeyAlgorithm::Signing(algorithm)
            ==> !key.authorizes(algorithm),
        !family_signs(key.family, algorithm) ==> !key.authorizes(algorithm),
        key.usage is None && key.operations is None && key.algorithm is None && family_signs(
            key.family,
            algorithm,
        ) ==> key.authorizes(algorithm),
        key.usage == Some(KeyUse::Signature) && key.operations is None && key.algorithm == Some(
            KeyAlgorithm::Signing(algorithm),
        ) && is_allowed(algorithm) && family_signs(key.family, algorithm) ==> key.authorizes(
            algorithm,
        ),
{
}

/// Claims go unguarded only where that was asked for, and a configuration for
/// tokens is used whole or not at all: one with a part missing is refused.
pub proof fn law_configuration_is_whole(settings: &AuthSettings, r: Result<Mode, String>)
    requires
        call_ensures(configure, (settings,), r),
    ensures
        r matches Ok(Mode::InsecureDevelopment) ==> settings.insecure matches Some(flag) && flag@
            == "1"@,
        (settings.insecure matches Some(flag) && flag@ == "1"@) ==> (r matches Ok(
            Mode::InsecureDevelopment,
        )),
        r matches Ok(Mode::Jwks { jwks_file, config }) ==> {
            &&& settings.jwks_file matches Some(file) && file@ == jwks_file@ && file@.len() > 0
            &&& settings.issuer matches Some(issuer) && issuer@ == config.issuer@ && issuer@.len()
                > 0
            &&& settings.audience matches Some(audience) && audience@ == config.audience@
                && audience@.len() > 0
            &&& config.required_scope matches Some(scope) ==> settings.required_scope matches Some(
                asked,
            ) && asked@ == scope@
            &&& config.required_scope is None ==> (settings.required_scope matches Some(asked)
                ==> asked@.len() == 0)
            &&& config.required_subject matches Some(subject)
                ==> settings.required_subject matches Some(asked) && asked@ == subject@
            &&& config.required_subject is None ==> (settings.required_subject matches Some(asked)
                ==> asked@.len() == 0)
        },
        r matches Ok(Mode::Unconfigured) ==> {
            &&& settings.jwks_file matches Some(file) ==> file@.len() == 0
            &&& settings.issuer matches Some(issuer) ==> issuer@.len() == 0
            &&& settings.audience matches Some(audience) ==> audience@.len() == 0
        },
        settings.insecure is None && settings.jwks_file is None && settings.issuer is None
            && settings.audience is None ==> (r matches Ok(Mode::Unconfigured)),
        ({
            let set = |value: Option<String>| value matches Some(text) && text@.len() > 0;
            settings.insecure is None && set(settings.jwks_file) && set(settings.issuer) && set(
                settings.audience,
            ) ==> (r matches Ok(Mode::Jwks { .. }))
        }),
{
}

} // verus!
