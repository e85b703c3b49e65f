//! The cryptographic functions that tokens and signatures rest on.

use ring::signature::KeyPair;
use vstd::prelude::*;

verus! {

/// The longest message that is authenticated: an exbibyte, within the limit of
/// the digest and beyond any memory.
pub const MAX_SIGNED_BYTES: u64 = 0x1000_0000_0000_0000;

/// The HMAC-SHA256 tag of a message under a key.
pub uninterp spec fn hmac_sha256(secret: Seq<u8>, message: Seq<u8>) -> Seq<u8>;

/// The SHA-256 digest of a message.
pub uninterp spec fn sha256(message: Seq<u8>) -> Seq<u8>;

/// The public key of the Ed25519 key pair in a PKCS#8 document, if it holds one.
pub uninterp spec fn ed25519_public_key(pkcs8: Seq<u8>) -> Option<Seq<u8>>;

/// The Ed25519 signature of a message under the key pair in a PKCS#8 document.
pub uninterp spec fn ed25519_signature(pkcs8: Seq<u8>, message: Seq<u8>) -> Seq<u8>;

/// `ring::hmac::sign` with a key made by `ring::hmac::Key::new` for HMAC-SHA256:
/// a function of key bytes and message with a tag of 32 bytes. Longer inputs
/// than the stated ones are left out because the crate panics on inputs past
/// its digest's limit.
#[verifier::external_body]
pub(crate) fn hmac_tag(secret: &[u8], message: &[u8]) -> (r: Vec<u8>)
    requires
        secret@.len() == 32,
        message@.len() <= MAX_SIGNED_BYTES,
    ensures
        r@ == hmac_sha256(secret@, message@),
        r@.len() == 32,
{
    let key = ring::hmac::Key::new(ring::hmac::HMAC_SHA256, secret);
    ring::hmac::sign(&key, message).as_ref().to_vec()
}

/// `ring::hmac::verify` with a key made by `ring::hmac::Key::new` for
/// HMAC-SHA256: succeeds exactly if the tag is the message's tag.
#[verifier::external_body]
pub(crate) fn hmac_matches(secret: &[u8], message: &[u8], tag: &[u8]) -> (r: bool)
    requires
        secret@.len() == 32,
        message@.len() <= MAX_SIGNED_BYTES,
    ensures
        r == (tag@ == hmac_sha256(secret@, message@)),
{
    let key = ring::hmac::Key::new(ring::hmac::HMAC_SHA256, secret);
    ring::hmac::verify(&key, message, tag).is_ok()
}

/// `ring::digest::digest` with SHA-256: a function of the message with a digest
/// of 32 bytes.
#[verifier::external_body]
pub(crate) fn sha256_digest(message: &[u8]) -> (r: Vec<u8>)
    requires
        message@.len() <= MAX_SIGNED_BYTES,
    ensures
        r@ == sha256(message@),
        r@.len() == 32,
{
    ring::digest::digest(&ring::digest::SHA256, message).as_ref().to_vec()
}

/// `ring::signature::Ed25519KeyPair::from_pkcs8` and the public key of the pair:
/// a function of the document, with a key of 32 bytes where it holds a pair.
#[verifier::external_body]
pub(crate) fn public_key_of(pkcs8: &[u8]) -> (r: Option<Vec<u8>>)
    ensures
        match r {
            Some(key) => ed25519_public_key(pkcs8@) == Some(key@) && key@.len() == 32,
            None => ed25519_public_key(pkcs8@) is None,
        },
{
    let pair = ring::signature::Ed25519KeyPair::from_pkcs8(pkcs8).ok()?;
    Some(pair.public_key().as_ref().to_vec())
}

/// `ring::signature::Ed25519KeyPair::sign` with the pair that
/// `Ed25519KeyPair::from_pkcs8` reads from a document: a function of document
/// and message, with a signature of 64 bytes where the document holds a pair.
#[verifier::external_body]
pub(crate) fn sign_with(pkcs8: &[u8], message: &[u8]) -> (r: Option<Vec<u8>>)
    ensures
        match r {
            Some(signature) => {
                &&& ed25519_public_key(pkcs8@) is Some
                &&& signature@ == ed25519_signature(pkcs8@, message@)
                &&& signature@.len() == 64
            },
            None => ed25519_public_key(pkcs8@) is None,
        },
{
    let pair = ring::signature::Ed25519KeyPair::from_pkcs8(pkcs8).ok()?;
    Some(pair.sign(message).as_ref().to_vec())
}

/// `ring::signature::Ed25519KeyPair::generate_pkcs8` with the system's
/// randomness. The document depends on chance, and nothing comes back where the
/// system gives no randomness.
#[verifier::external_body]
pub(crate) fn generate_pkcs8() -> (r: Option<Vec<u8>>) {
    let rng = ring::rand::SystemRandom::new();
    let document = ring::signature::Ed25519KeyPair::generate_pkcs8(&rng).ok()?;
    Some(document.as_ref().to_vec())
}

/// `ring::rand::SystemRandom::fill`: as many bytes as were asked for, which
/// depend on chance, or nothing where the system gives no randomness.
#[verifier::external_body]
pub(crate) fn random_bytes(count: usize) -> (r: Option<Vec<u8>>)
    ensures
        r matches Some(bytes) ==> bytes@.len() == count,
{
    let mut bytes = vec![0u8; count];
    ring::rand::SecureRandom::fill(&ring::rand::SystemRandom::new(), &mut bytes).ok()?;
    Some(bytes)
}

} // verus!
