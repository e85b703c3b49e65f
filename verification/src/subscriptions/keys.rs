//! The keys that sign webhooks: their identity, their life from announcement to
//! retirement, and how they are kept.

use crate::clock::{Moment, Span};
use crate::subscriptions::crypto::{
    ed25519_public_key, generate_pkcs8, public_key_of, sha256, sha256_digest,
};
use crate::subscriptions::encoding::{
    base64_url_encode, base64_url_text, hex_bytes, hex_encode, hex_text, law_hex_round_trip,
    lemma_base64_shape,
};
use crate::subscriptions::subscription::later_ms;
use crate::text::{decimal, joined, lemma_utf8_len_ascii, lemma_utf8_len_concat, same_text};
use vstd::prelude::*;
use vstd::utf8::encode_utf8;

verus! {

/// The layout of the kept secrets.
pub const SECRETS_VERSION: u32 = 1;

/// How long a verifier may keep the published keys, in seconds.
pub const JWKS_CACHE_MAX_AGE_SECS: u64 = 300;

pub const DEFAULT_SIGNING_KEY_ROTATION_SECS: u64 = 2_592_000;

pub const DEFAULT_SIGNATURE_REPLAY_WINDOW_SECS: u64 = 300;

/// A signing key as it is kept.
pub struct PersistedSigningKey {
    pub pkcs8: String,
    pub kid: String,
    pub x: String,
    pub created_at_ms: u64,
    pub retire_after_ms: Option<u64>,
    pub activate_after_ms: Option<u64>,
}

/// The secrets as they are kept.
pub struct PersistedSecrets {
    pub version: u32,
    pub token_secret: String,
    pub active_kid: String,
    pub signing_keys: Vec<PersistedSigningKey>,
}

/// A kept signing key as a mathematical value.
#[verifier::ext_equal]
pub struct KeptKeyView {
    pub pkcs8: Seq<char>,
    pub kid: Seq<char>,
    pub x: Seq<char>,
    pub created_at_ms: u64,
    pub retire_after_ms: Option<u64>,
    pub activate_after_ms: Option<u64>,
}

/// Kept secrets as a mathematical value.
#[verifier::ext_equal]
pub struct KeptSecretsView {
    pub version: u32,
    pub token_secret: Seq<char>,
    pub active_kid: Seq<char>,
    pub keys: Seq<KeptKeyView>,
}

impl View for PersistedSigningKey {
    type V = KeptKeyView;

    open spec fn view(&self) -> KeptKeyView {
        KeptKeyView {
            pkcs8: self.pkcs8@,
            kid: self.kid@,
            x: self.x@,
            created_at_ms: self.created_at_ms,
            retire_after_ms: self.retire_after_ms,
            activate_after_ms: self.activate_after_ms,
        }
    }
}

impl View for PersistedSecrets {
    type V = KeptSecretsView;

    open spec fn view(&self) -> KeptSecretsView {
        KeptSecretsView {
            version: self.version,
            token_secret: self.token_secret@,
            active_kid: self.active_kid@,
            keys: self.signing_keys@.map_values(|key: PersistedSigningKey| key@),
        }
    }
}

/// A signing key in use, with the text in which its document is kept. A key that
/// is still to become active has two deadlines, on the wall clock and on the
/// monotonic one, and both must pass.
pub struct SigningKey {
    pub document: Vec<u8>,
    pub pkcs8: String,
    pub kid: String,
    pub x: String,
    pub created_at_ms: u64,
    pub retire_after_ms: Option<u64>,
    pub activate_after_ms: Option<u64>,
    pub activate_not_before: Option<Moment>,
}

/// A signing key as a mathematical value.
#[verifier::ext_equal]
pub struct KeyView {
    pub document: Seq<u8>,
    pub pkcs8: Seq<char>,
    pub kid: Seq<char>,
    pub x: Seq<char>,
    pub created_at_ms: u64,
    pub retire_after_ms: Option<u64>,
    pub activate_after_ms: Option<u64>,
    pub activate_not_before: Option<Moment>,
}

impl View for SigningKey {
    type V = KeyView;

    open spec fn view(&self) -> KeyView {
        KeyView {
            document: self.document@,
            pkcs8: self.pkcs8@,
            kid: self.kid@,
            x: self.x@,
            created_at_ms: self.created_at_ms,
            retire_after_ms: self.retire_after_ms,
            activate_after_ms: self.activate_after_ms,
            activate_not_before: self.activate_not_before,
        }
    }
}

/// The signing keys of a server, one of them active.
pub struct SigningKeyRing {
    pub active_kid: String,
    pub keys: Vec<SigningKey>,
}

/// Signing keys as a mathematical value.
#[verifier::ext_equal]
pub struct RingView {
    pub active_kid: Seq<char>,
    pub keys: Seq<KeyView>,
}

impl View for SigningKeyRing {
    type V = RingView;

    open spec fn view(&self) -> RingView {
        RingView {
            active_kid: self.active_kid@,
            keys: self.keys@.map_values(|key: SigningKey| key@),
        }
    }
}

/// The text whose digest names a key.
pub open spec fn thumbprint(x: Seq<char>) -> Seq<char> {
    "{\"crv\":\"Ed25519\",\"kty\":\"OKP\",\"x\":\""@ + x + "\"}"@
}

/// The name of the key with public part `x`.
pub open spec fn kid_of(x: Seq<char>) -> Seq<char> {
    "ds_"@ + base64_url_text(sha256(encode_utf8(thumbprint(x))))
}

impl KeyView {
    /// Name and public part are those of the document's key pair, and the document
    /// is the one that is kept.
    pub open spec fn sound(self) -> bool {
        &&& hex_bytes(self.pkcs8) == Some(self.document)
        &&& ed25519_public_key(self.document) matches Some(public)
        &&& self.x == base64_url_text(public)
        &&& self.kid == kid_of(self.x)
    }

    /// Whether the key is still needed: active, announced, or within the time
    /// in which its signatures may be replayed.
    pub open spec fn needed(self, active_kid: Seq<char>, now_ms: u64) -> bool {
        ||| self.kid == active_kid
        ||| self.activate_after_ms is Some
        ||| self.retire_after_ms matches Some(retire_after) && retire_after > now_ms
    }

    /// Whether an announced key may become active.
    pub open spec fn due(self, now_ms: u64, moment: Moment) -> bool {
        &&& self.activate_after_ms matches Some(activate_after)
        &&& activate_after <= now_ms
        &&& self.activate_not_before matches Some(not_before) ==> moment.nanos >= not_before.nanos
    }

    /// The key in the form in which it is kept.
    pub open spec fn kept(self) -> KeptKeyView {
        KeptKeyView {
            pkcs8: self.pkcs8,
            kid: self.kid,
            x: self.x,
            created_at_ms: self.created_at_ms,
            retire_after_ms: self.retire_after_ms,
            activate_after_ms: self.activate_after_ms,
        }
    }
}

/// Where a key with this name stands first.
pub open spec fn key_index(keys: Seq<KeyView>, kid: Seq<char>) -> Option<int> {
    if exists|i: int| 0 <= i < keys.len() && (#[trigger] keys[i]).kid == kid {
        Some(
            choose|i: int|
                0 <= i < keys.len() && (#[trigger] keys[i]).kid == kid && forall|k: int|
                    0 <= k < i ==> (#[trigger] keys[k]).kid != kid,
        )
    } else {
        None
    }
}

/// Where the first key stands that may become active.
pub open spec fn due_index(keys: Seq<KeyView>, now_ms: u64, moment: Moment) -> Option<int> {
    if exists|i: int| 0 <= i < keys.len() && (#[trigger] keys[i]).due(now_ms, moment) {
        Some(
            choose|i: int|
                0 <= i < keys.len() && (#[trigger] keys[i]).due(now_ms, moment) && forall|k: int|
                    0 <= k < i ==> !(#[trigger] keys[k]).due(now_ms, moment),
        )
    } else {
        None
    }
}

impl RingView {
    /// Every key is what its name says, and one of them is active.
    pub open spec fn wf(self) -> bool {
        &&& forall|i: int| 0 <= i < self.keys.len() ==> (#[trigger] self.keys[i]).sound()
        &&& self.has_active()
    }

    /// There is an active key.
    pub open spec fn has_active(self) -> bool {
        exists|i: int| 0 <= i < self.keys.len() && (#[trigger] self.keys[i]).kid == self.active_kid
    }

    /// The active key.
    pub open spec fn active(self) -> KeyView {
        self.keys[key_index(self.keys, self.active_kid)->0]
    }

    /// The keys that are still needed.
    pub open spec fn needed_keys(self, now_ms: u64) -> Seq<KeyView> {
        self.keys.filter(|key: KeyView| key.needed(self.active_kid, now_ms))
    }

    /// The keys without those that are not needed any more, and with the first
    /// announced key active that may be. The key that was active before stays
    /// published for as long as its signatures may be replayed.
    pub open spec fn advanced(self, now_ms: u64, moment: Moment, replay_ms: u64) -> RingView {
        let needed = self.needed_keys(now_ms);
        match due_index(needed, now_ms, moment) {
            Some(due) => {
                let retiring = match key_index(needed, self.active_kid) {
                    Some(i) => needed.update(
                        i,
                        KeyView {
                            retire_after_ms: Some(later_ms(now_ms, replay_ms)),
                            ..needed[i]
                        },
                    ),
                    None => needed,
                };
                let key = retiring[due];
                RingView {
                    active_kid: key.kid,
                    keys: retiring.update(
                        due,
                        KeyView { activate_after_ms: None, activate_not_before: None, ..key },
                    ),
                }
            },
            None => RingView { active_kid: self.active_kid, keys: needed },
        }
    }

    /// Whether a new key has to be announced.
    pub open spec fn rotation_due(self, now_ms: u64, rotation_ms: u64) -> bool {
        &&& rotation_ms != 0
        &&& forall|i: int|
            0 <= i < self.keys.len() ==> (#[trigger] self.keys[i]).activate_after_ms is None
        &&& now_ms >= self.active().created_at_ms
        &&& now_ms - self.active().created_at_ms >= rotation_ms
    }

    /// The keys with a new one announced.
    pub open spec fn announced(self, key: KeyView, now_ms: u64, moment: Moment) -> RingView {
        RingView {
            keys: self.keys.push(
                KeyView {
                    activate_after_ms: Some(later_ms(now_ms, 300_000)),
                    activate_not_before: Some(cache_passed(moment)),
                    ..key
                },
            ),
            ..self
        }
    }

    /// The secrets in the form in which they are kept.
    pub open spec fn kept(self, token_secret: Seq<u8>) -> KeptSecretsView {
        KeptSecretsView {
            version: SECRETS_VERSION,
            token_secret: hex_text(token_secret),
            active_kid: self.active_kid,
            keys: self.keys.map_values(|key: KeyView| key.kept()),
        }
    }
}

/// When every verifier has read the published keys again.
pub open spec fn cache_passed(moment: Moment) -> Moment {
    Moment {
        nanos: crate::clock::min_int(moment.nanos + 300_000_000_000, u128::MAX as int) as u128,
    }
}

/// What is wrong with a kept key.
pub open spec fn kept_key_complaint(key: KeptKeyView) -> Option<Seq<char>> {
    match hex_bytes(key.pkcs8) {
        Some(document) => match ed25519_public_key(document) {
            Some(public) => if key.x != base64_url_text(public) || key.kid != kid_of(
                base64_url_text(public),
            ) {
                Some("webhook signing key identity does not match its private key"@)
            } else {
                None
            },
            None => Some("invalid webhook signing key"@),
        },
        None => Some("invalid webhook signing key"@),
    }
}

/// What is wrong with the first wrong one of several kept keys.
pub open spec fn kept_keys_complaint(keys: Seq<KeptKeyView>) -> Option<Seq<char>>
    decreases keys.len(),
{
    if keys.len() == 0 {
        None
    } else {
        match kept_keys_complaint(keys.drop_last()) {
            Some(complaint) => Some(complaint),
            None => kept_key_complaint(keys.last()),
        }
    }
}

impl KeptSecretsView {
    /// What is wrong with kept secrets.
    pub open spec fn complaint(self) -> Option<Seq<char>> {
        if self.version != SECRETS_VERSION {
            Some("unsupported subscription secrets version "@ + decimal(self.version as nat))
        } else if hex_bytes(self.token_secret) is None {
            Some("invalid callback token secret"@)
        } else if hex_bytes(self.token_secret)->0.len() != 32 {
            Some("callback token secret must contain exactly 32 bytes"@)
        } else if kept_keys_complaint(self.keys) is Some {
            kept_keys_complaint(self.keys)
        } else if !exists|i: int|
            0 <= i < self.keys.len() && (#[trigger] self.keys[i]).kid == self.active_kid {
            Some("webhook signing keyring has no active key"@)
        } else {
            None
        }
    }

    /// The keys that are kept. An announced key waits again until every
    /// verifier has read the published keys.
    pub open spec fn ring(self, moment: Moment) -> RingView {
        RingView {
            active_kid: self.active_kid,
            keys: self.keys.map_values(|key: KeptKeyView| key_from(key, moment)),
        }
    }
}

/// A kept key in use.
pub open spec fn key_from(key: KeptKeyView, moment: Moment) -> KeyView {
    KeyView {
        document: hex_bytes(key.pkcs8)->0,
        pkcs8: key.pkcs8,
        kid: key.kid,
        x: key.x,
        created_at_ms: key.created_at_ms,
        retire_after_ms: key.retire_after_ms,
        activate_after_ms: key.activate_after_ms,
        activate_not_before: if key.activate_after_ms is Some {
            Some(cache_passed(moment))
        } else {
            None
        },
    }
}

/// The name and the public part of a key.
pub fn signing_identity(public: &Vec<u8>) -> (r: (String, String))
    requires
        public@.len() == 32,
    ensures
        r.1@ == base64_url_text(public@),
        r.0@ == kid_of(r.1@),
{
    let x = base64_url_encode(public.as_slice());
    let mut text = "{\"crv\":\"Ed25519\",\"kty\":\"OKP\",\"x\":\"".to_owned();
    text.append(x.as_str());
    text.append("\"}");
    proof {
        lemma_base64_shape(public@);
        lemma_utf8_len_ascii(x@);
        reveal_strlit("{\"crv\":\"Ed25519\",\"kty\":\"OKP\",\"x\":\"");
        reveal_strlit("\"}");
        let front = "{\"crv\":\"Ed25519\",\"kty\":\"OKP\",\"x\":\""@;
        lemma_utf8_len_ascii(front);
        lemma_utf8_len_ascii("\"}"@);
        lemma_utf8_len_concat(front, x@);
        lemma_utf8_len_concat(front + x@, "\"}"@);
    }
    let digest = sha256_digest(text.as_str().as_bytes());
    let kid = joined("ds_", base64_url_encode(digest.as_slice()).as_str());
    (kid, x)
}

impl SigningKey {
    /// A copy.
    pub fn copy(&self) -> (r: SigningKey)
        ensures
            r@ == self@,
    {
        SigningKey {
            document: copy_bytes(&self.document),
            pkcs8: self.pkcs8.clone(),
            kid: self.kid.clone(),
            x: self.x.clone(),
            created_at_ms: self.created_at_ms,
            retire_after_ms: self.retire_after_ms,
            activate_after_ms: self.activate_after_ms,
            activate_not_before: self.activate_not_before,
        }
    }

    fn needed(&self, active_kid: &str, now_ms: u64) -> (r: bool)
        ensures
            r == self@.needed(active_kid@, now_ms),
    {
        same_text(self.kid.as_str(), active_kid) || self.activate_after_ms.is_some()
            || match self.retire_after_ms {
            Some(retire_after) => retire_after > now_ms,
            None => false,
        }
    }

    fn due(&self, now_ms: u64, moment: Moment) -> (r: bool)
        ensures
            r == self@.due(now_ms, moment),
    {
        match self.activate_after_ms {
            Some(activate_after) => activate_after <= now_ms && match self.activate_not_before {
                Some(not_before) => moment.nanos >= not_before.nanos,
                None => true,
            },
            None => false,
        }
    }
}

fn copy_bytes(bytes: &Vec<u8>) -> (r: Vec<u8>)
    ensures
        r@ == bytes@,
{
    let mut out: Vec<u8> = Vec::new();
    let mut i: usize = 0;
    while i < bytes.len()
        invariant
            i <= bytes@.len(),
            out@ == bytes@.take(i as int),
        decreases bytes.len() - i,
    {
        out.push(bytes[i]);
        assert(out@ =~= bytes@.take(i + 1));
        i = i + 1;
    }
    assert(bytes@.take(bytes@.len() as int) =~= bytes@);
    out
}

/// The key pair that a new document holds, or why there is none; nothing stands
/// for a document that could not be generated.
pub open spec fn new_key(document: Option<Seq<u8>>, created_at_ms: u64) -> Result<
    KeyView,
    Seq<char>,
> {
    match document {
        Some(document) => match ed25519_public_key(document) {
            Some(public) => Ok(
                KeyView {
                    document,
                    pkcs8: hex_text(document),
                    kid: kid_of(base64_url_text(public)),
                    x: base64_url_text(public),
                    created_at_ms,
                    retire_after_ms: None,
                    activate_after_ms: None,
                    activate_not_before: None,
                },
            ),
            None => Err("failed to parse webhook signing key"@),
        },
        None => Err("failed to generate webhook signing key"@),
    }
}

/// A new key is what its name says.
pub proof fn lemma_new_key_sound(document: Option<Seq<u8>>, created_at_ms: u64)
    ensures
        new_key(document, created_at_ms) matches Ok(key) ==> key.sound(),
{
    if let Some(document) = document {
        law_hex_round_trip(document);
    }
}

/// The contents of bytes that may be missing.
pub open spec fn opt_bytes(bytes: Option<Vec<u8>>) -> Option<Seq<u8>> {
    match bytes {
        Some(bytes) => Some(bytes@),
        None => None,
    }
}

/// The contents of a key that may be missing.
pub open spec fn key_result(key: Result<SigningKey, &'static str>) -> Result<KeyView, Seq<char>> {
    match key {
        Ok(key) => Ok(key@),
        Err(message) => Err(message@),
    }
}

/// The key pair that a new document holds, if one could be generated.
pub fn signing_key_from(document: Option<Vec<u8>>, created_at_ms: u64) -> (r: Result<
    SigningKey,
    &'static str,
>)
    ensures
        key_result(r) == new_key(opt_bytes(document), created_at_ms),
{
    let document = match document {
        Some(document) => document,
        None => {
            return Err("failed to generate webhook signing key");
        },
    };
    let public = match public_key_of(document.as_slice()) {
        Some(public) => public,
        None => {
            return Err("failed to parse webhook signing key");
        },
    };
    let (kid, x) = signing_identity(&public);
    let pkcs8 = hex_encode(document.as_slice());
    Ok(
        SigningKey {
            document,
            pkcs8,
            kid,
            x,
            created_at_ms,
            retire_after_ms: None,
            activate_after_ms: None,
            activate_not_before: None,
        },
    )
}

/// Make a new key pair. Which document is generated depends on chance;
/// `signing_key_from` says what comes of each.
pub fn generate_signing_key(created_at_ms: u64) -> (r: Result<SigningKey, &'static str>)
    ensures
        exists|document: Option<Seq<u8>>|
            key_result(r) == #[trigger] new_key(document, created_at_ms),
{
    let document = generate_pkcs8();
    let ghost drawn = opt_bytes(document);
    let r = signing_key_from(document, created_at_ms);
    assert(key_result(r) == new_key(drawn, created_at_ms));
    r
}

impl SigningKeyRing {
    /// A copy.
    pub fn copy(&self) -> (r: SigningKeyRing)
        ensures
            r@ == self@,
    {
        let mut keys: Vec<SigningKey> = Vec::new();
        let mut i: usize = 0;
        while i < self.keys.len()
            invariant
                i <= self.keys@.len(),
                keys@.len() == i,
                forall|k: int| 0 <= k < i ==> (#[trigger] keys@[k])@ == self.keys@[k]@,
            decreases self.keys.len() - i,
        {
            keys.push(self.keys[i].copy());
            i = i + 1;
        }
        let r = SigningKeyRing { active_kid: self.active_kid.clone(), keys };
        assert(r@.keys =~= self@.keys);
        r
    }

    /// Where the active key stands.
    pub(crate) fn active_index(&self) -> (r: Option<usize>)
        ensures
            match r {
                Some(i) => {
                    &&& i < self.keys@.len()
                    &&& key_index(self@.keys, self@.active_kid) == Some(i as int)
                    &&& self@.has_active()
                    &&& self.keys@[i as int]@ == self@.active()
                },
                None => key_index(self@.keys, self@.active_kid) is None && !self@.has_active(),
            },
    {
        let mut i: usize = 0;
        while i < self.keys.len()
            invariant
                i <= self.keys@.len(),
                forall|k: int| 0 <= k < i ==> (#[trigger] self@.keys[k]).kid != self@.active_kid,
            decreases self.keys.len() - i,
        {
            if same_text(self.keys[i].kid.as_str(), self.active_kid.as_str()) {
                proof {
                    let keys = self@.keys;
                    assert(keys[i as int].kid == self@.active_kid);
                    let found = key_index(keys, self@.active_kid)->0;
                    if found < i {
                        assert(keys[found].kid != self@.active_kid);
                    }
                }
                return Some(i);
            }
            assert(self@.keys[i as int].kid != self@.active_kid);
            i = i + 1;
        }
        None
    }

    /// Where the first key stands that may become active.
    fn due_index(&self, now_ms: u64, moment: Moment) -> (r: Option<usize>)
        ensures
            match r {
                Some(i) => i < self.keys@.len() && due_index(self@.keys, now_ms, moment) == Some(
                    i as int,
                ),
                None => due_index(self@.keys, now_ms, moment) is None,
            },
    {
        let mut i: usize = 0;
        while i < self.keys.len()
            invariant
                i <= self.keys@.len(),
                forall|k: int| 0 <= k < i ==> !(#[trigger] self@.keys[k]).due(now_ms, moment),
            decreases self.keys.len() - i,
        {
            if self.keys[i].due(now_ms, moment) {
                proof {
                    let keys = self@.keys;
                    assert(keys[i as int].due(now_ms, moment));
                    let found = due_index(keys, now_ms, moment)->0;
                    if found < i {
                        assert(!keys[found].due(now_ms, moment));
                    }
                }
                return Some(i);
            }
            assert(!self@.keys[i as int].due(now_ms, moment));
            i = i + 1;
        }
        None
    }

    /// Drop keys that are not needed any more.
    fn retain_needed(&mut self, now_ms: u64)
        ensures
            final(self)@.active_kid == old(self)@.active_kid,
            final(self)@.keys == old(self)@.needed_keys(now_ms),
    {
        let ghost before = self@;
        let ghost wanted = |key: KeyView| key.needed(before.active_kid, now_ms);
        let mut kept: Vec<SigningKey> = Vec::new();
        let mut i: usize = 0;
        assert(before.keys.take(0).filter(wanted) =~= Seq::<KeyView>::empty()) by {
            reveal(Seq::filter);
        }
        while i < self.keys.len()
            invariant
                self@ == before,
                i <= self.keys@.len(),
                wanted == (|key: KeyView| key.needed(before.active_kid, now_ms)),
                kept@.map_values(|key: SigningKey| key@) == before.keys.take(i as int).filter(
                    wanted,
                ),
            decreases self.keys.len() - i,
        {
            let ghost so_far = kept@.map_values(|key: SigningKey| key@);
            proof {
                reveal(Seq::filter);
                assert(before.keys.take(i + 1).drop_last() =~= before.keys.take(i as int));
                assert(before.keys.take(i + 1).last() == self.keys@[i as int]@);
            }
            if self.keys[i].needed(self.active_kid.as_str(), now_ms) {
                kept.push(self.keys[i].copy());
                assert(kept@.map_values(|key: SigningKey| key@) =~= so_far.push(
                    self.keys@[i as int]@,
                ));
            }
            i = i + 1;
        }
        assert(before.keys.take(before.keys.len() as int) =~= before.keys);
        self.keys = kept;
    }

    /// Drop keys that are not needed any more, and let the first announced key
    /// become active that may. Says whether anything changed.
    pub fn advance(&mut self, now_ms: u64, moment: Moment, replay_ms: u64) -> (r: bool)
        ensures
            final(self)@ == old(self)@.advanced(now_ms, moment, replay_ms),
            r == (old(self)@.needed_keys(now_ms).len() != old(self)@.keys.len() || due_index(
                old(self)@.needed_keys(now_ms),
                now_ms,
                moment,
            ) is Some),
    {
        let count: usize = self.keys.len();
        self.retain_needed(now_ms);
        let dropped = self.keys.len() != count;
        let ghost needed = self@;
        assert(needed.keys == old(self)@.needed_keys(now_ms));
        assert(needed.keys.len() == self.keys@.len());
        match self.due_index(now_ms, moment) {
            Some(due) => {
                match self.active_index() {
                    Some(i) => {
                        let mut key = self.keys[i].copy();
                        key.retire_after_ms = Some(now_ms.saturating_add(replay_ms));
                        let ghost view = key@;
                        self.keys.set(i, key);
                        assert(self@.keys =~= needed.keys.update(i as int, view));
                    },
                    None => {},
                }
                let ghost retiring = self@;
                let mut key = self.keys[due].copy();
                key.activate_after_ms = None;
                key.activate_not_before = None;
                self.active_kid = key.kid.clone();
                let ghost view = key@;
                self.keys.set(due, key);
                assert(self@.keys =~= retiring.keys.update(due as int, view));
                assert(self@ =~= old(self)@.advanced(now_ms, moment, replay_ms));
                true
            },
            None => dropped,
        }
    }

    /// Whether a new key has to be announced.
    pub fn rotation_due(&self, now_ms: u64, rotation_ms: u64) -> (r: Result<bool, &'static str>)
        ensures
            match r {
                Ok(due) => self@.has_active() && due == self@.rotation_due(now_ms, rotation_ms),
                Err(message) => !self@.has_active() && message@ == "active signing key missing"@,
            },
    {
        let created_at_ms: u64 = match self.active_index() {
            Some(i) => self.keys[i].created_at_ms,
            None => {
                return Err("active signing key missing");
            },
        };
        let mut pending = false;
        let mut i: usize = 0;
        while i < self.keys.len()
            invariant
                i <= self.keys@.len(),
                pending == exists|k: int|
                    0 <= k < i && (#[trigger] self@.keys[k]).activate_after_ms is Some,
            decreases self.keys.len() - i,
        {
            assert(self@.keys[i as int] == self.keys@[i as int]@);
            pending = pending || self.keys[i].activate_after_ms.is_some();
            i = i + 1;
        }
        Ok(
            rotation_ms != 0 && !pending && now_ms >= created_at_ms && now_ms - created_at_ms
                >= rotation_ms,
        )
    }

    /// Announce a key.
    pub fn announce(&mut self, key: SigningKey, now_ms: u64, moment: Moment)
        ensures
            final(self)@ == old(self)@.announced(key@, now_ms, moment),
    {
        let mut key = key;
        key.activate_after_ms = Some(now_ms.saturating_add(300_000));
        key.activate_not_before = Some(moment.later(Span::from_secs(JWKS_CACHE_MAX_AGE_SECS)));
        let ghost view = key@;
        self.keys.push(key);
        assert(self@.keys =~= old(self)@.keys.push(view));
    }
}

/// Rotate the keys as far as time has come for it. Says whether anything changed.
pub fn rotate_signing_keys_if_due(
    keys: &mut SigningKeyRing,
    now_ms: u64,
    moment: Moment,
    rotation_ms: u64,
    replay_ms: u64,
) -> (r: Result<bool, &'static str>)
    ensures
        ({
            let advanced = old(keys)@.advanced(now_ms, moment, replay_ms);
            let due = advanced.rotation_due(now_ms, rotation_ms);
            match r {
                Ok(changed) => {
                    &&& advanced.has_active()
                    &&& if due {
                        &&& changed
                        &&& exists|document: Option<Seq<u8>>|
                            {
                                &&& #[trigger] new_key(document, now_ms) matches Ok(key)
                                &&& final(keys)@ == advanced.announced(key, now_ms, moment)
                            }
                    } else {
                        &&& final(keys)@ == advanced
                        &&& changed == (old(keys)@.needed_keys(now_ms).len()
                            != old(keys)@.keys.len() || due_index(
                            old(keys)@.needed_keys(now_ms),
                            now_ms,
                            moment,
                        ) is Some)
                    }
                },
                Err(message) => {
                    &&& final(keys)@ == advanced
                    &&& if !advanced.has_active() {
                        message@ == "active signing key missing"@
                    } else {
                        &&& due
                        &&& message@ == "failed to generate webhook signing key"@ || message@
                            == "failed to parse webhook signing key"@
                    }
                },
            }
        }),
{
    let changed = keys.advance(now_ms, moment, replay_ms);
    match keys.rotation_due(now_ms, rotation_ms) {
        Ok(true) => match generate_signing_key(now_ms) {
            Ok(key) => {
                keys.announce(key, now_ms, moment);
                Ok(true)
            },
            Err(message) => Err(message),
        },
        Ok(false) => Ok(changed),
        Err(message) => Err(message),
    }
}

} // verus!
