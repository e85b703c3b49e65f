//! Reading and keeping the secrets of the control plane, and signing with them.

use crate::clock::{Moment, Span};
use crate::subscriptions::crypto::{ed25519_signature, public_key_of, random_bytes, sign_with};
use crate::subscriptions::encoding::{
    base64_url_encode, base64_url_text, hex_bytes, hex_decode, hex_encode, hex_text,
    law_hex_round_trip,
};
use crate::subscriptions::keys::{
    cache_passed, due_index, generate_signing_key, kept_key_complaint, kept_keys_complaint,
    key_from, key_index, key_result, lemma_new_key_sound, new_key, opt_bytes,
    rotate_signing_keys_if_due, signing_identity, KeptKeyView, KeptSecretsView, KeyView,
    PersistedSecrets, PersistedSigningKey, RingView, SigningKey, SigningKeyRing,
    JWKS_CACHE_MAX_AGE_SECS, SECRETS_VERSION,
};
use crate::subscriptions::subscription::later_ms;
use crate::text::{parse_u64, parsed_u64, push_decimal, same_text};
use vstd::prelude::*;

verus! {

/// Take one kept key into use.
fn load_key(kept: &PersistedSigningKey, moment: Moment) -> (r: Result<SigningKey, &'static str>)
    ensures
        match kept_key_complaint(kept@) {
            Some(complaint) => r matches Err(message) && message@ == complaint,
            None => {
                &&& r matches Ok(key)
                &&& key@ == key_from(kept@, moment)
                &&& key@.sound()
            },
        },
{
    let document = match hex_decode(kept.pkcs8.as_str()) {
        Some(document) => document,
        None => {
            return Err("invalid webhook signing key");
        },
    };
    let public = match public_key_of(document.as_slice()) {
        Some(public) => public,
        None => {
            return Err("invalid webhook signing key");
        },
    };
    let (kid, x) = signing_identity(&public);
    if !same_text(kid.as_str(), kept.kid.as_str()) || !same_text(x.as_str(), kept.x.as_str()) {
        return Err("webhook signing key identity does not match its private key");
    }
    let activate_not_before = match kept.activate_after_ms {
        Some(_) => Some(moment.later(Span::from_secs(JWKS_CACHE_MAX_AGE_SECS))),
        None => None,
    };
    Ok(
        SigningKey {
            document,
            pkcs8: kept.pkcs8.clone(),
            kid,
            x,
            created_at_ms: kept.created_at_ms,
            retire_after_ms: kept.retire_after_ms,
            activate_after_ms: kept.activate_after_ms,
            activate_not_before,
        },
    )
}

/// Take kept secrets into use: the signing keys and the token secret.
pub fn load_secrets(persisted: &PersistedSecrets, moment: Moment) -> (r: Result<
    (SigningKeyRing, Vec<u8>),
    String,
>)
    ensures
        match persisted@.complaint() {
            Some(complaint) => r matches Err(message) && message@ == complaint,
            None => {
                &&& r matches Ok((ring, secret))
                &&& ring@ == persisted@.ring(moment)
                &&& ring@.wf()
                &&& secret@ == hex_bytes(persisted@.token_secret)->0
                &&& secret@.len() == 32
            },
        },
{
    if persisted.version != SECRETS_VERSION {
        let mut message = "unsupported subscription secrets version ".to_owned();
        push_decimal(&mut message, persisted.version as u64);
        return Err(message);
    }
    let token_secret = match hex_decode(persisted.token_secret.as_str()) {
        Some(bytes) => bytes,
        None => {
            return Err("invalid callback token secret".to_owned());
        },
    };
    if token_secret.len() != 32 {
        return Err("callback token secret must contain exactly 32 bytes".to_owned());
    }
    let ghost kept = persisted@.keys;
    let mut keys: Vec<SigningKey> = Vec::new();
    let mut active = false;
    let mut i: usize = 0;
    while i < persisted.signing_keys.len()
        invariant
            kept == persisted@.keys,
            persisted@.version == SECRETS_VERSION,
            hex_bytes(persisted@.token_secret) == Some(token_secret@),
            token_secret@.len() == 32,
            i <= persisted.signing_keys@.len(),
            keys@.len() == i,
            kept_keys_complaint(kept.take(i as int)) is None,
            forall|k: int|
                0 <= k < i ==> (#[trigger] keys@[k])@ == key_from(kept[k], moment)
                    && keys@[k]@.sound(),
            active == exists|k: int|
                0 <= k < i && (#[trigger] kept[k]).kid == persisted@.active_kid,
        decreases persisted.signing_keys.len() - i,
    {
        let entry = &persisted.signing_keys[i];
        assert(kept[i as int] == entry@);
        assert(kept.take(i + 1).drop_last() =~= kept.take(i as int));
        match load_key(entry, moment) {
            Ok(key) => {
                keys.push(key);
            },
            Err(message) => {
                proof {
                    lemma_first_complaint(kept, i + 1);
                }
                return Err(message.to_owned());
            },
        }
        active = active || same_text(entry.kid.as_str(), persisted.active_kid.as_str());
        i = i + 1;
    }
    assert(kept.take(kept.len() as int) =~= kept);
    if !active {
        return Err("webhook signing keyring has no active key".to_owned());
    }
    let ring = SigningKeyRing { active_kid: persisted.active_kid.clone(), keys };
    proof {
        assert(ring@.keys =~= persisted@.ring(moment).keys);
        let k = choose|k: int|
            0 <= k < kept.len() && (#[trigger] kept[k]).kid == persisted@.active_kid;
        assert(ring@.keys[k].kid == ring@.active_kid);
        assert forall|j: int| 0 <= j < ring@.keys.len() implies (#[trigger] ring@.keys[j]).sound() by {
            assert(ring@.keys[j] == ring.keys@[j]@);
        }
    }
    Ok((ring, token_secret))
}

/// A complaint about some of the keys is the complaint about all of them.
proof fn lemma_first_complaint(keys: Seq<KeptKeyView>, k: int)
    requires
        0 <= k <= keys.len(),
        kept_keys_complaint(keys.take(k)) is Some,
    ensures
        kept_keys_complaint(keys) == kept_keys_complaint(keys.take(k)),
    decreases keys.len(),
{
    if k == keys.len() {
        assert(keys.take(k) =~= keys);
    } else {
        assert(keys.drop_last().take(k) =~= keys.take(k));
        lemma_first_complaint(keys.drop_last(), k);
    }
}

/// The secrets of a new store, given its drawn token secret and its key, or why
/// there are none. A missing token secret is complained about first.
pub open spec fn new_secrets(secret: Option<Seq<u8>>, key: Result<KeyView, Seq<char>>) -> Result<
    (RingView, Seq<u8>),
    Seq<char>,
> {
    match secret {
        Some(secret) => match key {
            Ok(key) => Ok((RingView { active_kid: key.kid, keys: seq![key] }, secret)),
            Err(message) => Err(message),
        },
        None => Err("failed to generate callback token key"@),
    }
}

/// The contents of secrets that may be missing.
pub open spec fn secrets_result(
    secrets: Result<(SigningKeyRing, Vec<u8>), &'static str>,
) -> Result<(RingView, Seq<u8>), Seq<char>> {
    match secrets {
        Ok((ring, secret)) => Ok((ring@, secret@)),
        Err(message) => Err(message@),
    }
}

/// The secrets of a new store, given its drawn token secret and its key.
pub fn secrets_from(secret: Option<Vec<u8>>, key: Result<SigningKey, &'static str>) -> (r: Result<
    (SigningKeyRing, Vec<u8>),
    &'static str,
>)
    ensures
        secrets_result(r) == new_secrets(opt_bytes(secret), key_result(key)),
{
    let secret = match secret {
        Some(secret) => secret,
        None => {
            return Err("failed to generate callback token key");
        },
    };
    let key = match key {
        Ok(key) => key,
        Err(message) => {
            return Err(message);
        },
    };
    let active_kid = key.kid.clone();
    let mut keys: Vec<SigningKey> = Vec::new();
    keys.push(key);
    let ring = SigningKeyRing { active_kid, keys };
    assert(ring@.keys =~= seq![key@]);
    Ok((ring, secret))
}

/// Make the secrets of a new store. What they are depends on chance;
/// `secrets_from` says what comes of each draw.
pub fn create_secrets(now_ms: u64) -> (r: Result<(SigningKeyRing, Vec<u8>), &'static str>)
    ensures
        exists|secret: Option<Seq<u8>>, document: Option<Seq<u8>>|
            {
                &&& secret matches Some(bytes) ==> bytes.len() == 32
                &&& secrets_result(r) == #[trigger] new_secrets(secret, new_key(document, now_ms))
            },
        r matches Ok((ring, _)) ==> ring@.wf(),
{
    let secret = random_bytes(32);
    let key = generate_signing_key(now_ms);
    let ghost drawn = opt_bytes(secret);
    let ghost document = choose|document: Option<Seq<u8>>|
        key_result(key) == #[trigger] new_key(document, now_ms);
    let r = secrets_from(secret, key);
    proof {
        lemma_new_key_sound(document, now_ms);
        assert(secrets_result(r) == new_secrets(drawn, new_key(document, now_ms)));
        if r is Ok {
            let ring = r->Ok_0.0@;
            assert(ring.keys[0].kid == ring.active_kid);
        }
    }
    r
}

impl SigningKeyRing {
    /// The secrets in the form in which they are kept.
    pub fn persisted(&self, token_secret: &Vec<u8>) -> (r: PersistedSecrets)
        ensures
            r@ == self@.kept(token_secret@),
    {
        let mut signing_keys: Vec<PersistedSigningKey> = Vec::new();
        let mut i: usize = 0;
        while i < self.keys.len()
            invariant
                i <= self.keys@.len(),
                signing_keys@.len() == i,
                forall|k: int|
                    0 <= k < i ==> (#[trigger] signing_keys@[k])@ == self.keys@[k]@.kept(),
            decreases self.keys.len() - i,
        {
            let key = &self.keys[i];
            signing_keys.push(
                PersistedSigningKey {
                    pkcs8: key.pkcs8.clone(),
                    kid: key.kid.clone(),
                    x: key.x.clone(),
                    created_at_ms: key.created_at_ms,
                    retire_after_ms: key.retire_after_ms,
                    activate_after_ms: key.activate_after_ms,
                },
            );
            i = i + 1;
        }
        let r = PersistedSecrets {
            version: SECRETS_VERSION,
            token_secret: hex_encode(token_secret.as_slice()),
            active_kid: self.active_kid.clone(),
            signing_keys,
        };
        assert(r@.keys =~= self@.kept(token_secret@).keys);
        r
    }

    /// The name and the public part of the active key.
    pub fn active_signing_metadata(&self) -> (r: (String, String))
        requires
            self@.has_active(),
        ensures
            r.0@ == self@.active().kid,
            r.1@ == self@.active().x,
            r.0@ == self@.active_kid,
    {
        match self.active_index() {
            Some(i) => {
                proof {
                    lemma_active(self@);
                }
                (self.keys[i].kid.clone(), self.keys[i].x.clone())
            },
            None => (String::new(), String::new()),
        }
    }

    /// Sign a message with the active key: the key's name and the signature.
    pub fn sign_message(&self, message: &[u8]) -> (r: Option<(String, String)>)
        ensures
            match r {
                Some((kid, signature)) => {
                    &&& self@.has_active()
                    &&& kid@ == self@.active().kid
                    &&& signature@ == base64_url_text(
                        ed25519_signature(self@.active().document, message@),
                    )
                },
                None => !self@.wf(),
            },
    {
        match self.active_index() {
            Some(i) => {
                let key = &self.keys[i];
                match sign_with(key.document.as_slice(), message) {
                    Some(signature) => Some(
                        (key.kid.clone(), base64_url_encode(signature.as_slice())),
                    ),
                    None => {
                        assert(self@.keys[i as int] == key@);
                        None
                    },
                }
            },
            None => None,
        }
    }
}

/// The active key carries the active name.
proof fn lemma_active(ring: RingView)
    requires
        ring.has_active(),
    ensures
        key_index(ring.keys, ring.active_kid) matches Some(i) && 0 <= i < ring.keys.len()
            && ring.keys[i].kid == ring.active_kid && forall|k: int|
            0 <= k < i ==> (#[trigger] ring.keys[k]).kid != ring.active_kid,
{
    let i = choose|i: int|
        0 <= i < ring.keys.len() && (#[trigger] ring.keys[i]).kid == ring.active_kid;
    lemma_least_key(ring.keys, ring.active_kid, i);
}

proof fn lemma_least_key(keys: Seq<KeyView>, kid: Seq<char>, bound: int)
    requires
        0 <= bound < keys.len(),
        keys[bound].kid == kid,
    ensures
        exists|i: int|
            0 <= i < keys.len() && (#[trigger] keys[i]).kid == kid && forall|k: int|
                0 <= k < i ==> (#[trigger] keys[k]).kid != kid,
    decreases bound,
{
    if exists|k: int| 0 <= k < bound && (#[trigger] keys[k]).kid == kid {
        let k = choose|k: int| 0 <= k < bound && (#[trigger] keys[k]).kid == kid;
        lemma_least_key(keys, kid, k);
    }
}

/// The first key that may become active, if there is one.
pub proof fn lemma_due(keys: Seq<KeyView>, now_ms: u64, moment: Moment)
    ensures
        due_index(keys, now_ms, moment) matches Some(i) ==> 0 <= i < keys.len() && keys[i].due(
            now_ms,
            moment,
        ),
{
    if exists|i: int| 0 <= i < keys.len() && (#[trigger] keys[i]).due(now_ms, moment) {
        let i = choose|i: int| 0 <= i < keys.len() && (#[trigger] keys[i]).due(now_ms, moment);
        lemma_least_due(keys, now_ms, moment, i);
    }
}

proof fn lemma_least_due(keys: Seq<KeyView>, now_ms: u64, moment: Moment, bound: int)
    requires
        0 <= bound < keys.len(),
        keys[bound].due(now_ms, moment),
    ensures
        exists|i: int|
            0 <= i < keys.len() && (#[trigger] keys[i]).due(now_ms, moment) && forall|k: int|
                0 <= k < i ==> !(#[trigger] keys[k]).due(now_ms, moment),
    decreases bound,
{
    if exists|k: int| 0 <= k < bound && (#[trigger] keys[k]).due(now_ms, moment) {
        let k = choose|k: int| 0 <= k < bound && (#[trigger] keys[k]).due(now_ms, moment);
        lemma_least_due(keys, now_ms, moment, k);
    }
}

/// Install a rotated set of keys, but only if it was kept.
pub fn settle_refresh(live: &mut SigningKeyRing, candidate: SigningKeyRing, kept: bool)
    ensures
        final(live)@ == (if kept {
            candidate@
        } else {
            old(live)@
        }),
{
    if kept {
        *live = candidate;
    }
}

/// The keys that a refresh would install, if time has come for a change.
pub fn plan_refresh(
    live: &SigningKeyRing,
    now_ms: u64,
    moment: Moment,
    rotation_ms: u64,
    replay_ms: u64,
) -> (r: Result<Option<SigningKeyRing>, &'static str>)
    requires
        live@.wf(),
    ensures
        ({
            let advanced = live@.advanced(now_ms, moment, replay_ms);
            match r {
                Ok(Some(ring)) => ring@.wf() && if advanced.rotation_due(now_ms, rotation_ms) {
                    exists|document: Option<Seq<u8>>|
                        {
                            &&& #[trigger] new_key(document, now_ms) matches Ok(key)
                            &&& ring@ == advanced.announced(key, now_ms, moment)
                        }
                } else {
                    ring@ == advanced && advanced != live@
                },
                Ok(None) => !advanced.rotation_due(now_ms, rotation_ms) && advanced == live@,
                Err(message) => {
                    &&& advanced.rotation_due(now_ms, rotation_ms)
                    &&& message@ == "failed to generate webhook signing key"@ || message@
                        == "failed to parse webhook signing key"@
                },
            }
        }),
{
    proof {
        law_rotation_keeps_an_active_key(live@, now_ms, moment, replay_ms);
        lemma_unchanged(live@, now_ms, moment, replay_ms);
        if live@.needed_keys(now_ms).len() != live@.keys.len() || due_index(
            live@.needed_keys(now_ms),
            now_ms,
            moment,
        ) is Some {
            lemma_changed(live@, now_ms, moment, replay_ms);
        }
    }
    let mut candidate = live.copy();
    match rotate_signing_keys_if_due(&mut candidate, now_ms, moment, rotation_ms, replay_ms) {
        Ok(changed) => {
            if changed {
                proof {
                    let advanced = live@.advanced(now_ms, moment, replay_ms);
                    if advanced.rotation_due(now_ms, rotation_ms) {
                        let document = choose|document: Option<Seq<u8>>|
                            #[trigger] new_key(document, now_ms) is Ok && candidate@
                                == advanced.announced(
                                new_key(document, now_ms)->Ok_0,
                                now_ms,
                                moment,
                            );
                        lemma_new_key_sound(document, now_ms);
                        let i = key_index(advanced.keys, advanced.active_kid)->0;
                        lemma_active(advanced);
                        assert(candidate@.keys[i].kid == candidate@.active_kid);
                        assert forall|j: int| 0 <= j < candidate@.keys.len() implies (
                        #[trigger] candidate@.keys[j]).sound() by {
                            if j < advanced.keys.len() {
                                assert(candidate@.keys[j] == advanced.keys[j]);
                            }
                        }
                    }
                }
                Ok(Some(candidate))
            } else {
                Ok(None)
            }
        },
        Err(message) => Err(message),
    }
}

/// Where no key was dropped and none became active, nothing changed.
proof fn lemma_unchanged(ring: RingView, now_ms: u64, moment: Moment, replay_ms: u64)
    ensures
        ring.needed_keys(now_ms).len() == ring.keys.len() && due_index(
            ring.needed_keys(now_ms),
            now_ms,
            moment,
        ) is None ==> ring.advanced(now_ms, moment, replay_ms) == ring,
{
    lemma_filter_all(ring.keys, |key: KeyView| key.needed(ring.active_kid, now_ms));
}

/// Where a key was dropped or one became active, something changed.
proof fn lemma_changed(ring: RingView, now_ms: u64, moment: Moment, replay_ms: u64)
    requires
        ring.wf(),
        ring.needed_keys(now_ms).len() != ring.keys.len() || due_index(
            ring.needed_keys(now_ms),
            now_ms,
            moment,
        ) is Some,
    ensures
        ring.advanced(now_ms, moment, replay_ms) != ring,
{
    let needed = ring.needed_keys(now_ms);
    if due_index(needed, now_ms, moment) is Some {
        lemma_becomes_active(ring, now_ms, moment, replay_ms);
        lemma_filter_all(ring.keys, |key: KeyView| key.needed(ring.active_kid, now_ms));
        lemma_differs(
            ring.advanced(now_ms, moment, replay_ms),
            ring,
            needed,
            due_index(needed, now_ms, moment)->0,
        );
    }
}

/// The key that becomes active waits no more, and no needed key is lost.
proof fn lemma_becomes_active(ring: RingView, now_ms: u64, moment: Moment, replay_ms: u64)
    requires
        ring.wf(),
        due_index(ring.needed_keys(now_ms), now_ms, moment) is Some,
    ensures
        ({
            let needed = ring.needed_keys(now_ms);
            let due = due_index(needed, now_ms, moment)->0;
            let advanced = ring.advanced(now_ms, moment, replay_ms);
            &&& 0 <= due < needed.len()
            &&& needed[due].activate_after_ms is Some
            &&& advanced.keys.len() == needed.len()
            &&& advanced.keys[due].activate_after_ms is None
        }),
{
    let needed = ring.needed_keys(now_ms);
    lemma_active_needed(ring, now_ms);
    lemma_due(needed, now_ms, moment);
    let i = key_index(needed, ring.active_kid)->0;
    let due = due_index(needed, now_ms, moment)->0;
    let retiring = KeyView { retire_after_ms: Some(later_ms(now_ms, replay_ms)), ..needed[i] };
    let middle = needed.update(i, retiring);
    let key = KeyView { activate_after_ms: None, activate_not_before: None, ..middle[due] };
    let advanced = ring.advanced(now_ms, moment, replay_ms);
    assert(advanced.keys == middle.update(due, key));
    assert(middle.len() == needed.len());
    assert(middle.update(due, key)[due] == key);
    assert(needed[due].due(now_ms, moment));
}

proof fn lemma_differs(advanced: RingView, ring: RingView, needed: Seq<KeyView>, due: int)
    requires
        needed.len() == ring.keys.len() ==> needed == ring.keys,
        0 <= due < needed.len(),
        needed[due].activate_after_ms is Some,
        advanced.keys.len() == needed.len(),
        advanced.keys[due].activate_after_ms is None,
    ensures
        advanced != ring,
{
}

proof fn lemma_filter_all(keys: Seq<KeyView>, p: spec_fn(KeyView) -> bool)
    ensures
        keys.filter(p).len() <= keys.len(),
        keys.filter(p).len() == keys.len() ==> keys.filter(p) == keys,
    decreases keys.len(),
{
    reveal(Seq::filter);
    if keys.len() > 0 {
        lemma_filter_all(keys.drop_last(), p);
        assert(keys =~= keys.drop_last().push(keys.last()));
    }
}

/// A kept key is one of the keys and is needed; every needed key is kept.
pub proof fn lemma_filtered(keys: Seq<KeyView>, p: spec_fn(KeyView) -> bool)
    ensures
        forall|i: int|
            0 <= i < keys.filter(p).len() ==> p(#[trigger] keys.filter(p)[i]) && keys.contains(
                keys.filter(p)[i],
            ),
        forall|i: int| 0 <= i < keys.len() && p(#[trigger] keys[i]) ==> keys.filter(p).contains(
            keys[i],
        ),
    decreases keys.len(),
{
    reveal(Seq::filter);
    if keys.len() > 0 {
        let front = keys.drop_last();
        lemma_filtered(front, p);
        let kept = keys.filter(p);
        assert forall|i: int| 0 <= i < kept.len() implies p(#[trigger] kept[i]) && keys.contains(
            kept[i],
        ) by {
            if i < front.filter(p).len() {
                assert(kept[i] == front.filter(p)[i]);
                let k = choose|k: int| 0 <= k < front.len() && front[k] == kept[i];
                assert(keys[k] == kept[i]);
            } else {
                assert(keys[keys.len() - 1] == kept[i]);
            }
        }
        assert forall|i: int| 0 <= i < keys.len() && p(#[trigger] keys[i]) implies kept.contains(
            keys[i],
        ) by {
            if i < front.len() {
                assert(front[i] == keys[i]);
                let k = choose|k: int|
                    0 <= k < front.filter(p).len() && front.filter(p)[k] == keys[i];
                assert(kept[k] == keys[i]);
            } else {
                assert(kept[kept.len() - 1] == keys[i]);
            }
        }
    }
}

/// Whatever the time, sound keys with an active one stay so: the active key is
/// never dropped, and an announced key takes over only as a whole.
pub proof fn law_rotation_keeps_an_active_key(
    ring: RingView,
    now_ms: u64,
    moment: Moment,
    replay_ms: u64,
)
    requires
        ring.wf(),
    ensures
        ring.advanced(now_ms, moment, replay_ms).wf(),
{
    let p = |key: KeyView| key.needed(ring.active_kid, now_ms);
    let needed = ring.needed_keys(now_ms);
    lemma_filtered(ring.keys, p);
    assert forall|i: int| 0 <= i < needed.len() implies (#[trigger] needed[i]).sound() by {
        let k = choose|k: int| 0 <= k < ring.keys.len() && ring.keys[k] == needed[i];
        assert(ring.keys[k].sound());
    }
    let a = choose|a: int|
        0 <= a < ring.keys.len() && (#[trigger] ring.keys[a]).kid == ring.active_kid;
    assert(p(ring.keys[a]));
    let b = choose|b: int| 0 <= b < needed.len() && needed[b] == ring.keys[a];
    assert(needed[b].kid == ring.active_kid);
    let rest = RingView { active_kid: ring.active_kid, keys: needed };
    lemma_active(rest);
    lemma_due(needed, now_ms, moment);
    let advanced = ring.advanced(now_ms, moment, replay_ms);
    match due_index(needed, now_ms, moment) {
        Some(due) => {
            assert(advanced.keys[due].kid == advanced.active_kid);
            assert forall|i: int| 0 <= i < advanced.keys.len() implies (
            #[trigger] advanced.keys[i]).sound() by {
                assert(needed[i].sound());
            }
        },
        None => {},
    }
}

impl RingView {
    /// Whether a key with this name is published until a given time.
    pub open spec fn retires(self, kid: Seq<char>, at_ms: u64) -> bool {
        exists|i: int|
            0 <= i < self.keys.len() && (#[trigger] self.keys[i]).kid == kid
                && self.keys[i].retire_after_ms == Some(at_ms)
    }
}

/// A key that was active stays published until its signatures can no longer be
/// replayed, also after another key took over.
pub proof fn law_replaced_key_outlives_its_signatures(
    ring: RingView,
    now_ms: u64,
    moment: Moment,
    replay_ms: u64,
)
    requires
        ring.wf(),
        ring.advanced(now_ms, moment, replay_ms).active_kid != ring.active_kid,
    ensures
        ring.advanced(now_ms, moment, replay_ms).retires(
            ring.active_kid,
            later_ms(now_ms, replay_ms),
        ),
{
    let needed = ring.needed_keys(now_ms);
    lemma_active_needed(ring, now_ms);
    lemma_due(needed, now_ms, moment);
    let i = key_index(needed, ring.active_kid)->0;
    let advanced = ring.advanced(now_ms, moment, replay_ms);
    let due = due_index(needed, now_ms, moment)->0;
    let retiring = KeyView { retire_after_ms: Some(later_ms(now_ms, replay_ms)), ..needed[i] };
    let middle = needed.update(i, retiring);
    assert(advanced.active_kid == middle[due].kid);
    assert(due != i);
    assert(advanced.keys[i] == retiring);
}

/// A new key is published at once, and signs nothing before every verifier had
/// the time to read the published keys again: neither the wall clock nor the
/// monotonic clock alone lets it take over.
pub proof fn law_new_key_is_published_before_it_signs(
    ring: RingView,
    key: KeyView,
    announced_ms: u64,
    announced_at: Moment,
    now_ms: u64,
    moment: Moment,
    replay_ms: u64,
)
    requires
        forall|i: int|
            0 <= i < ring.keys.len() ==> (#[trigger] ring.keys[i]).activate_after_ms is None,
        now_ms < later_ms(announced_ms, 300_000) || moment.nanos < cache_passed(announced_at).nanos,
    ensures
        ring.announced(key, announced_ms, announced_at).keys.last().kid == key.kid,
        ring.announced(key, announced_ms, announced_at).advanced(
            now_ms,
            moment,
            replay_ms,
        ).active_kid == ring.active_kid,
{
    let next = ring.announced(key, announced_ms, announced_at);
    let p = |key: KeyView| key.needed(next.active_kid, now_ms);
    let needed = next.needed_keys(now_ms);
    lemma_filtered(next.keys, p);
    lemma_due(needed, now_ms, moment);
    assert forall|i: int| 0 <= i < needed.len() implies !(#[trigger] needed[i]).due(
        now_ms,
        moment,
    ) by {
        let k = choose|k: int| 0 <= k < next.keys.len() && next.keys[k] == needed[i];
        if k < ring.keys.len() {
            assert(next.keys[k] == ring.keys[k]);
        }
    }
}

/// The active key is always needed.
pub proof fn lemma_active_needed(ring: RingView, now_ms: u64)
    requires
        ring.has_active(),
    ensures
        key_index(ring.needed_keys(now_ms), ring.active_kid) matches Some(i) && 0 <= i
            < ring.needed_keys(now_ms).len() && ring.needed_keys(now_ms)[i].kid == ring.active_kid,
{
    let p = |key: KeyView| key.needed(ring.active_kid, now_ms);
    let needed = ring.needed_keys(now_ms);
    lemma_filtered(ring.keys, p);
    let a = choose|a: int|
        0 <= a < ring.keys.len() && (#[trigger] ring.keys[a]).kid == ring.active_kid;
    assert(p(ring.keys[a]));
    let b = choose|b: int| 0 <= b < needed.len() && needed[b] == ring.keys[a];
    assert(needed[b].kid == ring.active_kid);
    lemma_active(RingView { active_kid: ring.active_kid, keys: needed });
}

/// What was kept is read back: the same keys, the same active one, the same
/// token secret. Only the monotonic deadline of an announced key starts anew.
pub proof fn law_secrets_round_trip(ring: RingView, token_secret: Seq<u8>, moment: Moment)
    requires
        ring.wf(),
        token_secret.len() == 32,
    ensures
        ring.kept(token_secret).complaint() is None,
        hex_bytes(ring.kept(token_secret).token_secret) == Some(token_secret),
        ring.kept(token_secret).ring(moment).active_kid == ring.active_kid,
        ring.kept(token_secret).ring(moment).keys.len() == ring.keys.len(),
        forall|i: int|
            0 <= i < ring.keys.len() ==> #[trigger] ring.kept(token_secret).ring(moment).keys[i]
                == (KeyView {
                activate_not_before: if ring.keys[i].activate_after_ms is Some {
                    Some(cache_passed(moment))
                } else {
                    None
                },
                ..ring.keys[i]
            }),
{
    law_hex_round_trip(token_secret);
    let kept = ring.kept(token_secret);
    assert forall|i: int| 0 <= i < ring.keys.len() implies kept_key_complaint(
        #[trigger] kept.keys[i],
    ) is None by {
        assert(ring.keys[i].sound());
    }
    lemma_no_complaint(kept.keys);
    let a = choose|a: int|
        0 <= a < ring.keys.len() && (#[trigger] ring.keys[a]).kid == ring.active_kid;
    assert(kept.keys[a].kid == kept.active_kid);
    assert forall|i: int| 0 <= i < ring.keys.len() implies #[trigger] kept.ring(moment).keys[i] == (
    KeyView {
        activate_not_before: if ring.keys[i].activate_after_ms is Some {
            Some(cache_passed(moment))
        } else {
            None
        },
        ..ring.keys[i]
    }) by {
        assert(ring.keys[i].sound());
    }
}

/// What was read is written back: the same keys in the same texts, under the same
/// active one, with the same token secret in small letters.
pub proof fn law_kept_keys_are_written_back(kept: KeptSecretsView, moment: Moment)
    requires
        kept.complaint() is None,
    ensures
        ({
            let secret = hex_bytes(kept.token_secret)->0;
            kept.ring(moment).kept(secret) == (KeptSecretsView {
                token_secret: hex_text(secret),
                ..kept
            })
        }),
{
    let secret = hex_bytes(kept.token_secret)->0;
    let back = kept.ring(moment).kept(secret);
    assert forall|i: int| 0 <= i < kept.keys.len() implies #[trigger] back.keys[i]
        == kept.keys[i] by {
        assert(kept.ring(moment).keys[i] == key_from(kept.keys[i], moment));
    }
    assert(back.keys =~= kept.keys);
}

proof fn lemma_no_complaint(keys: Seq<KeptKeyView>)
    requires
        forall|i: int| 0 <= i < keys.len() ==> kept_key_complaint(#[trigger] keys[i]) is None,
    ensures
        kept_keys_complaint(keys) is None,
    decreases keys.len(),
{
    if keys.len() > 0 {
        assert forall|i: int| 0 <= i < keys.drop_last().len() implies kept_key_complaint(
            #[trigger] keys.drop_last()[i],
        ) is None by {
            assert(keys.drop_last()[i] == keys[i]);
        }
        lemma_no_complaint(keys.drop_last());
        assert(keys[keys.len() - 1] == keys.last());
    }
}

/// Whether signatures may be replayed for long enough that every verifier still
/// has the key. The number is in milliseconds.
pub fn check_replay_window(replay_ms: u64) -> (r: Result<(), &'static str>)
    ensures
        match r {
            Ok(()) => replay_ms >= JWKS_CACHE_MAX_AGE_SECS * 1000,
            Err(message) => replay_ms < JWKS_CACHE_MAX_AGE_SECS * 1000 && message@
                == "DS_WEBHOOK_SIGNATURE_REPLAY_WINDOW_SECS must be at least 300"@,
        },
{
    if replay_ms < 300_000 {
        Err("DS_WEBHOOK_SIGNATURE_REPLAY_WINDOW_SECS must be at least 300")
    } else {
        Ok(())
    }
}

/// A setting in seconds, given as text or left out.
pub fn env_seconds(name: &str, value: Option<&str>, default: u64) -> (r: Result<u64, String>)
    ensures
        match value {
            Some(text) => match parsed_u64(text@) {
                Some(secs) => r == Ok::<u64, String>(secs),
                None => r matches Err(message) && message@ == name@
                    + " must be an unsigned number of seconds"@,
            },
            None => r == Ok::<u64, String>(default),
        },
{
    match value {
        Some(text) => match parse_u64(text) {
            Some(secs) => Ok(secs),
            None => Err(crate::text::joined(name, " must be an unsigned number of seconds")),
        },
        None => Ok(default),
    }
}

/// Signatures can be replayed for five minutes at least, as long as a key may be
/// cached.
pub proof fn law_replay_window_has_a_minimum(replay_ms: u64, r: Result<(), &'static str>)
    requires
        call_ensures(check_replay_window, (replay_ms,), r),
    ensures
        r is Ok <==> replay_ms >= 300_000,
{
}

} // verus!
