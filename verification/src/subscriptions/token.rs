//! Callback tokens: which wake they belong to, until when, and that this server
//! issued them.

use crate::subscriptions::crypto::{
    hmac_matches, hmac_sha256, hmac_tag, random_bytes, MAX_SIGNED_BYTES,
};
use crate::subscriptions::encoding::{
    hex_bytes, hex_decode, hex_encode, hex_text, law_hex_round_trip, nibble,
};
use crate::text::{
    decimal, is_digit, lemma_decimal_value, lemma_parse_decimal, lemma_split_absent,
    lemma_split_concat, lemma_utf8_len_ascii, lemma_utf8_len_concat, opt_text, parse_u64,
    parsed_u64, push_decimal, split_on, split_text, texts, utf8_len,
};
use vstd::prelude::*;
use vstd::utf8::encode_utf8;

verus! {

/// How long a token is valid, in seconds.
pub const TOKEN_LIFETIME_SECS: u64 = 3_600;

/// How many random bytes a wake name and a token each carry.
pub const NONCE_BYTES: usize = 12;

/// The randomness that one wake uses up.
pub struct WakeSeed {
    pub wake: Vec<u8>,
    pub token: Vec<u8>,
}

/// A seed as a mathematical value.
pub struct WakeSeedView {
    pub wake: Seq<u8>,
    pub token: Seq<u8>,
}

impl View for WakeSeed {
    type V = WakeSeedView;

    open spec fn view(&self) -> WakeSeedView {
        WakeSeedView { wake: self.wake@, token: self.token@ }
    }
}

impl WakeSeedView {
    /// Both parts have their full length.
    pub open spec fn full(self) -> bool {
        self.wake.len() == NONCE_BYTES && self.token.len() == NONCE_BYTES
    }

    /// The name of the wake.
    pub open spec fn wake_id(self) -> Seq<char> {
        "w_"@ + hex_text(self.wake)
    }
}

impl WakeSeed {
    /// Draw a seed from the system's randomness; nothing where there is none.
    pub fn draw() -> (r: Option<WakeSeed>)
        ensures
            r matches Some(seed) ==> seed@.full(),
    {
        WakeSeed::from_draws(random_bytes(NONCE_BYTES), random_bytes(NONCE_BYTES))
    }

    /// The seed that two draws give, the first for the name of the wake and the
    /// second for its token; nothing where either draw failed.
    pub fn from_draws(wake: Option<Vec<u8>>, token: Option<Vec<u8>>) -> (r: Option<WakeSeed>)
        ensures
            r is Some <==> wake is Some && token is Some,
            r matches Some(seed) ==> seed@.wake == wake->0@ && seed@.token == token->0@,
    {
        match (wake, token) {
            (Some(wake), Some(token)) => Some(WakeSeed { wake, token }),
            _ => None,
        }
    }

    /// The name of the wake.
    pub fn wake_id(&self) -> (r: String)
        ensures
            r@ == self@.wake_id(),
    {
        let mut out = "w_".to_owned();
        let digits = hex_encode(self.wake.as_slice());
        out.append(digits.as_str());
        out
    }
}

/// Two bytes for the jitter of a retry, drawn from the system's randomness;
/// nothing where there is none. Every number can come back, so nothing is said
/// of it here; `jitter_from` says what the drawn bytes make.
pub fn draw_jitter() -> (r: Option<u16>) {
    jitter_from(random_bytes(2))
}

/// The number that two drawn bytes make, the first the more significant one;
/// nothing where the draw failed.
pub fn jitter_from(drawn: Option<Vec<u8>>) -> (r: Option<u16>)
    requires
        drawn matches Some(bytes) ==> bytes@.len() == 2,
    ensures
        r is Some <==> drawn is Some,
        r matches Some(jitter) ==> jitter == drawn->0@[0] * 256 + drawn->0@[1],
{
    match drawn {
        Some(bytes) => Some(bytes[0] as u16 * 256 + bytes[1] as u16),
        None => None,
    }
}

/// The part of a token that is signed together with the subscription's key.
pub open spec fn unsigned_text(generation: u64, expires: u64, nonce: Seq<u8>) -> Seq<char> {
    decimal(generation as nat).push('.') + (decimal(expires as nat).push('.') + hex_text(nonce))
}

/// The message whose tag makes a token authentic.
pub open spec fn signed_message(key: Seq<char>, unsigned: Seq<char>) -> Seq<u8> {
    encode_utf8(key.push(':') + unsigned)
}

/// A token.
pub open spec fn token_text(
    secret: Seq<u8>,
    key: Seq<char>,
    generation: u64,
    expires: u64,
    nonce: Seq<u8>,
) -> Seq<char> {
    let unsigned = unsigned_text(generation, expires, nonce);
    unsigned.push('.') + hex_text(hmac_sha256(secret, signed_message(key, unsigned)))
}

/// What a presented token says about the subscription `key` at `now`: the
/// generation it was issued for, or why it is refused.
pub open spec fn token_verdict(
    secret: Seq<u8>,
    key: Seq<char>,
    token: Seq<char>,
    now_secs: u64,
) -> Result<u64, Seq<char>> {
    let parts = split_on(token, '.');
    if parts.len() != 4 || parsed_u64(parts[0]) is None || parsed_u64(parts[1]) is None
        || hex_bytes(parts[3]) is None {
        Err("TOKEN_INVALID"@)
    } else {
        let unsigned = parts[0].push('.') + (parts[1].push('.') + parts[2]);
        if hex_bytes(parts[3])->0 != hmac_sha256(secret, signed_message(key, unsigned)) {
            Err("TOKEN_INVALID"@)
        } else if now_secs > parsed_u64(parts[1])->0 {
            Err("TOKEN_EXPIRED"@)
        } else {
            Ok(parsed_u64(parts[0])->0)
        }
    }
}

/// A key or a token that is short enough to be authenticated.
pub open spec fn fits_token(s: Seq<char>) -> bool {
    utf8_len(s) <= 0x100_0000_0000_0000
}

/// Digits, dots and hexadecimal digits only.
proof fn lemma_unsigned_len(generation: u64, expires: u64, nonce: Seq<u8>)
    ensures
        utf8_len(unsigned_text(generation, expires, nonce)) <= 42 + 2 * nonce.len(),
{
    lemma_decimal_ascii(generation);
    lemma_decimal_ascii(expires);
    law_hex_round_trip(nonce);
    let h = hex_text(nonce);
    assert forall|i: int| 0 <= i < h.len() implies '\0' <= #[trigger] h[i] <= '\u{7f}' by {
        assert(nibble(h[i]) is Some);
    }
    let whole = unsigned_text(generation, expires, nonce);
    let a = decimal(generation as nat);
    let b = decimal(expires as nat);
    assert forall|i: int| 0 <= i < whole.len() implies '\0' <= #[trigger] whole[i] <= '\u{7f}' by {
        if i < a.len() {
            assert(whole[i] == a[i]);
        } else if i == a.len() {
        } else if i < a.len() + 1 + b.len() {
            assert(whole[i] == b[i - a.len() - 1]);
        } else if i == a.len() + 1 + b.len() {
        } else {
            assert(whole[i] == h[i - a.len() - b.len() - 2]);
        }
    }
    lemma_utf8_len_ascii(whole);
}

/// A 64-bit number has at most twenty digits, all of them ASCII.
proof fn lemma_decimal_ascii(n: u64)
    ensures
        decimal(n as nat).len() <= 20,
        forall|i: int|
            0 <= i < decimal(n as nat).len() ==> '\0' <= #[trigger] decimal(n as nat)[i] <= '\u{7f}',
{
    lemma_decimal_value(n as nat);
    lemma_digits_bound(n as nat, 20);
    assert forall|i: int| 0 <= i < decimal(n as nat).len() implies '\0' <= #[trigger] decimal(
        n as nat,
    )[i] <= '\u{7f}' by {
        assert(is_digit(decimal(n as nat)[i]));
    }
}

spec fn ten_to(k: nat) -> nat
    decreases k,
{
    if k == 0 {
        1
    } else {
        10 * ten_to((k - 1) as nat)
    }
}

proof fn lemma_digits(n: nat, k: nat)
    requires
        k >= 1,
        n < ten_to(k),
    ensures
        decimal(n).len() <= k,
    decreases n,
{
    if n >= 10 {
        assert(k >= 2) by {
            if k == 1 {
                assert(ten_to(0) == 1);
            }
        }
        lemma_digits(n / 10, (k - 1) as nat);
    }
}

proof fn lemma_digits_bound(n: nat, k: nat)
    requires
        n <= u64::MAX,
        k == 20,
    ensures
        decimal(n).len() <= 20,
{
    assert(ten_to(20) == 100_000_000_000_000_000_000) by {
        reveal_with_fuel(ten_to, 21);
    }
    lemma_digits(n, 20);
}

fn message_bytes(key: &str, unsigned: &str) -> (r: Vec<u8>)
    ensures
        r@ == signed_message(key@, unsigned@),
{
    let mut message = key.to_owned();
    message.push(':');
    message.append(unsigned);
    message.as_str().as_bytes_vec()
}

proof fn lemma_message_fits(key: Seq<char>, unsigned: Seq<char>)
    requires
        utf8_len(key) + utf8_len(unsigned) < MAX_SIGNED_BYTES,
    ensures
        signed_message(key, unsigned).len() <= MAX_SIGNED_BYTES,
{
    let colon = seq![':'];
    assert(key.push(':') =~= key + colon);
    lemma_utf8_len_concat(key, colon);
    lemma_utf8_len_concat(key.push(':'), unsigned);
    lemma_utf8_len_ascii(colon);
}

/// Issue a token for one generation of a subscription.
pub fn generate_token(
    secret: &Vec<u8>,
    key: &str,
    generation: u64,
    now_secs: u64,
    nonce: &Vec<u8>,
) -> (r: String)
    requires
        secret@.len() == 32,
        fits_token(key@),
        nonce@.len() == NONCE_BYTES,
    ensures
        r@ == token_text(
            secret@,
            key@,
            generation,
            token_expiry(now_secs),
            nonce@,
        ),
        fits_token(r@),
{
    let expires: u64 = now_secs.saturating_add(TOKEN_LIFETIME_SECS);
    let mut unsigned = String::new();
    push_decimal(&mut unsigned, generation);
    unsigned.push('.');
    push_decimal(&mut unsigned, expires);
    unsigned.push('.');
    let digits = hex_encode(nonce.as_slice());
    unsigned.append(digits.as_str());
    assert(unsigned@ =~= unsigned_text(generation, expires, nonce@));
    let message = message_bytes(key, unsigned.as_str());
    proof {
        lemma_unsigned_len(generation, expires, nonce@);
        lemma_message_fits(key@, unsigned@);
    }
    let tag = hmac_tag(secret.as_slice(), message.as_slice());
    let tail = hex_encode(tag.as_slice());
    let ghost front = unsigned@;
    let mut token = unsigned;
    token.push('.');
    token.append(tail.as_str());
    proof {
        law_hex_round_trip(tag@);
        assert forall|i: int| 0 <= i < tail@.len() implies '\0' <= #[trigger] tail@[i] <= '\u{7f}' by {
            assert(nibble(tail@[i]) is Some);
        }
        lemma_utf8_len_ascii(tail@);
        let dot = seq!['.'];
        lemma_utf8_len_ascii(dot);
        assert(front.push('.') =~= front + dot);
        lemma_utf8_len_concat(front, dot);
        lemma_utf8_len_concat(front.push('.'), tail@);
    }
    token
}

/// When a token that is issued at `now` ends.
pub open spec fn token_expiry(now_secs: u64) -> u64 {
    if now_secs + TOKEN_LIFETIME_SECS > u64::MAX {
        u64::MAX
    } else {
        (now_secs + TOKEN_LIFETIME_SECS) as u64
    }
}

/// Read a presented token.
pub fn validate_token(secret: &Vec<u8>, key: &str, token: &str, now_secs: u64) -> (r: Result<
    u64,
    &'static str,
>)
    requires
        secret@.len() == 32,
        fits_token(key@),
        fits_token(token@),
    ensures
        match token_verdict(secret@, key@, token@, now_secs) {
            Ok(generation) => r == Ok::<u64, &'static str>(generation),
            Err(code) => r matches Err(actual) && actual@ == code,
        },
{
    let parts = split_text(token, '.');
    let ghost pieces = split_on(token@, '.');
    assert(texts(parts@).len() == parts@.len());
    if parts.len() != 4 {
        return Err("TOKEN_INVALID");
    }
    assert(pieces[0] == parts@[0]@ && pieces[1] == parts@[1]@ && pieces[2] == parts@[2]@
        && pieces[3] == parts@[3]@);
    let generation = match parse_u64(parts[0].as_str()) {
        Some(generation) => generation,
        None => {
            return Err("TOKEN_INVALID");
        },
    };
    let expires = match parse_u64(parts[1].as_str()) {
        Some(expires) => expires,
        None => {
            return Err("TOKEN_INVALID");
        },
    };
    let signature = match hex_decode(parts[3].as_str()) {
        Some(signature) => signature,
        None => {
            return Err("TOKEN_INVALID");
        },
    };
    let mut unsigned = parts[0].as_str().to_owned();
    unsigned.push('.');
    unsigned.append(parts[1].as_str());
    unsigned.push('.');
    unsigned.append(parts[2].as_str());
    let message = message_bytes(key, unsigned.as_str());
    proof {
        assert(unsigned@ =~= pieces[0].push('.') + (pieces[1].push('.') + pieces[2]));
        crate::text::law_join_undoes_split(token@, '.');
        assert(token@ =~= unsigned@.push('.') + pieces[3]) by {
            let three = pieces.drop_last();
            let two = three.drop_last();
            let one = two.drop_last();
            assert(one =~= seq![pieces[0]]);
            assert(crate::text::join_with(one, '.') == pieces[0]);
            assert(crate::text::join_with(two, '.') == pieces[0].push('.') + pieces[1]);
            assert(crate::text::join_with(three, '.') == (pieces[0].push('.') + pieces[1]).push(
                '.',
            ) + pieces[2]);
            assert(crate::text::join_with(pieces, '.') == crate::text::join_with(three, '.').push(
                '.',
            ) + pieces[3]);
        }
        lemma_utf8_len_concat(unsigned@.push('.'), pieces[3]);
        assert(unsigned@.push('.') =~= unsigned@ + seq!['.']);
        lemma_utf8_len_concat(unsigned@, seq!['.']);
        lemma_message_fits(key@, unsigned@);
    }
    if !hmac_matches(secret.as_slice(), message.as_slice(), signature.as_slice()) {
        return Err("TOKEN_INVALID");
    }
    if now_secs > expires {
        return Err("TOKEN_EXPIRED");
    }
    Ok(generation)
}

/// Whether a presented token is the expected one. The two are compared through
/// their tags, so that the comparison takes the same time wherever they differ.
pub open spec fn tokens_agree(
    secret: Seq<u8>,
    expected: Option<Seq<char>>,
    presented: Seq<char>,
) -> bool {
    expected matches Some(text) && hmac_sha256(secret, encode_utf8(text)) == hmac_sha256(
        secret,
        encode_utf8(presented),
    )
}

/// Whether a presented token is the expected one.
pub fn token_matches(secret: &Vec<u8>, expected: &Option<String>, presented: &str) -> (r: bool)
    requires
        secret@.len() == 32,
        fits_token(presented@),
        expected matches Some(text) ==> fits_token(text@),
    ensures
        r == tokens_agree(
            secret@,
            opt_text(*expected),
            presented@,
        ),
{
    match expected {
        Some(text) => {
            let tag = hmac_tag(secret.as_slice(), text.as_str().as_bytes());
            hmac_matches(secret.as_slice(), presented.as_bytes(), tag.as_slice())
        },
        None => false,
    }
}

/// A token that was issued is accepted for its subscription and generation
/// until it ends, and reported as expired afterwards.
pub proof fn law_issued_token_is_accepted(
    secret: Seq<u8>,
    key: Seq<char>,
    generation: u64,
    expires: u64,
    nonce: Seq<u8>,
    now_secs: u64,
)
    ensures
        token_verdict(secret, key, token_text(secret, key, generation, expires, nonce), now_secs)
            == (if now_secs > expires {
            Err::<u64, Seq<char>>("TOKEN_EXPIRED"@)
        } else {
            Ok::<u64, Seq<char>>(generation)
        }),
{
    let a = decimal(generation as nat);
    let b = decimal(expires as nat);
    let c = hex_text(nonce);
    let unsigned = unsigned_text(generation, expires, nonce);
    let tag = hmac_sha256(secret, signed_message(key, unsigned));
    let d = hex_text(tag);
    let token = token_text(secret, key, generation, expires, nonce);
    lemma_parse_decimal(generation);
    lemma_parse_decimal(expires);
    lemma_no_dot_digits(generation);
    lemma_no_dot_digits(expires);
    lemma_no_dot_hex(nonce);
    lemma_no_dot_hex(tag);
    law_hex_round_trip(tag);
    lemma_split_absent(a, '.');
    lemma_split_absent(b, '.');
    lemma_split_absent(c, '.');
    lemma_split_absent(d, '.');
    lemma_split_concat(unsigned, '.', d);
    lemma_split_concat(a, '.', b.push('.') + c);
    lemma_split_concat(b, '.', c);
    assert(split_on(token, '.') =~= seq![a, b, c, d]);
}

/// A token agrees with itself.
pub proof fn law_token_agrees_with_itself(secret: Seq<u8>, token: Seq<char>)
    ensures
        tokens_agree(secret, Some(token), token),
        !tokens_agree(secret, None, token),
{
}

proof fn lemma_no_dot_digits(n: u64)
    ensures
        !decimal(n as nat).contains('.'),
{
    lemma_decimal_value(n as nat);
    let s = decimal(n as nat);
    if s.contains('.') {
        let i = choose|i: int| 0 <= i < s.len() && s[i] == '.';
        assert(is_digit(s[i]));
    }
}

proof fn lemma_no_dot_hex(bytes: Seq<u8>)
    ensures
        !hex_text(bytes).contains('.'),
{
    law_hex_round_trip(bytes);
    let s = hex_text(bytes);
    if s.contains('.') {
        let i = choose|i: int| 0 <= i < s.len() && s[i] == '.';
        assert(nibble(s[i]) is Some);
    }
}

} // verus!
