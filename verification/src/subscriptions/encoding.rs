//! Bytes as hexadecimal and base64url text.

use crate::text::chars_of;
use vstd::prelude::*;

verus! {

pub open spec fn hex_char(d: nat) -> char
    recommends
        d < 16,
{
    if d < 10 {
        (48 + d) as char
    } else {
        (87 + d) as char
    }
}

/// Two small hexadecimal digits for each byte.
pub open spec fn hex_text(bytes: Seq<u8>) -> Seq<char>
    decreases bytes.len(),
{
    if bytes.len() == 0 {
        Seq::empty()
    } else {
        hex_text(bytes.drop_last()).push(hex_char(bytes.last() as nat / 16)).push(
            hex_char(bytes.last() as nat % 16),
        )
    }
}

pub open spec fn nibble(c: char) -> Option<u8> {
    if '0' <= c <= '9' {
        Some((c as u32 - 48) as u8)
    } else if 'a' <= c <= 'f' {
        Some((c as u32 - 87) as u8)
    } else if 'A' <= c <= 'F' {
        Some((c as u32 - 55) as u8)
    } else {
        None
    }
}

/// The bytes that pairs of hexadecimal digits of either case stand for.
pub open spec fn hex_bytes(s: Seq<char>) -> Option<Seq<u8>>
    decreases s.len(),
{
    if s.len() == 0 {
        Some(Seq::empty())
    } else if s.len() == 1 {
        None
    } else {
        match (
            hex_bytes(s.take(s.len() - 2)),
            nibble(s[s.len() - 2]),
            nibble(s[s.len() - 1]),
        ) {
            (Some(front), Some(high), Some(low)) => Some(front.push((high * 16 + low) as u8)),
            _ => None,
        }
    }
}

/// Two small hexadecimal digits for each byte.
pub fn hex_encode(bytes: &[u8]) -> (r: String)
    ensures
        r@ == hex_text(bytes@),
{
    let mut out = String::new();
    let mut i: usize = 0;
    assert(bytes@.take(0) =~= Seq::empty());
    while i < bytes.len()
        invariant
            i <= bytes@.len(),
            out@ == hex_text(bytes@.take(i as int)),
        decreases bytes.len() - i,
    {
        let b: u8 = bytes[i];
        assert(bytes@.take(i as int + 1).drop_last() =~= bytes@.take(i as int));
        push_nibble(&mut out, b / 16);
        push_nibble(&mut out, b % 16);
        i = i + 1;
    }
    assert(bytes@.take(bytes@.len() as int) =~= bytes@);
    out
}

fn push_nibble(out: &mut String, d: u8)
    requires
        d < 16,
    ensures
        final(out)@ == old(out)@.push(hex_char(d as nat)),
{
    if d < 10 {
        out.push((48 + d) as char);
    } else {
        out.push((87 + d) as char);
    }
}

fn nibble_of(c: char) -> (r: Option<u8>)
    ensures
        r == nibble(c),
        r matches Some(d) ==> d < 16,
{
    if c >= '0' && c <= '9' {
        Some((c as u32 - 48) as u8)
    } else if c >= 'a' && c <= 'f' {
        Some((c as u32 - 87) as u8)
    } else if c >= 'A' && c <= 'F' {
        Some((c as u32 - 55) as u8)
    } else {
        None
    }
}

proof fn lemma_hex_bytes_prefix(s: Seq<char>, k: int)
    requires
        0 <= k <= s.len(),
        k % 2 == 0,
        s.len() % 2 == 0,
        hex_bytes(s) is Some,
    ensures
        hex_bytes(s.take(k)) is Some,
    decreases s.len() - k,
{
    if k == s.len() {
        assert(s.take(k) =~= s);
    } else {
        lemma_hex_bytes_prefix(s, k + 2);
        assert(s.take(k + 2).take(k) =~= s.take(k));
    }
}

proof fn lemma_hex_bytes_even(s: Seq<char>)
    requires
        hex_bytes(s) is Some,
    ensures
        s.len() % 2 == 0,
    decreases s.len(),
{
    if s.len() >= 2 {
        lemma_hex_bytes_even(s.take(s.len() - 2));
    }
}

/// The bytes that pairs of hexadecimal digits stand for.
pub fn hex_decode(value: &str) -> (r: Option<Vec<u8>>)
    ensures
        match r {
            Some(bytes) => hex_bytes(value@) == Some(bytes@),
            None => hex_bytes(value@) is None,
        },
{
    let chars = chars_of(value);
    if chars.len() % 2 != 0 {
        proof {
            if hex_bytes(value@) is Some {
                lemma_hex_bytes_even(value@);
            }
        }
        return None;
    }
    let mut out: Vec<u8> = Vec::new();
    let mut i: usize = 0;
    assert(value@.take(0) =~= Seq::empty());
    assert(out@ =~= Seq::empty());
    while i < chars.len()
        invariant
            i <= chars@.len(),
            i % 2 == 0,
            chars@.len() % 2 == 0,
            chars@ == value@,
            hex_bytes(value@.take(i as int)) == Some(out@),
        decreases chars.len() - i,
    {
        let ghost longer = value@.take(i as int + 2);
        assert(longer.take(i as int) =~= value@.take(i as int));
        match (nibble_of(chars[i]), nibble_of(chars[i + 1])) {
            (Some(high), Some(low)) => {
                out.push(high * 16 + low);
            },
            _ => {
                proof {
                    if hex_bytes(value@) is Some {
                        lemma_hex_bytes_prefix(value@, i as int + 2);
                    }
                }
                return None;
            },
        }
        i = i + 2;
    }
    assert(value@.take(value@.len() as int) =~= value@);
    Some(out)
}

/// Decoding what was encoded gives the bytes back.
pub proof fn law_hex_round_trip(bytes: Seq<u8>)
    ensures
        hex_bytes(hex_text(bytes)) == Some(bytes),
        hex_text(bytes).len() == 2 * bytes.len(),
        forall|i: int|
            0 <= i < hex_text(bytes).len() ==> nibble(#[trigger] hex_text(bytes)[i]) is Some,
    decreases bytes.len(),
{
    if bytes.len() > 0 {
        let front = bytes.drop_last();
        law_hex_round_trip(front);
        let s = hex_text(bytes);
        let n = s.len();
        assert(s.take(n - 2) =~= hex_text(front));
        let b = bytes.last();
        assert(nibble(hex_char(b as nat / 16)) == Some((b / 16) as u8));
        assert(nibble(hex_char(b as nat % 16)) == Some((b % 16) as u8));
        assert((b / 16) * 16 + (b % 16) == b);
        assert(front.push(b) =~= bytes);
        assert forall|i: int| 0 <= i < s.len() implies nibble(#[trigger] s[i]) is Some by {
            if i < n - 2 {
                assert(s[i] == hex_text(front)[i]);
            }
        }
    } else {
        assert(bytes =~= Seq::empty());
    }
}

pub open spec fn base64_char(v: nat) -> char
    recommends
        v < 64,
{
    if v < 26 {
        (65 + v) as char
    } else if v < 52 {
        (71 + v) as char
    } else if v < 62 {
        ((v - 4) as nat) as char
    } else if v == 62 {
        '-'
    } else {
        '_'
    }
}

/// The base64url text of a byte sequence, without padding.
pub open spec fn base64_url_text(bytes: Seq<u8>) -> Seq<char>
    decreases bytes.len(),
{
    if bytes.len() == 0 {
        Seq::empty()
    } else if bytes.len() == 1 {
        let n = bytes[0] as nat;
        seq![base64_char(n / 4), base64_char(n % 4 * 16)]
    } else if bytes.len() == 2 {
        let n = bytes[0] as nat * 256 + bytes[1] as nat;
        seq![base64_char(n / 1024), base64_char(n / 16 % 64), base64_char(n % 16 * 4)]
    } else {
        let n = bytes[0] as nat * 65536 + bytes[1] as nat * 256 + bytes[2] as nat;
        seq![
            base64_char(n / 262144),
            base64_char(n / 4096 % 64),
            base64_char(n / 64 % 64),
            base64_char(n % 64),
        ] + base64_url_text(bytes.skip(3))
    }
}

fn push_base64(out: &mut String, v: u32)
    requires
        v < 64,
    ensures
        final(out)@ == old(out)@.push(base64_char(v as nat)),
{
    if v < 26 {
        out.push((65 + v as u8) as char);
    } else if v < 52 {
        out.push((71 + v as u8) as char);
    } else if v < 62 {
        out.push((v as u8 - 4) as char);
    } else if v == 62 {
        out.push('-');
    } else {
        out.push('_');
    }
}

/// The base64url text of a byte sequence, without padding.
pub fn base64_url_encode(bytes: &[u8]) -> (r: String)
    ensures
        r@ == base64_url_text(bytes@),
{
    let mut out = String::new();
    let mut i: usize = 0;
    assert(bytes@.skip(0) =~= bytes@);
    while bytes.len() - i >= 3
        invariant
            i <= bytes@.len(),
            out@ + base64_url_text(bytes@.skip(i as int)) == base64_url_text(bytes@),
        decreases bytes.len() - i,
    {
        let n: u32 = bytes[i] as u32 * 65536 + bytes[i + 1] as u32 * 256 + bytes[i + 2] as u32;
        let ghost before = out@;
        let ghost rest = bytes@.skip(i as int);
        push_base64(&mut out, n / 262144);
        push_base64(&mut out, n / 4096 % 64);
        push_base64(&mut out, n / 64 % 64);
        push_base64(&mut out, n % 64);
        proof {
            assert(rest.skip(3) =~= bytes@.skip(i as int + 3));
            assert(out@ =~= before + seq![
                base64_char(n as nat / 262144),
                base64_char(n as nat / 4096 % 64),
                base64_char(n as nat / 64 % 64),
                base64_char(n as nat % 64),
            ]);
            assert(out@ + base64_url_text(rest.skip(3)) =~= before + base64_url_text(rest));
        }
        i = i + 3;
    }
    let ghost before = out@;
    let ghost rest = bytes@.skip(i as int);
    if bytes.len() - i == 1 {
        let n: u32 = bytes[i] as u32;
        push_base64(&mut out, n / 4);
        push_base64(&mut out, n % 4 * 16);
        assert(out@ =~= before + base64_url_text(rest));
    } else if bytes.len() - i == 2 {
        let n: u32 = bytes[i] as u32 * 256 + bytes[i + 1] as u32;
        push_base64(&mut out, n / 1024);
        push_base64(&mut out, n / 16 % 64);
        push_base64(&mut out, n % 16 * 4);
        assert(out@ =~= before + base64_url_text(rest));
    } else {
        assert(out@ =~= before + base64_url_text(rest));
    }
    out
}

/// Base64 takes at most two characters for a byte, all of them ASCII.
pub proof fn lemma_base64_shape(bytes: Seq<u8>)
    ensures
        base64_url_text(bytes).len() <= 2 * bytes.len(),
        vstd::utf8::is_ascii_chars(base64_url_text(bytes)),
    decreases bytes.len(),
{
    let text = base64_url_text(bytes);
    if bytes.len() >= 3 {
        lemma_base64_shape(bytes.skip(3));
        let tail = base64_url_text(bytes.skip(3));
        assert forall|i: int| 0 <= i < text.len() implies '\0' <= #[trigger] text[i] <= '\u{7f}' by {
            if i >= 4 {
                assert(text[i] == tail[i - 4]);
            }
        }
    }
}

/// The six bits that a character of base64url text stands for.
pub open spec fn base64_value(c: char) -> Option<nat> {
    if 'A' <= c <= 'Z' {
        Some((c as int - 'A' as int) as nat)
    } else if 'a' <= c <= 'z' {
        Some((c as int - 'a' as int + 26) as nat)
    } else if '0' <= c <= '9' {
        Some((c as int - '0' as int + 52) as nat)
    } else if c == '-' {
        Some(62)
    } else if c == '_' {
        Some(63)
    } else {
        None
    }
}

/// Base64url text holds the bits of the bytes in their order, six to a character
/// and zeros behind the last: every byte can be read from the text.
pub proof fn law_base64_holds_every_byte(bytes: Seq<u8>)
    ensures
        base64_url_text(bytes).len() == (bytes.len() * 4 + 2) / 3,
        forall|k: int|
            0 <= k < base64_url_text(bytes).len() ==> base64_value(
                #[trigger] base64_url_text(bytes)[k],
            ) is Some,
        forall|i: int|
            0 <= i < bytes.len() ==> #[trigger] bytes[i] == byte_in(base64_url_text(bytes), i),
        bytes.len() % 3 == 1 ==> base64_value(base64_url_text(bytes).last())->0 % 16 == 0,
        bytes.len() % 3 == 2 ==> base64_value(base64_url_text(bytes).last())->0 % 4 == 0,
    decreases bytes.len(),
{
    let text = base64_url_text(bytes);
    if 1 <= bytes.len() <= 2 {
        lemma_last_bytes(bytes);
    } else if bytes.len() >= 3 {
        let rest = bytes.skip(3);
        let tail = base64_url_text(rest);
        law_base64_holds_every_byte(rest);
        lemma_first_bytes(bytes);
        assert(text =~= text.take(4) + tail);
        assert forall|k: int| 0 <= k < text.len() implies base64_value(
            #[trigger] text[k],
        ) is Some by {
            if k >= 4 {
                assert(text[k] == tail[k - 4]);
            }
        }
        assert forall|i: int| 0 <= i < bytes.len() implies #[trigger] bytes[i] == byte_in(
            text,
            i,
        ) by {
            if i >= 3 {
                assert(rest[i - 3] == bytes[i]);
                lemma_byte_further_on(text, tail, i);
            }
        }
        if rest.len() > 0 {
            assert(text.last() == tail.last());
        }
    }
}

proof fn lemma_base64_value(v: nat)
    requires
        v < 64,
    ensures
        base64_value(base64_char(v)) == Some(v),
{
}

/// The four groups of six bits that three bytes make.
proof fn lemma_three_bytes(a: u8, b: u8, c: u8)
    ensures
        ({
            let n = a as nat * 65536 + b as nat * 256 + c as nat;
            &&& n / 262144 == a as nat / 4
            &&& n / 4096 % 64 == a as nat % 4 * 16 + b as nat / 16
            &&& n / 64 % 64 == b as nat % 16 * 4 + c as nat / 64
            &&& n % 64 == c as nat % 64
        }),
{
    let (x, y, z) = (a as u32, b as u32, c as u32);
    assert((x * 65536 + y * 256 + z) / 262144 == x / 4) by (bit_vector)
        requires
            x < 256,
            y < 256,
            z < 256,
    ;
    assert((x * 65536 + y * 256 + z) / 4096 % 64 == x % 4 * 16 + y / 16) by (bit_vector)
        requires
            x < 256,
            y < 256,
            z < 256,
    ;
    assert((x * 65536 + y * 256 + z) / 64 % 64 == y % 16 * 4 + z / 64) by (bit_vector)
        requires
            x < 256,
            y < 256,
            z < 256,
    ;
    assert((x * 65536 + y * 256 + z) % 64 == z % 64) by (bit_vector)
        requires
            x < 256,
            y < 256,
            z < 256,
    ;
}

/// The three groups of six bits that two bytes make, the last filled with zeros.
proof fn lemma_two_bytes(a: u8, b: u8)
    ensures
        ({
            let n = a as nat * 256 + b as nat;
            &&& n / 1024 == a as nat / 4
            &&& n / 16 % 64 == a as nat % 4 * 16 + b as nat / 16
            &&& n % 16 * 4 == b as nat % 16 * 4
        }),
{
    let (x, y) = (a as u32, b as u32);
    assert((x * 256 + y) / 1024 == x / 4) by (bit_vector)
        requires
            x < 256,
            y < 256,
    ;
    assert((x * 256 + y) / 16 % 64 == x % 4 * 16 + y / 16) by (bit_vector)
        requires
            x < 256,
            y < 256,
    ;
    assert((x * 256 + y) % 16 == y % 16) by (bit_vector)
        requires
            x < 256,
            y < 256,
    ;
}

proof fn lemma_last_bytes(bytes: Seq<u8>)
    requires
        1 <= bytes.len() <= 2,
    ensures
        base64_url_text(bytes).len() == bytes.len() + 1,
        forall|k: int|
            0 <= k < base64_url_text(bytes).len() ==> base64_value(
                #[trigger] base64_url_text(bytes)[k],
            ) is Some,
        forall|i: int|
            0 <= i < bytes.len() ==> #[trigger] bytes[i] == byte_in(base64_url_text(bytes), i),
        bytes.len() == 1 ==> base64_value(base64_url_text(bytes).last())->0 % 16 == 0,
        bytes.len() == 2 ==> base64_value(base64_url_text(bytes).last())->0 % 4 == 0,
{
    let text = base64_url_text(bytes);
    if bytes.len() == 1 {
        let n = bytes[0] as nat;
        lemma_base64_value(n / 4);
        lemma_base64_value(n % 4 * 16);
        assert(text[0] == base64_char(n / 4) && text[1] == base64_char(n % 4 * 16));
        assert(bytes[0] == byte_in(text, 0));
    } else {
        let n = bytes[0] as nat * 256 + bytes[1] as nat;
        lemma_two_bytes(bytes[0], bytes[1]);
        lemma_base64_value(n / 1024);
        lemma_base64_value(n / 16 % 64);
        lemma_base64_value(n % 16 * 4);
        assert(text[0] == base64_char(n / 1024) && text[1] == base64_char(n / 16 % 64) && text[2]
            == base64_char(n % 16 * 4));
        assert(bytes[0] == byte_in(text, 0));
        assert(bytes[1] == byte_in(text, 1));
    }
}

proof fn lemma_first_bytes(bytes: Seq<u8>)
    requires
        bytes.len() >= 3,
    ensures
        base64_url_text(bytes).len() == 4 + base64_url_text(bytes.skip(3)).len(),
        base64_url_text(bytes).skip(4) == base64_url_text(bytes.skip(3)),
        forall|k: int|
            0 <= k < 4 ==> base64_value(#[trigger] base64_url_text(bytes)[k]) is Some,
        forall|i: int|
            0 <= i < 3 ==> #[trigger] bytes[i] == byte_in(base64_url_text(bytes), i),
        base64_value(base64_url_text(bytes)[3])->0 < 64,
{
    let text = base64_url_text(bytes);
    lemma_three_bytes(bytes[0], bytes[1], bytes[2]);
    let n = bytes[0] as nat * 65536 + bytes[1] as nat * 256 + bytes[2] as nat;
    lemma_base64_value(n / 262144);
    lemma_base64_value(n / 4096 % 64);
    lemma_base64_value(n / 64 % 64);
    lemma_base64_value(n % 64);
    assert(text[0] == base64_char(n / 262144) && text[1] == base64_char(n / 4096 % 64) && text[2]
        == base64_char(n / 64 % 64) && text[3] == base64_char(n % 64));
    assert(text.skip(4) =~= base64_url_text(bytes.skip(3)));
    assert(bytes[0] == byte_in(text, 0));
    assert(bytes[1] == byte_in(text, 1));
    assert(bytes[2] == byte_in(text, 2));
}

proof fn lemma_byte_further_on(text: Seq<char>, tail: Seq<char>, i: int)
    requires
        text.len() == tail.len() + 4,
        text.skip(4) == tail,
        i >= 3,
        i / 3 * 4 + i % 3 + 1 < text.len(),
    ensures
        byte_in(text, i) == byte_in(tail, i - 3),
{
    let j = i - 3;
    assert(i / 3 == j / 3 + 1 && i % 3 == j % 3);
    let at = j / 3 * 4;
    let second = at + j % 3;
    assert(text[second + 4] == tail[second]);
    assert(text[second + 5] == tail[second + 1]);
}

/// The byte at a place, read from the bits of a base64url text.
pub open spec fn byte_in(text: Seq<char>, i: int) -> nat {
    let at = i / 3 * 4;
    if i % 3 == 0 {
        base64_value(text[at])->0 * 4 + base64_value(text[at + 1])->0 / 16
    } else if i % 3 == 1 {
        base64_value(text[at + 1])->0 % 16 * 16 + base64_value(text[at + 2])->0 / 4
    } else {
        base64_value(text[at + 2])->0 % 4 * 64 + base64_value(text[at + 3])->0
    }
}

} // verus!
