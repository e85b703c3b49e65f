//! Literal IP addresses and which of them are public.

use crate::text::{
    all_digits, chars_of, decimal_value, is_digit, split_on, split_text, string_of, texts,
};
use vstd::prelude::*;

verus! {

/// A literal IP address.
#[derive(Clone, Copy, Debug)]
pub enum IpLiteral {
    V4([u8; 4]),
    V6([u16; 8]),
}

/// An address as a mathematical value.
pub enum IpView {
    V4(Seq<u8>),
    V6(Seq<u16>),
}

impl View for IpLiteral {
    type V = IpView;

    open spec fn view(&self) -> IpView {
        match self {
            IpLiteral::V4(octets) => IpView::V4(octets@),
            IpLiteral::V6(pieces) => IpView::V6(pieces@),
        }
    }
}

/// One decimal octet: up to three digits without a leading zero.
pub open spec fn octet_value(s: Seq<char>) -> Option<u8> {
    if 1 <= s.len() <= 3 && all_digits(s) && (s.len() == 1 || s[0] != '0') && decimal_value(s)
        <= 255 {
        Some(decimal_value(s) as u8)
    } else {
        None
    }
}

/// Four octets with dots between them.
pub open spec fn v4_value(s: Seq<char>) -> Option<Seq<u8>> {
    let parts = split_on(s, '.');
    if parts.len() == 4 && octet_value(parts[0]) is Some && octet_value(parts[1]) is Some
        && octet_value(parts[2]) is Some && octet_value(parts[3]) is Some {
        Some(
            seq![
                octet_value(parts[0])->0,
                octet_value(parts[1])->0,
                octet_value(parts[2])->0,
                octet_value(parts[3])->0,
            ],
        )
    } else {
        None
    }
}

pub open spec fn hex_digit(c: char) -> Option<u16> {
    if '0' <= c <= '9' {
        Some((c as u32 - 48) as u16)
    } else if 'a' <= c <= 'f' {
        Some((c as u32 - 87) as u16)
    } else if 'A' <= c <= 'F' {
        Some((c as u32 - 55) as u16)
    } else {
        None
    }
}

/// What a run of hexadecimal digits denotes.
pub open spec fn hex_number(s: Seq<char>) -> Option<int>
    decreases s.len(),
{
    if s.len() == 0 {
        Some(0)
    } else {
        match (hex_number(s.drop_last()), hex_digit(s.last())) {
            (Some(front), Some(d)) => Some(front * 16 + d),
            _ => None,
        }
    }
}

/// One group: up to four hexadecimal digits.
pub open spec fn group_value(s: Seq<char>) -> Option<u16> {
    if 1 <= s.len() <= 4 && hex_number(s) is Some {
        Some(hex_number(s)->0 as u16)
    } else {
        None
    }
}

/// A list of groups.
pub open spec fn group_list(parts: Seq<Seq<char>>) -> Option<Seq<u16>>
    decreases parts.len(),
{
    if parts.len() == 0 {
        Some(Seq::empty())
    } else {
        match (group_list(parts.drop_last()), group_value(parts.last())) {
            (Some(front), Some(group)) => Some(front.push(group)),
            _ => None,
        }
    }
}

/// Groups with colons between them; the last two may be written as an IPv4
/// address.
pub open spec fn groups_with_v4(s: Seq<char>) -> Option<Seq<u16>> {
    let parts = split_on(s, ':');
    match v4_value(parts.last()) {
        Some(octets) => match group_list(parts.drop_last()) {
            Some(front) => Some(
                front.push((octets[0] * 256 + octets[1]) as u16).push(
                    (octets[2] * 256 + octets[3]) as u16,
                ),
            ),
            None => None,
        },
        None => group_list(parts),
    }
}

/// Whether two colons stand at `i`.
pub open spec fn double_colon_at(s: Seq<char>, i: int) -> bool {
    0 <= i && i + 1 < s.len() && s[i] == ':' && s[i + 1] == ':'
}

/// An address whose first double colon stands at `cut`: at least one group of
/// zeros fills the gap between what stands before and behind it.
pub open spec fn v6_around(s: Seq<char>, cut: int) -> Option<Seq<u16>> {
    let head = if cut == 0 {
        Some(Seq::empty())
    } else {
        group_list(split_on(s.take(cut), ':'))
    };
    let tail = if cut + 2 == s.len() {
        Some(Seq::empty())
    } else {
        groups_with_v4(s.skip(cut + 2))
    };
    match (head, tail) {
        (Some(front), Some(back)) => if front.len() + back.len() <= 7 {
            Some(front + Seq::new((8 - front.len() - back.len()) as nat, |i: int| 0u16) + back)
        } else {
            None
        },
        _ => None,
    }
}

/// Where the first double colon stands, or the length if there is none.
pub open spec fn first_double_colon(s: Seq<char>, from: int) -> int
    decreases s.len() - from,
{
    if from >= s.len() || double_colon_at(s, from) {
        from
    } else {
        first_double_colon(s, from + 1)
    }
}

/// An IPv6 address.
pub open spec fn v6_value(s: Seq<char>) -> Option<Seq<u16>> {
    let cut = first_double_colon(s, 0);
    if cut < s.len() {
        v6_around(s, cut)
    } else {
        match groups_with_v4(s) {
            Some(groups) => if groups.len() == 8 {
                Some(groups)
            } else {
                None
            },
            None => None,
        }
    }
}

/// The address that a text denotes, if any.
pub open spec fn ip_value(s: Seq<char>) -> Option<IpView> {
    match v4_value(s) {
        Some(octets) => Some(IpView::V4(octets)),
        None => match v6_value(s) {
            Some(pieces) => Some(IpView::V6(pieces)),
            None => None,
        },
    }
}

fn parse_octet(s: &str) -> (r: Option<u8>)
    ensures
        r == octet_value(s@),
{
    let chars = chars_of(s);
    if chars.len() == 0 || chars.len() > 3 {
        return None;
    }
    if chars.len() > 1 && chars[0] == '0' {
        return None;
    }
    let mut value: u32 = 0;
    let mut i: usize = 0;
    assert(s@.take(0) =~= Seq::empty());
    while i < chars.len()
        invariant
            i <= chars@.len() <= 3,
            chars@ == s@,
            value == decimal_value(s@.take(i as int)),
            forall|k: int| 0 <= k < i ==> is_digit(#[trigger] s@[k]),
            i == 0 ==> value == 0,
            i == 1 ==> value <= 9,
            i == 2 ==> value <= 99,
            i == 3 ==> value <= 999,
        decreases chars.len() - i,
    {
        let c = chars[i];
        if !(c >= '0' && c <= '9') {
            assert(!is_digit(s@[i as int]));
            return None;
        }
        assert(s@.take(i as int + 1).drop_last() =~= s@.take(i as int));
        value = value * 10 + (c as u32 - 48);
        i = i + 1;
    }
    assert(s@.take(s@.len() as int) =~= s@);
    if value <= 255 {
        Some(value as u8)
    } else {
        None
    }
}

/// Read an IPv4 address.
pub fn parse_v4(s: &str) -> (r: Option<[u8; 4]>)
    ensures
        match r {
            Some(octets) => v4_value(s@) == Some(octets@),
            None => v4_value(s@) is None,
        },
{
    let parts = split_text(s, '.');
    let ghost pieces = split_on(s@, '.');
    assert(texts(parts@).len() == parts@.len());
    if parts.len() != 4 {
        return None;
    }
    assert(pieces[0] == parts@[0]@ && pieces[1] == parts@[1]@ && pieces[2] == parts@[2]@
        && pieces[3] == parts@[3]@);
    match (
        parse_octet(parts[0].as_str()),
        parse_octet(parts[1].as_str()),
        parse_octet(parts[2].as_str()),
        parse_octet(parts[3].as_str()),
    ) {
        (Some(a), Some(b), Some(c), Some(d)) => {
            let octets: [u8; 4] = [a, b, c, d];
            assert(octets@ =~= seq![a, b, c, d]);
            Some(octets)
        },
        _ => None,
    }
}

fn parse_group(s: &str) -> (r: Option<u16>)
    ensures
        r == group_value(s@),
{
    let chars = chars_of(s);
    if chars.len() == 0 || chars.len() > 4 {
        return None;
    }
    let mut value: u32 = 0;
    let mut i: usize = 0;
    assert(s@.take(0) =~= Seq::empty());
    while i < chars.len()
        invariant
            i <= chars@.len() <= 4,
            chars@ == s@,
            hex_number(s@.take(i as int)) == Some(value as int),
            i == 0 ==> value == 0,
            i == 1 ==> value <= 0xf,
            i == 2 ==> value <= 0xff,
            i == 3 ==> value <= 0xfff,
            i == 4 ==> value <= 0xffff,
        decreases chars.len() - i,
    {
        let c = chars[i];
        let d: u32 = if c >= '0' && c <= '9' {
            c as u32 - 48
        } else if c >= 'a' && c <= 'f' {
            c as u32 - 87
        } else if c >= 'A' && c <= 'F' {
            c as u32 - 55
        } else {
            proof {
                if hex_number(s@) is Some {
                    lemma_hex_prefix(s@, i as int + 1);
                }
                assert(s@.take(i as int + 1).drop_last() =~= s@.take(i as int));
                assert(s@.take(i as int + 1).last() == c);
            }
            return None;
        };
        proof {
            assert(s@.take(i as int + 1).drop_last() =~= s@.take(i as int));
            assert(hex_digit(c) == Some(d as u16));
        }
        value = value * 16 + d;
        i = i + 1;
    }
    assert(s@.take(s@.len() as int) =~= s@);
    Some(value as u16)
}

proof fn lemma_hex_prefix(s: Seq<char>, k: int)
    requires
        0 <= k <= s.len(),
        hex_number(s) is Some,
    ensures
        hex_number(s.take(k)) is Some,
    decreases s.len() - k,
{
    if k == s.len() {
        assert(s.take(k) =~= s);
    } else {
        lemma_hex_prefix(s, k + 1);
        assert(s.take(k + 1).drop_last() =~= s.take(k));
    }
}

proof fn lemma_group_list_prefix(parts: Seq<Seq<char>>, k: int)
    requires
        0 <= k <= parts.len(),
        group_list(parts) is Some,
    ensures
        group_list(parts.take(k)) is Some,
    decreases parts.len() - k,
{
    if k == parts.len() {
        assert(parts.take(k) =~= parts);
    } else {
        lemma_group_list_prefix(parts, k + 1);
        assert(parts.take(k + 1).drop_last() =~= parts.take(k));
    }
}

fn parse_groups(parts: &Vec<String>, count: usize) -> (r: Option<Vec<u16>>)
    requires
        count <= parts@.len(),
    ensures
        match r {
            Some(groups) => group_list(texts(parts@).take(count as int)) == Some(groups@),
            None => group_list(texts(parts@).take(count as int)) is None,
        },
{
    let ghost all = texts(parts@);
    let mut out: Vec<u16> = Vec::new();
    let mut i: usize = 0;
    assert(all.take(0) =~= Seq::empty());
    assert(out@ =~= Seq::empty());
    while i < count
        invariant
            i <= count <= parts@.len(),
            all == texts(parts@),
            group_list(all.take(i as int)) == Some(out@),
        decreases count - i,
    {
        proof {
            assert(all.take(i as int + 1).drop_last() =~= all.take(i as int));
            assert(all.take(i as int + 1).last() == parts@[i as int]@);
        }
        match parse_group(parts[i].as_str()) {
            Some(group) => out.push(group),
            None => {
                proof {
                    if group_list(all.take(count as int)) is Some {
                        lemma_group_list_prefix(all.take(count as int), i as int + 1);
                        assert(all.take(count as int).take(i as int + 1) =~= all.take(
                            i as int + 1,
                        ));
                    }
                }
                return None;
            },
        }
        i = i + 1;
    }
    Some(out)
}

fn parse_groups_with_v4(s: &str) -> (r: Option<Vec<u16>>)
    ensures
        match r {
            Some(groups) => groups_with_v4(s@) == Some(groups@),
            None => groups_with_v4(s@) is None,
        },
{
    let parts = split_text(s, ':');
    let ghost all = split_on(s@, ':');
    assert(texts(parts@).len() == parts@.len());
    let last: usize = parts.len() - 1;
    assert(all.last() == parts@[last as int]@);
    assert(all.take(last as int) =~= all.drop_last());
    assert(all.take(parts@.len() as int) =~= all);
    match parse_v4(parts[last].as_str()) {
        Some(octets) => match parse_groups(&parts, last) {
            Some(front) => {
                let mut groups = front;
                groups.push((octets[0] as u16) * 256 + octets[1] as u16);
                groups.push((octets[2] as u16) * 256 + octets[3] as u16);
                Some(groups)
            },
            None => None,
        },
        None => parse_groups(&parts, parts.len()),
    }
}

fn eight(groups: &Vec<u16>) -> (r: [u16; 8])
    requires
        groups@.len() == 8,
    ensures
        r@ == groups@,
{
    let pieces: [u16; 8] = [
        groups[0],
        groups[1],
        groups[2],
        groups[3],
        groups[4],
        groups[5],
        groups[6],
        groups[7],
    ];
    assert(pieces@ =~= groups@);
    pieces
}

/// Read an IPv6 address.
pub fn parse_v6(s: &str) -> (r: Option<[u16; 8]>)
    ensures
        match r {
            Some(pieces) => v6_value(s@) == Some(pieces@),
            None => v6_value(s@) is None,
        },
{
    let chars = chars_of(s);
    let mut cut: usize = 0;
    while cut < chars.len() && !(cut + 1 < chars.len() && chars[cut] == ':' && chars[cut + 1]
        == ':')
        invariant
            cut <= chars@.len(),
            chars@ == s@,
            first_double_colon(s@, 0) == first_double_colon(s@, cut as int),
        decreases chars.len() - cut,
    {
        cut = cut + 1;
    }
    if cut == chars.len() {
        return match parse_groups_with_v4(s) {
            Some(groups) => if groups.len() == 8 {
                Some(eight(&groups))
            } else {
                None
            },
            None => None,
        };
    }
    assert(first_double_colon(s@, 0) == cut);
    let head = if cut == 0 {
        Vec::new()
    } else {
        let text = string_of(&chars, 0, cut);
        assert(s@.subrange(0, cut as int) =~= s@.take(cut as int));
        let parts = split_text(text.as_str(), ':');
        assert(texts(parts@).take(parts@.len() as int) =~= texts(parts@));
        match parse_groups(&parts, parts.len()) {
            Some(groups) => groups,
            None => {
                return None;
            },
        }
    };
    let tail = if cut + 2 == chars.len() {
        Vec::new()
    } else {
        let text = string_of(&chars, cut + 2, chars.len());
        assert(s@.subrange(cut + 2, s@.len() as int) =~= s@.skip(cut + 2));
        match parse_groups_with_v4(text.as_str()) {
            Some(groups) => groups,
            None => {
                return None;
            },
        }
    };
    if head.len() > 7 || tail.len() > 7 - head.len() {
        return None;
    }
    let ghost front = head@;
    let ghost back = tail@;
    let mut groups: Vec<u16> = head;
    let fill: usize = 8 - groups.len() - tail.len();
    let mut i: usize = 0;
    while i < fill
        invariant
            i <= fill,
            groups@ == front + Seq::new(i as nat, |k: int| 0u16),
        decreases fill - i,
    {
        groups.push(0);
        i = i + 1;
        assert(groups@ =~= front + Seq::new(i as nat, |k: int| 0u16));
    }
    let mut j: usize = 0;
    while j < tail.len()
        invariant
            j <= tail@.len(),
            tail@ == back,
            groups@ == front + Seq::new(fill as nat, |k: int| 0u16) + back.take(j as int),
        decreases tail.len() - j,
    {
        groups.push(tail[j]);
        j = j + 1;
        assert(groups@ =~= front + Seq::new(fill as nat, |k: int| 0u16) + back.take(j as int));
    }
    assert(back.take(back.len() as int) =~= back);
    Some(eight(&groups))
}

/// Read a literal IP address.
pub fn parse_ip(s: &str) -> (r: Option<IpLiteral>)
    ensures
        match r {
            Some(ip) => ip_value(s@) == Some(ip@),
            None => ip_value(s@) is None,
        },
{
    match parse_v4(s) {
        Some(octets) => Some(IpLiteral::V4(octets)),
        None => match parse_v6(s) {
            Some(pieces) => Some(IpLiteral::V6(pieces)),
            None => None,
        },
    }
}

/// IPv4 addresses that must not be called from here: every range that is
/// private, local, reserved, for documentation, for benchmarks or for groups.
pub open spec fn is_private_v4(o: Seq<u8>) -> bool {
    let (a, b, c, d) = (o[0], o[1], o[2], o[3]);
    ||| a == 0
    ||| a == 10
    ||| a == 172 && 16 <= b <= 31
    ||| a == 192 && b == 168
    ||| a == 127
    ||| a == 169 && b == 254
    ||| a == 198 && b == 51 && c == 100
    ||| a == 203 && b == 0 && c == 113
    ||| a >= 224
    ||| a == 100 && 64 <= b <= 127
    ||| a == 192 && b == 0
    ||| a == 198 && (b == 18 || b == 19)
}

/// IPv6 addresses from the range for public unicast, without tunnels,
/// documentation and benchmarks.
pub open spec fn is_public_v6(p: Seq<u16>) -> bool {
    &&& 0x2000 <= p[0] <= 0x3fff
    &&& p[0] != 0x2002
    &&& !(p[0] == 0x2001 && (p[1] == 0 || p[1] == 0x0db8 || p[1] == 2))
}

/// Addresses that a webhook may be sent to.
pub open spec fn is_public_ip(ip: IpView) -> bool {
    match ip {
        IpView::V4(octets) => !is_private_v4(octets),
        IpView::V6(pieces) => is_public_v6(pieces),
    }
}

pub open spec fn is_loopback_ip(ip: IpView) -> bool {
    match ip {
        IpView::V4(octets) => octets[0] == 127,
        IpView::V6(pieces) => pieces == seq![0u16, 0, 0, 0, 0, 0, 0, 1],
    }
}

pub fn private_ipv4(octets: &[u8; 4]) -> (r: bool)
    ensures
        r == is_private_v4(octets@),
{
    let a: u8 = octets[0];
    let b: u8 = octets[1];
    let c: u8 = octets[2];
    a == 0 || a == 10 || (a == 172 && b >= 16 && b <= 31) || (a == 192 && b == 168) || a == 127 || (
    a == 169 && b == 254) || (a == 198 && b == 51 && c == 100) || (a == 203 && b == 0 && c == 113)
        || a >= 224 || (a == 100 && b >= 64 && b <= 127) || (a == 192 && b == 0) || (a == 198 && (b
        == 18 || b == 19))
}

pub fn public_ipv6(pieces: &[u16; 8]) -> (r: bool)
    ensures
        r == is_public_v6(pieces@),
{
    let first: u16 = pieces[0];
    let second: u16 = pieces[1];
    first >= 0x2000 && first <= 0x3fff && first != 0x2002 && !(first == 0x2001 && (second == 0
        || second == 0x0db8 || second == 2))
}

/// Whether a webhook may be sent to an address.
pub fn public_webhook_ip(ip: &IpLiteral) -> (r: bool)
    ensures
        r == is_public_ip(ip@),
{
    match ip {
        IpLiteral::V4(octets) => !private_ipv4(octets),
        IpLiteral::V6(pieces) => public_ipv6(pieces),
    }
}

pub fn loopback_ip(ip: &IpLiteral) -> (r: bool)
    ensures
        r == is_loopback_ip(ip@),
{
    match ip {
        IpLiteral::V4(octets) => octets[0] == 127,
        IpLiteral::V6(pieces) => {
            let r = pieces[0] == 0 && pieces[1] == 0 && pieces[2] == 0 && pieces[3] == 0
                && pieces[4] == 0 && pieces[5] == 0 && pieces[6] == 0 && pieces[7] == 1;
            proof {
                if r {
                    assert(pieces@ =~= seq![0u16, 0, 0, 0, 0, 0, 0, 1]);
                }
            }
            r
        },
    }
}

/// No loopback address is public.
pub proof fn law_loopback_is_never_public(ip: IpView)
    requires
        is_loopback_ip(ip),
    ensures
        !is_public_ip(ip),
{
}

/// Four octets as they are written.
pub open spec fn v4_text(a: u8, b: u8, c: u8, d: u8) -> Seq<char> {
    crate::text::join_with(
        seq![
            crate::text::decimal(a as nat),
            crate::text::decimal(b as nat),
            crate::text::decimal(c as nat),
            crate::text::decimal(d as nat),
        ],
        '.',
    )
}

/// Every IPv4 address is read from the one text that is written for it, and from
/// no other.
pub proof fn law_v4_is_read_as_written(s: Seq<char>, a: u8, b: u8, c: u8, d: u8)
    ensures
        v4_value(s) == Some(seq![a, b, c, d]) <==> s == v4_text(a, b, c, d),
{
    let parts = seq![
        crate::text::decimal(a as nat),
        crate::text::decimal(b as nat),
        crate::text::decimal(c as nat),
        crate::text::decimal(d as nat),
    ];
    lemma_octet_written(a);
    lemma_octet_written(b);
    lemma_octet_written(c);
    lemma_octet_written(d);
    crate::text::lemma_split_absent(parts[0], '.');
    crate::text::lemma_split_absent(parts[1], '.');
    crate::text::lemma_split_absent(parts[2], '.');
    crate::text::lemma_split_absent(parts[3], '.');
    crate::text::lemma_split_concat(parts[0], '.', parts[1]);
    let two = parts[0].push('.') + parts[1];
    crate::text::lemma_split_concat(two, '.', parts[2]);
    let three = two.push('.') + parts[2];
    crate::text::lemma_split_concat(three, '.', parts[3]);
    let four = three.push('.') + parts[3];
    assert(split_on(four, '.') =~= parts);
    reveal_with_fuel(crate::text::join_with, 4);
    assert(parts.drop_last() =~= seq![parts[0], parts[1], parts[2]]);
    assert(parts.drop_last().drop_last() =~= seq![parts[0], parts[1]]);
    assert(parts.drop_last().drop_last().drop_last() =~= seq![parts[0]]);
    assert(v4_text(a, b, c, d) == four);
    if v4_value(s) == Some(seq![a, b, c, d]) {
        let pieces = split_on(s, '.');
        let octets = seq![
            octet_value(pieces[0])->0,
            octet_value(pieces[1])->0,
            octet_value(pieces[2])->0,
            octet_value(pieces[3])->0,
        ];
        let wanted = seq![a, b, c, d];
        assert(octets == wanted);
        assert(octets[0] == a && octets[1] == b && octets[2] == c && octets[3] == d);
        assert(wanted[0] == a && wanted[1] == b && wanted[2] == c && wanted[3] == d);
        lemma_octet_read(pieces[0]);
        lemma_octet_read(pieces[1]);
        lemma_octet_read(pieces[2]);
        lemma_octet_read(pieces[3]);
        assert(pieces =~= parts);
        crate::text::law_join_undoes_split(s, '.');
    }
}

proof fn lemma_octet_written(v: u8)
    ensures
        octet_value(crate::text::decimal(v as nat)) == Some(v),
        !crate::text::decimal(v as nat).contains('.'),
{
    let s = crate::text::decimal(v as nat);
    crate::text::lemma_decimal_value(v as nat);
    reveal_with_fuel(crate::text::decimal, 3);
    if v >= 100 {
        assert(s[0] == crate::text::digit_char(v as nat / 10 / 10));
    } else if v >= 10 {
        assert(s[0] == crate::text::digit_char(v as nat / 10));
    }
    if s.contains('.') {
        let k = choose|k: int| 0 <= k < s.len() && s[k] == '.';
        assert(is_digit(s[k]));
    }
}

proof fn lemma_octet_read(s: Seq<char>)
    requires
        octet_value(s) is Some,
    ensures
        s == crate::text::decimal(octet_value(s)->0 as nat),
{
    lemma_canonical_digits(s);
}

proof fn lemma_canonical_digits(s: Seq<char>)
    requires
        s.len() >= 1,
        all_digits(s),
        s.len() == 1 || s[0] != '0',
    ensures
        crate::text::decimal(decimal_value(s)) == s,
        s[0] != '0' ==> decimal_value(s) >= 1,
        s.len() > 1 ==> decimal_value(s) >= 10,
    decreases s.len(),
{
    let front = s.drop_last();
    assert(is_digit(s[s.len() - 1]));
    assert(is_digit(s[0]));
    let last = crate::text::digit_value(s.last());
    assert(crate::text::digit_char(last) == s.last());
    if s.len() == 1 {
        assert(decimal_value(front) == 0);
        assert(crate::text::decimal(decimal_value(s)) =~= s);
    } else {
        assert forall|i: int| 0 <= i < front.len() implies is_digit(#[trigger] front[i]) by {
            assert(front[i] == s[i]);
        }
        lemma_canonical_digits(front);
        let n = decimal_value(s);
        assert(n / 10 == decimal_value(front) && n % 10 == last);
        assert(crate::text::decimal(n) =~= s);
    }
}

/// An IPv6 address has eight groups.
pub proof fn law_v6_has_eight_groups(s: Seq<char>)
    ensures
        v6_value(s) matches Some(groups) ==> groups.len() == 8,
        !s.contains(':') ==> v6_value(s) is None,
{
    if !s.contains(':') {
        crate::text::lemma_split_absent(s, ':');
        lemma_first_double_colon(s, 0);
        let parts = split_on(s, ':');
        assert(parts.drop_last() =~= Seq::empty());
        reveal_with_fuel(group_list, 2);
    }
}

proof fn lemma_first_double_colon(s: Seq<char>, from: int)
    requires
        0 <= from <= s.len(),
        !s.contains(':'),
    ensures
        first_double_colon(s, from) == s.len(),
    decreases s.len() - from,
{
    if from < s.len() {
        assert(s.contains(s[from]));
        lemma_first_double_colon(s, from + 1);
    }
}

} // verus!
