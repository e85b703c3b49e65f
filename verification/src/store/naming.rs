//! File names, lanes and media types.

use crate::text::{
    ascii_lower, chars_of, child_path, decimal, joined, path_in, push_decimal, same_text, split_on,
    split_text, to_ascii_lower, trim_space, trimmed,
};
use vstd::prelude::*;

verus! {

/// The most characters that a path contributes to a file name.
pub const MAX_ENCODED_PATH: usize = 120;

pub const FNV_OFFSET_BASIS: u64 = 0xcbf2_9ce4_8422_2325;

pub const FNV_PRIME: u64 = 0x100_0000_01b3;

/// The media type of a Content-Type value: what stands before the first
/// semicolon, without surrounding space, in small letters.
pub open spec fn media_type_of(ct: Seq<char>) -> Seq<char> {
    ascii_lower(trim_space(split_on(ct, ';')[0]))
}

/// The media type of a Content-Type value.
pub fn media_type(ct: &str) -> (r: String)
    ensures
        r@ == media_type_of(ct@),
{
    let parts = split_text(ct, ';');
    assert(crate::text::texts(parts@)[0] == parts@[0]@);
    let bare = trimmed(parts[0].as_str());
    to_ascii_lower(bare.as_str())
}

/// Whether a Content-Type value names JSON.
pub fn is_json_content_type(ct: &str) -> (r: bool)
    ensures
        r == (media_type_of(ct@) == "application/json"@),
{
    let media = media_type(ct);
    same_text(media.as_str(), "application/json")
}

/// Characters that a file name takes over from a path.
pub open spec fn is_plain(c: char) -> bool {
    ||| 'a' <= c <= 'z'
    ||| 'A' <= c <= 'Z'
    ||| '0' <= c <= '9'
    ||| c == '-'
    ||| c == '_'
    ||| c == '.'
}

pub open spec fn encoded_char(c: char) -> char {
    if is_plain(c) {
        c
    } else {
        '+'
    }
}

/// The part of a file name that stands for a path.
pub open spec fn encoded_path(path: Seq<char>) -> Seq<char> {
    let all = path.map_values(|c: char| encoded_char(c));
    if all.len() > MAX_ENCODED_PATH {
        all.take(MAX_ENCODED_PATH as int)
    } else {
        all
    }
}

/// The part of a file name that stands for a path: plain characters stay,
/// every other one becomes a plus sign, and long names are cut.
pub fn encode_path(path: &str) -> (r: String)
    ensures
        r@ == encoded_path(path@),
{
    let chars = chars_of(path);
    let mut out = String::new();
    let mut i: usize = 0;
    let ghost all = path@.map_values(|c: char| encoded_char(c));
    while i < chars.len() && i < MAX_ENCODED_PATH
        invariant
            i <= chars@.len(),
            i <= MAX_ENCODED_PATH,
            chars@ == path@,
            all == path@.map_values(|c: char| encoded_char(c)),
            out@ == all.take(i as int),
        decreases chars.len() - i,
    {
        let c = chars[i];
        if (c >= 'a' && c <= 'z') || (c >= 'A' && c <= 'Z') || (c >= '0' && c <= '9') || c == '-'
            || c == '_' || c == '.' {
            out.push(c);
        } else {
            out.push('+');
        }
        i = i + 1;
        assert(out@ =~= all.take(i as int));
    }
    assert(out@ =~= encoded_path(path@));
    out
}

/// Whatever the path, its part of the file name is short and plain, so it can
/// never leave its directory.
pub proof fn law_encoded_path_is_safe(path: Seq<char>)
    ensures
        encoded_path(path).len() <= MAX_ENCODED_PATH,
        forall|i: int|
            0 <= i < encoded_path(path).len() ==> is_plain(#[trigger] encoded_path(path)[i])
                || encoded_path(path)[i] == '+',
        !encoded_path(path).contains('/'),
{
    let all = path.map_values(|c: char| encoded_char(c));
    let out = encoded_path(path);
    assert forall|i: int| 0 <= i < out.len() implies is_plain(#[trigger] out[i]) || out[i]
        == '+' by {
        assert(out[i] == all[i]);
        assert(all[i] == encoded_char(path[i]));
    }
}

/// Where files of the store go: how many lanes there are and how much of each
/// stream's tail stays in memory.
#[derive(Clone, Copy, Debug, PartialEq, Eq, Structural)]
pub struct StoreSettings {
    stream_lanes: usize,
    tail_cache_bytes: usize,
}

/// How many bytes of a stream's tail stay resident by default on macOS, where
/// files cannot be sent without copying them. Elsewhere none do.
pub const MACOS_TAIL_CACHE_BYTES: usize = 65_536;

impl StoreSettings {
    /// The settings to start from: one lane, and a resident tail only on macOS,
    /// where reads are served from it.
    pub fn default_for(macos: bool) -> (r: StoreSettings)
        ensures
            r.lanes() == 1,
            r.tail_cap() == (if macos {
                65_536usize
            } else {
                0
            }),
    {
        StoreSettings {
            stream_lanes: 1,
            tail_cache_bytes: if macos {
                MACOS_TAIL_CACHE_BYTES
            } else {
                0
            },
        }
    }

    pub closed spec fn lanes(self) -> usize {
        self.stream_lanes
    }

    pub closed spec fn tail_cap(self) -> usize {
        self.tail_cache_bytes
    }

    /// Set the number of lanes; there is always one.
    pub fn set_stream_lanes(&mut self, n: usize)
        ensures
            final(self).lanes() == (if n == 0 {
                1
            } else {
                n
            }),
            final(self).tail_cap() == old(self).tail_cap(),
    {
        self.stream_lanes = if n == 0 {
            1
        } else {
            n
        };
    }

    pub fn stream_lanes(&self) -> (r: usize)
        ensures
            r == self.lanes(),
    {
        self.stream_lanes
    }

    /// Set how many bytes of a stream's tail stay resident; zero for none.
    pub fn set_tail_cache_bytes(&mut self, n: usize)
        ensures
            final(self).tail_cap() == n,
            final(self).lanes() == old(self).lanes(),
    {
        self.tail_cache_bytes = n;
    }

    pub fn tail_cache_bytes(&self) -> (r: usize)
        ensures
            r == self.tail_cap(),
    {
        self.tail_cache_bytes
    }
}

/// The FNV-1a hash of a byte sequence.
pub open spec fn fnv1a(bytes: Seq<u8>) -> u64
    decreases bytes.len(),
{
    if bytes.len() == 0 {
        FNV_OFFSET_BASIS
    } else {
        ((fnv1a(bytes.drop_last()) ^ (bytes.last() as u64)) as nat * FNV_PRIME as nat
            % 0x1_0000_0000_0000_0000) as u64
    }
}

/// The lane of a file name.
pub open spec fn lane_for(name: Seq<char>, lanes: usize) -> int {
    if lanes <= 1 {
        0
    } else {
        fnv1a(vstd::utf8::encode_utf8(name)) as int % lanes as int
    }
}

/// The lane of a stream's data file. It depends on the file name alone, so it
/// is the same after every restart with the same number of lanes.
pub fn lane_of(fname: &str, settings: &StoreSettings) -> (r: usize)
    ensures
        r == lane_for(fname@, settings.lanes()),
{
    let lanes = settings.stream_lanes();
    if lanes <= 1 {
        return 0;
    }
    let bytes = fname.as_bytes();
    let mut h: u64 = FNV_OFFSET_BASIS;
    let mut i: usize = 0;
    assert(bytes@.take(0) =~= Seq::empty());
    while i < bytes.len()
        invariant
            i <= bytes@.len(),
            h == fnv1a(bytes@.take(i as int)),
        decreases bytes.len() - i,
    {
        let mixed: u64 = h ^ (bytes[i] as u64);
        proof {
            assert(bytes@.take(i as int + 1).drop_last() =~= bytes@.take(i as int));
        }
        h = mixed.wrapping_mul(FNV_PRIME);
        i = i + 1;
    }
    assert(bytes@.take(bytes@.len() as int) =~= bytes@);
    (h % lanes as u64) as usize
}

/// A lane number always names one of the lanes.
pub proof fn law_lane_is_in_range(name: Seq<char>, lanes: usize)
    requires
        lanes >= 1,
    ensures
        0 <= lane_for(name, lanes) < lanes,
{
}

/// The directory of lane `lane` under the data directory.
pub open spec fn lane_dir_of(data_dir: Seq<char>, lane: int, lanes: usize) -> Seq<char> {
    let root = path_in(data_dir, "streams"@);
    if lanes <= 1 {
        root
    } else {
        path_in(root, decimal(lane as nat))
    }
}

/// The directory of a lane: the flat `streams` directory with one lane, a
/// numbered directory below it with more.
pub fn lane_dir(data_dir: &str, lane: usize, settings: &StoreSettings) -> (r: String)
    ensures
        r@ == lane_dir_of(data_dir@, lane as int, settings.lanes()),
{
    let root = child_path(data_dir, "streams");
    if settings.stream_lanes() > 1 {
        let mut number = String::new();
        push_decimal(&mut number, lane as u64);
        assert(number@ =~= decimal(lane as nat));
        child_path(root.as_str(), number.as_str())
    } else {
        root
    }
}

/// The sidecar of a data file.
pub fn meta_path(file_path: &str) -> (r: String)
    ensures
        r@ == file_path@ + ".meta"@,
{
    joined(file_path, ".meta")
}

/// The entity tag of a byte range of a stream.
pub open spec fn etag_text(id: u64, start: u64, end: u64, closed: bool) -> Seq<char> {
    let range = "\""@ + decimal(id as nat) + ":"@ + decimal(start as nat) + ":"@ + decimal(
        end as nat,
    );
    if closed {
        range + ":c\""@
    } else {
        range + "\""@
    }
}

/// The entity tag of a byte range, marked when the stream ends there.
pub fn etag(id: u64, start: u64, end: u64, closed: bool) -> (r: String)
    ensures
        r@ == etag_text(id, start, end, closed),
{
    let mut out = "\"".to_owned();
    push_decimal(&mut out, id);
    out.append(":");
    push_decimal(&mut out, start);
    out.append(":");
    push_decimal(&mut out, end);
    if closed {
        out.append(":c\"");
    } else {
        out.append("\"");
    }
    out
}

/// Parameters and what stands behind them do not change a media type, and its
/// letters are small.
pub proof fn law_media_type_ignores_parameters(ct: Seq<char>, rest: Seq<char>)
    requires
        !ct.contains(';'),
    ensures
        media_type_of(ct.push(';') + rest) == media_type_of(ct),
        media_type_of(ct) == ascii_lower(trim_space(ct)),
        forall|i: int|
            0 <= i < media_type_of(ct).len() ==> !('A' <= #[trigger] media_type_of(ct)[i] <= 'Z'),
{
    crate::text::lemma_split_concat(ct, ';', rest);
    crate::text::lemma_split_absent(ct, ';');
    assert(split_on(ct, ';') == seq![ct]);
    let plain = trim_space(ct);
    assert forall|i: int| 0 <= i < media_type_of(ct).len() implies !('A'
        <= #[trigger] media_type_of(ct)[i] <= 'Z') by {
        assert(media_type_of(ct)[i] == crate::text::lower_char(plain[i]));
    }
}

/// A tag names one range of one stream: tags of different streams, of different
/// ranges, or of an open and a closed end are never the same.
pub proof fn law_tags_tell_ranges_apart(
    id: u64,
    start: u64,
    end: u64,
    closed: bool,
    other_id: u64,
    other_start: u64,
    other_end: u64,
    other_closed: bool,
)
    requires
        etag_text(id, start, end, closed) == etag_text(
            other_id,
            other_start,
            other_end,
            other_closed,
        ),
    ensures
        id == other_id,
        start == other_start,
        end == other_end,
        closed == other_closed,
{
    lemma_tag_parts(id, start, end, closed);
    lemma_tag_parts(other_id, other_start, other_end, other_closed);
    let parts = split_on(etag_text(id, start, end, closed), ':');
    reveal_strlit("\"");
    let a = "\""@ + decimal(id as nat);
    let b = "\""@ + decimal(other_id as nat);
    assert(parts[0] == a && parts[0] == b);
    assert(a.skip(1) =~= decimal(id as nat));
    assert(b.skip(1) =~= decimal(other_id as nat));
    crate::text::lemma_parse_decimal(id);
    crate::text::lemma_parse_decimal(other_id);
    assert(parts[1] == decimal(start as nat) && parts[1] == decimal(other_start as nat));
    crate::text::lemma_parse_decimal(start);
    crate::text::lemma_parse_decimal(other_start);
    assert(closed == other_closed);
    crate::text::lemma_parse_decimal(end);
    crate::text::lemma_parse_decimal(other_end);
    if !closed {
        let c = decimal(end as nat) + "\""@;
        let d = decimal(other_end as nat) + "\""@;
        assert(parts[2] == c && parts[2] == d);
        assert(c.drop_last() =~= decimal(end as nat));
        assert(d.drop_last() =~= decimal(other_end as nat));
    } else {
        assert(parts[2] == decimal(end as nat) && parts[2] == decimal(other_end as nat));
    }
}

proof fn lemma_tag_parts(id: u64, start: u64, end: u64, closed: bool)
    ensures
        split_on(etag_text(id, start, end, closed), ':') == (if closed {
            seq![
                "\""@ + decimal(id as nat),
                decimal(start as nat),
                decimal(end as nat),
                "c\""@,
            ]
        } else {
            seq![
                "\""@ + decimal(id as nat),
                decimal(start as nat),
                decimal(end as nat) + "\""@,
            ]
        }),
{
    reveal_strlit("\"");
    reveal_strlit(":");
    reveal_strlit(":c\"");
    reveal_strlit("c\"");
    let a = "\""@ + decimal(id as nat);
    let b = decimal(start as nat);
    let c = decimal(end as nat);
    lemma_no_colon(id);
    lemma_no_colon(start);
    lemma_no_colon(end);
    assert(!a.contains(':')) by {
        if a.contains(':') {
            let i = choose|i: int| 0 <= i < a.len() && a[i] == ':';
            assert(i >= 1);
            assert(decimal(id as nat)[i - 1] == ':');
        }
    }
    crate::text::lemma_split_absent(a, ':');
    crate::text::lemma_split_absent(b, ':');
    crate::text::lemma_split_absent(c, ':');
    let text = etag_text(id, start, end, closed);
    if closed {
        let d = "c\""@;
        assert(!d.contains(':'));
        crate::text::lemma_split_absent(d, ':');
        crate::text::lemma_split_concat(c, ':', d);
        crate::text::lemma_split_concat(b, ':', c.push(':') + d);
        crate::text::lemma_split_concat(a, ':', b.push(':') + (c.push(':') + d));
        assert(text =~= a.push(':') + (b.push(':') + (c.push(':') + d)));
        assert(split_on(text, ':') =~= seq![a, b, c, d]);
    } else {
        let e = c + "\""@;
        assert(!e.contains(':')) by {
            if e.contains(':') {
                let i = choose|i: int| 0 <= i < e.len() && e[i] == ':';
                assert(i < c.len());
                assert(c[i] == ':');
            }
        }
        crate::text::lemma_split_absent(e, ':');
        crate::text::lemma_split_concat(b, ':', e);
        crate::text::lemma_split_concat(a, ':', b.push(':') + e);
        assert(text =~= a.push(':') + (b.push(':') + e));
        assert(split_on(text, ':') =~= seq![a, b, e]);
    }
}

proof fn lemma_no_colon(n: u64)
    ensures
        !decimal(n as nat).contains(':'),
{
    crate::text::lemma_decimal_value(n as nat);
    let s = decimal(n as nat);
    if s.contains(':') {
        let i = choose|i: int| 0 <= i < s.len() && s[i] == ':';
        assert(crate::text::is_digit(s[i]));
    }
}

/// Plain characters of a path stay as they are in its file name, up to the most
/// that a name takes, and every other one is a plus sign.
pub proof fn law_plain_characters_stay(path: Seq<char>, i: int)
    requires
        0 <= i < path.len(),
        i < MAX_ENCODED_PATH,
    ensures
        i < encoded_path(path).len(),
        is_plain(path[i]) ==> encoded_path(path)[i] == path[i],
        !is_plain(path[i]) ==> encoded_path(path)[i] == '+',
        path.len() <= MAX_ENCODED_PATH ==> encoded_path(path).len() == path.len(),
{
    let all = path.map_values(|c: char| encoded_char(c));
    assert(all[i] == encoded_char(path[i]));
}

/// One lane is the directory of the streams itself; of several, each has a
/// directory of its own below it.
pub proof fn law_lanes_have_directories_of_their_own(
    data_dir: Seq<char>,
    lane: u64,
    other: u64,
    lanes: usize,
)
    ensures
        lanes <= 1 ==> lane_dir_of(data_dir, lane as int, lanes) == path_in(data_dir, "streams"@),
        lanes > 1 ==> lane_dir_of(data_dir, lane as int, lanes) == path_in(
            path_in(data_dir, "streams"@),
            decimal(lane as nat),
        ),
        lanes > 1 && decimal(lane as nat) == decimal(other as nat) ==> lane == other,
{
    crate::text::lemma_parse_decimal(lane);
    crate::text::lemma_parse_decimal(other);
}

/// The lane of a name is the hash of its bytes, each mixed in after the ones
/// before it, counted round the lanes.
pub proof fn law_lane_follows_the_hash(name: Seq<char>, bytes: Seq<u8>, byte: u8, lanes: usize)
    ensures
        lanes > 1 ==> lane_for(name, lanes) == fnv1a(vstd::utf8::encode_utf8(name)) % (
        lanes as u64),
        lanes <= 1 ==> lane_for(name, lanes) == 0,
        fnv1a(Seq::empty()) == 0xcbf2_9ce4_8422_2325,
        fnv1a(bytes.push(byte)) == ((fnv1a(bytes) ^ (byte as u64)) as nat * 0x100_0000_01b3nat)
            % 0x1_0000_0000_0000_0000,
{
    assert(bytes.push(byte).drop_last() =~= bytes);
}

} // verus!
