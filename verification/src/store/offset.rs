//! Offsets as clients see them, and the cursor that spreads long polls.

use crate::text::{
    all_digits, chars_of, decimal, decimal_value, digit_value, is_digit, lemma_decimal_value,
    push_decimal, text_before,
};
use vstd::prelude::*;

verus! {

pub const MAX_SAFE_INT: u64 = 9_007_199_254_740_991;

/// The read sequence that every offset carries in front.
pub const READ_SEQ: u64 = 0;

/// Seconds between the Unix epoch and the first cursor interval.
pub const CURSOR_EPOCH_UNIX: u64 = 1_728_432_000;

pub const CURSOR_INTERVAL_SECS: u64 = 20;

/// How many intervals a cursor may jump ahead at most.
pub const CURSOR_JITTER_INTERVALS: u64 = 180;

/// The first number that no longer fits in sixteen digits.
pub const OFFSET_LIMIT: u64 = 10_000_000_000_000_000;

/// `s` with zeros in front up to `width` characters.
pub open spec fn zero_padded(s: Seq<char>, width: nat) -> Seq<char> {
    if s.len() >= width {
        s
    } else {
        Seq::new((width - s.len()) as nat, |i: int| '0') + s
    }
}

/// The offset text of a byte position.
pub open spec fn offset_text(bytes: u64) -> Seq<char> {
    zero_padded(decimal(READ_SEQ as nat), 16).push('_') + zero_padded(decimal(bytes as nat), 16)
}

/// Two groups of sixteen digits with an underscore between them.
pub open spec fn is_offset_literal(s: Seq<char>) -> bool {
    &&& s.len() == 33
    &&& all_digits(s.take(16))
    &&& s[16] == '_'
    &&& all_digits(s.skip(17))
}

/// A position that a client asks to read from.
#[derive(Clone, Copy, Debug, PartialEq, Eq, Structural)]
pub enum ParsedOffset {
    Start,
    Now,
    At(u64),
}

/// What an offset parameter denotes, if anything.
pub open spec fn offset_denotes(raw: Option<Seq<char>>) -> Option<ParsedOffset> {
    match raw {
        None => Some(ParsedOffset::Start),
        Some(s) => if s == "-1"@ {
            Some(ParsedOffset::Start)
        } else if s == "now"@ {
            Some(ParsedOffset::Now)
        } else if is_offset_literal(s) {
            Some(ParsedOffset::At(decimal_value(s.skip(17)) as u64))
        } else {
            None
        },
    }
}

/// The digits before the last `k` are the number divided by a power of ten, so
/// sixteen digits stay under the limit.
proof fn lemma_value_bound(s: Seq<char>)
    requires
        all_digits(s),
    ensures
        s.len() <= 16 ==> decimal_value(s) < vstd::arithmetic::power::pow(10, s.len()),
    decreases s.len(),
{
    vstd::arithmetic::power::lemma_pow_positive(10, s.len());
    if s.len() > 0 {
        let shorter = s.drop_last();
        assert forall|i: int| 0 <= i < shorter.len() implies is_digit(#[trigger] shorter[i]) by {
            assert(shorter[i] == s[i]);
        }
        lemma_value_bound(shorter);
        assert(is_digit(s[s.len() - 1]));
        reveal(vstd::arithmetic::power::pow);
        assert(vstd::arithmetic::power::pow(10, s.len()) == 10 * vstd::arithmetic::power::pow(
            10,
            shorter.len(),
        ));
    } else {
        reveal(vstd::arithmetic::power::pow);
    }
}

proof fn lemma_pow_16()
    ensures
        vstd::arithmetic::power::pow(10, 16) == OFFSET_LIMIT,
{
    reveal_with_fuel(vstd::arithmetic::power::pow, 17);
}

proof fn lemma_decimal_len(n: nat, k: nat)
    requires
        n < vstd::arithmetic::power::pow(10, k),
        k >= 1,
    ensures
        decimal(n).len() <= k,
    decreases n,
{
    reveal(vstd::arithmetic::power::pow);
    if n >= 10 {
        assert(k >= 2) by {
            if k == 1 {
                reveal_with_fuel(vstd::arithmetic::power::pow, 2);
            }
        }
        let p = vstd::arithmetic::power::pow(10, (k - 1) as nat);
        assert(vstd::arithmetic::power::pow(10, k) == 10 * p);
        assert(n / 10 < p);
        lemma_decimal_len(n / 10, (k - 1) as nat);
    }
}

/// Leading zeros do not change the value.
pub proof fn lemma_padded_value(s: Seq<char>, width: nat)
    requires
        all_digits(s),
    ensures
        all_digits(zero_padded(s, width)),
        decimal_value(zero_padded(s, width)) == decimal_value(s),
    decreases s.len() + width,
{
    let padded = zero_padded(s, width);
    assert forall|i: int| 0 <= i < padded.len() implies is_digit(#[trigger] padded[i]) by {
        if s.len() < width && i >= width - s.len() {
            assert(padded[i] == s[i - (width - s.len())]);
        }
    }
    if s.len() < width {
        if s.len() == 0 {
            assert(padded.last() == '0');
            let shorter = zero_padded(s, (width - 1) as nat);
            assert(padded.drop_last() =~= shorter);
            lemma_padded_value(s, (width - 1) as nat);
            assert(decimal_value(s) == 0);
        } else {
            let rest = s.drop_last();
            assert forall|i: int| 0 <= i < rest.len() implies is_digit(#[trigger] rest[i]) by {
                assert(rest[i] == s[i]);
            }
            lemma_padded_value(rest, (width - 1) as nat);
            assert(padded.drop_last() =~= zero_padded(rest, (width - 1) as nat));
            assert(padded.last() == s.last());
        }
    }
}

/// Append `n` with zeros in front up to `width` digits.
fn push_padded(out: &mut String, n: u64, width: u64)
    requires
        width >= 1,
    ensures
        final(out)@ == old(out)@ + zero_padded(decimal(n as nat), width as nat),
    decreases width,
{
    if width == 1 {
        push_decimal(out, n);
        proof {
            lemma_decimal_value(n as nat);
        }
    } else {
        push_padded(out, n / 10, width - 1);
        push_decimal(out, n % 10);
        proof {
            let rest = decimal((n / 10) as nat);
            lemma_decimal_value((n / 10) as nat);
            assert(out@ =~= old(out)@ + zero_padded(rest, (width - 1) as nat) + decimal(
                (n % 10) as nat,
            ));
            assert(zero_padded(rest, (width - 1) as nat) + decimal((n % 10) as nat)
                =~= zero_padded(decimal(n as nat), width as nat));
            assert(out@ =~= old(out)@ + zero_padded(decimal(n as nat), width as nat));
        }
    }
}

/// The offset text of a byte position.
pub fn format_offset(bytes: u64) -> (r: String)
    ensures
        r@ == offset_text(bytes),
{
    let mut out = String::new();
    push_padded(&mut out, READ_SEQ, 16);
    out.push('_');
    push_padded(&mut out, bytes, 16);
    assert(out@ =~= offset_text(bytes));
    out
}

fn digits_at(chars: &Vec<char>, from: usize, to: usize) -> (r: bool)
    requires
        from <= to <= chars@.len(),
    ensures
        r == all_digits(chars@.subrange(from as int, to as int)),
{
    let mut i: usize = from;
    while i < to
        invariant
            from <= i <= to <= chars@.len(),
            forall|k: int| from <= k < i ==> is_digit(#[trigger] chars@[k]),
        decreases to - i,
    {
        let c = chars[i];
        if !(c >= '0' && c <= '9') {
            assert(chars@.subrange(from as int, to as int)[i - from] == c);
            return false;
        }
        i = i + 1;
    }
    assert forall|k: int| 0 <= k < to - from implies is_digit(
        #[trigger] chars@.subrange(from as int, to as int)[k],
    ) by {
        assert(is_digit(chars@[k + from]));
    }
    true
}

/// Read an offset parameter.
pub fn parse_offset(raw: Option<&str>) -> (r: Result<ParsedOffset, ()>)
    ensures
        match raw {
            Some(s) => match offset_denotes(Some(s@)) {
                Some(offset) => r == Ok::<ParsedOffset, ()>(offset),
                None => r is Err,
            },
            None => r == Ok::<ParsedOffset, ()>(ParsedOffset::Start),
        },
{
    let s = match raw {
        Some(s) => s,
        None => {
            return Ok(ParsedOffset::Start);
        },
    };
    if crate::text::same_text(s, "-1") {
        return Ok(ParsedOffset::Start);
    }
    if crate::text::same_text(s, "now") {
        return Ok(ParsedOffset::Now);
    }
    let chars = chars_of(s);
    if chars.len() != 33 || chars[16] != '_' {
        return Err(());
    }
    proof {
        assert(chars@.subrange(0, 16) =~= s@.take(16));
        assert(chars@.subrange(17, 33) =~= s@.skip(17));
    }
    if !digits_at(&chars, 0, 16) || !digits_at(&chars, 17, 33) {
        return Err(());
    }
    let ghost digits = s@.skip(17);
    let mut value: u64 = 0;
    let mut i: usize = 17;
    assert(digits.take(0) =~= Seq::empty());
    proof {
        lemma_pow_16();
    }
    while i < 33
        invariant
            17 <= i <= 33,
            chars@.len() == 33,
            chars@ == s@,
            digits == s@.skip(17),
            all_digits(digits),
            value == decimal_value(digits.take(i - 17)),
            vstd::arithmetic::power::pow(10, 16) == OFFSET_LIMIT,
        decreases 33 - i,
    {
        let c = chars[i];
        assert(digits[i - 17] == c);
        assert(is_digit(c));
        let d: u64 = (c as u32 - 48) as u64;
        let ghost longer = digits.take(i - 17 + 1);
        proof {
            assert(longer.drop_last() =~= digits.take(i - 17));
            assert forall|k: int| 0 <= k < longer.len() implies is_digit(#[trigger] longer[k]) by {
                assert(longer[k] == digits[k]);
            }
            lemma_value_bound(longer);
            vstd::arithmetic::power::lemma_pow_increases(10, longer.len(), 16);
            assert(decimal_value(longer) == value * 10 + d);
        }
        value = value * 10 + d;
        i = i + 1;
    }
    assert(digits.take(16) =~= digits);
    Ok(ParsedOffset::At(value))
}

/// The interval in which `now_secs` falls.
pub open spec fn cursor_interval(now_secs: u64) -> int {
    if now_secs < CURSOR_EPOCH_UNIX {
        0
    } else {
        (now_secs - CURSOR_EPOCH_UNIX) / CURSOR_INTERVAL_SECS as int
    }
}

/// The cursor that is handed out.
pub open spec fn next_cursor(client: Option<u64>, now_secs: u64, subsec_nanos: u32) -> int {
    match client {
        Some(c) => if c >= cursor_interval(now_secs) {
            c + 1 + subsec_nanos % 180
        } else {
            cursor_interval(now_secs)
        },
        None => cursor_interval(now_secs),
    }
}

/// The cursor to hand out: the current interval, or a jump of one to a hundred
/// and eighty intervals past a client that is already there. The jump is taken
/// from the sub-second clock.
pub fn compute_cursor(client_cursor: Option<u64>, now_secs: u64, subsec_nanos: u32) -> (r: u64)
    requires
        client_cursor matches Some(c) ==> c <= u64::MAX - CURSOR_JITTER_INTERVALS,
    ensures
        r == (match client_cursor {
            Some(c) => if c >= cursor_interval(now_secs) {
                c + 1 + subsec_nanos % 180
            } else {
                cursor_interval(now_secs)
            },
            None => cursor_interval(now_secs),
        }),
        r == next_cursor(client_cursor, now_secs, subsec_nanos),
{
    let interval: u64 = now_secs.saturating_sub(CURSOR_EPOCH_UNIX) / CURSOR_INTERVAL_SECS;
    match client_cursor {
        Some(c) => if c >= interval {
            c + 1 + (subsec_nanos % 180) as u64
        } else {
            interval
        },
        None => interval,
    }
}

/// A cursor that is handed out is always past the one that the client sent.
pub proof fn law_cursor_moves_forward(client: u64, now_secs: u64, subsec_nanos: u32)
    ensures
        (if client >= cursor_interval(now_secs) {
            client + 1 + subsec_nanos % 180
        } else {
            cursor_interval(now_secs)
        }) > client,
{
}

/// Every offset that is handed out for a position under the limit is read back
/// as that position.
pub proof fn law_offset_round_trip(bytes: u64)
    requires
        bytes < OFFSET_LIMIT,
    ensures
        offset_denotes(Some(offset_text(bytes))) == Some(ParsedOffset::At(bytes)),
        offset_text(bytes).len() == 33,
{
    lemma_offset_shape(bytes);
    reveal_strlit("-1");
    reveal_strlit("now");
    assert("-1"@.len() == 2);
    assert("now"@.len() == 3);
}

/// The parts of an offset under the limit.
pub proof fn lemma_offset_shape(bytes: u64)
    requires
        bytes < OFFSET_LIMIT,
    ensures
        is_offset_literal(offset_text(bytes)),
        offset_text(bytes).len() == 33,
        offset_text(bytes).skip(17) == zero_padded(decimal(bytes as nat), 16),
        offset_text(bytes).take(17) == zero_padded(decimal(0), 16).push('_'),
        decimal_value(offset_text(bytes).skip(17)) == bytes,
{
    let front = zero_padded(decimal(READ_SEQ as nat), 16);
    let back = zero_padded(decimal(bytes as nat), 16);
    lemma_pow_16();
    lemma_decimal_value(bytes as nat);
    lemma_decimal_value(0);
    lemma_decimal_len(bytes as nat, 16);
    vstd::arithmetic::power::lemma_pow_positive(10, 16);
    lemma_decimal_len(0, 16);
    lemma_padded_value(decimal(bytes as nat), 16);
    lemma_padded_value(decimal(0), 16);
    let s = offset_text(bytes);
    assert(s.take(16) =~= front);
    assert(s.skip(17) =~= back);
    assert(s.take(17) =~= front.push('_'));
}

proof fn lemma_digit_order(a: Seq<char>, b: Seq<char>)
    requires
        all_digits(a),
        all_digits(b),
        a.len() == b.len(),
    ensures
        text_before(a, b) == (decimal_value(a) < decimal_value(b)),
    decreases a.len(),
{
    if a.len() > 0 {
        lemma_first_digit(a);
        lemma_first_digit(b);
        let ra = a.skip(1);
        let rb = b.skip(1);
        assert forall|i: int| 0 <= i < ra.len() implies is_digit(#[trigger] ra[i]) by {
            assert(ra[i] == a[i + 1]);
        }
        assert forall|i: int| 0 <= i < rb.len() implies is_digit(#[trigger] rb[i]) by {
            assert(rb[i] == b[i + 1]);
        }
        lemma_digit_order(ra, rb);
        lemma_value_limit(ra);
        lemma_value_limit(rb);
        assert(is_digit(a[0]) && is_digit(b[0]));
        let p = vstd::arithmetic::power::pow(10, ra.len());
        let x = digit_value(a[0]) as int;
        let y = digit_value(b[0]) as int;
        if x < y {
            assert(x * p + p <= y * p) by (nonlinear_arith)
                requires
                    x < y,
                    p > 0,
            ;
        } else if y < x {
            assert(y * p + p <= x * p) by (nonlinear_arith)
                requires
                    y < x,
                    p > 0,
            ;
        }
    }
}

proof fn lemma_value_limit(s: Seq<char>)
    requires
        all_digits(s),
    ensures
        decimal_value(s) < vstd::arithmetic::power::pow(10, s.len()),
        vstd::arithmetic::power::pow(10, s.len()) > 0,
    decreases s.len(),
{
    vstd::arithmetic::power::lemma_pow_positive(10, s.len());
    reveal(vstd::arithmetic::power::pow);
    if s.len() > 0 {
        let shorter = s.drop_last();
        assert forall|i: int| 0 <= i < shorter.len() implies is_digit(#[trigger] shorter[i]) by {
            assert(shorter[i] == s[i]);
        }
        lemma_value_limit(shorter);
        assert(is_digit(s[s.len() - 1]));
    }
}

proof fn lemma_first_digit(s: Seq<char>)
    requires
        all_digits(s),
        s.len() > 0,
    ensures
        decimal_value(s) == digit_value(s[0]) * vstd::arithmetic::power::pow(
            10,
            (s.len() - 1) as nat,
        ) + decimal_value(s.skip(1)),
    decreases s.len(),
{
    reveal(vstd::arithmetic::power::pow);
    if s.len() == 1 {
        assert(s.drop_last() =~= Seq::empty());
        assert(s.skip(1) =~= Seq::empty());
        vstd::arithmetic::power::lemma_pow0(10);
        assert(decimal_value(s) == digit_value(s[0]));
        assert(digit_value(s[0]) * 1 == digit_value(s[0]));
    } else {
        let shorter = s.drop_last();
        assert forall|i: int| 0 <= i < shorter.len() implies is_digit(#[trigger] shorter[i]) by {
            assert(shorter[i] == s[i]);
        }
        lemma_first_digit(shorter);
        assert(s.skip(1).drop_last() =~= shorter.skip(1));
        assert(s.skip(1).last() == s.last());
        let d = digit_value(s[0]) as int;
        let p = vstd::arithmetic::power::pow(10, (s.len() - 2) as nat);
        assert(vstd::arithmetic::power::pow(10, (s.len() - 1) as nat) == 10 * p);
        assert((d * p) * 10 == d * (10 * p)) by (nonlinear_arith);
        assert(decimal_value(s) == decimal_value(shorter) * 10 + digit_value(s.last()));
        assert(decimal_value(s.skip(1)) == decimal_value(shorter.skip(1)) * 10 + digit_value(
            s.last(),
        ));
        assert(decimal_value(shorter) == d * p + decimal_value(shorter.skip(1)));
    }
}

proof fn lemma_common_front(front: Seq<char>, a: Seq<char>, b: Seq<char>)
    ensures
        text_before(front + a, front + b) == text_before(a, b),
    decreases front.len(),
{
    if front.len() == 0 {
        assert(front + a =~= a);
        assert(front + b =~= b);
    } else {
        lemma_common_front(front.skip(1), a, b);
        assert((front + a).skip(1) =~= front.skip(1) + a);
        assert((front + b).skip(1) =~= front.skip(1) + b);
    }
}

/// Offsets under the limit compare as texts the way their positions compare as
/// numbers, and the place before the first one comes before them all.
pub proof fn law_offset_order(a: u64, b: u64)
    requires
        a < OFFSET_LIMIT,
        b < OFFSET_LIMIT,
    ensures
        text_before(offset_text(a), offset_text(b)) == (a < b),
        text_before("-1"@, offset_text(a)),
        (offset_text(a) == offset_text(b)) == (a == b),
{
    lemma_offset_shape(a);
    lemma_offset_shape(b);
    let s = offset_text(a);
    let t = offset_text(b);
    assert(s =~= s.take(17) + s.skip(17));
    assert(t =~= t.take(17) + t.skip(17));
    lemma_common_front(s.take(17), s.skip(17), t.skip(17));
    lemma_digit_order(s.skip(17), t.skip(17));
    reveal_strlit("-1");
    assert(is_digit(s.take(16)[0]));
    assert(s[0] == s.take(16)[0]);
    assert('-' < '0');
}

/// Cursors count intervals of twenty seconds. A client that is behind gets the
/// current one; one that is not gets a later one, by at most a hundred and eighty
/// intervals.
pub proof fn law_cursors_count_intervals(client: u64, now_secs: u64, subsec_nanos: u32)
    ensures
        next_cursor(None, now_secs, subsec_nanos) == cursor_interval(now_secs),
        client < cursor_interval(now_secs) ==> next_cursor(Some(client), now_secs, subsec_nanos)
            == cursor_interval(now_secs),
        client >= cursor_interval(now_secs) ==> client < next_cursor(
            Some(client),
            now_secs,
            subsec_nanos,
        ) <= client + 180,
        next_cursor(Some(client), now_secs, subsec_nanos) > client,
        CURSOR_EPOCH_UNIX <= now_secs <= u64::MAX - 20 ==> cursor_interval((now_secs + 20) as u64)
            == cursor_interval(now_secs) + 1,
        cursor_interval(CURSOR_EPOCH_UNIX) == 0,
        now_secs < CURSOR_EPOCH_UNIX ==> cursor_interval(now_secs) == 0,
{
}

/// What the words for positions mean: nothing and minus one are the start, now is
/// the end, and no position is ever read as one of these.
pub proof fn law_words_for_positions(bytes: u64)
    requires
        bytes < OFFSET_LIMIT,
    ensures
        offset_denotes(None) == Some(ParsedOffset::Start),
        offset_denotes(Some("-1"@)) == Some(ParsedOffset::Start),
        offset_denotes(Some("now"@)) == Some(ParsedOffset::Now),
        offset_text(bytes) != "-1"@,
        offset_text(bytes) != "now"@,
        offset_denotes(Some(Seq::empty())) is None,
{
    law_offset_round_trip(bytes);
    reveal_strlit("-1");
    reveal_strlit("now");
    assert("-1"@.len() == 2 && "now"@.len() == 3);
}

} // verus!
