//! Text as sequences of characters.

use vstd::prelude::*;
use vstd::string::StringSliceAdditionalSpecFns;
use vstd::utf8::{encode_utf8, encode_utf8_decode_utf8};

verus! {

/// `String::push` of the standard library appends one character.
pub assume_specification[ String::push ](s: &mut String, c: char)
    ensures
        final(s)@ == old(s)@.push(c),
;

/// The characters of each string.
pub open spec fn texts(v: Seq<String>) -> Seq<Seq<char>> {
    v.map_values(|s: String| s@)
}

/// The text inside an optional string.
pub open spec fn opt_text(s: Option<String>) -> Option<Seq<char>> {
    match s {
        Some(text) => Some(text@),
        None => None,
    }
}

/// How many bytes a text takes in UTF-8.
pub open spec fn utf8_len(s: Seq<char>) -> nat {
    encode_utf8(s).len()
}

/// The pieces between occurrences of `c`; a text without `c` is one piece.
pub open spec fn split_on(s: Seq<char>, c: char) -> Seq<Seq<char>>
    decreases s.len(),
{
    if s.len() == 0 {
        seq![Seq::empty()]
    } else {
        let front = split_on(s.drop_last(), c);
        if s.last() == c {
            front.push(Seq::empty())
        } else {
            front.drop_last().push(front.last().push(s.last()))
        }
    }
}

/// The pieces with `c` between them.
pub open spec fn join_with(parts: Seq<Seq<char>>, c: char) -> Seq<char>
    decreases parts.len(),
{
    if parts.len() == 0 {
        Seq::empty()
    } else if parts.len() == 1 {
        parts[0]
    } else {
        join_with(parts.drop_last(), c).push(c) + parts.last()
    }
}

/// Without the leading run of `c`.
pub open spec fn trim_start(s: Seq<char>, c: char) -> Seq<char>
    decreases s.len(),
{
    if s.len() > 0 && s[0] == c {
        trim_start(s.skip(1), c)
    } else {
        s
    }
}

/// Without the trailing run of `c`.
pub open spec fn trim_end(s: Seq<char>, c: char) -> Seq<char>
    decreases s.len(),
{
    if s.len() > 0 && s.last() == c {
        trim_end(s.drop_last(), c)
    } else {
        s
    }
}

/// Without the leading and the trailing run of `c`.
pub open spec fn trim_both(s: Seq<char>, c: char) -> Seq<char> {
    trim_end(trim_start(s, c), c)
}

/// Whether `s` starts with `prefix`.
pub open spec fn starts_with(s: Seq<char>, prefix: Seq<char>) -> bool {
    prefix.len() <= s.len() && s.take(prefix.len() as int) == prefix
}

/// Lexicographic order by code point, which is also the order of the UTF-8
/// bytes.
pub open spec fn text_before(a: Seq<char>, b: Seq<char>) -> bool
    decreases a.len(),
{
    if b.len() == 0 {
        false
    } else if a.len() == 0 {
        true
    } else if a[0] != b[0] {
        a[0] < b[0]
    } else {
        text_before(a.skip(1), b.skip(1))
    }
}

/// The order is irreflexive and has no two-cycles.
pub proof fn lemma_text_before_asymmetric(a: Seq<char>, b: Seq<char>)
    ensures
        text_before(a, b) ==> !text_before(b, a),
        !text_before(a, a),
    decreases a.len(),
{
    if a.len() > 0 {
        lemma_text_before_asymmetric(a.skip(1), a.skip(1));
        if b.len() > 0 {
            lemma_text_before_asymmetric(a.skip(1), b.skip(1));
        }
    }
}

/// The order is transitive.
pub proof fn lemma_text_before_transitive(a: Seq<char>, b: Seq<char>, c: Seq<char>)
    requires
        text_before(a, b),
        text_before(b, c),
    ensures
        text_before(a, c),
    decreases a.len(),
{
    if a.len() > 0 && b.len() > 0 && c.len() > 0 && a[0] == b[0] && b[0] == c[0] {
        lemma_text_before_transitive(a.skip(1), b.skip(1), c.skip(1));
    }
}

/// Of two different texts one comes first.
pub proof fn lemma_text_before_total(a: Seq<char>, b: Seq<char>)
    ensures
        text_before(a, b) || text_before(b, a) || a == b,
    decreases a.len(),
{
    if a.len() > 0 && b.len() > 0 && a[0] == b[0] {
        lemma_text_before_total(a.skip(1), b.skip(1));
        if a.skip(1) == b.skip(1) {
            assert(a =~= seq![a[0]] + a.skip(1));
            assert(b =~= seq![b[0]] + b.skip(1));
        }
    } else if a.len() == 0 && b.len() == 0 {
        assert(a =~= b);
    }
}

/// Two texts with the same bytes are the same text.
pub proof fn lemma_utf8_injective(a: Seq<char>, b: Seq<char>)
    requires
        encode_utf8(a) == encode_utf8(b),
    ensures
        a == b,
{
    encode_utf8_decode_utf8(a);
    encode_utf8_decode_utf8(b);
}

/// The bytes of two texts in a row are the bytes of the first and then those of
/// the second.
pub proof fn lemma_utf8_concat(a: Seq<char>, b: Seq<char>)
    ensures
        encode_utf8(a + b) == encode_utf8(a) + encode_utf8(b),
    decreases a.len(),
{
    if a.len() == 0 {
        assert(a + b =~= b);
        assert(encode_utf8(a) + encode_utf8(b) =~= encode_utf8(b));
    } else {
        lemma_utf8_concat(a.drop_first(), b);
        assert((a + b).drop_first() =~= a.drop_first() + b);
        let first = vstd::utf8::encode_scalar(a[0] as u32);
        assert(encode_utf8(a + b) =~= first + encode_utf8(a.drop_first() + b));
        assert(first + (encode_utf8(a.drop_first()) + encode_utf8(b)) =~= (first + encode_utf8(
            a.drop_first(),
        )) + encode_utf8(b));
    }
}

/// Lengths in UTF-8 add up.
pub proof fn lemma_utf8_len_concat(a: Seq<char>, b: Seq<char>)
    ensures
        utf8_len(a + b) == utf8_len(a) + utf8_len(b),
{
    lemma_utf8_concat(a, b);
}

/// A text of ASCII characters takes one byte for each.
pub proof fn lemma_utf8_len_ascii(s: Seq<char>)
    requires
        vstd::utf8::is_ascii_chars(s),
    ensures
        utf8_len(s) == s.len(),
{
    vstd::utf8::is_ascii_chars_encode_utf8(s);
}

/// Splitting at a separator splits what stands before and behind it.
pub proof fn lemma_split_concat(a: Seq<char>, c: char, b: Seq<char>)
    ensures
        split_on(a.push(c) + b, c) == split_on(a, c) + split_on(b, c),
    decreases b.len(),
{
    let whole = a.push(c) + b;
    lemma_split_pieces(a, c);
    lemma_split_pieces(b, c);
    if b.len() == 0 {
        assert(whole =~= a.push(c));
        assert(whole.drop_last() =~= a);
        assert(split_on(whole, c) =~= split_on(a, c) + split_on(b, c));
    } else {
        let shorter = b.drop_last();
        lemma_split_concat(a, c, shorter);
        lemma_split_pieces(shorter, c);
        assert(whole.drop_last() =~= a.push(c) + shorter);
        assert(whole.last() == b.last());
        let front = split_on(shorter, c);
        assert((split_on(a, c) + front).last() == front.last());
        if b.last() != c {
            assert((split_on(a, c) + front).drop_last() =~= split_on(a, c) + front.drop_last());
        }
        assert(split_on(whole, c) =~= split_on(a, c) + split_on(b, c));
    }
}

/// Splitting yields at least one piece, none of which holds the separator.
pub proof fn lemma_split_pieces(s: Seq<char>, c: char)
    ensures
        split_on(s, c).len() >= 1,
        forall|i: int|
            0 <= i < split_on(s, c).len() ==> !(#[trigger] split_on(s, c)[i]).contains(c),
    decreases s.len(),
{
    if s.len() > 0 {
        lemma_split_pieces(s.drop_last(), c);
        let front = split_on(s.drop_last(), c);
        let all = split_on(s, c);
        assert forall|i: int| 0 <= i < all.len() implies !(#[trigger] all[i]).contains(c) by {
            if s.last() == c {
                if i < front.len() {
                    assert(all[i] == front[i]);
                }
            } else {
                if i < front.len() - 1 {
                    assert(all[i] == front[i]);
                } else {
                    let grown = front.last().push(s.last());
                    assert(!front[front.len() - 1].contains(c));
                    assert forall|k: int| 0 <= k < grown.len() implies grown[k] != c by {
                        if k < front.last().len() {
                            assert(front.last()[k] == grown[k]);
                            assert(front.last().contains(front.last()[k]));
                        }
                    }
                }
            }
        }
    }
}

/// Joining the pieces gives the text back.
pub proof fn law_join_undoes_split(s: Seq<char>, c: char)
    ensures
        join_with(split_on(s, c), c) == s,
    decreases s.len(),
{
    lemma_split_pieces(s, c);
    if s.len() == 0 {
        assert(join_with(split_on(s, c), c) =~= s);
    } else {
        let shorter = s.drop_last();
        law_join_undoes_split(shorter, c);
        lemma_split_pieces(shorter, c);
        let front = split_on(shorter, c);
        let all = split_on(s, c);
        if s.last() == c {
            assert(all.drop_last() =~= front);
            assert(join_with(all, c) =~= shorter.push(c));
            assert(shorter.push(c) =~= s);
        } else {
            assert(all.drop_last() =~= front.drop_last());
            assert(all.last() == front.last().push(s.last()));
            assert(join_with(all, c) =~= shorter.push(s.last()));
            assert(shorter.push(s.last()) =~= s);
        }
    }
}

/// A text without the separator is its own only piece.
pub proof fn lemma_split_absent(s: Seq<char>, c: char)
    requires
        !s.contains(c),
    ensures
        split_on(s, c) == seq![s],
    decreases s.len(),
{
    if s.len() == 0 {
        assert(s =~= Seq::empty());
        assert(split_on(s, c) =~= seq![s]);
    } else {
        let shorter = s.drop_last();
        assert(!shorter.contains(c)) by {
            if shorter.contains(c) {
                let k = choose|k: int| 0 <= k < shorter.len() && shorter[k] == c;
                assert(s[k] == c);
            }
        }
        lemma_split_absent(shorter, c);
        assert(s.last() != c) by {
            assert(s.contains(s[s.len() - 1]));
        }
        assert(shorter.push(s.last()) =~= s);
        assert(split_on(s, c) =~= seq![s]);
    }
}

/// The characters of a string.
pub fn chars_of(s: &str) -> (r: Vec<char>)
    ensures
        r@ == s@,
{
    let mut out: Vec<char> = Vec::new();
    for c in iter: s.chars()
        invariant
            iter.seq() == s@,
            out@ == s@.take(iter.index() as int),
    {
        out.push(c);
        assert(out@ =~= s@.take(iter.index() as int + 1));
    }
    assert(s@.take(s@.len() as int) =~= s@);
    out
}

/// The string of a range of characters.
pub fn string_of(chars: &Vec<char>, from: usize, to: usize) -> (r: String)
    requires
        from <= to <= chars@.len(),
    ensures
        r@ == chars@.subrange(from as int, to as int),
{
    let mut out = String::new();
    let mut i: usize = from;
    while i < to
        invariant
            from <= i <= to <= chars@.len(),
            out@ == chars@.subrange(from as int, i as int),
        decreases to - i,
    {
        out.push(chars[i]);
        i = i + 1;
        assert(out@ =~= chars@.subrange(from as int, i as int));
    }
    out
}

/// Whether two strings hold the same text.
pub fn same_text(a: &str, b: &str) -> (r: bool)
    ensures
        r == (a@ == b@),
{
    let left = a.as_bytes();
    let right = b.as_bytes();
    if left.len() != right.len() {
        return false;
    }
    let mut i: usize = 0;
    while i < left.len()
        invariant
            i <= left@.len(),
            left@.len() == right@.len(),
            left@ == a.spec_bytes(),
            right@ == b.spec_bytes(),
            forall|k: int| 0 <= k < i ==> left@[k] == right@[k],
        decreases left.len() - i,
    {
        if left[i] != right[i] {
            return false;
        }
        i = i + 1;
    }
    proof {
        assert(left@ =~= right@);
        lemma_utf8_injective(a@, b@);
    }
    true
}

/// Whether `a` comes before `b`.
pub fn text_less(a: &str, b: &str) -> (r: bool)
    ensures
        r == text_before(a@, b@),
{
    let left = chars_of(a);
    let right = chars_of(b);
    let mut i: usize = 0;
    assert(a@.skip(0) =~= a@);
    assert(b@.skip(0) =~= b@);
    while i < left.len() && i < right.len()
        invariant
            left@ == a@,
            right@ == b@,
            i <= left@.len(),
            i <= right@.len(),
            text_before(a@, b@) == text_before(a@.skip(i as int), b@.skip(i as int)),
        decreases left.len() - i,
    {
        if left[i] != right[i] {
            return left[i] < right[i];
        }
        proof {
            assert(a@.skip(i as int).skip(1) =~= a@.skip(i as int + 1));
            assert(b@.skip(i as int).skip(1) =~= b@.skip(i as int + 1));
        }
        i = i + 1;
    }
    i < right.len()
}

/// The pieces between occurrences of `c`.
pub fn split_text(s: &str, c: char) -> (r: Vec<String>)
    ensures
        texts(r@) == split_on(s@, c),
        r@.len() >= 1,
{
    let chars = chars_of(s);
    let mut out: Vec<String> = Vec::new();
    let mut current = String::new();
    let mut i: usize = 0;
    assert(chars@.take(0) =~= Seq::empty());
    assert(texts(out@).push(current@) =~= split_on(chars@.take(0), c));
    while i < chars.len()
        invariant
            i <= chars@.len(),
            texts(out@).push(current@) == split_on(chars@.take(i as int), c),
        decreases chars.len() - i,
    {
        let ghost before = texts(out@);
        let ghost piece = current@;
        let next = chars[i];
        proof {
            assert(chars@.take(i as int + 1).drop_last() =~= chars@.take(i as int));
        }
        if next == c {
            let ghost done = out@;
            out.push(current);
            current = String::new();
            assert(texts(out@) =~= before.push(piece));
        } else {
            current.push(next);
            assert(before.push(piece).drop_last() =~= before);
        }
        i = i + 1;
    }
    let ghost before = texts(out@);
    let ghost piece = current@;
    out.push(current);
    assert(texts(out@) =~= before.push(piece));
    assert(chars@.take(chars@.len() as int) =~= s@);
    out
}

proof fn lemma_trim_start_range(s: Seq<char>, c: char, from: int)
    requires
        0 <= from <= s.len(),
        forall|k: int| 0 <= k < from ==> s[k] == c,
        from == s.len() || s[from] != c,
    ensures
        trim_start(s, c) == s.skip(from),
    decreases from,
{
    if from > 0 {
        let rest = s.skip(1);
        assert forall|k: int| 0 <= k < from - 1 implies rest[k] == c by {
            assert(s[k + 1] == c);
        }
        lemma_trim_start_range(rest, c, from - 1);
        assert(rest.skip(from - 1) =~= s.skip(from));
    } else {
        assert(s.skip(0) =~= s);
    }
}

proof fn lemma_trim_end_range(s: Seq<char>, c: char, to: int)
    requires
        0 <= to <= s.len(),
        forall|k: int| to <= k < s.len() ==> s[k] == c,
        to == 0 || s[to - 1] != c,
    ensures
        trim_end(s, c) == s.take(to),
    decreases s.len() - to,
{
    if to < s.len() {
        lemma_trim_end_range(s.drop_last(), c, to);
        assert(s.drop_last().take(to) =~= s.take(to));
    } else {
        assert(s.take(to) =~= s);
    }
}

/// Without the leading and the trailing run of `c`.
pub fn trim_char(s: &str, c: char) -> (r: String)
    ensures
        r@ == trim_both(s@, c),
{
    let chars = chars_of(s);
    let mut from: usize = 0;
    while from < chars.len() && chars[from] == c
        invariant
            from <= chars@.len(),
            forall|k: int| 0 <= k < from ==> chars@[k] == c,
        decreases chars.len() - from,
    {
        from = from + 1;
    }
    let mut to: usize = chars.len();
    while to > from && chars[to - 1] == c
        invariant
            from <= to <= chars@.len(),
            forall|k: int| to <= k < chars@.len() ==> chars@[k] == c,
        decreases to,
    {
        to = to - 1;
    }
    proof {
        lemma_trim_start_range(s@, c, from as int);
        let rest = s@.skip(from as int);
        assert forall|k: int| to - from <= k < rest.len() implies rest[k] == c by {
            assert(s@[k + from] == c);
        }
        lemma_trim_end_range(rest, c, to - from);
        assert(rest.take(to - from) =~= s@.subrange(from as int, to as int));
    }
    string_of(&chars, from, to)
}

/// Without the trailing run of `c`.
pub fn trim_end_char(s: &str, c: char) -> (r: String)
    ensures
        r@ == trim_end(s@, c),
{
    let chars = chars_of(s);
    let mut to: usize = chars.len();
    while to > 0 && chars[to - 1] == c
        invariant
            to <= chars@.len(),
            forall|k: int| to <= k < chars@.len() ==> chars@[k] == c,
        decreases to,
    {
        to = to - 1;
    }
    proof {
        lemma_trim_end_range(s@, c, to as int);
        assert(s@.take(to as int) =~= s@.subrange(0, to as int));
    }
    string_of(&chars, 0, to)
}

/// What follows `prefix`, if `s` starts with it.
pub fn after_prefix(s: &str, prefix: &str) -> (r: Option<String>)
    ensures
        match r {
            Some(rest) => starts_with(s@, prefix@) && rest@ == s@.skip(prefix@.len() as int),
            None => !starts_with(s@, prefix@),
        },
{
    let chars = chars_of(s);
    let head = chars_of(prefix);
    if head.len() > chars.len() {
        return None;
    }
    let mut i: usize = 0;
    while i < head.len()
        invariant
            i <= head@.len() <= chars@.len(),
            chars@ == s@,
            head@ == prefix@,
            forall|k: int| 0 <= k < i ==> chars@[k] == head@[k],
        decreases head.len() - i,
    {
        if chars[i] != head[i] {
            proof {
                if starts_with(s@, prefix@) {
                    assert(s@.take(prefix@.len() as int)[i as int] == prefix@[i as int]);
                }
            }
            return None;
        }
        i = i + 1;
    }
    assert(s@.take(prefix@.len() as int) =~= prefix@);
    assert(s@.subrange(head@.len() as int, s@.len() as int) =~= s@.skip(prefix@.len() as int));
    Some(string_of(&chars, head.len(), chars.len()))
}

/// Whether `s` holds the character `c`.
pub fn has_char(s: &str, c: char) -> (r: bool)
    ensures
        r == s@.contains(c),
{
    let chars = chars_of(s);
    let mut i: usize = 0;
    while i < chars.len()
        invariant
            i <= chars@.len(),
            chars@ == s@,
            forall|k: int| 0 <= k < i ==> chars@[k] != c,
        decreases chars.len() - i,
    {
        if chars[i] == c {
            return true;
        }
        i = i + 1;
    }
    false
}

/// The path of `name` in the directory `dir`: with one slash between them, none
/// where the directory is empty or brings its own, and the name alone where it is
/// an absolute path.
pub open spec fn path_in(dir: Seq<char>, name: Seq<char>) -> Seq<char> {
    if name.len() > 0 && name[0] == '/' {
        name
    } else if dir.len() == 0 || dir.last() == '/' {
        dir + name
    } else {
        dir.push('/') + name
    }
}

/// The path of a name in a directory.
pub fn child_path(dir: &str, name: &str) -> (r: String)
    ensures
        r@ == path_in(dir@, name@),
{
    let inner = chars_of(name);
    if inner.len() > 0 && inner[0] == '/' {
        return name.to_owned();
    }
    let outer = chars_of(dir);
    let mut path = dir.to_owned();
    if outer.len() > 0 && outer[outer.len() - 1] != '/' {
        path.push('/');
    }
    path.append(name);
    path
}

/// `a` followed by `b`.
pub fn joined(a: &str, b: &str) -> (r: String)
    ensures
        r@ == a@ + b@,
{
    let mut out = a.to_owned();
    out.append(b);
    out
}

pub open spec fn is_digit(c: char) -> bool {
    '0' <= c <= '9'
}

pub open spec fn digit_char(d: nat) -> char
    recommends
        d < 10,
{
    (('0' as nat) + d) as char
}

pub open spec fn digit_value(c: char) -> nat
    recommends
        is_digit(c),
{
    ((c as nat) - ('0' as nat)) as nat
}

/// The decimal digits of `n`, without leading zeros.
pub open spec fn decimal(n: nat) -> Seq<char>
    decreases n,
{
    if n < 10 {
        seq![digit_char(n)]
    } else {
        decimal(n / 10).push(digit_char(n % 10))
    }
}

/// What a run of digits denotes.
pub open spec fn decimal_value(s: Seq<char>) -> nat
    decreases s.len(),
{
    if s.len() == 0 {
        0
    } else {
        decimal_value(s.drop_last()) * 10 + digit_value(s.last())
    }
}

pub open spec fn all_digits(s: Seq<char>) -> bool {
    forall|i: int| 0 <= i < s.len() ==> is_digit(#[trigger] s[i])
}

/// Reading the digits of a number gives the number back.
pub proof fn lemma_decimal_value(n: nat)
    ensures
        decimal_value(decimal(n)) == n,
        all_digits(decimal(n)),
        decimal(n).len() >= 1,
    decreases n,
{
    if n < 10 {
        let s = decimal(n);
        assert(s.drop_last() =~= Seq::empty());
        assert(decimal_value(Seq::<char>::empty()) == 0);
        assert(digit_value(digit_char(n)) == n);
    } else {
        lemma_decimal_value(n / 10);
        let s = decimal(n);
        assert(s.drop_last() =~= decimal(n / 10));
        assert(digit_value(digit_char(n % 10)) == n % 10);
        assert(is_digit(digit_char(n % 10)));
    }
}

/// The digits of a 64-bit number are read back as that number.
pub proof fn lemma_parse_decimal(n: u64)
    ensures
        parsed_u64(decimal(n as nat)) == Some(n),
{
    lemma_decimal_value(n as nat);
    let s = decimal(n as nat);
    assert(is_digit(s[0]));
}

/// Append the decimal digits of `n`.
pub fn push_decimal(out: &mut String, n: u64)
    ensures
        final(out)@ == old(out)@ + decimal(n as nat),
    decreases n,
{
    if n >= 10 {
        push_decimal(out, n / 10);
    }
    let d: u8 = (n % 10) as u8;
    let c: char = (48u8 + d) as char;
    out.push(c);
    proof {
        assert(c == digit_char((n % 10) as nat));
        if n >= 10 {
            assert(out@ =~= old(out)@ + decimal(n as nat));
        } else {
            assert(out@ =~= old(out)@ + decimal(n as nat));
        }
    }
}

/// What an unsigned decimal literal with an optional plus sign denotes, if it
/// fits in 64 bits.
pub open spec fn parsed_u64(s: Seq<char>) -> Option<u64> {
    let digits = if s.len() > 0 && s[0] == '+' {
        s.skip(1)
    } else {
        s
    };
    if digits.len() > 0 && all_digits(digits) && decimal_value(digits) <= u64::MAX {
        Some(decimal_value(digits) as u64)
    } else {
        None
    }
}

proof fn lemma_decimal_value_grows(s: Seq<char>, k: int)
    requires
        0 <= k <= s.len(),
        all_digits(s),
    ensures
        decimal_value(s.take(k)) <= decimal_value(s),
    decreases s.len() - k,
{
    if k == s.len() {
        assert(s.take(k) =~= s);
    } else {
        lemma_decimal_value_grows(s, k + 1);
        assert(s.take(k + 1).drop_last() =~= s.take(k));
        assert(is_digit(s[k]));
    }
}

/// Read an unsigned decimal number.
pub fn parse_u64(s: &str) -> (r: Option<u64>)
    ensures
        r == parsed_u64(s@),
{
    let chars = chars_of(s);
    let mut from: usize = 0;
    if chars.len() > 0 && chars[0] == '+' {
        from = 1;
    }
    let ghost digits = s@.skip(from as int);
    assert(digits == if s@.len() > 0 && s@[0] == '+' {
        s@.skip(1)
    } else {
        s@
    }) by {
        assert(s@.skip(0) =~= s@);
    }
    if from == chars.len() {
        return None;
    }
    let mut value: u64 = 0;
    let mut i: usize = from;
    assert(digits.take(0) =~= Seq::empty());
    while i < chars.len()
        invariant
            from <= i <= chars@.len(),
            chars@ == s@,
            digits == s@.skip(from as int),
            digits.len() == chars@.len() - from,
            all_digits(digits.take(i - from)),
            value == decimal_value(digits.take(i - from)),
            digits.len() > 0,
            parsed_u64(s@) == (if all_digits(digits) && decimal_value(digits) <= u64::MAX {
                Some(decimal_value(digits) as u64)
            } else {
                None
            }),
        decreases chars.len() - i,
    {
        let c = chars[i];
        assert(digits[i - from] == c);
        if !(c >= '0' && c <= '9') {
            assert(!all_digits(digits));
            return None;
        }
        let d: u64 = (c as u32 - 48) as u64;
        let ghost longer = digits.take(i - from + 1);
        proof {
            assert(longer.drop_last() =~= digits.take(i - from));
            assert(decimal_value(longer) == value * 10 + d);
            assert(all_digits(longer)) by {
                assert forall|k: int| 0 <= k < longer.len() implies is_digit(
                    #[trigger] longer[k],
                ) by {
                    if k < i - from {
                        assert(longer[k] == digits.take(i - from)[k]);
                    }
                }
            }
        }
        if value > (u64::MAX - d) / 10 {
            proof {
                if all_digits(digits) {
                    lemma_decimal_value_grows(digits, i - from + 1);
                }
                assert(value * 10 + d > u64::MAX);
            }
            return None;
        }
        value = value * 10 + d;
        i = i + 1;
    }
    assert(digits.take(digits.len() as int) =~= digits);
    Some(value)
}

pub open spec fn lower_char(c: char) -> char {
    if 'A' <= c <= 'Z' {
        ((c as nat) + 32) as char
    } else {
        c
    }
}

/// With ASCII capitals made small.
pub open spec fn ascii_lower(s: Seq<char>) -> Seq<char> {
    s.map_values(|c: char| lower_char(c))
}

/// With ASCII capitals made small.
pub fn to_ascii_lower(s: &str) -> (r: String)
    ensures
        r@ == ascii_lower(s@),
{
    let chars = chars_of(s);
    let mut out = String::new();
    let mut i: usize = 0;
    while i < chars.len()
        invariant
            i <= chars@.len(),
            chars@ == s@,
            out@ == ascii_lower(s@.take(i as int)),
        decreases chars.len() - i,
    {
        let c = chars[i];
        if c >= 'A' && c <= 'Z' {
            let small: u8 = (c as u32 + 32) as u8;
            out.push(small as char);
        } else {
            out.push(c);
        }
        i = i + 1;
        assert(out@ =~= ascii_lower(s@.take(i as int)));
    }
    assert(s@.take(s@.len() as int) =~= s@);
    out
}

/// The characters with the Unicode property White_Space.
pub open spec fn is_white_space(c: char) -> bool {
    let u = c as u32;
    ||| 0x9 <= u <= 0xd
    ||| u == 0x20
    ||| u == 0x85
    ||| u == 0xa0
    ||| u == 0x1680
    ||| 0x2000 <= u <= 0x200a
    ||| u == 0x2028
    ||| u == 0x2029
    ||| u == 0x202f
    ||| u == 0x205f
    ||| u == 0x3000
}

fn white_space(c: char) -> (r: bool)
    ensures
        r == is_white_space(c),
{
    let u: u32 = c as u32;
    (u >= 0x9 && u <= 0xd) || u == 0x20 || u == 0x85 || u == 0xa0 || u == 0x1680 || (u >= 0x2000
        && u <= 0x200a) || u == 0x2028 || u == 0x2029 || u == 0x202f || u == 0x205f || u == 0x3000
}

pub open spec fn trim_space_start(s: Seq<char>) -> Seq<char>
    decreases s.len(),
{
    if s.len() > 0 && is_white_space(s[0]) {
        trim_space_start(s.skip(1))
    } else {
        s
    }
}

pub open spec fn trim_space_end(s: Seq<char>) -> Seq<char>
    decreases s.len(),
{
    if s.len() > 0 && is_white_space(s.last()) {
        trim_space_end(s.drop_last())
    } else {
        s
    }
}

/// Without leading and trailing white space.
pub open spec fn trim_space(s: Seq<char>) -> Seq<char> {
    trim_space_end(trim_space_start(s))
}

proof fn lemma_trim_space_start_range(s: Seq<char>, from: int)
    requires
        0 <= from <= s.len(),
        forall|k: int| 0 <= k < from ==> is_white_space(#[trigger] s[k]),
        from == s.len() || !is_white_space(s[from]),
    ensures
        trim_space_start(s) == s.skip(from),
    decreases from,
{
    if from > 0 {
        let rest = s.skip(1);
        assert forall|k: int| 0 <= k < from - 1 implies is_white_space(#[trigger] rest[k]) by {
            assert(rest[k] == s[k + 1]);
        }
        assert(is_white_space(s[0]));
        lemma_trim_space_start_range(rest, from - 1);
        assert(rest.skip(from - 1) =~= s.skip(from));
    } else {
        assert(s.skip(0) =~= s);
    }
}

proof fn lemma_trim_space_end_range(s: Seq<char>, to: int)
    requires
        0 <= to <= s.len(),
        forall|k: int| to <= k < s.len() ==> is_white_space(#[trigger] s[k]),
        to == 0 || !is_white_space(s[to - 1]),
    ensures
        trim_space_end(s) == s.take(to),
    decreases s.len() - to,
{
    if to < s.len() {
        assert(is_white_space(s[s.len() - 1]));
        lemma_trim_space_end_range(s.drop_last(), to);
        assert(s.drop_last().take(to) =~= s.take(to));
    } else {
        assert(s.take(to) =~= s);
    }
}

/// Without leading and trailing white space.
pub fn trimmed(s: &str) -> (r: String)
    ensures
        r@ == trim_space(s@),
{
    let chars = chars_of(s);
    let mut from: usize = 0;
    while from < chars.len() && white_space(chars[from])
        invariant
            from <= chars@.len(),
            forall|k: int| 0 <= k < from ==> is_white_space(#[trigger] chars@[k]),
        decreases chars.len() - from,
    {
        from = from + 1;
    }
    let mut to: usize = chars.len();
    while to > from && white_space(chars[to - 1])
        invariant
            from <= to <= chars@.len(),
            forall|k: int| to <= k < chars@.len() ==> is_white_space(#[trigger] chars@[k]),
        decreases to,
    {
        to = to - 1;
    }
    proof {
        lemma_trim_space_start_range(s@, from as int);
        let rest = s@.skip(from as int);
        assert forall|k: int| to - from <= k < rest.len() implies is_white_space(
            #[trigger] rest[k],
        ) by {
            assert(rest[k] == s@[k + from]);
        }
        lemma_trim_space_end_range(rest, to - from);
        assert(rest.take(to - from) =~= s@.subrange(from as int, to as int));
    }
    string_of(&chars, from, to)
}

/// The first text, in their order, of which `p` holds.
pub open spec fn least(p: spec_fn(Seq<char>) -> bool) -> Seq<char> {
    choose|k: Seq<char>|
        #![trigger p(k)]
        p(k) && forall|j: Seq<char>| #[trigger] p(j) ==> j == k || text_before(k, j)
}

/// There is only one first text.
pub proof fn lemma_least_is(p: spec_fn(Seq<char>) -> bool, k: Seq<char>)
    requires
        p(k),
        forall|j: Seq<char>| #[trigger] p(j) ==> j == k || text_before(k, j),
    ensures
        least(p) == k,
{
    let m = least(p);
    assert(p(m));
    if m != k {
        assert(text_before(k, m));
        assert(text_before(m, k));
        lemma_text_before_asymmetric(k, m);
    }
}

/// A copy of an optional string.
pub fn copy_optional(s: &Option<String>) -> (r: Option<String>)
    ensures
        opt_text(r) == opt_text(*s),
{
    match s {
        Some(text) => Some(text.clone()),
        None => None,
    }
}

/// Whether an optional string is the given text.
pub fn optional_is(s: &Option<String>, text: &str) -> (r: bool)
    ensures
        r == (opt_text(*s) == Some(text@)),
{
    match s {
        Some(own) => same_text(own.as_str(), text),
        None => false,
    }
}

/// Whether two optional strings hold the same.
pub fn same_optional(a: &Option<String>, b: &Option<String>) -> (r: bool)
    ensures
        r == (opt_text(*a) == opt_text(*b)),
{
    match (a, b) {
        (Some(x), Some(y)) => same_text(x.as_str(), y.as_str()),
        (None, None) => true,
        _ => false,
    }
}

/// Whether a text ends in another one.
pub open spec fn ends_with(s: Seq<char>, suffix: Seq<char>) -> bool {
    suffix.len() <= s.len() && s.skip(s.len() - suffix.len()) == suffix
}

/// A text without the copies of another one at its end.
pub open spec fn trim_suffix(s: Seq<char>, suffix: Seq<char>) -> Seq<char>
    decreases s.len(),
{
    if suffix.len() > 0 && ends_with(s, suffix) {
        trim_suffix(s.take(s.len() - suffix.len()), suffix)
    } else {
        s
    }
}

/// Whether the first `end` characters end in those of a text.
fn ends_with_chars(chars: &Vec<char>, end: usize, suffix: &Vec<char>) -> (r: bool)
    requires
        end <= chars@.len(),
    ensures
        r == ends_with(chars@.take(end as int), suffix@),
{
    if suffix.len() > end {
        return false;
    }
    let start: usize = end - suffix.len();
    let ghost tail = chars@.take(end as int).skip(start as int);
    let mut i: usize = 0;
    while i < suffix.len()
        invariant
            start + suffix@.len() == end,
            end <= chars@.len(),
            i <= suffix@.len(),
            tail == chars@.take(end as int).skip(start as int),
            forall|k: int| 0 <= k < i ==> tail[k] == #[trigger] suffix@[k],
        decreases suffix.len() - i,
    {
        assert(tail[i as int] == chars@[start + i]);
        if chars[start + i] != suffix[i] {
            return false;
        }
        i = i + 1;
    }
    assert(tail =~= suffix@);
    true
}

/// Whether a text ends in another one.
pub fn has_suffix(s: &str, suffix: &str) -> (r: bool)
    ensures
        r == ends_with(s@, suffix@),
{
    let chars = chars_of(s);
    let end = chars_of(suffix);
    assert(chars@.take(chars@.len() as int) =~= s@);
    ends_with_chars(&chars, chars.len(), &end)
}

/// A text without the copies of another one at its end.
pub fn without_suffixes(s: &str, suffix: &str) -> (r: String)
    ensures
        r@ == trim_suffix(s@, suffix@),
{
    let chars = chars_of(s);
    let tail = chars_of(suffix);
    let mut end: usize = chars.len();
    assert(s@.take(end as int) =~= s@);
    while tail.len() > 0 && ends_with_chars(&chars, end, &tail)
        invariant
            end <= chars@.len(),
            chars@ == s@,
            tail@ == suffix@,
            trim_suffix(s@.take(end as int), suffix@) == trim_suffix(s@, suffix@),
        decreases end,
    {
        assert(s@.take(end as int).take(end - tail@.len()) =~= s@.take(end - tail@.len()));
        end = end - tail.len();
    }
    assert(chars@.subrange(0, end as int) =~= s@.take(end as int));
    string_of(&chars, 0, end)
}

/// Trimming takes the runs at both ends and nothing else: what is left neither
/// starts nor ends with the character, and stands in the text between two runs
/// of it.
pub proof fn law_trimming_takes_the_ends(s: Seq<char>, c: char)
    ensures
        ({
            let t = trim_both(s, c);
            &&& t.len() > 0 ==> t[0] != c && t.last() != c
            &&& exists|i: int, j: int|
                0 <= i <= j <= s.len() && t == #[trigger] s.subrange(i, j) && (forall|k: int|
                    0 <= k < i || j <= k < s.len() ==> #[trigger] s[k] == c)
            &&& trim_both(t, c) == t
            &&& !s.contains(c) ==> t == s
        }),
{
    let front = trim_start(s, c);
    let t = trim_both(s, c);
    lemma_trimmed_start(s, c);
    lemma_trimmed_end(front, c);
    let i = s.len() - front.len();
    let j = i + t.len();
    assert(t =~= s.subrange(i, j)) by {
        assert(front =~= s.skip(i));
        assert(t =~= front.take(t.len() as int));
    }
    assert forall|k: int| 0 <= k < i || j <= k < s.len() implies #[trigger] s[k] == c by {
        if j <= k < s.len() {
            assert(front[k - i] == s[k]);
        }
    }
    if t.len() > 0 {
        assert(t[0] == front[0]);
    }
    if !s.contains(c) {
        if s.len() > 0 {
            assert(s[0] != c);
            assert(s[s.len() - 1] != c);
        }
    }
}

proof fn lemma_trimmed_start(s: Seq<char>, c: char)
    ensures
        trim_start(s, c).len() <= s.len(),
        trim_start(s, c) == s.skip(s.len() - trim_start(s, c).len()),
        trim_start(s, c).len() > 0 ==> trim_start(s, c)[0] != c,
        forall|k: int| 0 <= k < s.len() - trim_start(s, c).len() ==> #[trigger] s[k] == c,
    decreases s.len(),
{
    if s.len() > 0 && s[0] == c {
        let rest = s.skip(1);
        lemma_trimmed_start(rest, c);
        let t = trim_start(s, c);
        assert(rest.skip(rest.len() - t.len()) =~= s.skip(s.len() - t.len()));
        assert forall|k: int| 0 <= k < s.len() - t.len() implies #[trigger] s[k] == c by {
            if k > 0 {
                assert(rest[k - 1] == s[k]);
            }
        }
    } else {
        assert(s.skip(0) =~= s);
    }
}

proof fn lemma_trimmed_end(s: Seq<char>, c: char)
    ensures
        trim_end(s, c).len() <= s.len(),
        trim_end(s, c) == s.take(trim_end(s, c).len() as int),
        trim_end(s, c).len() > 0 ==> trim_end(s, c).last() != c,
        forall|k: int| trim_end(s, c).len() <= k < s.len() ==> #[trigger] s[k] == c,
    decreases s.len(),
{
    if s.len() > 0 && s.last() == c {
        let rest = s.drop_last();
        lemma_trimmed_end(rest, c);
        let t = trim_end(s, c);
        assert(rest.take(t.len() as int) =~= s.take(t.len() as int));
        assert forall|k: int| t.len() <= k < s.len() implies #[trigger] s[k] == c by {
            if k < rest.len() {
                assert(rest[k] == s[k]);
            }
        }
    } else {
        assert(s.take(s.len() as int) =~= s);
    }
}

} // verus!
