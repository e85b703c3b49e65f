//! Patterns over stream paths.
//!
//! A pattern is a list of segments. A star stands for one segment, two stars
//! for any number of them, anything else for itself.

use crate::text::{same_text, split_on, split_text, texts, trim_both, trim_char};
use vstd::prelude::*;

verus! {

/// The non-empty segments of a path.
pub open spec fn segments_of(path: Seq<char>) -> Seq<Seq<char>> {
    split_on(trim_both(path, '/'), '/').filter(|part: Seq<char>| part.len() > 0)
}

/// Whether a list of pattern segments matches a list of path segments.
pub open spec fn segments_match(pattern: Seq<Seq<char>>, path: Seq<Seq<char>>) -> bool
    decreases pattern.len(),
{
    if pattern.len() == 0 {
        path.len() == 0
    } else {
        let front = pattern.drop_last();
        if pattern.last() == "**"@ {
            exists|k: int| 0 <= k <= path.len() && segments_match(front, #[trigger] path.take(k))
        } else if pattern.last() == "*"@ {
            path.len() > 0 && segments_match(front, path.drop_last())
        } else {
            path.len() > 0 && path.last() == pattern.last() && segments_match(
                front,
                path.drop_last(),
            )
        }
    }
}

/// Whether a pattern matches a path.
pub open spec fn matches_glob(pattern: Seq<char>, path: Seq<char>) -> bool {
    segments_match(segments_of(pattern), segments_of(path))
}

fn segments(path: &str) -> (r: Vec<String>)
    ensures
        texts(r@) == segments_of(path@),
{
    let trimmed = trim_char(path, '/');
    let parts = split_text(trimmed.as_str(), '/');
    let ghost pieces = split_on(trim_both(path@, '/'), '/');
    let ghost solid = |part: Seq<char>| part.len() > 0;
    let mut out: Vec<String> = Vec::new();
    let mut i: usize = 0;
    proof {
        reveal(Seq::filter);
        assert(pieces.take(0).filter(solid) =~= Seq::empty());
        assert(texts(out@) =~= Seq::empty());
    }
    while i < parts.len()
        invariant
            i <= parts@.len(),
            texts(parts@) == pieces,
            solid == (|part: Seq<char>| part.len() > 0),
            texts(out@) == pieces.take(i as int).filter(solid),
        decreases parts.len() - i,
    {
        let part = parts[i].as_str();
        assert(pieces[i as int] == part@);
        let ghost before = texts(out@);
        proof {
            reveal(Seq::filter);
            assert(pieces.take(i as int + 1).drop_last() =~= pieces.take(i as int));
        }
        if !part.is_empty() {
            let kept = part.to_owned();
            out.push(kept);
            assert(texts(out@) =~= before.push(part@));
        }
        i = i + 1;
    }
    assert(pieces.take(pieces.len() as int) =~= pieces);
    out
}

/// Whether a pattern matches a path. One row of answers for all prefixes of the
/// path is carried from pattern segment to pattern segment, so several double
/// stars cost no more than one.
pub fn glob_match(pattern: &str, path: &str) -> (r: bool)
    ensures
        r == matches_glob(pattern@, path@),
{
    let wanted = segments(pattern);
    let given = segments(path);
    let ghost pat = segments_of(pattern@);
    let ghost names = segments_of(path@);
    assert(wanted@.len() == pat.len()) by {
        assert(texts(wanted@).len() == wanted@.len());
    }
    assert(given@.len() == names.len()) by {
        assert(texts(given@).len() == given@.len());
    }
    let mut matched: Vec<bool> = Vec::new();
    matched.push(true);
    let mut i: usize = 0;
    while i < given.len()
        invariant
            i <= given@.len(),
            matched@.len() == i + 1,
            matched@[0],
            forall|j: int| 0 < j <= i ==> !(#[trigger] matched@[j]),
        decreases given.len() - i,
    {
        matched.push(false);
        i = i + 1;
    }
    assert(pat.take(0).len() == 0);
    let rows: usize = matched.len();
    let mut p: usize = 0;
    while p < wanted.len()
        invariant
            rows == given@.len() + 1,
            p <= wanted@.len(),
            texts(wanted@) == pat,
            texts(given@) == names,
            wanted@.len() == pat.len(),
            given@.len() == names.len(),
            matched@.len() == names.len() + 1,
            forall|j: int|
                0 <= j <= names.len() ==> #[trigger] matched@[j] == segments_match(
                    pat.take(p as int),
                    names.take(j),
                ),
        decreases wanted.len() - p,
    {
        let segment = wanted[p].as_str();
        let ghost front = pat.take(p as int);
        let ghost longer = pat.take(p as int + 1);
        proof {
            assert(pat[p as int] == segment@);
            assert(longer.drop_last() =~= front);
            assert(longer.last() == segment@);
        }
        let double = same_text(segment, "**");
        let single = same_text(segment, "*");
        let mut next: Vec<bool> = Vec::new();
        let mut j: usize = 0;
        while j < rows
            invariant
                j <= rows,
                rows == given@.len() + 1,
                texts(given@) == names,
                given@.len() == names.len(),
                matched@.len() == names.len() + 1,
                next@.len() == j,
                longer.len() > 0,
                longer.drop_last() == front,
                longer.last() == segment@,
                double == (segment@ == "**"@),
                single == (segment@ == "*"@),
                forall|k: int|
                    0 <= k <= names.len() ==> #[trigger] matched@[k] == segments_match(
                        front,
                        names.take(k),
                    ),
                forall|k: int|
                    0 <= k < j ==> #[trigger] next@[k] == segments_match(longer, names.take(k)),
            decreases rows - j,
        {
            let answer: bool;
            if double {
                answer = matched[j] || (j > 0 && next[j - 1]);
                proof {
                    let here = names.take(j as int);
                    if matched@[j as int] {
                        assert(here.take(j as int) =~= here);
                        assert(segments_match(front, here.take(j as int)));
                    }
                    if j > 0 && next@[j - 1] {
                        let earlier = names.take(j - 1);
                        let k = choose|k: int|
                            0 <= k <= earlier.len() && segments_match(
                                front,
                                #[trigger] earlier.take(k),
                            );
                        assert(here.take(k) =~= earlier.take(k));
                    }
                    if segments_match(longer, here) {
                        let k = choose|k: int|
                            0 <= k <= here.len() && segments_match(front, #[trigger] here.take(k));
                        if k == j {
                            assert(here.take(k) =~= here);
                        } else {
                            let earlier = names.take(j - 1);
                            assert(earlier.take(k) =~= here.take(k));
                            assert(segments_match(longer, earlier));
                        }
                    }
                }
            } else if j == 0 {
                answer = false;
            } else {
                proof {
                    assert(names.take(j as int).drop_last() =~= names.take(j - 1));
                    assert(names.take(j as int).last() == names[j - 1]);
                    assert(names[j - 1] == given@[j - 1]@);
                }
                if single {
                    answer = matched[j - 1];
                } else {
                    answer = matched[j - 1] && same_text(segment, given[j - 1].as_str());
                }
            }
            next.push(answer);
            j = j + 1;
        }
        matched = next;
        p = p + 1;
    }
    assert(pat.take(pat.len() as int) =~= pat);
    assert(names.take(names.len() as int) =~= names);
    matched[given.len()]
}

/// Two stars at the end match the path before them and everything below it.
pub proof fn law_double_star_matches_below(
    pattern: Seq<Seq<char>>,
    path: Seq<Seq<char>>,
    below: Seq<Seq<char>>,
)
    requires
        segments_match(pattern, path),
    ensures
        segments_match(pattern.push("**"@), path + below),
{
    let whole = path + below;
    assert(pattern.push("**"@).drop_last() =~= pattern);
    assert(whole.take(path.len() as int) =~= path);
}

/// One star at the end matches exactly one more segment, whatever it is.
pub proof fn law_star_matches_one_segment(
    pattern: Seq<Seq<char>>,
    path: Seq<Seq<char>>,
    segment: Seq<char>,
)
    ensures
        segments_match(pattern.push("*"@), path.push(segment)) == segments_match(pattern, path),
        !segments_match(pattern.push("*"@), Seq::empty()),
{
    reveal_strlit("*");
    reveal_strlit("**");
    assert("*"@.len() != "**"@.len());
    assert(pattern.push("*"@).drop_last() =~= pattern);
    assert(path.push(segment).drop_last() =~= path);
}

/// A pattern without stars matches itself and nothing else.
pub proof fn law_plain_pattern_matches_itself(
    pattern: Seq<Seq<char>>,
    path: Seq<Seq<char>>,
)
    requires
        forall|i: int|
            0 <= i < pattern.len() ==> #[trigger] pattern[i] != "*"@ && pattern[i] != "**"@,
    ensures
        segments_match(pattern, path) == (pattern == path),
    decreases pattern.len(),
{
    if pattern.len() == 0 {
        if path.len() == 0 {
            assert(pattern =~= path);
        }
    } else {
        let front = pattern.drop_last();
        assert forall|i: int| 0 <= i < front.len() implies #[trigger] front[i] != "*"@ && front[i]
            != "**"@ by {
            assert(front[i] == pattern[i]);
        }
        assert(pattern[pattern.len() - 1] != "*"@);
        if path.len() > 0 {
            law_plain_pattern_matches_itself(front, path.drop_last());
            if front == path.drop_last() && pattern.last() == path.last() {
                assert(pattern =~= front.push(pattern.last()));
                assert(path =~= path.drop_last().push(path.last()));
            }
        }
    }
}

} // verus!
