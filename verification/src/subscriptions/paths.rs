//! Stream paths, subscription names and the reserved control segment.

use crate::text::{
    after_prefix, chars_of, has_char, same_text, split_on, split_text, starts_with, texts,
    trim_both, trim_char, trim_end, trim_end_char, utf8_len,
};
use vstd::prelude::*;

verus! {

pub const MAX_SUBSCRIPTION_ID_BYTES: usize = 256;

pub const MAX_STREAM_PATH_BYTES: usize = 4096;

/// Without slashes at either end.
pub fn normalize_relative_path(path: &str) -> (r: String)
    ensures
        r@ == trim_both(path@, '/'),
{
    trim_char(path, '/')
}

/// A path that names a stream below some root: bounded, made of real segments,
/// and not below the reserved one.
pub open spec fn valid_stream_path(path: Seq<char>) -> bool {
    &&& path.len() > 0
    &&& utf8_len(path) <= MAX_STREAM_PATH_BYTES
    &&& !path.contains('\0')
    &&& !path.contains('?')
    &&& !path.contains('#')
    &&& forall|i: int|
        0 <= i < split_on(path, '/').len() ==> {
            let segment = #[trigger] split_on(path, '/')[i];
            segment.len() > 0 && segment != "."@ && segment != ".."@
        }
    &&& split_on(path, '/')[0] != "__ds"@
}

/// Whether a path names a stream below some root.
pub fn valid_relative_stream_path(path: &str) -> (r: bool)
    ensures
        r == valid_stream_path(path@),
{
    if path.is_empty() || path.as_bytes().len() > MAX_STREAM_PATH_BYTES {
        return false;
    }
    if has_char(path, '\0') || has_char(path, '?') || has_char(path, '#') {
        return false;
    }
    let segments = split_text(path, '/');
    let ghost pieces = split_on(path@, '/');
    let mut i: usize = 0;
    while i < segments.len()
        invariant
            i <= segments@.len(),
            texts(segments@) == pieces,
            pieces == split_on(path@, '/'),
            forall|k: int|
                0 <= k < i ==> (#[trigger] pieces[k]).len() > 0 && pieces[k] != "."@ && pieces[k]
                    != ".."@,
        decreases segments.len() - i,
    {
        let segment = segments[i].as_str();
        assert(pieces[i as int] == segment@);
        assert(split_on(path@, '/')[i as int] == segment@);
        if segment.is_empty() || same_text(segment, ".") || same_text(segment, "..") {
            return false;
        }
        i = i + 1;
    }
    assert(pieces[0] == segments@[0]@);
    !same_text(segments[0].as_str(), "__ds")
}

/// Whether a subscription may carry this name.
pub open spec fn valid_id(id: Seq<char>) -> bool {
    &&& 0 < id.len() <= MAX_SUBSCRIPTION_ID_BYTES
    &&& forall|i: int| 0 <= i < id.len() ==> is_id_char(#[trigger] id[i])
}

pub open spec fn is_id_char(c: char) -> bool {
    ||| 'a' <= c <= 'z'
    ||| 'A' <= c <= 'Z'
    ||| '0' <= c <= '9'
    ||| c == '-'
    ||| c == '.'
    ||| c == '_'
    ||| c == '~'
}

/// Whether a subscription may carry this name.
pub fn valid_subscription_id(id: &str) -> (r: bool)
    ensures
        r == valid_id(id@),
{
    let chars = chars_of(id);
    if chars.len() == 0 || chars.len() > MAX_SUBSCRIPTION_ID_BYTES {
        return false;
    }
    let mut i: usize = 0;
    while i < chars.len()
        invariant
            i <= chars@.len(),
            chars@ == id@,
            forall|k: int| 0 <= k < i ==> is_id_char(#[trigger] chars@[k]),
        decreases chars.len() - i,
    {
        let c = chars[i];
        if !((c >= 'a' && c <= 'z') || (c >= 'A' && c <= 'Z') || (c >= '0' && c <= '9') || c == '-'
            || c == '.' || c == '_' || c == '~') {
            assert(!is_id_char(id@[i as int]));
            return false;
        }
        i = i + 1;
    }
    true
}

/// The path of a stream below a root.
pub open spec fn absolute_path(root: Seq<char>, relative: Seq<char>) -> Seq<char> {
    trim_end(root, '/').push('/') + trim_both(relative, '/')
}

/// The path of a stream below a root.
pub fn absolute_stream_path(stream_root: &str, relative: &str) -> (r: String)
    ensures
        r@ == absolute_path(stream_root@, relative@),
{
    let mut out = trim_end_char(stream_root, '/');
    out.push('/');
    let tail = normalize_relative_path(relative);
    out.append(tail.as_str());
    out
}

/// What an absolute path is called below a root. A neighbouring root's streams
/// and the reserved segment have no such name.
pub open spec fn relative_path(root: Seq<char>, absolute: Seq<char>) -> Option<Seq<char>> {
    let rest = absolute.skip(root.len() as int);
    let relative = rest.skip(1);
    if !starts_with(absolute, root) || rest.len() == 0 || rest[0] != '/' {
        None
    } else if relative.len() == 0 || relative == "__ds"@ || starts_with(relative, "__ds/"@) {
        None
    } else {
        Some(relative)
    }
}

/// What an absolute path is called below a root.
pub fn relative_stream_path(stream_root: &str, absolute: &str) -> (r: Option<String>)
    ensures
        match r {
            Some(relative) => relative_path(stream_root@, absolute@) == Some(relative@),
            None => relative_path(stream_root@, absolute@) is None,
        },
{
    let rest = match after_prefix(absolute, stream_root) {
        Some(rest) => rest,
        None => {
            return None;
        },
    };
    proof {
        reveal_strlit("/");
        assert(starts_with(rest@, "/"@) == (rest@.len() > 0 && rest@[0] == '/')) by {
            if rest@.len() > 0 {
                assert(rest@.take(1)[0] == rest@[0]);
                if rest@[0] == '/' {
                    assert(rest@.take(1) =~= "/"@);
                }
            }
        }
    }
    let relative = match after_prefix(rest.as_str(), "/") {
        Some(relative) => relative,
        None => {
            return None;
        },
    };
    if relative.as_str().is_empty() || same_text(relative.as_str(), "__ds") {
        return None;
    }
    if after_prefix(relative.as_str(), "__ds/").is_some() {
        return None;
    }
    Some(relative)
}

/// The name under which a subscription is kept: its root and its own name with
/// a zero character between them.
pub open spec fn key_of(root: Seq<char>, id: Seq<char>) -> Seq<char> {
    root.push('\0') + id
}

/// The name under which a subscription is kept.
pub fn subscription_key(stream_root: &str, id: &str) -> (r: String)
    ensures
        r@ == key_of(stream_root@, id@),
{
    let mut out = stream_root.to_owned();
    out.push('\0');
    out.append(id);
    out
}

/// Two subscriptions with valid names share a key only if root and name agree.
pub proof fn law_keys_identify_subscriptions(
    root_a: Seq<char>,
    id_a: Seq<char>,
    root_b: Seq<char>,
    id_b: Seq<char>,
)
    requires
        valid_id(id_a),
        valid_id(id_b),
        key_of(root_a, id_a) == key_of(root_b, id_b),
    ensures
        root_a == root_b,
        id_a == id_b,
{
    let k = key_of(root_a, id_a);
    assert(k.len() == root_a.len() + 1 + id_a.len());
    assert(k.len() == root_b.len() + 1 + id_b.len());
    assert(k[root_a.len() as int] == '\0');
    assert(key_of(root_b, id_b)[root_b.len() as int] == '\0');
    if root_a.len() < root_b.len() {
        let i = root_b.len() - root_a.len() - 1;
        assert(k[root_b.len() as int] == id_a[i]);
        assert(is_id_char(id_a[i]));
    } else if root_b.len() < root_a.len() {
        let i = root_a.len() - root_b.len() - 1;
        assert(key_of(root_b, id_b)[root_a.len() as int] == id_b[i]);
        assert(is_id_char(id_b[i]));
    }
    assert(root_a =~= k.take(root_a.len() as int));
    assert(root_b =~= key_of(root_b, id_b).take(root_b.len() as int));
    assert(id_a =~= k.skip(root_a.len() as int + 1));
    assert(id_b =~= key_of(root_b, id_b).skip(root_b.len() as int + 1));
}

/// Whether the segment at `i`, with its leading slash, is the reserved one.
pub open spec fn reserved_at(path: Seq<char>, i: int) -> bool {
    &&& 0 <= i
    &&& i + 5 <= path.len()
    &&& path.subrange(i, i + 5) == "/__ds"@
    &&& i + 5 == path.len() || path[i + 5] == '/'
}

/// A path of the control plane has a reserved segment.
pub open spec fn is_control(path: Seq<char>) -> bool {
    exists|i: int| reserved_at(path, i)
}

/// Where the first reserved segment of a path starts, at its slash.
pub fn control_segment_index(path: &Vec<char>) -> (r: Option<usize>)
    ensures
        match r {
            Some(i) => reserved_at(path@, i as int) && forall|k: int|
                0 <= k < i ==> !reserved_at(path@, k),
            None => !is_control(path@),
        },
{
    let mut i: usize = 0;
    proof {
        reveal_strlit("/__ds");
    }
    while i < path.len()
        invariant
            i <= path@.len(),
            forall|k: int| 0 <= k < i ==> !reserved_at(path@, k),
            "/__ds"@ == seq!['/', '_', '_', 'd', 's'],
        decreases path.len() - i,
    {
        if path.len() - i >= 5 && path[i] == '/' && path[i + 1] == '_' && path[i + 2] == '_'
            && path[i + 3] == 'd' && path[i + 4] == 's' && (path.len() - i == 5 || path[i + 5]
            == '/') {
            assert(path@.subrange(i as int, i + 5) =~= "/__ds"@);
            return Some(i);
        }
        proof {
            if reserved_at(path@, i as int) {
                let piece = path@.subrange(i as int, i + 5);
                assert(piece[0] == '/' && piece[1] == '_' && piece[2] == '_' && piece[3] == 'd'
                    && piece[4] == 's');
            }
        }
        i = i + 1;
    }
    None
}

/// Whether a path belongs to the control plane.
pub fn is_control_path(path: &str) -> (r: bool)
    ensures
        r == is_control(path@),
{
    let chars = chars_of(path);
    match control_segment_index(&chars) {
        Some(i) => {
            assert(reserved_at(path@, i as int));
            true
        },
        None => false,
    }
}

/// A stream's name below a root leads back to it: for a root without a trailing
/// slash and a valid name, taking the absolute path apart gives the name again.
pub proof fn law_relative_undoes_absolute(root: Seq<char>, relative: Seq<char>)
    requires
        trim_end(root, '/') == root,
        valid_stream_path(relative),
    ensures
        relative_path(root, absolute_path(root, relative)) == Some(relative),
{
    lemma_valid_path_trimmed(relative);
    let absolute = absolute_path(root, relative);
    assert(absolute.take(root.len() as int) =~= root);
    assert(absolute.skip(root.len() as int).skip(1) =~= relative);
    reveal_strlit("__ds");
    reveal_strlit("__ds/");
    let head = split_on(relative, '/')[0];
    if relative == "__ds"@ {
        assert(!relative.contains('/'));
        crate::text::lemma_split_absent(relative, '/');
    }
    if starts_with(relative, "__ds/"@) {
        let front = relative.take(5);
        assert(front[0] == '_' && front[1] == '_' && front[2] == 'd' && front[3] == 's'
            && front[4] == '/');
        lemma_first_piece(relative, 4);
        assert(relative.take(4) =~= "__ds"@) by {
            assert(relative.take(5) =~= "__ds/"@);
            assert(forall|k: int| 0 <= k < 4 ==> relative.take(4)[k] == relative.take(5)[k]);
        }
    }
}

/// A valid name neither begins nor ends with a slash.
pub proof fn lemma_valid_path_trimmed(path: Seq<char>)
    requires
        valid_stream_path(path),
    ensures
        trim_both(path, '/') == path,
{
    let pieces = split_on(path, '/');
    crate::text::lemma_split_pieces(path, '/');
    if path[0] == '/' {
        lemma_first_piece(path, 0);
        assert(pieces[0].len() == 0);
    }
    if path.last() == '/' {
        assert(pieces[pieces.len() - 1] == Seq::<char>::empty());
    }
    assert(pieces[0].len() > 0);
    assert(pieces[pieces.len() - 1].len() > 0);
}

/// The first piece ends at the first separator.
pub proof fn lemma_first_piece(s: Seq<char>, k: int)
    requires
        0 <= k < s.len(),
        s[k] == '/',
        forall|i: int| 0 <= i < k ==> s[i] != '/',
    ensures
        split_on(s, '/')[0] == s.take(k),
        split_on(s, '/').len() >= 2,
    decreases s.len(),
{
    let shorter = s.drop_last();
    crate::text::lemma_split_pieces(shorter, '/');
    if k == s.len() - 1 {
        assert(!shorter.contains('/')) by {
            if shorter.contains('/') {
                let i = choose|i: int| 0 <= i < shorter.len() && shorter[i] == '/';
                assert(s[i] == '/');
            }
        }
        crate::text::lemma_split_absent(shorter, '/');
        assert(shorter =~= s.take(k));
    } else {
        lemma_first_piece(shorter, k);
        assert(shorter.take(k) =~= s.take(k));
    }
}

} // verus!
