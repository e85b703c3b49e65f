//! Routes of the control plane.

use crate::subscriptions::paths::{
    control_segment_index, is_control, reserved_at, valid_id, valid_subscription_id,
};
use crate::text::{
    after_prefix, chars_of, join_with, same_text, split_on, split_text, starts_with, string_of,
    texts,
};
use vstd::prelude::*;
use vstd::utf8::{decode_utf8, encode_utf8, valid_utf8};

verus! {

/// The value of a hexadecimal digit.
pub open spec fn hex_value(b: u8) -> Option<u8> {
    if 0x30 <= b <= 0x39 {
        Some((b - 0x30) as u8)
    } else if 0x41 <= b <= 0x46 {
        Some((b - 0x37) as u8)
    } else if 0x61 <= b <= 0x66 {
        Some((b - 0x57) as u8)
    } else {
        None
    }
}

/// The bytes that a percent-encoded text stands for: a percent sign with two
/// hexadecimal digits is one byte, everything else stands for itself.
pub open spec fn percent_bytes(s: Seq<u8>) -> Seq<u8>
    decreases s.len(),
{
    if s.len() == 0 {
        Seq::empty()
    } else if s[0] == 0x25 && s.len() >= 3 && hex_value(s[1]) is Some && hex_value(s[2]) is Some {
        seq![(hex_value(s[1])->0 * 16 + hex_value(s[2])->0) as u8] + percent_bytes(s.skip(3))
    } else {
        seq![s[0]] + percent_bytes(s.skip(1))
    }
}

/// What a percent-encoded text reads as, if its bytes are UTF-8.
pub open spec fn percent_text(s: Seq<char>) -> Option<Seq<char>> {
    let bytes = percent_bytes(encode_utf8(s));
    if valid_utf8(bytes) {
        Some(decode_utf8(bytes))
    } else {
        None
    }
}

/// `percent_encoding::percent_decode_str` followed by `decode_utf8`: each
/// percent sign with two hexadecimal digits becomes one byte, and the result is
/// a text exactly when the bytes are well-formed UTF-8.
#[verifier::external_body]
fn percent_decode(raw: &str) -> (r: Option<String>)
    ensures
        match r {
            Some(text) => percent_text(raw@) == Some(text@),
            None => percent_text(raw@) is None,
        },
{
    match percent_encoding::percent_decode_str(raw).decode_utf8() {
        Ok(text) => Some(text.into_owned()),
        Err(_) => None,
    }
}

/// A request path of the control plane, taken apart.
pub enum Route {
    Jwks,
    Base(String, String),
    Streams(String, String),
    Stream(String, String, String),
    Callback(String, String),
    Claim(String, String),
    Ack(String, String),
    Release(String, String),
    UnknownControl,
}

/// A route as a mathematical value.
pub enum RouteView {
    Jwks,
    Base(Seq<char>, Seq<char>),
    Streams(Seq<char>, Seq<char>),
    Stream(Seq<char>, Seq<char>, Seq<char>),
    Callback(Seq<char>, Seq<char>),
    Claim(Seq<char>, Seq<char>),
    Ack(Seq<char>, Seq<char>),
    Release(Seq<char>, Seq<char>),
    UnknownControl,
}

impl View for Route {
    type V = RouteView;

    open spec fn view(&self) -> RouteView {
        match self {
            Route::Jwks => RouteView::Jwks,
            Route::Base(root, id) => RouteView::Base(root@, id@),
            Route::Streams(root, id) => RouteView::Streams(root@, id@),
            Route::Stream(root, id, path) => RouteView::Stream(root@, id@, path@),
            Route::Callback(root, id) => RouteView::Callback(root@, id@),
            Route::Claim(root, id) => RouteView::Claim(root@, id@),
            Route::Ack(root, id) => RouteView::Ack(root@, id@),
            Route::Release(root, id) => RouteView::Release(root@, id@),
            Route::UnknownControl => RouteView::UnknownControl,
        }
    }
}

/// The route of the segments behind the subscription's name.
pub open spec fn tail_route(root: Seq<char>, id: Seq<char>, tail: Seq<Seq<char>>) -> RouteView {
    if tail.len() == 0 {
        RouteView::Base(root, id)
    } else if tail[0] == "streams"@ {
        if tail.len() == 1 {
            RouteView::Streams(root, id)
        } else {
            match percent_text(join_with(tail.skip(1), '/')) {
                Some(path) => RouteView::Stream(root, id, path),
                None => RouteView::UnknownControl,
            }
        }
    } else if tail.len() > 1 {
        RouteView::UnknownControl
    } else if tail[0] == "callback"@ {
        RouteView::Callback(root, id)
    } else if tail[0] == "claim"@ {
        RouteView::Claim(root, id)
    } else if tail[0] == "ack"@ {
        RouteView::Ack(root, id)
    } else if tail[0] == "release"@ {
        RouteView::Release(root, id)
    } else {
        RouteView::UnknownControl
    }
}

/// The route of a control path whose first reserved segment starts at `cut`:
/// what stands before it is the root.
pub open spec fn route_at(path: Seq<char>, cut: int) -> RouteView {
    let root = path.take(cut);
    let control = path.skip(cut);
    let prefix = "/__ds/subscriptions/"@;
    let pieces = split_on(control.skip(prefix.len() as int), '/');
    if control == "/__ds/jwks.json"@ {
        RouteView::Jwks
    } else if !starts_with(control, prefix) || pieces[0].len() == 0 {
        RouteView::UnknownControl
    } else {
        match percent_text(pieces[0]) {
            Some(id) => if valid_id(id) {
                tail_route(root, id, pieces.skip(1))
            } else {
                RouteView::UnknownControl
            },
            None => RouteView::UnknownControl,
        }
    }
}

/// Where the first reserved segment starts.
pub open spec fn first_reserved(path: Seq<char>) -> int {
    choose|i: int| reserved_at(path, i) && forall|k: int| 0 <= k < i ==> !reserved_at(path, k)
}

/// The route of a request path.
pub open spec fn route_of(path: Seq<char>) -> RouteView {
    if is_control(path) {
        route_at(path, first_reserved(path))
    } else {
        RouteView::UnknownControl
    }
}

fn join_tail(parts: &Vec<String>, from: usize) -> (r: String)
    requires
        from < parts@.len(),
    ensures
        r@ == join_with(texts(parts@).skip(from as int), '/'),
{
    let ghost all = texts(parts@);
    let count: usize = parts.len();
    let mut out = parts[from].as_str().to_owned();
    let mut i: usize = from + 1;
    assert(all.subrange(from as int, i as int).len() == 1);
    assert(all[from as int] == parts@[from as int]@);
    while i < count
        invariant
            count == parts@.len(),
            from < i <= parts@.len(),
            all == texts(parts@),
            out@ == join_with(all.subrange(from as int, i as int), '/'),
        decreases count - i,
    {
        out.push('/');
        out.append(parts[i].as_str());
        proof {
            let longer = all.subrange(from as int, i as int + 1);
            assert(longer.drop_last() =~= all.subrange(from as int, i as int));
            assert(longer.last() == parts@[i as int]@);
        }
        i = i + 1;
    }
    assert(all.subrange(from as int, all.len() as int) =~= all.skip(from as int));
    out
}

/// Take a request path apart.
pub fn parse_route(path: &str) -> (r: Route)
    ensures
        r@ == route_of(path@),
{
    let chars = chars_of(path);
    let cut = match control_segment_index(&chars) {
        Some(cut) => cut,
        None => {
            return Route::UnknownControl;
        },
    };
    proof {
        let i = first_reserved(path@);
        assert(reserved_at(path@, cut as int) && forall|k: int|
            0 <= k < cut ==> !reserved_at(path@, k));
        assert(reserved_at(path@, i));
        if i < cut {
            assert(!reserved_at(path@, i));
        } else if cut < i {
            assert(!reserved_at(path@, cut as int));
        }
    }
    let root = string_of(&chars, 0, cut);
    let control = string_of(&chars, cut, chars.len());
    assert(path@.subrange(0, cut as int) =~= path@.take(cut as int));
    assert(path@.subrange(cut as int, path@.len() as int) =~= path@.skip(cut as int));
    if same_text(control.as_str(), "/__ds/jwks.json") {
        return Route::Jwks;
    }
    let rest = match after_prefix(control.as_str(), "/__ds/subscriptions/") {
        Some(rest) => rest,
        None => {
            return Route::UnknownControl;
        },
    };
    let pieces = split_text(rest.as_str(), '/');
    let ghost all = split_on(rest@, '/');
    assert(texts(pieces@).len() == pieces@.len());
    assert(all[0] == pieces@[0]@);
    if pieces[0].as_str().is_empty() {
        return Route::UnknownControl;
    }
    let id = match percent_decode(pieces[0].as_str()) {
        Some(id) => id,
        None => {
            return Route::UnknownControl;
        },
    };
    if !valid_subscription_id(id.as_str()) {
        return Route::UnknownControl;
    }
    let ghost tail = all.skip(1);
    if pieces.len() == 1 {
        return Route::Base(root, id);
    }
    assert(tail[0] == pieces@[1]@);
    let first = pieces[1].as_str();
    if same_text(first, "streams") {
        if pieces.len() == 2 {
            return Route::Streams(root, id);
        }
        let encoded = join_tail(&pieces, 2);
        assert(all.skip(2) =~= tail.skip(1));
        return match percent_decode(encoded.as_str()) {
            Some(stream) => Route::Stream(root, id, stream),
            None => Route::UnknownControl,
        };
    }
    if pieces.len() > 2 {
        return Route::UnknownControl;
    }
    if same_text(first, "callback") {
        return Route::Callback(root, id);
    }
    if same_text(first, "claim") {
        return Route::Claim(root, id);
    }
    if same_text(first, "ack") {
        return Route::Ack(root, id);
    }
    if same_text(first, "release") {
        return Route::Release(root, id);
    }
    Route::UnknownControl
}

/// The first reserved segment ends the root: whatever stands behind it, also
/// another reserved segment, belongs to the control path.
pub proof fn law_root_precedes_first_reserved_segment(path: Seq<char>)
    requires
        is_control(path),
    ensures
        ({
            let cut = first_reserved(path);
            &&& reserved_at(path, cut)
            &&& forall|k: int| 0 <= k < cut ==> !reserved_at(path, k)
            &&& route_of(path) == route_at(path, cut)
        }),
{
    let w = choose|i: int| reserved_at(path, i);
    lemma_least_reserved(path, w);
}

proof fn lemma_least_reserved(path: Seq<char>, bound: int)
    requires
        reserved_at(path, bound),
    ensures
        exists|i: int| reserved_at(path, i) && forall|k: int| 0 <= k < i ==> !reserved_at(path, k),
    decreases bound,
{
    if exists|k: int| 0 <= k < bound && reserved_at(path, k) {
        let k = choose|k: int| 0 <= k < bound && reserved_at(path, k);
        lemma_least_reserved(path, k);
    }
}

} // verus!
