//! File paths as text: names, extensions and directories.

use crate::text::{chars_of, join_with, same_text, split_on, split_text, string_of, texts};
use vstd::prelude::*;

verus! {

/// Whether a piece of a path names something.
pub open spec fn is_name(piece: Seq<char>) -> bool {
    piece.len() > 0 && piece != "."@
}

/// The position of the last piece that names something, or -1.
pub open spec fn last_name(pieces: Seq<Seq<char>>) -> int
    decreases pieces.len(),
{
    if pieces.len() == 0 {
        -1
    } else if is_name(pieces.last()) {
        pieces.len() - 1
    } else {
        last_name(pieces.drop_last())
    }
}

/// The last name of a path, if it names a file or a directory.
pub open spec fn file_name_of(path: Seq<char>) -> Option<Seq<char>> {
    let pieces = split_on(path, '/');
    let k = last_name(pieces);
    if k < 0 || pieces[k] == ".."@ {
        None
    } else {
        Some(pieces[k])
    }
}

/// Where the extension of a name starts: at its last dot, unless that is its
/// first character.
pub open spec fn stem_end(name: Seq<char>) -> int
    decreases name.len(),
{
    if name.len() == 0 {
        0
    } else if name.last() == '.' {
        name.len() - 1
    } else {
        stem_end(name.drop_last())
    }
}

/// A name without its extension.
pub open spec fn stem_of(name: Seq<char>) -> Seq<char> {
    if stem_end(name) == 0 {
        name
    } else {
        name.take(stem_end(name))
    }
}

/// A path with the extension of its name replaced.
pub open spec fn with_extension_of(path: Seq<char>, extension: Seq<char>) -> Seq<char> {
    let pieces = split_on(path, '/');
    match file_name_of(path) {
        None => path,
        Some(name) => join_with(pieces.take(last_name(pieces)).push(stem_of(name)), '/').push('.')
            + extension,
    }
}

/// The position of the last piece that leads somewhere, or -1. A leading dot does.
pub open spec fn last_step(pieces: Seq<Seq<char>>) -> int
    decreases pieces.len(),
{
    if pieces.len() == 0 {
        -1
    } else if is_name(pieces.last()) || (pieces.len() == 1 && pieces[0] == "."@) {
        pieces.len() - 1
    } else {
        last_step(pieces.drop_last())
    }
}

/// The directory that holds what a path names, if it is written down.
pub open spec fn directory_of(path: Seq<char>) -> Option<Seq<char>> {
    let pieces = split_on(path, '/');
    let k = last_name(pieces);
    if k < 0 {
        None
    } else {
        let step = last_step(pieces.take(k));
        if step >= 0 {
            Some(join_with(pieces.take(step + 1), '/'))
        } else if k > 0 {
            Some("/"@)
        } else {
            None
        }
    }
}

proof fn lemma_last_name(pieces: Seq<Seq<char>>, k: int)
    requires
        -1 <= k < pieces.len(),
        forall|i: int| k < i < pieces.len() ==> !is_name(#[trigger] pieces[i]),
        k >= 0 ==> is_name(pieces[k]),
    ensures
        last_name(pieces) == k,
    decreases pieces.len(),
{
    if pieces.len() > 0 && k < pieces.len() - 1 {
        assert(!is_name(pieces[pieces.len() - 1]));
        lemma_last_name(pieces.drop_last(), k);
    }
}

proof fn lemma_last_step(pieces: Seq<Seq<char>>, k: int)
    requires
        -1 <= k < pieces.len(),
        forall|i: int|
            k < i < pieces.len() ==> !is_name(#[trigger] pieces[i]) && !(i == 0 && pieces[0]
                == "."@),
        k >= 0 ==> is_name(pieces[k]) || (k == 0 && pieces[0] == "."@),
    ensures
        last_step(pieces) == k,
    decreases pieces.len(),
{
    if pieces.len() > 0 && k < pieces.len() - 1 {
        assert(!is_name(pieces[pieces.len() - 1]));
        lemma_last_step(pieces.drop_last(), k);
    }
}

fn names(piece: &str) -> (r: bool)
    ensures
        r == is_name(piece@),
{
    proof {
        reveal_strlit("");
        if piece@.len() == 0 {
            assert(piece@ =~= ""@);
        }
    }
    !same_text(piece, "") && !same_text(piece, ".")
}

/// One more than the position of the last piece that names something.
fn after_last_name(pieces: &Vec<String>) -> (r: usize)
    ensures
        r == last_name(texts(pieces@)) + 1,
        r <= pieces@.len(),
{
    let mut i: usize = pieces.len();
    while i > 0
        invariant
            i <= pieces@.len(),
            forall|k: int| i <= k < pieces@.len() ==> !is_name(#[trigger] texts(pieces@)[k]),
        decreases i,
    {
        assert(texts(pieces@)[i - 1] == pieces@[i - 1]@);
        if names(pieces[i - 1].as_str()) {
            proof {
                lemma_last_name(texts(pieces@), i - 1);
            }
            return i;
        }
        i = i - 1;
    }
    proof {
        lemma_last_name(texts(pieces@), -1);
    }
    0
}

/// One more than the position of the last of the first `end` pieces that leads
/// somewhere.
fn after_last_step(pieces: &Vec<String>, end: usize) -> (r: usize)
    requires
        end <= pieces@.len(),
    ensures
        r == last_step(texts(pieces@).take(end as int)) + 1,
        r <= end,
{
    let ghost part = texts(pieces@).take(end as int);
    let mut i: usize = end;
    while i > 0
        invariant
            i <= end <= pieces@.len(),
            part == texts(pieces@).take(end as int),
            forall|k: int|
                i <= k < end ==> !is_name(#[trigger] part[k]) && !(k == 0 && part[0] == "."@),
        decreases i,
    {
        assert(part[i - 1] == pieces@[i - 1]@);
        if names(pieces[i - 1].as_str()) || (i == 1 && same_text(pieces[0].as_str(), ".")) {
            proof {
                lemma_last_step(part, i - 1);
            }
            return i;
        }
        i = i - 1;
    }
    proof {
        lemma_last_step(part, -1);
    }
    0
}

/// The first `end` pieces with slashes between them.
fn joined_pieces(pieces: &Vec<String>, end: usize) -> (r: String)
    requires
        end <= pieces@.len(),
    ensures
        r@ == join_with(texts(pieces@).take(end as int), '/'),
{
    let ghost all = texts(pieces@);
    let mut out = String::new();
    let mut i: usize = 0;
    assert(all.take(0) =~= Seq::empty());
    assert(out@ =~= Seq::empty());
    while i < end
        invariant
            i <= end <= pieces@.len(),
            all == texts(pieces@),
            out@ == join_with(all.take(i as int), '/'),
        decreases end - i,
    {
        assert(all[i as int] == pieces@[i as int]@);
        assert(all.take(i + 1).drop_last() =~= all.take(i as int));
        assert(all.take(i + 1).last() == all[i as int]);
        if i > 0 {
            out.push('/');
        }
        out.append(pieces[i].as_str());
        proof {
            if i == 0 {
                assert(all.take(1)[0] == all[0]);
                assert(out@ =~= all[0]);
            }
        }
        i = i + 1;
    }
    out
}

/// The last name of a path.
pub fn file_name(path: &str) -> (r: Option<String>)
    ensures
        match r {
            Some(name) => file_name_of(path@) == Some(name@),
            None => file_name_of(path@) is None,
        },
{
    let pieces = split_text(path, '/');
    let end = after_last_name(&pieces);
    if end == 0 {
        return None;
    }
    assert(texts(pieces@)[end - 1] == pieces@[end - 1]@);
    if same_text(pieces[end - 1].as_str(), "..") {
        return None;
    }
    Some(pieces[end - 1].clone())
}

/// A name without its extension.
fn stem(name: &str) -> (r: String)
    ensures
        r@ == stem_of(name@),
{
    let chars = chars_of(name);
    let mut i: usize = chars.len();
    assert(name@.take(name@.len() as int) =~= name@);
    while i > 0 && chars[i - 1] != '.'
        invariant
            i <= chars@.len(),
            chars@ == name@,
            stem_end(name@) == stem_end(name@.take(i as int)),
        decreases i,
    {
        assert(name@.take(i as int).drop_last() =~= name@.take(i - 1));
        i = i - 1;
    }
    if i <= 1 {
        assert(chars@.subrange(0, chars@.len() as int) =~= name@);
        return string_of(&chars, 0, chars.len());
    }
    assert(chars@.subrange(0, i - 1) =~= name@.take(i - 1));
    string_of(&chars, 0, i - 1)
}

/// A path with the extension of its name replaced.
pub fn with_extension(path: &str, extension: &str) -> (r: String)
    ensures
        r@ == with_extension_of(path@, extension@),
{
    let pieces = split_text(path, '/');
    let end = after_last_name(&pieces);
    if end == 0 {
        return path.to_owned();
    }
    assert(texts(pieces@)[end - 1] == pieces@[end - 1]@);
    if same_text(pieces[end - 1].as_str(), "..") {
        return path.to_owned();
    }
    let bare = stem(pieces[end - 1].as_str());
    let mut out = joined_pieces(&pieces, end - 1);
    let ghost front = texts(pieces@).take(end - 1);
    let ghost whole = front.push(bare@);
    if end > 1 {
        out.push('/');
    }
    out.append(bare.as_str());
    proof {
        assert(whole.drop_last() =~= front);
        assert(whole.last() == bare@);
        if end == 1 {
            assert(front =~= Seq::empty());
            assert(out@ =~= bare@);
        }
        assert(out@ =~= join_with(whole, '/'));
    }
    out.push('.');
    out.append(extension);
    out
}

/// The directory that holds what a path names, if it is written down.
pub fn directory(path: &str) -> (r: Option<String>)
    ensures
        match r {
            Some(dir) => directory_of(path@) == Some(dir@),
            None => directory_of(path@) is None,
        },
{
    let pieces = split_text(path, '/');
    let end = after_last_name(&pieces);
    if end == 0 {
        return None;
    }
    let step = after_last_step(&pieces, end - 1);
    if step > 0 {
        return Some(joined_pieces(&pieces, step));
    }
    if end > 1 {
        return Some("/".to_owned());
    }
    None
}

/// A file below a directory has its own name, and the directory is where it is.
pub proof fn law_file_lies_in_its_directory(dir: Seq<char>, name: Seq<char>)
    requires
        !name.contains('/'),
        name.len() > 0,
        name != "."@,
    ensures
        name != ".."@ ==> file_name_of(dir.push('/') + name) == Some(name) && file_name_of(name)
            == Some(name),
        name == ".."@ ==> file_name_of(dir.push('/') + name) is None,
        is_name(split_on(dir, '/').last()) ==> directory_of(dir.push('/') + name) == Some(dir),
        directory_of(seq!['/'] + name) == Some("/"@),
        directory_of(name) is None,
{
    let pieces = split_on(dir.push('/') + name, '/');
    let front = split_on(dir, '/');
    crate::text::lemma_split_concat(dir, '/', name);
    crate::text::lemma_split_absent(name, '/');
    crate::text::lemma_split_pieces(dir, '/');
    assert(pieces == front.push(name)) by {
        assert(front + seq![name] =~= front.push(name));
    }
    lemma_last_name(pieces, pieces.len() - 1);
    lemma_last_name(seq![name], 0);
    assert(pieces.take(pieces.len() - 1) =~= front);
    if is_name(front.last()) {
        lemma_last_step(front, front.len() - 1);
        assert(pieces.take(front.len() as int) =~= front);
        crate::text::law_join_undoes_split(dir, '/');
    }
    let top = Seq::<char>::empty();
    let below = seq!['/'] + name;
    crate::text::lemma_split_concat(top, '/', name);
    assert(top.push('/') + name =~= below);
    crate::text::lemma_split_absent(top, '/');
    let parts = split_on(below, '/');
    assert(parts =~= seq![top, name]);
    lemma_last_name(parts, 1);
    reveal_strlit(".");
    assert(parts.take(1)[0].len() == 0);
    assert(""@.len() == 0) by {
        reveal_strlit("");
    }
    lemma_last_step(parts.take(1), -1);
    assert(seq![name].take(0).len() == 0);
}

/// What stands behind the last dot of a name is replaced; a name without a dot
/// gets an extension.
pub proof fn law_extension_is_replaced(
    dir: Seq<char>,
    stem: Seq<char>,
    ext: Seq<char>,
    next: Seq<char>,
)
    requires
        !stem.contains('/'),
        stem.len() > 0,
        !ext.contains('/'),
        !ext.contains('.'),
        ext.len() > 0,
    ensures
        with_extension_of(dir.push('/') + (stem.push('.') + ext), next) == dir.push('/') + (
        stem.push('.') + next),
        !stem.contains('.') ==> with_extension_of(dir.push('/') + stem, next) == dir.push('/') + (
        stem.push('.') + next),
{
    let name = stem.push('.') + ext;
    reveal_strlit(".");
    reveal_strlit("..");
    assert(!name.contains('/')) by {
        if name.contains('/') {
            let k = choose|k: int| 0 <= k < name.len() && name[k] == '/';
            if k < stem.len() {
                assert(stem[k] == '/');
            } else if k > stem.len() {
                assert(ext[k - stem.len() - 1] == '/');
            }
        }
    }
    assert(name.len() >= 3);
    lemma_stem_end(stem, ext);
    assert(name.take(stem.len() as int) =~= stem);
    lemma_extension_below(dir, name, next);
    assert(dir.push('/') + stem.push('.') + next =~= dir.push('/') + (stem.push('.') + next));
    if !stem.contains('.') {
        assert(stem != "."@ && stem != ".."@) by {
            assert("."@[0] == '.' && ".."@[0] == '.');
            assert(stem[0] != '.');
        }
        lemma_no_stem_end(stem);
        lemma_extension_below(dir, stem, next);
    }
}

proof fn lemma_stem_end(stem: Seq<char>, ext: Seq<char>)
    requires
        !ext.contains('.'),
    ensures
        stem_end(stem.push('.') + ext) == stem.len(),
    decreases ext.len(),
{
    let name = stem.push('.') + ext;
    if ext.len() > 0 {
        assert(ext.contains(ext[ext.len() - 1]));
        let shorter = ext.drop_last();
        assert(!shorter.contains('.')) by {
            if shorter.contains('.') {
                let k = choose|k: int| 0 <= k < shorter.len() && shorter[k] == '.';
                assert(ext[k] == '.');
            }
        }
        lemma_stem_end(stem, shorter);
        assert(name.drop_last() =~= stem.push('.') + shorter);
    } else {
        assert(name =~= stem.push('.'));
    }
}

proof fn lemma_no_stem_end(name: Seq<char>)
    requires
        !name.contains('.'),
    ensures
        stem_end(name) == 0,
    decreases name.len(),
{
    if name.len() > 0 {
        assert(name.contains(name[name.len() - 1]));
        let shorter = name.drop_last();
        assert(!shorter.contains('.')) by {
            if shorter.contains('.') {
                let k = choose|k: int| 0 <= k < shorter.len() && shorter[k] == '.';
                assert(name[k] == '.');
            }
        }
        lemma_no_stem_end(shorter);
    }
}

proof fn lemma_extension_below(dir: Seq<char>, name: Seq<char>, next: Seq<char>)
    requires
        !name.contains('/'),
        name.len() > 0,
        name != "."@,
        name != ".."@,
    ensures
        with_extension_of(dir.push('/') + name, next) == dir.push('/') + (stem_of(name).push('.')
            + next),
{
    let front = split_on(dir, '/');
    let pieces = split_on(dir.push('/') + name, '/');
    crate::text::lemma_split_concat(dir, '/', name);
    crate::text::lemma_split_absent(name, '/');
    crate::text::lemma_split_pieces(dir, '/');
    assert(pieces == front.push(name)) by {
        assert(front + seq![name] =~= front.push(name));
    }
    lemma_last_name(pieces, pieces.len() - 1);
    assert(pieces.take(pieces.len() - 1) =~= front);
    let whole = front.push(stem_of(name));
    assert(whole.drop_last() =~= front);
    crate::text::law_join_undoes_split(dir, '/');
    assert(join_with(whole, '/') == dir.push('/') + stem_of(name));
    assert((dir.push('/') + stem_of(name)).push('.') + next =~= dir.push('/') + (stem_of(name).push(
        '.',
    ) + next));
}

} // verus!
