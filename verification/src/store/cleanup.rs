//! What a cleanup of a stream's local files is asked to do and reports.

use crate::store::files::{directory, directory_of, file_name, file_name_of};
use crate::store::naming::meta_path;
use crate::store::stream::{Placement, PlacementView, StreamState, StreamView};
use crate::text::{after_prefix, child_path, path_in, same_text, starts_with, texts};
use vstd::prelude::*;

verus! {

/// Why local files are being removed.
#[derive(Clone, Copy, Debug, PartialEq, Eq, Structural)]
pub enum LocalCleanupMode {
    /// A client asked for the deletion.
    ExplicitDelete,
    /// The stream outlived its deadline.
    Expiry,
    /// The last fork of a soft-deleted parent went away.
    CascadeCollection,
}

/// What became of the stream.
#[derive(Clone, Copy, Debug, PartialEq, Eq, Structural)]
pub enum LocalCleanupDisposition {
    /// The local files are gone.
    HardReaped,
    /// Forks still read the stream, so it was only marked as deleted.
    DurableSoftDeleted,
}

/// The report of one successful cleanup.
#[derive(Clone, Copy, Debug, PartialEq, Eq, Structural)]
pub struct LocalCleanupOutcome {
    pub reclaimed_local_bytes: u64,
    pub disposition: LocalCleanupDisposition,
}

impl Default for LocalCleanupOutcome {
    fn default() -> (r: Self)
        ensures
            r.reclaimed_local_bytes == 0,
            r.disposition == LocalCleanupDisposition::HardReaped,
    {
        LocalCleanupOutcome {
            reclaimed_local_bytes: 0,
            disposition: LocalCleanupDisposition::HardReaped,
        }
    }
}

/// What became of one file.
#[derive(Clone, Copy, Debug, PartialEq, Eq, Structural)]
pub enum FileFate {
    /// It was not there: an earlier attempt removed it.
    Missing,
    /// It was removed, and this long.
    Removed(u64),
    /// It could not be looked at or removed.
    Failed,
}

/// How long the removed files were.
pub open spec fn reclaimed(fates: Seq<FileFate>) -> int
    decreases fates.len(),
{
    if fates.len() == 0 {
        0
    } else {
        reclaimed(fates.drop_last()) + match fates.last() {
            FileFate::Removed(bytes) => bytes as int,
            _ => 0,
        }
    }
}

proof fn lemma_reclaimed_grows(fates: Seq<FileFate>, i: int)
    requires
        0 <= i <= fates.len(),
    ensures
        0 <= reclaimed(fates.take(i)) <= reclaimed(fates),
    decreases fates.len(),
{
    if i < fates.len() {
        lemma_reclaimed_grows(fates.drop_last(), i);
        assert(fates.drop_last().take(i) =~= fates.take(i));
    } else {
        assert(fates.take(i) =~= fates);
        if fates.len() > 0 {
            lemma_reclaimed_grows(fates.drop_last(), fates.len() - 1);
            assert(fates.drop_last().take(fates.len() - 1) =~= fates.drop_last());
        }
    }
}

/// The report of a cleanup, or which file failed first.
pub fn tally(fates: &Vec<FileFate>) -> (r: Result<LocalCleanupOutcome, usize>)
    requires
        reclaimed(fates@) <= u64::MAX,
    ensures
        match r {
            Ok(outcome) => {
                &&& forall|i: int| 0 <= i < fates@.len() ==> #[trigger] fates@[i] != FileFate::Failed
                &&& outcome.reclaimed_local_bytes == reclaimed(fates@)
                &&& outcome.disposition == LocalCleanupDisposition::HardReaped
            },
            Err(at) => {
                &&& at < fates@.len()
                &&& fates@[at as int] == FileFate::Failed
                &&& forall|i: int| 0 <= i < at ==> #[trigger] fates@[i] != FileFate::Failed
            },
        },
{
    let mut total: u64 = 0;
    let mut i: usize = 0;
    assert(fates@.take(0) =~= Seq::empty());
    while i < fates.len()
        invariant
            i <= fates@.len(),
            reclaimed(fates@) <= u64::MAX,
            total == reclaimed(fates@.take(i as int)),
            forall|k: int| 0 <= k < i ==> #[trigger] fates@[k] != FileFate::Failed,
        decreases fates.len() - i,
    {
        proof {
            assert(fates@.take(i + 1).drop_last() =~= fates@.take(i as int));
            assert(fates@.take(i + 1).last() == fates@[i as int]);
            lemma_reclaimed_grows(fates@, i + 1);
        }
        match fates[i] {
            FileFate::Missing => {},
            FileFate::Removed(bytes) => {
                total = total + bytes;
            },
            FileFate::Failed => {
                return Err(i);
            },
        }
        i = i + 1;
    }
    assert(fates@.take(fates@.len() as int) =~= fates@);
    Ok(
        LocalCleanupOutcome {
            reclaimed_local_bytes: total,
            disposition: LocalCleanupDisposition::HardReaped,
        },
    )
}

/// How the chunk files of a stream start.
pub open spec fn chunk_prefix(stream: StreamView) -> Seq<char> {
    (match file_name_of(stream.file_path) {
        Some(name) => name,
        None => "stream"@,
    }) + ".seg."@
}

/// Whether a file is one of a stream's: its data file, its sidecar, a sealed part
/// kept locally, or a chunk file with its name.
pub open spec fn is_local_file(
    stream: StreamView,
    chunk_names: Seq<Seq<char>>,
    segments_dir: Seq<char>,
    path: Seq<char>,
) -> bool {
    ||| path == stream.file_path
    ||| path == stream.file_path + ".meta"@
    ||| exists|i: int|
        0 <= i < stream.segments.len() && (#[trigger] stream.segments[i]).placement
            == PlacementView::Local(path)
    ||| exists|i: int|
        0 <= i < chunk_names.len() && starts_with(
            #[trigger] chunk_names[i],
            chunk_prefix(stream),
        ) && path == path_in(segments_dir, chunk_names[i])
}

/// Add a text to a list, unless it is there.
fn push_new(list: &mut Vec<String>, text: String)
    requires
        texts(old(list)@).no_duplicates(),
    ensures
        texts(final(list)@).no_duplicates(),
        forall|t: Seq<char>| #[trigger]
            texts(final(list)@).contains(t) <==> texts(old(list)@).contains(t) || t == text@,
{
    let ghost all = texts(list@);
    let mut i: usize = 0;
    while i < list.len()
        invariant
            i <= list@.len(),
            all == texts(list@),
            all == texts(old(list)@),
            all.no_duplicates(),
            forall|k: int| 0 <= k < i ==> #[trigger] all[k] != text@,
        decreases list.len() - i,
    {
        assert(all[i as int] == list@[i as int]@);
        if same_text(list[i].as_str(), text.as_str()) {
            assert(all.contains(text@));
            return;
        }
        i = i + 1;
    }
    let ghost added = text@;
    list.push(text);
    let ghost next = texts(list@);
    assert(next =~= all.push(added));
    assert forall|t: Seq<char>| #[trigger] next.contains(t) <==> all.contains(t) || t == added by {
        if all.contains(t) {
            assert(next[all.index_of(t)] == t);
        }
        assert(next[all.len() as int] == added);
        if next.contains(t) {
            let k = next.index_of(t);
            if k < all.len() {
                assert(all[k] == t);
            }
        }
    }
}

/// The files of a stream, each once, given the names in the segments directory.
pub fn local_files(stream: &StreamState, chunk_names: &Vec<String>, segments_dir: &str) -> (r: Vec<
    String,
>)
    ensures
        texts(r@).no_duplicates(),
        forall|path: Seq<char>| #[trigger]
            texts(r@).contains(path) <==> is_local_file(
                stream@,
                texts(chunk_names@),
                segments_dir@,
                path,
            ),
{
    let ghost names = texts(chunk_names@);
    let ghost sealed = stream@.segments;
    let ghost base = stream@.file_path;
    let mut paths: Vec<String> = Vec::new();
    assert(texts(paths@) =~= Seq::empty());
    push_new(&mut paths, stream.file_path.clone());
    push_new(&mut paths, meta_path(stream.file_path.as_str()));
    let mut i: usize = 0;
    while i < stream.segments.len()
        invariant
            i <= stream.segments@.len(),
            sealed == stream@.segments,
            base == stream@.file_path,
            texts(paths@).no_duplicates(),
            forall|path: Seq<char>| #[trigger]
                texts(paths@).contains(path) <==> {
                    ||| path == base
                    ||| path == base + ".meta"@
                    ||| exists|k: int|
                        0 <= k < i && (#[trigger] sealed[k]).placement == PlacementView::Local(path)
                },
        decreases stream.segments.len() - i,
    {
        assert(sealed[i as int] == stream.segments@[i as int]@);
        if let Placement::Local(path) = &stream.segments[i].placement {
            push_new(&mut paths, path.clone());
        }
        i = i + 1;
    }
    let mut prefix = match file_name(stream.file_path.as_str()) {
        Some(name) => name,
        None => "stream".to_owned(),
    };
    prefix.append(".seg.");
    assert(prefix@ == chunk_prefix(stream@));
    let mut j: usize = 0;
    while j < chunk_names.len()
        invariant
            j <= chunk_names@.len(),
            names == texts(chunk_names@),
            sealed == stream@.segments,
            base == stream@.file_path,
            prefix@ == chunk_prefix(stream@),
            texts(paths@).no_duplicates(),
            forall|path: Seq<char>| #[trigger]
                texts(paths@).contains(path) <==> {
                    ||| path == base
                    ||| path == base + ".meta"@
                    ||| exists|k: int|
                        0 <= k < sealed.len() && (#[trigger] sealed[k]).placement
                            == PlacementView::Local(path)
                    ||| exists|k: int|
                        0 <= k < j && starts_with(#[trigger] names[k], prefix@) && path
                            == path_in(segments_dir@, names[k])
                },
        decreases chunk_names.len() - j,
    {
        assert(names[j as int] == chunk_names@[j as int]@);
        if after_prefix(chunk_names[j].as_str(), prefix.as_str()).is_some() {
            let path = child_path(segments_dir, chunk_names[j].as_str());
            push_new(&mut paths, path);
        }
        j = j + 1;
    }
    paths
}

/// The directories whose changes must reach the disk after a cleanup: those of
/// the files where a client waits for the deletion, none otherwise.
pub fn directories_to_sync(paths: &Vec<String>, mode: LocalCleanupMode) -> (r: Vec<String>)
    ensures
        texts(r@).no_duplicates(),
        mode != LocalCleanupMode::ExplicitDelete ==> r@.len() == 0,
        mode == LocalCleanupMode::ExplicitDelete ==> forall|dir: Seq<char>| #[trigger]
            texts(r@).contains(dir) <==> holds_one(dir, texts(paths@)),
{
    let ghost all = texts(paths@);
    let mut dirs: Vec<String> = Vec::new();
    assert(texts(dirs@) =~= Seq::empty());
    if mode != LocalCleanupMode::ExplicitDelete {
        return dirs;
    }
    let mut i: usize = 0;
    while i < paths.len()
        invariant
            i <= paths@.len(),
            all == texts(paths@),
            texts(dirs@).no_duplicates(),
            forall|dir: Seq<char>| #[trigger]
                texts(dirs@).contains(dir) <==> exists|k: int|
                    0 <= k < i && directory_of(#[trigger] all[k]) == Some(dir),
        decreases paths.len() - i,
    {
        assert(all[i as int] == paths@[i as int]@);
        if let Some(dir) = directory(paths[i].as_str()) {
            push_new(&mut dirs, dir);
        }
        i = i + 1;
    }
    dirs
}

/// Whether a directory holds one of the files.
pub open spec fn holds_one(dir: Seq<char>, paths: Seq<Seq<char>>) -> bool {
    exists|i: int| 0 <= i < paths.len() && directory_of(#[trigger] paths[i]) == Some(dir)
}

/// A cleanup that finds none of its files succeeds and reclaims nothing, so an
/// attempt can be repeated.
pub proof fn law_repeated_cleanup_reclaims_nothing(fates: Seq<FileFate>)
    requires
        forall|i: int| 0 <= i < fates.len() ==> #[trigger] fates[i] == FileFate::Missing,
    ensures
        reclaimed(fates) == 0,
    decreases fates.len(),
{
    if fates.len() > 0 {
        law_repeated_cleanup_reclaims_nothing(fates.drop_last());
    }
}

/// A cleanup reclaims what its files held, added up; what was not there or could
/// not be removed adds nothing.
pub proof fn law_reclaimed_bytes_add_up(fates: Seq<FileFate>, fate: FileFate)
    ensures
        reclaimed(fates.push(fate)) == reclaimed(fates) + (match fate {
            FileFate::Removed(bytes) => bytes as int,
            FileFate::Missing => 0,
            FileFate::Failed => 0,
        }),
        reclaimed(Seq::empty()) == 0,
{
    assert(fates.push(fate).drop_last() =~= fates);
}

/// A cleanup takes the data file of a stream, its sidecar, its sealed parts and the
/// chunk files that carry its name, and no chunk file with another name.
pub proof fn law_cleanup_takes_the_files_of_the_stream(
    stream: &StreamState,
    chunk_names: &Vec<String>,
    segments_dir: &str,
    r: Vec<String>,
    name: Seq<char>,
    rest: Seq<char>,
    k: int,
)
    requires
        call_ensures(local_files, (stream, chunk_names, segments_dir), r),
        crate::store::files::file_name_of(stream@.file_path) == Some(name),
    ensures
        texts(r@).contains(stream@.file_path),
        texts(r@).contains(stream@.file_path + ".meta"@),
        texts(r@).no_duplicates(),
        0 <= k < stream@.segments.len() ==> (stream@.segments[k].placement matches
            PlacementView::Local(path) ==> texts(r@).contains(path)),
        texts(chunk_names@).contains(name + ".seg."@ + rest) ==> texts(r@).contains(
            path_in(segments_dir@, name + ".seg."@ + rest),
        ),
        forall|path: Seq<char>| #[trigger]
            texts(r@).contains(path) ==> {
                ||| path == stream@.file_path
                ||| path == stream@.file_path + ".meta"@
                ||| exists|i: int|
                    0 <= i < stream@.segments.len() && (#[trigger] stream@.segments[i]).placement
                        == PlacementView::Local(path)
                ||| exists|i: int|
                    0 <= i < chunk_names@.len() && path == path_in(
                        segments_dir@,
                        #[trigger] texts(chunk_names@)[i],
                    ) && starts_with(texts(chunk_names@)[i], name + ".seg."@)
            },
{
    let names = texts(chunk_names@);
    let chunk = name + ".seg."@ + rest;
    let prefix = name + ".seg."@;
    assert(chunk.take(prefix.len() as int) =~= prefix);
    if 0 <= k < stream@.segments.len() {
        if let PlacementView::Local(path) = stream@.segments[k].placement {
            assert(is_local_file(stream@, names, segments_dir@, path));
        }
    }
    if names.contains(chunk) {
        let i = choose|i: int| 0 <= i < names.len() && names[i] == chunk;
        assert(starts_with(names[i], chunk_prefix(stream@)));
        assert(is_local_file(stream@, names, segments_dir@, path_in(segments_dir@, chunk)));
    }
    assert(is_local_file(stream@, names, segments_dir@, stream@.file_path));
    assert(is_local_file(stream@, names, segments_dir@, stream@.file_path + ".meta"@));
}

/// Where a client waits for a deletion, the directory of every file reaches the
/// disk; otherwise none has to.
pub proof fn law_awaited_deletions_reach_the_disk(
    paths: &Vec<String>,
    mode: LocalCleanupMode,
    r: Vec<String>,
    i: int,
)
    requires
        call_ensures(directories_to_sync, (paths, mode), r),
        0 <= i < paths@.len(),
    ensures
        mode == LocalCleanupMode::ExplicitDelete ==> (directory_of(paths@[i]@) matches Some(dir)
            ==> texts(r@).contains(dir)),
        mode != LocalCleanupMode::ExplicitDelete ==> r@.len() == 0,
{
    assert(texts(paths@)[i] == paths@[i]@);
    if mode == LocalCleanupMode::ExplicitDelete {
        if let Some(dir) = directory_of(paths@[i]@) {
            assert(holds_one(dir, texts(paths@)));
        }
    }
}

} // verus!
