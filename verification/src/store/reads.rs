//! Reading ranges of files, the remote tier, and the subscribers of a stream.

use crate::text::{child_path, path_in};
use vstd::prelude::*;

verus! {

/// A read of `len` bytes from `file_start` of a file, which is known by number.
#[derive(Clone, Copy, Debug, PartialEq, Eq, Structural)]
pub struct Segment {
    pub file: u64,
    pub file_start: u64,
    pub len: u64,
}

impl Segment {
    /// Where the read ends in the file.
    pub fn file_end(&self) -> (r: u64)
        requires
            self.file_start + self.len <= u64::MAX,
        ensures
            r == self.file_start + self.len,
    {
        self.file_start + self.len
    }
}

/// The bytes of several reads one after the other, none if one of them failed.
pub open spec fn gathered(parts: Seq<Option<Seq<u8>>>) -> Option<Seq<u8>>
    decreases parts.len(),
{
    if parts.len() == 0 {
        Some(Seq::empty())
    } else {
        match (gathered(parts.drop_last()), parts.last()) {
            (Some(front), Some(part)) => Some(front + part),
            _ => None,
        }
    }
}

/// What each read gave, if anything.
pub open spec fn contents(parts: Seq<Option<Vec<u8>>>) -> Seq<Option<Seq<u8>>> {
    parts.map_values(
        |part: Option<Vec<u8>>|
            match part {
                Some(bytes) => Some(bytes@),
                None => None,
            },
    )
}

proof fn lemma_gathered_fails(parts: Seq<Option<Seq<u8>>>, i: int)
    requires
        0 <= i < parts.len(),
        parts[i] is None,
    ensures
        gathered(parts) is None,
    decreases parts.len(),
{
    if i < parts.len() - 1 {
        lemma_gathered_fails(parts.drop_last(), i);
    }
}

/// Put the results of several reads together. Where one failed, nothing is given
/// out: the file may have been removed meanwhile.
pub fn materialize_segments(parts: &Vec<Option<Vec<u8>>>) -> (r: Vec<u8>)
    ensures
        r@ == (match gathered(contents(parts@)) {
            Some(bytes) => bytes,
            None => Seq::empty(),
        }),
{
    let ghost all = contents(parts@);
    let mut out: Vec<u8> = Vec::new();
    let mut i: usize = 0;
    assert(all.take(0) =~= Seq::empty());
    while i < parts.len()
        invariant
            i <= parts@.len(),
            all == contents(parts@),
            gathered(all.take(i as int)) == Some(out@),
        decreases parts.len() - i,
    {
        assert(all.take(i + 1).drop_last() =~= all.take(i as int));
        assert(all.take(i + 1).last() == all[i as int]);
        match &parts[i] {
            Some(bytes) => {
                let mut j: usize = 0;
                let ghost before = out@;
                assert(before + bytes@.take(0) =~= before);
                while j < bytes.len()
                    invariant
                        j <= bytes@.len(),
                        out@ == before + bytes@.take(j as int),
                    decreases bytes.len() - j,
                {
                    out.push(bytes[j]);
                    j = j + 1;
                    assert(out@ =~= before + bytes@.take(j as int));
                }
                assert(bytes@.take(j as int) =~= bytes@);
                assert(all[i as int] == Some(bytes@));
            },
            None => {
                proof {
                    assert(all[i as int] is None);
                    lemma_gathered_fails(all, i as int);
                }
                return Vec::new();
            },
        }
        i = i + 1;
    }
    assert(all.take(all.len() as int) =~= all);
    out
}

/// Which remote tier is configured.
#[derive(Clone, Copy, Debug, PartialEq, Eq, Structural)]
pub enum TierKind {
    Off,
    Local,
    S3,
}

/// Which remote tier to open.
pub enum BlobStorePlan {
    /// A directory that stands for one.
    Directory(String),
    /// An object store.
    Objects,
}

/// Which remote tier to open, if any. Object storage needs a build that has it.
pub fn plan_blobstore(kind: TierKind, local_dir: Option<&str>, data_dir: &str, has_objects: bool) -> (r:
    Result<Option<BlobStorePlan>, &'static str>)
    ensures
        match kind {
            TierKind::Off => r matches Ok(None),
            TierKind::Local => r matches Ok(Some(BlobStorePlan::Directory(dir))) && dir@ == (
            match local_dir {
                Some(dir) => dir@,
                None => path_in(data_dir@, "cold"@),
            }),
            TierKind::S3 => if has_objects {
                r matches Ok(Some(BlobStorePlan::Objects))
            } else {
                r matches Err(message) && message@
                    == "--tier s3 requires building with `--features tier`"@
            },
        },
{
    match kind {
        TierKind::Off => Ok(None),
        TierKind::Local => {
            let dir = match local_dir {
                Some(dir) => dir.to_owned(),
                None => child_path(data_dir, "cold"),
            };
            Ok(Some(BlobStorePlan::Directory(dir)))
        },
        TierKind::S3 => if has_objects {
            Ok(Some(BlobStorePlan::Objects))
        } else {
            Err("--tier s3 requires building with `--features tier`")
        },
    }
}

/// Where a subscriber is served: in which shard, at which place, and which use
/// of the place it is.
#[derive(Clone, Copy, Debug, PartialEq, Eq, Structural)]
pub struct SubHandle {
    pub shard: u16,
    pub key: u32,
    pub gen: u32,
}

/// The subscribers of a stream, and whether they are about to be woken.
pub struct StreamSubs {
    pub subs: Vec<SubHandle>,
    pub wake_pending: bool,
}

/// Cold storage is where it was asked for: nowhere, in a directory, beside the data
/// if none is named, or in an object store if there is one.
pub proof fn law_cold_storage_is_where_it_was_asked_for(
    kind: TierKind,
    local_dir: Option<&str>,
    data_dir: &str,
    has_objects: bool,
    r: Result<Option<BlobStorePlan>, &'static str>,
)
    requires
        call_ensures(plan_blobstore, (kind, local_dir, data_dir, has_objects), r),
    ensures
        r matches Ok(None) <==> kind == TierKind::Off,
        r is Err <==> kind == TierKind::S3 && !has_objects,
        r matches Ok(Some(BlobStorePlan::Directory(dir))) ==> kind == TierKind::Local && (
        local_dir matches Some(given) ==> dir@ == given@) && (local_dir is None ==> dir@ == path_in(
            data_dir@,
            "cold"@,
        )),
        r matches Ok(Some(BlobStorePlan::Objects)) ==> kind == TierKind::S3 && has_objects,
{
}

} // verus!
