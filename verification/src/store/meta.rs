//! The sidecar of a stream: what is written next to its data file.

use crate::clock::WallTime;
use crate::path_map::PathMap;
use crate::store::files::{file_name, file_name_of};
use crate::store::stream::{
    closer, sealed_list, ClosedBy, PendingCompaction, Placement, PlacementView, ProducerState,
    SealedSegment, SealedView, StreamState, StreamView,
};
use crate::text::{child_path, copy_optional, opt_text, path_in};
use vstd::prelude::*;

verus! {

/// A sealed part of a stream as the sidecar has it: under a key in the remote
/// tier, or in a chunk file of the segments directory.
pub struct MetaSegment {
    pub logical_start: u64,
    pub len: u64,
    pub remote_key: Option<String>,
    pub local_file: Option<String>,
}

/// A sealed part in a sidecar, as a mathematical value.
#[verifier::ext_equal]
pub struct MetaSegmentView {
    pub logical_start: u64,
    pub len: u64,
    pub remote_key: Option<Seq<char>>,
    pub local_file: Option<Seq<char>>,
}

impl View for MetaSegment {
    type V = MetaSegmentView;

    open spec fn view(&self) -> MetaSegmentView {
        MetaSegmentView {
            logical_start: self.logical_start,
            len: self.len,
            remote_key: opt_text(self.remote_key),
            local_file: opt_text(self.local_file),
        }
    }
}

/// The contents of several sealed parts in a sidecar.
pub open spec fn meta_segments(segments: Seq<MetaSegment>) -> Seq<MetaSegmentView> {
    segments.map_values(|segment: MetaSegment| segment@)
}

/// A sidecar. Those without `file_base`, `pending_compaction` or `durable_tail`
/// come from servers that did not write them.
pub struct Meta {
    pub id: u64,
    pub path: String,
    pub content_type: String,
    pub ttl_seconds: Option<u64>,
    pub expires_at_unix: Option<u64>,
    pub expires_at_raw: Option<String>,
    pub create_closed: bool,
    pub forked_from: Option<String>,
    pub fork_offset_raw: Option<String>,
    pub fork_sub_offset: Option<u64>,
    pub base_offset: u64,
    pub closed: bool,
    pub closed_by: Option<ClosedBy>,
    pub producers: PathMap<ProducerState>,
    pub last_seq_header: Option<String>,
    pub last_access_unix: u64,
    pub ref_count: u32,
    pub soft_deleted: bool,
    pub segments: Vec<MetaSegment>,
    pub sealed_offset: u64,
    pub file_base: Option<u64>,
    pub pending_compaction: Option<PendingCompaction>,
    pub durable_tail: Option<u64>,
}

/// A sidecar as a mathematical value.
#[verifier::ext_equal]
pub struct MetaView {
    pub id: u64,
    pub path: Seq<char>,
    pub content_type: Seq<char>,
    pub ttl_seconds: Option<u64>,
    pub expires_at_unix: Option<u64>,
    pub expires_at_raw: Option<Seq<char>>,
    pub create_closed: bool,
    pub forked_from: Option<Seq<char>>,
    pub fork_offset_raw: Option<Seq<char>>,
    pub fork_sub_offset: Option<u64>,
    pub base_offset: u64,
    pub closed: bool,
    pub closed_by: Option<(Seq<char>, u64, u64)>,
    pub producers: Map<Seq<char>, ProducerState>,
    pub last_seq_header: Option<Seq<char>>,
    pub last_access_unix: u64,
    pub ref_count: u32,
    pub soft_deleted: bool,
    pub segments: Seq<MetaSegmentView>,
    pub sealed_offset: u64,
    pub file_base: Option<u64>,
    pub pending_compaction: Option<PendingCompaction>,
    pub durable_tail: Option<u64>,
}

impl View for Meta {
    type V = MetaView;

    open spec fn view(&self) -> MetaView {
        MetaView {
            id: self.id,
            path: self.path@,
            content_type: self.content_type@,
            ttl_seconds: self.ttl_seconds,
            expires_at_unix: self.expires_at_unix,
            expires_at_raw: opt_text(self.expires_at_raw),
            create_closed: self.create_closed,
            forked_from: opt_text(self.forked_from),
            fork_offset_raw: opt_text(self.fork_offset_raw),
            fork_sub_offset: self.fork_sub_offset,
            base_offset: self.base_offset,
            closed: self.closed,
            closed_by: closer(self.closed_by),
            producers: self.producers@,
            last_seq_header: opt_text(self.last_seq_header),
            last_access_unix: self.last_access_unix,
            ref_count: self.ref_count,
            soft_deleted: self.soft_deleted,
            segments: meta_segments(self.segments@),
            sealed_offset: self.sealed_offset,
            file_base: self.file_base,
            pending_compaction: self.pending_compaction,
            durable_tail: self.durable_tail,
        }
    }
}

/// Whole seconds since the Unix epoch, zero before it, held at the largest
/// number after all clocks.
pub open spec fn unix_secs_of(t: WallTime) -> u64 {
    if t.secs_since_epoch() <= u64::MAX {
        t.secs_since_epoch() as u64
    } else {
        u64::MAX
    }
}

/// Whole seconds since the Unix epoch.
pub fn unix_secs(t: WallTime) -> (r: u64)
    ensures
        r == unix_secs_of(t),
{
    if t.nanos < 0 {
        return 0;
    }
    let secs: u128 = (t.nanos as u128) / 1_000_000_000;
    if secs <= u64::MAX as u128 {
        secs as u64
    } else {
        u64::MAX
    }
}

/// How the sidecar has a sealed part.
pub open spec fn noted(segment: SealedView) -> MetaSegmentView {
    match segment.placement {
        PlacementView::Local(path) => MetaSegmentView {
            logical_start: segment.logical_start,
            len: segment.len,
            remote_key: None,
            local_file: file_name_of(path),
        },
        PlacementView::Remote(key) => MetaSegmentView {
            logical_start: segment.logical_start,
            len: segment.len,
            remote_key: Some(key),
            local_file: None,
        },
    }
}

/// What the sidecar of a stream says.
pub open spec fn captured(stream: StreamView) -> MetaView {
    MetaView {
        id: stream.identity.id,
        path: stream.path,
        content_type: stream.config.content_type,
        ttl_seconds: stream.config.ttl_seconds,
        expires_at_unix: match stream.config.expires_at {
            Some(at) => Some(unix_secs_of(at)),
            None => None,
        },
        expires_at_raw: stream.config.expires_at_raw,
        create_closed: stream.config.create_closed,
        forked_from: stream.config.forked_from,
        fork_offset_raw: stream.config.fork_offset_raw,
        fork_sub_offset: stream.config.fork_sub_offset,
        base_offset: stream.base_offset,
        closed: stream.closed,
        closed_by: stream.closed_by,
        producers: stream.producers,
        last_seq_header: stream.last_seq_header,
        last_access_unix: unix_secs_of(stream.last_access),
        ref_count: stream.ref_count,
        soft_deleted: stream.soft_deleted,
        segments: stream.segments.map_values(|segment: SealedView| noted(segment)),
        sealed_offset: stream.sealed_offset,
        file_base: Some(stream.file_base),
        pending_compaction: stream.compaction,
        durable_tail: Some(stream.durable_tail),
    }
}

fn note_segment(segment: &SealedSegment) -> (r: MetaSegment)
    ensures
        r@ == noted(segment@),
{
    let r = match &segment.placement {
        Placement::Local(path) => MetaSegment {
            logical_start: segment.logical_start,
            len: segment.len,
            remote_key: None,
            local_file: file_name(path.as_str()),
        },
        Placement::Remote(key) => MetaSegment {
            logical_start: segment.logical_start,
            len: segment.len,
            remote_key: Some(key.clone()),
            local_file: None,
        },
    };
    assert(r@ =~= noted(segment@));
    r
}

fn note_segments(segments: &Vec<SealedSegment>) -> (r: Vec<MetaSegment>)
    ensures
        meta_segments(r@) == sealed_list(segments@).map_values(
            |segment: SealedView| noted(segment),
        ),
{
    let ghost goal = sealed_list(segments@).map_values(|segment: SealedView| noted(segment));
    let mut r: Vec<MetaSegment> = Vec::new();
    let mut i: usize = 0;
    while i < segments.len()
        invariant
            i <= segments@.len(),
            goal == sealed_list(segments@).map_values(|segment: SealedView| noted(segment)),
            meta_segments(r@) == goal.take(i as int),
        decreases segments.len() - i,
    {
        let segment = note_segment(&segments[i]);
        assert(sealed_list(segments@)[i as int] == segments@[i as int]@);
        let ghost before = r@;
        r.push(segment);
        i = i + 1;
        assert(meta_segments(r@) =~= meta_segments(before).push(segment@));
        assert(meta_segments(r@) =~= goal.take(i as int));
    }
    assert(goal.take(segments@.len() as int) =~= goal);
    r
}

/// Copy the closing producer.
pub fn copy_closer(closed_by: &Option<ClosedBy>) -> (r: Option<ClosedBy>)
    ensures
        closer(r) == closer(*closed_by),
{
    match closed_by {
        Some(by) => Some(ClosedBy { producer: by.producer.clone(), epoch: by.epoch, seq: by.seq }),
        None => None,
    }
}

impl Meta {
    /// The map of producers is sorted.
    pub open spec fn wf(&self) -> bool {
        self.producers.wf()
    }

    /// The sidecar of a stream as it is now.
    pub fn capture(st: &StreamState) -> (r: Meta)
        requires
            st.wf(),
        ensures
            r.wf(),
            r@ == captured(st@),
    {
        let expires_at_unix = match st.config.expires_at {
            Some(at) => Some(unix_secs(at)),
            None => None,
        };
        let r = Meta {
            id: st.identity.id,
            path: st.path.clone(),
            content_type: st.config.content_type.clone(),
            ttl_seconds: st.config.ttl_seconds,
            expires_at_unix,
            expires_at_raw: copy_optional(&st.config.expires_at_raw),
            create_closed: st.config.create_closed,
            forked_from: copy_optional(&st.config.forked_from),
            fork_offset_raw: copy_optional(&st.config.fork_offset_raw),
            fork_sub_offset: st.config.fork_sub_offset,
            base_offset: st.base_offset,
            closed: st.closed,
            closed_by: copy_closer(&st.closed_by),
            producers: st.producers.duplicate(),
            last_seq_header: copy_optional(&st.last_seq_header),
            last_access_unix: unix_secs(st.last_access),
            ref_count: st.ref_count,
            soft_deleted: st.soft_deleted,
            segments: note_segments(&st.segments),
            sealed_offset: st.sealed_offset,
            file_base: Some(st.file_base),
            pending_compaction: st.compaction,
            durable_tail: Some(st.durable_tail),
        };
        assert(r@ =~= captured(st@));
        r
    }
}

/// Where a sealed part of a sidecar is kept, given the segments directory.
pub open spec fn placed(segment: MetaSegmentView, segments_dir: Seq<char>) -> SealedView {
    SealedView {
        logical_start: segment.logical_start,
        len: segment.len,
        placement: match segment.remote_key {
            Some(key) => PlacementView::Remote(key),
            None => PlacementView::Local(
                path_in(
                    segments_dir,
                    match segment.local_file {
                        Some(name) => name,
                        None => Seq::empty(),
                    },
                ),
            ),
        },
    }
}

/// The sealed parts of a sidecar in their places.
pub fn place_segments(segments: &Vec<MetaSegment>, segments_dir: &str) -> (r: Vec<SealedSegment>)
    ensures
        sealed_list(r@) == meta_segments(segments@).map_values(
            |segment: MetaSegmentView| placed(segment, segments_dir@),
        ),
{
    let ghost goal = meta_segments(segments@).map_values(
        |segment: MetaSegmentView| placed(segment, segments_dir@),
    );
    let mut r: Vec<SealedSegment> = Vec::new();
    let mut i: usize = 0;
    while i < segments.len()
        invariant
            i <= segments@.len(),
            goal == meta_segments(segments@).map_values(
                |segment: MetaSegmentView| placed(segment, segments_dir@),
            ),
            sealed_list(r@) == goal.take(i as int),
        decreases segments.len() - i,
    {
        let segment = &segments[i];
        assert(meta_segments(segments@)[i as int] == segments@[i as int]@);
        let placement = match &segment.remote_key {
            Some(key) => Placement::Remote(key.clone()),
            None => {
                let name = match &segment.local_file {
                    Some(name) => name.clone(),
                    None => String::new(),
                };
                assert(segment@.local_file is None ==> name@ =~= Seq::<char>::empty());
                Placement::Local(child_path(segments_dir, name.as_str()))
            },
        };
        let sealed = SealedSegment {
            logical_start: segment.logical_start,
            len: segment.len,
            placement,
        };
        assert(sealed@ =~= placed(segment@, segments_dir@));
        let ghost before = r@;
        r.push(sealed);
        i = i + 1;
        assert(sealed_list(r@) =~= sealed_list(before).push(sealed@));
        assert(sealed_list(r@) =~= goal.take(i as int));
    }
    assert(goal.take(segments@.len() as int) =~= goal);
    r
}

} // verus!
