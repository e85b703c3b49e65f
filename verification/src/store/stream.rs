//! One stream: its configuration, how far it is written, and when it expires.

use crate::clock::WallTime;
use crate::path_map::{Duplicate, PathMap};
use crate::store::identity::StreamIdentity;
use crate::store::naming::{etag, etag_text, media_type, media_type_of};
use crate::text::{opt_text, same_optional, same_text};
use vstd::prelude::*;

verus! {

/// What readers see of a stream's end.
#[derive(Clone, Copy, Debug, PartialEq, Eq, Structural)]
pub struct Tail {
    pub bytes: u64,
    pub closed: bool,
}

/// How far a producer got.
#[derive(Clone, Copy, Debug, PartialEq, Eq, Structural)]
pub struct ProducerState {
    pub epoch: u64,
    pub last_seq: u64,
}

impl View for ProducerState {
    type V = ProducerState;

    open spec fn view(&self) -> ProducerState {
        *self
    }
}

impl Duplicate for ProducerState {
    fn duplicate(&self) -> (r: Self) {
        *self
    }
}

/// What a stream was created with.
pub struct StreamConfig {
    pub content_type: String,
    pub ttl_seconds: Option<u64>,
    pub expires_at: Option<WallTime>,
    pub expires_at_raw: Option<String>,
    pub create_closed: bool,
    pub forked_from: Option<String>,
    pub fork_offset_raw: Option<String>,
    pub fork_sub_offset: Option<u64>,
}

/// What a stream was created with, as a mathematical value.
#[verifier::ext_equal]
pub struct StreamConfigView {
    pub content_type: Seq<char>,
    pub ttl_seconds: Option<u64>,
    pub expires_at: Option<WallTime>,
    pub expires_at_raw: Option<Seq<char>>,
    pub create_closed: bool,
    pub forked_from: Option<Seq<char>>,
    pub fork_offset_raw: Option<Seq<char>>,
    pub fork_sub_offset: Option<u64>,
}

impl View for StreamConfig {
    type V = StreamConfigView;

    open spec fn view(&self) -> StreamConfigView {
        StreamConfigView {
            content_type: self.content_type@,
            ttl_seconds: self.ttl_seconds,
            expires_at: self.expires_at,
            expires_at_raw: opt_text(self.expires_at_raw),
            create_closed: self.create_closed,
            forked_from: opt_text(self.forked_from),
            fork_offset_raw: opt_text(self.fork_offset_raw),
            fork_sub_offset: self.fork_sub_offset,
        }
    }
}

/// The producer that closed a stream.
pub struct ClosedBy {
    pub producer: String,
    pub epoch: u64,
    pub seq: u64,
}

/// The contents of an optional closing producer.
pub open spec fn closer(closed_by: Option<ClosedBy>) -> Option<(Seq<char>, u64, u64)> {
    match closed_by {
        Some(by) => Some((by.producer@, by.epoch, by.seq)),
        None => None,
    }
}

/// A compaction of the live file that is under way: where the file will start,
/// and where the stream ends while it lasts.
#[derive(Clone, Copy, Debug, PartialEq, Eq, Structural)]
pub struct PendingCompaction {
    pub new_file_base: u64,
    pub tail: u64,
}

/// Where a sealed part of a stream is kept: in a local chunk file, or in the
/// remote tier under a key.
pub enum Placement {
    Local(String),
    Remote(String),
}

/// Where a sealed part is kept, as a mathematical value.
pub enum PlacementView {
    Local(Seq<char>),
    Remote(Seq<char>),
}

impl View for Placement {
    type V = PlacementView;

    open spec fn view(&self) -> PlacementView {
        match self {
            Placement::Local(path) => PlacementView::Local(path@),
            Placement::Remote(key) => PlacementView::Remote(key@),
        }
    }
}

/// A sealed part of a stream.
pub struct SealedSegment {
    pub logical_start: u64,
    pub len: u64,
    pub placement: Placement,
}

/// A sealed part of a stream as a mathematical value.
#[verifier::ext_equal]
pub struct SealedView {
    pub logical_start: u64,
    pub len: u64,
    pub placement: PlacementView,
}

impl View for SealedSegment {
    type V = SealedView;

    open spec fn view(&self) -> SealedView {
        SealedView {
            logical_start: self.logical_start,
            len: self.len,
            placement: self.placement@,
        }
    }
}

/// The contents of several sealed parts.
pub open spec fn sealed_list(segments: Seq<SealedSegment>) -> Seq<SealedView> {
    segments.map_values(|segment: SealedSegment| segment@)
}

/// A stream.
///
/// `tail` is how far it is written, `durable_tail` how far that is known to
/// survive a crash; readers see the latter. In the same way `closed` is what
/// writers see and `closed_durable` what readers see. `base_offset` is where
/// the stream's own data starts, `file_base` where its live file starts.
pub struct StreamState {
    pub identity: StreamIdentity,
    pub path: String,
    pub config: StreamConfig,
    pub is_json: bool,
    pub file_path: String,
    pub base_offset: u64,
    pub parent: Option<u64>,
    pub boot_meta_durable_tail: Option<u64>,
    pub fenced: bool,
    pub inflight_appends: usize,
    pub meta_dirty: bool,
    pub tail: u64,
    pub durable_tail: u64,
    pub file_base: u64,
    pub closed: bool,
    pub closed_durable: bool,
    pub closed_by: Option<ClosedBy>,
    pub producers: PathMap<ProducerState>,
    pub last_seq_header: Option<String>,
    pub last_access: WallTime,
    pub ref_count: u32,
    pub soft_deleted: bool,
    pub segments: Vec<SealedSegment>,
    pub sealed_offset: u64,
    pub compaction: Option<PendingCompaction>,
}

/// A stream as a mathematical value.
#[verifier::ext_equal]
pub struct StreamView {
    pub identity: StreamIdentity,
    pub path: Seq<char>,
    pub config: StreamConfigView,
    pub is_json: bool,
    pub file_path: Seq<char>,
    pub base_offset: u64,
    pub parent: Option<u64>,
    pub boot_meta_durable_tail: Option<u64>,
    pub fenced: bool,
    pub inflight_appends: usize,
    pub meta_dirty: bool,
    pub tail: u64,
    pub durable_tail: u64,
    pub file_base: u64,
    pub closed: bool,
    pub closed_durable: bool,
    pub closed_by: Option<(Seq<char>, u64, u64)>,
    pub producers: Map<Seq<char>, ProducerState>,
    pub last_seq_header: Option<Seq<char>>,
    pub last_access: WallTime,
    pub ref_count: u32,
    pub soft_deleted: bool,
    pub segments: Seq<SealedView>,
    pub sealed_offset: u64,
    pub compaction: Option<PendingCompaction>,
}

impl View for StreamState {
    type V = StreamView;

    open spec fn view(&self) -> StreamView {
        StreamView {
            identity: self.identity,
            path: self.path@,
            config: self.config@,
            is_json: self.is_json,
            file_path: self.file_path@,
            base_offset: self.base_offset,
            parent: self.parent,
            boot_meta_durable_tail: self.boot_meta_durable_tail,
            fenced: self.fenced,
            inflight_appends: self.inflight_appends,
            meta_dirty: self.meta_dirty,
            tail: self.tail,
            durable_tail: self.durable_tail,
            file_base: self.file_base,
            closed: self.closed,
            closed_durable: self.closed_durable,
            closed_by: closer(self.closed_by),
            producers: self.producers@,
            last_seq_header: opt_text(self.last_seq_header),
            last_access: self.last_access,
            ref_count: self.ref_count,
            soft_deleted: self.soft_deleted,
            segments: sealed_list(self.segments@),
            sealed_offset: self.sealed_offset,
            compaction: self.compaction,
        }
    }
}

impl StreamConfigView {
    /// The deadline from the last access, if there is one that the clock reaches.
    pub open spec fn ttl_deadline(self, last_access: WallTime) -> Option<WallTime> {
        match self.ttl_seconds {
            Some(secs) => last_access.plus_secs(secs),
            None => None,
        }
    }
}

impl StreamView {
    /// When the stream expires: at the earlier of its two deadlines.
    pub open spec fn deadline(self) -> Option<WallTime> {
        match (self.config.expires_at, self.config.ttl_deadline(self.last_access)) {
            (Some(absolute), Some(ttl)) => Some(
                if absolute.nanos <= ttl.nanos {
                    absolute
                } else {
                    ttl
                },
            ),
            (Some(absolute), None) => Some(absolute),
            (None, ttl) => ttl,
        }
    }

    /// Whether the stream has expired. At its deadline it has not.
    pub open spec fn expired_at(self, now: WallTime) -> bool {
        self.deadline() matches Some(deadline) && now.nanos > deadline.nanos
    }

    /// The stream after it was used.
    pub open spec fn used(self, now: WallTime) -> StreamView {
        StreamView { last_access: now, ..self }
    }

    /// The stream with one more append under way, and whether it could begin.
    pub open spec fn append_begun(self) -> (StreamView, bool) {
        if self.fenced {
            (self, false)
        } else {
            (
                StreamView { inflight_appends: (self.inflight_appends + 1) as usize, ..self },
                true,
            )
        }
    }

    /// The stream with one append less under way, and whether it was the last.
    pub open spec fn append_ended(self) -> (StreamView, bool) {
        (
            StreamView { inflight_appends: (self.inflight_appends - 1) as usize, ..self },
            self.inflight_appends == 1,
        )
    }

    /// Whether a request asks for the stream as it is.
    pub open spec fn matches(self, requested: StreamConfigView) -> bool {
        &&& media_type_of(self.config.content_type) == media_type_of(requested.content_type)
        &&& self.config.ttl_seconds == requested.ttl_seconds
        &&& self.config.expires_at_raw == requested.expires_at_raw
        &&& self.config.forked_from == requested.forked_from
        &&& self.config.fork_offset_raw == requested.fork_offset_raw
        &&& sub_offset(self.config.fork_sub_offset) == sub_offset(requested.fork_sub_offset)
        &&& requested.create_closed == self.closed
    }
}

/// A sub-offset, zero where none is given.
pub open spec fn sub_offset(given: Option<u64>) -> u64 {
    match given {
        Some(offset) => offset,
        None => 0,
    }
}

impl StreamState {
    /// The map of producers is sorted.
    pub open spec fn wf(&self) -> bool {
        self.producers.wf()
    }

    /// What readers see of the stream's end: bytes and closing only once they
    /// survive a crash.
    pub fn tail(&self) -> (r: Tail)
        ensures
            r.bytes == self@.durable_tail,
            r.closed == self@.closed_durable,
    {
        Tail { bytes: self.durable_tail, closed: self.closed_durable }
    }

    /// Note an access.
    pub fn touch(&mut self, now: WallTime)
        ensures
            final(self)@ == (StreamView { last_access: now, ..old(self)@ }),
            final(self)@ == old(self)@.used(now),
            final(self).producers == old(self).producers,
    {
        self.last_access = now;
        assert(self@ =~= (StreamView { last_access: now, ..old(self)@ }));
    }

    /// When the stream expires.
    pub fn expiry_deadline(&self) -> (r: Option<WallTime>)
        ensures
            r == self@.deadline(),
    {
        let ttl_deadline = match self.config.ttl_seconds {
            Some(secs) => self.last_access.checked_add_secs(secs),
            None => None,
        };
        match (self.config.expires_at, ttl_deadline) {
            (Some(absolute), Some(ttl)) => Some(
                if absolute.nanos <= ttl.nanos {
                    absolute
                } else {
                    ttl
                },
            ),
            (Some(absolute), None) => Some(absolute),
            (None, ttl) => ttl,
        }
    }

    /// Whether the stream has expired.
    pub fn is_expired_at(&self, now: WallTime) -> (r: bool)
        ensures
            r == self@.expired_at(now),
    {
        match self.expiry_deadline() {
            Some(deadline) => now.nanos > deadline.nanos,
            None => false,
        }
    }

    /// The entity tag of a range of the stream.
    pub fn etag(&self, start: u64, end: u64, closed: bool) -> (r: String)
        ensures
            r@ == etag_text(self@.identity.id, start, end, closed),
    {
        etag(self.identity.id, start, end, closed)
    }

    /// Whether a request asks for the stream as it is.
    pub fn config_matches(&self, requested: &StreamConfig) -> (r: bool)
        ensures
            r == self@.matches(requested@),
    {
        let own = media_type(self.config.content_type.as_str());
        let other = media_type(requested.content_type.as_str());
        let own_sub: u64 = match self.config.fork_sub_offset {
            Some(offset) => offset,
            None => 0,
        };
        let other_sub: u64 = match requested.fork_sub_offset {
            Some(offset) => offset,
            None => 0,
        };
        same_text(own.as_str(), other.as_str()) && self.config.ttl_seconds
            == requested.ttl_seconds && same_optional(
            &self.config.expires_at_raw,
            &requested.expires_at_raw,
        ) && same_optional(&self.config.forked_from, &requested.forked_from) && same_optional(
            &self.config.fork_offset_raw,
            &requested.fork_offset_raw,
        ) && own_sub == other_sub && requested.create_closed == self.closed
    }

    /// Begin an append, unless the stream is fenced.
    pub fn begin_append(&mut self) -> (r: bool)
        requires
            old(self).inflight_appends < usize::MAX,
        ensures
            r == !old(self)@.fenced,
            final(self)@ == (if r {
                StreamView {
                    inflight_appends: (old(self)@.inflight_appends + 1) as usize,
                    ..old(self)@
                }
            } else {
                old(self)@
            }),
            (final(self)@, r) == old(self)@.append_begun(),
            final(self).producers == old(self).producers,
    {
        if self.fenced {
            return false;
        }
        self.inflight_appends = self.inflight_appends + 1;
        assert(self@ =~= (StreamView {
            inflight_appends: (old(self)@.inflight_appends + 1) as usize,
            ..old(self)@
        }));
        true
    }

    /// End an append, and say whether it was the last one under way.
    pub fn end_append(&mut self) -> (r: bool)
        requires
            old(self).inflight_appends > 0,
        ensures
            final(self)@ == (StreamView {
                inflight_appends: (old(self)@.inflight_appends - 1) as usize,
                ..old(self)@
            }),
            r == (final(self)@.inflight_appends == 0),
            (final(self)@, r) == old(self)@.append_ended(),
            final(self).producers == old(self).producers,
    {
        self.inflight_appends = self.inflight_appends - 1;
        assert(self@ =~= (StreamView {
            inflight_appends: (old(self)@.inflight_appends - 1) as usize,
            ..old(self)@
        }));
        self.inflight_appends == 0
    }

    /// Fence the stream: no append begins any more.
    pub fn fence(&mut self)
        ensures
            final(self)@ == (StreamView { fenced: true, ..old(self)@ }),
            final(self).producers == old(self).producers,
    {
        self.fenced = true;
        assert(self@ =~= (StreamView { fenced: true, ..old(self)@ }));
    }
}

/// A stream expires strictly after its deadline, never at it, and the deadline
/// is no later than either of the two that it is made of.
pub proof fn law_expiry_is_strict(stream: StreamView, now: WallTime)
    ensures
        stream.deadline() matches Some(deadline) ==> !stream.expired_at(deadline),
        stream.deadline() is None ==> !stream.expired_at(now),
        stream.config.expires_at matches Some(absolute) ==> stream.deadline() is Some
            && stream.deadline()->0.nanos <= absolute.nanos,
        stream.config.ttl_deadline(stream.last_access) matches Some(ttl) ==> stream.deadline()
            is Some && stream.deadline()->0.nanos <= ttl.nanos,
{
}

} // verus!
