//! One stream after a restart: where its live file starts, where it ends, and
//! how it comes back into the store.

use crate::clock::WallTime;
use crate::path_map::PathMap;
use crate::store::files::file_name_of;
use crate::store::identity::StreamIdentity;
use crate::store::meta::{
    captured, copy_closer, noted, place_segments, placed, unix_secs_of, Meta, MetaSegmentView,
    MetaView,
};
use crate::store::naming::{is_json_content_type, media_type_of};
use crate::store::recovery::{Sidecar, SidecarView};
use crate::store::registry::registry_insert;
use crate::store::stream::{
    PendingCompaction, PlacementView, SealedView, StreamConfig, StreamConfigView, StreamState,
    StreamView,
};
use crate::store::table::{Store, StoreView};
use crate::text::{child_path, copy_optional, path_in};
use vstd::prelude::*;

verus! {

broadcast use vstd::std_specs::hash::group_hash_axioms;

/// Whether the new file of a compaction is whole, so that it takes the place of
/// the data file. Without an intent, or cut short, it is left out.
pub fn promote_temp(pending: Option<PendingCompaction>, temp_len: Option<u64>) -> (r: bool)
    ensures
        r == (pending matches Some(p) && temp_len matches Some(have) && p.new_file_base <= p.tail
            && have == p.tail - p.new_file_base),
{
    match (pending, temp_len) {
        (Some(p), Some(have)) => match p.tail.checked_sub(p.new_file_base) {
            Some(want) => have == want,
            None => false,
        },
        _ => false,
    }
}

/// Where the live file starts in the stream and where the stream ends, given how
/// long the file is.
pub open spec fn live_range(
    pending: Option<PendingCompaction>,
    file_base: Option<u64>,
    base_offset: u64,
    written: u64,
) -> (int, int) {
    match pending {
        Some(p) => {
            let residual = if p.new_file_base <= p.tail {
                p.tail - p.new_file_base
            } else {
                0
            };
            if written == residual {
                (p.new_file_base as int, p.tail as int)
            } else if written <= p.tail {
                (p.tail - written, p.tail as int)
            } else {
                (p.new_file_base as int, p.new_file_base + written)
            }
        },
        None => {
            let base = match file_base {
                Some(base) => base,
                None => base_offset,
            };
            (base as int, base + written)
        },
    }
}

/// Where the live file starts and where the stream ends.
pub fn derive_live_range(
    pending: Option<PendingCompaction>,
    file_base: Option<u64>,
    base_offset: u64,
    written: u64,
) -> (r: (u64, u64))
    requires
        live_range(pending, file_base, base_offset, written).1 <= u64::MAX,
    ensures
        (r.0 as int, r.1 as int) == live_range(pending, file_base, base_offset, written),
{
    match pending {
        Some(p) => {
            if written == p.tail.saturating_sub(p.new_file_base) {
                (p.new_file_base, p.tail)
            } else if p.tail >= written {
                (p.tail - written, p.tail)
            } else {
                (p.new_file_base, p.new_file_base + written)
            }
        },
        None => {
            let base: u64 = match file_base {
                Some(base) => base,
                None => base_offset,
            };
            (base, base + written)
        },
    }
}

/// A second of the Unix clock.
pub open spec fn at_second(secs: u64) -> Option<WallTime> {
    (WallTime { nanos: 0 }).plus_secs(secs)
}

/// The numbers of a sidecar fit the clock and the length of its data file.
pub open spec fn meta_fits(meta: MetaView, written: u64) -> bool {
    &&& live_range(meta.pending_compaction, meta.file_base, meta.base_offset, written).1
        <= u64::MAX
    &&& at_second(meta.last_access_unix) is Some
    &&& meta.expires_at_unix matches Some(secs) ==> at_second(secs) is Some
}

/// Whether the numbers of a sidecar fit the clock and the length of its data
/// file.
pub fn fits(meta: &Meta, written: u64) -> (r: bool)
    ensures
        r == meta_fits(meta@, written),
{
    let start = WallTime { nanos: 0 };
    if start.checked_add_secs(meta.last_access_unix).is_none() {
        return false;
    }
    if let Some(secs) = meta.expires_at_unix {
        if start.checked_add_secs(secs).is_none() {
            return false;
        }
    }
    match meta.pending_compaction {
        Some(p) => written == p.tail.saturating_sub(p.new_file_base) || p.tail >= written
            || p.new_file_base.checked_add(written).is_some(),
        None => {
            let base: u64 = match meta.file_base {
                Some(base) => base,
                None => meta.base_offset,
            };
            base.checked_add(written).is_some()
        },
    }
}

/// A stream as its sidecar and its data file describe it.
pub open spec fn recovered(
    identity: StreamIdentity,
    meta: MetaView,
    data_path: Seq<char>,
    written: u64,
    parent: Option<u64>,
    segments_dir: Seq<char>,
) -> StreamView {
    let (file_base, tail) = live_range(
        meta.pending_compaction,
        meta.file_base,
        meta.base_offset,
        written,
    );
    StreamView {
        identity,
        path: meta.path,
        config: StreamConfigView {
            content_type: meta.content_type,
            ttl_seconds: meta.ttl_seconds,
            expires_at: match meta.expires_at_unix {
                Some(secs) => at_second(secs),
                None => None,
            },
            expires_at_raw: meta.expires_at_raw,
            create_closed: meta.create_closed,
            forked_from: meta.forked_from,
            fork_offset_raw: meta.fork_offset_raw,
            fork_sub_offset: meta.fork_sub_offset,
        },
        is_json: media_type_of(meta.content_type) == "application/json"@,
        file_path: data_path,
        base_offset: meta.base_offset,
        parent,
        boot_meta_durable_tail: meta.durable_tail,
        fenced: false,
        inflight_appends: 0,
        meta_dirty: false,
        tail: tail as u64,
        durable_tail: tail as u64,
        file_base: file_base as u64,
        closed: meta.closed,
        closed_durable: meta.closed,
        closed_by: meta.closed_by,
        producers: meta.producers,
        last_seq_header: meta.last_seq_header,
        last_access: at_second(meta.last_access_unix)->0,
        ref_count: meta.ref_count,
        soft_deleted: meta.soft_deleted,
        segments: meta.segments.map_values(
            |segment: MetaSegmentView| placed(segment, segments_dir),
        ),
        sealed_offset: meta.sealed_offset,
        compaction: None,
    }
}

impl StoreView {
    /// The store with a rebuilt stream in place.
    pub open spec fn adopted(self, stream: StreamView) -> StoreView {
        StoreView {
            registry: self.registry.insert(stream.path, stream.identity.instance),
            streams: self.streams.insert(stream.identity.instance, stream),
            next_instance: (self.next_instance + 1) as u64,
            ..self
        }
    }

    /// The stream at a path, if one is named and there.
    pub open spec fn found(self, path: Option<Seq<char>>) -> Option<u64> {
        match path {
            Some(path) => if self.registry.contains_key(path) {
                Some(self.registry[path])
            } else {
                None
            },
            None => None,
        }
    }
}

proof fn lemma_adopted_wf(store: StoreView, stream: StreamView)
    requires
        store.wf(),
        store.next_instance < u64::MAX,
        stream.identity.instance == store.next_instance,
        stream.parent matches Some(p) ==> store.streams.contains_key(p),
    ensures
        store.adopted(stream).wf(),
{
    let next = store.adopted(stream);
    assert forall|path: Seq<char>| #[trigger] next.registry.contains_key(path) implies {
        &&& next.streams.contains_key(next.registry[path])
        &&& next.streams[next.registry[path]].path == path
    } by {
        if path != stream.path {
            assert(store.registry.contains_key(path));
        }
    }
    assert forall|instance: u64| #[trigger] next.streams.contains_key(instance) implies {
        &&& next.streams[instance].identity.instance == instance
        &&& instance < next.next_instance
        &&& next.streams[instance].parent matches Some(parent) ==> parent < instance
    } by {
        if instance != stream.identity.instance {
            assert(store.streams.contains_key(instance));
        }
    }
    assert forall|i: int| 0 <= i < next.sweep.len() implies (#[trigger] next.sweep[i])
        < next.next_instance by {
        assert(store.sweep[i] < store.next_instance);
    }
}

/// A reading of a whole second.
fn second(secs: u64) -> (r: WallTime)
    requires
        at_second(secs) is Some,
    ensures
        Some(r) == at_second(secs),
{
    let start = WallTime { nanos: 0 };
    match start.checked_add_secs(secs) {
        Some(t) => t,
        None => start,
    }
}

/// The stream that a sidecar and its data file describe.
fn rebuild_stream(
    identity: StreamIdentity,
    sidecar: &Sidecar,
    written: u64,
    parent: Option<u64>,
    segments_dir: &str,
) -> (r: StreamState)
    requires
        sidecar.meta.wf(),
        meta_fits(sidecar.meta@, written),
    ensures
        r.wf(),
        r@ == recovered(
            identity,
            sidecar.meta@,
            sidecar.data_path@,
            written,
            parent,
            segments_dir@,
        ),
{
    let meta = &sidecar.meta;
    let (file_base, tail) = derive_live_range(
        meta.pending_compaction,
        meta.file_base,
        meta.base_offset,
        written,
    );
    let expires_at = match meta.expires_at_unix {
        Some(secs) => Some(second(secs)),
        None => None,
    };
    let config = StreamConfig {
        content_type: meta.content_type.clone(),
        ttl_seconds: meta.ttl_seconds,
        expires_at,
        expires_at_raw: copy_optional(&meta.expires_at_raw),
        create_closed: meta.create_closed,
        forked_from: copy_optional(&meta.forked_from),
        fork_offset_raw: copy_optional(&meta.fork_offset_raw),
        fork_sub_offset: meta.fork_sub_offset,
    };
    let r = StreamState {
        identity,
        path: meta.path.clone(),
        config,
        is_json: is_json_content_type(meta.content_type.as_str()),
        file_path: sidecar.data_path.clone(),
        base_offset: meta.base_offset,
        parent,
        boot_meta_durable_tail: meta.durable_tail,
        fenced: false,
        inflight_appends: 0,
        meta_dirty: false,
        tail,
        durable_tail: tail,
        file_base,
        closed: meta.closed,
        closed_durable: meta.closed,
        closed_by: copy_closer(&meta.closed_by),
        producers: meta.producers.duplicate(),
        last_seq_header: copy_optional(&meta.last_seq_header),
        last_access: second(meta.last_access_unix),
        ref_count: meta.ref_count,
        soft_deleted: meta.soft_deleted,
        segments: place_segments(&meta.segments, segments_dir),
        sealed_offset: meta.sealed_offset,
        compaction: None,
    };
    proof {
        let goal = recovered(
            identity,
            meta@,
            sidecar.data_path@,
            written,
            parent,
            segments_dir@,
        );
        assert(r@.config =~= goal.config);
        assert(r@ =~= goal);
    }
    r
}

/// The directory of sealed chunk files.
pub fn segments_dir(data_dir: &str) -> (r: String)
    ensures
        r@ == path_in(data_dir@, "segments"@),
{
    child_path(data_dir, "segments")
}

/// Whether a number is right after that of a sidecar.
pub open spec fn is_past_some(sidecars: Map<Seq<char>, SidecarView>, next_id: u64) -> bool {
    exists|path: Seq<char>| #[trigger]
        sidecars.contains_key(path) && sidecars[path].meta.id + 1 == next_id
}

impl Store {
    /// Bring a stream back, with the stream it reads through, given how long its
    /// data file is.
    pub fn adopt(
        &mut self,
        sidecar: &Sidecar,
        written: u64,
        parent: Option<&str>,
        segments_dir: &str,
    ) -> (r: u64)
        requires
            old(self).wf(),
            old(self).next_instance < u64::MAX,
            sidecar.meta.wf(),
            meta_fits(sidecar.meta@, written),
        ensures
            final(self).wf(),
            final(self).settings == old(self).settings,
            r == old(self)@.next_instance,
            final(self)@ == old(self)@.adopted(
                recovered(
                    (StreamIdentity { id: sidecar.meta@.id, instance: r }),
                    sidecar.meta@,
                    sidecar.data_path@,
                    written,
                    old(self)@.found(
                        match parent {
                            Some(path) => Some(path@),
                            None => None,
                        },
                    ),
                    segments_dir@,
                ),
            ),
    {
        let instance: u64 = self.next_instance;
        let found: Option<u64> = match parent {
            Some(path) => self.registered_at(path),
            None => None,
        };
        let identity = StreamIdentity { id: sidecar.meta.id, instance };
        let stream = rebuild_stream(identity, sidecar, written, found, segments_dir);
        let ghost view = stream@;
        let _ = registry_insert(&mut self.registry, sidecar.meta.path.clone(), instance);
        self.streams.insert(instance, stream);
        self.next_instance = self.next_instance + 1;
        proof {
            if let Some(path) = parent {
                if old(self)@.registry.contains_key(path@) {
                    assert(old(self)@.streams.contains_key(old(self)@.registry[path@]));
                }
            }
            lemma_adopted_wf(old(self)@, view);
            assert(self@.streams =~= old(self)@.adopted(view).streams);
            assert(self@ =~= old(self)@.adopted(view));
        }
        instance
    }

    /// Keep numbers unique: the next one is past all those in sidecars.
    pub fn advance_ids(&mut self, sidecars: &PathMap<Sidecar>)
        requires
            old(self).wf(),
            sidecars.wf(),
            forall|path: Seq<char>| #[trigger]
                sidecars@.contains_key(path) ==> sidecars@[path].meta.id < u64::MAX,
        ensures
            final(self).wf(),
            final(self).settings == old(self).settings,
            final(self)@ == (StoreView { next_id: final(self)@.next_id, ..old(self)@ }),
            final(self)@.next_id >= old(self)@.next_id,
            final(self)@.next_id >= 1,
            forall|path: Seq<char>| #[trigger]
                sidecars@.contains_key(path) ==> sidecars@[path].meta.id < final(self)@.next_id,
            final(self)@.next_id == old(self)@.next_id || final(self)@.next_id == 1
                || is_past_some(sidecars@, final(self)@.next_id),
    {
        let mut max_id: u64 = 0;
        let mut i: usize = 0;
        proof {
            sidecars.lemma_lists();
        }
        while i < sidecars.len()
            invariant
                sidecars.wf(),
                i <= sidecars.key_list().len(),
                forall|path: Seq<char>| #[trigger]
                    sidecars@.contains_key(path) ==> sidecars@[path].meta.id < u64::MAX,
                max_id < u64::MAX,
                forall|k: int|
                    0 <= k < i ==> sidecars@[#[trigger] sidecars.key_list()[k]].meta.id <= max_id,
                max_id == 0 || exists|path: Seq<char>| #[trigger]
                    sidecars@.contains_key(path) && sidecars@[path].meta.id == max_id,
            decreases sidecars.key_list().len() - i,
        {
            proof {
                sidecars.lemma_lists();
                assert(sidecars@.contains_key(sidecars.key_list()[i as int]));
            }
            let id = sidecars.value_at(i).meta.id;
            if id > max_id {
                max_id = id;
            }
            i = i + 1;
        }
        if self.next_id < max_id + 1 {
            self.next_id = max_id + 1;
        }
        proof {
            assert(self@ =~= (StoreView { next_id: self@.next_id, ..old(self)@ }));
            assert forall|path: Seq<char>| #[trigger] sidecars@.contains_key(
                path,
            ) implies sidecars@[path].meta.id < self@.next_id by {
                sidecars.lemma_lists();
                let k = sidecars.key_list().index_of(path);
                assert(sidecars.key_list()[k] == path);
            }
        }
    }
}

/// A crash in the middle of a compaction does no harm: whichever file is in
/// place, as long as it ends where the stream ended, the stream ends there again
/// and the file starts where it started.
pub proof fn law_compaction_crash_is_harmless(p: PendingCompaction, base: u64, file_base: Option<
    u64,
>, base_offset: u64)
    requires
        p.new_file_base <= p.tail,
        base <= p.tail,
    ensures
        live_range(Some(p), file_base, base_offset, (p.tail - base) as u64) == (
            base as int,
            p.tail as int,
        ),
{
}

/// Once the intent of a compaction is cleared and the start of the file is
/// written down, appends and another crash leave that start as it is.
pub proof fn law_cleared_intent_stays_put(
    pending: Option<PendingCompaction>,
    file_base: Option<u64>,
    base_offset: u64,
    written: u64,
    appended: u64,
)
    requires
        pending matches Some(p) ==> p.new_file_base <= p.tail && written <= p.tail,
        written + appended <= u64::MAX,
    ensures
        ({
            let (base, tail) = live_range(pending, file_base, base_offset, written);
            &&& base + written == tail
            &&& base <= u64::MAX ==> live_range(
                None,
                Some(base as u64),
                base_offset,
                (written + appended) as u64,
            ) == (base, tail + appended)
        }),
{
}

/// Whether a sealed part is where sidecars look for it.
pub open spec fn kept_in(segment: SealedView, segments_dir: Seq<char>) -> bool {
    segment.placement matches PlacementView::Local(path) ==> file_name_of(path) matches Some(name)
        && path == path_in(segments_dir, name)
}

/// A stream comes back from its own sidecar and data file as it was, with all
/// that was written counted as durable, without what only the process knew, and
/// with times in whole seconds.
pub proof fn law_restart_restores_a_stream(
    stream: StreamView,
    instance: u64,
    parent: Option<u64>,
    segments_dir: Seq<char>,
)
    requires
        stream.compaction is None,
        stream.file_base <= stream.tail,
        stream.is_json == (media_type_of(stream.config.content_type) == "application/json"@),
        stream.last_access.nanos <= crate::clock::MAX_WALL_NANOS,
        stream.config.expires_at matches Some(at) ==> 0 <= at.nanos
            <= crate::clock::MAX_WALL_NANOS && at.nanos as int % 1_000_000_000 == 0,
        forall|i: int|
            0 <= i < stream.segments.len() ==> kept_in(#[trigger] stream.segments[i], segments_dir),
    ensures
        ({
            let written = (stream.tail - stream.file_base) as u64;
            let meta = captured(stream);
            &&& meta_fits(meta, written)
            &&& recovered(
                (StreamIdentity { id: stream.identity.id, instance }),
                meta,
                stream.file_path,
                written,
                parent,
                segments_dir,
            ) == (StreamView {
                identity: StreamIdentity { id: stream.identity.id, instance },
                parent,
                boot_meta_durable_tail: Some(stream.durable_tail),
                fenced: false,
                inflight_appends: 0,
                meta_dirty: false,
                durable_tail: stream.tail,
                closed_durable: stream.closed,
                last_access: at_second(unix_secs_of(stream.last_access))->0,
                ..stream
            })
        }),
{
    let written = (stream.tail - stream.file_base) as u64;
    let meta = captured(stream);
    let back = recovered(
        StreamIdentity { id: stream.identity.id, instance },
        meta,
        stream.file_path,
        written,
        parent,
        segments_dir,
    );
    assert forall|i: int| 0 <= i < stream.segments.len() implies back.segments[i]
        == stream.segments[i] by {
        let segment = stream.segments[i];
        assert(kept_in(segment, segments_dir));
        assert(back.segments[i] == placed(noted(segment), segments_dir));
        assert(placed(noted(segment), segments_dir) =~= segment);
    }
    assert(back.segments =~= stream.segments);
    assert(back.config =~= stream.config);
}

/// The new file of a compaction takes the place of the old one exactly if it holds
/// all that is left of the stream; the stream then ends where it did.
pub proof fn law_complete_compaction_is_taken(
    pending: Option<PendingCompaction>,
    temp_len: Option<u64>,
    taken: bool,
    file_base: Option<u64>,
    base_offset: u64,
)
    requires
        call_ensures(promote_temp, (pending, temp_len), taken),
    ensures
        pending is None || temp_len is None ==> !taken,
        taken ==> live_range(pending, file_base, base_offset, temp_len->0) == (
            pending->0.new_file_base as int,
            pending->0.tail as int,
        ),
        taken ==> pending->0.new_file_base + temp_len->0 == pending->0.tail,
        pending is Some && temp_len is Some && pending->0.new_file_base + temp_len->0
            == pending->0.tail ==> taken,
{
}

} // verus!
