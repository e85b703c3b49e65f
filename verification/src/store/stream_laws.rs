//! What a stream keeps to from its creation to its deletion.

use crate::clock::{WallTime, MAX_WALL_NANOS};
use crate::path_map::{in_order, lemma_order_of};
use crate::store::identity::StreamIdentity;
use crate::store::inventory::{
    entry_list, is_page, paths_after, InventoryPage, InventoryView,
};
use crate::store::lifecycle::{DeletePlan, Linearized, ParentAction};
use crate::store::naming::media_type_of;
use crate::store::reads::gathered;
use crate::store::rebuild::live_range;
use crate::store::recovery::{is_orphan, orphans_of, SidecarView};
use crate::store::retire::{CleanupPlan, ExplicitRetirementResult};
use crate::store::stream::{StreamConfigView, StreamView};
use crate::store::table::{fresh_stream, CreateCheck, CreateResult, Lookup, StoreView};
use crate::store::tail_cache::{kept_chunk, slice_is_held};
use crate::text::text_before;
use vstd::prelude::*;

verus! {

/// A request to create a stream that is already there finds it exactly if the
/// stream is what the request asks for: the same media type, the same time to
/// live, the same expiry, the same origin, and open or closed as asked. Whatever
/// single one of these differs, the request is in conflict with the stream. So is
/// every request where the stream was deleted.
pub proof fn law_existing_stream_is_what_was_asked_for(
    store: StoreView,
    instance: u64,
    config: StreamConfigView,
)
    ensures
        ({
            let stream = store.streams[instance];
            let own = stream.config;
            let answer = store.against(instance, config);
            let skipped = own.fork_sub_offset == config.fork_sub_offset || ({
                &&& own.fork_sub_offset is None || own.fork_sub_offset == Some(0u64)
                &&& config.fork_sub_offset is None || config.fork_sub_offset == Some(0u64)
            });
            &&& answer == CreateResult::Exists(instance) || answer == CreateResult::Conflict
            &&& stream.soft_deleted ==> answer == CreateResult::Conflict
            &&& own.ttl_seconds != config.ttl_seconds ==> answer == CreateResult::Conflict
            &&& own.expires_at_raw != config.expires_at_raw ==> answer == CreateResult::Conflict
            &&& own.forked_from != config.forked_from ==> answer == CreateResult::Conflict
            &&& own.fork_offset_raw != config.fork_offset_raw ==> answer == CreateResult::Conflict
            &&& !skipped ==> answer == CreateResult::Conflict
            &&& stream.closed != config.create_closed ==> answer == CreateResult::Conflict
            &&& media_type_of(own.content_type) != media_type_of(config.content_type) ==> answer
                == CreateResult::Conflict
            &&& ({
                &&& !stream.soft_deleted
                &&& own.ttl_seconds == config.ttl_seconds
                &&& own.expires_at_raw == config.expires_at_raw
                &&& own.forked_from == config.forked_from
                &&& own.fork_offset_raw == config.fork_offset_raw
                &&& skipped
                &&& stream.closed == config.create_closed
                &&& media_type_of(own.content_type) == media_type_of(config.content_type)
            }) ==> answer == CreateResult::Exists(instance)
        }),
{
}

/// Two requests that differ in the time to live alone never both find the
/// stream.
pub proof fn law_other_ttl_is_a_conflict(
    store: StoreView,
    instance: u64,
    config: StreamConfigView,
    ttl_seconds: Option<u64>,
)
    requires
        store.against(instance, config) == CreateResult::Exists(instance),
        ttl_seconds != config.ttl_seconds,
    ensures
        store.against(instance, (StreamConfigView { ttl_seconds, ..config }))
            == CreateResult::Conflict,
{
}

/// A stream is past its time exactly if its expiry has passed or nobody used it
/// for longer than its time to live. A stream with neither stays.
pub proof fn law_stream_expires_on_time(stream: StreamView, now: WallTime)
    ensures
        ({
            let config = stream.config;
            let past_expiry = config.expires_at matches Some(at) && at.nanos < now.nanos;
            let unused = config.ttl_seconds matches Some(secs) && stream.last_access.nanos + secs
                * 1_000_000_000 <= MAX_WALL_NANOS && stream.last_access.nanos + secs
                * 1_000_000_000 < now.nanos;
            &&& stream.expired_at(now) <==> past_expiry || unused
            &&& config.expires_at is None && config.ttl_seconds is None ==> !stream.expired_at(now)
        }),
{
}

/// A use of a stream starts its time to live anew, and leaves its expiry as it
/// is.
pub proof fn law_use_prolongs_the_time_to_live(stream: StreamView, used: WallTime, now: WallTime)
    ensures
        ({
            let after = StreamView { last_access: used, ..stream };
            &&& stream.config.expires_at is None && now.nanos <= used.nanos ==> !after.expired_at(
                now,
            )
            &&& stream.config.expires_at matches Some(at) ==> (at.nanos < now.nanos
                ==> after.expired_at(now))
        }),
{
    if let Some(secs) = stream.config.ttl_seconds {
        assert(secs * 1_000_000_000 >= 0);
    }
}

/// A path leads to the stream that is registered there, and tells whether that
/// stream was deleted, is past its time, or can be used.
pub proof fn law_lookup_tells_how_a_stream_is(store: StoreView, path: Seq<char>, now: WallTime)
    ensures
        match store.lookup(path, now) {
            Lookup::Missing => !store.registry.contains_key(path),
            Lookup::SoftDeleted(instance) => {
                &&& store.registry.contains_key(path) && store.registry[path] == instance
                &&& store.streams[instance].soft_deleted
            },
            Lookup::Expired(instance) => {
                &&& store.registry.contains_key(path) && store.registry[path] == instance
                &&& !store.streams[instance].soft_deleted
                &&& store.streams[instance].expired_at(now)
            },
            Lookup::Live(instance) => {
                &&& store.registry.contains_key(path) && store.registry[path] == instance
                &&& !store.streams[instance].soft_deleted
                &&& !store.streams[instance].expired_at(now)
            },
        },
{
}

/// A stream that is created is the one that its path leads to. It is what was
/// asked for, it is empty, nothing reads through it, and it ends where it
/// starts. Asking for it again finds it.
pub proof fn law_created_stream_is_what_was_asked_for(
    store: StoreView,
    id: u64,
    path: Seq<char>,
    config: StreamConfigView,
    parent: Option<u64>,
    base_offset: u64,
    file_path: Seq<char>,
    now: WallTime,
)
    requires
        store.wf(),
        store.next_instance < u64::MAX,
        !store.registry.contains_key(path),
        parent matches Some(p) ==> store.streams.contains_key(p) && store.streams[p].ref_count
            < u32::MAX,
    ensures
        ({
            let instance = store.next_instance;
            let made = fresh_stream(
                StreamIdentity { id, instance },
                path,
                config,
                parent,
                base_offset,
                file_path,
                now,
            );
            let after = store.installed(made);
            let stream = after.streams[instance];
            &&& after.registry.contains_pair(path, instance)
            &&& after.streams.contains_key(instance)
            &&& stream.path == path
            &&& stream.config == config
            &&& stream.identity.id == id
            &&& stream.file_path == file_path
            &&& stream.base_offset == base_offset
            &&& stream.file_base == base_offset
            &&& stream.tail == base_offset
            &&& stream.durable_tail == base_offset
            &&& stream.closed == config.create_closed
            &&& stream.closed_durable == config.create_closed
            &&& stream.parent == parent
            &&& stream.ref_count == 0
            &&& stream.last_access == now
            &&& !stream.fenced && !stream.soft_deleted && !stream.meta_dirty
            &&& stream.inflight_appends == 0
            &&& stream.segments.len() == 0 && stream.compaction is None
            &&& stream.producers == Map::<
                Seq<char>,
                crate::store::stream::ProducerState,
            >::empty()
            &&& stream.closed_by is None && stream.last_seq_header is None
            &&& stream.boot_meta_durable_tail == Some(base_offset)
            &&& stream.sealed_offset == 0
            &&& stream.is_json <==> media_type_of(config.content_type) == "application/json"@
            &&& after.against(instance, config) == CreateResult::Exists(instance)
        }),
{
    assert(!store.streams.contains_key(store.next_instance));
    if let Some(p) = parent {
        assert(p != store.next_instance);
    }
}

/// A creation leaves the other paths and streams as they are, but for one more
/// reader of the stream it was forked from. Numbers of processes and of files
/// are not used again.
pub proof fn law_creation_leaves_the_rest(store: StoreView, stream: StreamView, other: u64)
    requires
        store.wf(),
        store.next_instance < u64::MAX,
        stream.identity.instance == store.next_instance,
        !store.registry.contains_key(stream.path),
        stream.parent matches Some(p) ==> store.streams.contains_key(p)
            && store.streams[p].ref_count < u32::MAX,
        store.streams.contains_key(other),
    ensures
        ({
            let after = store.installed(stream);
            &&& after.registry.remove(stream.path) == store.registry
            &&& stream.parent != Some(other) ==> after.streams[other] == store.streams[other]
            &&& stream.parent == Some(other) ==> after.streams[other] == (StreamView {
                ref_count: (store.streams[other].ref_count + 1) as u32,
                ..store.streams[other]
            })
            &&& after.inventory == store.inventory
            &&& after.sweep == store.sweep
            &&& after.next_id == store.next_id
            &&& after.next_instance == store.next_instance + 1
        }),
{
    let after = store.installed(stream);
    assert(!store.streams.contains_key(store.next_instance));
    assert(after.registry.remove(stream.path) =~= store.registry);
}

/// Publishing a stream shows in the list what is durable of it, and leaves the
/// other lines as they are. A stream that another one took the path of is not
/// shown.
pub proof fn law_list_shows_what_is_durable(store: StoreView, instance: u64, path: Seq<char>)
    requires
        store.wf(),
        store.exact(instance),
    ensures
        ({
            let stream = store.streams[instance];
            let after = store.published(instance);
            let line = after.inventory.entries[stream.path];
            &&& after.inventory.entries.contains_key(stream.path)
            &&& line.path == stream.path
            &&& line.closed == stream.closed_durable
            &&& line.deleted == stream.soft_deleted
            &&& line.durable_bytes == stream.durable_tail
            &&& line.stream_id == stream.identity.id
            &&& path != stream.path ==> (after.inventory.entries.contains_key(path)
                <==> store.inventory.entries.contains_key(path))
                && after.inventory.entries[path] == store.inventory.entries[path]
            &&& after.inventory.generation != store.inventory.generation
            &&& after.registry == store.registry
            &&& after.streams == store.streams
        }),
{
}

/// Taking a stream out of the list takes out the line of that very stream and no
/// other.
pub proof fn law_list_drops_one_line(inventory: InventoryView, path: Seq<char>, id: u64)
    ensures
        ({
            let after = inventory.without_entry(path, id);
            &&& after.entries.remove(path) == inventory.entries.remove(path)
            &&& inventory.entries.contains_key(path) && inventory.entries[path].stream_id == id
                ==> !after.entries.contains_key(path) && after.generation != inventory.generation
            &&& !inventory.entries.contains_key(path) || inventory.entries[path].stream_id != id
                ==> after == inventory
        }),
{
    let after = inventory.without_entry(path, id);
    assert(after.entries.remove(path) =~= inventory.entries.remove(path));
}

/// A page holds the first lines behind its mark, each as it is in the list, as
/// many as fit, and says whether there are more. Behind a mark stand the lines
/// with greater paths, and without a mark all of them. A page is refused exactly
/// if the list is not the one that the reader started on.
pub proof fn law_page_shows_the_next_lines(
    inventory: InventoryView,
    after: Option<Seq<char>>,
    limit: usize,
    page: InventoryPage,
    generation: Option<u64>,
    path: Seq<char>,
)
    requires
        inventory.entries.dom().finite(),
        is_page(inventory, generation, after, limit, Ok(page)),
    ensures
        generation is None || generation == Some(inventory.generation),
        page.generation == inventory.generation,
        inventory.behind(after).contains(path) <==> inventory.entries.contains_key(path) && (
        after matches Some(mark) ==> text_before(mark, path)),
        page.entries@.len() <= limit,
        page.entries@.len() <= inventory.behind(after).len(),
        page.more <==> page.entries@.len() < inventory.behind(after).len(),
        page.more ==> page.entries@.len() == limit,
        forall|i: int|
            0 <= i < page.entries@.len() ==> (#[trigger] page.entries@[i])@
                == inventory.entries[inventory.behind(after)[i]],
{
    let keys = in_order(inventory.entries.dom());
    lemma_order_of(inventory.entries.dom());
    let behind = inventory.behind(after);
    let shown = if behind.len() <= limit {
        behind
    } else {
        behind.take(limit as int)
    };
    let lines = shown.map_values(|p: Seq<char>| inventory.entries[p]);
    assert(entry_list(page.entries@) == lines);
    assert(page.entries@.len() == lines.len());
    assert forall|i: int| 0 <= i < page.entries@.len() implies (#[trigger] page.entries@[i])@
        == inventory.entries[behind[i]] by {
        assert(entry_list(page.entries@)[i] == lines[i]);
    }
    lemma_behind(keys, after, path);
    assert(keys.contains(path) <==> keys.to_set().contains(path));
}

proof fn lemma_behind(keys: Seq<Seq<char>>, after: Option<Seq<char>>, path: Seq<char>)
    requires
        crate::path_map::strictly_sorted(keys),
    ensures
        paths_after(keys, after).contains(path) <==> keys.contains(path) && (after matches Some(
            mark,
        ) ==> text_before(mark, path)),
    decreases keys.len(),
{
    if let Some(mark) = after {
        if keys.len() > 0 {
            let rest = keys.skip(1);
            assert(forall|i: int| 0 <= i < rest.len() ==> rest[i] == keys[i + 1]);
            if !text_before(mark, keys[0]) {
                lemma_behind(rest, after, path);
                if keys.contains(path) {
                    let i = choose|i: int| 0 <= i < keys.len() && keys[i] == path;
                    if i > 0 {
                        assert(rest[i - 1] == path);
                    }
                }
                if rest.contains(path) {
                    let i = choose|i: int| 0 <= i < rest.len() && rest[i] == path;
                    assert(keys[i + 1] == path);
                }
            } else {
                if keys.contains(path) {
                    let i = choose|i: int| 0 <= i < keys.len() && keys[i] == path;
                    if i > 0 {
                        assert(text_before(keys[0], keys[i]));
                        crate::text::lemma_text_before_transitive(mark, keys[0], keys[i]);
                    }
                }
            }
        }
    }
}

/// Subscriptions see every registered stream with its identity and the end of
/// what is durable, and see it as there to be read exactly if it is neither on
/// its way out nor deleted nor past its time.
pub proof fn law_subscriptions_see_durable_streams(
    store: StoreView,
    path: Seq<char>,
    now: WallTime,
)
    requires
        store.wf(),
    ensures
        store.statuses(now).contains_key(path) <==> store.registry.contains_key(path),
        store.registry.contains_key(path) ==> ({
            let stream = store.streams[store.registry[path]];
            let status = store.statuses(now)[path];
            &&& status.id == stream.identity.id
            &&& status.tail_bytes == stream.durable_tail
            &&& status.live() <==> !stream.fenced && store.lookup(path, now) == Lookup::Live(
                store.registry[path],
            )
        }),
{
}

/// Deleting a stream for good takes it off its path and lets go of its source:
/// the source has one reader less, and is itself given up only if it was deleted
/// and this was its last reader.
pub proof fn law_deletion_lets_go_of_the_source(store: StoreView, instance: u64)
    requires
        store.wf(),
        store.exact(instance),
        store.streams[instance].parent matches Some(p) ==> store.streams.contains_key(p),
    ensures
        ({
            let stream = store.streams[instance];
            let (after, actions) = store.reaped(instance);
            &&& !after.registry.contains_key(stream.path)
            &&& after.inventory == store.inventory.without_entry(stream.path, stream.identity.id)
            &&& stream.parent is None ==> actions.len() == 0 && after.registry
                == store.registry.remove(stream.path) && after.streams == store.streams
            &&& stream.parent matches Some(p) ==> {
                let source = store.streams[p];
                let last = source.soft_deleted && source.ref_count <= 1;
                &&& after.streams[p].ref_count == (if source.ref_count == 0 {
                    0int
                } else {
                    source.ref_count - 1
                })
                &&& actions.len() > 0
                &&& last ==> actions[0] == ParentAction::Collect(p) && !after.exact(p)
                &&& !last ==> actions == seq![ParentAction::PersistCount(p)] && (store.exact(p)
                    ==> after.exact(p))
            }
        }),
{
    let stream = store.streams[instance];
    let out = store.unregistered(instance);
    let listed = StoreView {
        inventory: out.inventory.without_entry(stream.path, stream.identity.id),
        ..out
    };
    assert(!listed.registry.contains_key(stream.path));
    assert(listed.wf());
    crate::store::laws::law_release_only_lowers(listed, stream.parent);
    if let Some(p) = stream.parent {
        assert(p < instance);
        let source = store.streams[p];
        if source.soft_deleted && source.ref_count <= 1 {
            let counted = listed.with_ref_count(p, 0);
            crate::store::lifecycle::lemma_changed_wf(
                listed,
                p,
                StreamView { ref_count: 0, ..source },
            );
            crate::store::lifecycle::lemma_unregistered_wf(counted, p);
            let gone = counted.unregistered(p);
            let next = match source.parent {
                Some(q) => if q < p {
                    Some(q)
                } else {
                    None
                },
                None => None,
            };
            crate::store::laws::law_release_only_lowers(gone, next);
            lemma_release_keeps_later(gone, next, p);
        } else {
            if store.exact(p) {
                assert(store.streams[p].path != stream.path);
            }
        }
    }
}

/// Letting go of a source changes nothing of the streams that came later.
proof fn lemma_release_keeps_later(store: StoreView, parent: Option<u64>, later: u64)
    requires
        store.wf(),
        store.streams.contains_key(later),
        parent matches Some(p) ==> p < later,
    ensures
        store.released(parent).0.streams[later] == store.streams[later],
    decreases
            match parent {
                Some(p) => p + 1,
                None => 0,
            },
{
    if let Some(p) = parent {
        if store.streams.contains_key(p) {
            let stream = store.streams[p];
            let count = if stream.ref_count == 0 {
                0
            } else {
                (stream.ref_count - 1) as u32
            };
            let counted = store.with_ref_count(p, count);
            crate::store::lifecycle::lemma_changed_wf(
                store,
                p,
                StreamView { ref_count: count, ..stream },
            );
            if stream.soft_deleted && count == 0 {
                crate::store::lifecycle::lemma_unregistered_wf(counted, p);
                let next = match stream.parent {
                    Some(q) => if q < p {
                        Some(q)
                    } else {
                        None
                    },
                    None => None,
                };
                lemma_release_keeps_later(counted.unregistered(p), next, later);
            }
        }
    }
}

/// A data file without an unfinished compaction starts where its sidecar says,
/// or else where the stream starts, and the stream ends where the file ends.
pub proof fn law_file_length_gives_the_end(file_base: Option<u64>, base_offset: u64, written: u64)
    ensures
        live_range(None, None, base_offset, written) == (
            base_offset as int,
            base_offset + written,
        ),
        file_base matches Some(base) ==> live_range(None, file_base, base_offset, written) == (
            base as int,
            base + written,
        ),
{
}

/// Reading several parts gives their bytes one behind the other, and nothing if
/// one of them cannot be read.
pub proof fn law_parts_are_read_in_order(parts: Seq<Option<Seq<u8>>>, i: int)
    requires
        0 <= i <= parts.len(),
    ensures
        gathered(parts) == (match (gathered(parts.take(i)), gathered(parts.skip(i))) {
            (Some(front), Some(back)) => Some(front + back),
            _ => None,
        }),
        parts.len() == 1 ==> gathered(parts) == parts[0],
        parts.len() == 0 ==> gathered(parts) == Some(Seq::<u8>::empty()),
    decreases parts.len(),
{
    if parts.len() == 0 {
        assert(parts.take(i) =~= parts);
        assert(parts.skip(i) =~= parts);
        assert(Seq::<u8>::empty() + Seq::<u8>::empty() =~= Seq::<u8>::empty());
    } else {
        if parts.len() == 1 {
            assert(parts.drop_last() =~= Seq::empty());
            if let Some(part) = parts[0] {
                assert(Seq::<u8>::empty() + part =~= part);
            }
        }
        if i == parts.len() {
            assert(parts.take(i) =~= parts);
            assert(parts.skip(i) =~= Seq::empty());
            if let Some(bytes) = gathered(parts) {
                assert(bytes + Seq::<u8>::empty() =~= bytes);
            }
        } else {
            law_parts_are_read_in_order(parts.drop_last(), i);
            assert(parts.drop_last().take(i) =~= parts.take(i));
            assert(parts.drop_last().skip(i) =~= parts.skip(i).drop_last());
            assert(parts.skip(i).last() == parts.last());
            match (gathered(parts.take(i)), gathered(parts.skip(i).drop_last()), parts.last()) {
                (Some(a), Some(b), Some(c)) => {
                    assert((a + b) + c =~= a + (b + c));
                },
                _ => {},
            }
        }
    }
}

/// The cache answers exactly the ranges that lie whole within the chunk it
/// holds.
pub proof fn law_cache_answers_what_it_holds(
    start: u64,
    chunk: Seq<u8>,
    want_start: u64,
    want_end: u64,
    cap: usize,
)
    ensures
        cap > 0 && start <= want_start < want_end <= start + chunk.len() ==> slice_is_held(
            Some((start, chunk)),
            want_start,
            want_end,
            cap,
        ),
        slice_is_held(Some((start, chunk)), want_start, want_end, cap) ==> forall|at: int|
            want_start <= at < want_end ==> 0 <= #[trigger] (at - start) < chunk.len(),
        want_start >= want_end ==> !slice_is_held(
            Some((start, chunk)),
            want_start,
            want_end,
            cap,
        ),
        !slice_is_held(None, want_start, want_end, cap),
        !slice_is_held(Some((start, chunk)), want_start, want_end, 0),
{
}

/// A data file is given up exactly if no sidecar that was read claims it and
/// none that was set aside might.
pub proof fn law_claimed_files_are_kept(
    sidecars: Map<Seq<char>, SidecarView>,
    quarantined: Seq<Seq<char>>,
    data_files: Seq<Seq<char>>,
    file: Seq<char>,
)
    ensures
        orphans_of(sidecars, quarantined, data_files).contains(file) <==> {
            &&& data_files.contains(file)
            &&& !quarantined.contains(file)
            &&& forall|path: Seq<char>| #[trigger]
                sidecars.contains_key(path) ==> sidecars[path].data_path != file
        },
    decreases data_files.len(),
{
    if data_files.len() > 0 {
        let front = data_files.drop_last();
        let last = data_files.last();
        law_claimed_files_are_kept(sidecars, quarantined, front, file);
        let before = orphans_of(sidecars, quarantined, front);
        let all = orphans_of(sidecars, quarantined, data_files);
        if front.contains(file) {
            let i = choose|i: int| 0 <= i < front.len() && front[i] == file;
            assert(data_files[i] == file);
        }
        if data_files.contains(file) {
            let i = choose|i: int| 0 <= i < data_files.len() && data_files[i] == file;
            if i < front.len() {
                assert(front[i] == file);
            }
        }
        assert(data_files[data_files.len() - 1] == last);
        if before.contains(file) {
            let i = choose|i: int| 0 <= i < before.len() && before[i] == file;
            assert(all[i] == file);
        }
        if all.contains(file) {
            let i = choose|i: int| 0 <= i < all.len() && all[i] == file;
            if i < before.len() {
                assert(before[i] == file);
            }
        }
        if is_orphan(sidecars, quarantined, last) {
            assert(all[before.len() as int] == last);
        }
    }
}

/// A path is free for a new stream exactly if nothing is registered there. An
/// expired stream has to go first, unless it was deleted; what a live or deleted
/// one means for the request is settled at once.
pub proof fn law_free_paths_can_be_taken(
    store: StoreView,
    path: Seq<char>,
    config: StreamConfigView,
    now: WallTime,
)
    ensures
        ({
            let check = store.create_check(path, config, now);
            let instance = store.registry[path];
            let stream = store.streams[instance];
            &&& check == CreateCheck::Free <==> !store.registry.contains_key(path)
            &&& store.registry.contains_key(path) ==> {
                &&& check == CreateCheck::RetireExpired(instance) <==> !stream.soft_deleted
                    && stream.expired_at(now)
                &&& stream.soft_deleted ==> check == CreateCheck::Settled(CreateResult::Conflict)
                &&& !stream.soft_deleted && !stream.expired_at(now) ==> check
                    == CreateCheck::Settled(store.against(instance, config))
            }
        }),
{
}

/// Whoever is second to take a path changes nothing and is told how its request
/// fits the stream that was first; whoever is first gets the stream.
pub proof fn law_first_creation_wins(store: StoreView, stream: StreamView)
    ensures
        ({
            let (after, answer) = store.installing(stream);
            &&& store.registry.contains_key(stream.path) ==> after == store && answer
                == store.against(store.registry[stream.path], stream.config)
            &&& !store.registry.contains_key(stream.path) ==> {
                &&& answer == CreateResult::Created(stream.identity.instance)
                &&& after.registry.contains_pair(stream.path, stream.identity.instance)
                &&& after.streams.contains_key(stream.identity.instance)
            }
        }),
{
}

/// A stream that others read through is deleted by a mark, and its path stays
/// taken; the files of one that nobody reads through are to go. A mark that could
/// not be written down is taken back.
pub proof fn law_deletion_spares_the_readers(store: StoreView, instance: u64, now: WallTime)
    requires
        store.wf(),
        store.exact_live(instance),
    ensures
        ({
            let stream = store.streams[instance];
            let (begun, plan) = store.deletion_begun(instance);
            &&& begun.registry == store.registry && begun.inventory == store.inventory
            &&& stream.ref_count > 0 ==> {
                &&& plan == DeletePlan::Soft
                &&& begun.lookup(stream.path, now) == Lookup::SoftDeleted(instance)
                &&& begun.tombstone_ended(instance, false) == store
                &&& begun.tombstone_ended(instance, true).streams == begun.streams
                &&& begun.tombstone_ended(instance, true).inventory.entries[stream.path].deleted
            }
            &&& stream.ref_count == 0 ==> plan == DeletePlan::Hard && begun == store
        }),
{
    let stream = store.streams[instance];
    let begun = store.deletion_begun(instance).0;
    if stream.ref_count > 0 {
        let back = begun.tombstone_ended(instance, false);
        assert(back.streams[instance] =~= stream);
        assert(back.streams =~= store.streams);
        assert(back =~= store);
    }
}

/// A creation that was written down is in the list; one that was not is gone
/// again.
pub proof fn law_creation_ends_listed_or_gone(store: StoreView, instance: u64)
    requires
        store.wf(),
        store.exact(instance),
    ensures
        ({
            let path = store.streams[instance].path;
            let kept = store.creation_ended(instance, true);
            let gone = store.creation_ended(instance, false);
            &&& kept.inventory.entries.contains_key(path)
            &&& kept.inventory.entries[path].stream_id == store.streams[instance].identity.id
            &&& kept.registry == store.registry && kept.streams == store.streams
            &&& !gone.registry.contains_key(path)
            &&& !gone.streams.contains_key(instance)
            &&& gone.inventory == store.inventory
        }),
{
    let gone = store.creation_ended(instance, false);
    if let Some(p) = store.streams[instance].parent {
        assert(p < instance);
    }
}

/// Only what is out of its place is forgotten, and nothing else with it.
pub proof fn law_streams_in_place_are_remembered(store: StoreView, instance: u64)
    ensures
        ({
            let (after, gone) = store.forgetting(instance);
            &&& store.exact(instance) ==> after == store && !gone
            &&& !store.streams.contains_key(instance) ==> after == store && !gone
            &&& gone ==> !after.streams.contains_key(instance)
            &&& after.streams.remove(instance) == store.streams.remove(instance)
            &&& after.registry == store.registry && after.inventory == store.inventory
        }),
{
    let after = store.forgetting(instance).0;
    assert(after.streams.remove(instance) =~= store.streams.remove(instance));
}

/// No append begins on a fenced stream. Each append that begins is counted until
/// it ends, and the last one that ends says so.
pub proof fn law_fence_stops_appends(stream: StreamView)
    requires
        stream.inflight_appends < usize::MAX,
    ensures
        ({
            let (begun, may) = stream.append_begun();
            &&& may <==> !stream.fenced
            &&& stream.fenced ==> begun == stream
            &&& may ==> {
                &&& begun.inflight_appends == stream.inflight_appends + 1
                &&& begun.append_ended().0 == stream
                &&& begun.append_ended().1 <==> stream.inflight_appends == 0
            }
        }),
{
}

/// A use of a stream notes its time and nothing else.
pub proof fn law_use_notes_the_time(stream: StreamView, now: WallTime)
    ensures
        stream.used(now).last_access == now,
        (StreamView { last_access: stream.last_access, ..stream.used(now) }) == stream,
        stream.used(now).tail == stream.tail,
        stream.used(now).closed == stream.closed,
{
}

/// A retirement fences a stream once, and only one that is in its place and not
/// deleted. A fenced stream stays where it is, and takes no more appends.
pub proof fn law_retirement_fences_once(store: StoreView, instance: u64)
    ensures
        ({
            let (after, fenced) = store.fencing(instance);
            &&& fenced ==> {
                &&& store.exact(instance) && !store.streams[instance].soft_deleted
                &&& !store.streams[instance].fenced && after.streams[instance].fenced
                &&& !after.streams[instance].append_begun().1
                &&& !after.fencing(instance).1
            }
            &&& !fenced ==> after == store
            &&& store.exact(instance) && !store.streams[instance].soft_deleted
                && !store.streams[instance].fenced ==> fenced
            &&& after.registry == store.registry && after.inventory == store.inventory
            &&& after.streams.remove(instance) == store.streams.remove(instance)
        }),
{
    let after = store.fencing(instance).0;
    assert(after.streams.remove(instance) =~= store.streams.remove(instance));
}

/// A retirement that takes effect leaves a tombstone where others read through
/// the stream, and otherwise takes it off its path and the list. One whose
/// admission is gone meanwhile leaves the stream at its path.
pub proof fn law_retirement_takes_effect_when_owned(
    store: StoreView,
    instance: u64,
    now: WallTime,
)
    requires
        store.wf(),
        store.exact_live(instance),
    ensures
        ({
            let stream = store.streams[instance];
            let done = store.retired(instance, true);
            let back = store.retired(instance, false);
            &&& stream.ref_count > 0 ==> {
                &&& done.lookup(stream.path, now) == Lookup::SoftDeleted(instance)
                &&& done.cleanup_plan(instance) == CleanupPlan::WriteTombstone
            }
            &&& stream.ref_count == 0 ==> {
                &&& done.lookup(stream.path, now) == Lookup::Missing
                &&& done.cleanup_plan(instance) == CleanupPlan::RemoveFiles
                &&& done.streams == store.streams
                &&& back.registry == store.registry
                &&& back.streams == store.streams
            }
        }),
{
    if store.streams[instance].ref_count == 0 {
        crate::store::laws::law_cancelled_retirement_is_undone(store, instance);
        crate::store::laws::law_retired_stream_is_missing(store, instance, now);
    }
}

/// The files of a stream are removed only if it is fenced and off its path, and a
/// tombstone is written only for one that is fenced and at its path.
pub proof fn law_cleanup_waits_for_the_fence(store: StoreView, instance: u64)
    ensures
        ({
            let stream = store.streams[instance];
            let may = store.cleanup_complaint(instance) is None;
            let plan = store.cleanup_plan(instance);
            &&& may <==> stream.fenced && (stream.soft_deleted <==> store.exact(instance))
            &&& may && plan == CleanupPlan::RemoveFiles ==> !store.exact(instance)
            &&& may && plan == CleanupPlan::WriteTombstone ==> store.exact(instance)
                && stream.soft_deleted
            &&& store.cleaned_up(instance, CleanupPlan::WriteTombstone).1.len() == 0
            &&& store.cleaned_up(instance, CleanupPlan::WriteTombstone).0.streams == store.streams
            &&& stream.parent is None ==> store.cleaned_up(instance, CleanupPlan::RemoveFiles) == (
                store,
                Seq::<ParentAction>::empty(),
            )
        }),
{
}

/// A retirement is refused for a stream that is off its path, replaced or deleted,
/// and where there is nobody to do it; and for no other reason.
pub proof fn law_retirement_is_refused_with_reason(store: StoreView, instance: u64, ready: bool)
    ensures
        ({
            let stream = store.streams[instance];
            let taken = store.registry.contains_key(stream.path);
            let refusal = store.retirement_refusal(instance, ready);
            &&& !taken ==> refusal == Some(ExplicitRetirementResult::Missing)
            &&& taken && store.registry[stream.path] != instance ==> refusal == Some(
                ExplicitRetirementResult::Stale,
            )
            &&& taken && store.registry[stream.path] == instance && stream.soft_deleted ==> refusal
                == Some(ExplicitRetirementResult::Gone)
            &&& taken && store.registry[stream.path] == instance && !stream.soft_deleted && !ready
                ==> refusal == Some(ExplicitRetirementResult::Unavailable)
            &&& taken && store.registry[stream.path] == instance && !stream.soft_deleted && ready
                ==> refusal is None
        }),
{
}

/// A stream that is rebuilt after a restart is the one that its path leads to, and
/// the others are as they were.
pub proof fn law_rebuilt_stream_is_found(store: StoreView, stream: StreamView)
    requires
        store.wf(),
        store.next_instance < u64::MAX,
        stream.identity.instance == store.next_instance,
    ensures
        ({
            let after = store.adopted(stream);
            &&& after.registry.contains_pair(stream.path, stream.identity.instance)
            &&& after.streams.contains_pair(stream.identity.instance, stream)
            &&& after.registry.remove(stream.path) == store.registry.remove(stream.path)
            &&& after.streams.remove(stream.identity.instance) == store.streams
            &&& after.found(Some(stream.path)) == Some(stream.identity.instance)
            &&& after.found(None) is None
            &&& after.next_instance == store.next_instance + 1
            &&& after.next_id == store.next_id && after.inventory == store.inventory
        }),
{
    let after = store.adopted(stream);
    assert(!store.streams.contains_key(store.next_instance));
    assert(after.registry.remove(stream.path) =~= store.registry.remove(stream.path));
    assert(after.streams.remove(stream.identity.instance) =~= store.streams);
}

/// A chunk that is kept is answered, whole and in every part; one that is too
/// large, or comes while the cache is off, is not kept.
pub proof fn law_written_chunk_is_answered(
    start: u64,
    chunk: Seq<u8>,
    cap: usize,
    from: u64,
    to: u64,
)
    ensures
        0 < chunk.len() <= cap && start <= from < to <= start + chunk.len() ==> slice_is_held(
            kept_chunk(start, chunk, cap),
            from,
            to,
            cap,
        ),
        kept_chunk(start, chunk, cap) matches Some((at, kept)) ==> at == start && kept == chunk,
        chunk.len() > cap || cap == 0 ==> kept_chunk(start, chunk, cap) is None,
{
}

/// Only the stream with the number of the one at the path changes the list.
pub proof fn law_replaced_stream_is_not_listed(store: StoreView, instance: u64)
    requires
        ({
            let stream = store.streams[instance];
            ||| !store.registry.contains_key(stream.path)
            ||| store.streams[store.registry[stream.path]].identity.id != stream.identity.id
        }),
    ensures
        store.published(instance) == store,
        store.creation_ended(instance, true) == store,
        store.tombstone_ended(instance, true) == store,
{
}

/// A retirement that comes too late changes nothing.
pub proof fn law_late_retirement_is_lost(store: StoreView, instance: u64, owned: bool)
    requires
        !store.exact(instance) || store.streams[instance].soft_deleted,
    ensures
        store.retired(instance, owned) == store,
        store.linearized(instance).1 == Linearized::Lost,
        !store.fencing(instance).1 && store.fencing(instance).0 == store,
{
}

/// A retirement that takes effect takes the line of the stream off the list, and
/// the source of a fork is let go when the files are gone.
pub proof fn law_retirement_lets_go(store: StoreView, instance: u64)
    requires
        store.wf(),
        store.exact_live(instance),
    ensures
        ({
            let stream = store.streams[instance];
            let done = store.retired(instance, true);
            let (after, actions) = done.cleaned_up(instance, done.cleanup_plan(instance));
            &&& stream.ref_count == 0 ==> done.inventory == store.inventory.without_entry(
                stream.path,
                stream.identity.id,
            )
            &&& stream.ref_count == 0 && stream.parent is Some && store.streams.contains_key(
                stream.parent->0,
            ) ==> {
                let source = store.streams[stream.parent->0];
                &&& actions.len() > 0
                &&& source.ref_count > 0 && !source.soft_deleted ==> {
                    &&& after.streams[stream.parent->0].ref_count == source.ref_count - 1
                    &&& actions == seq![ParentAction::PersistCount(stream.parent->0)]
                }
                &&& source.ref_count <= 1 && source.soft_deleted ==> actions[0]
                    == ParentAction::Collect(stream.parent->0)
            }
            &&& stream.ref_count > 0 ==> {
                &&& actions.len() == 0
                &&& after.inventory.entries.contains_key(stream.path)
                &&& after.inventory.entries[stream.path].deleted
            }
        }),
{
    let done = store.retired(instance, true);
    if store.streams[instance].ref_count == 0 {
        crate::store::laws::law_retired_stream_is_missing(
            store,
            instance,
            store.streams[instance].last_access,
        );
    }
}

/// The sidecar of a stream says what the stream is.
pub proof fn law_sidecar_is_faithful(stream: StreamView, i: int)
    ensures
        ({
            let meta = crate::store::meta::captured(stream);
            &&& meta.id == stream.identity.id && meta.path == stream.path
            &&& meta.content_type == stream.config.content_type
            &&& meta.ttl_seconds == stream.config.ttl_seconds
            &&& meta.expires_at_raw == stream.config.expires_at_raw
            &&& meta.create_closed == stream.config.create_closed
            &&& meta.forked_from == stream.config.forked_from
            &&& meta.fork_offset_raw == stream.config.fork_offset_raw
            &&& meta.fork_sub_offset == stream.config.fork_sub_offset
            &&& meta.base_offset == stream.base_offset
            &&& meta.sealed_offset == stream.sealed_offset
            &&& meta.closed == stream.closed && meta.closed_by == stream.closed_by
            &&& meta.producers == stream.producers
            &&& meta.last_seq_header == stream.last_seq_header
            &&& meta.ref_count == stream.ref_count && meta.soft_deleted == stream.soft_deleted
            &&& meta.file_base == Some(stream.file_base)
            &&& meta.pending_compaction == stream.compaction
            &&& meta.durable_tail == Some(stream.durable_tail)
            &&& stream.last_access.nanos >= 0 && stream.last_access.nanos <= MAX_WALL_NANOS
                ==> meta.last_access_unix == stream.last_access.nanos as int / 1_000_000_000
            &&& meta.segments.len() == stream.segments.len()
            &&& 0 <= i < stream.segments.len() ==> {
                &&& meta.segments[i].logical_start == stream.segments[i].logical_start
                &&& meta.segments[i].len == stream.segments[i].len
                &&& meta.segments[i].remote_key is Some <==> stream.segments[i].placement is Remote
            }
        }),
{
}

} // verus!
