//! What holds of the store as a whole.

use crate::clock::WallTime;
use crate::store::lifecycle::{Linearized, ParentAction};
use crate::store::stream::StreamView;
use crate::store::table::{entry_of, Lookup, StoreView};
use vstd::prelude::*;

verus! {

/// A creation that could not be written down leaves no trace: the registry, the
/// list, the other streams and the parent's count are as they were.
pub proof fn law_failed_creation_leaves_nothing(store: StoreView, stream: StreamView)
    requires
        store.wf(),
        store.next_instance < u64::MAX,
        stream.identity.instance == store.next_instance,
        !store.registry.contains_key(stream.path),
        stream.parent matches Some(p) ==> store.streams.contains_key(p)
            && store.streams[p].ref_count < u32::MAX,
    ensures
        store.installed(stream).uncreated(store.next_instance) == (StoreView {
            next_instance: (store.next_instance + 1) as u64,
            ..store
        }),
{
    let instance = store.next_instance;
    let after = store.installed(stream);
    assert(!store.streams.contains_key(instance));
    assert(after.exact(instance));
    let goal = StoreView { next_instance: (store.next_instance + 1) as u64, ..store };
    let end = after.uncreated(instance);
    assert(end.registry =~= goal.registry);
    if let Some(p) = stream.parent {
        assert(p != instance);
        assert(end.streams[p] =~= store.streams[p]);
    }
    assert(end.streams =~= goal.streams);
    assert(end =~= goal);
}

/// A fork that is created and then deleted leaves its parent's count as it was,
/// as long as the parent was not deleted meanwhile.
pub proof fn law_fork_counts_balance(store: StoreView, stream: StreamView)
    requires
        store.wf(),
        store.next_instance < u64::MAX,
        stream.identity.instance == store.next_instance,
        !store.registry.contains_key(stream.path),
        stream.parent is Some,
        store.streams.contains_key(stream.parent->0),
        store.streams[stream.parent->0].ref_count < u32::MAX,
        !store.streams[stream.parent->0].soft_deleted,
    ensures
        ({
            let parent = stream.parent->0;
            let (end, actions) = store.installed(stream).reaped(store.next_instance);
            &&& end.streams[parent] == store.streams[parent]
            &&& end.registry == store.registry
            &&& actions == seq![ParentAction::PersistCount(parent)]
        }),
{
    let instance = store.next_instance;
    let parent = stream.parent->0;
    let after = store.installed(stream);
    assert(!store.streams.contains_key(instance));
    assert(parent != instance);
    assert(after.exact(instance));
    let (end, actions) = after.reaped(instance);
    assert(end.registry =~= store.registry);
    assert(end.streams[parent] =~= store.streams[parent]);
}

/// Deleting a stream whose path was taken over by another one changes nothing.
pub proof fn law_late_deletion_spares_the_replacement(store: StoreView, instance: u64)
    requires
        store.wf(),
        store.streams.contains_key(instance),
        !store.exact(instance),
    ensures
        store.reaped(instance) == (store, Seq::<ParentAction>::empty()),
        store.linearized(instance) == (store, Linearized::Lost),
        store.unregistered(instance) == store,
{
}

/// A stream with forks that is deleted stays at its path as a tombstone, so no
/// stream can be created there; its parent is not released.
pub proof fn law_tombstone_blocks_its_path(store: StoreView, instance: u64, now: WallTime)
    requires
        store.wf(),
        store.exact(instance),
    ensures
        ({
            let after = store.with_tombstone(instance, true);
            &&& after.registry == store.registry
            &&& after.lookup(store.streams[instance].path, now) == Lookup::SoftDeleted(instance)
            &&& after.inventory == store.inventory
        }),
{
}

/// A retirement that is cancelled after the stream was taken out puts the stream
/// back at its path, with its line in the list.
pub proof fn law_cancelled_retirement_is_undone(store: StoreView, instance: u64)
    requires
        store.wf(),
        store.exact_live(instance),
        store.streams[instance].ref_count == 0,
    ensures
        ({
            let out = store.linearized(instance).0;
            let back = out.restored(instance);
            let stream = store.streams[instance];
            &&& !out.registry.contains_key(stream.path)
            &&& back.registry == store.registry
            &&& back.streams == store.streams
            &&& back.inventory.entries.contains_pair(stream.path, entry_of(stream))
        }),
{
    let out = store.linearized(instance).0;
    let back = out.restored(instance);
    assert(back.registry =~= store.registry);
    assert(out.streams == store.streams);
}

/// What was deleted for good is not found any more.
pub proof fn law_retired_stream_is_missing(store: StoreView, instance: u64, now: WallTime)
    requires
        store.wf(),
        store.exact_live(instance),
        store.streams[instance].ref_count == 0,
    ensures
        ({
            let path = store.streams[instance].path;
            let out = store.linearized(instance).0;
            &&& out.lookup(path, now) == Lookup::Missing
            &&& forall|other: Seq<char>|
                other != path ==> #[trigger] out.lookup(other, now) == store.lookup(other, now)
            &&& store.inventory.entries.contains_key(path)
                && store.inventory.entries[path].stream_id == store.streams[instance].identity.id
                ==> !out.inventory.entries.contains_key(path)
        }),
{
}

/// Letting go of a parent never touches the streams outside the chain of
/// parents, nor the list; it only ever lowers counts and takes registrations
/// away.
pub proof fn law_release_only_lowers(store: StoreView, parent: Option<u64>)
    requires
        store.wf(),
    ensures
        ({
            let end = store.released(parent).0;
            &&& end.inventory == store.inventory
            &&& end.streams.dom() == store.streams.dom()
            &&& forall|k: u64| #[trigger]
                store.streams.contains_key(k) ==> {
                    &&& end.streams[k].ref_count <= store.streams[k].ref_count
                    &&& end.streams[k] == (StreamView {
                        ref_count: end.streams[k].ref_count,
                        ..store.streams[k]
                    })
                }
            &&& forall|path: Seq<char>| #[trigger]
                end.registry.contains_key(path) ==> store.registry.contains_key(path)
                    && end.registry[path] == store.registry[path]
        }),
    decreases
            match parent {
                Some(p) => p + 1,
                None => 0,
            },
{
    if let Some(p) = parent {
        if store.streams.contains_key(p) {
            let stream = store.streams[p];
            let count = if stream.ref_count == 0 {
                0
            } else {
                (stream.ref_count - 1) as u32
            };
            let counted = store.with_ref_count(p, count);
            assert(counted.streams.dom() =~= store.streams.dom());
            crate::store::lifecycle::lemma_changed_wf(
                store,
                p,
                StreamView { ref_count: count, ..stream },
            );
            if stream.soft_deleted && count == 0 {
                crate::store::lifecycle::lemma_unregistered_wf(counted, p);
                law_release_only_lowers(counted.unregistered(p), stream.parent);
            }
        }
    }
}

/// Rebuilding the list gives exactly the lines that the registered streams have.
pub proof fn law_refresh_lists_every_stream(store: StoreView, path: Seq<char>)
    requires
        store.wf(),
    ensures
        store.relisted().inventory.entries.contains_key(path) <==> store.registry.contains_key(
            path,
        ),
        store.registry.contains_key(path) ==> store.relisted().inventory.entries[path] == entry_of(
            store.streams[store.registry[path]],
        ),
{
}

} // verus!
