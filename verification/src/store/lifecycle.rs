//! How streams come into the store's lists and leave them again.

use crate::clock::WallTime;
use crate::path_map::PathMap;
use crate::store::inventory::{
    is_page, InventoryEntry, InventoryPage, InventoryPageError, InventoryView,
};
use crate::store::registry::{
    registered, registry_claim, registry_entries, registry_get, registry_remove_if,
};
use crate::store::stream::{StreamState, StreamView};
use crate::store::table::{entry_of, Store, StoreView};
use crate::subscriptions::links::{StreamStatus, StreamTable};
use crate::subscriptions::subscription::next_u64;
use vstd::prelude::*;

verus! {

broadcast use vstd::std_specs::hash::group_hash_axioms;

/// What is left to do for a parent whose fork went away.
#[derive(Clone, Copy, Debug, PartialEq, Eq, Structural)]
pub enum ParentAction {
    /// Write its sidecar with the smaller count.
    PersistCount(u64),
    /// Remove its files: it was deleted, and its last fork is gone.
    Collect(u64),
}

/// Where a deletion leads.
#[derive(Clone, Copy, Debug, PartialEq, Eq, Structural)]
pub enum DeletePlan {
    /// Forks still read the stream: it stays as a tombstone.
    Soft,
    /// The stream's files are to be removed.
    Hard,
}

/// What became of a stream when its retirement took effect.
#[derive(Clone, Copy, Debug, PartialEq, Eq, Structural)]
pub enum Linearized {
    /// Another change was faster.
    Lost,
    /// It stays as a tombstone for its forks.
    SoftDeleted,
    /// It is out of the registry and the list.
    Removed,
}

impl StoreView {
    /// The store without the registration of a stream, if it is the one at its path.
    pub open spec fn unregistered(self, instance: u64) -> StoreView {
        if self.exact(instance) {
            StoreView { registry: self.registry.remove(self.streams[instance].path), ..self }
        } else {
            self
        }
    }

    /// The store after one fork of `parent` went away, and what is left to do.
    /// Deleted parents without forks go one after the other.
    pub open spec fn released(self, parent: Option<u64>) -> (StoreView, Seq<ParentAction>)
        decreases
                match parent {
                    Some(p) => p + 1,
                    None => 0,
                },
    {
        match parent {
            None => (self, Seq::empty()),
            Some(p) => if !self.streams.contains_key(p) {
                (self, Seq::empty())
            } else {
                let count = if self.streams[p].ref_count == 0 {
                    0
                } else {
                    (self.streams[p].ref_count - 1) as u32
                };
                let counted = self.with_ref_count(p, count);
                if !(self.streams[p].soft_deleted && count == 0) {
                    (counted, seq![ParentAction::PersistCount(p)])
                } else {
                    let next = match self.streams[p].parent {
                        Some(q) => if q < p {
                            Some(q)
                        } else {
                            None
                        },
                        None => None,
                    };
                    let (after, actions) = counted.unregistered(p).released(next);
                    (after, seq![ParentAction::Collect(p)] + actions)
                }
            },
        }
    }

    /// The store with the list rebuilt from the registered streams.
    pub open spec fn relisted(self) -> StoreView {
        StoreView {
            inventory: InventoryView {
                generation: next_u64(self.inventory.generation),
                entries: Map::new(
                    |path: Seq<char>| self.registry.contains_key(path),
                    |path: Seq<char>| entry_of(self.streams[self.registry[path]]),
                ),
            },
            ..self
        }
    }

    /// The store after a creation could not be written down.
    pub open spec fn uncreated(self, instance: u64) -> StoreView {
        let out = self.unregistered(instance);
        let forgotten = StoreView { streams: out.streams.remove(instance), ..out };
        match self.streams[instance].parent {
            Some(p) => if forgotten.streams.contains_key(p) && self.streams[p].ref_count > 0 {
                forgotten.with_ref_count(p, (self.streams[p].ref_count - 1) as u32)
            } else {
                forgotten
            },
            None => forgotten,
        }
    }

    /// The store with a stream's tombstone set or taken back.
    pub open spec fn with_tombstone(self, instance: u64, soft_deleted: bool) -> StoreView {
        self.with_stream(instance, StreamView { soft_deleted, ..self.streams[instance] })
    }

    /// What the end of a creation does: the stream is listed, or it is taken back.
    pub open spec fn creation_ended(self, instance: u64, wrote: bool) -> StoreView {
        if wrote {
            self.published(instance)
        } else {
            self.uncreated(instance)
        }
    }

    /// What the begin of a deletion does, and how the deletion goes on.
    pub open spec fn deletion_begun(self, instance: u64) -> (StoreView, DeletePlan) {
        if self.streams[instance].ref_count > 0 {
            (self.with_tombstone(instance, true), DeletePlan::Soft)
        } else {
            (self, DeletePlan::Hard)
        }
    }

    /// What the end of a deletion that leaves a tombstone does.
    pub open spec fn tombstone_ended(self, instance: u64, wrote: bool) -> StoreView {
        if wrote {
            self.published(instance)
        } else {
            self.with_tombstone(instance, false)
        }
    }

    /// The store without what is known of a stream that is not in its place, and
    /// whether there was such a stream.
    pub open spec fn forgetting(self, instance: u64) -> (StoreView, bool) {
        if self.streams.contains_key(instance) && !self.exact(instance) {
            (StoreView { streams: self.streams.remove(instance), ..self }, true)
        } else {
            (self, false)
        }
    }

    /// The store after the files of a deleted stream were removed, and what is
    /// left to do for its parents.
    pub open spec fn reaped(self, instance: u64) -> (StoreView, Seq<ParentAction>) {
        if self.exact(instance) {
            let stream = self.streams[instance];
            let out = self.unregistered(instance);
            StoreView {
                inventory: out.inventory.without_entry(stream.path, stream.identity.id),
                ..out
            }.released(stream.parent)
        } else {
            (self, Seq::empty())
        }
    }

    /// What the registered streams look like to subscriptions.
    pub open spec fn statuses(self, now: WallTime) -> Map<Seq<char>, StreamStatus> {
        Map::new(
            |path: Seq<char>| self.registry.contains_key(path),
            |path: Seq<char>| status_of(self.streams[self.registry[path]], now),
        )
    }
}

/// What a stream looks like to subscriptions.
pub open spec fn status_of(stream: StreamView, now: WallTime) -> StreamStatus {
    StreamStatus {
        id: stream.identity.id,
        tail_bytes: stream.durable_tail,
        fenced: stream.fenced,
        expired: stream.expired_at(now),
        soft_deleted: stream.soft_deleted,
    }
}

/// A change of a stream that leaves its place alone keeps the store in order.
pub proof fn lemma_changed_wf(store: StoreView, instance: u64, stream: StreamView)
    requires
        store.wf(),
        store.streams.contains_key(instance),
        stream.identity.instance == instance,
        stream.path == store.streams[instance].path,
        stream.parent == store.streams[instance].parent,
    ensures
        store.with_stream(instance, stream).wf(),
{
    let next = store.with_stream(instance, stream);
    assert forall|path: Seq<char>| #[trigger] next.registry.contains_key(path) implies {
        &&& next.streams.contains_key(next.registry[path])
        &&& next.streams[next.registry[path]].path == path
    } by {
        assert(store.registry.contains_key(path));
    }
    assert forall|k: u64| #[trigger] next.streams.contains_key(k) implies {
        &&& next.streams[k].identity.instance == k
        &&& k < next.next_instance
        &&& next.streams[k].parent matches Some(parent) ==> parent < k
    } by {
        assert(store.streams.contains_key(k));
    }
    assert forall|i: int| 0 <= i < next.sweep.len() implies (#[trigger] next.sweep[i])
        < next.next_instance by {
        assert(store.sweep[i] < store.next_instance);
    }
}

/// A removed registration keeps the store in order.
pub proof fn lemma_unregistered_wf(store: StoreView, instance: u64)
    requires
        store.wf(),
    ensures
        store.unregistered(instance).wf(),
{
    let next = store.unregistered(instance);
    assert forall|path: Seq<char>| #[trigger] next.registry.contains_key(path) implies {
        &&& next.streams.contains_key(next.registry[path])
        &&& next.streams[next.registry[path]].path == path
    } by {
        assert(store.registry.contains_key(path));
    }
}

fn line_of(stream: &StreamState) -> (r: InventoryEntry)
    ensures
        r@ == entry_of(stream@),
{
    InventoryEntry {
        path: stream.path.clone(),
        closed: stream.closed_durable,
        deleted: stream.soft_deleted,
        durable_bytes: stream.durable_tail,
        stream_id: stream.identity.id,
    }
}

impl Store {
    /// Whether exactly this stream is at its path.
    pub fn is_exact_registered(&self, instance: u64) -> (r: bool)
        requires
            self.wf(),
        ensures
            r == self@.exact(instance),
    {
        match self.stream(instance) {
            Some(stream) => match registry_get(&self.registry, stream.path.as_str()) {
                Some(present) => present == instance,
                None => false,
            },
            None => false,
        }
    }

    /// Whether exactly this stream is at its path and not deleted.
    pub fn is_exact_live(&self, instance: u64) -> (r: bool)
        requires
            self.wf(),
        ensures
            r == (self@.exact(instance) && !self@.streams[instance].soft_deleted),
    {
        if !self.is_exact_registered(instance) {
            return false;
        }
        match self.stream(instance) {
            Some(stream) => !stream.soft_deleted,
            None => false,
        }
    }

    /// The stream that is at a path.
    pub fn registered_at(&self, path: &str) -> (r: Option<u64>)
        ensures
            match r {
                Some(instance) => self@.registry.contains_pair(path@, instance),
                None => !self@.registry.contains_key(path@),
            },
    {
        registry_get(&self.registry, path)
    }

    /// Fence a stream: no append begins any more.
    pub fn fence(&mut self, instance: u64)
        requires
            old(self).wf(),
            old(self)@.streams.contains_key(instance),
        ensures
            final(self).wf(),
            final(self)@ == old(self)@.with_stream(
                instance,
                StreamView { fenced: true, ..old(self)@.streams[instance] },
            ),
            final(self).settings == old(self).settings,
    {
        match self.streams.remove(&instance) {
            Some(stream) => {
                let mut stream = stream;
                let ghost before = stream@;
                stream.fence();
                self.streams.insert(instance, stream);
                proof {
                    let fenced = StreamView { fenced: true, ..before };
                    assert(self@.streams =~= old(self)@.streams.insert(instance, fenced));
                    assert(self@ =~= old(self)@.with_stream(instance, fenced));
                    lemma_changed_wf(old(self)@, instance, fenced);
                }
            },
            None => {},
        }
    }

    /// Publish the line of a stream, if a stream with its number is at its path.
    pub fn publish_inventory(&mut self, instance: u64)
        requires
            old(self).wf(),
            old(self)@.streams.contains_key(instance),
        ensures
            final(self).wf(),
            final(self)@ == old(self)@.published(instance),
            final(self).settings == old(self).settings,
    {
        let line = match self.stream(instance) {
            Some(stream) => match registry_get(&self.registry, stream.path.as_str()) {
                Some(present) => {
                    assert(self@.registry.contains_key(stream.path@));
                    match self.stream(present) {
                        Some(current) => if current.identity.id == stream.identity.id {
                            Some(line_of(stream))
                        } else {
                            None
                        },
                        None => None,
                    }
                },
                None => None,
            },
            None => None,
        };
        match line {
            Some(line) => {
                self.inventory.publish(line);
                assert(self@ =~= old(self)@.published(instance));
            },
            None => {},
        }
    }

    /// Publish the line of a stream after more of it became durable.
    pub fn publish_inventory_tail(&mut self, instance: u64)
        requires
            old(self).wf(),
            old(self)@.streams.contains_key(instance),
        ensures
            final(self).wf(),
            final(self)@ == old(self)@.published(instance),
            final(self).settings == old(self).settings,
    {
        self.publish_inventory(instance);
    }

    /// One page of the list.
    pub fn inventory_page(&self, generation: Option<u64>, after: Option<&str>, limit: usize) -> (r:
        Result<InventoryPage, InventoryPageError>)
        requires
            self.wf(),
        ensures
            is_page(
                self@.inventory,
                generation,
                match after {
                    Some(text) => Some(text@),
                    None => None,
                },
                limit,
                r,
            ),
    {
        self.inventory.page(generation, after, limit)
    }

    /// Rebuild the list from the registered streams.
    pub fn refresh_inventory(&mut self)
        requires
            old(self).wf(),
        ensures
            final(self).wf(),
            final(self)@ == old(self)@.relisted(),
            final(self).settings == old(self).settings,
    {
        let entries = registry_entries(&self.registry);
        let ghost goal = self@.relisted().inventory.entries;
        let mut lines: PathMap<InventoryEntry> = PathMap::new();
        let mut i: usize = 0;
        while i < entries.len()
            invariant
                self.wf(),
                goal == self@.relisted().inventory.entries,
                i <= entries@.len(),
                forall|k: int|
                    0 <= k < entries@.len() ==> registered(self.registry).contains_pair(
                        (#[trigger] entries@[k]).path@,
                        entries@[k].instance,
                    ),
                lines.wf(),
                forall|path: Seq<char>| #[trigger]
                    lines@.contains_key(path) ==> goal.contains_key(path) && lines@[path]
                        == goal[path],
                forall|k: int| 0 <= k < i ==> lines@.contains_key((#[trigger] entries@[k]).path@),
            decreases entries.len() - i,
        {
            let entry = &entries[i];
            assert(self@.registry.contains_key(entry.path@));
            match self.stream(entry.instance) {
                Some(stream) => {
                    lines.insert(entry.path.clone(), line_of(stream));
                },
                None => {},
            }
            i = i + 1;
        }
        proof {
            assert forall|path: Seq<char>| goal.contains_key(path) implies lines@.contains_key(
                path,
            ) by {
                assert(registered(self.registry).contains_key(path));
                let k = choose|k: int|
                    0 <= k < entries@.len() && (#[trigger] entries@[k]).path@ == path;
                assert(lines@.contains_key(entries@[k].path@));
            }
            assert(lines@ =~= goal);
        }
        self.inventory.replace(lines);
        assert(self@ =~= old(self)@.relisted());
    }

    /// What the registered streams look like to subscriptions.
    pub fn stream_table(&self, now: WallTime) -> (r: StreamTable)
        requires
            self.wf(),
        ensures
            r.wf(),
            r@ == self@.statuses(now),
    {
        let entries = registry_entries(&self.registry);
        let ghost goal = self@.statuses(now);
        let mut table: StreamTable = PathMap::new();
        let mut i: usize = 0;
        while i < entries.len()
            invariant
                self.wf(),
                goal == self@.statuses(now),
                i <= entries@.len(),
                forall|k: int|
                    0 <= k < entries@.len() ==> registered(self.registry).contains_pair(
                        (#[trigger] entries@[k]).path@,
                        entries@[k].instance,
                    ),
                table.wf(),
                forall|path: Seq<char>| #[trigger]
                    table@.contains_key(path) ==> goal.contains_key(path) && table@[path]
                        == goal[path],
                forall|k: int| 0 <= k < i ==> table@.contains_key((#[trigger] entries@[k]).path@),
            decreases entries.len() - i,
        {
            let entry = &entries[i];
            assert(self@.registry.contains_key(entry.path@));
            match self.stream(entry.instance) {
                Some(stream) => {
                    let status = StreamStatus {
                        id: stream.identity.id,
                        tail_bytes: stream.durable_tail,
                        fenced: stream.fenced,
                        expired: stream.is_expired_at(now),
                        soft_deleted: stream.soft_deleted,
                    };
                    table.insert(entry.path.clone(), status);
                },
                None => {},
            }
            i = i + 1;
        }
        proof {
            assert forall|path: Seq<char>| goal.contains_key(path) implies table@.contains_key(
                path,
            ) by {
                assert(registered(self.registry).contains_key(path));
                let k = choose|k: int|
                    0 <= k < entries@.len() && (#[trigger] entries@[k]).path@ == path;
                assert(table@.contains_key(entries@[k].path@));
            }
            assert(table@ =~= goal);
        }
        table
    }

    /// Take a stream out of the registry, if it is the one at its path, and say
    /// whether it was.
    fn unregister(&mut self, instance: u64) -> (r: bool)
        requires
            old(self).wf(),
        ensures
            final(self).wf(),
            final(self)@ == old(self)@.unregistered(instance),
            r == old(self)@.exact(instance),
            final(self).settings == old(self).settings,
            final(self).streams == old(self).streams,
    {
        let path = match self.stream(instance) {
            Some(stream) => stream.path.clone(),
            None => {
                return false;
            },
        };
        let removed = registry_remove_if(&mut self.registry, path.as_str(), instance);
        proof {
            lemma_unregistered_wf(old(self)@, instance);
            assert(self@ =~= old(self)@.unregistered(instance));
        }
        removed
    }

    /// Set how many forks a stream has.
    fn set_ref_count(&mut self, instance: u64, ref_count: u32)
        requires
            old(self).wf(),
            old(self)@.streams.contains_key(instance),
        ensures
            final(self).wf(),
            final(self)@ == old(self)@.with_ref_count(instance, ref_count),
            final(self).settings == old(self).settings,
    {
        match self.streams.remove(&instance) {
            Some(stream) => {
                let mut stream = stream;
                let ghost before = stream@;
                stream.ref_count = ref_count;
                assert(stream@ =~= (StreamView { ref_count, ..before }));
                self.streams.insert(instance, stream);
                proof {
                    assert(self@.streams =~= old(self)@.streams.insert(instance, stream@));
                    assert(self@ =~= old(self)@.with_ref_count(instance, ref_count));
                    lemma_changed_wf(
                        old(self)@,
                        instance,
                        StreamView { ref_count, ..old(self)@.streams[instance] },
                    );
                }
            },
            None => {},
        }
    }

    /// Set or take back a stream's tombstone.
    fn set_tombstone(&mut self, instance: u64, soft_deleted: bool)
        requires
            old(self).wf(),
            old(self)@.streams.contains_key(instance),
        ensures
            final(self).wf(),
            final(self)@ == old(self)@.with_tombstone(instance, soft_deleted),
            final(self).settings == old(self).settings,
    {
        match self.streams.remove(&instance) {
            Some(stream) => {
                let mut stream = stream;
                let ghost before = stream@;
                stream.soft_deleted = soft_deleted;
                assert(stream@ =~= (StreamView { soft_deleted, ..before }));
                self.streams.insert(instance, stream);
                proof {
                    assert(self@.streams =~= old(self)@.streams.insert(instance, stream@));
                    assert(self@ =~= old(self)@.with_tombstone(instance, soft_deleted));
                    lemma_changed_wf(
                        old(self)@,
                        instance,
                        StreamView { soft_deleted, ..old(self)@.streams[instance] },
                    );
                }
            },
            None => {},
        }
    }

    /// Take note that a fork of `parent` went away, and say what is left to do.
    pub fn release_parent(&mut self, parent: Option<u64>) -> (r: Vec<ParentAction>)
        requires
            old(self).wf(),
        ensures
            final(self).wf(),
            (final(self)@, r@) == old(self)@.released(parent),
            final(self).settings == old(self).settings,
    {
        let ghost goal = self@.released(parent);
        let ghost settings = self.settings;
        let mut actions: Vec<ParentAction> = Vec::new();
        let mut current: Option<u64> = parent;
        assert(goal.1 =~= actions@ + self@.released(current).1);
        while current.is_some()
            invariant
                self.wf(),
                self.settings == settings,
                settings == old(self).settings,
                goal == old(self)@.released(parent),
                goal.0 == self@.released(current).0,
                goal.1 == actions@ + self@.released(current).1,
            decreases (match current {
                Some(p) => p + 1,
                None => 0,
            }),
        {
            let p: u64 = match current {
                Some(p) => p,
                None => 0,
            };
            let (count, gone, next) = match self.stream(p) {
                Some(stream) => {
                    let count: u32 = stream.ref_count.saturating_sub(1);
                    (count, stream.soft_deleted && count == 0, stream.parent)
                },
                None => {
                    assert(goal.1 =~= actions@);
                    return actions;
                },
            };
            let ghost before = self@;
            let ghost so_far = actions@;
            assert(before.streams.contains_key(p));
            self.set_ref_count(p, count);
            if !gone {
                actions.push(ParentAction::PersistCount(p));
                assert(goal.1 =~= actions@);
                return actions;
            }
            let _ = self.unregister(p);
            actions.push(ParentAction::Collect(p));
            proof {
                let counted = before.with_ref_count(p, count);
                let rest = counted.unregistered(p).released(next);
                assert(before.released(Some(p)).1 == seq![ParentAction::Collect(p)] + rest.1);
                assert(goal.1 =~= actions@ + rest.1);
            }
            current = next;
        }
        assert(goal.1 =~= actions@);
        actions
    }

    /// Finish a creation once its sidecar was written, or take it back.
    pub fn finish_create(&mut self, instance: u64, wrote: bool)
        requires
            old(self).wf(),
            old(self)@.streams.contains_key(instance),
        ensures
            final(self).wf(),
            final(self)@ == (if wrote {
                old(self)@.published(instance)
            } else {
                old(self)@.uncreated(instance)
            }),
            final(self)@ == old(self)@.creation_ended(instance, wrote),
            final(self).settings == old(self).settings,
    {
        if wrote {
            self.publish_inventory(instance);
            return;
        }
        let _ = self.unregister(instance);
        let ghost out = self@;
        let parent = match self.streams.remove(&instance) {
            Some(stream) => stream.parent,
            None => None,
        };
        let ghost forgotten = StoreView { streams: out.streams.remove(instance), ..out };
        proof {
            assert(self@.streams =~= forgotten.streams);
            assert(self@ =~= forgotten);
            lemma_forgotten_wf(out, instance);
        }
        match parent {
            Some(p) => {
                let count: u32 = match self.stream(p) {
                    Some(stream) => stream.ref_count,
                    None => 0,
                };
                if count > 0 {
                    self.set_ref_count(p, count - 1);
                }
            },
            None => {},
        }
    }

    /// Drop what is known of a stream that is no longer in its place.
    pub fn forget(&mut self, instance: u64) -> (r: bool)
        requires
            old(self).wf(),
        ensures
            final(self).wf(),
            final(self).settings == old(self).settings,
            r == (old(self)@.streams.contains_key(instance) && !old(self)@.exact(instance)),
            final(self)@ == (if r {
                StoreView { streams: old(self)@.streams.remove(instance), ..old(self)@ }
            } else {
                old(self)@
            }),
            (final(self)@, r) == old(self)@.forgetting(instance),
    {
        if self.is_exact_registered(instance) {
            return false;
        }
        match self.streams.remove(&instance) {
            Some(_) => {
                proof {
                    let next = StoreView {
                        streams: old(self)@.streams.remove(instance),
                        ..old(self)@
                    };
                    assert(self@.streams =~= next.streams);
                    assert(self@ =~= next);
                    lemma_forgotten_wf(old(self)@, instance);
                }
                true
            },
            None => {
                assert(self@.streams =~= old(self)@.streams);
                assert(self@ =~= old(self)@);
                false
            },
        }
    }

    /// Begin a deletion: a stream with forks becomes a tombstone, whose sidecar
    /// is still to be written; the files of one without are to be removed.
    pub fn begin_delete(&mut self, instance: u64) -> (r: DeletePlan)
        requires
            old(self).wf(),
            old(self)@.streams.contains_key(instance),
        ensures
            final(self).wf(),
            final(self).settings == old(self).settings,
            if old(self)@.streams[instance].ref_count > 0 {
                r == DeletePlan::Soft && final(self)@ == old(self)@.with_tombstone(instance, true)
            } else {
                r == DeletePlan::Hard && final(self)@ == old(self)@
            },
            (final(self)@, r) == old(self)@.deletion_begun(instance),
    {
        let forked = match self.stream(instance) {
            Some(stream) => stream.ref_count > 0,
            None => false,
        };
        if forked {
            self.set_tombstone(instance, true);
            DeletePlan::Soft
        } else {
            DeletePlan::Hard
        }
    }

    /// Finish a deletion that leaves a tombstone, given whether its sidecar was
    /// written. Without it the stream is not deleted.
    pub fn finish_soft_delete(&mut self, instance: u64, wrote: bool)
        requires
            old(self).wf(),
            old(self)@.streams.contains_key(instance),
        ensures
            final(self).wf(),
            final(self)@ == (if wrote {
                old(self)@.published(instance)
            } else {
                old(self)@.with_tombstone(instance, false)
            }),
            final(self)@ == old(self)@.tombstone_ended(instance, wrote),
            final(self).settings == old(self).settings,
    {
        if wrote {
            self.publish_inventory(instance);
        } else {
            self.set_tombstone(instance, false);
        }
    }

    /// Finish a deletion whose files were removed, and say what is left to do
    /// for the parents.
    pub fn finish_hard_delete(&mut self, instance: u64) -> (r: Vec<ParentAction>)
        requires
            old(self).wf(),
        ensures
            final(self).wf(),
            (final(self)@, r@) == old(self)@.reaped(instance),
            final(self).settings == old(self).settings,
    {
        let (path, id, parent) = match self.stream(instance) {
            Some(stream) => (stream.path.clone(), stream.identity.id, stream.parent),
            None => {
                let none: Vec<ParentAction> = Vec::new();
                assert(none@ =~= Seq::empty());
                return none;
            },
        };
        if !self.unregister(instance) {
            let none: Vec<ParentAction> = Vec::new();
            assert(none@ =~= Seq::empty());
            return none;
        }
        let ghost out = self@;
        self.inventory.remove(path.as_str(), id);
        proof {
            assert(self@ =~= (StoreView {
                inventory: out.inventory.without_entry(path@, id),
                ..out
            }));
        }
        self.release_parent(parent)
    }

    /// Let a retirement take effect on a stream that is fenced: a stream with
    /// forks becomes a tombstone, another one leaves registry and list.
    pub fn linearize_retirement(&mut self, instance: u64) -> (r: Linearized)
        requires
            old(self).wf(),
        ensures
            final(self).wf(),
            final(self).settings == old(self).settings,
            ({
                let stream = old(self)@.streams[instance];
                if !old(self)@.exact(instance) || stream.soft_deleted {
                    r == Linearized::Lost && final(self)@ == old(self)@
                } else if stream.ref_count > 0 {
                    &&& r == Linearized::SoftDeleted
                    &&& final(self)@ == old(self)@.with_tombstone(instance, true)
                } else {
                    let out = old(self)@.unregistered(instance);
                    &&& r == Linearized::Removed
                    &&& final(self)@ == (StoreView {
                        inventory: out.inventory.without_entry(stream.path, stream.identity.id),
                        ..out
                    })
                }
            }),
    {
        if !self.is_exact_live(instance) {
            return Linearized::Lost;
        }
        let (path, id, forked) = match self.stream(instance) {
            Some(stream) => (stream.path.clone(), stream.identity.id, stream.ref_count > 0),
            None => {
                return Linearized::Lost;
            },
        };
        if forked {
            self.set_tombstone(instance, true);
            return Linearized::SoftDeleted;
        }
        let _ = self.unregister(instance);
        let ghost out = self@;
        self.inventory.remove(path.as_str(), id);
        assert(self@ =~= (StoreView { inventory: out.inventory.without_entry(path@, id), ..out }));
        Linearized::Removed
    }

    /// Put a stream back in its place after its retirement was cancelled, unless
    /// another one is there by now.
    pub fn restore_exact_registration(&mut self, instance: u64) -> (r: bool)
        requires
            old(self).wf(),
            old(self)@.streams.contains_key(instance),
        ensures
            final(self).wf(),
            final(self).settings == old(self).settings,
            ({
                let path = old(self)@.streams[instance].path;
                let back = StoreView {
                    registry: old(self)@.registry.insert(path, instance),
                    ..old(self)@
                };
                &&& r == !old(self)@.registry.contains_key(path)
                &&& final(self)@ == (if r {
                    back.published(instance)
                } else {
                    old(self)@
                })
            }),
    {
        let path = match self.stream(instance) {
            Some(stream) => stream.path.clone(),
            None => {
                return false;
            },
        };
        let ghost name = path@;
        match registry_claim(&mut self.registry, path, instance) {
            Some(_) => {
                assert(self@ =~= old(self)@);
                false
            },
            None => {
                proof {
                    let back = StoreView {
                        registry: old(self)@.registry.insert(name, instance),
                        ..old(self)@
                    };
                    assert(self@ =~= back);
                    assert forall|p: Seq<char>| #[trigger] back.registry.contains_key(p) implies {
                        &&& back.streams.contains_key(back.registry[p])
                        &&& back.streams[back.registry[p]].path == p
                    } by {
                        if p != name {
                            assert(old(self)@.registry.contains_key(p));
                        }
                    }
                }
                self.publish_inventory(instance);
                true
            },
        }
    }
}

/// Forgetting a stream that is not registered keeps the store in order.
proof fn lemma_forgotten_wf(store: StoreView, instance: u64)
    requires
        store.wf(),
        !store.exact(instance),
        store.streams.contains_key(instance),
    ensures
        (StoreView { streams: store.streams.remove(instance), ..store }).wf(),
{
    let next = StoreView { streams: store.streams.remove(instance), ..store };
    assert forall|path: Seq<char>| #[trigger] next.registry.contains_key(path) implies {
        &&& next.streams.contains_key(next.registry[path])
        &&& next.streams[next.registry[path]].path == path
    } by {
        assert(store.registry.contains_key(path));
        if store.registry[path] == instance {
            assert(store.registry.contains_pair(path, instance));
        }
    }
    assert forall|k: u64| #[trigger] next.streams.contains_key(k) implies {
        &&& next.streams[k].identity.instance == k
        &&& k < next.next_instance
        &&& next.streams[k].parent matches Some(parent) ==> parent < k
    } by {
        assert(store.streams.contains_key(k));
    }
    assert forall|i: int| 0 <= i < next.sweep.len() implies (#[trigger] next.sweep[i])
        < next.next_instance by {
        assert(store.sweep[i] < store.next_instance);
    }
}

} // verus!
