//! Sidecars that are written late: which streams wait for one.

use crate::store::lifecycle::lemma_changed_wf;
use crate::store::stream::StreamView;
use crate::store::table::{Store, StoreView};
use vstd::prelude::*;

verus! {

broadcast use vstd::std_specs::hash::group_hash_axioms;

impl StoreView {
    /// The store after a stream was found to need its sidecar written.
    pub open spec fn marked(self, instance: u64) -> StoreView {
        if self.streams[instance].meta_dirty {
            self
        } else {
            StoreView {
                sweep: self.sweep.push(instance),
                ..self.with_stream(
                    instance,
                    StreamView { meta_dirty: true, ..self.streams[instance] },
                )
            }
        }
    }

    /// Whether every waiting stream is marked, and waits once. A mark that someone
    /// else takes off, as with a sidecar written elsewhere, ends this.
    pub open spec fn waits_once(self) -> bool {
        &&& self.sweep.no_duplicates()
        &&& forall|i: int|
            0 <= i < self.sweep.len() && self.streams.contains_key(#[trigger] self.sweep[i])
                ==> self.streams[self.sweep[i]].meta_dirty
    }

    /// The waiting streams that are still at their paths and still marked. One
    /// that was deleted must not get its sidecar back, and one whose sidecar was
    /// written meanwhile needs none.
    pub open spec fn to_flush(self) -> Seq<u64> {
        flushed_of(self, self.sweep)
    }

    /// The store after the waiting streams were taken out for writing.
    pub open spec fn swept(self) -> StoreView {
        StoreView { sweep: Seq::empty(), ..self.cleaned(self.to_flush()) }
    }

    /// The store with the marks of some streams taken off.
    pub open spec fn cleaned(self, written: Seq<u64>) -> StoreView {
        StoreView {
            streams: self.streams.map_entries(
                |k: u64, stream: StreamView|
                    if written.contains(k) {
                        StreamView { meta_dirty: false, ..stream }
                    } else {
                        stream
                    },
            ),
            ..self
        }
    }
}

/// Those of `waiting` that are at their paths and marked, each once.
pub open spec fn flushed_of(store: StoreView, waiting: Seq<u64>) -> Seq<u64>
    decreases waiting.len(),
{
    if waiting.len() == 0 {
        Seq::empty()
    } else {
        let front = flushed_of(store, waiting.drop_last());
        let last = waiting.last();
        if store.exact(last) && store.streams[last].meta_dirty && !front.contains(last) {
            front.push(last)
        } else {
            front
        }
    }
}

impl Store {
    /// Note that a stream's sidecar is to be written with the next sweep. While
    /// it is marked it is noted once.
    pub fn mark_meta_dirty(&mut self, instance: u64)
        requires
            old(self).wf(),
            old(self)@.streams.contains_key(instance),
        ensures
            final(self).wf(),
            final(self)@ == old(self)@.marked(instance),
            final(self).settings == old(self).settings,
    {
        match self.streams.remove(&instance) {
            Some(stream) => {
                let mut stream = stream;
                let ghost before = stream@;
                let fresh = !stream.meta_dirty;
                stream.meta_dirty = true;
                assert(stream@ =~= (StreamView { meta_dirty: true, ..before }));
                self.streams.insert(instance, stream);
                if fresh {
                    self.meta_sweep.push(instance);
                }
                proof {
                    let dirty = StreamView { meta_dirty: true, ..before };
                    assert(self@.streams =~= old(self)@.streams.insert(instance, dirty));
                    lemma_changed_wf(old(self)@, instance, dirty);
                    if fresh {
                        assert(self@ =~= old(self)@.marked(instance));
                        assert forall|i: int| 0 <= i < self@.sweep.len() implies (
                        #[trigger] self@.sweep[i]) < self@.next_instance by {
                            if i < old(self)@.sweep.len() {
                                assert(self@.sweep[i] == old(self)@.sweep[i]);
                            }
                        }
                        assert forall|path: Seq<char>| #[trigger]
                            self@.registry.contains_key(path) implies {
                            &&& self@.streams.contains_key(self@.registry[path])
                            &&& self@.streams[self@.registry[path]].path == path
                        } by {
                            assert(old(self)@.registry.contains_key(path));
                        }
                    } else {
                        assert(dirty =~= before);
                        assert(self@ =~= old(self)@);
                    }
                }
            },
            None => {},
        }
    }

    /// Take out the streams that wait for their sidecar, and hand out those whose
    /// sidecar is to be written now.
    pub fn sweep_meta_once(&mut self) -> (r: Vec<u64>)
        requires
            old(self).wf(),
        ensures
            final(self).wf(),
            r@ == old(self)@.to_flush(),
            final(self)@ == old(self)@.swept(),
            final(self).settings == old(self).settings,
    {
        let ghost start = self@;
        let ghost settings = self.settings;
        let mut drained: Vec<u64> = Vec::new();
        std::mem::swap(&mut drained, &mut self.meta_sweep);
        let mut written: Vec<u64> = Vec::new();
        let ghost emptied = StoreView { sweep: Seq::empty(), ..start };
        proof {
            assert(drained@.take(0) =~= Seq::empty());
            assert(emptied.cleaned(written@).streams =~= emptied.streams);
            assert(self@ =~= emptied.cleaned(written@));
        }
        let mut i: usize = 0;
        while i < drained.len()
            invariant
                self.wf(),
                self.settings == settings,
                settings == old(self).settings,
                start == old(self)@,
                start.wf(),
                drained@ == start.sweep,
                emptied == (StoreView { sweep: Seq::empty(), ..start }),
                i <= drained@.len(),
                written@ == flushed_of(start, drained@.take(i as int)),
                self@ == emptied.cleaned(written@),
            decreases drained.len() - i,
        {
            let instance: u64 = drained[i];
            proof {
                assert(drained@.take(i as int + 1).drop_last() =~= drained@.take(i as int));
                assert(drained@.take(i as int + 1).last() == instance);
                assert(self@.exact(instance) == start.exact(instance));
            }
            let ghost before = written@;
            let marked = match self.stream(instance) {
                Some(stream) => stream.meta_dirty,
                None => false,
            };
            if marked && self.is_exact_registered(instance) {
                assert(start.streams[instance].meta_dirty && !before.contains(instance));
                self.clear_mark(instance);
                written.push(instance);
                proof {
                    assert(written@ =~= before.push(instance));
                    assert forall|k: u64| written@.contains(k) == (before.contains(k) || k
                        == instance) by {
                        if before.contains(k) {
                            let j = before.index_of(k);
                            assert(written@[j] == k);
                        }
                        assert(written@[before.len() as int] == instance);
                    }
                    assert(self@.streams =~= emptied.cleaned(written@).streams);
                    assert(self@ =~= emptied.cleaned(written@));
                }
            }
            i = i + 1;
        }
        assert(drained@.take(drained@.len() as int) =~= drained@);
        assert(self@ =~= start.swept());
        written
    }

    /// Take the mark off a stream.
    fn clear_mark(&mut self, instance: u64)
        requires
            old(self).wf(),
            old(self)@.streams.contains_key(instance),
        ensures
            final(self).wf(),
            final(self)@ == old(self)@.with_stream(
                instance,
                StreamView { meta_dirty: false, ..old(self)@.streams[instance] },
            ),
            final(self).settings == old(self).settings,
    {
        match self.streams.remove(&instance) {
            Some(stream) => {
                let mut stream = stream;
                let ghost before = stream@;
                stream.meta_dirty = false;
                let ghost clean = StreamView { meta_dirty: false, ..before };
                assert(stream@ =~= clean);
                self.streams.insert(instance, stream);
                proof {
                    assert(self@.streams =~= old(self)@.streams.insert(instance, clean));
                    assert(self@ =~= old(self)@.with_stream(instance, clean));
                    lemma_changed_wf(old(self)@, instance, clean);
                }
            },
            None => {},
        }
    }
}

/// Streams that wait once go on doing so: noting one keeps that, and after a
/// sweep none waits.
pub proof fn law_streams_wait_once(store: StoreView, instance: u64)
    requires
        store.waits_once(),
        store.streams.contains_key(instance),
    ensures
        store.marked(instance).waits_once(),
        store.swept().waits_once(),
{
    let marked = store.marked(instance);
    if !store.streams[instance].meta_dirty {
        assert(!store.sweep.contains(instance)) by {
            if store.sweep.contains(instance) {
                let i = store.sweep.index_of(instance);
                assert(store.sweep[i] == instance);
            }
        }
        assert forall|i: int, j: int| 0 <= i < j < marked.sweep.len() implies marked.sweep[i]
            != marked.sweep[j] by {
            assert(marked.sweep[i] == store.sweep[i]);
            if j < store.sweep.len() {
                assert(marked.sweep[j] == store.sweep[j]);
            } else {
                assert(store.sweep.contains(store.sweep[i]));
            }
        }
        assert forall|i: int|
            0 <= i < marked.sweep.len() && marked.streams.contains_key(
                #[trigger] marked.sweep[i],
            ) implies marked.streams[marked.sweep[i]].meta_dirty by {
            if i < store.sweep.len() {
                assert(marked.sweep[i] == store.sweep[i]);
            }
        }
    }
}

/// A sweep hands out no stream twice, only marked ones, and only those that are
/// at their paths; and what it hands out is marked no more.
pub proof fn law_sweep_hands_out_marked_streams(store: StoreView)
    ensures
        store.to_flush().no_duplicates(),
        forall|i: int|
            0 <= i < store.to_flush().len() ==> {
                let instance = #[trigger] store.to_flush()[i];
                &&& store.sweep.contains(instance)
                &&& store.exact(instance)
                &&& store.streams[instance].meta_dirty
                &&& !store.swept().streams[instance].meta_dirty
            },
        forall|i: int|
            0 <= i < store.sweep.len() && store.exact(#[trigger] store.sweep[i])
                && store.streams[store.sweep[i]].meta_dirty ==> store.to_flush().contains(
                store.sweep[i],
            ),
{
    lemma_flushed(store, store.sweep);
    assert forall|i: int| 0 <= i < store.to_flush().len() implies !store.swept().streams[
    #[trigger] store.to_flush()[i]].meta_dirty by {
        assert(store.to_flush().contains(store.to_flush()[i]));
    }
}

proof fn lemma_flushed(store: StoreView, waiting: Seq<u64>)
    ensures
        flushed_of(store, waiting).no_duplicates(),
        forall|i: int|
            0 <= i < flushed_of(store, waiting).len() ==> {
                let instance = #[trigger] flushed_of(store, waiting)[i];
                &&& waiting.contains(instance)
                &&& store.exact(instance)
                &&& store.streams[instance].meta_dirty
            },
        forall|i: int|
            0 <= i < waiting.len() && store.exact(#[trigger] waiting[i])
                && store.streams[waiting[i]].meta_dirty ==> flushed_of(store, waiting).contains(
                waiting[i],
            ),
    decreases waiting.len(),
{
    if waiting.len() > 0 {
        let rest = waiting.drop_last();
        let last = waiting.last();
        lemma_flushed(store, rest);
        let front = flushed_of(store, rest);
        let all = flushed_of(store, waiting);
        assert(waiting[waiting.len() - 1] == last);
        assert forall|i: int| 0 <= i < all.len() implies {
            let instance = #[trigger] all[i];
            &&& waiting.contains(instance)
            &&& store.exact(instance)
            &&& store.streams[instance].meta_dirty
        } by {
            if i < front.len() {
                assert(all[i] == front[i]);
                let k = rest.index_of(front[i]);
                assert(waiting[k] == front[i]);
            }
        }
        assert forall|i: int|
            0 <= i < waiting.len() && store.exact(#[trigger] waiting[i])
                && store.streams[waiting[i]].meta_dirty implies all.contains(waiting[i]) by {
            if i < rest.len() {
                assert(rest[i] == waiting[i]);
                let k = front.index_of(rest[i]);
                assert(all[k] == rest[i]);
            } else if front.contains(last) {
                let k = front.index_of(last);
                assert(all[k] == last);
            } else {
                assert(all[all.len() - 1] == last);
            }
        }
    }
}

/// Noting a waiting stream again changes nothing, and a sweep hands it out once,
/// if it is still at its path.
pub proof fn law_marked_streams_flush_once(store: StoreView, instance: u64)
    requires
        store.streams.contains_key(instance),
        store.sweep.len() == 0,
        !store.streams[instance].meta_dirty,
    ensures
        store.marked(instance).marked(instance) == store.marked(instance),
        store.exact(instance) ==> store.marked(instance).to_flush() == seq![instance],
        !store.exact(instance) ==> store.marked(instance).to_flush().len() == 0,
        store.exact(instance) ==> store.marked(instance).swept() == store,
{
    let marked = store.marked(instance);
    assert(marked.sweep.drop_last() =~= Seq::<u64>::empty());
    assert(marked.sweep.last() == instance);
    assert(marked.exact(instance) == store.exact(instance));
    reveal_with_fuel(flushed_of, 2);
    if store.exact(instance) {
        assert(marked.to_flush() =~= seq![instance]);
        assert(seq![instance][0] == instance);
        let swept = marked.swept();
        assert forall|k: u64| #[trigger] swept.streams.contains_key(k) implies swept.streams[k]
            == store.streams[k] by {
            if k == instance {
                assert(swept.streams[k] =~= store.streams[k]);
            } else {
                assert(!seq![instance].contains(k));
            }
        }
        assert(swept.streams =~= store.streams);
        assert(swept.sweep =~= store.sweep);
        assert(swept =~= store);
    }
}

} // verus!
