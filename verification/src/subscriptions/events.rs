//! What happens to the subscriptions when streams grow and go, when the server
//! starts again, and when deliveries and leases run their course.

use crate::path_map::in_order;
use crate::subscriptions::links::{StreamStatus, StreamTable};
use crate::subscriptions::paths::relative_path;
use crate::subscriptions::state::{
    entry_of, law_undo_restores, mentions, touched_view, ManagerState, StateView, Touched, Undo,
};
use crate::subscriptions::subscription::{opt_delivery, Delivery, DeliveryView, SubView};
use crate::subscriptions::token::{WakeSeed, WakeSeedView};
use vstd::prelude::*;

verus! {

/// The longest time between two attempts to deliver, in milliseconds.
pub const MAX_RETRY_DELAY_MS: u64 = 60_000;

/// The contents of several seeds.
pub open spec fn seed_list(seeds: Seq<WakeSeed>) -> Seq<WakeSeedView> {
    seeds.map_values(|seed: WakeSeed| seed@)
}

/// Whether there is randomness for `count` wakes.
pub open spec fn seeds_suffice(seeds: Seq<WakeSeed>, count: nat) -> bool {
    &&& seeds.len() >= count
    &&& forall|i: int| 0 <= i < seeds.len() ==> (#[trigger] seeds[i])@.full()
}

/// Draw randomness for several wakes; nothing where the system gives none.
/// Without wakes nothing is drawn, so nothing can fail.
pub fn draw_seeds(count: usize) -> (r: Option<Vec<WakeSeed>>)
    ensures
        count == 0 ==> r is Some,
        r matches Some(seeds) ==> seeds@.len() == count && seeds_suffice(seeds@, count as nat),
{
    let mut seeds: Vec<WakeSeed> = Vec::new();
    while seeds.len() < count
        invariant
            seeds@.len() <= count,
            forall|i: int| 0 <= i < seeds@.len() ==> (#[trigger] seeds@[i])@.full(),
        decreases count - seeds.len(),
    {
        match with_draw(seeds, WakeSeed::draw()) {
            Some(more) => {
                seeds = more;
            },
            None => {
                return None;
            },
        }
    }
    Some(seeds)
}

/// What one more draw makes of the seeds drawn so far: it comes last, and
/// nothing is left of them where it failed.
pub fn with_draw(seeds: Vec<WakeSeed>, drawn: Option<WakeSeed>) -> (r: Option<Vec<WakeSeed>>)
    ensures
        r is Some <==> drawn is Some,
        r matches Some(more) ==> more@ == seeds@.push(drawn->0),
{
    match drawn {
        Some(seed) => {
            let mut more = seeds;
            more.push(seed);
            Some(more)
        },
        None => None,
    }
}

/// The contents of several announcements.
pub open spec fn delivery_list(deliveries: Seq<Delivery>) -> Seq<DeliveryView> {
    deliveries.map_values(|delivery: Delivery| delivery@)
}

/// The announcements among the first `n` results, in their order.
pub open spec fn announced(results: spec_fn(int) -> Option<DeliveryView>, n: int) -> Seq<
    DeliveryView,
>
    decreases n,
{
    if n <= 0 {
        Seq::empty()
    } else {
        match results(n - 1) {
            Some(delivery) => announced(results, n - 1).push(delivery),
            None => announced(results, n - 1),
        }
    }
}

impl StateView {
    /// The keys in their order.
    pub open spec fn keys(self) -> Seq<Seq<char>> {
        in_order(self.subscriptions.dom())
    }

    /// What an append does to the subscription at position `i`.
    pub open spec fn append_at(
        self,
        i: int,
        table: Map<Seq<char>, StreamStatus>,
        absolute: Seq<char>,
        secret: Seq<u8>,
        seeds: Seq<WakeSeedView>,
        now_ms: u64,
    ) -> (SubView, bool, Option<DeliveryView>) {
        self.subscriptions[self.keys()[i]].appended(table, absolute, secret, seeds[i], now_ms)
    }

    /// What an append to a stream does: the subscriptions after it, whether
    /// that is worth keeping, and the wakes that are sent out. An append to a
    /// wake channel wakes nobody.
    pub open spec fn after_append(
        self,
        table: Map<Seq<char>, StreamStatus>,
        absolute: Seq<char>,
        secret: Seq<u8>,
        seeds: Seq<WakeSeedView>,
        now_ms: u64,
    ) -> (StateView, bool, Seq<DeliveryView>) {
        if self.wake_streams.contains_key(absolute) {
            (self, false, Seq::empty())
        } else {
            (
                StateView {
                    subscriptions: Map::new(
                        |key: Seq<char>| self.subscriptions.contains_key(key),
                        |key: Seq<char>|
                            self.append_at(
                                self.keys().index_of(key),
                                table,
                                absolute,
                                secret,
                                seeds,
                                now_ms,
                            ).0,
                    ),
                    ..self
                },
                exists|i: int|
                    0 <= i < self.keys().len() && (#[trigger] self.append_at(
                        i,
                        table,
                        absolute,
                        secret,
                        seeds,
                        now_ms,
                    )).1,
                announced(
                    |i: int| self.append_at(i, table, absolute, secret, seeds, now_ms).2,
                    self.keys().len() as int,
                ),
            )
        }
    }

    /// Whether the subscription at position `i` is affected by a retirement.
    pub open spec fn affected_at(self, i: int, absolute: Seq<char>, stream_id: u64) -> bool {
        self.subscriptions[self.keys()[i]].affected_by(absolute, stream_id)
    }

    /// What the retirement of a stream does to the subscription at position `i`.
    pub open spec fn retire_at(
        self,
        i: int,
        table: Map<Seq<char>, StreamStatus>,
        absolute: Seq<char>,
        stream_id: u64,
        secret: Seq<u8>,
        seeds: Seq<WakeSeedView>,
        now_ms: u64,
    ) -> (SubView, Option<DeliveryView>) {
        let sub = self.subscriptions[self.keys()[i]];
        if sub.affected_by(absolute, stream_id) {
            sub.bereft(
                table,
                relative_path(sub.root, absolute)->0,
                stream_id,
                secret,
                seeds[i],
                now_ms,
            )
        } else {
            (sub, None)
        }
    }

    /// What the retirement of a stream does: the subscriptions after it, and
    /// the wakes that are sent out.
    pub open spec fn after_retirement(
        self,
        table: Map<Seq<char>, StreamStatus>,
        absolute: Seq<char>,
        stream_id: u64,
        secret: Seq<u8>,
        seeds: Seq<WakeSeedView>,
        now_ms: u64,
    ) -> (StateView, Seq<DeliveryView>) {
        (
            StateView {
                subscriptions: Map::new(
                    |key: Seq<char>| self.subscriptions.contains_key(key),
                    |key: Seq<char>|
                        self.retire_at(
                            self.keys().index_of(key),
                            table,
                            absolute,
                            stream_id,
                            secret,
                            seeds,
                            now_ms,
                        ).0,
                ),
                ..self
            },
            announced(
                |i: int|
                    self.retire_at(i, table, absolute, stream_id, secret, seeds, now_ms).1,
                self.keys().len() as int,
            ),
        )
    }

    /// Whether the retirement of a stream concerns any subscription. Where the
    /// path holds another stream by now, it concerns none.
    pub open spec fn retirement_matters(
        self,
        table: Map<Seq<char>, StreamStatus>,
        absolute: Seq<char>,
        stream_id: u64,
    ) -> bool {
        &&& !(table.contains_key(absolute) && table[absolute].id != stream_id)
        &&& exists|i: int|
            0 <= i < self.keys().len() && #[trigger] self.affected_at(i, absolute, stream_id)
    }
}

impl ManagerState {
    /// Take note that something was appended to a stream: whether that changed
    /// anything worth keeping, and the wakes that have to be sent out.
    pub fn on_stream_append(
        &mut self,
        absolute: &str,
        table: &StreamTable,
        secret: &Vec<u8>,
        seeds: &Vec<WakeSeed>,
        now_ms: u64,
    ) -> (r: (bool, Vec<Delivery>))
        requires
            old(self).wf(),
            table.wf(),
            secret@.len() == 32,
            seeds_suffice(seeds@, old(self)@.subscriptions.dom().len()),
        ensures
            final(self).wf(),
            (final(self)@, r.0, delivery_list(r.1@)) == old(self)@.after_append(
                table@,
                absolute@,
                secret@,
                seed_list(seeds@),
                now_ms,
            ),
    {
        let mut deliveries: Vec<Delivery> = Vec::new();
        if self.wake_streams.contains(absolute) {
            assert(delivery_list(deliveries@) =~= Seq::empty());
            return (false, deliveries);
        }
        let ghost before = self@;
        let ghost keys = self.subscriptions.key_list();
        let ghost list = seed_list(seeds@);
        let ghost results = |i: int|
            before.append_at(i, table@, absolute@, secret@, list, now_ms).2;
        let mut changed = false;
        let mut i: usize = 0;
        proof {
            self.subscriptions.lemma_lists();
            assert(delivery_list(deliveries@) =~= announced(results, 0));
        }
        while i < self.subscriptions.len()
            invariant
                self.wf(),
                table.wf(),
                secret@.len() == 32,
                seeds_suffice(seeds@, keys.len()),
                list == seed_list(seeds@),
                results == (|i: int|
                    before.append_at(i, table@, absolute@, secret@, list, now_ms).2),
                keys == self.subscriptions.key_list(),
                keys == before.keys(),
                keys.no_duplicates(),
                i <= keys.len(),
                self@.wake_streams == before.wake_streams,
                self@.subscriptions.dom() == before.subscriptions.dom(),
                forall|k: int|
                    0 <= k < i ==> self@.subscriptions[#[trigger] keys[k]] == before.append_at(
                        k,
                        table@,
                        absolute@,
                        secret@,
                        list,
                        now_ms,
                    ).0,
                forall|k: int|
                    i <= k < keys.len() ==> self@.subscriptions[#[trigger] keys[k]]
                        == before.subscriptions[keys[k]],
                changed == exists|k: int|
                    0 <= k < i && (#[trigger] before.append_at(
                        k,
                        table@,
                        absolute@,
                        secret@,
                        list,
                        now_ms,
                    )).1,
                delivery_list(deliveries@) == announced(results, i as int),
            decreases keys.len() - i,
        {
            let ghost so_far = delivery_list(deliveries@);
            let ghost result = before.append_at(
                i as int,
                table@,
                absolute@,
                secret@,
                list,
                now_ms,
            );
            let mut sub = self.at(i).copy();
            assert(list[i as int] == seeds@[i as int]@);
            proof {
                self.subscriptions.lemma_lists();
                sub@.lemma_append_keeps_key(table@, absolute@, secret@, list[i as int], now_ms);
            }
            let (mattered, delivery) = sub.observe_append(
                absolute,
                table,
                secret,
                &seeds[i],
                now_ms,
            );
            assert((sub@, mattered, opt_delivery(delivery)) == result);
            assert(results(i as int) == result.2);
            changed = changed || mattered;
            match delivery {
                Some(delivery) => {
                    deliveries.push(delivery);
                    assert(delivery_list(deliveries@) =~= so_far.push(delivery@));
                },
                None => {},
            }
            self.set(i, sub);
            assert(self@.subscriptions.dom() =~= before.subscriptions.dom());
            i = i + 1;
        }
        proof {
            self.subscriptions.lemma_lists();
            let goal = before.after_append(table@, absolute@, secret@, list, now_ms).0;
            assert forall|key: Seq<char>| self@.subscriptions.contains_key(key) implies
                self@.subscriptions[key] == goal.subscriptions[key] by {
                assert(keys.contains(key));
                let k = keys.index_of(key);
                assert(keys[k] == key);
            }
            assert(self@.subscriptions =~= goal.subscriptions);
            assert(self@ =~= goal);
        }
        (changed, deliveries)
    }
}

impl SubView {
    /// An append leaves the name of the subscription alone.
    pub proof fn lemma_append_keeps_key(
        self,
        table: Map<Seq<char>, StreamStatus>,
        absolute: Seq<char>,
        secret: Seq<u8>,
        seed: WakeSeedView,
        now_ms: u64,
    )
        ensures
            self.appended(table, absolute, secret, seed, now_ms).0.key() == self.key(),
            self.appended(table, absolute, secret, seed, now_ms).0.config == self.config,
            self.appended(table, absolute, secret, seed, now_ms).0.root == self.root,
    {
    }

    /// A retirement leaves the name of the subscription alone.
    pub proof fn lemma_retirement_keeps_key(
        self,
        table: Map<Seq<char>, StreamStatus>,
        path: Seq<char>,
        stream_id: u64,
        secret: Seq<u8>,
        seed: WakeSeedView,
        now_ms: u64,
    )
        ensures
            self.bereft(table, path, stream_id, secret, seed, now_ms).0.key() == self.key(),
    {
    }
}

/// The change that the retirement of a stream makes, while it is still to be kept.
pub struct RetirementChange {
    pub undo: Undo,
    pub deliveries: Vec<Delivery>,
}

impl ManagerState {
    /// Whether the retirement of a stream concerns any subscription.
    fn retirement_matters(&self, absolute: &str, stream_id: u64, table: &StreamTable) -> (r: bool)
        requires
            self.wf(),
            table.wf(),
        ensures
            r == self@.retirement_matters(table@, absolute@, stream_id),
    {
        match table.get(absolute) {
            Some(status) => {
                if status.id != stream_id {
                    return false;
                }
            },
            None => {},
        }
        let ghost keys = self.subscriptions.key_list();
        let mut i: usize = 0;
        proof {
            self.subscriptions.lemma_lists();
        }
        while i < self.subscriptions.len()
            invariant
                self.wf(),
                keys == self.subscriptions.key_list(),
                keys == self@.keys(),
                i <= keys.len(),
                !(table@.contains_key(absolute@) && table@[absolute@].id != stream_id),
                forall|k: int|
                    0 <= k < i ==> !(#[trigger] self@.affected_at(k, absolute@, stream_id)),
            decreases keys.len() - i,
        {
            let sub = self.at(i);
            assert(self@.subscriptions[self@.keys()[i as int]] == sub@);
            if sub.affected_by(absolute, stream_id).is_some() {
                assert(self@.affected_at(i as int, absolute@, stream_id));
                return true;
            }
            i = i + 1;
        }
        false
    }

    /// Take note that a stream was retired. Nothing comes back where that
    /// concerns no subscription; otherwise the change is in place but still to
    /// be kept.
    pub fn on_stream_deleted(
        &mut self,
        absolute: &str,
        stream_id: u64,
        table: &StreamTable,
        secret: &Vec<u8>,
        seeds: &Vec<WakeSeed>,
        now_ms: u64,
    ) -> (r: Option<RetirementChange>)
        requires
            old(self).wf(),
            table.wf(),
            secret@.len() == 32,
            seeds_suffice(seeds@, old(self)@.subscriptions.dom().len()),
        ensures
            final(self).wf(),
            match r {
                Some(change) => {
                    &&& old(self)@.retirement_matters(table@, absolute@, stream_id)
                    &&& (final(self)@, delivery_list(change.deliveries@))
                        == old(self)@.after_retirement(
                        table@,
                        absolute@,
                        stream_id,
                        secret@,
                        seed_list(seeds@),
                        now_ms,
                    )
                    &&& change.undo.wf()
                    &&& final(self)@.undone(change.undo@) == old(self)@
                },
                None => {
                    &&& !old(self)@.retirement_matters(table@, absolute@, stream_id)
                    &&& final(self)@ == old(self)@
                },
            },
    {
        if !self.retirement_matters(absolute, stream_id, table) {
            return None;
        }
        let ghost before = self@;
        let ghost keys = self.subscriptions.key_list();
        let ghost list = seed_list(seeds@);
        let ghost results = |i: int|
            before.retire_at(i, table@, absolute@, stream_id, secret@, list, now_ms).1;
        let mut deliveries: Vec<Delivery> = Vec::new();
        let mut touched: Vec<Touched> = Vec::new();
        let mut i: usize = 0;
        proof {
            self.subscriptions.lemma_lists();
            assert(delivery_list(deliveries@) =~= announced(results, 0));
        }
        while i < self.subscriptions.len()
            invariant
                self.wf(),
                table.wf(),
                secret@.len() == 32,
                seeds_suffice(seeds@, keys.len()),
                list == seed_list(seeds@),
                results == (|i: int|
                    before.retire_at(i, table@, absolute@, stream_id, secret@, list, now_ms).1),
                keys == self.subscriptions.key_list(),
                keys == before.keys(),
                keys.no_duplicates(),
                i <= keys.len(),
                self@.wake_streams == before.wake_streams,
                self@.subscriptions.dom() == before.subscriptions.dom(),
                forall|k: int|
                    0 <= k < i ==> self@.subscriptions[#[trigger] keys[k]] == before.retire_at(
                        k,
                        table@,
                        absolute@,
                        stream_id,
                        secret@,
                        list,
                        now_ms,
                    ).0,
                forall|k: int|
                    i <= k < keys.len() ==> self@.subscriptions[#[trigger] keys[k]]
                        == before.subscriptions[keys[k]],
                delivery_list(deliveries@) == announced(results, i as int),
                forall|t: int|
                    0 <= t < touched@.len() ==> {
                        &&& (#[trigger] touched@[t]).before matches Some(old_sub)
                        &&& old_sub.wf()
                        &&& old_sub@.key() == touched@[t].key@
                        &&& before.subscriptions.contains_key(touched@[t].key@)
                        &&& before.subscriptions[touched@[t].key@] == old_sub@
                    },
                forall|k: int|
                    0 <= k < i && self@.subscriptions[#[trigger] keys[k]]
                        != before.subscriptions[keys[k]] ==> exists|t: int|
                        0 <= t < touched@.len() && (#[trigger] touched@[t]).key@ == keys[k],
            decreases keys.len() - i,
        {
            let ghost so_far = delivery_list(deliveries@);
            let ghost noted = touched@;
            let ghost key = keys[i as int];
            let ghost result = before.retire_at(
                i as int,
                table@,
                absolute@,
                stream_id,
                secret@,
                list,
                now_ms,
            );
            assert(results(i as int) == result.1);
            assert(list[i as int] == seeds@[i as int]@);
            proof {
                self.subscriptions.lemma_lists();
            }
            let sub = self.at(i);
            match sub.affected_by(absolute, stream_id) {
                Some(path) => {
                    let kept = sub.copy();
                    let mut changed = sub.copy();
                    proof {
                        sub@.lemma_retirement_keeps_key(
                            table@,
                            path@,
                            stream_id,
                            secret@,
                            list[i as int],
                            now_ms,
                        );
                    }
                    let delivery = changed.observe_retired(
                        path.as_str(),
                        stream_id,
                        table,
                        secret,
                        &seeds[i],
                        now_ms,
                    );
                    match delivery {
                        Some(delivery) => {
                            deliveries.push(delivery);
                            assert(delivery_list(deliveries@) =~= so_far.push(delivery@));
                        },
                        None => {},
                    }
                    touched.push(Touched { key: kept.key(), before: Some(kept) });
                    self.set(i, changed);
                    assert(self@.subscriptions.dom() =~= before.subscriptions.dom());
                },
                None => {},
            }
            proof {
                assert forall|k: int|
                    0 <= k < i + 1 && self@.subscriptions[#[trigger] keys[k]]
                        != before.subscriptions[keys[k]] implies exists|t: int|
                    0 <= t < touched@.len() && (#[trigger] touched@[t]).key@ == keys[k] by {
                    if k < i {
                        assert(keys[k] != key);
                        let t = choose|t: int|
                            0 <= t < noted.len() && (#[trigger] noted[t]).key@ == keys[k];
                        assert(touched@[t].key@ == keys[k]);
                    } else {
                        assert(touched@[touched@.len() - 1].key@ == keys[k]);
                    }
                }
            }
            i = i + 1;
        }
        let undo = Undo { touched, channel: None };
        proof {
            self.subscriptions.lemma_lists();
            let goal = before.after_retirement(
                table@,
                absolute@,
                stream_id,
                secret@,
                list,
                now_ms,
            ).0;
            assert forall|key: Seq<char>| self@.subscriptions.contains_key(key) implies
                self@.subscriptions[key] == goal.subscriptions[key] by {
                assert(keys.contains(key));
                let k = keys.index_of(key);
                assert(keys[k] == key);
            }
            assert(self@.subscriptions =~= goal.subscriptions);
            assert(self@ =~= goal);
            self.lemma_noted(before, undo);
        }
        Some(RetirementChange { undo, deliveries })
    }

    /// Notes of all changed subscriptions take the change back.
    proof fn lemma_noted(&self, before: StateView, undo: Undo)
        requires
            self.wf(),
            undo.channel is None,
            self@.wake_streams == before.wake_streams,
            self@.subscriptions.dom() == before.subscriptions.dom(),
            forall|t: int|
                0 <= t < undo.touched@.len() ==> {
                    &&& (#[trigger] undo.touched@[t]).before matches Some(old_sub)
                    &&& before.subscriptions.contains_key(undo.touched@[t].key@)
                    &&& before.subscriptions[undo.touched@[t].key@] == old_sub@
                },
            forall|k: int|
                0 <= k < self.subscriptions.key_list().len()
                    && self@.subscriptions[#[trigger] self.subscriptions.key_list()[k]]
                    != before.subscriptions[self.subscriptions.key_list()[k]] ==> exists|t: int|
                    0 <= t < undo.touched@.len() && (#[trigger] undo.touched@[t]).key@
                        == self.subscriptions.key_list()[k],
        ensures
            self@.undone(undo@) == before,
    {
        let keys = self.subscriptions.key_list();
        let noted = undo@.touched;
        self.subscriptions.lemma_lists();
        assert forall|t: int| 0 <= t < noted.len() implies (#[trigger] noted[t]).1 == entry_of(
            before.subscriptions,
            noted[t].0,
        ) by {
            assert(noted[t] == touched_view(undo.touched@[t]));
        }
        assert forall|key: Seq<char>|
            #![trigger entry_of(self@.subscriptions, key)]
            !mentions(noted, key) implies entry_of(self@.subscriptions, key) == entry_of(
            before.subscriptions,
            key,
        ) by {
            if self@.subscriptions.contains_key(key) && self@.subscriptions[key]
                != before.subscriptions[key] {
                assert(keys.contains(key));
                let k = keys.index_of(key);
                assert(keys[k] == key);
                let t = choose|t: int|
                    0 <= t < undo.touched@.len() && (#[trigger] undo.touched@[t]).key@ == keys[k];
                assert(noted[t].0 == key);
            }
        }
        assert(self@.undone(undo@).wake_streams =~= before.wake_streams);
        law_undo_restores(undo@, self@, before);
    }

    /// Finish the change that a retirement made, given whether it was kept. A
    /// change that was not kept is taken back, and nothing is sent out.
    pub fn settle_retirement(&mut self, change: RetirementChange, kept: bool) -> (r: Vec<Delivery>)
        requires
            old(self).wf(),
            change.undo.wf(),
        ensures
            final(self).wf(),
            if kept {
                final(self)@ == old(self)@ && r@ == change.deliveries@
            } else {
                final(self)@ == old(self)@.undone(change.undo@) && r@.len() == 0
            },
    {
        if kept {
            change.deliveries
        } else {
            self.undo(change.undo);
            Vec::new()
        }
    }
}

} // verus!
