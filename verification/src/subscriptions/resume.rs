//! Bringing a subscription in line with the recovered streams after a restart.

use crate::path_map::{Duplicate, PathMap};
use crate::subscriptions::config::{SubscriptionKind, MAX_STREAMS_PER_SUBSCRIPTION};
use crate::subscriptions::glob::{glob_match, matches_glob};
use crate::subscriptions::links::{
    id_at, live_stream_id, LinkView, StreamLink, StreamStatus, StreamTable,
};
use crate::subscriptions::membership::{before_first, before_first_offset, WakeStreams};
use crate::subscriptions::subscription::{
    lemma_take_contains, Delivery, DeliveryView, SubView, Subscription,
};
use crate::subscriptions::token::{WakeSeed, WakeSeedView};
use crate::text::texts;
use vstd::prelude::*;

verus! {

/// A lease: the wake it belongs to, and when it ends.
pub struct Lease {
    pub key: String,
    pub generation: u64,
    pub wake_id: String,
    pub nonce: u64,
    pub expires_at_ms: u64,
}

/// A lease as a mathematical value.
#[verifier::ext_equal]
pub struct LeaseView {
    pub key: Seq<char>,
    pub generation: u64,
    pub wake_id: Seq<char>,
    pub nonce: u64,
    pub expires_at_ms: u64,
}

impl View for Lease {
    type V = LeaseView;

    open spec fn view(&self) -> LeaseView {
        LeaseView {
            key: self.key@,
            generation: self.generation,
            wake_id: self.wake_id@,
            nonce: self.nonce,
            expires_at_ms: self.expires_at_ms,
        }
    }
}

/// The contents of an optional lease.
pub open spec fn opt_lease(lease: Option<Lease>) -> Option<LeaseView> {
    match lease {
        Some(lease) => Some(lease@),
        None => None,
    }
}

/// An announcement with the time from which it may be sent.
pub struct Attempt {
    pub delivery: Delivery,
    pub at_ms: u64,
}

/// The contents of an optional attempt.
pub open spec fn opt_attempt(attempt: Option<Attempt>) -> Option<(DeliveryView, u64)> {
    match attempt {
        Some(attempt) => Some((attempt.delivery@, attempt.at_ms)),
        None => None,
    }
}

/// A link after a restart, given the identity of the live stream at its path
/// and whether the pattern asks for that path.
pub open spec fn recovered_link(link: LinkView, current: Option<u64>, asked: bool) -> LinkView {
    match current {
        Some(id) => LinkView {
            explicit: link.explicit,
            glob: asked,
            acked: if link.stream_id is Some && link.stream_id != current {
                before_first()
            } else {
                link.acked
            },
            stream_id: current,
        },
        None => LinkView {
            explicit: link.explicit,
            glob: false,
            acked: if link.explicit {
                before_first()
            } else {
                link.acked
            },
            stream_id: None,
        },
    }
}

/// Whether a link knew another stream than the live one at its path.
pub open spec fn incarnation_changed(link: LinkView, current: Option<u64>) -> bool {
    link.stream_id is Some && link.stream_id != current
}

impl SubView {
    /// Whether the pattern matches a path.
    pub open spec fn pattern_matches(self, path: Seq<char>) -> bool {
        self.config.pattern matches Some(pattern) && matches_glob(pattern, path)
    }

    /// The link to a path after a restart.
    pub open spec fn recovered_at(
        self,
        table: Map<Seq<char>, StreamStatus>,
        path: Seq<char>,
    ) -> LinkView {
        recovered_link(
            self.streams[path],
            id_at(table, self.root, path),
            self.pattern_matches(path),
        )
    }

    /// The links after a restart, without those that nothing asks for any more.
    pub open spec fn recovered_links(self, table: Map<Seq<char>, StreamStatus>) -> Map<
        Seq<char>,
        LinkView,
    > {
        Map::new(
            |path: Seq<char>|
                self.streams.contains_key(path) && (self.recovered_at(table, path).explicit
                    || self.recovered_at(table, path).glob),
            |path: Seq<char>| self.recovered_at(table, path),
        )
    }

    /// Whether some linked stream is not the one that was linked.
    pub open spec fn any_incarnation_changed(self, table: Map<Seq<char>, StreamStatus>) -> bool {
        exists|path: Seq<char>|
            self.streams.contains_key(path) && incarnation_changed(
                #[trigger] self.streams[path],
                id_at(table, self.root, path),
            )
    }

    /// The links with as many of the names added, in their order, as the
    /// pattern asks for and as fit.
    pub open spec fn adopted(
        self,
        table: Map<Seq<char>, StreamStatus>,
        wake_paths: Set<Seq<char>>,
        names: Seq<Seq<char>>,
    ) -> Map<Seq<char>, LinkView>
        decreases names.len(),
    {
        if names.len() == 0 {
            self.streams
        } else {
            let front = self.adopted(table, wake_paths, names.drop_last());
            let name = names.last();
            if self.globs(wake_paths, name) && !front.contains_key(name) && front.dom().len()
                < MAX_STREAMS_PER_SUBSCRIPTION {
                front.insert(
                    name,
                    LinkView {
                        explicit: false,
                        glob: true,
                        acked: before_first(),
                        stream_id: id_at(table, self.root, name),
                    },
                )
            } else {
                front
            }
        }
    }

    /// The subscription brought in line with the recovered streams. Work that a
    /// crash kept out of the saved links is found again; a wake that knew a
    /// stream which is gone or replaced is over.
    pub open spec fn reconciled(
        self,
        table: Map<Seq<char>, StreamStatus>,
        wake_paths: Set<Seq<char>>,
        names: Seq<Seq<char>>,
    ) -> SubView {
        let linked = SubView { streams: self.recovered_links(table), ..self };
        let fenced = if self.any_incarnation_changed(table) {
            linked.cleared()
        } else {
            linked
        };
        SubView { streams: fenced.adopted(table, wake_paths, names), ..fenced }
    }

    /// The lease of the wake that is under way, if it ends at `expires_at_ms`.
    pub open spec fn lease(self, expires_at_ms: u64) -> LeaseView {
        LeaseView {
            key: self.key(),
            generation: self.generation,
            wake_id: match self.wake_id {
                Some(wake_id) => wake_id,
                None => Seq::empty(),
            },
            nonce: self.lease_nonce,
            expires_at_ms,
        }
    }

    /// When the pending delivery may be tried.
    pub open spec fn pending_attempt(
        self,
        table: Map<Seq<char>, StreamStatus>,
        at_ms: u64,
    ) -> Option<(DeliveryView, u64)> {
        match self.current_delivery(table) {
            Some(delivery) => Some((delivery, at_ms)),
            None => None,
        }
    }

    /// What a restart does to the wake of a reconciled subscription: its new
    /// state, the delivery to take up again, and the lease to watch.
    pub open spec fn resumed(
        self,
        table: Map<Seq<char>, StreamStatus>,
        secret: Seq<u8>,
        seed: WakeSeedView,
        now_ms: u64,
    ) -> (SubView, Option<(DeliveryView, u64)>, Option<LeaseView>) {
        let webhook = self.config.kind == SubscriptionKind::Webhook;
        let at_ms = match self.next_attempt_at_ms {
            Some(at_ms) => at_ms,
            None => now_ms,
        };
        if self.wake_id is None {
            if self.has_pending(table) {
                let trigger = self.first_pending(table);
                let woken = self.woken(table, trigger, secret, seed, now_ms);
                (woken, Some((woken.announcement(trigger), now_ms)), None)
            } else {
                (self, None, None)
            }
        } else if let Some(expires_at_ms) = self.lease_expires_at_ms {
            if expires_at_ms > now_ms {
                let attempt = if webhook && self.wake_delivery_pending {
                    self.pending_attempt(table, at_ms)
                } else {
                    None
                };
                (self, attempt, Some(self.lease(expires_at_ms)))
            } else {
                let (next, delivery) = self.rewoken(table, secret, seed, now_ms);
                let attempt = match delivery {
                    Some(delivery) => Some((delivery, now_ms)),
                    None => None,
                };
                (next, attempt, None)
            }
        } else if self.wake_delivery_pending {
            (self, self.pending_attempt(table, at_ms), None)
        } else if webhook {
            let pending = SubView { wake_delivery_pending: true, ..self };
            (pending, pending.pending_attempt(table, now_ms), None)
        } else {
            (self, None, None)
        }
    }
}

impl Subscription {
    fn pattern_matches(&self, path: &str) -> (r: bool)
        ensures
            r == self@.pattern_matches(path@),
    {
        match &self.config.pattern {
            Some(pattern) => glob_match(pattern.as_str(), path),
            None => false,
        }
    }

    fn recovered_link_at(&self, i: usize, table: &StreamTable) -> (r: (StreamLink, bool))
        requires
            self.wf(),
            table.wf(),
            i < self.streams.key_list().len(),
        ensures
            ({
                let path = self.streams.key_list()[i as int];
                &&& r.0@ == self@.recovered_at(table@, path)
                &&& r.1 == incarnation_changed(
                    self@.streams[path],
                    id_at(table@, self@.root, path),
                )
            }),
    {
        let path = self.streams.key_at(i);
        let mut link = self.streams.value_at(i).duplicate();
        let mut changed = false;
        match live_stream_id(table, self.stream_root.as_str(), path.as_str()) {
            Some(current) => {
                link.glob = self.pattern_matches(path.as_str());
                match link.stream_id {
                    Some(known) => {
                        if known != current {
                            link.acked_offset = before_first_offset();
                            changed = true;
                        }
                    },
                    None => {},
                }
                link.stream_id = Some(current);
            },
            None => {
                link.glob = false;
                if link.explicit {
                    link.acked_offset = before_first_offset();
                }
                changed = link.stream_id.is_some();
                link.stream_id = None;
            },
        }
        (link, changed)
    }

    /// Bring the links in line with the recovered streams.
    pub fn reconcile(
        &mut self,
        names: &Vec<String>,
        wake_streams: &WakeStreams,
        table: &StreamTable,
    )
        requires
            old(self).wf(),
            table.wf(),
            wake_streams.wf(),
        ensures
            final(self).wf(),
            final(self)@ == old(self)@.reconciled(table@, wake_streams@.dom(), texts(names@)),
    {
        let ghost before = self@;
        let ghost keys = self.streams.key_list();
        let mut kept: PathMap<StreamLink> = PathMap::new();
        let mut changed = false;
        let mut i: usize = 0;
        while i < self.streams.len()
            invariant
                self.wf(),
                table.wf(),
                self@ == before,
                keys == self.streams.key_list(),
                i <= keys.len(),
                kept.wf(),
                forall|path: Seq<char>| #[trigger]
                    kept@.contains_key(path) <==> keys.take(i as int).contains(path)
                        && before.recovered_links(table@).contains_key(path),
                forall|path: Seq<char>| #[trigger]
                    kept@.contains_key(path) ==> kept@[path] == before.recovered_at(table@, path),
                changed ==> before.any_incarnation_changed(table@),
                !changed ==> forall|k: int|
                    0 <= k < i ==> !incarnation_changed(
                        before.streams[#[trigger] keys[k]],
                        id_at(table@, before.root, keys[k]),
                    ),
            decreases keys.len() - i,
        {
            proof {
                lemma_take_contains(keys, i as int);
                self.streams.lemma_lists();
            }
            let (link, replaced) = self.recovered_link_at(i, table);
            let ghost path = keys[i as int];
            assert(before.streams.contains_key(path));
            if link.explicit || link.glob {
                kept.insert(self.streams.key_at(i).clone(), link);
            }
            changed = changed || replaced;
            i = i + 1;
        }
        proof {
            self.streams.lemma_lists();
            assert(keys.take(keys.len() as int) =~= keys);
            assert(kept@ =~= before.recovered_links(table@));
            if before.any_incarnation_changed(table@) && !changed {
                let path = choose|path: Seq<char>|
                    before.streams.contains_key(path) && incarnation_changed(
                        #[trigger] before.streams[path],
                        id_at(table@, before.root, path),
                    );
                assert(keys.contains(path));
                let k = keys.index_of(path);
                assert(keys[k] == path);
            }
        }
        self.streams = kept;
        assert(self@ =~= (SubView { streams: before.recovered_links(table@), ..before }));
        if changed {
            self.clear_wake();
        }
        self.adopt(names, wake_streams, table);
    }

    /// Link as many of the names as the pattern asks for and as fit.
    fn adopt(&mut self, names: &Vec<String>, wake_streams: &WakeStreams, table: &StreamTable)
        requires
            old(self).wf(),
            table.wf(),
            wake_streams.wf(),
        ensures
            final(self).wf(),
            final(self)@ == (SubView {
                streams: old(self)@.adopted(table@, wake_streams@.dom(), texts(names@)),
                ..old(self)@
            }),
    {
        let ghost before = self@;
        let ghost list = texts(names@);
        let ghost taken = wake_streams@.dom();
        let mut i: usize = 0;
        assert(list.take(0) =~= Seq::empty());
        assert(before =~= (SubView { streams: before.adopted(table@, taken, list.take(0)), ..before
        }));
        while i < names.len()
            invariant
                self.wf(),
                table.wf(),
                wake_streams.wf(),
                taken == wake_streams@.dom(),
                list == texts(names@),
                i <= names@.len(),
                self@ == (SubView {
                    streams: before.adopted(table@, taken, list.take(i as int)),
                    ..before
                }),
            decreases names.len() - i,
        {
            let name = &names[i];
            assert(list.take(i + 1).drop_last() =~= list.take(i as int));
            assert(list.take(i + 1).last() == name@);
            assert(self@.globs(taken, name@) == before.globs(taken, name@));
            if self.pattern_asks(name.as_str(), wake_streams) && !self.streams.contains(
                name.as_str(),
            ) && self.streams.len() < MAX_STREAMS_PER_SUBSCRIPTION {
                let stream_id = live_stream_id(table, self.stream_root.as_str(), name.as_str());
                self.streams.insert(
                    name.clone(),
                    StreamLink {
                        explicit: false,
                        glob: true,
                        acked_offset: before_first_offset(),
                        stream_id,
                    },
                );
            }
            assert(self@ =~= (SubView {
                streams: before.adopted(table@, taken, list.take(i + 1)),
                ..before
            }));
            i = i + 1;
        }
        assert(list.take(list.len() as int) =~= list);
    }

    /// The lease of the wake that is under way.
    pub fn lease(&self, expires_at_ms: u64) -> (r: Lease)
        ensures
            r@ == self@.lease(expires_at_ms),
    {
        let wake_id = match &self.wake_id {
            Some(wake_id) => wake_id.clone(),
            None => String::new(),
        };
        Lease {
            key: self.key(),
            generation: self.generation,
            wake_id,
            nonce: self.lease_nonce,
            expires_at_ms,
        }
    }

    fn pending_attempt(&self, table: &StreamTable, at_ms: u64) -> (r: Option<Attempt>)
        requires
            self.wf(),
            table.wf(),
        ensures
            opt_attempt(r) == self@.pending_attempt(table@, at_ms),
    {
        match self.current_delivery(table) {
            Some(delivery) => Some(Attempt { delivery, at_ms }),
            None => None,
        }
    }

    /// Take up the wake again after a restart: the delivery to try, and the
    /// lease to watch.
    pub fn resume_wake(
        &mut self,
        table: &StreamTable,
        secret: &Vec<u8>,
        seed: &WakeSeed,
        now_ms: u64,
    ) -> (r: (Option<Attempt>, Option<Lease>))
        requires
            old(self).wf(),
            table.wf(),
            secret@.len() == 32,
            seed@.full(),
        ensures
            final(self).wf(),
            (final(self)@, opt_attempt(r.0), opt_lease(r.1)) == old(self)@.resumed(
                table@,
                secret@,
                seed@,
                now_ms,
            ),
    {
        if self.wake_id.is_none() {
            if self.has_pending_work(table) {
                let trigger = self.first_pending(table);
                let delivery = self.create_wake(table, trigger, secret, seed, now_ms);
                return (Some(Attempt { delivery, at_ms: now_ms }), None);
            }
            return (None, None);
        }
        let at_ms: u64 = match self.next_attempt_at_ms {
            Some(at_ms) => at_ms,
            None => now_ms,
        };
        let webhook = self.config.kind == SubscriptionKind::Webhook;
        match self.lease_expires_at_ms {
            Some(expires_at_ms) => {
                if expires_at_ms > now_ms {
                    let attempt = if webhook && self.wake_delivery_pending {
                        self.pending_attempt(table, at_ms)
                    } else {
                        None
                    };
                    let lease = self.lease(expires_at_ms);
                    (attempt, Some(lease))
                } else {
                    let attempt = match self.rewake(table, secret, seed, now_ms) {
                        Some(delivery) => Some(Attempt { delivery, at_ms: now_ms }),
                        None => None,
                    };
                    (attempt, None)
                }
            },
            None => {
                if self.wake_delivery_pending {
                    return (self.pending_attempt(table, at_ms), None);
                }
                if webhook {
                    self.wake_delivery_pending = true;
                    assert(self@ =~= (SubView { wake_delivery_pending: true, ..old(self)@ }));
                    return (self.pending_attempt(table, now_ms), None);
                }
                (None, None)
            },
        }
    }
}

} // verus!
