//! Which streams belong to a subscription, and what happens to it when they
//! come, grow and go.

use crate::path_map::{Duplicate, PathMap};
use crate::subscriptions::config::MAX_STREAMS_PER_SUBSCRIPTION;
use crate::subscriptions::glob::{glob_match, matches_glob};
use crate::subscriptions::links::{
    id_at, live_at, live_stream_id, tail_at, tail_offset, LinkView, StreamLink, StreamStatus,
    StreamTable,
};
use crate::subscriptions::paths::{
    absolute_path, absolute_stream_path, relative_path, relative_stream_path,
};
use crate::subscriptions::subscription::{
    lemma_take_contains, opt_delivery, Delivery, DeliveryView, SubView, Subscription,
};
use crate::subscriptions::token::{WakeSeed, WakeSeedView};
use crate::text::{optional_is, texts};
use vstd::prelude::*;

verus! {

/// The cursor before everything in a stream.
pub open spec fn before_first() -> Seq<char> {
    "-1"@
}

pub(crate) fn before_first_offset() -> (r: String)
    ensures
        r@ == before_first(),
{
    "-1".to_owned()
}

/// The paths that serve as wake channels, with how many subscriptions use each.
pub type WakeStreams = PathMap<usize>;

impl SubView {
    /// A new link whose cursor stands at the end of its stream.
    pub open spec fn fresh_link(
        self,
        table: Map<Seq<char>, StreamStatus>,
        path: Seq<char>,
        explicit: bool,
    ) -> LinkView {
        LinkView {
            explicit,
            glob: !explicit,
            acked: tail_at(table, self.root, path),
            stream_id: id_at(table, self.root, path),
        }
    }

    /// The subscription with every name linked explicitly.
    pub open spec fn with_explicit(
        self,
        table: Map<Seq<char>, StreamStatus>,
        names: Seq<Seq<char>>,
    ) -> SubView {
        SubView {
            streams: Map::new(
                |path: Seq<char>| self.streams.contains_key(path) || names.contains(path),
                |path: Seq<char>|
                    if !self.streams.contains_key(path) {
                        self.fresh_link(table, path, true)
                    } else if names.contains(path) {
                        LinkView { explicit: true, ..self.streams[path] }
                    } else {
                        self.streams[path]
                    },
            ),
            ..self
        }
    }

    /// The subscription without the explicit link to one name.
    pub open spec fn without_explicit(self, path: Seq<char>) -> SubView {
        let streams = if !self.streams.contains_key(path) {
            self.streams
        } else if self.streams[path].glob {
            self.streams.insert(path, LinkView { explicit: false, ..self.streams[path] })
        } else {
            self.streams.remove(path)
        };
        SubView { streams, ..self }
    }

    /// Whether the pattern asks for a name. Wake channels are never members.
    pub open spec fn globs(self, wake_paths: Set<Seq<char>>, name: Seq<char>) -> bool {
        &&& self.config.pattern matches Some(pattern)
        &&& matches_glob(pattern, name)
        &&& !wake_paths.contains(absolute_path(self.root, name))
        &&& self.config.wake_stream != Some(name)
    }

    /// The subscription with every name linked that its pattern asks for.
    pub open spec fn with_globs(
        self,
        table: Map<Seq<char>, StreamStatus>,
        wake_paths: Set<Seq<char>>,
        names: Seq<Seq<char>>,
    ) -> SubView {
        SubView {
            streams: Map::new(
                |path: Seq<char>|
                    self.streams.contains_key(path) || (names.contains(path) && self.globs(
                        wake_paths,
                        path,
                    )),
                |path: Seq<char>|
                    if !self.streams.contains_key(path) {
                        self.fresh_link(table, path, false)
                    } else if names.contains(path) && self.globs(wake_paths, path) {
                        LinkView { glob: true, ..self.streams[path] }
                    } else {
                        self.streams[path]
                    },
            ),
            ..self
        }
    }

    /// Whether links were added beyond the limit.
    pub open spec fn over_limit(self, more: SubView) -> bool {
        more.streams.dom().len() > MAX_STREAMS_PER_SUBSCRIPTION && more.streams.dom()
            != self.streams.dom()
    }

    /// The subscription without pattern links to streams that are gone.
    pub open spec fn pruned(self, table: Map<Seq<char>, StreamStatus>) -> SubView {
        SubView {
            streams: Map::new(
                |path: Seq<char>|
                    self.streams.contains_key(path) && (self.streams[path].explicit || live_at(
                        table,
                        self.root,
                        path,
                    ) is Some),
                |path: Seq<char>| self.streams[path],
            ),
            ..self
        }
    }

    /// Whether the linked stream was replaced by another one at its path.
    pub open spec fn replaced_at(
        self,
        table: Map<Seq<char>, StreamStatus>,
        path: Seq<char>,
    ) -> bool {
        &&& self.streams.contains_key(path)
        &&& self.streams[path].stream_id is Some
        &&& self.streams[path].stream_id != id_at(table, self.root, path)
    }

    /// The subscription with the link to a stream following its incarnation. A
    /// replaced stream starts again, and the wake that knew the old one is over.
    pub open spec fn followed(
        self,
        table: Map<Seq<char>, StreamStatus>,
        path: Seq<char>,
    ) -> SubView {
        if !self.streams.contains_key(path) {
            self
        } else {
            let replaced = self.replaced_at(table, path);
            let link = LinkView {
                acked: if replaced {
                    before_first()
                } else {
                    self.streams[path].acked
                },
                stream_id: id_at(table, self.root, path),
                ..self.streams[path]
            };
            let linked = SubView { streams: self.streams.insert(path, link), ..self };
            if replaced {
                linked.cleared()
            } else {
                linked
            }
        }
    }

    /// Whether there is room for a link to a name.
    pub open spec fn has_room(self, path: Seq<char>) -> bool {
        self.streams.contains_key(path) || self.streams.dom().len() < MAX_STREAMS_PER_SUBSCRIPTION
    }

    /// The subscription with a link to a stream that its pattern asks for.
    pub open spec fn joined(self, table: Map<Seq<char>, StreamStatus>, path: Seq<char>) -> SubView {
        let link = if self.streams.contains_key(path) {
            LinkView { glob: true, stream_id: id_at(table, self.root, path), ..self.streams[path] }
        } else {
            LinkView {
                explicit: false,
                glob: true,
                acked: before_first(),
                stream_id: id_at(table, self.root, path),
            }
        };
        SubView { streams: self.streams.insert(path, link), ..self }
    }

    /// What an append to the stream at `path` does to the links, whether it
    /// changes anything worth keeping, and whether the pattern's link was left
    /// out for want of room.
    pub open spec fn grown(
        self,
        table: Map<Seq<char>, StreamStatus>,
        path: Seq<char>,
    ) -> (SubView, bool, bool) {
        let followed = self.followed(table, path);
        let replaced = self.replaced_at(table, path);
        if !(self.config.pattern matches Some(pattern) && matches_glob(pattern, path)) {
            (followed, replaced, false)
        } else if followed.has_room(path) {
            let new = !followed.streams.contains_key(path) || !followed.streams[path].glob;
            (followed.joined(table, path), replaced || new, false)
        } else {
            let pruned = followed.pruned(table);
            let changed = replaced || pruned.streams.dom() != followed.streams.dom();
            if pruned.has_room(path) {
                (pruned.joined(table, path), true, false)
            } else {
                (pruned, changed, true)
            }
        }
    }

    /// What an append to a stream does to the subscription: its new state,
    /// whether that is worth keeping, and the wake it sends out.
    pub open spec fn appended(
        self,
        table: Map<Seq<char>, StreamStatus>,
        absolute: Seq<char>,
        secret: Seq<u8>,
        seed: WakeSeedView,
        now_ms: u64,
    ) -> (SubView, bool, Option<DeliveryView>) {
        match relative_path(self.root, absolute) {
            None => (self, false, None),
            Some(path) => {
                let (grown, changed, left_out) = self.grown(table, path);
                if !left_out && grown.streams.contains_key(path) && grown.wake_id is None
                    && grown.holder is None && grown.has_pending(table) {
                    let woken = grown.woken(table, path, secret, seed, now_ms);
                    (woken, true, Some(woken.announcement(path)))
                } else {
                    (grown, changed, None)
                }
            },
        }
    }

    /// Whether the retirement of a stream concerns the subscription: it is
    /// linked to that incarnation, or wakes its workers through that path.
    pub open spec fn affected_by(self, absolute: Seq<char>, stream_id: u64) -> bool {
        match relative_path(self.root, absolute) {
            Some(path) => self.linked_to(path, stream_id) || self.config.wake_stream == Some(path),
            None => false,
        }
    }

    /// Whether there is a link to this incarnation of a stream.
    pub open spec fn linked_to(self, path: Seq<char>, stream_id: u64) -> bool {
        self.streams.contains_key(path) && self.streams[path].stream_id == Some(stream_id)
    }

    /// The links after a stream was retired.
    pub open spec fn without_stream(self, path: Seq<char>, stream_id: u64) -> SubView {
        let streams = if !self.linked_to(path, stream_id) {
            self.streams
        } else if self.streams[path].explicit {
            self.streams.insert(
                path,
                LinkView { explicit: true, glob: false, acked: before_first(), stream_id: None },
            )
        } else {
            self.streams.remove(path)
        };
        SubView { streams, ..self }
    }

    /// What the retirement of a stream does to the subscription.
    pub open spec fn bereft(
        self,
        table: Map<Seq<char>, StreamStatus>,
        path: Seq<char>,
        stream_id: u64,
        secret: Seq<u8>,
        seed: WakeSeedView,
        now_ms: u64,
    ) -> (SubView, Option<DeliveryView>) {
        let left = self.without_stream(path, stream_id);
        let fenced = self.config.wake_stream == Some(path) || self.wake_snapshot.contains_key(path);
        if fenced && self.wake_id is Some {
            left.rewoken(table, secret, seed, now_ms)
        } else if self.wake_id is Some && self.holder is None && !left.has_pending(table) {
            (left.cleared(), None)
        } else {
            (left, None)
        }
    }

    /// The subscription without any link to a path that became a wake channel.
    pub open spec fn without_wake_channel(
        self,
        table: Map<Seq<char>, StreamStatus>,
        absolute: Seq<char>,
    ) -> SubView {
        match relative_path(self.root, absolute) {
            Some(path) => if self.streams.contains_key(path) {
                let left = SubView {
                    streams: self.streams.remove(path),
                    wake_snapshot: self.wake_snapshot.remove(path),
                    ..self
                };
                if left.wake_id is Some && left.holder is None && !left.has_pending(table) {
                    left.cleared()
                } else {
                    left
                }
            } else {
                self
            },
            None => self,
        }
    }
}

impl Subscription {
    /// Link every name explicitly.
    pub fn link_explicit(&mut self, names: &Vec<String>, table: &StreamTable)
        requires
            old(self).wf(),
            table.wf(),
        ensures
            final(self).wf(),
            final(self)@ == old(self)@.with_explicit(table@, texts(names@)),
    {
        let ghost before = self@;
        let ghost list = texts(names@);
        let mut i: usize = 0;
        proof {
            assert(list.take(0) =~= Seq::empty());
            assert(before.with_explicit(table@, list.take(0)).streams =~= before.streams);
            assert(before =~= before.with_explicit(table@, list.take(0)));
        }
        while i < names.len()
            invariant
                self.wf(),
                table.wf(),
                list == texts(names@),
                i <= names@.len(),
                self@ == before.with_explicit(table@, list.take(i as int)),
            decreases names.len() - i,
        {
            let name = &names[i];
            assert(list[i as int] == name@);
            proof {
                lemma_take_contains(list, i as int);
            }
            match self.streams.position(name.as_str()) {
                Some(at) => {
                    let mut link = self.streams.value_at(at).duplicate();
                    link.explicit = true;
                    self.streams.set_at(at, link);
                },
                None => {
                    let acked_offset = tail_offset(table, self.stream_root.as_str(), name.as_str());
                    let stream_id = live_stream_id(table, self.stream_root.as_str(), name.as_str());
                    self.streams.insert(
                        name.clone(),
                        StreamLink { explicit: true, glob: false, acked_offset, stream_id },
                    );
                },
            }
            proof {
                let goal = before.with_explicit(table@, list.take(i + 1));
                assert(self@.streams =~= goal.streams);
                assert(self@ =~= goal);
            }
            i = i + 1;
        }
        assert(list.take(list.len() as int) =~= list);
    }

    /// Undo the explicit link to one name.
    pub fn unlink_explicit(&mut self, path: &str)
        requires
            old(self).wf(),
        ensures
            final(self).wf(),
            final(self)@ == old(self)@.without_explicit(path@),
    {
        match self.streams.position(path) {
            Some(at) => {
                if self.streams.value_at(at).glob {
                    let mut link = self.streams.value_at(at).duplicate();
                    link.explicit = false;
                    self.streams.set_at(at, link);
                } else {
                    let _ = self.streams.remove(path);
                }
            },
            None => {},
        }
        assert(self@ =~= old(self)@.without_explicit(path@));
    }

    /// Link every name that the pattern asks for, unless that is too many.
    pub fn link_globs(
        &mut self,
        names: &Vec<String>,
        wake_streams: &WakeStreams,
        table: &StreamTable,
    ) -> (r: bool)
        requires
            old(self).wf(),
            table.wf(),
            wake_streams.wf(),
        ensures
            ({
                let goal = old(self)@.with_globs(table@, wake_streams@.dom(), texts(names@));
                &&& r == !old(self)@.over_limit(goal)
                &&& r ==> final(self).wf() && final(self)@ == goal
            }),
    {
        let ghost before = self@;
        let ghost list = texts(names@);
        let ghost taken = wake_streams@.dom();
        let ghost goal = before.with_globs(table@, taken, list);
        let mut i: usize = 0;
        proof {
            self.streams.lemma_lists();
            assert(list.take(0) =~= Seq::empty());
            assert(before.with_globs(table@, taken, list.take(0)).streams =~= before.streams);
            assert(before =~= before.with_globs(table@, taken, list.take(0)));
        }
        while i < names.len()
            invariant
                self.wf(),
                table.wf(),
                wake_streams.wf(),
                taken == wake_streams@.dom(),
                list == texts(names@),
                before == old(self)@,
                goal == before.with_globs(table@, taken, list),
                i <= names@.len(),
                self@ == before.with_globs(table@, taken, list.take(i as int)),
                before.streams.dom().finite(),
                self.streams@.dom() == before.streams.dom() || self.streams@.dom().len()
                    <= MAX_STREAMS_PER_SUBSCRIPTION,
            decreases names.len() - i,
        {
            let name = &names[i];
            assert(list[i as int] == name@);
            proof {
                lemma_take_contains(list, i as int);
            }
            if self.pattern_asks(name.as_str(), wake_streams) {
                match self.streams.position(name.as_str()) {
                    Some(at) => {
                        let mut link = self.streams.value_at(at).duplicate();
                        link.glob = true;
                        self.streams.set_at(at, link);
                        assert(self.streams@.dom() =~= before.with_globs(
                            table@,
                            taken,
                            list.take(i as int),
                        ).streams.dom());
                    },
                    None => {
                        if self.streams.len() >= MAX_STREAMS_PER_SUBSCRIPTION {
                            proof {
                                lemma_goal_exceeds(
                                    before,
                                    goal,
                                    self@,
                                    list,
                                    taken,
                                    name@,
                                    table@,
                                    i as int,
                                );
                            }
                            return false;
                        }
                        let root = self.stream_root.as_str();
                        let acked_offset = tail_offset(table, root, name.as_str());
                        let stream_id = live_stream_id(table, root, name.as_str());
                        proof {
                            self.streams.lemma_lists();
                        }
                        self.streams.insert(
                            name.clone(),
                            StreamLink { explicit: false, glob: true, acked_offset, stream_id },
                        );
                    },
                }
            }
            proof {
                let next = before.with_globs(table@, taken, list.take(i + 1));
                assert(self@.streams =~= next.streams);
                assert(self@ =~= next);
            }
            i = i + 1;
        }
        assert(list.take(list.len() as int) =~= list);
        true
    }

    /// Whether the pattern asks for a name.
    pub(crate) fn pattern_asks(&self, name: &str, wake_streams: &WakeStreams) -> (r: bool)
        requires
            wake_streams.wf(),
        ensures
            r == self@.globs(wake_streams@.dom(), name@),
    {
        match &self.config.pattern {
            Some(pattern) => {
                let path = absolute_stream_path(self.stream_root.as_str(), name);
                !wake_streams.contains(path.as_str()) && !optional_is(
                    &self.config.wake_stream,
                    name,
                ) && glob_match(pattern.as_str(), name)
            },
            None => false,
        }
    }

    /// Drop pattern links to streams that are gone, and say whether there were any.
    pub fn prune_stale_glob_links(&mut self, table: &StreamTable) -> (r: bool)
        requires
            old(self).wf(),
            table.wf(),
        ensures
            final(self).wf(),
            final(self)@ == old(self)@.pruned(table@),
            r == (final(self)@.streams.dom() != old(self)@.streams.dom()),
    {
        let ghost before = self@;
        let ghost keys = self.streams.key_list();
        let count: usize = self.streams.len();
        let mut kept: PathMap<StreamLink> = PathMap::new();
        let mut i: usize = 0;
        while i < self.streams.len()
            invariant
                self.wf(),
                table.wf(),
                self@ == before,
                keys == self.streams.key_list(),
                i <= keys.len(),
                kept.wf(),
                forall|path: Seq<char>| #[trigger]
                    kept@.contains_key(path) <==> keys.take(i as int).contains(path)
                        && before.pruned(table@).streams.contains_key(path),
                forall|path: Seq<char>| #[trigger]
                    kept@.contains_key(path) ==> kept@[path] == before.streams[path],
            decreases keys.len() - i,
        {
            let path = self.streams.key_at(i);
            let link = self.streams.value_at(i);
            proof {
                lemma_take_contains(keys, i as int);
            }
            if link.explicit || live_stream_id(
                table,
                self.stream_root.as_str(),
                path.as_str(),
            ).is_some() {
                kept.insert(path.clone(), link.duplicate());
            }
            i = i + 1;
        }
        proof {
            self.streams.lemma_lists();
            assert(keys.take(keys.len() as int) =~= keys);
            assert(kept@ =~= before.pruned(table@).streams);
        }
        let left: usize = kept.len();
        self.streams = kept;
        proof {
            assert(self@ =~= before.pruned(table@));
            let now = self@.streams.dom();
            assert(now.subset_of(before.streams.dom()));
            if now.len() == before.streams.dom().len() {
                vstd::set_lib::lemma_subset_equality(now, before.streams.dom());
            }
        }
        count != left
    }

    /// Follow the incarnation of a linked stream, and say whether it is another one.
    fn follow(&mut self, path: &str, table: &StreamTable) -> (r: bool)
        requires
            old(self).wf(),
            table.wf(),
        ensures
            final(self).wf(),
            final(self)@ == old(self)@.followed(table@, path@),
            r == old(self)@.replaced_at(table@, path@),
    {
        let current = live_stream_id(table, self.stream_root.as_str(), path);
        match self.streams.position(path) {
            Some(at) => {
                let mut link = self.streams.value_at(at).duplicate();
                let replaced = match (link.stream_id, current) {
                    (Some(old_id), Some(new_id)) => old_id != new_id,
                    (Some(_), None) => true,
                    (None, _) => false,
                };
                if replaced {
                    link.acked_offset = before_first_offset();
                }
                link.stream_id = current;
                self.streams.set_at(at, link);
                if replaced {
                    self.clear_wake();
                }
                assert(self@ =~= old(self)@.followed(table@, path@));
                replaced
            },
            None => false,
        }
    }

    /// Whether there is room for a link to a name.
    fn has_room(&self, path: &str) -> (r: bool)
        requires
            self.wf(),
        ensures
            r == self@.has_room(path@),
    {
        self.streams.contains(path) || self.streams.len() < MAX_STREAMS_PER_SUBSCRIPTION
    }

    /// Link a stream that the pattern asks for, and say whether that is new.
    fn join(&mut self, path: &str, table: &StreamTable) -> (r: bool)
        requires
            old(self).wf(),
            table.wf(),
        ensures
            final(self).wf(),
            final(self)@ == old(self)@.joined(table@, path@),
            r == (!old(self)@.streams.contains_key(path@) || !old(self)@.streams[path@].glob),
    {
        let stream_id = live_stream_id(table, self.stream_root.as_str(), path);
        let new = match self.streams.position(path) {
            Some(at) => {
                let mut link = self.streams.value_at(at).duplicate();
                let new = !link.glob;
                link.stream_id = stream_id;
                link.glob = true;
                self.streams.set_at(at, link);
                new
            },
            None => {
                self.streams.insert(
                    path.to_owned(),
                    StreamLink {
                        explicit: false,
                        glob: true,
                        acked_offset: before_first_offset(),
                        stream_id,
                    },
                );
                true
            },
        };
        assert(self@ =~= old(self)@.joined(table@, path@));
        new
    }

    /// Take note that something was appended to a stream. The first part of the
    /// result says whether that changed anything worth keeping; the second is
    /// the wake that has to be sent out.
    pub fn observe_append(
        &mut self,
        absolute: &str,
        table: &StreamTable,
        secret: &Vec<u8>,
        seed: &WakeSeed,
        now_ms: u64,
    ) -> (r: (bool, Option<Delivery>))
        requires
            old(self).wf(),
            table.wf(),
            secret@.len() == 32,
            seed@.full(),
        ensures
            final(self).wf(),
            (final(self)@, r.0, opt_delivery(r.1)) == old(self)@.appended(
                table@,
                absolute@,
                secret@,
                seed@,
                now_ms,
            ),
    {
        let path = match relative_stream_path(self.stream_root.as_str(), absolute) {
            Some(path) => path,
            None => {
                return (false, None);
            },
        };
        let mut changed = self.follow(path.as_str(), table);
        let asked = match &self.config.pattern {
            Some(pattern) => glob_match(pattern.as_str(), path.as_str()),
            None => false,
        };
        if asked {
            if !self.has_room(path.as_str()) {
                let pruned = self.prune_stale_glob_links(table);
                changed = changed || pruned;
                if !self.has_room(path.as_str()) {
                    return (changed, None);
                }
            }
            let new = self.join(path.as_str(), table);
            changed = changed || new;
        }
        if self.streams.contains(path.as_str()) && self.wake_id.is_none() && self.holder.is_none()
            && self.has_pending_work(table) {
            let delivery = self.create_wake(table, path, secret, seed, now_ms);
            return (true, Some(delivery));
        }
        (changed, None)
    }

    /// Whether the retirement of a stream concerns the subscription, and under
    /// which name it knows the stream.
    pub fn affected_by(&self, absolute: &str, stream_id: u64) -> (r: Option<String>)
        requires
            self.wf(),
        ensures
            match r {
                Some(path) => {
                    &&& self@.affected_by(absolute@, stream_id)
                    &&& relative_path(self@.root, absolute@) == Some(path@)
                },
                None => !self@.affected_by(absolute@, stream_id),
            },
    {
        match relative_stream_path(self.stream_root.as_str(), absolute) {
            Some(path) => if self.linked_to(path.as_str(), stream_id) || optional_is(
                &self.config.wake_stream,
                path.as_str(),
            ) {
                Some(path)
            } else {
                None
            },
            None => None,
        }
    }

    fn linked_to(&self, path: &str, stream_id: u64) -> (r: bool)
        requires
            self.wf(),
        ensures
            r == self@.linked_to(path@, stream_id),
    {
        match self.streams.get(path) {
            Some(link) => match link.stream_id {
                Some(id) => id == stream_id,
                None => false,
            },
            None => false,
        }
    }

    /// Take note that a stream was retired. The result is the wake that has to
    /// be sent out.
    pub fn observe_retired(
        &mut self,
        path: &str,
        stream_id: u64,
        table: &StreamTable,
        secret: &Vec<u8>,
        seed: &WakeSeed,
        now_ms: u64,
    ) -> (r: Option<Delivery>)
        requires
            old(self).wf(),
            table.wf(),
            secret@.len() == 32,
            seed@.full(),
        ensures
            final(self).wf(),
            (final(self)@, opt_delivery(r)) == old(self)@.bereft(
                table@,
                path@,
                stream_id,
                secret@,
                seed@,
                now_ms,
            ),
    {
        let ghost before = self@;
        let was_wake_stream = optional_is(&self.config.wake_stream, path);
        let was_in_snapshot = self.wake_snapshot.contains(path);
        if self.linked_to(path, stream_id) {
            match self.streams.position(path) {
                Some(at) => {
                    if self.streams.value_at(at).explicit {
                        self.streams.set_at(
                            at,
                            StreamLink {
                                explicit: true,
                                glob: false,
                                acked_offset: before_first_offset(),
                                stream_id: None,
                            },
                        );
                    } else {
                        let _ = self.streams.remove(path);
                    }
                },
                None => {},
            }
        }
        assert(self@ =~= before.without_stream(path@, stream_id));
        if (was_wake_stream || was_in_snapshot) && self.wake_id.is_some() {
            return self.rewake(table, secret, seed, now_ms);
        }
        if self.wake_id.is_some() && self.holder.is_none() && !self.has_pending_work(table) {
            self.clear_wake();
        }
        None
    }

    /// Whether a path is linked under some name.
    pub fn has_member(&self, absolute: &str) -> (r: bool)
        requires
            self.wf(),
        ensures
            r == (relative_path(self@.root, absolute@) matches Some(path)
                && self@.streams.contains_key(path)),
    {
        match relative_stream_path(self.stream_root.as_str(), absolute) {
            Some(path) => self.streams.contains(path.as_str()),
            None => false,
        }
    }

    /// Drop the link to a path that became a wake channel.
    pub fn drop_wake_channel(&mut self, absolute: &str, table: &StreamTable)
        requires
            old(self).wf(),
            table.wf(),
        ensures
            final(self).wf(),
            final(self)@ == old(self)@.without_wake_channel(table@, absolute@),
    {
        let path = match relative_stream_path(self.stream_root.as_str(), absolute) {
            Some(path) => path,
            None => {
                return;
            },
        };
        if self.streams.contains(path.as_str()) {
            let _ = self.streams.remove(path.as_str());
            let _ = self.wake_snapshot.remove(path.as_str());
            assert(self@ =~= (SubView {
                streams: old(self)@.streams.remove(path@),
                wake_snapshot: old(self)@.wake_snapshot.remove(path@),
                ..old(self)@
            }));
            if self.wake_id.is_some() && self.holder.is_none() && !self.has_pending_work(table) {
                self.clear_wake();
            }
        }
    }
}

/// A full subscription that has to take one more link ends up over the limit.
proof fn lemma_goal_exceeds(
    before: SubView,
    goal: SubView,
    now: SubView,
    list: Seq<Seq<char>>,
    taken: Set<Seq<char>>,
    name: Seq<char>,
    table: Map<Seq<char>, StreamStatus>,
    i: int,
)
    requires
        0 <= i < list.len(),
        name == list[i],
        goal == before.with_globs(table, taken, list),
        now == before.with_globs(table, taken, list.take(i)),
        before.streams.dom().finite(),
        now.globs(taken, name),
        !now.streams.contains_key(name),
        now.streams.dom().len() >= MAX_STREAMS_PER_SUBSCRIPTION,
    ensures
        before.over_limit(goal),
{
    assert(list.contains(name));
    assert forall|path: Seq<char>| list.take(i).contains(path) implies list.contains(path) by {
        let front = list.take(i);
        let k = choose|k: int| 0 <= k < front.len() && front[k] == path;
        assert(list[k] == path);
    }
    vstd::seq_lib::seq_to_set_is_finite(list);
    let all = before.streams.dom().union(list.to_set());
    assert(goal.streams.dom().subset_of(all));
    vstd::set_lib::lemma_len_subset(goal.streams.dom(), all);
    let more = now.streams.dom().insert(name);
    assert(more.subset_of(goal.streams.dom()));
    vstd::set_lib::lemma_len_subset(now.streams.dom(), goal.streams.dom());
    vstd::set_lib::lemma_len_subset(more, goal.streams.dom());
    assert(goal.streams.dom().contains(name));
    assert(!before.streams.dom().contains(name));
}

} // verus!
