//! All subscriptions of a server, and how a change that could not be kept is
//! taken back.

use crate::path_map::PathMap;
use crate::subscriptions::config::SubscriptionKind;
use crate::subscriptions::links::{StreamStatus, StreamTable};
use crate::subscriptions::membership::WakeStreams;
use crate::subscriptions::paths::{absolute_path, absolute_stream_path};
use crate::subscriptions::subscription::{SubView, Subscription};
use vstd::prelude::*;

verus! {

/// All subscriptions, and the paths that serve them as wake channels.
pub struct ManagerState {
    pub subscriptions: PathMap<Subscription>,
    pub wake_streams: WakeStreams,
}

/// All subscriptions as a mathematical value.
#[verifier::ext_equal]
pub struct StateView {
    pub subscriptions: Map<Seq<char>, SubView>,
    pub wake_streams: Map<Seq<char>, usize>,
}

impl View for ManagerState {
    type V = StateView;

    open spec fn view(&self) -> StateView {
        StateView { subscriptions: self.subscriptions@, wake_streams: self.wake_streams@ }
    }
}

/// The wake channels with one more use of a path.
pub open spec fn used_once_more(channels: Map<Seq<char>, usize>, path: Seq<char>) -> Map<
    Seq<char>,
    usize,
> {
    channels.insert(
        path,
        if channels.contains_key(path) {
            if channels[path] == usize::MAX {
                usize::MAX
            } else {
                (channels[path] + 1) as usize
            }
        } else {
            1
        },
    )
}

/// The wake channels with one use of a path less.
pub open spec fn used_once_less(channels: Map<Seq<char>, usize>, path: Seq<char>) -> Map<
    Seq<char>,
    usize,
> {
    if !channels.contains_key(path) {
        channels
    } else if channels[path] <= 1 {
        channels.remove(path)
    } else {
        channels.insert(path, (channels[path] - 1) as usize)
    }
}

impl SubView {
    /// The path through which the subscription wakes its workers.
    pub open spec fn wake_channel(self) -> Option<Seq<char>> {
        match (self.config.kind, self.config.wake_stream) {
            (SubscriptionKind::PullWake, Some(stream)) => Some(absolute_path(self.root, stream)),
            _ => None,
        }
    }
}

impl StateView {
    /// The state with a subscription's wake channel registered: no subscription
    /// has that path as a member any more.
    pub open spec fn with_channel(
        self,
        sub: SubView,
        table: Map<Seq<char>, StreamStatus>,
    ) -> StateView {
        match sub.wake_channel() {
            Some(path) => StateView {
                subscriptions: self.subscriptions.map_values(
                    |existing: SubView| existing.without_wake_channel(table, path),
                ),
                wake_streams: used_once_more(self.wake_streams, path),
            },
            None => self,
        }
    }

    /// The state with a subscription's wake channel given up.
    pub open spec fn without_channel(self, sub: SubView) -> StateView {
        match sub.wake_channel() {
            Some(path) => StateView {
                wake_streams: used_once_less(self.wake_streams, path),
                ..self
            },
            None => self,
        }
    }

    /// The state with one subscription in place.
    pub open spec fn with_sub(self, key: Seq<char>, sub: SubView) -> StateView {
        StateView { subscriptions: self.subscriptions.insert(key, sub), ..self }
    }

    /// The state without one subscription.
    pub open spec fn without_sub(self, key: Seq<char>) -> StateView {
        StateView { subscriptions: self.subscriptions.remove(key), ..self }
    }
}

impl StateView {
    /// Whether every wake channel is in use.
    pub open spec fn channels_used(self) -> bool {
        forall|path: Seq<char>| #[trigger]
            self.wake_streams.contains_key(path) ==> self.wake_streams[path] > 0
    }
}

/// Registering a wake channel and giving it up again leaves all counts as they
/// were, and giving it up touches no subscription. A subscription without a wake
/// channel changes nothing either way. Only a full counter is left out.
pub proof fn law_channel_is_given_back(
    state: StateView,
    sub: SubView,
    table: Map<Seq<char>, StreamStatus>,
)
    requires
        state.channels_used(),
        sub.wake_channel() matches Some(path) ==> !state.wake_streams.contains_pair(
            path,
            usize::MAX,
        ),
    ensures
        ({
            let registered = state.with_channel(sub, table);
            let back = registered.without_channel(sub);
            &&& back.wake_streams == state.wake_streams
            &&& back.subscriptions == registered.subscriptions
            &&& registered.channels_used()
            &&& sub.wake_channel() is None ==> registered == state && back == state
        }),
{
    let back = state.with_channel(sub, table).without_channel(sub);
    assert(back.wake_streams =~= state.wake_streams);
}

/// Giving up a wake channel lowers the count of its path by one, drops it at
/// none, and leaves every other path alone.
pub proof fn law_giving_up_lowers_one_count(state: StateView, sub: SubView)
    requires
        state.channels_used(),
    ensures
        ({
            let next = state.without_channel(sub);
            &&& next.channels_used()
            &&& next.subscriptions == state.subscriptions
            &&& forall|path: Seq<char>|
                #![trigger next.wake_streams.contains_key(path)]
                sub.wake_channel() != Some(path) ==> {
                    &&& next.wake_streams.contains_key(path) == state.wake_streams.contains_key(
                        path,
                    )
                    &&& next.wake_streams[path] == state.wake_streams[path]
                }
            &&& sub.wake_channel() matches Some(path) ==> (state.wake_streams.contains_key(path)
                ==> (if state.wake_streams[path] == 1 {
                !next.wake_streams.contains_key(path)
            } else {
                next.wake_streams.contains_pair(path, (state.wake_streams[path] - 1) as usize)
            }))
        }),
{
}

/// What stood under a key before a change.
pub struct Touched {
    pub key: String,
    pub before: Option<Subscription>,
}

/// How a wake channel was used before a change.
pub struct ChannelBefore {
    pub path: String,
    pub uses: Option<usize>,
}

/// How to take a change back.
pub struct Undo {
    pub touched: Vec<Touched>,
    pub channel: Option<ChannelBefore>,
}

/// How to take a change back, as a mathematical value.
#[verifier::ext_equal]
pub struct UndoView {
    pub touched: Seq<(Seq<char>, Option<SubView>)>,
    pub channel: Option<(Seq<char>, Option<usize>)>,
}

/// What a touched entry says.
pub open spec fn touched_view(entry: Touched) -> (Seq<char>, Option<SubView>) {
    (
        entry.key@,
        match entry.before {
            Some(sub) => Some(sub@),
            None => None,
        },
    )
}

impl View for Undo {
    type V = UndoView;

    open spec fn view(&self) -> UndoView {
        UndoView {
            touched: self.touched@.map_values(|entry: Touched| touched_view(entry)),
            channel: match self.channel {
                Some(before) => Some((before.path@, before.uses)),
                None => None,
            },
        }
    }
}

/// A map with earlier entries put back.
pub open spec fn put_back(
    subscriptions: Map<Seq<char>, SubView>,
    touched: Seq<(Seq<char>, Option<SubView>)>,
) -> Map<Seq<char>, SubView>
    decreases touched.len(),
{
    if touched.len() == 0 {
        subscriptions
    } else {
        let front = put_back(subscriptions, touched.drop_last());
        let (key, before) = touched.last();
        match before {
            Some(sub) => front.insert(key, sub),
            None => front.remove(key),
        }
    }
}

impl StateView {
    /// The state with a change taken back.
    pub open spec fn undone(self, undo: UndoView) -> StateView {
        StateView {
            subscriptions: put_back(self.subscriptions, undo.touched),
            wake_streams: match undo.channel {
                Some((path, Some(uses))) => self.wake_streams.insert(path, uses),
                Some((path, None)) => self.wake_streams.remove(path),
                None => self.wake_streams,
            },
        }
    }
}

/// What `before` holds under a key.
pub open spec fn entry_of(before: Map<Seq<char>, SubView>, key: Seq<char>) -> Option<SubView> {
    if before.contains_key(key) {
        Some(before[key])
    } else {
        None
    }
}

/// Putting earlier entries back gives the earlier map, if they are all that changed.
pub proof fn lemma_put_back(
    after: Map<Seq<char>, SubView>,
    before: Map<Seq<char>, SubView>,
    touched: Seq<(Seq<char>, Option<SubView>)>,
)
    requires
        forall|i: int|
            0 <= i < touched.len() ==> (#[trigger] touched[i]).1 == entry_of(before, touched[i].0),
        forall|key: Seq<char>|
            #![trigger entry_of(after, key)]
            (forall|i: int| 0 <= i < touched.len() ==> (#[trigger] touched[i]).0 != key) ==> entry_of(
                after,
                key,
            ) == entry_of(before, key),
    ensures
        put_back(after, touched) == before,
{
    let result = put_back(after, touched);
    assert forall|key: Seq<char>| #[trigger] entry_of(result, key) == entry_of(before, key) by {
        lemma_put_back_at(after, touched, key);
        if forall|i: int| 0 <= i < touched.len() ==> (#[trigger] touched[i]).0 != key {
            assert(entry_of(after, key) == entry_of(before, key));
        } else {
            let i = choose|i: int|
                0 <= i < touched.len() && (#[trigger] touched[i]).0 == key && entry_of(result, key)
                    == touched[i].1;
        }
    }
    assert forall|key: Seq<char>| result.contains_key(key) == before.contains_key(key) by {
        assert(entry_of(result, key) == entry_of(before, key));
    }
    assert forall|key: Seq<char>| result.contains_key(key) implies result[key] == before[key] by {
        assert(entry_of(result, key) == entry_of(before, key));
    }
    assert(result =~= before);
}

proof fn lemma_put_back_at(
    after: Map<Seq<char>, SubView>,
    touched: Seq<(Seq<char>, Option<SubView>)>,
    key: Seq<char>,
)
    ensures
        (forall|i: int| 0 <= i < touched.len() ==> (#[trigger] touched[i]).0 != key) ==> entry_of(
            put_back(after, touched),
            key,
        ) == entry_of(after, key),
        (exists|i: int| 0 <= i < touched.len() && (#[trigger] touched[i]).0 == key) ==> exists|i: int|
            0 <= i < touched.len() && (#[trigger] touched[i]).0 == key && entry_of(
                put_back(after, touched),
                key,
            ) == touched[i].1,
    decreases touched.len(),
{
    if touched.len() > 0 {
        let front = touched.drop_last();
        lemma_put_back_at(after, front, key);
        let last = touched.last();
        assert(touched[touched.len() - 1] == last);
        if last.0 == key {
            assert(entry_of(put_back(after, touched), key) == last.1);
        } else {
            assert(entry_of(put_back(after, touched), key) == entry_of(
                put_back(after, front),
                key,
            ));
            assert forall|i: int| 0 <= i < front.len() implies #[trigger] front[i] == touched[i] by {}
            if exists|i: int| 0 <= i < touched.len() && (#[trigger] touched[i]).0 == key {
                let i = choose|i: int| 0 <= i < touched.len() && (#[trigger] touched[i]).0 == key;
                assert(front[i].0 == key);
                let j = choose|j: int|
                    0 <= j < front.len() && (#[trigger] front[j]).0 == key && entry_of(
                        put_back(after, front),
                        key,
                    ) == front[j].1;
                assert(touched[j].0 == key);
            } else {
                assert forall|i: int| 0 <= i < front.len() implies (#[trigger] front[i]).0 != key by {
                    assert(touched[i].0 != key);
                }
            }
        }
    }
}

/// Whether some entry is about a key.
pub open spec fn mentions(touched: Seq<(Seq<char>, Option<SubView>)>, key: Seq<char>) -> bool {
    exists|i: int| 0 <= i < touched.len() && (#[trigger] touched[i]).0 == key
}

impl UndoView {
    /// Whether this tells what `before` held wherever `after` differs from it.
    pub open spec fn covers(self, after: StateView, before: StateView) -> bool {
        &&& forall|i: int|
            0 <= i < self.touched.len() ==> (#[trigger] self.touched[i]).1 == entry_of(
                before.subscriptions,
                self.touched[i].0,
            )
        &&& forall|key: Seq<char>|
            #![trigger entry_of(after.subscriptions, key)]
            !mentions(self.touched, key) ==> entry_of(after.subscriptions, key) == entry_of(
                before.subscriptions,
                key,
            )
        &&& after.undone(self).wake_streams == before.wake_streams
    }
}

/// A change is taken back completely if everything that it touched was noted.
pub proof fn law_undo_restores(undo: UndoView, after: StateView, before: StateView)
    requires
        undo.covers(after, before),
    ensures
        after.undone(undo) == before,
{
    let list = undo.touched;
    assert forall|key: Seq<char>|
        #![trigger entry_of(after.subscriptions, key)]
        (forall|t: int| 0 <= t < list.len() ==> (#[trigger] list[t]).0 != key) implies entry_of(
        after.subscriptions,
        key,
    ) == entry_of(before.subscriptions, key) by {
        assert(!mentions(list, key));
    }
    lemma_put_back(after.subscriptions, before.subscriptions, list);
    assert(after.undone(undo) =~= before);
}

impl Undo {
    /// The subscriptions that are put back are in order.
    pub open spec fn wf(&self) -> bool {
        forall|i: int|
            0 <= i < self.touched@.len() ==> ((#[trigger] self.touched@[i]).before matches Some(sub)
                ==> sub.wf() && sub@.key() == self.touched@[i].key@)
    }
}

impl ManagerState {
    /// Every subscription stands under its own key.
    pub open spec fn wf(&self) -> bool {
        &&& self.subscriptions.wf()
        &&& self.wake_streams.wf()
        &&& forall|key: Seq<char>| #[trigger]
            self.subscriptions.raw().contains_key(key) ==> {
                &&& self.subscriptions.raw()[key].wf()
                &&& self.subscriptions.raw()[key]@.key() == key
            }
    }

    /// No subscriptions.
    pub fn new() -> (r: ManagerState)
        ensures
            r.wf(),
            r@.subscriptions == Map::<Seq<char>, SubView>::empty(),
            r@.wake_streams == Map::<Seq<char>, usize>::empty(),
    {
        ManagerState { subscriptions: PathMap::new(), wake_streams: PathMap::new() }
    }

    /// The subscription at position `i` of the order of keys.
    pub fn at(&self, i: usize) -> (r: &Subscription)
        requires
            self.wf(),
            i < self.subscriptions.key_list().len(),
        ensures
            r.wf(),
            r@.key() == self.subscriptions.key_list()[i as int],
            self@.subscriptions.contains_key(r@.key()),
            self@.subscriptions[r@.key()] == r@,
    {
        proof {
            self.subscriptions.lemma_lists();
        }
        self.subscriptions.value_at(i)
    }

    /// Put a changed subscription in its place.
    pub fn set(&mut self, i: usize, sub: Subscription)
        requires
            old(self).wf(),
            i < old(self).subscriptions.key_list().len(),
            sub.wf(),
            sub@.key() == old(self).subscriptions.key_list()[i as int],
        ensures
            final(self).wf(),
            final(self)@ == old(self)@.with_sub(sub@.key(), sub@),
            final(self).subscriptions.key_list() == old(self).subscriptions.key_list(),
    {
        self.subscriptions.set_at(i, sub);
        assert(self@ =~= old(self)@.with_sub(sub@.key(), sub@));
    }

    /// Put a changed subscription in its place, and note what stood there.
    pub fn replace(&mut self, i: usize, sub: Subscription) -> (r: Undo)
        requires
            old(self).wf(),
            i < old(self).subscriptions.key_list().len(),
            sub.wf(),
            sub@.key() == old(self).subscriptions.key_list()[i as int],
        ensures
            final(self).wf(),
            final(self)@ == old(self)@.with_sub(sub@.key(), sub@),
            r.wf(),
            r@.covers(final(self)@, old(self)@),
            final(self)@.undone(r@) == old(self)@,
    {
        let before = self.at(i).copy();
        let key = before.key();
        let ghost entry = Touched { key, before: Some(before) };
        let mut touched: Vec<Touched> = Vec::new();
        touched.push(Touched { key, before: Some(before) });
        self.set(i, sub);
        let undo = Undo { touched, channel: None };
        proof {
            let list = undo@.touched;
            assert(list =~= seq![touched_view(entry)]);
            assert(list[0].0 == sub@.key());
            assert(undo@.covers(self@, old(self)@)) by {
                assert forall|key: Seq<char>|
                    #![trigger entry_of(self@.subscriptions, key)]
                    !mentions(list, key) implies entry_of(self@.subscriptions, key) == entry_of(
                    old(self)@.subscriptions,
                    key,
                ) by {
                    assert(list[0].0 != key);
                }
            }
            law_undo_restores(undo@, self@, old(self)@);
        }
        undo
    }

    /// Register the wake channel of a subscription, and note what that changed.
    pub fn register_wake_stream(&mut self, sub: &Subscription, table: &StreamTable) -> (r: Undo)
        requires
            old(self).wf(),
            table.wf(),
        ensures
            final(self).wf(),
            final(self)@ == old(self)@.with_channel(sub@, table@),
            final(self)@.subscriptions.dom() == old(self)@.subscriptions.dom(),
            r.wf(),
            r@.covers(final(self)@, old(self)@),
    {
        let mut touched: Vec<Touched> = Vec::new();
        let wake_stream = match (sub.config.kind, &sub.config.wake_stream) {
            (SubscriptionKind::PullWake, Some(stream)) => stream,
            _ => {
                return Undo { touched, channel: None };
            },
        };
        let path = absolute_stream_path(sub.stream_root.as_str(), wake_stream.as_str());
        let uses: Option<usize> = match self.wake_streams.get(path.as_str()) {
            Some(uses) => Some(*uses),
            None => None,
        };
        let more: usize = match uses {
            Some(uses) => uses.saturating_add(1),
            None => 1,
        };
        self.wake_streams.insert(path.clone(), more);
        let ghost before = old(self)@.subscriptions;
        let ghost keys = self.subscriptions.key_list();
        let ghost channel = path@;
        let mut i: usize = 0;
        proof {
            self.subscriptions.lemma_lists();
        }
        while i < self.subscriptions.len()
            invariant
                self.wf(),
                table.wf(),
                path@ == channel,
                keys == self.subscriptions.key_list(),
                keys.no_duplicates(),
                i <= keys.len(),
                self.wake_streams@ == used_once_more(old(self)@.wake_streams, channel),
                self@.subscriptions.dom() == before.dom(),
                forall|k: int|
                    0 <= k < i ==> self@.subscriptions[#[trigger] keys[k]]
                        == before[keys[k]].without_wake_channel(table@, channel),
                forall|k: int|
                    i <= k < keys.len() ==> self@.subscriptions[#[trigger] keys[k]]
                        == before[keys[k]],
                forall|t: int|
                    0 <= t < touched@.len() ==> {
                        &&& (#[trigger] touched@[t]).before matches Some(old_sub)
                        &&& old_sub.wf()
                        &&& old_sub@.key() == touched@[t].key@
                        &&& before.contains_key(touched@[t].key@)
                        &&& before[touched@[t].key@] == old_sub@
                    },
                forall|k: int|
                    0 <= k < i && self@.subscriptions[#[trigger] keys[k]] != before[keys[k]]
                        ==> exists|t: int| 0 <= t < touched@.len() && (#[trigger] touched@[t]).key@
                        == keys[k],
            decreases keys.len() - i,
        {
            let existing = self.at(i);
            let ghost key = keys[i as int];
            proof {
                self.subscriptions.lemma_lists();
            }
            if existing.has_member(path.as_str()) {
                let old_copy = existing.copy();
                let mut changed = existing.copy();
                changed.drop_wake_channel(path.as_str(), table);
                let ghost noted = touched@;
                let entry = Touched { key: existing.key(), before: Some(old_copy) };
                touched.push(entry);
                self.set(i, changed);
                proof {
                    assert(self@.subscriptions.dom() =~= before.dom());
                    assert forall|k: int|
                        0 <= k < i + 1 && self@.subscriptions[#[trigger] keys[k]]
                            != before[keys[k]] implies exists|t: int|
                        0 <= t < touched@.len() && (#[trigger] touched@[t]).key@ == keys[k] by {
                        if k < i {
                            assert(keys[k] != key);
                            let t = choose|t: int|
                                0 <= t < noted.len() && (#[trigger] noted[t]).key@ == keys[k];
                            assert(touched@[t].key@ == keys[k]);
                        } else {
                            assert(touched@[touched@.len() - 1].key@ == keys[k]);
                        }
                    }
                }
            }
            i = i + 1;
        }
        let undo = Undo {
            touched,
            channel: Some(ChannelBefore { path, uses }),
        };
        proof {
            self.subscriptions.lemma_lists();
            let goal = old(self)@.with_channel(sub@, table@);
            assert forall|key: Seq<char>| self@.subscriptions.contains_key(key) implies
                self@.subscriptions[key] == goal.subscriptions[key] by {
                assert(keys.contains(key));
                let k = keys.index_of(key);
                assert(keys[k] == key);
            }
            assert(self@.subscriptions =~= goal.subscriptions);
            assert(self@ =~= goal);
            let list = undo@.touched;
            assert forall|t: int| 0 <= t < list.len() implies (#[trigger] list[t]).1 == entry_of(
                before,
                list[t].0,
            ) by {
                assert(list[t] == touched_view(undo.touched@[t]));
            }
            assert forall|key: Seq<char>|
                #![trigger entry_of(self@.subscriptions, key)]
                !mentions(list, key) implies entry_of(self@.subscriptions, key) == entry_of(
                before,
                key,
            ) by {
                if self@.subscriptions.contains_key(key) && self@.subscriptions[key]
                    != before[key] {
                    assert(keys.contains(key));
                    let k = keys.index_of(key);
                    assert(keys[k] == key);
                    let t = choose|t: int|
                        0 <= t < undo.touched@.len() && (#[trigger] undo.touched@[t]).key@
                            == keys[k];
                    assert(list[t].0 == key);
                }
            }
            assert(self@.undone(undo@).wake_streams =~= old(self)@.wake_streams);
        }
        undo
    }

    /// Give up the wake channel of a subscription.
    pub fn unregister_wake_stream(&mut self, sub: &Subscription)
        requires
            old(self).wf(),
        ensures
            final(self).wf(),
            final(self)@ == old(self)@.without_channel(sub@),
            final(self).subscriptions == old(self).subscriptions,
    {
        let wake_stream = match (sub.config.kind, &sub.config.wake_stream) {
            (SubscriptionKind::PullWake, Some(stream)) => stream,
            _ => {
                return;
            },
        };
        let path = absolute_stream_path(sub.stream_root.as_str(), wake_stream.as_str());
        match self.wake_streams.position(path.as_str()) {
            Some(at) => {
                let uses: usize = *self.wake_streams.value_at(at);
                if uses <= 1 {
                    let _ = self.wake_streams.remove(path.as_str());
                } else {
                    self.wake_streams.set_at(at, uses - 1);
                }
            },
            None => {},
        }
        assert(self@ =~= old(self)@.without_channel(sub@));
    }

    /// Take a change back.
    pub fn undo(&mut self, undo: Undo)
        requires
            old(self).wf(),
            undo.wf(),
        ensures
            final(self).wf(),
            final(self)@ == old(self)@.undone(undo@),
    {
        let Undo { touched, channel } = undo;
        let ghost list = undo@.touched;
        let mut i: usize = 0;
        assert(list.take(0) =~= Seq::empty());
        while i < touched.len()
            invariant
                self.wf(),
                list == touched@.map_values(|entry: Touched| touched_view(entry)),
                forall|t: int|
                    0 <= t < touched@.len() ==> ((#[trigger] touched@[t]).before matches Some(sub)
                        ==> sub.wf() && sub@.key() == touched@[t].key@),
                i <= touched@.len(),
                self@.subscriptions == put_back(
                    old(self)@.subscriptions,
                    list.take(i as int),
                ),
                self.wake_streams == old(self).wake_streams,
            decreases touched.len() - i,
        {
            let entry = &touched[i];
            assert(list.take(i + 1).drop_last() =~= list.take(i as int));
            assert(list.take(i + 1).last() == touched_view(*entry));
            match &entry.before {
                Some(sub) => {
                    self.subscriptions.insert(entry.key.clone(), sub.copy());
                },
                None => {
                    let _ = self.subscriptions.remove(entry.key.as_str());
                },
            }
            i = i + 1;
        }
        assert(list.take(list.len() as int) =~= list);
        match channel {
            Some(before) => match before.uses {
                Some(uses) => {
                    self.wake_streams.insert(before.path, uses);
                },
                None => {
                    let _ = self.wake_streams.remove(before.path.as_str());
                },
            },
            None => {},
        }
        assert(self@ =~= old(self)@.undone(undo@));
    }
}

} // verus!
