//! Moving the cursors of a subscription.

use crate::path_map::{Duplicate, PathMap};
use crate::store::offset::{offset_denotes, parse_offset, ParsedOffset};
use crate::subscriptions::links::{tail_at, tail_offset, LinkView, StreamStatus, StreamTable};
use crate::subscriptions::paths::normalize_relative_path;
use crate::subscriptions::subscription::{
    ack_list, ack_offsets_valid, ack_targets, lemma_take_contains, AckRequest, AckView, SubView,
    Subscription,
};
use crate::text::{least, lemma_least_is, lemma_text_before_asymmetric, text_before, text_less};
use vstd::prelude::*;

verus! {

/// The moves that an optional list asks for.
pub open spec fn asked_acks(acks: Option<Vec<AckRequest>>) -> Seq<AckView> {
    match acks {
        Some(list) => ack_list(list@),
        None => Seq::empty(),
    }
}

/// The stream that a move is about.
fn ack_stream(ack: &AckRequest) -> (r: String)
    ensures
        r@ == ack@.stream,
{
    match (&ack.stream, &ack.path) {
        (Some(stream), _) => normalize_relative_path(stream.as_str()),
        (None, Some(path)) => normalize_relative_path(path.as_str()),
        (None, None) => {
            let none = String::new();
            normalize_relative_path(none.as_str())
        },
    }
}

/// Where the moves lead each stream; nothing if one names no position.
fn collect_targets(acks: &Vec<AckRequest>) -> (r: Option<PathMap<String>>)
    ensures
        match r {
            Some(targets) => {
                &&& ack_offsets_valid(ack_list(acks@))
                &&& targets.wf()
                &&& targets@ == ack_targets(ack_list(acks@))
            },
            None => !ack_offsets_valid(ack_list(acks@)),
        },
{
    let ghost list = ack_list(acks@);
    let mut targets: PathMap<String> = PathMap::new();
    let mut i: usize = 0;
    assert(list.take(0) =~= Seq::empty());
    while i < acks.len()
        invariant
            list == ack_list(acks@),
            i <= acks@.len(),
            targets.wf(),
            targets@ == ack_targets(list.take(i as int)),
            forall|k: int|
                0 <= k < i ==> offset_denotes(
                    Some((#[trigger] list[k]).offset),
                ) matches Some(ParsedOffset::At(_)),
        decreases acks.len() - i,
    {
        let ack = &acks[i];
        assert(list[i as int] == ack@);
        assert(list.take(i + 1).drop_last() =~= list.take(i as int));
        match parse_offset(Some(ack.offset.as_str())) {
            Ok(ParsedOffset::At(_)) => {},
            _ => {
                return None;
            },
        }
        let stream = ack_stream(ack);
        let further = match targets.get(stream.as_str()) {
            Some(offset) => text_less(offset.as_str(), ack.offset.as_str()),
            None => true,
        };
        if further {
            targets.insert(stream, ack.offset.clone());
        }
        i = i + 1;
    }
    assert(list.take(list.len() as int) =~= list);
    Some(targets)
}

impl Subscription {
    /// Move every cursor up to where its stream ended when the wake was issued.
    pub fn acknowledge_wake_snapshot(&mut self)
        requires
            old(self).wf(),
        ensures
            final(self).wf(),
            final(self)@ == old(self)@.snapshot_acknowledged(),
    {
        let ghost before = self@;
        let ghost keys = self.streams.key_list();
        let ghost goal = before.snapshot_acknowledged().streams;
        proof {
            self.streams.lemma_lists();
        }
        let mut i: usize = 0;
        while i < self.streams.len()
            invariant
                self.wf(),
                self@ == (SubView { streams: self.streams@, ..before }),
                self.streams.key_list() == keys,
                goal == before.snapshot_acknowledged().streams,
                i <= keys.len(),
                self.streams@.dom() == before.streams.dom(),
                forall|path: Seq<char>| #[trigger]
                    self.streams@.contains_key(path) ==> self.streams@[path] == (if keys.take(
                        i as int,
                    ).contains(path) {
                        goal[path]
                    } else {
                        before.streams[path]
                    }),
                keys.no_duplicates(),
            decreases keys.len() - i,
        {
            let ghost path = keys[i as int];
            proof {
                lemma_take_contains(keys, i as int);
                if keys.take(i as int).contains(path) {
                    let k = choose|k: int| 0 <= k < i && keys.take(i as int)[k] == path;
                    assert(keys[k] == keys[i as int]);
                }
            }
            let further = match self.wake_snapshot.get(self.streams.key_at(i).as_str()) {
                Some(tail) => if text_less(
                    self.streams.value_at(i).acked_offset.as_str(),
                    tail.as_str(),
                ) {
                    Some(tail.clone())
                } else {
                    None
                },
                None => None,
            };
            match further {
                Some(tail) => {
                    let mut link = self.streams.value_at(i).duplicate();
                    link.acked_offset = tail;
                    self.streams.set_at(i, link);
                    assert(self.streams@.dom() =~= before.streams.dom());
                },
                None => {},
            }
            assert(self@ =~= (SubView { streams: self.streams@, ..before }));
            i = i + 1;
        }
        proof {
            self.streams.lemma_lists();
            assert(keys.take(keys.len() as int) =~= keys);
            assert(self.streams@ =~= goal);
            assert(self@ =~= before.snapshot_acknowledged());
        }
    }

    /// What is wrong with moving cursors to `targets`.
    fn check_targets(&self, targets: &PathMap<String>, table: &StreamTable) -> (r: Result<
        (),
        &'static str,
    >)
        requires
            self.wf(),
            table.wf(),
            targets.wf(),
        ensures
            match r {
                Ok(()) => forall|stream: Seq<char>| !self@.ack_wrong(table@, targets@, stream),
                Err(message) => {
                    let first = least(
                        |stream: Seq<char>| self@.ack_wrong(table@, targets@, stream),
                    );
                    &&& exists|stream: Seq<char>| self@.ack_wrong(table@, targets@, stream)
                    &&& self@.ack_problem(table@, first, targets@[first]) == Some(message@)
                },
            },
    {
        let ghost keys = targets.key_list();
        let mut i: usize = 0;
        while i < targets.len()
            invariant
                self.wf(),
                table.wf(),
                targets.wf(),
                keys == targets.key_list(),
                i <= keys.len(),
                forall|k: int|
                    0 <= k < i ==> !self@.ack_wrong(table@, targets@, #[trigger] keys[k]),
            decreases keys.len() - i,
        {
            let stream = targets.key_at(i);
            let offset = targets.value_at(i);
            let problem: Option<&'static str> = match self.streams.get(stream.as_str()) {
                Some(link) => {
                    let tail = tail_offset(table, self.stream_root.as_str(), stream.as_str());
                    if text_less(offset.as_str(), link.acked_offset.as_str()) || text_less(
                        tail.as_str(),
                        offset.as_str(),
                    ) {
                        Some("Ack offset is invalid for the subscription stream")
                    } else {
                        None
                    }
                },
                None => Some("Ack references an unknown subscription stream"),
            };
            match problem {
                Some(message) => {
                    proof {
                        targets.lemma_lists();
                        let p = |stream: Seq<char>| self@.ack_wrong(table@, targets@, stream);
                        assert(p(keys[i as int]));
                        assert forall|j: Seq<char>| #[trigger] p(j) implies j == keys[i as int]
                            || text_before(keys[i as int], j) by {
                            assert(targets@.contains_key(j));
                            assert(keys.contains(j));
                            let k = keys.index_of(j);
                            assert(keys[k] == j);
                            if i < k {
                                assert(text_before(keys[i as int], keys[k]));
                            }
                        }
                        lemma_least_is(p, keys[i as int]);
                    }
                    return Err(message);
                },
                None => {},
            }
            i = i + 1;
        }
        proof {
            targets.lemma_lists();
            assert forall|stream: Seq<char>| !self@.ack_wrong(table@, targets@, stream) by {
                if self@.ack_wrong(table@, targets@, stream) {
                    assert(targets@.contains_key(stream));
                    assert(keys.contains(stream));
                    let k = keys.index_of(stream);
                    assert(keys[k] == stream);
                }
            }
        }
        Ok(())
    }

    /// Move cursors as asked, or not at all.
    pub fn apply_acks(&mut self, acks: &Option<Vec<AckRequest>>, table: &StreamTable) -> (r: Result<
        (),
        &'static str,
    >)
        requires
            old(self).wf(),
            table.wf(),
        ensures
            match old(self)@.ack_complaint(table@, asked_acks(*acks)) {
                Some(complaint) => {
                    &&& r matches Err(message)
                    &&& message@ == complaint
                    &&& *final(self) == *old(self)
                },
                None => {
                    &&& r is Ok
                    &&& final(self).wf()
                    &&& final(self)@ == old(self)@.acked(asked_acks(*acks))
                },
            },
    {
        let list = match acks {
            Some(list) => list,
            None => {
                proof {
                    assert(asked_acks(*acks) =~= Seq::empty());
                    assert(ack_targets(asked_acks(*acks)) == Map::<Seq<char>, Seq<char>>::empty());
                    assert(self@.acked(asked_acks(*acks)).streams =~= self@.streams);
                    assert(self@ =~= self@.acked(asked_acks(*acks)));
                }
                return Ok(());
            },
        };
        let targets = match collect_targets(list) {
            Some(targets) => targets,
            None => {
                return Err("Ack offset is invalid for the subscription stream");
            },
        };
        match self.check_targets(&targets, table) {
            Ok(()) => {},
            Err(message) => {
                return Err(message);
            },
        }
        let ghost before = self@;
        let ghost keys = targets.key_list();
        proof {
            targets.lemma_lists();
        }
        let mut i: usize = 0;
        while i < targets.len()
            invariant
                self.wf(),
                targets.wf(),
                keys == targets.key_list(),
                keys.no_duplicates(),
                i <= keys.len(),
                self@ == (SubView { streams: self.streams@, ..before }),
                self.streams@.dom() == before.streams.dom(),
                forall|stream: Seq<char>| !before.ack_wrong(table@, targets@, stream),
                forall|path: Seq<char>| #[trigger]
                    self.streams@.contains_key(path) ==> self.streams@[path] == (if keys.take(
                        i as int,
                    ).contains(path) {
                        LinkView { acked: targets@[path], ..before.streams[path] }
                    } else {
                        before.streams[path]
                    }),
            decreases keys.len() - i,
        {
            let stream = targets.key_at(i);
            let offset = targets.value_at(i);
            proof {
                lemma_take_contains(keys, i as int);
                if keys.take(i as int).contains(keys[i as int]) {
                    let k = choose|k: int| 0 <= k < i && keys.take(i as int)[k] == keys[i as int];
                    assert(keys[k] == keys[i as int]);
                }
                assert(!before.ack_wrong(table@, targets@, stream@));
            }
            match self.streams.position(stream.as_str()) {
                Some(at) => {
                    let mut link = self.streams.value_at(at).duplicate();
                    link.acked_offset = offset.clone();
                    self.streams.set_at(at, link);
                    assert(self.streams@.dom() =~= before.streams.dom());
                },
                None => {},
            }
            assert(self@ =~= (SubView { streams: self.streams@, ..before }));
            i = i + 1;
        }
        proof {
            targets.lemma_lists();
            assert(keys.take(keys.len() as int) =~= keys);
            assert(self.streams@ =~= before.acked(ack_list(list@)).streams);
            assert(self@ =~= before.acked(ack_list(list@)));
        }
        Ok(())
    }
}

/// A target is a position that some move named for its stream.
pub proof fn lemma_target_asked(acks: Seq<AckView>, stream: Seq<char>)
    requires
        ack_targets(acks).contains_key(stream),
    ensures
        exists|i: int|
            0 <= i < acks.len() && (#[trigger] acks[i]).stream == stream && acks[i].offset
                == ack_targets(acks)[stream],
    decreases acks.len(),
{
    let front = ack_targets(acks.drop_last());
    let last = acks.last();
    if stream == last.stream && ack_targets(acks)[stream] == last.offset {
        assert(acks[acks.len() - 1] == last);
    } else {
        lemma_target_asked(acks.drop_last(), stream);
        let i = choose|i: int|
            0 <= i < acks.drop_last().len() && (#[trigger] acks.drop_last()[i]).stream == stream
                && acks.drop_last()[i].offset == front[stream];
        assert(acks[i] == acks.drop_last()[i]);
    }
}

/// Accepted moves never take a cursor back and never past the end of its
/// stream, and they touch nothing but the cursors of the named streams.
pub proof fn law_acks_never_regress(
    sub: SubView,
    table: Map<Seq<char>, StreamStatus>,
    acks: Seq<AckView>,
    path: Seq<char>,
)
    requires
        sub.ack_complaint(table, acks) is None,
        sub.streams.contains_key(path),
    ensures
        sub.acked(acks).streams.dom() == sub.streams.dom(),
        !text_before(sub.acked(acks).streams[path].acked, sub.streams[path].acked),
        sub.acked(acks).streams[path].acked == sub.streams[path].acked || !text_before(
            tail_at(table, sub.root, path),
            sub.acked(acks).streams[path].acked,
        ),
        (forall|i: int| 0 <= i < acks.len() ==> (#[trigger] acks[i]).stream != path)
            ==> sub.acked(acks).streams[path] == sub.streams[path],
        sub.acked(acks) == (SubView { streams: sub.acked(acks).streams, ..sub }),
{
    let targets = ack_targets(acks);
    assert(sub.acked(acks).streams.dom() =~= sub.streams.dom());
    lemma_text_before_asymmetric(sub.streams[path].acked, sub.streams[path].acked);
    assert(!sub.ack_wrong(table, targets, path));
    if targets.contains_key(path) {
        lemma_target_asked(acks, path);
    }
}

/// Acknowledging what a wake announced moves no cursor back, and afterwards
/// nothing that was announced is pending any more.
pub proof fn law_snapshot_is_acknowledged(sub: SubView, path: Seq<char>)
    requires
        sub.streams.contains_key(path),
    ensures
        !text_before(
            sub.snapshot_acknowledged().streams[path].acked,
            sub.streams[path].acked,
        ),
        sub.wake_snapshot.contains_key(path) ==> !text_before(
            sub.snapshot_acknowledged().streams[path].acked,
            sub.wake_snapshot[path],
        ),
{
    let link = sub.streams[path];
    lemma_text_before_asymmetric(link.acked, link.acked);
    if sub.wake_snapshot.contains_key(path) {
        let tail = sub.wake_snapshot[path];
        lemma_text_before_asymmetric(tail, tail);
        lemma_text_before_asymmetric(link.acked, tail);
    }
}

} // verus!
