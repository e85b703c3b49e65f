//! An insertion-ordered index over integer keys.
//!
//! Nodes live in a hash map and are chained to their neighbours, so that
//! appending, removing any key and reading the oldest entry touch at most
//! three nodes.

use std::collections::HashMap;
use vstd::prelude::*;

verus! {

broadcast use vstd::std_specs::hash::group_hash_axioms;

/// One entry of the chain.
pub struct IndexNode<T> {
    pub value: T,
    pub previous: Option<u64>,
    pub next: Option<u64>,
}

/// Entries in the order in which they were appended, each under its own key.
pub struct InsertionIndex<T> {
    nodes: HashMap<u64, IndexNode<T>>,
    oldest: Option<u64>,
    newest: Option<u64>,
    order: Ghost<Seq<u64>>,
}

/// Whether `key` labels an entry of `entries`.
pub open spec fn has_key<T>(entries: Seq<(u64, T)>, key: u64) -> bool {
    exists|i: int| 0 <= i < entries.len() && (#[trigger] entries[i]).0 == key
}

/// Where the entry labelled `key` stands.
pub open spec fn position_of<T>(entries: Seq<(u64, T)>, key: u64) -> int {
    choose|i: int| 0 <= i < entries.len() && (#[trigger] entries[i]).0 == key
}

/// What `key` labels.
pub open spec fn value_of<T>(entries: Seq<(u64, T)>, key: u64) -> T {
    entries[position_of(entries, key)].1
}

/// No key labels two entries.
pub open spec fn keys_distinct<T>(entries: Seq<(u64, T)>) -> bool {
    forall|i: int, j: int|
        0 <= i < j < entries.len() ==> (#[trigger] entries[i]).0 != (#[trigger] entries[j]).0
}

/// The entries other than the one labelled `key`, in their order.
pub open spec fn without_key<T>(entries: Seq<(u64, T)>, key: u64) -> Seq<(u64, T)> {
    if has_key(entries, key) {
        entries.remove(position_of(entries, key))
    } else {
        entries
    }
}

/// The entries with the one labelled `key` given another value.
pub open spec fn with_value<T>(entries: Seq<(u64, T)>, key: u64, value: T) -> Seq<(u64, T)> {
    if has_key(entries, key) {
        entries.update(position_of(entries, key), (key, value))
    } else {
        entries
    }
}

/// The key of the entry behind the one at `i`.
pub open spec fn key_after<T>(entries: Seq<(u64, T)>, i: int) -> Option<u64> {
    if i + 1 == entries.len() {
        None
    } else {
        Some(entries[i + 1].0)
    }
}

/// The key of the entry before the one at `i`.
pub open spec fn key_before<T>(entries: Seq<(u64, T)>, i: int) -> Option<u64> {
    if i == 0 {
        None
    } else {
        Some(entries[i - 1].0)
    }
}

/// Whether a chain with these ends and links runs through the entries in their
/// order, and backwards. The ends of a chain without entries are open.
pub open spec fn links_follow<T>(
    entries: Seq<(u64, T)>,
    first: Option<u64>,
    last: Option<u64>,
    next: spec_fn(u64) -> Option<u64>,
    previous: spec_fn(u64) -> Option<u64>,
) -> bool {
    &&& first == (if entries.len() == 0 {
        None
    } else {
        Some(entries[0].0)
    })
    &&& last == (if entries.len() == 0 {
        None
    } else {
        Some(entries[entries.len() - 1].0)
    })
    &&& forall|i: int|
        0 <= i < entries.len() ==> {
            &&& next((#[trigger] entries[i]).0) == key_after(entries, i)
            &&& previous(entries[i].0) == key_before(entries, i)
        }
}

/// With distinct keys an entry's place is its key's position.
pub proof fn lemma_position<T>(entries: Seq<(u64, T)>, i: int)
    requires
        keys_distinct(entries),
        0 <= i < entries.len(),
    ensures
        has_key(entries, entries[i].0),
        position_of(entries, entries[i].0) == i,
        value_of(entries, entries[i].0) == entries[i].1,
{
    let p = position_of(entries, entries[i].0);
    assert(0 <= p < entries.len() && entries[p].0 == entries[i].0);
}

/// What removing one key does to the others.
pub proof fn lemma_without_key<T>(entries: Seq<(u64, T)>, key: u64)
    requires
        keys_distinct(entries),
    ensures
        keys_distinct(without_key(entries, key)),
        !has_key(without_key(entries, key), key),
        forall|other: u64|
            #![trigger has_key(without_key(entries, key), other)]
            #![trigger value_of(without_key(entries, key), other)]
            other != key ==> {
                &&& has_key(without_key(entries, key), other) == has_key(entries, other)
                &&& has_key(entries, other) ==> value_of(without_key(entries, key), other)
                    == value_of(entries, other)
            },
{
    let after = without_key(entries, key);
    if has_key(entries, key) {
        let p = position_of(entries, key);
        assert forall|i: int| 0 <= i < after.len() implies #[trigger] after[i] == entries[if i < p {
            i
        } else {
            i + 1
        }] by {}
        assert forall|i: int, j: int| 0 <= i < j < after.len() implies (#[trigger] after[i]).0 != (
        #[trigger] after[j]).0 by {
            let a = if i < p { i } else { i + 1 };
            let b = if j < p { j } else { j + 1 };
            assert(entries[a].0 != entries[b].0);
        }
        assert forall|other: u64| other != key implies {
            &&& #[trigger] has_key(after, other) == has_key(entries, other)
            &&& has_key(entries, other) ==> value_of(after, other) == value_of(entries, other)
        } by {
            if has_key(entries, other) {
                let q = position_of(entries, other);
                let r = if q < p { q } else { q - 1 };
                assert(after[r] == entries[q]);
                lemma_position(after, r);
                lemma_position(entries, q);
            }
            if has_key(after, other) {
                let r = position_of(after, other);
                let q = if r < p { r } else { r + 1 };
                assert(entries[q].0 == other);
            }
        }
    }
}

/// What giving one key another value does to the index.
pub proof fn lemma_with_value<T>(entries: Seq<(u64, T)>, key: u64, value: T)
    requires
        keys_distinct(entries),
    ensures
        keys_distinct(with_value(entries, key, value)),
        forall|other: u64|
            #![trigger has_key(with_value(entries, key, value), other)]
            #![trigger value_of(with_value(entries, key, value), other)]
            {
                &&& has_key(with_value(entries, key, value), other) == has_key(entries, other)
                &&& has_key(entries, other) && other != key ==> value_of(
                    with_value(entries, key, value),
                    other,
                ) == value_of(entries, other)
                &&& has_key(entries, other) && other == key ==> value_of(
                    with_value(entries, key, value),
                    other,
                ) == value
            },
{
    let after = with_value(entries, key, value);
    if has_key(entries, key) {
        let p = position_of(entries, key);
        assert forall|i: int| 0 <= i < after.len() implies (#[trigger] after[i]).0 == entries[i].0 by {}
        assert forall|i: int, j: int| 0 <= i < j < after.len() implies (#[trigger] after[i]).0 != (
        #[trigger] after[j]).0 by {
            assert(entries[i].0 != entries[j].0);
        }
        assert forall|other: u64| {
            &&& #[trigger] has_key(after, other) == has_key(entries, other)
            &&& has_key(entries, other) && other != key ==> value_of(after, other) == value_of(
                entries,
                other,
            )
            &&& has_key(entries, other) && other == key ==> value_of(after, other) == value
        } by {
            if has_key(entries, other) {
                let q = position_of(entries, other);
                assert(after[q].0 == other);
                lemma_position(after, q);
                lemma_position(entries, q);
            }
            if has_key(after, other) {
                let q = position_of(after, other);
                assert(entries[q].0 == other);
            }
        }
    }
}

/// What appending a fresh key does to the others.
pub proof fn lemma_push_key<T>(entries: Seq<(u64, T)>, key: u64, value: T)
    requires
        keys_distinct(entries),
        !has_key(entries, key),
    ensures
        keys_distinct(entries.push((key, value))),
        has_key(entries.push((key, value)), key),
        value_of(entries.push((key, value)), key) == value,
        forall|other: u64|
            #![trigger has_key(entries.push((key, value)), other)]
            #![trigger value_of(entries.push((key, value)), other)]
            other != key ==> {
                &&& has_key(entries.push((key, value)), other) == has_key(entries, other)
                &&& has_key(entries, other) ==> value_of(entries.push((key, value)), other)
                    == value_of(entries, other)
            },
{
    let after = entries.push((key, value));
    assert forall|i: int, j: int| 0 <= i < j < after.len() implies (#[trigger] after[i]).0 != (
    #[trigger] after[j]).0 by {
        if j < entries.len() {
            assert(entries[i].0 != entries[j].0);
        } else {
            assert(entries[i].0 != key);
        }
    }
    assert(after[entries.len() as int].0 == key);
    lemma_position(after, entries.len() as int);
    assert forall|other: u64| other != key implies {
        &&& #[trigger] has_key(after, other) == has_key(entries, other)
        &&& has_key(entries, other) ==> value_of(after, other) == value_of(entries, other)
    } by {
        if has_key(entries, other) {
            let q = position_of(entries, other);
            assert(after[q] == entries[q]);
            lemma_position(after, q);
            lemma_position(entries, q);
        }
        if has_key(after, other) {
            let q = position_of(after, other);
            assert(after[q].0 == other);
            assert(q < entries.len());
            assert(entries[q].0 == other);
        }
    }
}

impl<T> View for InsertionIndex<T> {
    type V = Seq<(u64, T)>;

    closed spec fn view(&self) -> Seq<(u64, T)> {
        Seq::new(
            self.order@.len(),
            |i: int| (self.order@[i], self.nodes@[self.order@[i]].value),
        )
    }
}

impl<T: Copy> InsertionIndex<T> {
    spec fn neighbour_before(order: Seq<u64>, i: int) -> Option<u64> {
        if i == 0 {
            None
        } else {
            Some(order[i - 1])
        }
    }

    spec fn neighbour_after(order: Seq<u64>, i: int) -> Option<u64> {
        if i + 1 == order.len() {
            None
        } else {
            Some(order[i + 1])
        }
    }

    spec fn chained(
        nodes: Map<u64, IndexNode<T>>,
        order: Seq<u64>,
        oldest: Option<u64>,
        newest: Option<u64>,
    ) -> bool {
        &&& forall|i: int, j: int|
            0 <= i < j < order.len() ==> #[trigger] order[i] != #[trigger] order[j]
        &&& forall|key: u64| #[trigger] nodes.contains_key(key) <==> order.contains(key)
        &&& forall|i: int|
            0 <= i < order.len() ==> {
                let node = #[trigger] nodes[order[i]];
                &&& node.previous == Self::neighbour_before(order, i)
                &&& node.next == Self::neighbour_after(order, i)
            }
        &&& oldest == (if order.len() == 0 {
            None
        } else {
            Some(order[0])
        })
        &&& newest == (if order.len() == 0 {
            None
        } else {
            Some(order[order.len() - 1])
        })
    }

    /// The chain and the map describe the same sequence of distinct keys.
    pub closed spec fn wf(&self) -> bool {
        Self::chained(self.nodes@, self.order@, self.oldest, self.newest)
    }

    proof fn lemma_unlink(
        before: Map<u64, IndexNode<T>>,
        after: Map<u64, IndexNode<T>>,
        order: Seq<u64>,
        p: int,
        oldest: Option<u64>,
        newest: Option<u64>,
    )
        requires
            Self::chained(before, order, oldest, newest),
            0 <= p < order.len(),
            forall|k: u64| #[trigger]
                after.contains_key(k) <==> before.contains_key(k) && k != order[p],
            forall|k: u64| #[trigger]
                after.contains_key(k) ==> {
                    &&& after[k].next == (if before[order[p]].previous == Some(k) {
                        before[order[p]].next
                    } else {
                        before[k].next
                    })
                    &&& after[k].previous == (if before[order[p]].next == Some(k) {
                        before[order[p]].previous
                    } else {
                        before[k].previous
                    })
                },
        ensures
            Self::chained(
                after,
                order.remove(p),
                if before[order[p]].previous is None {
                    before[order[p]].next
                } else {
                    oldest
                },
                if before[order[p]].next is None {
                    before[order[p]].previous
                } else {
                    newest
                },
            ),
    {
        let shorter = order.remove(p);
        assert forall|i: int| 0 <= i < shorter.len() implies #[trigger] shorter[i] == order[if i
            < p {
            i
        } else {
            i + 1
        }] by {}
        assert forall|i: int, j: int| 0 <= i < j < shorter.len() implies #[trigger] shorter[i]
            != #[trigger] shorter[j] by {}
        assert forall|k: u64| #[trigger] after.contains_key(k) <==> shorter.contains(k) by {
            if order.contains(k) && k != order[p] {
                let i = choose|i: int| 0 <= i < order.len() && order[i] == k;
                assert(shorter[if i < p { i } else { i - 1 }] == k);
            }
            if shorter.contains(k) {
                let i = choose|i: int| 0 <= i < shorter.len() && shorter[i] == k;
                let b = if i < p { i } else { i + 1 };
                assert(order[b] == k);
                assert(order.contains(k));
            }
        }
        assert forall|i: int| 0 <= i < shorter.len() implies {
            let linked = #[trigger] after[shorter[i]];
            &&& linked.previous == Self::neighbour_before(shorter, i)
            &&& linked.next == Self::neighbour_after(shorter, i)
        } by {
            let b = if i < p { i } else { i + 1 };
            let key = order[b];
            assert(shorter[i] == key);
            assert(shorter.contains(key));
            assert(after.contains_key(key));
            assert(b != p);
            if p > 0 {
                assert(before[order[p]].previous == Some(order[p - 1]));
                assert((order[p - 1] == key) == (p - 1 == b));
            }
            if p + 1 < order.len() {
                assert(before[order[p]].next == Some(order[p + 1]));
                assert((order[p + 1] == key) == (p + 1 == b));
            }
            assert(before[key].previous == Self::neighbour_before(order, b));
            assert(before[key].next == Self::neighbour_after(order, b));
        }
    }

    /// In a well-formed index every key labels one entry.
    pub proof fn lemma_wf_distinct(&self)
        requires
            self.wf(),
        ensures
            keys_distinct(self@),
    {
        assert forall|i: int, j: int| 0 <= i < j < self@.len() implies (#[trigger] self@[i]).0 != (
        #[trigger] self@[j]).0 by {
            assert(self.order@[i] != self.order@[j]);
        }
    }

    proof fn lemma_node(&self, key: u64)
        requires
            self.wf(),
        ensures
            self.nodes@.contains_key(key) == has_key(self@, key),
            has_key(self@, key) ==> {
                &&& self.order@[position_of(self@, key)] == key
                &&& value_of(self@, key) == self.nodes@[key].value
            },
    {
        if self.nodes@.contains_key(key) {
            let i = choose|i: int| 0 <= i < self.order@.len() && self.order@[i] == key;
            assert(self@[i].0 == key);
        }
        if has_key(self@, key) {
            let p = position_of(self@, key);
            assert(self@[p].0 == key);
            assert(self.order@[p] == key);
            assert(self.order@.contains(key));
        }
    }

    /// The key at the head of the chain.
    pub closed spec fn first_key(&self) -> Option<u64> {
        self.oldest
    }

    /// The key at the tail of the chain.
    pub closed spec fn last_key(&self) -> Option<u64> {
        self.newest
    }

    /// The key that the entry under `key` is followed by.
    pub closed spec fn next_of(&self, key: u64) -> Option<u64> {
        self.nodes@[key].next
    }

    /// The key that the entry under `key` follows.
    pub closed spec fn previous_of(&self, key: u64) -> Option<u64> {
        self.nodes@[key].previous
    }

    /// Whether the chain has an entry under `key`.
    pub closed spec fn holds(&self, key: u64) -> bool {
        self.nodes@.contains_key(key)
    }

    /// The chain runs through every key once: from the oldest along the links to
    /// the newest in the order of the entries, and backwards along the others.
    pub proof fn law_links_follow_the_order(&self)
        requires
            self.wf(),
        ensures
            keys_distinct(self@),
            links_follow(
                self@,
                self.first_key(),
                self.last_key(),
                |key: u64| self.next_of(key),
                |key: u64| self.previous_of(key),
            ),
            forall|key: u64| #[trigger] self.holds(key) == has_key(self@, key),
    {
        self.lemma_wf_distinct();
        assert forall|key: u64| #[trigger] self.holds(key) == has_key(self@, key) by {
            self.lemma_node(key);
        }
        assert forall|i: int| 0 <= i < self@.len() implies {
            &&& self.next_of((#[trigger] self@[i]).0) == key_after(self@, i)
            &&& self.previous_of(self@[i].0) == key_before(self@, i)
        } by {
            assert(self.order@[i] == self@[i].0);
            assert(self.nodes@[self.order@[i]].next == Self::neighbour_after(self.order@, i));
        }
    }

    /// An index without entries.
    pub fn new() -> (r: Self)
        ensures
            r.wf(),
            r@ == Seq::<(u64, T)>::empty(),
    {
        InsertionIndex { nodes: HashMap::new(), oldest: None, newest: None, order: Ghost(Seq::empty()) }
    }

    /// Forget every entry.
    pub fn clear(&mut self)
        ensures
            final(self).wf(),
            final(self)@ == Seq::<(u64, T)>::empty(),
    {
        self.nodes.clear();
        self.oldest = None;
        self.newest = None;
        self.order = Ghost(Seq::empty());
    }

    /// The value under `key`.
    pub fn get(&self, key: u64) -> (r: Option<T>)
        requires
            self.wf(),
        ensures
            r == (if has_key(self@, key) {
                Some(value_of(self@, key))
            } else {
                None
            }),
    {
        proof {
            self.lemma_node(key);
        }
        match self.nodes.get(&key) {
            Some(node) => Some(node.value),
            None => None,
        }
    }

    /// The entry that has been in the index longest.
    pub fn oldest(&self) -> (r: Option<(u64, T)>)
        requires
            self.wf(),
        ensures
            r == (if self@.len() == 0 {
                None
            } else {
                Some(self@[0])
            }),
    {
        match self.oldest {
            Some(key) => {
                assert(self.order@[0] == key);
                assert(self.order@.contains(key));
                match self.nodes.get(&key) {
                    Some(node) => Some((key, node.value)),
                    None => None,
                }
            },
            None => None,
        }
    }

    /// Give `key` another value; the order stays.
    pub fn set(&mut self, key: u64, value: T)
        requires
            old(self).wf(),
        ensures
            final(self).wf(),
            final(self)@ == with_value(old(self)@, key, value),
    {
        proof {
            self.lemma_node(key);
            self.lemma_wf_distinct();
        }
        if let Some(node) = self.nodes.get(&key) {
            let changed = IndexNode { value, previous: node.previous, next: node.next };
            self.nodes.insert(key, changed);
        }
        proof {
            if has_key(old(self)@, key) {
                assert(self@ =~= with_value(old(self)@, key, value)) by {
                    assert forall|i: int| 0 <= i < self@.len() implies self@[i] == with_value(
                        old(self)@,
                        key,
                        value,
                    )[i] by {
                        if self.order@[i] == key {
                            lemma_position(old(self)@, i);
                        }
                    }
                }
            }
        }
    }

    /// Append `value` under a fresh key.
    pub fn push_back(&mut self, key: u64, value: T)
        requires
            old(self).wf(),
            !has_key(old(self)@, key),
        ensures
            final(self).wf(),
            final(self)@ == old(self)@.push((key, value)),
            final(self)@.len() <= usize::MAX,
    {
        proof {
            self.lemma_node(key);
        }
        let ghost before = self.order@;
        let previous = self.newest;
        self.nodes.insert(key, IndexNode { value, previous, next: None });
        match previous {
            Some(neighbour) => {
                assert(before[before.len() - 1] == neighbour);
                assert(before.contains(neighbour));
                if let Some(node) = self.nodes.get(&neighbour) {
                    let relinked = IndexNode {
                        value: node.value,
                        previous: node.previous,
                        next: Some(key),
                    };
                    self.nodes.insert(neighbour, relinked);
                }
            },
            None => {
                self.oldest = Some(key);
            },
        }
        self.newest = Some(key);
        self.order = Ghost(before.push(key));
        let held: usize = self.nodes.len();
        proof {
            let after = self.order@;
            assert(!before.contains(key));
            assert forall|k: u64| #[trigger] self.nodes@.contains_key(k) <==> after.contains(k) by {
                if before.contains(k) {
                    let i = choose|i: int| 0 <= i < before.len() && before[i] == k;
                    assert(after[i] == k);
                }
                if after.contains(k) {
                    let i = choose|i: int| 0 <= i < after.len() && after[i] == k;
                    if i < before.len() {
                        assert(before[i] == k);
                    }
                }
                assert(after[before.len() as int] == key);
            }
            assert forall|i: int| 0 <= i < after.len() implies {
                let node = #[trigger] self.nodes@[after[i]];
                &&& node.previous == Self::neighbour_before(after, i)
                &&& node.next == Self::neighbour_after(after, i)
            } by {
                if i < before.len() {
                    assert(after[i] == before[i]);
                    assert(before.contains(before[i]));
                    if i + 1 == before.len() {
                    } else {
                        assert(before[i] != before[before.len() - 1]);
                    }
                }
            }
            assert forall|i: int, j: int| 0 <= i < j < after.len() implies #[trigger] after[i]
                != #[trigger] after[j] by {
                if j == before.len() {
                    assert(before.contains(before[i]));
                }
            }
            assert(self@ =~= old(self)@.push((key, value))) by {
                assert forall|i: int| 0 <= i < before.len() implies self@[i] == old(self)@[i] by {
                    assert(after[i] == before[i]);
                    assert(before.contains(before[i]));
                }
            }
            assert(self.nodes@.dom() =~= after.to_set());
            after.unique_seq_to_set();
            assert(held == after.len());
        }
    }

    /// Unlink the entry under `key` and hand out its value.
    pub fn remove(&mut self, key: u64) -> (r: Option<T>)
        requires
            old(self).wf(),
        ensures
            final(self).wf(),
            final(self)@ == without_key(old(self)@, key),
            r == (if has_key(old(self)@, key) {
                Some(value_of(old(self)@, key))
            } else {
                None
            }),
    {
        proof {
            self.lemma_node(key);
            self.lemma_wf_distinct();
        }
        let ghost before = self.order@;
        let ghost p = position_of(self@, key);
        let ghost nodes = self.nodes;
        let ghost oldest = self.oldest;
        let ghost newest = self.newest;
        let node = match self.nodes.remove(&key) {
            Some(node) => node,
            None => {
                return None;
            },
        };
        assert(before[p] == key);
        match node.previous {
            Some(neighbour) => {
                assert(before[p - 1] == neighbour);
                assert(before.contains(neighbour));
                if let Some(other) = self.nodes.get(&neighbour) {
                    let relinked = IndexNode {
                        value: other.value,
                        previous: other.previous,
                        next: node.next,
                    };
                    self.nodes.insert(neighbour, relinked);
                }
            },
            None => {
                self.oldest = node.next;
            },
        }
        match node.next {
            Some(neighbour) => {
                assert(before[p + 1] == neighbour);
                assert(before.contains(neighbour));
                if let Some(other) = self.nodes.get(&neighbour) {
                    let relinked = IndexNode {
                        value: other.value,
                        previous: node.previous,
                        next: other.next,
                    };
                    self.nodes.insert(neighbour, relinked);
                }
            },
            None => {
                self.newest = node.previous;
            },
        }
        self.order = Ghost(before.remove(p));
        proof {
            assert(before.contains(key));
            assert forall|k: u64| #[trigger] self.nodes@.contains_key(k) implies {
                &&& self.nodes@[k].value == nodes@[k].value
                &&& self.nodes@[k].next == (if node.previous == Some(k) {
                    node.next
                } else {
                    nodes@[k].next
                })
                &&& self.nodes@[k].previous == (if node.next == Some(k) {
                    node.previous
                } else {
                    nodes@[k].previous
                })
            } by {}
            Self::lemma_unlink(nodes@, self.nodes@, before, p, oldest, newest);
            assert forall|i: int| 0 <= i < self@.len() implies self@[i] == old(self)@.remove(
                p,
            )[i] by {
                let b = if i < p { i } else { i + 1 };
                assert(self.order@[i] == before[b]);
                assert(self.order@.contains(before[b]));
            }
            assert(self@ =~= old(self)@.remove(p));
        }
        Some(node.value)
    }

    /// Every entry, oldest first.
    pub fn entries(&self) -> (r: Vec<(u64, T)>)
        requires
            self.wf(),
        ensures
            r@ == self@,
    {
        let mut out: Vec<(u64, T)> = Vec::new();
        let mut cursor: Option<u64> = self.oldest;
        while cursor.is_some()
            invariant
                self.wf(),
                out@.len() <= self@.len(),
                out@ == self@.subrange(0, out@.len() as int),
                cursor == (if out@.len() == self@.len() {
                    None
                } else {
                    Some(self.order@[out@.len() as int])
                }),
            decreases self@.len() - out@.len(),
        {
            let ghost i = out@.len() as int;
            assert(self.order@.contains(self.order@[i]));
            if let Some(key) = cursor {
                if let Some(node) = self.nodes.get(&key) {
                    out.push((key, node.value));
                    cursor = node.next;
                }
            }
            assert(out@ =~= self@.subrange(0, out@.len() as int));
        }
        assert(self@.subrange(0, self@.len() as int) =~= self@);
        out
    }
}

} // verus!
