//! A map from texts to values, kept in the order of its keys.

use crate::text::{
    lemma_text_before_asymmetric, lemma_text_before_total, lemma_text_before_transitive, same_text,
    text_before, text_less,
};
use vstd::prelude::*;

verus! {

/// A sorted map with text keys.
pub struct PathMap<V> {
    keys: Vec<String>,
    values: Vec<V>,
}

/// Whether every key comes before the ones behind it.
pub open spec fn strictly_sorted(keys: Seq<Seq<char>>) -> bool {
    forall|i: int, j: int|
        0 <= i < j < keys.len() ==> text_before(#[trigger] keys[i], #[trigger] keys[j])
}

/// A sorted list names each key once.
pub proof fn lemma_sorted_distinct(keys: Seq<Seq<char>>)
    requires
        strictly_sorted(keys),
    ensures
        keys.no_duplicates(),
{
    assert forall|i: int, j: int| 0 <= i < keys.len() && 0 <= j < keys.len() && i != j implies keys[i]
        != keys[j] by {
        lemma_text_before_asymmetric(keys[i], keys[i]);
        if i < j {
            assert(text_before(keys[i], keys[j]));
        } else {
            assert(text_before(keys[j], keys[i]));
        }
    }
}

/// Texts in their order.
pub open spec fn in_order(keys: Set<Seq<char>>) -> Seq<Seq<char>> {
    choose|list: Seq<Seq<char>>| #[trigger] strictly_sorted(list) && list.to_set() == keys
}

/// Texts have one order.
pub proof fn lemma_in_order(list: Seq<Seq<char>>)
    requires
        strictly_sorted(list),
    ensures
        in_order(list.to_set()) == list,
{
    let chosen = in_order(list.to_set());
    assert(strictly_sorted(chosen) && chosen.to_set() == list.to_set());
    lemma_one_order(chosen, list);
}

/// Texts in order with one more can be put in order.
proof fn lemma_order_extended(list: Seq<Seq<char>>, name: Seq<char>)
    requires
        strictly_sorted(list),
    ensures
        strictly_sorted(in_order(list.to_set().insert(name))),
        in_order(list.to_set().insert(name)).to_set() == list.to_set().insert(name),
{
    if list.contains(name) {
        assert(list.to_set().insert(name) =~= list.to_set());
        assert(strictly_sorted(list) && list.to_set() == list.to_set().insert(name));
    } else {
        let slot = lemma_slot_exists(list, name, list.len() as int);
        let more = list.insert(slot, name);
        lemma_sorted_insert(list, name, slot);
        assert forall|k: Seq<char>| more.to_set().contains(k) == list.to_set().insert(
            name,
        ).contains(k) by {
            if more.contains(k) {
                let i = choose|i: int| 0 <= i < more.len() && more[i] == k;
                if i < slot {
                    assert(list[i] == k);
                } else if i > slot {
                    assert(list[i - 1] == k);
                }
            }
            if list.contains(k) {
                let i = choose|i: int| 0 <= i < list.len() && list[i] == k;
                assert(more[if i < slot { i } else { i + 1 }] == k);
            }
            assert(more[slot] == name);
        }
        assert(more.to_set() =~= list.to_set().insert(name));
    }
}

/// A finite set of texts is what its order lists.
pub proof fn lemma_order_of(names: Set<Seq<char>>)
    requires
        names.finite(),
    ensures
        in_order(names).to_set() == names,
        strictly_sorted(in_order(names)),
    decreases names.len(),
{
    if names.len() == 0 {
        let none = Seq::<Seq<char>>::empty();
        assert(none.to_set() =~= names);
        assert(strictly_sorted(none) && none.to_set() == names);
    } else {
        let name = names.choose();
        lemma_order_of(names.remove(name));
        lemma_order_extended(in_order(names.remove(name)), name);
        assert(names.remove(name).insert(name) =~= names);
    }
}

/// There is a slot for every text.
proof fn lemma_slot_exists(list: Seq<Seq<char>>, name: Seq<char>, bound: int) -> (slot: int)
    requires
        strictly_sorted(list),
        0 <= bound <= list.len(),
        forall|i: int| bound <= i < list.len() ==> !text_before(#[trigger] list[i], name),
    ensures
        is_slot(list, name, slot),
    decreases bound,
{
    if bound == 0 {
        0
    } else if text_before(list[bound - 1], name) {
        assert forall|i: int| 0 <= i < bound implies text_before(#[trigger] list[i], name) by {
            if i < bound - 1 {
                lemma_text_before_transitive(list[i], list[bound - 1], name);
            }
        }
        bound
    } else {
        lemma_slot_exists(list, name, bound - 1)
    }
}

proof fn lemma_one_order(a: Seq<Seq<char>>, b: Seq<Seq<char>>)
    requires
        strictly_sorted(a),
        strictly_sorted(b),
        a.to_set() == b.to_set(),
    ensures
        a == b,
    decreases a.len() + b.len(),
{
    if a.len() == 0 || b.len() == 0 {
        if a.len() > 0 {
            assert(b.to_set().contains(a[0]));
        }
        if b.len() > 0 {
            assert(a.to_set().contains(b[0]));
        }
        assert(a =~= b);
    } else {
        lemma_sorted_distinct(a);
        lemma_sorted_distinct(b);
        let x = a.last();
        let y = b.last();
        assert(a.to_set().contains(x) && b.to_set().contains(y));
        let i = choose|i: int| 0 <= i < b.len() && b[i] == x;
        let j = choose|j: int| 0 <= j < a.len() && a[j] == y;
        if x != y {
            assert(text_before(b[i], b[b.len() - 1]));
            assert(text_before(a[j], a[a.len() - 1]));
            lemma_text_before_asymmetric(x, y);
        }
        let a2 = a.drop_last();
        let b2 = b.drop_last();
        assert forall|key: Seq<char>| a2.to_set().contains(key) == b2.to_set().contains(key) by {
            if a2.contains(key) {
                let k = choose|k: int| 0 <= k < a2.len() && a2[k] == key;
                assert(a[k] == key && a[k] != x);
                assert(a.to_set().contains(key));
                assert(b.contains(key));
                let m = choose|m: int| 0 <= m < b.len() && b[m] == key;
                assert(b2[m] == key);
            }
            if b2.contains(key) {
                let k = choose|k: int| 0 <= k < b2.len() && b2[k] == key;
                assert(b[k] == key && b[k] != x);
                assert(b.to_set().contains(key));
                assert(a.contains(key));
                let m = choose|m: int| 0 <= m < a.len() && a[m] == key;
                assert(a2[m] == key);
            }
        }
        assert(a2.to_set() =~= b2.to_set());
        lemma_one_order(a2, b2);
        assert(a =~= a2.push(x));
        assert(b =~= b2.push(y));
    }
}

/// The position at which a search for `key` ends.
pub open spec fn is_slot(keys: Seq<Seq<char>>, key: Seq<char>, slot: int) -> bool {
    &&& 0 <= slot <= keys.len()
    &&& forall|i: int| 0 <= i < slot ==> text_before(#[trigger] keys[i], key)
    &&& forall|i: int| slot <= i < keys.len() ==> !text_before(#[trigger] keys[i], key)
}

/// A key that is put into its slot keeps the order.
proof fn lemma_sorted_insert(keys: Seq<Seq<char>>, name: Seq<char>, slot: int)
    requires
        strictly_sorted(keys),
        is_slot(keys, name, slot),
        !keys.contains(name),
    ensures
        strictly_sorted(keys.insert(slot, name)),
{
    let after = keys.insert(slot, name);
    if slot < keys.len() {
        lemma_text_before_total(keys[slot], name);
    }
    assert forall|i: int, j: int| 0 <= i < j < after.len() implies text_before(
        #[trigger] after[i],
        #[trigger] after[j],
    ) by {
        let a = if i < slot { i } else { i - 1 };
        let b = if j < slot { j } else { j - 1 };
        if i == slot {
            assert(after[j] == keys[b]);
            if b > slot {
                lemma_text_before_transitive(name, keys[slot], keys[b]);
            }
        } else if j == slot {
            assert(after[i] == keys[a]);
        } else {
            assert(after[i] == keys[a] && after[j] == keys[b]);
        }
    }
}

impl<V: View> View for PathMap<V> {
    type V = Map<Seq<char>, V::V>;

    closed spec fn view(&self) -> Map<Seq<char>, V::V> {
        Map::new(
            |key: Seq<char>| self.key_list().contains(key),
            |key: Seq<char>| self.values@[self.key_list().index_of(key)]@,
        )
    }
}

/// Copies that have the mathematical value of what was copied.
pub trait Duplicate: View + Sized {
    fn duplicate(&self) -> (r: Self)
        ensures
            r@ == self@,
    ;
}

impl Duplicate for String {
    fn duplicate(&self) -> (r: Self) {
        self.clone()
    }
}

impl<V> PathMap<V> {
    /// The keys in their order.
    pub closed spec fn key_list(&self) -> Seq<Seq<char>> {
        self.keys@.map_values(|s: String| s@)
    }

    /// The values in the order of their keys.
    pub closed spec fn value_list(&self) -> Seq<V> {
        self.values@
    }

    /// The values themselves under their keys.
    pub closed spec fn raw(&self) -> Map<Seq<char>, V> {
        Map::new(
            |key: Seq<char>| self.key_list().contains(key),
            |key: Seq<char>| self.values@[self.key_list().index_of(key)],
        )
    }

    /// Keys are sorted and each has one value.
    pub closed spec fn wf(&self) -> bool {
        &&& self.keys@.len() == self.values@.len()
        &&& strictly_sorted(self.key_list())
    }
}

impl<V: View> PathMap<V> {
    /// How the map and its two lists belong together.
    pub proof fn lemma_lists(&self)
        requires
            self.wf(),
        ensures
            strictly_sorted(self.key_list()),
            self.key_list().no_duplicates(),
            self.key_list().len() == self.value_list().len(),
            self@.dom().finite(),
            self@.dom() == self.key_list().to_set(),
            self.key_list() == in_order(self@.dom()),
            self@.dom().len() == self.key_list().len(),
            forall|key: Seq<char>| #[trigger]
                self@.contains_key(key) <==> self.key_list().contains(key),
            forall|i: int|
                0 <= i < self.key_list().len() ==> {
                    &&& self@.contains_key(#[trigger] self.key_list()[i])
                    &&& self@[self.key_list()[i]] == self.value_list()[i]@
                    &&& self.raw()[self.key_list()[i]] == self.value_list()[i]
                },
            self.raw().dom() == self@.dom(),
            forall|key: Seq<char>| #[trigger]
                self.raw().contains_key(key) ==> self.raw()[key]@ == self@[key],
    {
        let keys = self.key_list();
        lemma_sorted_distinct(keys);
        lemma_in_order(keys);
        keys.unique_seq_to_set();
        assert(self@.dom() =~= keys.to_set());
        assert(self.raw().dom() =~= keys.to_set());
        assert forall|i: int| 0 <= i < keys.len() implies {
            &&& self@.contains_key(#[trigger] keys[i])
            &&& self@[keys[i]] == self.value_list()[i]@
            &&& self.raw()[keys[i]] == self.value_list()[i]
        } by {
            assert(keys.contains(keys[i]));
            let k = keys.index_of(keys[i]);
            assert(keys[k] == keys[i]);
        }
    }

    proof fn lemma_slot_decides(&self, key: Seq<char>, slot: int)
        requires
            self.wf(),
            is_slot(self.key_list(), key, slot),
        ensures
            self@.contains_key(key) <==> slot < self.key_list().len() && self.key_list()[slot]
                == key,
            slot < self.key_list().len() && self.key_list()[slot] != key ==> text_before(
                key,
                self.key_list()[slot],
            ),
    {
        let keys = self.key_list();
        self.lemma_lists();
        lemma_text_before_asymmetric(key, key);
        if keys.contains(key) {
            let i = choose|i: int| 0 <= i < keys.len() && keys[i] == key;
            if i < slot {
                assert(text_before(keys[i], key));
            } else if slot < i {
                assert(text_before(keys[slot], keys[i]));
            }
        }
        if slot < keys.len() {
            lemma_text_before_total(keys[slot], key);
        }
    }

    /// A map without entries.
    pub fn new() -> (r: Self)
        ensures
            r.wf(),
            r@ == Map::<Seq<char>, V::V>::empty(),
            r.raw() == Map::<Seq<char>, V>::empty(),
            r.key_list() == Seq::<Seq<char>>::empty(),
    {
        let r = PathMap { keys: Vec::new(), values: Vec::new() };
        assert(r.key_list() =~= Seq::empty());
        assert(r@ =~= Map::empty());
        assert(r.raw() =~= Map::empty());
        r
    }

    /// How many keys there are.
    pub fn len(&self) -> (r: usize)
        requires
            self.wf(),
        ensures
            r == self@.dom().len(),
            r == self.key_list().len(),
    {
        proof {
            self.lemma_lists();
        }
        self.keys.len()
    }

    fn slot(&self, key: &str) -> (r: usize)
        requires
            self.wf(),
        ensures
            is_slot(self.key_list(), key@, r as int),
            self@.contains_key(key@) <==> r < self.key_list().len() && self.key_list()[r as int]
                == key@,
            r <= self.keys@.len(),
    {
        let mut low: usize = 0;
        let mut high: usize = self.keys.len();
        while low < high
            invariant
                self.wf(),
                low <= high <= self.keys@.len(),
                forall|i: int| 0 <= i < low ==> text_before(#[trigger] self.key_list()[i], key@),
                forall|i: int|
                    high <= i < self.keys@.len() ==> !text_before(
                        #[trigger] self.key_list()[i],
                        key@,
                    ),
            decreases high - low,
        {
            let middle: usize = low + (high - low) / 2;
            assert(self.key_list()[middle as int] == self.keys@[middle as int]@);
            if text_less(self.keys[middle].as_str(), key) {
                assert forall|i: int| 0 <= i < middle + 1 implies text_before(
                    #[trigger] self.key_list()[i],
                    key@,
                ) by {
                    if i < middle {
                        lemma_text_before_transitive(
                            self.key_list()[i],
                            self.key_list()[middle as int],
                            key@,
                        );
                    }
                }
                low = middle + 1;
            } else {
                assert forall|i: int| middle <= i < self.keys@.len() implies !text_before(
                    #[trigger] self.key_list()[i],
                    key@,
                ) by {
                    if middle < i && text_before(self.key_list()[i], key@) {
                        lemma_text_before_transitive(
                            self.key_list()[middle as int],
                            self.key_list()[i],
                            key@,
                        );
                    }
                }
                high = middle;
            }
        }
        proof {
            self.lemma_slot_decides(key@, low as int);
        }
        low
    }

    /// Where `key` stands in the order, if it is there.
    pub fn position(&self, key: &str) -> (r: Option<usize>)
        requires
            self.wf(),
        ensures
            match r {
                Some(i) => {
                    &&& i < self.key_list().len()
                    &&& self.key_list()[i as int] == key@
                    &&& self@.contains_key(key@)
                    &&& self@[key@] == self.value_list()[i as int]@
                    &&& self.raw()[key@] == self.value_list()[i as int]
                    &&& self.raw().contains_key(key@)
                },
                None => !self@.contains_key(key@) && !self.raw().contains_key(key@),
            },
    {
        proof {
            self.lemma_lists();
        }
        let slot = self.slot(key);
        if slot < self.keys.len() && same_text(self.keys[slot].as_str(), key) {
            Some(slot)
        } else {
            None
        }
    }

    pub fn contains(&self, key: &str) -> (r: bool)
        requires
            self.wf(),
        ensures
            r == self@.contains_key(key@),
    {
        self.position(key).is_some()
    }

    pub fn get(&self, key: &str) -> (r: Option<&V>)
        requires
            self.wf(),
        ensures
            match r {
                Some(value) => {
                    &&& self@.contains_key(key@)
                    &&& self@[key@] == value@
                    &&& self.raw().contains_key(key@)
                    &&& self.raw()[key@] == *value
                },
                None => !self@.contains_key(key@),
            },
    {
        match self.position(key) {
            Some(i) => Some(&self.values[i]),
            None => None,
        }
    }

    /// The key at position `i` of the order.
    pub fn key_at(&self, i: usize) -> (r: &String)
        requires
            self.wf(),
            i < self.key_list().len(),
        ensures
            r@ == self.key_list()[i as int],
            self@.contains_key(r@),
            self@[r@] == self.value_list()[i as int]@,
    {
        proof {
            self.lemma_lists();
        }
        &self.keys[i]
    }

    /// The value at position `i` of the order.
    pub fn value_at(&self, i: usize) -> (r: &V)
        requires
            self.wf(),
            i < self.key_list().len(),
        ensures
            *r == self.value_list()[i as int],
            self@.contains_key(self.key_list()[i as int]),
            self@[self.key_list()[i as int]] == r@,
            self.raw()[self.key_list()[i as int]] == *r,
    {
        proof {
            self.lemma_lists();
        }
        &self.values[i]
    }

    proof fn lemma_value_replaced(&self, before: &Self, i: int)
        requires
            before.wf(),
            0 <= i < before.keys@.len(),
            self.keys@ == before.keys@,
            self.values@ == before.values@.update(i, self.values@[i]),
        ensures
            self.wf(),
            self.key_list() == before.key_list(),
            self.value_list() == before.value_list().update(i, self.values@[i]),
            self@ == before@.insert(before.key_list()[i], self.values@[i]@),
            self.raw() == before.raw().insert(before.key_list()[i], self.values@[i]),
    {
        self.lemma_lists();
        before.lemma_lists();
        let keys = self.key_list();
        assert(self@ =~= before@.insert(keys[i], self.values@[i]@)) by {
            assert forall|key: Seq<char>| self@.contains_key(key) implies self@[key]
                == before@.insert(keys[i], self.values@[i]@)[key] by {
                let k = keys.index_of(key);
                assert(keys[k] == key);
                if k != i {
                    assert(keys[k] != keys[i]);
                    assert(before@[before.key_list()[k]] == before.value_list()[k]@);
                }
                assert(self@[self.key_list()[k]] == self.value_list()[k]@);
            }
        }
        assert(self.raw() =~= before.raw().insert(keys[i], self.values@[i])) by {
            assert forall|key: Seq<char>| self.raw().contains_key(key) implies self.raw()[key]
                == before.raw().insert(keys[i], self.values@[i])[key] by {
                let k = keys.index_of(key);
                assert(keys[k] == key);
                if k != i {
                    assert(keys[k] != keys[i]);
                    assert(before.raw()[before.key_list()[k]] == before.value_list()[k]);
                }
                assert(self.raw()[self.key_list()[k]] == self.value_list()[k]);
            }
        }
    }

    /// Replace the value at position `i` of the order.
    pub fn set_at(&mut self, i: usize, value: V)
        requires
            old(self).wf(),
            i < old(self).key_list().len(),
        ensures
            final(self).wf(),
            final(self).key_list() == old(self).key_list(),
            final(self).value_list() == old(self).value_list().update(i as int, value),
            final(self)@ == old(self)@.insert(old(self).key_list()[i as int], value@),
            final(self).raw() == old(self).raw().insert(old(self).key_list()[i as int], value),
    {
        self.values.set(i, value);
        proof {
            self.lemma_value_replaced(old(self), i as int);
        }
    }

    /// Bind `key` to `value`.
    pub fn insert(&mut self, key: String, value: V)
        requires
            old(self).wf(),
        ensures
            final(self).wf(),
            final(self)@ == old(self)@.insert(key@, value@),
            final(self).raw() == old(self).raw().insert(key@, value),
            old(self)@.contains_key(key@) ==> final(self).key_list() == old(self).key_list(),
    {
        let slot = self.slot(key.as_str());
        let ghost keys = self.key_list();
        proof {
            self.lemma_lists();
            self.lemma_slot_decides(key@, slot as int);
        }
        if slot < self.keys.len() && same_text(self.keys[slot].as_str(), key.as_str()) {
            self.set_at(slot, value);
            return;
        }
        let ghost name = key@;
        self.keys.insert(slot, key);
        self.values.insert(slot, value);
        proof {
            assert(self.key_list() =~= keys.insert(slot as int, name));
            self.lemma_entry_added(old(self), slot as int, name, value);
        }
    }

    proof fn lemma_entry_added(&self, before: &Self, slot: int, name: Seq<char>, value: V)
        requires
            before.wf(),
            is_slot(before.key_list(), name, slot),
            !before@.contains_key(name),
            self.key_list() == before.key_list().insert(slot, name),
            self.values@ == before.values@.insert(slot, value),
        ensures
            self.wf(),
            self@ == before@.insert(name, value@),
            self.raw() == before.raw().insert(name, value),
    {
        let keys = before.key_list();
        let after = self.key_list();
        before.lemma_lists();
        before.lemma_slot_decides(name, slot);
        lemma_sorted_insert(keys, name, slot);
        assert(self.keys@.len() == after.len());
        self.lemma_lists();
        assert forall|k: Seq<char>| self.raw().contains_key(k) <==> before.raw().insert(
            name,
            value,
        ).contains_key(k) by {
            if keys.contains(k) {
                let i = keys.index_of(k);
                assert(after[if i < slot { i } else { i + 1 }] == k);
            }
            if after.contains(k) && k != name {
                let i = after.index_of(k);
                assert(keys[if i < slot { i } else { i - 1 }] == k);
            }
            assert(after[slot] == name);
        }
        assert forall|k: Seq<char>| self.raw().contains_key(k) implies self.raw()[k]
            == before.raw().insert(name, value)[k] by {
            let i = after.index_of(k);
            assert(after.contains(k));
            assert(after[i] == k);
            assert(self.raw()[after[i]] == self.value_list()[i]);
            if i != slot {
                let a = if i < slot { i } else { i - 1 };
                assert(keys[a] == k);
                assert(before.raw()[keys[a]] == before.value_list()[a]);
            }
        }
        assert(self.raw() =~= before.raw().insert(name, value));
        assert forall|k: Seq<char>| self@.contains_key(k) implies self@[k] == before@.insert(
            name,
            value@,
        )[k] by {
            assert(self.raw().contains_key(k));
            if k != name {
                assert(before.raw().contains_key(k));
            }
        }
        assert(self@.dom() =~= before@.insert(name, value@).dom());
        assert(self@ =~= before@.insert(name, value@));
    }

    /// Remove `key` and hand out its value.
    pub fn remove(&mut self, key: &str) -> (r: Option<V>)
        requires
            old(self).wf(),
        ensures
            final(self).wf(),
            final(self)@ == old(self)@.remove(key@),
            final(self).raw() == old(self).raw().remove(key@),
            match r {
                Some(value) => {
                    &&& old(self)@.contains_key(key@)
                    &&& old(self)@[key@] == value@
                    &&& old(self).raw().contains_key(key@)
                    &&& old(self).raw()[key@] == value
                },
                None => !old(self)@.contains_key(key@) && *final(self) == *old(self),
            },
    {
        let slot = match self.position(key) {
            Some(slot) => slot,
            None => {
                assert(self@ =~= old(self)@.remove(key@));
                assert(self.raw() =~= old(self).raw().remove(key@));
                return None;
            },
        };
        let ghost keys = self.key_list();
        proof {
            self.lemma_lists();
        }
        self.keys.remove(slot);
        let value = self.values.remove(slot);
        proof {
            let after = self.key_list();
            assert(after =~= keys.remove(slot as int));
            assert forall|i: int, j: int| 0 <= i < j < after.len() implies text_before(
                #[trigger] after[i],
                #[trigger] after[j],
            ) by {
                let a = if i < slot { i } else { i + 1 };
                let b = if j < slot { j } else { j + 1 };
                assert(after[i] == keys[a] && after[j] == keys[b]);
            }
            self.lemma_lists();
            assert(self@ =~= old(self)@.remove(key@)) by {
                assert forall|k: Seq<char>| self@.contains_key(k) <==> old(self)@.remove(
                    key@,
                ).contains_key(k) by {
                    if keys.contains(k) && k != key@ {
                        let i = keys.index_of(k);
                        assert(after[if i < slot { i } else { i - 1 }] == k);
                    }
                    if after.contains(k) {
                        let i = after.index_of(k);
                        let a = if i < slot { i } else { i + 1 };
                        assert(keys[a] == k);
                        assert(keys[a] != keys[slot as int]);
                    }
                }
                assert forall|k: Seq<char>| self@.contains_key(k) implies self@[k] == old(
                    self,
                )@.remove(key@)[k] by {
                    let i = after.index_of(k);
                    let a = if i < slot { i } else { i + 1 };
                    assert(after[i] == k && keys[a] == k);
                    assert(self@[after[i]] == self.value_list()[i]@);
                    assert(old(self)@[keys[a]] == old(self).value_list()[a]@);
                }
            }
            assert(self.raw() =~= old(self).raw().remove(key@)) by {
                assert(self.raw().dom() =~= old(self).raw().remove(key@).dom());
                assert forall|k: Seq<char>| self.raw().contains_key(k) implies self.raw()[k] == old(
                    self,
                ).raw().remove(key@)[k] by {
                    let i = after.index_of(k);
                    let a = if i < slot { i } else { i + 1 };
                    assert(after.contains(k));
                    assert(after[i] == k && keys[a] == k);
                    assert(self.raw()[after[i]] == self.value_list()[i]);
                    assert(old(self).raw()[keys[a]] == old(self).value_list()[a]);
                }
            }
        }
        Some(value)
    }
}

impl<V: Duplicate> PathMap<V> {
    /// A copy with the same keys and values.
    pub fn duplicate(&self) -> (r: Self)
        requires
            self.wf(),
        ensures
            r.wf(),
            r@ == self@,
            r.key_list() == self.key_list(),
    {
        let mut keys: Vec<String> = Vec::new();
        let mut values: Vec<V> = Vec::new();
        let mut i: usize = 0;
        while i < self.keys.len()
            invariant
                self.wf(),
                i <= self.keys@.len(),
                keys@.len() == i,
                values@.len() == i,
                forall|k: int| 0 <= k < i ==> (#[trigger] keys@[k])@ == self.keys@[k]@,
                forall|k: int| 0 <= k < i ==> (#[trigger] values@[k])@ == self.values@[k]@,
            decreases self.keys.len() - i,
        {
            keys.push(self.keys[i].clone());
            values.push(self.values[i].duplicate());
            i = i + 1;
        }
        let r = PathMap { keys, values };
        proof {
            assert(r.key_list() =~= self.key_list());
            self.lemma_lists();
            assert(r@ =~= self@) by {
                assert forall|key: Seq<char>| self@.contains_key(key) implies r@[key]
                    == self@[key] by {
                    let k = self.key_list().index_of(key);
                    assert(self.key_list().contains(key));
                    assert(self.key_list()[k] == key);
                }
            }
        }
        r
    }
}

} // verus!
