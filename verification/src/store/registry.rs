//! The registry of streams: which stream is at which path.

use dashmap::mapref::entry::Entry;
use dashmap::DashMap;
use vstd::prelude::*;

verus! {

/// A concurrent map.
#[verifier::external_type_specification]
#[verifier::external_body]
#[verifier::reject_recursive_types(K)]
#[verifier::reject_recursive_types(V)]
#[verifier::reject_recursive_types(S)]
pub struct ExDashMap<K, V, S>(DashMap<K, V, S>);

/// Which stream is at which path.
pub uninterp spec fn registered(map: DashMap<String, u64>) -> Map<Seq<char>, u64>;

/// `DashMap::new`: nothing is in the map.
#[verifier::external_body]
pub(crate) fn registry_new() -> (r: DashMap<String, u64>)
    ensures
        registered(r).dom() =~= Set::empty(),
{
    DashMap::new()
}

/// `DashMap::get`: the value at a key, if there is one.
#[verifier::external_body]
pub(crate) fn registry_get(map: &DashMap<String, u64>, path: &str) -> (r: Option<u64>)
    ensures
        match r {
            Some(instance) => registered(*map).contains_pair(path@, instance),
            None => !registered(*map).contains_key(path@),
        },
{
    map.get(path).map(|entry| *entry.value())
}

/// `DashMap::insert`: binds a key, and hands out what it was bound to before.
#[verifier::external_body]
pub(crate) fn registry_insert(map: &mut DashMap<String, u64>, path: String, instance: u64) -> (r:
    Option<u64>)
    ensures
        registered(*final(map)) == registered(*old(map)).insert(path@, instance),
        match r {
            Some(before) => registered(*old(map)).contains_pair(path@, before),
            None => !registered(*old(map)).contains_key(path@),
        },
{
    map.insert(path, instance)
}

/// `DashMap::entry`: binds a key unless it is bound already, and hands out what
/// it is bound to then.
#[verifier::external_body]
pub(crate) fn registry_claim(map: &mut DashMap<String, u64>, path: String, instance: u64) -> (r:
    Option<u64>)
    ensures
        match r {
            Some(present) => {
                &&& registered(*old(map)).contains_pair(path@, present)
                &&& registered(*final(map)) == registered(*old(map))
            },
            None => {
                &&& !registered(*old(map)).contains_key(path@)
                &&& registered(*final(map)) == registered(*old(map)).insert(path@, instance)
            },
        },
{
    match map.entry(path) {
        Entry::Occupied(entry) => Some(*entry.get()),
        Entry::Vacant(entry) => {
            entry.insert(instance);
            None
        },
    }
}

/// Whether a registered stream is the expected one.
fn is_instance(current: u64, expected: u64) -> (r: bool)
    ensures
        r == (current == expected),
{
    current == expected
}

/// `DashMap::remove_if`: removes a key if it is bound to the expected value, and
/// says whether it was.
#[verifier::external_body]
pub(crate) fn registry_remove_if(map: &mut DashMap<String, u64>, path: &str, expected: u64) -> (r:
    bool)
    ensures
        r == registered(*old(map)).contains_pair(path@, expected),
        registered(*final(map)) == (if r {
            registered(*old(map)).remove(path@)
        } else {
            registered(*old(map))
        }),
{
    map.remove_if(path, |_, current| is_instance(*current, expected)).is_some()
}

/// One registered stream.
pub struct Registration {
    pub path: String,
    pub instance: u64,
}

/// `DashMap::iter`: every entry once. The order is that of a hash table, so
/// nothing is said of it.
#[verifier::external_body]
pub(crate) fn registry_entries(map: &DashMap<String, u64>) -> (r: Vec<Registration>)
    ensures
        forall|i: int|
            0 <= i < r@.len() ==> registered(*map).contains_pair(
                (#[trigger] r@[i]).path@,
                r@[i].instance,
            ),
        forall|path: Seq<char>| #[trigger]
            registered(*map).contains_key(path) ==> exists|i: int|
                0 <= i < r@.len() && (#[trigger] r@[i]).path@ == path,
        forall|i: int, j: int|
            0 <= i < j < r@.len() ==> (#[trigger] r@[i]).path@ != (#[trigger] r@[j]).path@,
{
    map.iter()
        .map(|entry| Registration { path: entry.key().clone(), instance: *entry.value() })
        .collect()
}

} // verus!
