//! The identity of one in-memory stream.

use vstd::prelude::*;

verus! {

/// A stream's number together with the in-memory instance that carries it. Two
/// instances may share a number; they are still different streams.
#[derive(Clone, Copy, Debug, PartialEq, Eq, Structural)]
pub struct StreamIdentity {
    pub id: u64,
    pub instance: u64,
}

impl StreamIdentity {
    pub fn from_parts(id: u64, instance: u64) -> (r: Self)
        ensures
            r.id == id,
            r.instance == instance,
    {
        StreamIdentity { id, instance }
    }
}

} // verus!
