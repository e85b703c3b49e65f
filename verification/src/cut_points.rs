//! Points at which a test holds one exact stream, to order what races with it.
//!
//! A registration knows a stream by its numbers only, so it neither keeps a
//! stream alive nor matches a replacement at the same path.

use crate::store::identity::StreamIdentity;
use vstd::prelude::*;

verus! {

/// Where a stream can be held.
#[derive(Clone, Copy, Debug, PartialEq, Eq, Structural)]
pub enum CutPoint {
    AppendAfterAppenderDropBeforeWalWait,
    AppendPostDurablePreVisible,
    FenceBeforeAppenderTransition,
    FenceAfterAppenderTransition,
    DeletionWatchRecheck,
    SubscriptionTransition,
    RegistryRemoval,
    ExpirationIndexRemoval,
    InventoryRemoval,
    MetadataLockBeforeUnlink,
    MetadataLockAfterUnlink,
    WalForgetBeforeDurableTails,
    WalForgetAndTailsCompleted,
    ForkSourceLease,
    ForkReferenceTransition,
    PhysicalSoftWriteEntry,
    PhysicalSoftWriteDisposition,
    PhysicalHardUnlinkEntry,
    PhysicalHardUnlinkDisposition,
}

/// One registration: whether its stream is held, and whether it was let go.
#[derive(Clone, Copy, Debug, PartialEq, Eq, Structural)]
pub struct Pause {
    pub lease: u64,
    pub point: CutPoint,
    pub stream: StreamIdentity,
    pub held: bool,
    pub released: bool,
}

/// What a stream that comes to a point does.
#[derive(Clone, Copy, Debug, PartialEq, Eq, Structural)]
pub enum Hit {
    /// Nobody waits for it there, or it is through already.
    Pass,
    /// It waits until the lease is let go.
    Wait(u64),
}

/// The registrations.
pub struct CutPoints {
    pauses: Vec<Pause>,
    next_lease: u64,
}

/// Whether a registration is for a stream at a point.
pub open spec fn covers(pause: Pause, point: CutPoint, stream: StreamIdentity) -> bool {
    pause.point == point && pause.stream == stream
}

/// Whether somebody waits for a stream at a point.
pub open spec fn is_covered(
    pauses: Seq<Pause>,
    point: CutPoint,
    stream: StreamIdentity,
) -> bool {
    exists|i: int| 0 <= i < pauses.len() && covers(#[trigger] pauses[i], point, stream)
}

/// The place of the registration for a stream at a point.
pub open spec fn place_of(pauses: Seq<Pause>, point: CutPoint, stream: StreamIdentity) -> int {
    choose|i: int| 0 <= i < pauses.len() && covers(#[trigger] pauses[i], point, stream)
}

/// Whether a lease is registered.
pub open spec fn has_lease(pauses: Seq<Pause>, lease: u64) -> bool {
    exists|i: int| 0 <= i < pauses.len() && (#[trigger] pauses[i]).lease == lease
}

/// The place of a lease.
pub open spec fn lease_place(pauses: Seq<Pause>, lease: u64) -> int {
    choose|i: int| 0 <= i < pauses.len() && (#[trigger] pauses[i]).lease == lease
}

/// What the arrival of a stream at a point does, and whether the stream waits.
pub open spec fn arrived(pauses: Seq<Pause>, point: CutPoint, stream: StreamIdentity) -> (
    Seq<Pause>,
    Hit,
) {
    let i = place_of(pauses, point, stream);
    if is_covered(pauses, point, stream) && !pauses[i].released && !pauses[i].held {
        (pauses.update(i, Pause { held: true, ..pauses[i] }), Hit::Wait(pauses[i].lease))
    } else {
        (pauses, Hit::Pass)
    }
}

/// The registrations with one let go.
pub open spec fn let_go(pauses: Seq<Pause>, lease: u64) -> Seq<Pause> {
    let i = lease_place(pauses, lease);
    if has_lease(pauses, lease) {
        pauses.update(i, Pause { released: true, ..pauses[i] })
    } else {
        pauses
    }
}

/// Whether no lease and no pair of point and stream is registered twice.
pub open spec fn registered_once(pauses: Seq<Pause>) -> bool {
    forall|i: int, j: int|
        0 <= i < j < pauses.len() ==> {
            let a = #[trigger] pauses[i];
            let b = #[trigger] pauses[j];
            a.lease != b.lease && !covers(a, b.point, b.stream)
        }
}

impl CutPoints {
    /// The registrations in the order of their leases.
    pub closed spec fn pauses(&self) -> Seq<Pause> {
        self.pauses@
    }

    /// The next lease.
    pub closed spec fn next(&self) -> u64 {
        self.next_lease
    }

    /// Leases and what they are for are distinct.
    pub open spec fn wf(&self) -> bool {
        &&& forall|i: int|
            0 <= i < self.pauses().len() ==> (#[trigger] self.pauses()[i]).lease < self.next()
        &&& forall|i: int, j: int|
            0 <= i < j < self.pauses().len() ==> {
                let a = #[trigger] self.pauses()[i];
                let b = #[trigger] self.pauses()[j];
                a.lease != b.lease && !covers(a, b.point, b.stream)
            }
    }

    /// No registrations.
    pub fn new() -> (r: Self)
        ensures
            r.wf(),
            r.pauses() == Seq::<Pause>::empty(),
            r.next() == 0,
    {
        CutPoints { pauses: Vec::new(), next_lease: 0 }
    }

    fn find(&self, point: CutPoint, stream: StreamIdentity) -> (r: Option<usize>)
        requires
            self.wf(),
        ensures
            match r {
                Some(i) => i < self.pauses().len() && is_covered(self.pauses(), point, stream)
                    && i == place_of(self.pauses(), point, stream),
                None => !is_covered(self.pauses(), point, stream),
            },
    {
        let mut i: usize = 0;
        while i < self.pauses.len()
            invariant
                self.wf(),
                i <= self.pauses@.len(),
                forall|k: int| 0 <= k < i ==> !covers(#[trigger] self.pauses@[k], point, stream),
            decreases self.pauses.len() - i,
        {
            if self.pauses[i].point == point && self.pauses[i].stream == stream {
                proof {
                    let p = place_of(self.pauses(), point, stream);
                    assert(covers(self.pauses()[i as int], point, stream));
                    assert(covers(self.pauses()[p], point, stream));
                    if p < i {
                        assert(!covers(self.pauses@[p], point, stream));
                    } else if i < p {
                        assert(!covers(
                            self.pauses()[i as int],
                            self.pauses()[p].point,
                            self.pauses()[p].stream,
                        ));
                    }
                }
                return Some(i);
            }
            i = i + 1;
        }
        None
    }

    fn find_lease(&self, lease: u64) -> (r: Option<usize>)
        requires
            self.wf(),
        ensures
            match r {
                Some(i) => i < self.pauses().len() && has_lease(self.pauses(), lease) && i
                    == lease_place(self.pauses(), lease),
                None => !has_lease(self.pauses(), lease),
            },
    {
        let mut i: usize = 0;
        while i < self.pauses.len()
            invariant
                self.wf(),
                i <= self.pauses@.len(),
                forall|k: int| 0 <= k < i ==> (#[trigger] self.pauses@[k]).lease != lease,
            decreases self.pauses.len() - i,
        {
            if self.pauses[i].lease == lease {
                proof {
                    let p = lease_place(self.pauses(), lease);
                    assert(self.pauses()[i as int].lease == lease);
                    assert(self.pauses()[p].lease == lease);
                    if p < i {
                        assert(self.pauses@[p].lease != lease);
                    } else if i < p {
                        assert(self.pauses()[i as int].lease != self.pauses()[p].lease);
                    }
                }
                return Some(i);
            }
            i = i + 1;
        }
        None
    }

    /// Whether there is a lease left for another registration.
    pub fn has_leases_left(&self) -> (r: bool)
        ensures
            r == (self.next() < u64::MAX),
    {
        self.next_lease < u64::MAX
    }

    /// Whether somebody waits for a stream at a point already.
    pub fn is_registered(&self, point: CutPoint, stream: StreamIdentity) -> (r: bool)
        requires
            self.wf(),
        ensures
            r == is_covered(self.pauses(), point, stream),
    {
        self.find(point, stream).is_some()
    }

    /// Wait for one exact stream at a point. There is one registration for each.
    pub fn pause(&mut self, point: CutPoint, stream: StreamIdentity) -> (r: u64)
        requires
            old(self).wf(),
            old(self).next() < u64::MAX,
            !is_covered(old(self).pauses(), point, stream),
        ensures
            final(self).wf(),
            r == old(self).next(),
            final(self).next() == r + 1,
            final(self).pauses() == old(self).pauses().push(
                (Pause { lease: r, point, stream, held: false, released: false }),
            ),
    {
        let lease: u64 = self.next_lease;
        self.pauses.push(Pause { lease, point, stream, held: false, released: false });
        self.next_lease = lease + 1;
        proof {
            let before = old(self).pauses();
            let now = self.pauses();
            assert forall|i: int, j: int| 0 <= i < j < now.len() implies {
                let a = #[trigger] now[i];
                let b = #[trigger] now[j];
                a.lease != b.lease && !covers(a, b.point, b.stream)
            } by {
                assert(now[i] == before[i]);
                if j < before.len() {
                    assert(now[j] == before[j]);
                } else {
                    assert(!covers(before[i], point, stream));
                }
            }
        }
        lease
    }

    /// A stream comes to a point. The first one there waits, unless it was let go
    /// already.
    pub fn hit(&mut self, point: CutPoint, stream: StreamIdentity) -> (r: Hit)
        requires
            old(self).wf(),
        ensures
            final(self).wf(),
            final(self).next() == old(self).next(),
            ({
                let before = old(self).pauses();
                let i = place_of(before, point, stream);
                if is_covered(before, point, stream) && !before[i].released && !before[i].held {
                    &&& r == Hit::Wait(before[i].lease)
                    &&& final(self).pauses() == before.update(
                        i,
                        (Pause { held: true, ..before[i] }),
                    )
                } else {
                    &&& r == Hit::Pass
                    &&& final(self).pauses() == before
                }
            }),
            (final(self).pauses(), r) == arrived(old(self).pauses(), point, stream),
    {
        match self.find(point, stream) {
            None => Hit::Pass,
            Some(i) => {
                let mut pause = self.pauses[i];
                if pause.released || pause.held {
                    return Hit::Pass;
                }
                pause.held = true;
                self.set_pause(i, pause);
                Hit::Wait(pause.lease)
            },
        }
    }

    fn set_pause(&mut self, i: usize, pause: Pause)
        requires
            old(self).wf(),
            i < old(self).pauses().len(),
            pause.lease == old(self).pauses()[i as int].lease,
            covers(pause, old(self).pauses()[i as int].point, old(self).pauses()[i as int].stream),
        ensures
            final(self).wf(),
            final(self).next() == old(self).next(),
            final(self).pauses() == old(self).pauses().update(i as int, pause),
    {
        self.pauses.set(i, pause);
        proof {
            let before = old(self).pauses();
            let now = self.pauses();
            assert forall|k: int| 0 <= k < now.len() implies (#[trigger] now[k]).lease
                == before[k].lease && now[k].point == before[k].point && now[k].stream
                == before[k].stream by {}
            assert forall|k: int| 0 <= k < now.len() implies (#[trigger] now[k]).lease
                < self.next() by {
                assert(before[k].lease < old(self).next());
            }
            assert forall|a: int, b: int| 0 <= a < b < now.len() implies {
                let x = #[trigger] now[a];
                let y = #[trigger] now[b];
                x.lease != y.lease && !covers(x, y.point, y.stream)
            } by {
                assert(before[a].lease != before[b].lease && !covers(
                    before[a],
                    before[b].point,
                    before[b].stream,
                ));
            }
        }
    }

    /// Whether the stream of a lease has come.
    pub fn is_held(&self, lease: u64) -> (r: bool)
        requires
            self.wf(),
        ensures
            r == (has_lease(self.pauses(), lease) && self.pauses()[lease_place(
                self.pauses(),
                lease,
            )].held),
    {
        match self.find_lease(lease) {
            Some(i) => self.pauses[i].held,
            None => false,
        }
    }

    /// Whether a stream that waits for a lease may go on: it was let go, or the
    /// lease is over.
    pub fn may_go_on(&self, lease: u64) -> (r: bool)
        requires
            self.wf(),
        ensures
            r == (!has_lease(self.pauses(), lease) || self.pauses()[lease_place(
                self.pauses(),
                lease,
            )].released),
    {
        match self.find_lease(lease) {
            Some(i) => self.pauses[i].released,
            None => true,
        }
    }

    /// Let the stream of a lease go on.
    pub fn release(&mut self, lease: u64)
        requires
            old(self).wf(),
        ensures
            final(self).wf(),
            final(self).next() == old(self).next(),
            ({
                let before = old(self).pauses();
                let i = lease_place(before, lease);
                final(self).pauses() == (if has_lease(before, lease) {
                    before.update(i, (Pause { released: true, ..before[i] }))
                } else {
                    before
                })
            }),
            final(self).pauses() == let_go(old(self).pauses(), lease),
    {
        match self.find_lease(lease) {
            Some(i) => {
                let mut pause = self.pauses[i];
                pause.released = true;
                self.set_pause(i, pause);
            },
            None => {},
        }
    }

    /// End a lease. Its stream goes on, and only its own registration goes.
    pub fn end_lease(&mut self, lease: u64)
        requires
            old(self).wf(),
        ensures
            final(self).wf(),
            final(self).next() == old(self).next(),
            ({
                let before = old(self).pauses();
                final(self).pauses() == (if has_lease(before, lease) {
                    before.remove(lease_place(before, lease))
                } else {
                    before
                })
            }),
            !has_lease(final(self).pauses(), lease),
    {
        match self.find_lease(lease) {
            Some(i) => {
                let _ = self.pauses.remove(i);
                proof {
                    let before = old(self).pauses();
                    let now = self.pauses();
                    assert(now =~= before.remove(i as int));
                    assert forall|k: int| 0 <= k < now.len() implies (#[trigger] now[k])
                        == before[if k < i {
                        k
                    } else {
                        k + 1
                    }] by {}
                    assert forall|k: int| 0 <= k < now.len() implies (#[trigger] now[k]).lease
                        != lease by {
                        let j = if k < i {
                            k
                        } else {
                            k + 1
                        };
                        assert(now[k] == before[j]);
                        if j < i {
                            assert(before[j].lease != before[i as int].lease);
                        } else {
                            assert(before[i as int].lease != before[j].lease);
                        }
                    }
                    assert forall|a: int, b: int| 0 <= a < b < now.len() implies {
                        let x = #[trigger] now[a];
                        let y = #[trigger] now[b];
                        x.lease != y.lease && !covers(x, y.point, y.stream)
                    } by {
                        let c = if a < i {
                            a
                        } else {
                            a + 1
                        };
                        let d = if b < i {
                            b
                        } else {
                            b + 1
                        };
                        assert(now[a] == before[c] && now[b] == before[d]);
                        assert(before[c].lease != before[d].lease);
                    }
                    assert forall|k: int| 0 <= k < now.len() implies (#[trigger] now[k]).lease
                        < self.next() by {
                        let j = if k < i {
                            k
                        } else {
                            k + 1
                        };
                        assert(before[j].lease < old(self).next());
                    }
                }
            },
            None => {},
        }
    }
}

/// A registration for one stream never holds another one with the same number at
/// the same point.
pub proof fn law_replacement_is_not_held(
    pause: Pause,
    point: CutPoint,
    stream: StreamIdentity,
    replacement: StreamIdentity,
)
    requires
        covers(pause, point, stream),
        stream.id == replacement.id,
        stream.instance != replacement.instance,
    ensures
        !covers(pause, point, replacement),
{
}

/// A registration holds the first arrival of its stream at its point, and no later
/// one; once it was let go it holds none. Other streams and other points pass.
pub proof fn law_first_arrival_waits(
    pauses: Seq<Pause>,
    i: int,
    point: CutPoint,
    stream: StreamIdentity,
)
    requires
        registered_once(pauses),
        0 <= i < pauses.len(),
    ensures
        ({
            let pause = pauses[i];
            let (after, hit) = arrived(pauses, pause.point, pause.stream);
            &&& !pause.held && !pause.released ==> {
                &&& hit == Hit::Wait(pause.lease)
                &&& after[i].held
                &&& after[i].lease == pause.lease
                &&& arrived(after, pause.point, pause.stream).1 == Hit::Pass
            }
            &&& pause.held || pause.released ==> hit == Hit::Pass && after == pauses
            &&& arrived(let_go(pauses, pause.lease), pause.point, pause.stream).1 == Hit::Pass
            &&& let_go(pauses, pause.lease)[i].released
            &&& (forall|k: int|
                0 <= k < pauses.len() ==> (#[trigger] pauses[k]).point != point || pauses[k].stream
                    != stream) ==> arrived(pauses, point, stream) == (pauses, Hit::Pass)
        }),
{
    let pause = pauses[i];
    assert(covers(pauses[i], pause.point, pause.stream));
    let at = place_of(pauses, pause.point, pause.stream);
    assert(at == i) by {
        if at < i {
            assert(!covers(pauses[at], pauses[i].point, pauses[i].stream));
        }
        if i < at {
            assert(!covers(pauses[i], pauses[at].point, pauses[at].stream));
        }
    }
    assert(has_lease(pauses, pause.lease));
    let own = lease_place(pauses, pause.lease);
    assert(own == i) by {
        if own < i {
            assert(pauses[own].lease != pauses[i].lease);
        }
        if i < own {
            assert(pauses[i].lease != pauses[own].lease);
        }
    }
    let after = arrived(pauses, pause.point, pause.stream).0;
    lemma_same_place(pauses, after, i);
    lemma_same_place(pauses, let_go(pauses, pause.lease), i);
}

proof fn lemma_same_place(pauses: Seq<Pause>, after: Seq<Pause>, i: int)
    requires
        registered_once(pauses),
        0 <= i < pauses.len(),
        after.len() == pauses.len(),
        forall|k: int|
            0 <= k < pauses.len() ==> (#[trigger] after[k]).point == pauses[k].point
                && after[k].stream == pauses[k].stream,
    ensures
        place_of(after, pauses[i].point, pauses[i].stream) == i,
{
    let point = pauses[i].point;
    let stream = pauses[i].stream;
    assert(covers(after[i], point, stream));
    let at = place_of(after, point, stream);
    assert(covers(after[at], point, stream));
    if at < i {
        assert(!covers(pauses[at], pauses[i].point, pauses[i].stream));
    }
    if i < at {
        assert(!covers(pauses[i], pauses[at].point, pauses[at].stream));
    }
}

} // verus!
