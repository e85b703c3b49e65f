//! When the subscriptions are written down, and in which order.

use vstd::prelude::*;

verus! {

/// How long a writer waits after its first failure, in milliseconds.
pub const FIRST_WRITE_DELAY_MS: u64 = 100;

/// How long a writer waits at most after a failure, in milliseconds.
pub const MAX_WRITE_DELAY_MS: u64 = 10_000;

/// The order of snapshots: which number was given out last, and which one is
/// on disk.
pub struct SnapshotOrder {
    pub issued: u64,
    pub written: u64,
}

impl SnapshotOrder {
    /// Nothing was written yet.
    pub fn new() -> (r: SnapshotOrder)
        ensures
            r.issued == 0,
            r.written == 0,
    {
        SnapshotOrder { issued: 0, written: 0 }
    }

    /// Number a snapshot.
    pub fn next(&mut self) -> (r: u64)
        ensures
            r == (if old(self).issued == u64::MAX {
                0
            } else {
                (old(self).issued + 1) as u64
            }),
            final(self).issued == r,
            final(self).written == old(self).written,
    {
        self.issued = self.issued.wrapping_add(1);
        self.issued
    }

    /// Whether a snapshot is newer than what is on disk.
    pub fn is_newer(&self, sequence: u64) -> (r: bool)
        ensures
            r == (sequence > self.written),
    {
        sequence > self.written
    }

    /// Note what became of a snapshot: written, or left alone because it was
    /// not newer, or failed. The result says whether it counts as kept.
    pub fn settle(&mut self, sequence: u64, wrote: bool) -> (r: bool)
        ensures
            r == (sequence <= old(self).written || wrote),
            final(self).issued == old(self).issued,
            final(self).written == written_after(old(self).written, sequence, wrote),
            final(self).written >= old(self).written,
    {
        if sequence <= self.written {
            return true;
        }
        if wrote {
            self.written = sequence;
        }
        wrote
    }
}

/// Which number is on disk once a snapshot was settled.
pub open spec fn written_after(written: u64, sequence: u64, wrote: bool) -> u64 {
    if sequence > written && wrote {
        sequence
    } else {
        written
    }
}

/// How the write of a snapshot ends. The file is replaced as a whole; a write
/// may still fail after that.
pub enum WriteEnd {
    Written,
    FailedBefore,
    FailedAfter,
}

/// A snapshot that is to be kept, and how its write ends if it is made.
pub struct Offer {
    pub sequence: u64,
    pub snapshot: Seq<u8>,
    pub end: WriteEnd,
}

/// What is on disk, next to the number that is noted for it.
pub struct OnDisk {
    pub written: u64,
    pub file: Seq<u8>,
}

impl OnDisk {
    /// What is on disk after a snapshot was offered: it is written only if it is
    /// newer than the number that is noted.
    pub open spec fn offered(self, offer: Offer) -> OnDisk {
        let wrote = offer.end is Written;
        OnDisk {
            written: written_after(self.written, offer.sequence, wrote),
            file: if offer.sequence > self.written && !(offer.end is FailedBefore) {
                offer.snapshot
            } else {
                self.file
            },
        }
    }

    /// What is on disk after several snapshots were offered, one after another.
    pub open spec fn offered_all(self, offers: Seq<Offer>) -> OnDisk
        decreases offers.len(),
    {
        if offers.len() == 0 {
            self
        } else {
            self.offered_all(offers.drop_last()).offered(offers.last())
        }
    }
}

/// A snapshot that is not newer changes nothing; a newer one that is written is
/// on disk with its number; and one that fails leaves the number alone.
pub proof fn law_snapshot_is_settled(disk: OnDisk, offer: Offer)
    ensures
        offer.sequence <= disk.written ==> disk.offered(offer) == disk,
        offer.sequence > disk.written && offer.end is Written ==> disk.offered(offer) == (OnDisk {
            written: offer.sequence,
            file: offer.snapshot,
        }),
        !(offer.end is Written) ==> disk.offered(offer).written == disk.written,
        offer.end is FailedBefore ==> disk.offered(offer) == disk,
{
}

/// Whatever order snapshots come in, the number never falls and becomes the
/// greatest of those written, and the file holds the snapshot of that number. A
/// write that fails after it replaced the file is left out: its snapshot stays
/// without its number being noted.
pub proof fn law_newest_snapshot_is_kept(disk: OnDisk, offers: Seq<Offer>)
    requires
        forall|i: int| 0 <= i < offers.len() ==> !((#[trigger] offers[i]).end is FailedAfter),
    ensures
        ({
            let end = disk.offered_all(offers);
            &&& end.written >= disk.written
            &&& forall|i: int|
                0 <= i < offers.len() && (#[trigger] offers[i]).end is Written
                    ==> offers[i].sequence <= end.written
            &&& end == disk || exists|i: int|
                0 <= i < offers.len() && (#[trigger] offers[i]).end is Written && end == (OnDisk {
                    written: offers[i].sequence,
                    file: offers[i].snapshot,
                })
        }),
    decreases offers.len(),
{
    if offers.len() > 0 {
        let front = offers.drop_last();
        let last = offers[offers.len() - 1];
        assert forall|i: int| 0 <= i < front.len() implies #[trigger] front[i] == offers[i] by {}
        law_newest_snapshot_is_kept(disk, front);
        let middle = disk.offered_all(front);
        let end = disk.offered_all(offers);
        assert forall|i: int| 0 <= i < offers.len() && (#[trigger] offers[i]).end is Written implies
            offers[i].sequence <= end.written by {
            if i < front.len() {
                assert(front[i].end is Written);
            }
        }
        if last.sequence > middle.written && last.end is Written {
            assert(offers[offers.len() - 1].end is Written);
        } else {
            assert(end == middle);
            if end != disk {
                let i = choose|i: int|
                    0 <= i < front.len() && (#[trigger] front[i]).end is Written && middle == (
                    OnDisk { written: front[i].sequence, file: front[i].snapshot });
                assert(offers[i].end is Written);
            }
        }
    }
}

/// The writers that write changes down in the background. Several changes in a
/// row are written together.
pub struct BackgroundWriters {
    pub dirty_revision: u64,
    pub scheduled: bool,
    pub active: usize,
}

impl BackgroundWriters {
    /// No change, no writer.
    pub fn new() -> (r: BackgroundWriters)
        ensures
            r.dirty_revision == 0,
            !r.scheduled,
            r.active == 0,
    {
        BackgroundWriters { dirty_revision: 0, scheduled: false, active: 0 }
    }

    /// Note a change, and say whether a writer has to be started for it. A
    /// writer that is scheduled already will see the change.
    pub fn note_change(&mut self) -> (r: bool)
        requires
            old(self).active < usize::MAX,
        ensures
            r == !old(self).scheduled,
            final(self).scheduled,
            final(self).dirty_revision == (if old(self).dirty_revision == u64::MAX {
                0
            } else {
                (old(self).dirty_revision + 1) as u64
            }),
            final(self).active == (if r {
                old(self).active + 1
            } else {
                old(self).active as int
            }),
    {
        self.dirty_revision = self.dirty_revision.wrapping_add(1);
        if self.scheduled {
            return false;
        }
        self.scheduled = true;
        self.active = self.active + 1;
        true
    }

    /// Whether a writer that wrote what stood at `revision` has to go on
    /// because of changes since then.
    pub fn wrote(&mut self, revision: u64) -> (r: bool)
        ensures
            r == (old(self).dirty_revision != revision),
            final(self).scheduled == r,
            final(self).dirty_revision == old(self).dirty_revision,
            final(self).active == old(self).active,
    {
        self.scheduled = self.dirty_revision != revision;
        self.scheduled
    }

    /// Note that a writer ended, and say whether it was the last one.
    pub fn ended(&mut self) -> (r: bool)
        requires
            old(self).active > 0,
        ensures
            final(self).active == old(self).active - 1,
            r == (final(self).active == 0),
            final(self).scheduled == old(self).scheduled,
            final(self).dirty_revision == old(self).dirty_revision,
    {
        self.active = self.active - 1;
        self.active == 0
    }
}

/// How long a writer waits before it tries again, given how long it waited
/// before: twice as long each time, within limits.
pub fn next_write_delay_ms(delay_ms: u64) -> (r: u64)
    ensures
        r == (if delay_ms == 0 {
            FIRST_WRITE_DELAY_MS as int
        } else if 2 * delay_ms > MAX_WRITE_DELAY_MS {
            MAX_WRITE_DELAY_MS as int
        } else {
            2 * delay_ms
        }),
{
    if delay_ms == 0 {
        FIRST_WRITE_DELAY_MS
    } else {
        if delay_ms > MAX_WRITE_DELAY_MS / 2 {
            MAX_WRITE_DELAY_MS
        } else {
            2 * delay_ms
        }
    }
}

/// How many subscriptions there are, together with creations under way that
/// may have looked at streams. While it is zero, appends concern nobody.
pub struct SubscriptionCount {
    pub count: usize,
}

impl SubscriptionCount {
    /// Reserve a place for a creation before it looks at any stream.
    pub fn reserve(&mut self)
        requires
            old(self).count < usize::MAX,
        ensures
            final(self).count == old(self).count + 1,
    {
        self.count = self.count + 1;
    }

    /// End a creation: its place stays if there is a new subscription.
    pub fn end_creation(&mut self, created: bool)
        requires
            old(self).count > 0,
        ensures
            final(self).count == (if created {
                old(self).count as int
            } else {
                old(self).count - 1
            }),
    {
        if !created {
            self.count = self.count - 1;
        }
    }

    /// Note that a subscription is gone.
    pub fn removed(&mut self)
        requires
            old(self).count > 0,
        ensures
            final(self).count == old(self).count - 1,
    {
        self.count = self.count - 1;
    }

    /// Whether appends concern nobody.
    pub fn idle(&self) -> (r: bool)
        ensures
            r == (self.count == 0),
    {
        self.count == 0
    }
}

/// A writer waits a tenth of a second at first, then twice as long each time, and
/// never more than ten seconds.
pub proof fn law_write_delay_doubles(delay_ms: u64, next_ms: u64)
    requires
        call_ensures(next_write_delay_ms, (delay_ms,), next_ms),
    ensures
        delay_ms == 0 ==> next_ms == 100,
        0 < delay_ms <= 5_000 ==> next_ms == 2 * delay_ms,
        delay_ms > 5_000 ==> next_ms == 10_000,
{
}

} // verus!
