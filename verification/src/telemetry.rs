//! Measurements: which instruments there are, and what is recorded with them.
//!
//! Labels come from small closed sets. Paths, numbers of streams, producers and
//! offsets are never labels.

use crate::clock::{Moment, Span};
use crate::text::same_text;
use vstd::prelude::*;

verus! {

/// What is measured.
#[derive(Clone, Copy, Debug, PartialEq, Eq, Structural)]
pub enum Instrument {
    HttpRequests,
    AppendFsyncDuration,
    AppendFsyncBatchSize,
    AppendLockWait,
    AppendDuration,
    ReadDuration,
    ReadTailCache,
    ReadOffloadWait,
    ExpiryIndexEntries,
    ExpiryScanChecked,
    ExpiryScanDuration,
    ExpiryDue,
    ExpiryPassDueFraction,
    ExpiryOldestDueLag,
    ExpiryOutcome,
    ExpiryCleanupDuration,
    ExpiryReclaimedLocalBytes,
    ExpiryQueueDepth,
    ExpiryCleanupActive,
    ExpiryQueueRetries,
    ExpiryBulkGuardPaused,
    ExpiryClockGuardPaused,
    ExpiryClockDrift,
}

/// How an instrument keeps its values.
#[derive(Clone, Copy, Debug, PartialEq, Eq, Structural)]
pub enum InstrumentKind {
    Counter,
    CountGauge,
    RealGauge,
    CountHistogram,
    RealHistogram,
}

/// How the values of a histogram are sorted.
#[derive(Clone, Copy, Debug, PartialEq, Eq, Structural)]
pub enum Buckets {
    Latency,
    Batch,
    ClockDrift,
}

/// An instrument as it is announced. One without a unit has an empty one.
pub struct InstrumentInfo {
    pub name: &'static str,
    pub unit: &'static str,
    pub description: &'static str,
    pub kind: InstrumentKind,
    pub buckets: Option<Buckets>,
}

/// An instrument as it is announced, as a mathematical value.
#[verifier::ext_equal]
pub struct InfoView {
    pub name: Seq<char>,
    pub unit: Seq<char>,
    pub description: Seq<char>,
    pub kind: InstrumentKind,
    pub buckets: Option<Buckets>,
}

impl View for InstrumentInfo {
    type V = InfoView;

    open spec fn view(&self) -> InfoView {
        InfoView {
            name: self.name@,
            unit: self.unit@,
            description: self.description@,
            kind: self.kind,
            buckets: self.buckets,
        }
    }
}

/// How each instrument is announced.
pub open spec fn info_of(instrument: Instrument) -> InfoView {
    match instrument {
        Instrument::HttpRequests => InfoView {
            name: "ds.http.requests"@,
            unit: ""@,
            description: "HTTP requests handled, by method and status class."@,
            kind: InstrumentKind::Counter,
            buckets: None,
        },
        Instrument::AppendFsyncDuration => InfoView {
            name: "ds.append.fsync.duration"@,
            unit: "s"@,
            description: "Leader barrier-fsync duration for coalesced appends."@,
            kind: InstrumentKind::RealHistogram,
            buckets: Some(Buckets::Latency),
        },
        Instrument::AppendFsyncBatchSize => InfoView {
            name: "ds.append.fsync.batch_size"@,
            unit: ""@,
            description: "Appends coalesced into one group-commit fsync."@,
            kind: InstrumentKind::CountHistogram,
            buckets: Some(Buckets::Batch),
        },
        Instrument::AppendLockWait => InfoView {
            name: "ds.append.lock_wait.duration"@,
            unit: "s"@,
            description: "Time spent waiting for the per-stream append lock."@,
            kind: InstrumentKind::RealHistogram,
            buckets: Some(Buckets::Latency),
        },
        Instrument::AppendDuration => InfoView {
            name: "ds.append.duration"@,
            unit: "s"@,
            description: "End-to-end append handler duration, by outcome."@,
            kind: InstrumentKind::RealHistogram,
            buckets: Some(Buckets::Latency),
        },
        Instrument::ReadDuration => InfoView {
            name: "ds.read.duration"@,
            unit: "s"@,
            description: "Read handler duration, by live mode and cache result."@,
            kind: InstrumentKind::RealHistogram,
            buckets: Some(Buckets::Latency),
        },
        Instrument::ReadTailCache => InfoView {
            name: "ds.read.tail_cache"@,
            unit: ""@,
            description: "Resident tail-chunk cache hits / misses, by live mode."@,
            kind: InstrumentKind::Counter,
            buckets: None,
        },
        Instrument::ReadOffloadWait => InfoView {
            name: "ds.read.offload.wait"@,
            unit: "s"@,
            description: "Blocking-pool queue wait before a cold offloaded read runs."@,
            kind: InstrumentKind::RealHistogram,
            buckets: Some(Buckets::Latency),
        },
        Instrument::ExpiryIndexEntries => InfoView {
            name: "ds.expiry.index.entries"@,
            unit: ""@,
            description: "Current entries in the expiring-stream index."@,
            kind: InstrumentKind::CountGauge,
            buckets: None,
        },
        Instrument::ExpiryScanChecked => InfoView {
            name: "ds.expiry.scan.checked"@,
            unit: ""@,
            description: "Expiring-index entries checked by proactive scans."@,
            kind: InstrumentKind::Counter,
            buckets: None,
        },
        Instrument::ExpiryScanDuration => InfoView {
            name: "ds.expiry.scan.duration"@,
            unit: "s"@,
            description: "Duration of a bounded proactive expiry scan page."@,
            kind: InstrumentKind::RealHistogram,
            buckets: Some(Buckets::Latency),
        },
        Instrument::ExpiryDue => InfoView {
            name: "ds.expiry.due"@,
            unit: ""@,
            description: "Expired streams found by proactive scans."@,
            kind: InstrumentKind::Counter,
            buckets: None,
        },
        Instrument::ExpiryPassDueFraction => InfoView {
            name: "ds.expiry.pass.due_fraction"@,
            unit: "1"@,
            description: "Due fraction in the most recently completed scan pass."@,
            kind: InstrumentKind::RealGauge,
            buckets: None,
        },
        Instrument::ExpiryOldestDueLag => InfoView {
            name: "ds.expiry.lag"@,
            unit: "s"@,
            description: "Age past deadline of the oldest stream due in the current scan."@,
            kind: InstrumentKind::RealGauge,
            buckets: None,
        },
        Instrument::ExpiryOutcome => InfoView {
            name: "ds.expiry.outcome"@,
            unit: ""@,
            description: "Expiration decisions, by bounded outcome."@,
            kind: InstrumentKind::Counter,
            buckets: None,
        },
        Instrument::ExpiryCleanupDuration => InfoView {
            name: "ds.expiry.cleanup.duration"@,
            unit: "s"@,
            description: "End-to-end duration of one expiration cleanup attempt."@,
            kind: InstrumentKind::RealHistogram,
            buckets: Some(Buckets::Latency),
        },
        Instrument::ExpiryReclaimedLocalBytes => InfoView {
            name: "ds.expiry.reclaimed.local_bytes"@,
            unit: "By"@,
            description: "Local stream bytes successfully reclaimed by expiration."@,
            kind: InstrumentKind::Counter,
            buckets: None,
        },
        Instrument::ExpiryQueueDepth => InfoView {
            name: "ds.expiry.queue.depth"@,
            unit: ""@,
            description: "Current queued expiration cleanup jobs."@,
            kind: InstrumentKind::CountGauge,
            buckets: None,
        },
        Instrument::ExpiryCleanupActive => InfoView {
            name: "ds.expiry.cleanup.active"@,
            unit: ""@,
            description: "Current active expiration cleanup workers."@,
            kind: InstrumentKind::CountGauge,
            buckets: None,
        },
        Instrument::ExpiryQueueRetries => InfoView {
            name: "ds.expiry.queue.retries"@,
            unit: ""@,
            description: "Expiration cleanup attempts requeued for retry."@,
            kind: InstrumentKind::Counter,
            buckets: None,
        },
        Instrument::ExpiryBulkGuardPaused => InfoView {
            name: "ds.expiry.bulk_guard.paused"@,
            unit: ""@,
            description: "Sticky bulk-expiry safety pause (1 paused, 0 clear)."@,
            kind: InstrumentKind::CountGauge,
            buckets: None,
        },
        Instrument::ExpiryClockGuardPaused => InfoView {
            name: "ds.expiry.clock_guard.paused"@,
            unit: ""@,
            description: "Sticky clock-drift safety pause (1 paused, 0 clear)."@,
            kind: InstrumentKind::CountGauge,
            buckets: None,
        },
        Instrument::ExpiryClockDrift => InfoView {
            name: "ds.expiry.clock_drift"@,
            unit: "s"@,
            description: "Absolute wall/monotonic clock divergence."@,
            kind: InstrumentKind::RealHistogram,
            buckets: Some(Buckets::ClockDrift),
        },
    }
}

/// How an instrument is announced.
pub fn describe(instrument: Instrument) -> (r: InstrumentInfo)
    ensures
        r@ == info_of(instrument),
{
    match instrument {
        Instrument::HttpRequests => InstrumentInfo {
            name: "ds.http.requests",
            unit: "",
            description: "HTTP requests handled, by method and status class.",
            kind: InstrumentKind::Counter,
            buckets: None,
        },
        Instrument::AppendFsyncDuration => InstrumentInfo {
            name: "ds.append.fsync.duration",
            unit: "s",
            description: "Leader barrier-fsync duration for coalesced appends.",
            kind: InstrumentKind::RealHistogram,
            buckets: Some(Buckets::Latency),
        },
        Instrument::AppendFsyncBatchSize => InstrumentInfo {
            name: "ds.append.fsync.batch_size",
            unit: "",
            description: "Appends coalesced into one group-commit fsync.",
            kind: InstrumentKind::CountHistogram,
            buckets: Some(Buckets::Batch),
        },
        Instrument::AppendLockWait => InstrumentInfo {
            name: "ds.append.lock_wait.duration",
            unit: "s",
            description: "Time spent waiting for the per-stream append lock.",
            kind: InstrumentKind::RealHistogram,
            buckets: Some(Buckets::Latency),
        },
        Instrument::AppendDuration => InstrumentInfo {
            name: "ds.append.duration",
            unit: "s",
            description: "End-to-end append handler duration, by outcome.",
            kind: InstrumentKind::RealHistogram,
            buckets: Some(Buckets::Latency),
        },
        Instrument::ReadDuration => InstrumentInfo {
            name: "ds.read.duration",
            unit: "s",
            description: "Read handler duration, by live mode and cache result.",
            kind: InstrumentKind::RealHistogram,
            buckets: Some(Buckets::Latency),
        },
        Instrument::ReadTailCache => InstrumentInfo {
            name: "ds.read.tail_cache",
            unit: "",
            description: "Resident tail-chunk cache hits / misses, by live mode.",
            kind: InstrumentKind::Counter,
            buckets: None,
        },
        Instrument::ReadOffloadWait => InstrumentInfo {
            name: "ds.read.offload.wait",
            unit: "s",
            description: "Blocking-pool queue wait before a cold offloaded read runs.",
            kind: InstrumentKind::RealHistogram,
            buckets: Some(Buckets::Latency),
        },
        Instrument::ExpiryIndexEntries => InstrumentInfo {
            name: "ds.expiry.index.entries",
            unit: "",
            description: "Current entries in the expiring-stream index.",
            kind: InstrumentKind::CountGauge,
            buckets: None,
        },
        Instrument::ExpiryScanChecked => InstrumentInfo {
            name: "ds.expiry.scan.checked",
            unit: "",
            description: "Expiring-index entries checked by proactive scans.",
            kind: InstrumentKind::Counter,
            buckets: None,
        },
        Instrument::ExpiryScanDuration => InstrumentInfo {
            name: "ds.expiry.scan.duration",
            unit: "s",
            description: "Duration of a bounded proactive expiry scan page.",
            kind: InstrumentKind::RealHistogram,
            buckets: Some(Buckets::Latency),
        },
        Instrument::ExpiryDue => InstrumentInfo {
            name: "ds.expiry.due",
            unit: "",
            description: "Expired streams found by proactive scans.",
            kind: InstrumentKind::Counter,
            buckets: None,
        },
        Instrument::ExpiryPassDueFraction => InstrumentInfo {
            name: "ds.expiry.pass.due_fraction",
            unit: "1",
            description: "Due fraction in the most recently completed scan pass.",
            kind: InstrumentKind::RealGauge,
            buckets: None,
        },
        Instrument::ExpiryOldestDueLag => InstrumentInfo {
            name: "ds.expiry.lag",
            unit: "s",
            description: "Age past deadline of the oldest stream due in the current scan.",
            kind: InstrumentKind::RealGauge,
            buckets: None,
        },
        Instrument::ExpiryOutcome => InstrumentInfo {
            name: "ds.expiry.outcome",
            unit: "",
            description: "Expiration decisions, by bounded outcome.",
            kind: InstrumentKind::Counter,
            buckets: None,
        },
        Instrument::ExpiryCleanupDuration => InstrumentInfo {
            name: "ds.expiry.cleanup.duration",
            unit: "s",
            description: "End-to-end duration of one expiration cleanup attempt.",
            kind: InstrumentKind::RealHistogram,
            buckets: Some(Buckets::Latency),
        },
        Instrument::ExpiryReclaimedLocalBytes => InstrumentInfo {
            name: "ds.expiry.reclaimed.local_bytes",
            unit: "By",
            description: "Local stream bytes successfully reclaimed by expiration.",
            kind: InstrumentKind::Counter,
            buckets: None,
        },
        Instrument::ExpiryQueueDepth => InstrumentInfo {
            name: "ds.expiry.queue.depth",
            unit: "",
            description: "Current queued expiration cleanup jobs.",
            kind: InstrumentKind::CountGauge,
            buckets: None,
        },
        Instrument::ExpiryCleanupActive => InstrumentInfo {
            name: "ds.expiry.cleanup.active",
            unit: "",
            description: "Current active expiration cleanup workers.",
            kind: InstrumentKind::CountGauge,
            buckets: None,
        },
        Instrument::ExpiryQueueRetries => InstrumentInfo {
            name: "ds.expiry.queue.retries",
            unit: "",
            description: "Expiration cleanup attempts requeued for retry.",
            kind: InstrumentKind::Counter,
            buckets: None,
        },
        Instrument::ExpiryBulkGuardPaused => InstrumentInfo {
            name: "ds.expiry.bulk_guard.paused",
            unit: "",
            description: "Sticky bulk-expiry safety pause (1 paused, 0 clear).",
            kind: InstrumentKind::CountGauge,
            buckets: None,
        },
        Instrument::ExpiryClockGuardPaused => InstrumentInfo {
            name: "ds.expiry.clock_guard.paused",
            unit: "",
            description: "Sticky clock-drift safety pause (1 paused, 0 clear).",
            kind: InstrumentKind::CountGauge,
            buckets: None,
        },
        Instrument::ExpiryClockDrift => InstrumentInfo {
            name: "ds.expiry.clock_drift",
            unit: "s",
            description: "Absolute wall/monotonic clock divergence.",
            kind: InstrumentKind::RealHistogram,
            buckets: Some(Buckets::ClockDrift),
        },
    }
}

/// How much is recorded.
#[derive(Clone, Copy, Debug, PartialEq, Eq, Structural)]
pub enum Amount {
    Count(u64),
    Time(Span),
    /// `part` of `whole`; `whole` is never zero.
    Fraction { part: u64, whole: u64 },
}

/// The value of a label.
#[derive(Clone, Copy)]
pub enum LabelValue {
    Text(&'static str),
    Flag(bool),
}

/// The value of a label as a mathematical value.
pub enum LabelValueView {
    Text(Seq<char>),
    Flag(bool),
}

impl View for LabelValue {
    type V = LabelValueView;

    open spec fn view(&self) -> LabelValueView {
        match self {
            LabelValue::Text(text) => LabelValueView::Text(text@),
            LabelValue::Flag(flag) => LabelValueView::Flag(*flag),
        }
    }
}

/// A label.
#[derive(Clone, Copy)]
pub struct Label {
    pub name: &'static str,
    pub value: LabelValue,
}

/// A label as a mathematical value.
pub struct LabelView {
    pub name: Seq<char>,
    pub value: LabelValueView,
}

impl View for Label {
    type V = LabelView;

    open spec fn view(&self) -> LabelView {
        LabelView { name: self.name@, value: self.value@ }
    }
}

/// A text label.
pub open spec fn text_label(name: Seq<char>, value: Seq<char>) -> LabelView {
    LabelView { name, value: LabelValueView::Text(value) }
}

/// One recording.
pub struct Sample {
    pub instrument: Instrument,
    pub amount: Amount,
    pub labels: Vec<Label>,
}

/// One recording as a mathematical value.
#[verifier::ext_equal]
pub struct SampleView {
    pub instrument: Instrument,
    pub amount: Amount,
    pub labels: Seq<LabelView>,
}

impl View for Sample {
    type V = SampleView;

    open spec fn view(&self) -> SampleView {
        SampleView {
            instrument: self.instrument,
            amount: self.amount,
            labels: self.labels@.map_values(|label: Label| label@),
        }
    }
}

/// A recording without labels.
pub open spec fn plain(instrument: Instrument, amount: Amount) -> SampleView {
    SampleView { instrument, amount, labels: Seq::empty() }
}

/// A recording of a count without labels.
pub open spec fn counted(instrument: Instrument, n: u64) -> SampleView {
    plain(instrument, Amount::Count(n))
}

/// The recordings that wait to be exported. Until an exporter is installed
/// nothing is recorded.
pub struct Meters {
    installed: bool,
    samples: Vec<Sample>,
}

/// The waiting recordings as a mathematical value.
#[verifier::ext_equal]
pub struct MetersView {
    pub installed: bool,
    pub samples: Seq<SampleView>,
}

impl View for Meters {
    type V = MetersView;

    closed spec fn view(&self) -> MetersView {
        MetersView {
            installed: self.installed,
            samples: self.samples@.map_values(|sample: Sample| sample@),
        }
    }
}

impl MetersView {
    /// One recording more, if an exporter is installed.
    pub open spec fn with(self, sample: SampleView) -> MetersView {
        if self.installed {
            MetersView { samples: self.samples.push(sample), ..self }
        } else {
            self
        }
    }
}

impl Meters {
    /// No recordings, and no exporter unless one is installed.
    pub fn new(installed: bool) -> (r: Self)
        ensures
            r@ == (MetersView { installed, samples: Seq::empty() }),
    {
        let r = Meters { installed, samples: Vec::new() };
        assert(r@ =~= (MetersView { installed, samples: Seq::empty() }));
        r
    }

    /// Take out the waiting recordings.
    pub fn drain(&mut self) -> (r: Vec<Sample>)
        ensures
            r@.map_values(|sample: Sample| sample@) == old(self)@.samples,
            final(self)@ == (MetersView { samples: Seq::empty(), ..old(self)@ }),
    {
        let mut out: Vec<Sample> = Vec::new();
        std::mem::swap(&mut out, &mut self.samples);
        assert(self@ =~= (MetersView { samples: Seq::empty(), ..old(self)@ }));
        out
    }

    fn record(&mut self, instrument: Instrument, amount: Amount, labels: Vec<Label>)
        ensures
            final(self)@ == old(self)@.with(
                SampleView {
                    instrument,
                    amount,
                    labels: labels@.map_values(|label: Label| label@),
                },
            ),
    {
        if self.installed {
            let sample = Sample { instrument, amount, labels };
            let ghost before = self.samples@;
            self.samples.push(sample);
            assert(self.samples@.map_values(|sample: Sample| sample@) =~= before.map_values(
                |sample: Sample| sample@,
            ).push(sample@));
        }
    }

    fn record_plain(&mut self, instrument: Instrument, amount: Amount)
        ensures
            final(self)@ == old(self)@.with(plain(instrument, amount)),
    {
        let labels: Vec<Label> = Vec::new();
        assert(labels@.map_values(|label: Label| label@) =~= Seq::empty());
        self.record(instrument, amount, labels);
    }

    fn record_two(&mut self, instrument: Instrument, amount: Amount, first: Label, second: Label)
        ensures
            final(self)@ == old(self)@.with(
                SampleView { instrument, amount, labels: seq![first@, second@] },
            ),
    {
        let mut labels: Vec<Label> = Vec::new();
        labels.push(first);
        labels.push(second);
        assert(labels@.map_values(|label: Label| label@) =~= seq![first@, second@]);
        self.record(instrument, amount, labels);
    }
}

/// Count a request.
pub fn record_request(meters: &mut Meters, method: &'static str, status_class: &'static str)
    ensures
        final(meters)@ == old(meters)@.with(
            SampleView {
                instrument: Instrument::HttpRequests,
                amount: Amount::Count(1),
                labels: seq![
                    text_label("method"@, method@),
                    text_label("status_class"@, status_class@),
                ],
            },
        ),
{
    meters.record_two(
        Instrument::HttpRequests,
        Amount::Count(1),
        Label { name: "method", value: LabelValue::Text(method) },
        Label { name: "status_class", value: LabelValue::Text(status_class) },
    );
}

/// Record a sync and how many appends it covered.
pub fn record_fsync(meters: &mut Meters, time: Span, batch: u64)
    ensures
        final(meters)@ == old(meters)@.with(
            plain(Instrument::AppendFsyncDuration, Amount::Time(time)),
        ).with(counted(Instrument::AppendFsyncBatchSize, batch)),
{
    meters.record_plain(Instrument::AppendFsyncDuration, Amount::Time(time));
    meters.record_plain(Instrument::AppendFsyncBatchSize, Amount::Count(batch));
}

/// Record how long an append waited for its stream.
pub fn record_append_lock_wait(meters: &mut Meters, time: Span)
    ensures
        final(meters)@ == old(meters)@.with(plain(Instrument::AppendLockWait, Amount::Time(time))),
{
    meters.record_plain(Instrument::AppendLockWait, Amount::Time(time));
}

/// Record an append.
pub fn record_append(meters: &mut Meters, time: Span, outcome: &'static str, is_json: bool)
    ensures
        final(meters)@ == old(meters)@.with(
            SampleView {
                instrument: Instrument::AppendDuration,
                amount: Amount::Time(time),
                labels: seq![
                    text_label("outcome"@, outcome@),
                    LabelView { name: "is_json"@, value: LabelValueView::Flag(is_json) },
                ],
            },
        ),
{
    meters.record_two(
        Instrument::AppendDuration,
        Amount::Time(time),
        Label { name: "outcome", value: LabelValue::Text(outcome) },
        Label { name: "is_json", value: LabelValue::Flag(is_json) },
    );
}

/// The label for a cache that had something or not.
pub open spec fn cache_label_of(hit: bool) -> Seq<char> {
    if hit {
        "hit"@
    } else {
        "miss"@
    }
}

fn cache_label(hit: bool) -> (r: &'static str)
    ensures
        r@ == cache_label_of(hit),
{
    if hit {
        "hit"
    } else {
        "miss"
    }
}

/// Record a read.
pub fn record_read(meters: &mut Meters, time: Span, live: &'static str, cache_hit: bool)
    ensures
        final(meters)@ == old(meters)@.with(
            SampleView {
                instrument: Instrument::ReadDuration,
                amount: Amount::Time(time),
                labels: seq![
                    text_label("live"@, live@),
                    text_label("cache"@, cache_label_of(cache_hit)),
                ],
            },
        ),
{
    meters.record_two(
        Instrument::ReadDuration,
        Amount::Time(time),
        Label { name: "live", value: LabelValue::Text(live) },
        Label { name: "cache", value: LabelValue::Text(cache_label(cache_hit)) },
    );
}

/// Count a look into the resident tail.
pub fn record_tail_cache(meters: &mut Meters, hit: bool, live: &'static str)
    ensures
        final(meters)@ == old(meters)@.with(
            SampleView {
                instrument: Instrument::ReadTailCache,
                amount: Amount::Count(1),
                labels: seq![
                    text_label("result"@, cache_label_of(hit)),
                    text_label("live"@, live@),
                ],
            },
        ),
{
    meters.record_two(
        Instrument::ReadTailCache,
        Amount::Count(1),
        Label { name: "result", value: LabelValue::Text(cache_label(hit)) },
        Label { name: "live", value: LabelValue::Text(live) },
    );
}

/// Record how many streams are in the index of those that expire.
pub fn record_expiry_index_entries(meters: &mut Meters, entries: u64)
    ensures
        final(meters)@ == old(meters)@.with(counted(Instrument::ExpiryIndexEntries, entries)),
{
    meters.record_plain(Instrument::ExpiryIndexEntries, Amount::Count(entries));
}

/// Record a page of a scan.
pub fn record_expiry_scan(meters: &mut Meters, checked: u64, due: u64, time: Span)
    ensures
        final(meters)@ == old(meters)@.with(counted(Instrument::ExpiryScanChecked, checked)).with(
            counted(Instrument::ExpiryDue, due),
        ).with(plain(Instrument::ExpiryScanDuration, Amount::Time(time))),
{
    meters.record_plain(Instrument::ExpiryScanChecked, Amount::Count(checked));
    meters.record_plain(Instrument::ExpiryDue, Amount::Count(due));
    meters.record_plain(Instrument::ExpiryScanDuration, Amount::Time(time));
}

/// How much of a pass was due: nothing of an empty pass, unless something was
/// due, and never more than all.
pub open spec fn due_fraction_of(checked: u64, due: u64) -> (u64, u64) {
    if checked == 0 {
        if due == 0 {
            (0, 1)
        } else {
            (1, 1)
        }
    } else if due <= checked {
        (due, checked)
    } else {
        (checked, checked)
    }
}

/// How much of a pass was due, as a part and a whole.
pub fn expiry_due_fraction(checked: u64, due: u64) -> (r: (u64, u64))
    ensures
        r == due_fraction_of(checked, due),
        0 < r.1,
        r.0 <= r.1,
{
    if checked == 0 {
        if due == 0 {
            (0, 1)
        } else {
            (1, 1)
        }
    } else if due <= checked {
        (due, checked)
    } else {
        (checked, checked)
    }
}

/// Record a completed pass.
pub fn record_expiry_completed_pass(meters: &mut Meters, checked: u64, due: u64)
    ensures
        final(meters)@ == old(meters)@.with(
            plain(
                Instrument::ExpiryPassDueFraction,
                Amount::Fraction {
                    part: due_fraction_of(checked, due).0,
                    whole: due_fraction_of(checked, due).1,
                },
            ),
        ),
{
    let (part, whole) = expiry_due_fraction(checked, due);
    meters.record_plain(Instrument::ExpiryPassDueFraction, Amount::Fraction { part, whole });
}

/// Record how far the oldest due stream is past its deadline, zero if none is
/// due.
pub fn record_expiry_oldest_due_lag(meters: &mut Meters, lag: Option<Span>)
    ensures
        final(meters)@ == old(meters)@.with(
            plain(
                Instrument::ExpiryOldestDueLag,
                Amount::Time(
                    match lag {
                        Some(time) => time,
                        None => Span { nanos: 0 },
                    },
                ),
            ),
        ),
{
    let time = match lag {
        Some(time) => time,
        None => Span { nanos: 0 },
    };
    meters.record_plain(Instrument::ExpiryOldestDueLag, Amount::Time(time));
}

/// Whether a text is one of the outcomes of an expiration.
pub open spec fn is_expiry_outcome(outcome: Seq<char>) -> bool {
    ||| outcome == "renewed"@
    ||| outcome == "observe"@
    ||| outcome == "fenced"@
    ||| outcome == "soft_deleted"@
    ||| outcome == "reaped"@
    ||| outcome == "stale"@
    ||| outcome == "failed"@
}

/// The label for an outcome: itself if it is known, else that of a failure.
pub open spec fn outcome_label_of(outcome: Seq<char>) -> Seq<char> {
    if is_expiry_outcome(outcome) {
        outcome
    } else {
        "failed"@
    }
}

/// The label for an outcome. What is not known never becomes a label.
pub fn expiry_outcome_label(outcome: &'static str) -> (r: &'static str)
    ensures
        r@ == outcome_label_of(outcome@),
        is_expiry_outcome(r@),
{
    if same_text(outcome, "renewed") || same_text(outcome, "observe") || same_text(
        outcome,
        "fenced",
    ) || same_text(outcome, "soft_deleted") || same_text(outcome, "reaped") || same_text(
        outcome,
        "stale",
    ) || same_text(outcome, "failed") {
        outcome
    } else {
        "failed"
    }
}

/// Count the outcome of an expiration.
pub fn record_expiry_outcome(meters: &mut Meters, outcome: &'static str)
    ensures
        final(meters)@ == old(meters)@.with(
            SampleView {
                instrument: Instrument::ExpiryOutcome,
                amount: Amount::Count(1),
                labels: seq![text_label("outcome"@, outcome_label_of(outcome@))],
            },
        ),
{
    let label = Label {
        name: "outcome",
        value: LabelValue::Text(expiry_outcome_label(outcome)),
    };
    let mut labels: Vec<Label> = Vec::new();
    labels.push(label);
    assert(labels@.map_values(|label: Label| label@) =~= seq![label@]);
    meters.record(Instrument::ExpiryOutcome, Amount::Count(1), labels);
}

/// Record a cleanup.
pub fn record_expiry_cleanup(meters: &mut Meters, time: Span)
    ensures
        final(meters)@ == old(meters)@.with(
            plain(Instrument::ExpiryCleanupDuration, Amount::Time(time)),
        ),
{
    meters.record_plain(Instrument::ExpiryCleanupDuration, Amount::Time(time));
}

/// Count reclaimed bytes.
pub fn record_expiry_reclaimed_local_bytes(meters: &mut Meters, bytes: u64)
    ensures
        final(meters)@ == old(meters)@.with(
            counted(Instrument::ExpiryReclaimedLocalBytes, bytes),
        ),
{
    meters.record_plain(Instrument::ExpiryReclaimedLocalBytes, Amount::Count(bytes));
}

/// Record how many cleanups wait and how many are under way.
pub fn record_expiry_queue(meters: &mut Meters, depth: u64, active: u64)
    ensures
        final(meters)@ == old(meters)@.with(counted(Instrument::ExpiryQueueDepth, depth)).with(
            counted(Instrument::ExpiryCleanupActive, active),
        ),
{
    meters.record_plain(Instrument::ExpiryQueueDepth, Amount::Count(depth));
    meters.record_plain(Instrument::ExpiryCleanupActive, Amount::Count(active));
}

/// Count a cleanup that is tried again.
pub fn record_expiry_retry(meters: &mut Meters)
    ensures
        final(meters)@ == old(meters)@.with(counted(Instrument::ExpiryQueueRetries, 1)),
{
    meters.record_plain(Instrument::ExpiryQueueRetries, Amount::Count(1));
}

/// One for yes, zero for no.
pub open spec fn flag_count(flag: bool) -> u64 {
    if flag {
        1
    } else {
        0
    }
}

fn count_flag(flag: bool) -> (r: u64)
    ensures
        r == flag_count(flag),
{
    if flag {
        1
    } else {
        0
    }
}

/// Record which of the two guards holds expiration back.
pub fn set_expiry_safety_pauses(meters: &mut Meters, bulk_paused: bool, clock_paused: bool)
    ensures
        final(meters)@ == old(meters)@.with(
            counted(Instrument::ExpiryBulkGuardPaused, flag_count(bulk_paused)),
        ).with(counted(Instrument::ExpiryClockGuardPaused, flag_count(clock_paused))),
{
    meters.record_plain(Instrument::ExpiryBulkGuardPaused, Amount::Count(count_flag(bulk_paused)));
    meters.record_plain(
        Instrument::ExpiryClockGuardPaused,
        Amount::Count(count_flag(clock_paused)),
    );
}

/// Record how far the clocks are apart.
pub fn record_expiry_clock_drift(meters: &mut Meters, drift: Span)
    ensures
        final(meters)@ == old(meters)@.with(plain(Instrument::ExpiryClockDrift, Amount::Time(drift))),
{
    meters.record_plain(Instrument::ExpiryClockDrift, Amount::Time(drift));
}

/// Record how long an offloaded read waited.
pub fn record_offload_wait(meters: &mut Meters, time: Span)
    ensures
        final(meters)@ == old(meters)@.with(plain(Instrument::ReadOffloadWait, Amount::Time(time))),
{
    meters.record_plain(Instrument::ReadOffloadWait, Amount::Time(time));
}

/// A running measurement.
#[derive(Clone, Copy, Debug, PartialEq, Eq, Structural)]
pub struct Timer {
    started: Moment,
}

impl Timer {
    /// When the measurement started.
    pub closed spec fn start_of(&self) -> Moment {
        self.started
    }

    /// Start a measurement.
    pub fn start(now: Moment) -> (r: Self)
        ensures
            r.start_of() == now,
    {
        Timer { started: now }
    }

    /// How long the measurement has run.
    pub fn elapsed(&self, now: Moment) -> (r: Span)
        ensures
            r.nanos == (if now.nanos >= self.start_of().nanos {
                now.nanos - self.start_of().nanos
            } else {
                0
            }),
    {
        now.saturating_since(self.started)
    }
}

/// Which traces are kept.
#[derive(Clone, Copy, Debug, PartialEq, Eq, Structural)]
pub enum SamplerChoice {
    AlwaysOn,
    AlwaysOff,
    Ratio,
    ParentAlwaysOn,
    ParentAlwaysOff,
    ParentRatio,
}

/// Which traces are kept under a setting. What is not known, or not set, keeps a
/// share of them unless the parent decided.
pub open spec fn sampler_of(kind: Option<Seq<char>>) -> SamplerChoice {
    match kind {
        None => SamplerChoice::ParentRatio,
        Some(kind) => if kind == "always_on"@ {
            SamplerChoice::AlwaysOn
        } else if kind == "always_off"@ {
            SamplerChoice::AlwaysOff
        } else if kind == "traceidratio"@ {
            SamplerChoice::Ratio
        } else if kind == "parentbased_always_on"@ {
            SamplerChoice::ParentAlwaysOn
        } else if kind == "parentbased_always_off"@ {
            SamplerChoice::ParentAlwaysOff
        } else {
            SamplerChoice::ParentRatio
        },
    }
}

/// Which traces are kept under a setting.
pub fn choose_sampler(kind: Option<&str>) -> (r: SamplerChoice)
    ensures
        r == sampler_of(
            match kind {
                Some(kind) => Some(kind@),
                None => None,
            },
        ),
{
    match kind {
        None => SamplerChoice::ParentRatio,
        Some(kind) => if same_text(kind, "always_on") {
            SamplerChoice::AlwaysOn
        } else if same_text(kind, "always_off") {
            SamplerChoice::AlwaysOff
        } else if same_text(kind, "traceidratio") {
            SamplerChoice::Ratio
        } else if same_text(kind, "parentbased_always_on") {
            SamplerChoice::ParentAlwaysOn
        } else if same_text(kind, "parentbased_always_off") {
            SamplerChoice::ParentAlwaysOff
        } else {
            SamplerChoice::ParentRatio
        },
    }
}

/// The labels of expirations form a closed set, and taking the label of a label
/// gives it again.
pub proof fn law_outcome_labels_are_closed(outcome: Seq<char>)
    ensures
        is_expiry_outcome(outcome_label_of(outcome)),
        outcome_label_of(outcome_label_of(outcome)) == outcome_label_of(outcome),
{
}

/// Without meters nothing is recorded; with them every record is added behind the
/// earlier ones.
pub proof fn law_records_are_kept_in_order(meters: MetersView, sample: SampleView)
    ensures
        !meters.installed ==> meters.with(sample) == meters,
        meters.installed ==> {
            &&& meters.with(sample).samples.len() == meters.samples.len() + 1
            &&& meters.with(sample).samples.last() == sample
            &&& meters.with(sample).samples.drop_last() == meters.samples
            &&& meters.with(sample).installed
        },
{
    assert(meters.samples.push(sample).drop_last() =~= meters.samples);
}

/// The due fraction is what is due of what was checked, never more than the whole,
/// and none where nothing was checked and nothing is due.
pub proof fn law_due_fraction_is_a_fraction(checked: u64, due: u64)
    ensures
        due_fraction_of(checked, due).1 > 0,
        due_fraction_of(checked, due).0 <= due_fraction_of(checked, due).1,
        0 < checked && due <= checked ==> due_fraction_of(checked, due) == (due, checked),
        checked <= due && due > 0 ==> due_fraction_of(checked, due).0 == due_fraction_of(
            checked,
            due,
        ).1,
        checked == 0 && due == 0 ==> due_fraction_of(checked, due).0 == 0,
{
}

/// A known outcome is told as it is, and any other one as a failure.
pub proof fn law_unknown_outcome_is_a_failure(outcome: Seq<char>)
    ensures
        outcome_label_of("renewed"@) == "renewed"@,
        outcome_label_of("observe"@) == "observe"@,
        outcome_label_of("fenced"@) == "fenced"@,
        outcome_label_of("soft_deleted"@) == "soft_deleted"@,
        outcome_label_of("reaped"@) == "reaped"@,
        outcome_label_of("stale"@) == "stale"@,
        outcome_label_of("failed"@) == "failed"@,
        outcome_label_of(outcome) == outcome || outcome_label_of(outcome) == "failed"@,
{
}

/// A sampler is chosen by its name; an unknown name counts as none.
pub proof fn law_sampler_is_chosen_by_name(kind: Seq<char>)
    ensures
        sampler_of(Some(kind)) == SamplerChoice::AlwaysOn <==> kind == "always_on"@,
        sampler_of(Some(kind)) == SamplerChoice::AlwaysOff <==> kind == "always_off"@,
        sampler_of(Some(kind)) == SamplerChoice::Ratio <==> kind == "traceidratio"@,
        sampler_of(Some(kind)) == SamplerChoice::ParentAlwaysOn <==> kind
            == "parentbased_always_on"@,
        sampler_of(Some(kind)) == SamplerChoice::ParentAlwaysOff <==> kind
            == "parentbased_always_off"@,
        sampler_of(None) == SamplerChoice::ParentRatio,
{
    reveal_strlit("always_on");
    reveal_strlit("always_off");
    reveal_strlit("traceidratio");
    reveal_strlit("parentbased_always_on");
    reveal_strlit("parentbased_always_off");
    assert("always_on"@.len() == 9 && "always_off"@.len() == 10 && "traceidratio"@.len() == 12
        && "parentbased_always_on"@.len() == 21 && "parentbased_always_off"@.len() == 22);
}

} // verus!
