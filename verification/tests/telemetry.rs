use durable_streams::clock::{Moment, Span};
use durable_streams::telemetry::{
    choose_sampler, describe, expiry_due_fraction, expiry_outcome_label, record_append,
    record_append_lock_wait, record_expiry_cleanup, record_expiry_clock_drift,
    record_expiry_completed_pass, record_expiry_index_entries, record_expiry_oldest_due_lag,
    record_expiry_outcome, record_expiry_queue, record_expiry_reclaimed_local_bytes,
    record_expiry_retry, record_expiry_scan, record_fsync, record_offload_wait, record_read,
    record_request, record_tail_cache, set_expiry_safety_pauses, Amount, Buckets, Instrument,
    InstrumentKind, LabelValue, Meters, Sample, SamplerChoice, Timer,
};

fn label(sample: &Sample, at: usize) -> (&'static str, String) {
    let label = sample.labels[at];
    let value = match label.value {
        LabelValue::Text(text) => text.to_string(),
        LabelValue::Flag(flag) => flag.to_string(),
    };
    (label.name, value)
}

#[test]
fn expiry_reaper_metrics_surface_is_callable_without_identifiers() {
    let mut meters = Meters::new(true);
    record_expiry_index_entries(&mut meters, 12);
    record_expiry_scan(&mut meters, 10, 2, Span::from_millis(1));
    record_expiry_completed_pass(&mut meters, 10, 2);
    record_expiry_oldest_due_lag(&mut meters, Some(Span::from_millis(4500)));
    record_expiry_oldest_due_lag(&mut meters, None);
    for outcome in [
        "renewed",
        "observe",
        "fenced",
        "soft_deleted",
        "reaped",
        "stale",
        "failed",
    ] {
        record_expiry_outcome(&mut meters, outcome);
    }
    record_expiry_cleanup(&mut meters, Span::from_millis(2));
    record_expiry_queue(&mut meters, 3, 1);
    record_expiry_retry(&mut meters);
    set_expiry_safety_pauses(&mut meters, true, false);
    record_expiry_clock_drift(&mut meters, Span::from_millis(250));
    record_expiry_reclaimed_local_bytes(&mut meters, 4096);

    let samples = meters.drain();
    assert_eq!(samples.len(), 22);
    assert_eq!(samples[0].instrument, Instrument::ExpiryIndexEntries);
    assert_eq!(samples[0].amount, Amount::Count(12));
    assert_eq!(samples[1].amount, Amount::Count(10));
    assert_eq!(samples[2].amount, Amount::Count(2));
    assert_eq!(samples[3].amount, Amount::Time(Span::from_millis(1)));
    assert_eq!(samples[4].amount, Amount::Fraction { part: 2, whole: 10 });
    assert_eq!(samples[6].amount, Amount::Time(Span { nanos: 0 }));
    assert_eq!(label(&samples[10], 0), ("outcome", "soft_deleted".to_string()));
    assert_eq!(samples[21].amount, Amount::Count(4096));
    assert!(meters.drain().is_empty());
}

#[test]
fn nothing_is_recorded_without_an_exporter() {
    let mut meters = Meters::new(false);
    record_request(&mut meters, "GET", "2xx");
    record_fsync(&mut meters, Span::from_millis(3), 5);
    set_expiry_safety_pauses(&mut meters, true, true);
    assert!(meters.drain().is_empty());
}

#[test]
fn requests_and_reads_carry_their_labels() {
    let mut meters = Meters::new(true);
    record_request(&mut meters, "PUT", "4xx");
    record_append(&mut meters, Span::from_millis(7), "duplicate", true);
    record_read(&mut meters, Span::from_millis(8), "sse", false);
    record_tail_cache(&mut meters, true, "long-poll");
    record_append_lock_wait(&mut meters, Span::from_millis(9));
    record_offload_wait(&mut meters, Span::from_millis(10));
    record_fsync(&mut meters, Span::from_millis(3), 5);
    let samples = meters.drain();
    assert_eq!(samples.len(), 8);
    assert_eq!(label(&samples[0], 0), ("method", "PUT".to_string()));
    assert_eq!(label(&samples[0], 1), ("status_class", "4xx".to_string()));
    assert_eq!(label(&samples[1], 1), ("is_json", "true".to_string()));
    assert_eq!(label(&samples[2], 1), ("cache", "miss".to_string()));
    assert_eq!(label(&samples[3], 0), ("result", "hit".to_string()));
    assert_eq!(samples[6].amount, Amount::Time(Span::from_millis(3)));
    assert_eq!(samples[7].instrument, Instrument::AppendFsyncBatchSize);
    assert_eq!(samples[7].amount, Amount::Count(5));
}

#[test]
fn expiry_outcome_label_set_is_closed() {
    assert_eq!(expiry_outcome_label("reaped"), "reaped");
    assert_eq!(expiry_outcome_label("/raw/path"), "failed");
    assert_eq!(expiry_outcome_label("stream-id"), "failed");
}

#[test]
fn expiry_completed_pass_due_fraction_is_bounded_and_defined_for_empty_passes() {
    let ratio = |checked: u64, due: u64| {
        let (part, whole) = expiry_due_fraction(checked, due);
        part as f64 / whole as f64
    };
    assert_eq!(ratio(0, 0), 0.0);
    assert_eq!(ratio(0, 1), 1.0);
    assert_eq!(ratio(4, 3), 0.75);
    assert_eq!(ratio(2, 3), 1.0);
}

#[test]
fn instruments_are_announced_with_their_buckets() {
    let info = describe(Instrument::AppendFsyncBatchSize);
    assert_eq!(info.name, "ds.append.fsync.batch_size");
    assert_eq!(info.kind, InstrumentKind::CountHistogram);
    assert_eq!(info.buckets, Some(Buckets::Batch));
    let info = describe(Instrument::ExpiryReclaimedLocalBytes);
    assert_eq!(info.unit, "By");
    assert_eq!(info.kind, InstrumentKind::Counter);
    assert_eq!(info.buckets, None);
    let info = describe(Instrument::ExpiryClockDrift);
    assert_eq!(info.description, "Absolute wall/monotonic clock divergence.");
    assert_eq!(info.buckets, Some(Buckets::ClockDrift));
}

#[test]
fn timers_measure_from_their_start() {
    let timer = Timer::start(Moment { nanos: 500 });
    assert_eq!(timer.elapsed(Moment { nanos: 1700 }), Span { nanos: 1200 });
    assert_eq!(timer.elapsed(Moment { nanos: 400 }), Span { nanos: 0 });
}

#[test]
fn samplers_are_chosen_by_name() {
    assert_eq!(choose_sampler(None), SamplerChoice::ParentRatio);
    assert_eq!(choose_sampler(Some("always_on")), SamplerChoice::AlwaysOn);
    assert_eq!(choose_sampler(Some("always_off")), SamplerChoice::AlwaysOff);
    assert_eq!(choose_sampler(Some("traceidratio")), SamplerChoice::Ratio);
    assert_eq!(choose_sampler(Some("parentbased_always_on")), SamplerChoice::ParentAlwaysOn);
    assert_eq!(choose_sampler(Some("parentbased_always_off")), SamplerChoice::ParentAlwaysOff);
    assert_eq!(choose_sampler(Some("jaeger")), SamplerChoice::ParentRatio);
}
