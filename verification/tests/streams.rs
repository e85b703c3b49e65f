use bytes::Bytes;
use durable_streams::clock::{Moment, WallTime};
use durable_streams::path_map::PathMap;
use durable_streams::retirement::physical::WorkerStep;
use durable_streams::store::cleanup::{
    directories_to_sync, local_files, tally, FileFate, LocalCleanupMode, LocalCleanupOutcome,
};
use durable_streams::store::files::{directory, file_name, with_extension};
use durable_streams::store::inventory::InventoryPageError;
use durable_streams::store::lanes::{check_lane, check_layout, LaneFaultKind};
use durable_streams::store::lifecycle::{DeletePlan, Linearized, ParentAction};
use durable_streams::store::meta::Meta;
use durable_streams::store::naming::{
    etag, is_json_content_type, lane_dir, lane_of, media_type, meta_path, StoreSettings,
};
use durable_streams::store::offset::{compute_cursor, format_offset, parse_offset, ParsedOffset};
use durable_streams::store::reads::{
    materialize_segments, plan_blobstore, BlobStorePlan, Segment, TierKind,
};
use durable_streams::store::rebuild::{derive_live_range, fits, promote_temp, segments_dir};
use durable_streams::store::recovery::{
    classify_entry, compact_path, data_path_of, orphans, quarantine_path, recovery_order, EntryKind,
    Sidecar,
};
use durable_streams::store::retire::{
    CleanupPlan, ExplicitRetirementResult, RetirementSlot,
};
use durable_streams::store::stream::{
    PendingCompaction, Placement, ProducerState, SealedSegment, StreamConfig, StreamState,
};
use durable_streams::store::table::{CreateCheck, CreateResult, Lookup, Store};
use durable_streams::store::tail_cache::TailCache;
use durable_streams::text::child_path;

fn at(secs: i128) -> WallTime {
    WallTime { nanos: secs * 1_000_000_000 }
}

fn config(ttl_seconds: Option<u64>, expires_at: Option<WallTime>) -> StreamConfig {
    StreamConfig {
        content_type: "application/octet-stream".into(),
        ttl_seconds,
        expires_at,
        expires_at_raw: None,
        create_closed: false,
        forked_from: None,
        fork_offset_raw: None,
        fork_sub_offset: None,
    }
}

fn plain() -> StreamConfig {
    config(None, None)
}

fn store() -> Store {
    Store::new(StoreSettings::default_for(false), 40)
}

fn add(store: &mut Store, path: &str, config: StreamConfig, parent: Option<u64>, base: u64) -> u64 {
    let file = store.reserve_file("/data", path);
    match store.install(path, config, parent, base, file, at(1_000)) {
        CreateResult::Created(instance) => {
            store.finish_create(instance, true);
            instance
        }
        other => panic!("{:?}", other),
    }
}

fn stream(ttl: Option<u64>, expires_at: Option<WallTime>, last_access: WallTime) -> (Store, u64) {
    let mut store = store();
    let instance = add(&mut store, "stream", config(ttl, expires_at), None, 0);
    let mut changed = store.streams.remove(&instance).unwrap();
    changed.touch(last_access);
    store.streams.insert(instance, changed);
    (store, instance)
}

fn deadline(store: &Store, instance: u64) -> Option<WallTime> {
    store.stream(instance).unwrap().expiry_deadline()
}

fn expired(store: &Store, instance: u64, now: WallTime) -> bool {
    store.stream(instance).unwrap().is_expired_at(now)
}

#[test]
fn expiry_deadline_no_policy() {
    let (store, one) = stream(None, None, at(0));
    assert_eq!(deadline(&store, one), None);
    assert!(!expired(&store, one, at(0)));
}

#[test]
fn expiry_deadline_absolute_before_exact_after() {
    let (store, one) = stream(None, Some(at(100)), at(0));
    assert_eq!(deadline(&store, one), Some(at(100)));
    assert!(!expired(&store, one, at(99)));
    assert!(!expired(&store, one, at(100)));
    assert!(expired(&store, one, at(101)));
}

#[test]
fn expiry_deadline_ttl_before_exact_after() {
    let (store, one) = stream(Some(10), None, at(100));
    assert_eq!(deadline(&store, one), Some(at(110)));
    assert!(!expired(&store, one, at(109)));
    assert!(!expired(&store, one, at(110)));
    assert!(expired(&store, one, at(111)));
}

#[test]
fn expiry_deadline_pre_epoch_last_access() {
    let (store, one) = stream(Some(5), None, at(-10));
    assert_eq!(deadline(&store, one), Some(at(-5)));
    assert!(!expired(&store, one, at(-5)));
    assert!(expired(&store, one, at(0)));
}

#[test]
fn expiry_deadline_ttl_overflow_is_not_finite() {
    let (store, one) = stream(Some(u64::MAX), None, at(0));
    assert_eq!(deadline(&store, one), None);
    assert!(!expired(&store, one, at(0)));
}

#[test]
fn expiry_deadline_earlier_ttl_wins_when_config_contains_both_policies() {
    let (store, one) = stream(Some(1), Some(at(100)), at(0));
    assert_eq!(deadline(&store, one), Some(at(1)));
    assert!(expired(&store, one, at(2)));
}

#[test]
fn expiry_deadline_earlier_absolute_wins_when_config_contains_both_policies() {
    let (store, one) = stream(Some(100), Some(at(1)), at(0));
    assert_eq!(deadline(&store, one), Some(at(1)));
    assert!(expired(&store, one, at(2)));
}

#[test]
fn stream_lifecycle_create_initializes_transient_state() {
    let mut store = store();
    let one = add(&mut store, "stream", plain(), None, 0);
    let state = store.stream(one).unwrap();
    assert!(!state.fenced);
    assert_eq!(state.inflight_appends, 0);
    assert!(!state.meta_dirty);
    assert_eq!(state.tail().bytes, 0);
    assert_eq!(state.file_path, "/data/streams/stream~40");
    assert_eq!(state.etag(3, 9, true), "\"40:3:9:c\"");
}

fn sidecar(state: &StreamState) -> Sidecar {
    Sidecar { meta: Meta::capture(state), data_path: state.file_path.clone() }
}

#[test]
fn stream_lifecycle_recovery_reinitializes_transient_state() {
    let mut first = store();
    let one = add(&mut first, "stream", plain(), None, 0);
    let mut state = first.streams.remove(&one).unwrap();
    assert!(state.begin_append());
    assert!(state.begin_append());
    state.fence();
    assert!(!state.begin_append());
    let kept = sidecar(&state);
    let mut second = store();
    let back = second.adopt(&kept, 12, None, "/data/segments");
    let state = second.stream(back).unwrap();
    assert!(!state.fenced);
    assert_eq!(state.inflight_appends, 0);
    assert_eq!(state.tail().bytes, 12);
    assert_eq!(second.lookup("stream", at(1_000)), Lookup::Live(back));
}

#[test]
fn stream_lifecycle_guard_count_and_final_drop_notifies() {
    let mut store = store();
    let one = add(&mut store, "stream", plain(), None, 0);
    let mut state = store.streams.remove(&one).unwrap();
    assert!(state.begin_append());
    assert!(state.begin_append());
    assert_eq!(state.inflight_appends, 2);
    assert!(!state.end_append());
    assert!(state.end_append());
}

#[test]
fn creations_compare_with_what_is_there() {
    let mut store = store();
    let one = add(&mut store, "a", plain(), None, 0);
    assert_eq!(
        store.check_create("a", &plain(), at(1_000)),
        CreateCheck::Settled(CreateResult::Exists(one))
    );
    let mut other = plain();
    other.content_type = "application/json".into();
    assert_eq!(
        store.check_create("a", &other, at(1_000)),
        CreateCheck::Settled(CreateResult::Conflict)
    );
    let mut same = plain();
    same.content_type = "Application/Octet-Stream ; charset=x".into();
    assert_eq!(
        store.check_create("a", &same, at(1_000)),
        CreateCheck::Settled(CreateResult::Exists(one))
    );
    let mut closed = plain();
    closed.create_closed = true;
    assert_eq!(
        store.check_create("a", &closed, at(1_000)),
        CreateCheck::Settled(CreateResult::Conflict)
    );
    assert_eq!(store.check_create("b", &plain(), at(1_000)), CreateCheck::Free);
    let file = store.reserve_file("/data", "a");
    assert_eq!(
        store.install("a", plain(), None, 0, file, at(1_000)),
        CreateResult::Exists(one)
    );
}

#[test]
fn failed_creations_are_undone() {
    let mut store = store();
    let parent = add(&mut store, "a", plain(), None, 0);
    let file = store.reserve_file("/data", "b");
    let fork = match store.install("b", plain(), Some(parent), 5, file, at(1_000)) {
        CreateResult::Created(fork) => fork,
        other => panic!("{:?}", other),
    };
    assert_eq!(store.stream(parent).unwrap().ref_count, 1);
    store.finish_create(fork, false);
    assert_eq!(store.stream(parent).unwrap().ref_count, 0);
    assert_eq!(store.lookup("b", at(1_000)), Lookup::Missing);
    assert!(store.stream(fork).is_none());
}

#[test]
fn forked_streams_stay_as_tombstones_until_their_forks_go() {
    let mut store = store();
    let parent = add(&mut store, "a", plain(), None, 0);
    let fork = add(&mut store, "b", plain(), Some(parent), 5);
    assert_eq!(store.begin_delete(parent), DeletePlan::Soft);
    store.finish_soft_delete(parent, true);
    assert_eq!(store.lookup("a", at(1_000)), Lookup::SoftDeleted(parent));
    assert_eq!(
        store.check_create("a", &plain(), at(1_000)),
        CreateCheck::Settled(CreateResult::Conflict)
    );
    assert_eq!(store.begin_delete(fork), DeletePlan::Hard);
    assert_eq!(store.finish_hard_delete(fork), vec![ParentAction::Collect(parent)]);
    assert_eq!(store.lookup("a", at(1_000)), Lookup::Missing);
    assert_eq!(store.lookup("b", at(1_000)), Lookup::Missing);
}

#[test]
fn only_streams_out_of_their_place_are_forgotten() {
    let mut store = store();
    let one = add(&mut store, "a", plain(), None, 0);
    assert!(!store.forget(one));
    assert!(store.stream(one).is_some());
    assert!(store.finish_hard_delete(one).is_empty());
    assert!(store.stream(one).is_some());
    assert!(store.forget(one));
    assert!(store.stream(one).is_none());
    assert!(!store.forget(one));
}

#[test]
fn sidecars_with_impossible_numbers_do_not_fit() {
    let mut store = store();
    let one = add(&mut store, "a", plain(), None, 10);
    let meta = |store: &Store| Meta::capture(store.stream(one).unwrap());
    assert!(fits(&meta(&store), 5));
    assert!(!fits(&meta(&store), u64::MAX - 9));
    let mut late = meta(&store);
    late.last_access_unix = u64::MAX;
    assert!(!fits(&late, 5));
    let mut expires = meta(&store);
    expires.expires_at_unix = Some(u64::MAX);
    assert!(!fits(&expires, 5));
    let mut pending = meta(&store);
    pending.pending_compaction = Some(PendingCompaction { new_file_base: u64::MAX, tail: 3 });
    assert!(fits(&pending, 0));
    assert!(fits(&pending, 3));
    assert!(!fits(&pending, 4));
}

#[test]
fn durable_delete_faults_preserve_inventory_publication_order() {
    let mut store = store();
    let parent = add(&mut store, "a", plain(), None, 0);
    let _fork = add(&mut store, "b", plain(), Some(parent), 0);
    let before = store.inventory_page(None, None, 10).ok().unwrap();
    assert_eq!(store.begin_delete(parent), DeletePlan::Soft);
    store.finish_soft_delete(parent, false);
    let after = store.inventory_page(None, None, 10).ok().unwrap();
    assert_eq!(before.generation, after.generation);
    assert!(!after.entries[0].deleted);
    assert!(!store.stream(parent).unwrap().soft_deleted);
    assert_eq!(store.begin_delete(parent), DeletePlan::Soft);
    store.finish_soft_delete(parent, true);
    let deleted = store.inventory_page(None, None, 10).ok().unwrap();
    assert!(deleted.entries[0].deleted);
    assert!(deleted.generation > after.generation);
}

#[test]
fn expiry_keeps_inventory_until_local_unlink_succeeds() {
    let mut store = store();
    let one = add(&mut store, "a", config(Some(1), None), None, 0);
    assert_eq!(store.lookup("a", at(2_000)), Lookup::Expired(one));
    assert_eq!(store.begin_delete(one), DeletePlan::Hard);
    assert_eq!(store.inventory_page(None, None, 10).ok().unwrap().entries.len(), 1);
    assert!(store.finish_hard_delete(one).is_empty());
    assert_eq!(store.inventory_page(None, None, 10).ok().unwrap().entries.len(), 0);
}

#[test]
fn inventory_identity_stale_state_cannot_publish_or_remove_replacement() {
    let mut store = store();
    let old = add(&mut store, "a", plain(), None, 0);
    assert_eq!(store.linearize_retirement(old), Linearized::Removed);
    let replacement = add(&mut store, "a", plain(), None, 0);
    let before = store.inventory_page(None, None, 10).ok().unwrap();
    store.publish_inventory_tail(old);
    assert!(store.finish_hard_delete(old).is_empty());
    let after = store.inventory_page(None, None, 10).ok().unwrap();
    assert_eq!(before.generation, after.generation);
    assert_eq!(after.entries.len(), 1);
    assert_eq!(store.lookup("a", at(1_000)), Lookup::Live(replacement));
    assert!(!store.restore_exact_registration(old));
}

#[test]
fn inventory_pages_follow_each_other() {
    let mut store = store();
    for path in ["c", "a", "d", "b"] {
        add(&mut store, path, plain(), None, 0);
    }
    let first = store.inventory_page(None, None, 3).ok().unwrap();
    let names = |entries: &Vec<durable_streams::store::inventory::InventoryEntry>| {
        entries.iter().map(|entry| entry.path.clone()).collect::<Vec<_>>()
    };
    assert_eq!(names(&first.entries), vec!["a", "b", "c"]);
    assert!(first.more);
    let second = store.inventory_page(Some(first.generation), Some("c"), 3).ok().unwrap();
    assert_eq!(names(&second.entries), vec!["d"]);
    assert!(second.entries.iter().all(|entry| entry.path.as_str() > "c"));
    assert!(!second.more);
    add(&mut store, "e", plain(), None, 0);
    assert!(matches!(
        store.inventory_page(Some(first.generation), Some("c"), 3),
        Err(InventoryPageError::GenerationChanged)
    ));
    store.refresh_inventory();
    assert_eq!(store.inventory_page(None, None, 9).ok().unwrap().entries.len(), 5);
}

#[test]
fn mark_dedupes_and_sweep_flushes() {
    let mut store = store();
    let one = add(&mut store, "a", plain(), None, 0);
    let written = Meta::capture(store.stream(one).unwrap());
    let mut changed = store.streams.remove(&one).unwrap();
    changed.producers.insert("p1".to_string(), ProducerState { epoch: 1, last_seq: 3 });
    store.streams.insert(one, changed);
    store.mark_meta_dirty(one);
    store.mark_meta_dirty(one);
    assert!(written.producers.get("p1").is_none());
    assert_eq!(store.meta_sweep.len(), 1);
    assert_eq!(store.sweep_meta_once(), vec![one]);
    let swept = Meta::capture(store.stream(one).unwrap());
    let producer = swept.producers.get("p1").unwrap();
    assert_eq!((producer.epoch, producer.last_seq), (1, 3));
    assert!(!store.stream(one).unwrap().meta_dirty);
    assert!(store.sweep_meta_once().is_empty());
    store.mark_meta_dirty(one);
    assert_eq!(store.sweep_meta_once(), vec![one]);
}

#[test]
fn a_sweep_leaves_out_what_was_written_elsewhere() {
    let mut store = store();
    let one = add(&mut store, "a", plain(), None, 0);
    store.mark_meta_dirty(one);
    store.streams.get_mut(&one).unwrap().meta_dirty = false;
    assert!(store.sweep_meta_once().is_empty());
    assert!(store.meta_sweep.is_empty());
    store.mark_meta_dirty(one);
    store.streams.get_mut(&one).unwrap().meta_dirty = false;
    store.mark_meta_dirty(one);
    assert_eq!(store.meta_sweep, vec![one, one]);
    assert_eq!(store.sweep_meta_once(), vec![one]);
    assert!(!store.stream(one).unwrap().meta_dirty);
}

#[test]
fn sweep_skips_hard_deleted_stream() {
    let mut store = store();
    let one = add(&mut store, "a", plain(), None, 0);
    store.mark_meta_dirty(one);
    assert!(store.finish_hard_delete(one).is_empty());
    assert!(store.sweep_meta_once().is_empty());
}

#[test]
fn retirement_executor_lifecycle_initializes_once_and_shuts_down_workers() {
    let mut slot = RetirementSlot::new();
    assert_eq!(slot.init_retirement_executor(), Ok(()));
    assert_eq!(
        slot.init_retirement_executor(),
        Err("retirement executor already initialized")
    );
    let executor = slot.executor.as_mut().unwrap();
    let start = executor.snapshot(Moment { nanos: 1 });
    assert_eq!(start.cleanup_workers_live, 4);
    assert_eq!(start.queue_capacity, 4096);
    assert!(executor.cancel_all().is_empty());
    executor.close_physical();
    for worker in 0..start.cleanup_workers_total {
        assert_eq!(executor.physical_step(worker), WorkerStep::Exit);
    }
    assert_eq!(executor.snapshot(Moment { nanos: 2 }).cleanup_workers_live, 0);
}

fn ready() -> RetirementSlot {
    let mut slot = RetirementSlot::new();
    slot.init_retirement_executor().unwrap();
    slot
}

#[test]
fn explicit_retirement_store_waits_for_inflight_and_deduplicates() {
    let now = Moment { nanos: 5 };
    let mut store = store();
    let one = add(&mut store, "a", plain(), None, 0);
    let mut none = RetirementSlot::new();
    assert_eq!(
        store.begin_retirement(one, &mut none, now),
        Err(ExplicitRetirementResult::Unavailable)
    );
    let mut slot = ready();
    let ticket = store.begin_retirement(one, &mut slot, now).unwrap();
    assert_eq!(
        store.begin_retirement(one, &mut slot, now),
        Err(ExplicitRetirementResult::Existing(ticket))
    );
    assert!(store.fence_for_retirement(one));
    assert!(!store.fence_for_retirement(one));
    let end = store.complete_retirement(one, &mut slot, ticket);
    assert_eq!(end.result, ExplicitRetirementResult::Owner(ticket));
    assert_eq!(end.completions.len(), 1);
    let executor = slot.executor.as_mut().unwrap();
    assert_eq!(executor.snapshot(now).cleanup_workers_live, 4);
    assert_eq!(executor.dispatch_ready().started.len(), 1);
    assert_eq!(store.lookup("a", at(1_000)), Lookup::Missing);
    assert_eq!(
        store.begin_retirement(one, &mut slot, now),
        Err(ExplicitRetirementResult::Missing)
    );
    assert_eq!(store.plan_retirement_cleanup(one), Ok(CleanupPlan::RemoveFiles));
    assert!(store.finish_retirement_cleanup(one, CleanupPlan::RemoveFiles).is_empty());
}

#[test]
fn explicit_retirement_store_soft_tombstone_is_durable() {
    let now = Moment { nanos: 5 };
    let mut store = store();
    let one = add(&mut store, "a", plain(), None, 0);
    let _fork = add(&mut store, "b", plain(), Some(one), 0);
    let mut slot = ready();
    let ticket = store.begin_retirement(one, &mut slot, now).unwrap();
    assert!(store.fence_for_retirement(one));
    let end = store.complete_retirement(one, &mut slot, ticket);
    assert_eq!(end.result, ExplicitRetirementResult::Owner(ticket));
    assert_eq!(store.lookup("a", at(1_000)), Lookup::SoftDeleted(one));
    assert_eq!(store.plan_retirement_cleanup(one), Ok(CleanupPlan::WriteTombstone));
    assert!(Meta::capture(store.stream(one).unwrap()).soft_deleted);
    store.finish_retirement_cleanup(one, CleanupPlan::WriteTombstone);
    let page = store.inventory_page(None, None, 1).ok().unwrap();
    assert!(page.entries[0].deleted);
    assert_eq!(
        store.begin_retirement(one, &mut slot, now),
        Err(ExplicitRetirementResult::Gone)
    );
}

#[test]
fn explicit_retirement_store_replacement_cancels_the_owner_ticket() {
    let now = Moment { nanos: 5 };
    let mut store = store();
    let old = add(&mut store, "a", plain(), None, 0);
    let mut slot = ready();
    let ticket = store.begin_retirement(old, &mut slot, now).unwrap();
    assert!(store.fence_for_retirement(old));
    assert_eq!(store.linearize_retirement(old), Linearized::Removed);
    let replacement = add(&mut store, "a", plain(), None, 0);
    let end = store.complete_retirement(old, &mut slot, ticket);
    assert_eq!(end.result, ExplicitRetirementResult::Cancelled(ticket));
    assert_eq!(store.lookup("a", at(1_000)), Lookup::Live(replacement));
    assert_eq!(
        store.begin_retirement(old, &mut slot, now),
        Err(ExplicitRetirementResult::Stale)
    );
}

#[test]
fn explicit_retirement_store_rejects_unfenced_direct_cleanup() {
    let mut store = store();
    let one = add(&mut store, "a", plain(), None, 0);
    assert_eq!(
        store.plan_retirement_cleanup(one),
        Err("retirement cleanup requires a fenced stream")
    );
    store.fence(one);
    assert_eq!(
        store.plan_retirement_cleanup(one),
        Err("hard retirement must leave the registry before cleanup")
    );
    assert_eq!(store.lookup("a", at(1_000)), Lookup::Live(one));
}

#[test]
fn cancelled_retirements_put_the_stream_back() {
    let mut store = store();
    let one = add(&mut store, "a", plain(), None, 0);
    assert_eq!(store.linearize_retirement(one), Linearized::Removed);
    assert_eq!(store.linearize_retirement(one), Linearized::Lost);
    assert!(store.restore_exact_registration(one));
    assert_eq!(store.lookup("a", at(1_000)), Lookup::Live(one));
    assert_eq!(store.inventory_page(None, None, 1).ok().unwrap().entries.len(), 1);
}

#[test]
fn physical_cleanup_reclaims_exact_local_bytes_and_is_idempotent() {
    let mut store = store();
    let one = add(&mut store, "a", plain(), None, 0);
    let mut state = store.streams.remove(&one).unwrap();
    state.segments.push(SealedSegment {
        logical_start: 0,
        len: 4,
        placement: Placement::Local("/data/segments/a~40.seg.0".to_string()),
    });
    state.segments.push(SealedSegment {
        logical_start: 4,
        len: 4,
        placement: Placement::Remote("key".to_string()),
    });
    let names = vec![
        "a~40.seg.0".to_string(),
        "a~40.seg.1".to_string(),
        "a~401.seg.0".to_string(),
    ];
    let mut files = local_files(&state, &names, "/data/segments");
    files.sort();
    assert_eq!(
        files,
        vec![
            "/data/segments/a~40.seg.0",
            "/data/segments/a~40.seg.1",
            "/data/streams/a~40",
            "/data/streams/a~40.meta",
        ]
    );
    let fates = vec![FileFate::Removed(7), FileFate::Missing, FileFate::Removed(5)];
    assert_eq!(tally(&fates).unwrap().reclaimed_local_bytes, 12);
    assert_eq!(tally(&vec![FileFate::Missing; 4]).unwrap().reclaimed_local_bytes, 0);
    assert_eq!(tally(&vec![FileFate::Removed(1), FileFate::Failed]), Err(1));
}

#[test]
fn physical_cleanup_expiry_propagates_io_and_skips_directory_sync() {
    let files = vec!["/data/streams/a~1".to_string(), "/data/streams/a~1.meta".to_string(),
        "/data/segments/a~1.seg.0".to_string()];
    let mut dirs = directories_to_sync(&files, LocalCleanupMode::ExplicitDelete);
    dirs.sort();
    assert_eq!(dirs, vec!["/data/segments", "/data/streams"]);
    assert!(directories_to_sync(&files, LocalCleanupMode::Expiry).is_empty());
}

#[test]
fn recovery_pending_intent_before_rename() {
    let intent = Some(PendingCompaction { new_file_base: 60, tail: 100 });
    assert!(promote_temp(intent, Some(40)));
    assert!(!promote_temp(intent, Some(39)));
    assert!(!promote_temp(intent, None));
    assert!(!promote_temp(None, Some(40)));
    assert_eq!(derive_live_range(intent, Some(0), 0, 100), (0, 100));
    assert_eq!(derive_live_range(intent, Some(0), 0, 40), (60, 100));
}

#[test]
fn recovery_pending_intent_after_rename() {
    let intent = Some(PendingCompaction { new_file_base: 60, tail: 100 });
    assert_eq!(derive_live_range(intent, Some(0), 0, 40), (60, 100));
    assert_eq!(derive_live_range(None, Some(60), 0, 40), (60, 100));
    assert_eq!(derive_live_range(None, None, 25, 40), (25, 65));
    assert_eq!(derive_live_range(intent, None, 0, 120), (60, 180));
}

fn kept(store: &mut Store, path: &str, forked_from: Option<&str>, base: u64) -> Sidecar {
    let mut wanted = plain();
    wanted.forked_from = forked_from.map(str::to_string);
    let instance = add(store, path, wanted, None, base);
    sidecar(store.stream(instance).unwrap())
}

#[test]
fn parents_are_recovered_before_their_forks() {
    let mut store = store();
    let mut found: PathMap<Sidecar> = PathMap::new();
    found.insert("a".to_string(), kept(&mut store, "a", Some("b"), 10));
    found.insert("b".to_string(), kept(&mut store, "b", Some("c"), 5));
    found.insert("c".to_string(), kept(&mut store, "c", None, 0));
    found.insert("d".to_string(), kept(&mut store, "d", Some("gone"), 0));
    found.insert("e".to_string(), kept(&mut store, "e", Some("gone"), 7));
    let steps = recovery_order(&found);
    let order: Vec<(String, Option<String>)> =
        steps.iter().map(|step| (step.path.clone(), step.parent.clone())).collect();
    let some = |text: &str| Some(text.to_string());
    assert_eq!(
        order,
        vec![
            ("c".to_string(), None),
            ("b".to_string(), some("c")),
            ("a".to_string(), some("b")),
            ("d".to_string(), None),
        ]
    );
}

#[test]
fn circles_of_forks_are_broken() {
    let mut store = store();
    let mut found: PathMap<Sidecar> = PathMap::new();
    found.insert("a".to_string(), kept(&mut store, "a", Some("b"), 0));
    found.insert("b".to_string(), kept(&mut store, "b", Some("a"), 0));
    let steps = recovery_order(&found);
    assert_eq!(steps.len(), 2);
    assert_eq!(steps[0].path, "b");
    assert_eq!(steps[0].parent, None);
    assert_eq!(steps[1].parent, Some("b".to_string()));
}

#[test]
fn recovered_forks_read_through_their_parents() {
    let mut first = store();
    let parent = kept(&mut first, "a", None, 0);
    let mut fork = kept(&mut first, "b", Some("a"), 5);
    fork.meta.expires_at_unix = Some(77);
    let mut found: PathMap<Sidecar> = PathMap::new();
    let mut second = store();
    let parent_instance = second.adopt(&parent, 20, None, "/data/segments");
    let fork_instance = second.adopt(&fork, 3, Some("a"), "/data/segments");
    let state = second.stream(fork_instance).unwrap();
    assert_eq!(state.parent, Some(parent_instance));
    assert_eq!(state.file_base, 5);
    assert_eq!(state.tail().bytes, 8);
    assert_eq!(state.config.expires_at, Some(at(77)));
    found.insert("a".to_string(), parent);
    found.insert("b".to_string(), fork);
    second.advance_ids(&found);
    assert_eq!(second.next_id, 42);
}

#[test]
fn lane_entries_are_told_apart() {
    for (path, kind) in [
        ("/d/streams/.lanes", EntryKind::Marker),
        ("/d/streams/0/.lane", EntryKind::Marker),
        ("/d/streams/a~1.meta.tmp", EntryKind::StaleTemp),
        ("/d/streams/a.compact.tmp", EntryKind::CompactTemp),
        ("/d/streams/a~1.meta", EntryKind::Sidecar),
        ("/d/streams/a~1", EntryKind::Data),
        ("/d/streams/a~1.meta.corrupt", EntryKind::Data),
    ] {
        assert_eq!(classify_entry(path), kind, "{path}");
    }
    assert_eq!(data_path_of("/d/a~1.meta"), "/d/a~1");
    assert_eq!(data_path_of("/d/a~1.meta.meta"), "/d/a~1");
    assert_eq!(quarantine_path("/d/a~1.meta"), "/d/a~1.meta.corrupt");
    assert_eq!(compact_path("/d/a~1"), "/d/a~1.compact.tmp");
    assert_eq!(compact_path("/d/a.b~1"), "/d/a.compact.tmp");
}

#[test]
fn data_files_with_a_quarantined_sidecar_are_kept() {
    let mut store = store();
    let mut found: PathMap<Sidecar> = PathMap::new();
    let own = kept(&mut store, "a", None, 0);
    let own_path = own.data_path.clone();
    found.insert("a".to_string(), own);
    let data = vec![own_path, "/data/streams/x~7".to_string(), "/data/streams/y~8".to_string()];
    let aside = vec!["/data/streams/y~8".to_string()];
    assert_eq!(orphans(&found, &aside, &data), vec!["/data/streams/x~7"]);
}

#[test]
fn lane_counts_are_pinned_by_the_layout() {
    let mut four = StoreSettings::default_for(false);
    four.set_stream_lanes(4);
    assert_eq!(check_layout(Some("4\n"), "/d/.lanes", true, &four).ok(), Some(None));
    assert_eq!(
        check_layout(None, "/d/.lanes", false, &four).ok(),
        Some(Some("4\n".to_string()))
    );
    let other = check_layout(Some("2"), "/d/.lanes", true, &four).err().unwrap();
    assert_eq!(other.kind, LaneFaultKind::OtherCount);
    assert_eq!(
        other.message,
        "--stream-lanes 4 does not match this data dir's on-disk layout (2 lanes, recorded in /d/.lanes). The lane count is a layout choice and must match across restarts."
    );
    let corrupt = check_layout(Some("four"), "/d/.lanes", true, &four).err().unwrap();
    assert_eq!(corrupt.kind, LaneFaultKind::CorruptMarker);
    assert_eq!(corrupt.message, "corrupt stream-lane marker /d/.lanes");
    let flat = check_layout(None, "/d/.lanes", true, &four).err().unwrap();
    assert_eq!(flat.kind, LaneFaultKind::FlatLayout);
    assert!(check_layout(None, "/d/.lanes", true, &StoreSettings::default_for(false)).is_ok());
}

#[test]
fn missing_mounts_are_refused() {
    assert!(check_lane(3, "/d/3", true, true, false).is_ok());
    assert!(check_lane(3, "/d/3", true, false, true).is_ok());
    assert!(check_lane(3, "/d/3", false, false, false).is_ok());
    let fault = check_lane(3, "/d/3", true, false, false).err().unwrap();
    assert_eq!(fault.kind, LaneFaultKind::MissingLane);
    assert!(fault.message.starts_with("stream lane 3 at /d/3 is empty and unmarked"));
}

#[test]
fn lanes_follow_the_file_name() {
    let one = StoreSettings::default_for(false);
    let mut many = StoreSettings::default_for(false);
    many.set_stream_lanes(1000);
    assert_eq!(lane_of("a", &one), 0);
    assert_eq!(lane_of("a", &many), (0xaf63dc4c8601ec8cu64 % 1000) as usize);
    assert_eq!(lane_dir("/d", 7, &one), "/d/streams");
    assert_eq!(lane_dir("/d", 7, &many), "/d/streams/7");
    many.set_stream_lanes(0);
    assert_eq!(many.stream_lanes(), 1);
}

#[test]
fn resident_tails_answer_covered_ranges() {
    let mut settings = StoreSettings::default_for(false);
    let mut cache = TailCache::new();
    cache.set_last_chunk(10, Bytes::from_static(b"hello"), &settings);
    assert!(cache.tail_chunk_slice(10, 15, &settings).is_none());
    settings.set_tail_cache_bytes(5);
    assert_eq!(settings.tail_cache_bytes(), 5);
    cache.set_last_chunk(10, Bytes::from_static(b"hello"), &settings);
    assert_eq!(cache.tail_chunk_slice(11, 14, &settings), Some(Bytes::from_static(b"ell")));
    assert_eq!(cache.tail_chunk_slice(10, 15, &settings), Some(Bytes::from_static(b"hello")));
    assert!(cache.tail_chunk_slice(9, 12, &settings).is_none());
    assert!(cache.tail_chunk_slice(11, 16, &settings).is_none());
    assert!(cache.tail_chunk_slice(12, 12, &settings).is_none());
    cache.set_last_chunk(15, Bytes::from_static(b"longer"), &settings);
    assert!(cache.tail_chunk_slice(15, 16, &settings).is_none());
}

#[test]
fn reads_are_put_together_or_dropped() {
    let parts = vec![Some(vec![1, 2]), Some(Vec::new()), Some(vec![3])];
    assert_eq!(materialize_segments(&parts), vec![1, 2, 3]);
    let failed = vec![Some(vec![1, 2]), None];
    assert!(materialize_segments(&failed).is_empty());
    assert_eq!(Segment { file: 0, file_start: 7, len: 5 }.file_end(), 12);
}

#[test]
fn tiers_are_planned() {
    assert!(matches!(plan_blobstore(TierKind::Off, None, "/d", true), Ok(None)));
    assert!(matches!(
        plan_blobstore(TierKind::Local, None, "/d", false),
        Ok(Some(BlobStorePlan::Directory(dir))) if dir == "/d/cold"
    ));
    assert!(matches!(
        plan_blobstore(TierKind::Local, Some("/c"), "/d", false),
        Ok(Some(BlobStorePlan::Directory(dir))) if dir == "/c"
    ));
    assert!(matches!(
        plan_blobstore(TierKind::S3, None, "/d", true),
        Ok(Some(BlobStorePlan::Objects))
    ));
    assert_eq!(
        plan_blobstore(TierKind::S3, None, "/d", false).err(),
        Some("--tier s3 requires building with `--features tier`")
    );
}

#[test]
fn names_of_files_follow_their_rules() {
    assert_eq!(media_type("Application/JSON ; charset=utf-8"), "application/json");
    assert!(is_json_content_type("application/json"));
    assert!(!is_json_content_type("text/plain"));
    assert_eq!(meta_path("/d/a~1"), "/d/a~1.meta");
    assert_eq!(etag(7, 1, 2, false), "\"7:1:2\"");
    assert_eq!(segments_dir("/d"), "/d/segments");
    assert_eq!(file_name("/a/b/"), Some("b".to_string()));
    assert_eq!(file_name("/a/.."), None);
    assert_eq!(file_name("/"), None);
    assert_eq!(with_extension("/a/.hidden", "x"), "/a/.hidden.x");
    assert_eq!(with_extension("a.b.c", "x"), "a.b.x");
    assert_eq!(directory("/a/b"), Some("/a".to_string()));
    assert_eq!(directory("/a"), Some("/".to_string()));
    assert_eq!(directory("a"), None);
    assert_eq!(directory("./a"), Some(".".to_string()));
}

#[test]
fn offsets_and_cursors_are_exact() {
    assert_eq!(format_offset(123), "0000000000000000_0000000000000123");
    assert!(matches!(parse_offset(None), Ok(ParsedOffset::Start)));
    assert!(matches!(parse_offset(Some("-1")), Ok(ParsedOffset::Start)));
    assert!(matches!(parse_offset(Some("now")), Ok(ParsedOffset::Now)));
    assert!(matches!(
        parse_offset(Some("0000000000000000_0000000000000123")),
        Ok(ParsedOffset::At(123))
    ));
    for bad in ["", "1_2", "000000000000000000000000000000000", "0000000000000000_000000000000012x"] {
        assert!(parse_offset(Some(bad)).is_err(), "{bad}");
    }
    assert_eq!(compute_cursor(None, 1_728_432_000 + 65, 0), 3);
    assert_eq!(compute_cursor(Some(2), 1_728_432_000 + 65, 0), 3);
    assert_eq!(compute_cursor(Some(3), 1_728_432_000 + 65, 181), 5);
}

#[test]
fn subscriptions_see_the_registered_streams() {
    let mut store = store();
    let one = add(&mut store, "/root/a", config(Some(10), None), None, 0);
    let table = store.stream_table(at(1_005));
    assert!(!table.get("/root/a").unwrap().expired);
    assert!(store.stream_table(at(1_011)).get("/root/a").unwrap().expired);
    store.fence(one);
    assert!(store.stream_table(at(1_005)).get("/root/a").unwrap().fenced);
}

#[test]
fn stream_lifecycle_guard_drops_on_early_return() {
    let mut store = store();
    let one = add(&mut store, "stream", plain(), None, 0);
    let mut state = store.streams.remove(&one).unwrap();
    assert!(state.begin_append());
    assert!(state.end_append());
    assert_eq!(state.inflight_appends, 0);
}

#[test]
fn stream_lifecycle_fence_under_appender_lock_rejects_later_guard() {
    let mut store = store();
    let one = add(&mut store, "stream", plain(), None, 0);
    store.fence(one);
    let mut state = store.streams.remove(&one).unwrap();
    assert!(!state.begin_append());
    assert_eq!(state.inflight_appends, 0);
}

#[test]
fn explicit_retirement_store_retries_failed_hard_cleanup_without_unfencing() {
    let now = Moment { nanos: 5 };
    let mut store = store();
    let one = add(&mut store, "stream", plain(), None, 0);
    let mut slot = ready();
    let ticket = store.begin_retirement(one, &mut slot, now).unwrap();
    assert!(store.fence_for_retirement(one));
    let end = store.complete_retirement(one, &mut slot, ticket);
    assert_eq!(end.result, ExplicitRetirementResult::Owner(ticket));
    assert_eq!(store.plan_retirement_cleanup(one), Ok(CleanupPlan::RemoveFiles));
    assert_eq!(tally(&vec![FileFate::Failed]), Err(0));
    assert!(store.stream(one).unwrap().fenced);
    assert_eq!(store.lookup("stream", at(1_000)), Lookup::Missing);
    assert_eq!(store.plan_retirement_cleanup(one), Ok(CleanupPlan::RemoveFiles));
    assert!(store.finish_retirement_cleanup(one, CleanupPlan::RemoveFiles).is_empty());
    assert!(store.forget(one));
}

#[test]
fn recovery_pending_intent_prefers_fsynced_temp_when_old_file_short() {
    let sealed: u64 = 256 * 1024;
    let tail: u64 = 300 * 1024;
    let intent = Some(PendingCompaction { new_file_base: sealed, tail });
    assert!(promote_temp(intent, Some(tail - sealed)));
    assert_eq!(derive_live_range(intent, Some(0), 0, tail - sealed), (sealed, tail));
}

#[test]
fn manifest_survives_recovery() {
    let mut first = store();
    let one = add(&mut first, "s/rec", plain(), None, 0);
    let mut state = first.streams.remove(&one).unwrap();
    state.segments.push(SealedSegment {
        logical_start: 0,
        len: 65_536,
        placement: Placement::Remote("cold/0".to_string()),
    });
    state.segments.push(SealedSegment {
        logical_start: 65_536,
        len: 65_536,
        placement: Placement::Local("/data/segments/s+rec~40.seg.1".to_string()),
    });
    state.sealed_offset = 131_072;
    let kept = sidecar(&state);
    let mut second = store();
    let back = second.adopt(&kept, 204_800, None, "/data/segments");
    let state = second.stream(back).unwrap();
    assert_eq!(state.sealed_offset, 131_072);
    assert_eq!(state.segments.len(), 2);
    assert!(matches!(&state.segments[0].placement, Placement::Remote(key) if key == "cold/0"));
    assert!(matches!(
        &state.segments[1].placement,
        Placement::Local(path) if path == "/data/segments/s+rec~40.seg.1"
    ));
    assert_eq!(state.segments[1].logical_start, 65_536);
}

#[test]
fn reader_tail_tracks_durable_not_writer_tail() {
    let mut store = store();
    let one = add(&mut store, "s/dur", plain(), None, 0);
    let mut state = store.streams.remove(&one).unwrap();
    assert_eq!(state.tail().bytes, 0);
    state.tail = 11;
    assert_eq!(state.tail().bytes, 0);
    state.durable_tail = state.tail;
    assert_eq!(state.tail().bytes, 11);
    state.closed = true;
    assert!(!state.tail().closed);
    state.closed_durable = true;
    assert!(state.tail().closed);
}

fn listed(store: &Store, path: &str) -> Option<bool> {
    let page = store.inventory_page(None, None, 10).ok().unwrap();
    page.entries.iter().find(|entry| entry.path == path).map(|entry| entry.deleted)
}

#[test]
fn physical_cleanup_explicit_sync_failure_retains_inventory_until_retry() {
    let mut store = store();
    let one = add(&mut store, "sync", plain(), None, 0);
    for _ in 0..2 {
        assert_eq!(store.begin_delete(one), DeletePlan::Hard);
        assert_eq!(store.lookup("sync", at(1_000)), Lookup::Live(one));
        assert_eq!(listed(&store, "sync"), Some(false));
    }
    assert!(store.finish_hard_delete(one).is_empty());
    assert_eq!(store.lookup("sync", at(1_000)), Lookup::Missing);
    assert_eq!(listed(&store, "sync"), None);
}

#[test]
fn physical_cleanup_soft_delete_reclaims_no_local_bytes() {
    let mut store = store();
    let one = add(&mut store, "soft", plain(), None, 0);
    let mut state = store.streams.remove(&one).unwrap();
    state.ref_count = 1;
    store.streams.insert(one, state);
    assert_eq!(store.begin_delete(one), DeletePlan::Soft);
    store.finish_soft_delete(one, true);
    assert_eq!(LocalCleanupOutcome::default().reclaimed_local_bytes, 0);
    assert_eq!(listed(&store, "soft"), Some(true));
}

#[test]
fn tails_are_resident_by_default_on_macos_only() {
    let macos = StoreSettings::default_for(true);
    assert_eq!(macos.tail_cache_bytes(), 65_536);
    assert_eq!(macos.stream_lanes(), 1);
    let other = StoreSettings::default_for(false);
    assert_eq!(other.tail_cache_bytes(), 0);
    assert_eq!(other.stream_lanes(), 1);
}

#[test]
fn directories_bring_their_own_slash_or_none() {
    let one = StoreSettings::default_for(false);
    let mut many = StoreSettings::default_for(false);
    many.set_stream_lanes(2);
    assert_eq!(lane_dir("", 0, &one), "streams");
    assert_eq!(lane_dir("/d/", 0, &one), "/d/streams");
    assert_eq!(lane_dir("", 1, &many), "streams/1");
    assert_eq!(segments_dir(""), "segments");
    assert_eq!(segments_dir("/d/"), "/d/segments");
    assert_eq!(child_path("/d", "/elsewhere"), "/elsewhere");
    let mut fresh = store();
    let file = fresh.reserve_file("", "a");
    assert_eq!(file.file_path, "streams/a~40");
    assert!(matches!(
        plan_blobstore(TierKind::Local, None, "/d/", false),
        Ok(Some(BlobStorePlan::Directory(dir))) if dir == "/d/cold"
    ));
}

#[test]
fn a_new_store_starts_from_nothing() {
    let fresh = store();
    assert_eq!(fresh.next_instance, 0);
    assert_eq!(fresh.inventory.generation, 0);
    assert_eq!(fresh.next_id, 40);
}
