use durable_streams::store_manifest::{
    canonical_time, canonical_uuid, find_repeated_key, is_repeated, ExpectedStoreIdentityV1,
    JsonEntry, JsonTree, StoreManifestV1, MANIFEST_FILE,
};

fn manifest() -> StoreManifestV1 {
    StoreManifestV1 {
        store_id: "2bc96d0b-9740-4f50-97c6-754b2b27d6b0".into(),
        store_generation: "ff8b5fa6-e786-4994-8da0-f14e9e79f318".into(),
        protocol_version: 1,
        layout_version: 1,
        durability_mode: "wal".into(),
        wal_shard_count: 2,
        stream_lane_count: 1,
        filesystem_uuid: "253f14d5-cbee-4df8-9e3c-e44c6e41501b".into(),
        creation_time: "2026-08-27T19:00:00Z".into(),
    }
}

fn expected() -> ExpectedStoreIdentityV1 {
    let own = manifest();
    ExpectedStoreIdentityV1 {
        store_id: own.store_id,
        store_generation: own.store_generation,
        protocol_version: own.protocol_version,
        layout_version: own.layout_version,
        durability_mode: own.durability_mode,
        wal_shard_count: own.wal_shard_count,
        stream_lane_count: own.stream_lane_count,
        filesystem_uuid: own.filesystem_uuid,
    }
}

fn entry(key: &str, value: JsonTree) -> JsonEntry {
    JsonEntry { key: key.to_string(), value }
}

#[test]
fn rejects_duplicate_keys() {
    let document = JsonTree::Object(vec![
        entry("store_id", JsonTree::Leaf),
        entry("store_id", JsonTree::Leaf),
    ]);
    assert_eq!(find_repeated_key(&document), Some("store_id".to_string()));
}

#[test]
fn repeated_keys_are_found_at_any_depth() {
    let inner = JsonTree::Object(vec![
        entry("a", JsonTree::Leaf),
        entry("b", JsonTree::Leaf),
        entry("a", JsonTree::Leaf),
    ]);
    let nested = JsonTree::Object(vec![
        entry("a", JsonTree::Leaf),
        entry("list", JsonTree::List(vec![JsonTree::Leaf, inner])),
    ]);
    assert_eq!(find_repeated_key(&nested), Some("a".to_string()));
    let apart = JsonTree::List(vec![
        JsonTree::Object(vec![entry("a", JsonTree::Leaf)]),
        JsonTree::Object(vec![entry("a", JsonTree::Leaf)]),
    ]);
    assert_eq!(find_repeated_key(&apart), None);
}

#[test]
fn validates_fixture() {
    manifest().validate().unwrap();
}

#[test]
fn rejects_noncanonical_or_invalid_creation_times() {
    for value in [
        "2026-02-29T19:00:00Z",
        "2024-02-30T19:00:00Z",
        "2026-01-01t19:00:00Z",
        "2026-01-01T19:00:00+00:00",
        "2026-1-01T19:00:00Z",
        "2026-01-01T24:00:00Z",
    ] {
        assert!(canonical_time(value).is_err(), "{value}");
    }
    assert!(canonical_time("2024-02-29T23:59:59Z").is_ok());
}

#[test]
fn creation_times_follow_the_calendar() {
    for value in ["2000-02-29T00:00:00Z", "2026-12-31T23:59:59Z", "0001-01-01T00:00:00Z"] {
        assert_eq!(canonical_time(value), Ok(()), "{value}");
    }
    let shape = "creation_time must be canonical RFC3339 UTC (YYYY-MM-DDTHH:MM:SSZ)".to_string();
    let calendar = "creation_time is not a valid RFC3339 UTC timestamp".to_string();
    for value in ["1900-02-29T00:00:00Z", "0000-01-01T00:00:00Z", "2026-13-01T00:00:00Z",
        "2026-00-01T00:00:00Z", "2026-01-00T00:00:00Z", "2026-04-31T00:00:00Z",
        "2026-01-01T00:60:00Z", "2026-01-01T00:00:60Z"] {
        assert_eq!(canonical_time(value), Err(calendar.clone()), "{value}");
    }
    for value in ["", "2026-01-01 00:00:00Z", "2026-01-01T00:00:00z", "२026-01-01T00:00:00Z"] {
        assert_eq!(canonical_time(value), Err(shape.clone()), "{value}");
    }
}

#[test]
fn uuids_are_lowercase_and_complete() {
    assert_eq!(canonical_uuid("store_id", "2bc96d0b-9740-4f50-97c6-754b2b27d6b0"), Ok(()));
    for value in ["2BC96d0b-9740-4f50-97c6-754b2b27d6b0", "2bc96d0b97404f5097c6754b2b27d6b0",
        "2bc96d0b-9740-4f50-97c6-754b2b27d6bg", "2bc96d0b-9740-4f50-97c60754b2b27d6b0"] {
        assert_eq!(
            canonical_uuid("store_id", value),
            Err("store_id must be a canonical lowercase UUID".to_string())
        );
    }
}

#[test]
fn each_bad_field_is_named() {
    let mut bad = manifest();
    bad.filesystem_uuid = "none".into();
    assert_eq!(bad.validate().unwrap_err(), "filesystem_uuid must be a canonical lowercase UUID");
    let mut bad = manifest();
    bad.layout_version = 0;
    assert_eq!(
        bad.validate().unwrap_err(),
        "protocol_version and layout_version must be positive"
    );
    let mut bad = manifest();
    bad.durability_mode = "memory".into();
    assert_eq!(bad.validate().unwrap_err(), "durability_mode must be exactly \"wal\"");
    let mut bad = manifest();
    bad.wal_shard_count = 0;
    assert_eq!(
        bad.validate().unwrap_err(),
        "wal_shard_count and stream_lane_count must be positive"
    );
}

#[test]
fn differences_are_reported_in_order() {
    assert_eq!(manifest().compare_expected(&expected()), Ok(()));
    let mut other = expected();
    other.stream_lane_count = 4;
    other.durability_mode = "mem\"ory".into();
    assert_eq!(
        manifest().compare_expected(&other).unwrap_err(),
        "manifest durability_mode mismatch: expected \"mem\\\"ory\", observed \"wal\""
    );
    other.durability_mode = "wal".into();
    assert_eq!(
        manifest().compare_expected(&other).unwrap_err(),
        "manifest stream_lane_count mismatch: expected 4, observed 1"
    );
}

#[test]
fn only_pristine_directories_are_bootstrapped() {
    assert_eq!(MANIFEST_FILE, ".durable-streams-store-v1.json");
    assert_eq!(StoreManifestV1::path("/data"), "/data/.durable-streams-store-v1.json");
    let lock = vec![".durable-streams.lock".to_string()];
    assert_eq!(
        manifest().plan_bootstrap("/data", false, &lock, 77),
        Ok("/data/..durable-streams-store-v1.json.tmp-77".to_string())
    );
    assert_eq!(
        manifest().plan_bootstrap("/data", true, &lock, 77).unwrap_err(),
        "store manifest already exists: /data/.durable-streams-store-v1.json"
    );
    let used = vec![".durable-streams.lock".to_string(), "streams".to_string()];
    assert_eq!(
        manifest().plan_bootstrap("/data", false, &used, 77).unwrap_err(),
        "bootstrap-store refuses non-empty data directory: found /data/streams"
    );
    let mut bad = manifest();
    bad.protocol_version = 0;
    assert!(bad.plan_bootstrap("/data", false, &lock, 77).is_err());
}

#[test]
fn keys_are_compared_with_those_before_them() {
    let entry = |key: &str| JsonEntry { key: key.to_string(), value: JsonTree::Leaf };
    let entries = vec![entry("a"), entry("b")];
    assert!(is_repeated(&entries, 2, "b"));
    assert!(!is_repeated(&entries, 1, "b"));
    assert!(!is_repeated(&entries, 2, "c"));
    assert!(!is_repeated(&Vec::new(), 0, "a"));
}
