use todero_protocol::store::disk::{
    decode_session_record_migrating, DiskLogEntry, DiskOp, DiskState, LogLine, LoggedOp,
    SnapshotItem, StoredData, StoredSession,
};
use todero_protocol::store::redis_protocol::{
    cleanup_targets, expected_argument, expiry, loaded, parse_member, removed, swapped, LoadReply,
    RedisKeys,
};
use todero_protocol::store::{
    decode_session_record, encode_session_record, InMemorySessionStore, SessionRecord,
    SessionStore, StoreError, VersionedRecord, SESSION_SCHEMA_VERSION,
};

fn sample_record(cid: u64, peer: &str) -> SessionRecord {
    SessionRecord {
        cid,
        peer_id: peer.to_string(),
        negotiated_msr_interval_ms: 15_000,
        disconnect_window_ms: 90_000,
        last_ordered_rx: 10,
        last_ordered_tx: 12,
    }
}

#[test]
fn cas_collision_allows_single_winner() {
    let mut store = InMemorySessionStore::with_default_shards();
    let cid = 42;
    let now = 10_000;

    let created = store
        .compare_and_swap(cid, None, sample_record(cid, "init"), 10_000, now)
        .expect("create with CAS");
    assert_eq!(created.version, 1);

    let mut success = 0;
    let mut conflict = 0;
    for i in 0..8 {
        let attempt = store.compare_and_swap(
            cid,
            Some(1),
            sample_record(cid, &format!("peer-{i}")),
            10_000,
            now + 1,
        );
        match attempt {
            Ok(v) => {
                success += 1;
                assert_eq!(v.version, 2);
            }
            Err(StoreError::CasConflict { .. }) => {
                conflict += 1;
            }
            Err(e) => panic!("unexpected error: {e:?}"),
        }
    }

    assert_eq!(success, 1);
    assert_eq!(conflict, 7);
}

#[test]
fn expiry_under_contention_and_scan_cleanup() {
    let mut store = InMemorySessionStore::with_default_shards();
    let now = 1_000;

    for cid in 1..=64u64 {
        store.upsert(cid, sample_record(cid, "peer"), 5, now).expect("upsert");
    }

    for _ in 0..4 {
        for cid in 1..=64u64 {
            assert!(store.load(cid, now + 2).expect("load").is_some());
        }
    }

    let removed = store.scan_expired(now + 10, 1000).expect("scan expired");
    assert_eq!(removed.len(), 64);

    for cid in 1..=64u64 {
        let loaded = store.load(cid, now + 10).expect("load post-expiry");
        assert!(loaded.is_none());
    }
}

#[test]
fn serialization_roundtrip_is_stable_for_schema_v1() {
    let record = sample_record(7, "peer-a");
    let payload = encode_session_record(&record);
    assert_eq!(payload.schema_version, SESSION_SCHEMA_VERSION);
    let decoded = decode_session_record(Ok(payload)).expect("decode");
    assert_eq!(decoded, record);
}

#[test]
fn decode_rejects_unsupported_schema_version() {
    let payload = StoredSession {
        schema_version: SESSION_SCHEMA_VERSION + 1,
        record: sample_record(1, "x"),
    };
    let err = decode_session_record(Ok(payload)).expect_err("must fail");
    assert_eq!(err, StoreError::UnsupportedSchemaVersion(SESSION_SCHEMA_VERSION + 1));
}

fn bytes_of(op: &DiskOp) -> Vec<u8> {
    format!("{op:?}").into_bytes()
}

fn line_of(op: DiskOp) -> LogLine {
    let op_bytes = bytes_of(&op);
    let entry = DiskLogEntry::new(op, &op_bytes);
    let op = match entry.op {
        DiskOp::Upsert { cid, version, expires_at_ms, data } => LoggedOp::Upsert {
            cid,
            version,
            expires_at_ms,
            data: Ok(StoredData {
                schema: Some(data.schema_version as u64),
                legacy: Ok(data.record.clone()),
                current: Ok(data),
            }),
        },
        DiskOp::Delete { cid } => LoggedOp::Delete { cid },
    };
    LogLine::Entry { op, checksum: entry.checksum, op_bytes }
}

#[test]
fn disk_backend_append_log_and_recovery() {
    let cid = 7001;
    let mut log = Vec::new();
    {
        let mut store = DiskState::default();
        let rec = sample_record(cid, "disk-peer");
        let (written, op) = store.upsert(cid, rec.clone(), 5_000, 100);
        assert_eq!(written.version, 1);
        log.push(line_of(op));
        let (loaded, op) = store.load(cid, 101);
        assert!(loaded.is_some());
        assert!(op.is_none());
    }

    let mut recovered = DiskState::default();
    recovered.replay_log(log).expect("reopen");
    let (loaded, _) = recovered.load(cid, 102);
    assert_eq!(loaded.expect("loaded").record, sample_record(cid, "disk-peer"));
}

#[test]
fn disk_backend_compaction_keeps_state_and_clears_log() {
    let mut store = DiskState::default();
    store.upsert(1, sample_record(1, "a"), 5_000, 1_000);
    store.upsert(2, sample_record(2, "b"), 5_000, 1_000);

    let snapshot = store.compact();
    assert_eq!(snapshot.entries.len(), 2);

    let mut reopened = DiskState::default();
    reopened.load_snapshot(snapshot.schema_version, snapshot.entries).expect("reopen");
    assert!(reopened.load(1, 1_001).0.is_some());
    assert!(reopened.load(2, 1_001).0.is_some());
}

#[test]
fn disk_backend_detects_checksum_corruption() {
    let mut store = DiskState::default();
    let (_, op) = store.upsert(9, sample_record(9, "x"), 5_000, 10);
    let line = match line_of(op) {
        LogLine::Entry { op, checksum, mut op_bytes } => {
            op_bytes[0] ^= 0x01;
            LogLine::Entry { op, checksum, op_bytes }
        }
        _ => unreachable!(),
    };
    let err = DiskState::default().replay_log(vec![line]).expect_err("must fail checksum");
    assert_eq!(err, StoreError::ChecksumMismatch);
    let err = DiskState::default().replay_log(vec![LogLine::Corrupt]).expect_err("corrupt");
    assert_eq!(err, StoreError::CorruptLogEntry);
}

#[test]
fn disk_backend_supports_schema_migration_from_v0() {
    let record = sample_record(55, "legacy");
    let data = StoredData {
        schema: None,
        current: Err("missing field `schema_version`".to_string()),
        legacy: Ok(record),
    };
    let op = LoggedOp::Upsert { cid: 55, version: 1, expires_at_ms: 50_000, data: Ok(data) };
    let op_bytes = b"op".to_vec();
    let checksum = DiskLogEntry::new(DiskOp::Delete { cid: 55 }, &op_bytes).checksum;

    let mut store = DiskState::default();
    store.replay_log(vec![LogLine::Entry { op, checksum, op_bytes }]).expect("load migrated");
    assert!(store.load(55, 40_000).0.is_some());
}

#[test]
fn shards_are_needed() {
    assert_eq!(InMemorySessionStore::new(0).err(), Some(StoreError::InvalidShardCount));
    assert_eq!(InMemorySessionStore::new(3).expect("three").shards.len(), 3);
    assert_eq!(InMemorySessionStore::default().shards.len(), 32);
}

#[test]
fn versions_count_writes_and_start_over_after_expiry() {
    let mut store = InMemorySessionStore::new(2).expect("store");
    assert_eq!(store.upsert(1, sample_record(1, "a"), 10, 100).expect("w").version, 1);
    assert_eq!(store.upsert(1, sample_record(1, "b"), 10, 105).expect("w").version, 2);
    assert_eq!(store.load(1, 114).expect("l").expect("live").version, 2);
    assert_eq!(store.upsert(1, sample_record(1, "c"), 10, 115).expect("w").version, 1);
    let written = store.upsert(1, sample_record(1, "d"), u64::MAX, 116).expect("w");
    assert_eq!(written.expires_at_ms, u64::MAX);
}

#[test]
fn conflicts_tell_what_is_there() {
    let mut store = InMemorySessionStore::new(1).expect("store");
    assert_eq!(
        store.compare_and_swap(1, Some(4), sample_record(1, "a"), 10, 0),
        Err(StoreError::CasConflict { expected: Some(4), actual: None })
    );
    store.upsert(1, sample_record(1, "a"), 10, 0).expect("w");
    assert_eq!(
        store.compare_and_swap(1, None, sample_record(1, "b"), 10, 5),
        Err(StoreError::CasConflict { expected: None, actual: Some(1) })
    );
    assert_eq!(
        store.compare_and_swap(1, Some(1), sample_record(1, "b"), 10, 10),
        Err(StoreError::CasConflict { expected: Some(1), actual: None })
    );
    store.delete(1).expect("delete");
    assert!(store.load(1, 0).expect("l").is_none());
}

#[test]
fn cleanup_keeps_to_its_limit() {
    let mut store = InMemorySessionStore::new(4).expect("store");
    for cid in 0..10 {
        store.upsert(cid, sample_record(cid, "p"), 5, 0).expect("w");
    }
    store.upsert(100, sample_record(100, "live"), 500, 0).expect("w");
    assert!(store.scan_expired(5, 0).expect("none").is_empty());
    assert_eq!(store.scan_expired(5, 3).expect("some").len(), 3);
    assert_eq!(store.scan_expired(5, 100).expect("rest").len(), 7);
    assert!(store.load(100, 5).expect("l").is_some());
}

#[test]
fn store_errors_speak() {
    let conflict = StoreError::CasConflict { expected: Some(3), actual: None };
    assert_eq!(conflict.message(), "CAS conflict: expected=Some(3), actual=None");
    assert_eq!(StoreError::InvalidShardCount.message(), "invalid shard count");
    assert_eq!(StoreError::Serialization("x".into()).message(), "serialization failed: x");
    assert_eq!(
        StoreError::UnsupportedSchemaVersion(9).message(),
        "unsupported schema version: 9"
    );
    assert_eq!(StoreError::Backend("x".into()).message(), "backend error: x");
    assert_eq!(StoreError::Io("x".into()).message(), "io error: x");
    assert_eq!(StoreError::CorruptLogEntry.message(), "corrupt log entry");
    assert_eq!(StoreError::ChecksumMismatch.message(), "checksum mismatch");
}

#[test]
fn schemas_of_any_age_are_told_apart() {
    let data = |schema: Option<u64>| {
        Ok(StoredData {
            schema,
            current: Ok(encode_session_record(&sample_record(1, "current"))),
            legacy: Ok(sample_record(1, "legacy")),
        })
    };
    let peer = |schema| decode_session_record_migrating(data(schema)).map(|r| r.peer_id);
    assert_eq!(peer(Some(1)), Ok("current".to_string()));
    assert_eq!(peer(Some(0)), Ok("legacy".to_string()));
    assert_eq!(peer(None), Ok("legacy".to_string()));
    assert_eq!(peer(Some(0x1_0001)), Ok("current".to_string()));
    assert_eq!(peer(Some(7)), Err(StoreError::UnsupportedSchemaVersion(7)));
    assert_eq!(
        decode_session_record_migrating(Err("eof".to_string())),
        Err(StoreError::Serialization("eof".to_string()))
    );
    assert_eq!(
        decode_session_record(Err("eof".to_string())),
        Err(StoreError::Serialization("eof".to_string()))
    );
}

#[test]
fn disk_writes_log_what_they_do() {
    let mut store = DiskState::default();
    let (_, op) = store
        .compare_and_swap(1, None, sample_record(1, "a"), 10, 0)
        .expect("first write");
    assert_eq!(
        op,
        DiskOp::Upsert {
            cid: 1,
            version: 1,
            expires_at_ms: 10,
            data: encode_session_record(&sample_record(1, "a")),
        }
    );
    assert_eq!(
        store.compare_and_swap(1, None, sample_record(1, "b"), 10, 5).err(),
        Some(StoreError::CasConflict { expected: None, actual: Some(1) })
    );
    assert_eq!(store.load(1, 10).1, Some(DiskOp::Delete { cid: 1 }));
    assert_eq!(store.load(1, 10), (None, None));
    store.upsert(2, sample_record(2, "b"), 10, 0);
    assert_eq!(store.scan_expired(10, 5), (vec![2], vec![DiskOp::Delete { cid: 2 }]));
    assert_eq!(store.delete(3), DiskOp::Delete { cid: 3 });
}

#[test]
fn a_log_is_read_up_to_its_first_error() {
    let mut source = DiskState::default();
    let (_, first) = source.upsert(1, sample_record(1, "a"), 10, 0);
    let (_, second) = source.upsert(2, sample_record(2, "b"), 10, 0);
    let gone = source.delete(1);
    let mut store = DiskState::default();
    assert_eq!(
        store.replay_log(vec![
            LogLine::Blank,
            line_of(first),
            LogLine::Unreadable("bad disk".to_string()),
            line_of(second),
        ]),
        Err(StoreError::Io("bad disk".to_string()))
    );
    assert!(store.load(1, 0).0.is_some());
    assert!(store.load(2, 0).0.is_none());
    assert_eq!(store.replay_log(vec![line_of(gone)]), Ok(()));
    assert!(store.load(1, 0).0.is_none());
    assert_eq!(
        store.replay_log(vec![LogLine::Unwritable("nan".to_string())]),
        Err(StoreError::Serialization("nan".to_string()))
    );
}

#[test]
fn snapshots_of_other_layouts_are_refused() {
    let mut store = DiskState::default();
    assert_eq!(
        store.load_snapshot(2, Vec::new()),
        Err(StoreError::UnsupportedSchemaVersion(2))
    );
    let item = SnapshotItem {
        cid: 1,
        version: 1,
        expires_at_ms: 10,
        data: Err("eof".to_string()),
    };
    assert_eq!(
        store.load_snapshot(1, vec![item]),
        Err(StoreError::Serialization("eof".to_string()))
    );
}

#[test]
fn redis_keys_and_arguments() {
    let keys = RedisKeys { key_prefix: "v3".to_string() };
    assert_eq!(keys.session_key(17), "v3:session:17");
    assert_eq!(keys.expiry_index_key(), "v3:session_expiry");
    assert_eq!(expected_argument(None), "");
    assert_eq!(expected_argument(Some(12)), "12");
    assert_eq!(expiry(5, 7), 12);
    assert_eq!(expiry(5, u64::MAX), u64::MAX);
}

#[test]
fn redis_replies_are_taken() {
    let record = sample_record(1, "r");
    assert_eq!(
        swapped(&[1, 4], Some(3), record.clone(), 99),
        Ok(VersionedRecord { version: 4, record: record.clone(), expires_at_ms: 99 })
    );
    assert_eq!(
        swapped(&[0, -1], Some(3), record.clone(), 99),
        Err(StoreError::CasConflict { expected: Some(3), actual: None })
    );
    assert_eq!(
        swapped(&[0, 8], None, record.clone(), 99),
        Err(StoreError::CasConflict { expected: None, actual: Some(8) })
    );
    assert_eq!(
        swapped(&[1], None, record.clone(), 99),
        Err(StoreError::Backend("invalid CAS response from redis script".to_string()))
    );
    assert_eq!(loaded(None), Ok(None));
    let reply = |version: Result<u64, String>| LoadReply {
        version,
        expires_at_ms: Ok(9),
        payload: Ok(Ok(encode_session_record(&sample_record(1, "r")))),
    };
    assert_eq!(
        loaded(Some(reply(Ok(2)))),
        Ok(Some(VersionedRecord { version: 2, record, expires_at_ms: 9 }))
    );
    assert_eq!(
        loaded(Some(reply(Err("nil".to_string())))),
        Err(StoreError::Backend("invalid redis version: nil".to_string()))
    );
}

#[test]
fn redis_members_name_sessions() {
    assert_eq!(parse_member("18446744073709551615"), Some(u64::MAX));
    assert_eq!(parse_member("18446744073709551616"), None);
    assert_eq!(parse_member("+7"), Some(7));
    assert_eq!(parse_member("007"), Some(7));
    assert_eq!(parse_member(""), None);
    assert_eq!(parse_member("+"), None);
    assert_eq!(parse_member("-1"), None);
    assert_eq!(parse_member("1x"), None);
    let members = vec!["5".to_string(), "x".to_string(), "6".to_string()];
    assert_eq!(cleanup_targets(&members), vec![(0, 5), (2, 6)]);
    assert_eq!(removed(&vec![(5, 1), (6, 0), (7, 1)]), vec![5, 7]);
}

#[test]
fn reopened_store_has_the_records_whenever_it_was_compacted() {
    let steps = 6;
    for compacted_after in 0..=steps {
        let mut store = DiskState::default();
        let mut snapshot = None;
        let mut log = Vec::new();
        for step in 0..steps {
            if step == compacted_after {
                snapshot = Some(store.compact());
                log.clear();
            }
            match step {
                0 => log.push(store.upsert(1, sample_record(1, "a"), 5_000, 10).1),
                1 => log.push(store.upsert(2, sample_record(2, "b"), 50, 10).1),
                2 => log.push(
                    store
                        .compare_and_swap(1, Some(1), sample_record(1, "c"), 5_000, 20)
                        .expect("swap")
                        .1,
                ),
                3 => log.push(store.upsert(3, sample_record(3, "d"), 5_000, 30).1),
                4 => log.push(store.delete(3)),
                _ => log.extend(store.scan_expired(100, 10).1),
            }
        }
        let mut reopened = DiskState::default();
        if let Some(snapshot) = snapshot {
            reopened.load_snapshot(snapshot.schema_version, snapshot.entries).expect("snapshot");
        }
        reopened.replay_log(log.into_iter().map(line_of).collect()).expect("log");
        for cid in 1..=3 {
            assert_eq!(reopened.load(cid, 100).0, store.load(cid, 100).0);
        }
        let kept = reopened.load(1, 100).0.expect("kept");
        assert_eq!((kept.version, kept.record.peer_id.as_str(), kept.expires_at_ms), (2, "c", 5_020));
    }
}
