use todero_protocol::server_runtime::runtime::micros_of;
use todero_protocol::server_runtime::{
    RuntimeEvent, ServerRuntime, ServerRuntimeError, ServerRuntimeOutput,
};
use todero_protocol::session::{CoreConfig, CoreError, Event, LifecycleState};
use todero_protocol::store::{
    InMemorySessionStore, SessionRecord, SessionStore, StoreError, VersionedRecord,
};
use todero_protocol::traversal::{CandidateType, IceCandidate, IpAddress, RelayPolicy};
use todero_protocol::wire::{MessageType, WireError, WireFrame};

fn cfg() -> CoreConfig {
    CoreConfig { msr_interval_ms: 100, miss_window_count: 2, disconnect_window_ms: 1_000 }
}

fn client_hello(cid: u64) -> Vec<u8> {
    WireFrame::new(MessageType::ClientHello, 0, cid, Vec::new(), Vec::new())
        .encode()
        .expect("encode")
}

fn relay_candidate(ip: [u8; 4], port: u16) -> IceCandidate {
    IceCandidate {
        foundation: "r".to_string(),
        component: 1,
        transport: "udp".to_string(),
        priority: 200,
        address: IpAddress::V4(u32::from_be_bytes(ip)),
        port,
        typ: CandidateType::Relay,
        related_address: None,
        related_port: None,
    }
}

#[test]
fn server_runtime_routes_sessions_by_cid_and_persists() {
    let store = InMemorySessionStore::with_default_shards();
    let mut runtime = ServerRuntime::new(cfg(), store);

    let out1 = runtime.on_datagram(1, 3, &client_hello(100)).expect("dgram 1");
    let out2 = runtime.on_datagram(2, 5, &client_hello(200)).expect("dgram 2");

    assert_eq!(runtime.active_sessions(), 2);
    assert_eq!(out1.outbound_datagrams.len(), 1);
    assert_eq!(out2.outbound_datagrams.len(), 1);

    assert!(runtime.store.load(100, 3).expect("load").is_some());
    assert!(runtime.store.load(200, 3).expect("load").is_some());
}

#[test]
fn parse_error_does_not_crash_runtime() {
    let store = InMemorySessionStore::with_default_shards();
    let mut runtime = ServerRuntime::new(cfg(), store);

    let out = runtime.on_datagram(1, 1, &[0x01, 0x02]).expect("parse-safe");
    assert_eq!(out.events, vec![RuntimeEvent::ParseError]);
    assert!(out.outbound_datagrams.is_empty());
    let m = runtime.metrics_snapshot();
    assert_eq!(m.parse_errors, 1);
}

#[test]
fn ice_nomination_binds_vhost_to_selected_path() {
    let store = InMemorySessionStore::with_default_shards();
    let mut runtime = ServerRuntime::new(cfg(), store);
    let _ = runtime.on_datagram(1, 10, &client_hello(777)).expect("hello");

    let out = runtime
        .on_ice_candidates(
            777,
            "vh.local".to_string(),
            vec![relay_candidate([203, 0, 113, 1], 5000)],
            vec![relay_candidate([203, 0, 113, 2], 6000)],
        )
        .expect("ice");
    assert!(out.events.is_empty());
}

#[test]
fn server_runtime_can_gather_host_candidates() {
    let store = InMemorySessionStore::with_default_shards();
    let runtime = ServerRuntime::new(cfg(), store);
    let gathered =
        runtime.gather_local_candidates(&[(IpAddress::V4(u32::from_be_bytes([10, 0, 0, 1])), 5000)], 1);
    assert_eq!(gathered.len(), 1);
    assert_eq!(gathered[0].typ, CandidateType::Host);
}

#[test]
fn metrics_capture_core_nat_and_store_activity() {
    let store = InMemorySessionStore::with_default_shards();
    let mut runtime = ServerRuntime::new(cfg(), store);
    let _ = runtime.on_datagram(1, 3, &client_hello(500)).expect("hello");
    let _ = runtime
        .on_ice_candidates(
            500,
            "vh.local".to_string(),
            vec![relay_candidate([203, 0, 113, 1], 5000)],
            vec![relay_candidate([203, 0, 113, 2], 6000)],
        )
        .expect("ice");
    let _ = runtime.poll_timers(200, 8).expect("timers");
    let _ = runtime.on_nat_tick(10_000);
    let m = runtime.metrics_snapshot();
    assert!(m.handshake_established >= 1);
    assert!(m.msr_sent >= 1);
    assert!(m.store_load_calls >= 1);
    assert!(m.store_upsert_calls >= 1);
    assert_eq!(m.ice_candidate_selected, 0);
    assert!(m.peak_sessions >= 1);
}

/// A store that fails in every call.
struct BrokenStore;

impl SessionStore for BrokenStore {
    fn load(&mut self, _: u64, _: u64) -> Result<Option<VersionedRecord>, StoreError> {
        Err(StoreError::Backend("down".to_string()))
    }

    fn compare_and_swap(
        &mut self,
        _: u64,
        _: Option<u64>,
        _: SessionRecord,
        _: u64,
        _: u64,
    ) -> Result<VersionedRecord, StoreError> {
        Err(StoreError::Backend("down".to_string()))
    }

    fn upsert(
        &mut self,
        _: u64,
        _: SessionRecord,
        _: u64,
        _: u64,
    ) -> Result<VersionedRecord, StoreError> {
        Err(StoreError::Backend("down".to_string()))
    }

    fn delete(&mut self, _: u64) -> Result<(), StoreError> {
        Err(StoreError::Backend("down".to_string()))
    }

    fn scan_expired(&mut self, _: u64, _: usize) -> Result<Vec<u64>, StoreError> {
        Err(StoreError::Backend("down".to_string()))
    }
}

fn frame(message_type: MessageType, cid: u64, payload: Vec<u8>) -> Vec<u8> {
    WireFrame::new(message_type, 0, cid, payload, Vec::new()).encode().expect("encode")
}

#[test]
fn store_failures_are_passed_on_and_counted() {
    let mut runtime = ServerRuntime::new(cfg(), BrokenStore);
    let err = runtime.on_datagram(1, 3, &client_hello(100)).expect_err("load fails");
    assert_eq!(err, ServerRuntimeError::Store(StoreError::Backend("down".to_string())));
    assert_eq!(runtime.active_sessions(), 0);
    let m = runtime.metrics_snapshot();
    assert_eq!((m.store_load_calls, m.store_load_failures), (1, 1));

    runtime.session_loaded(100, 3, Ok(None), 5).expect("opened");
    assert_eq!(runtime.metrics_snapshot().store_load_latency_us_total >= 5, true);
    let err = runtime.on_datagram(1, 3, &client_hello(100)).expect_err("upsert fails");
    assert_eq!(err, ServerRuntimeError::Store(StoreError::Backend("down".to_string())));
    assert_eq!(runtime.metrics_snapshot().store_upsert_failures, 1);
    assert_eq!(runtime.active_sessions(), 1);

    let err = runtime
        .on_datagram(2, 3, &frame(MessageType::Close, 100, Vec::new()))
        .expect_err("delete fails");
    assert_eq!(err, ServerRuntimeError::Store(StoreError::Backend("down".to_string())));
    assert_eq!(runtime.metrics_snapshot().store_delete_failures, 1);
    assert_eq!(runtime.active_sessions(), 0);
}

#[test]
fn stored_sessions_are_resumed() {
    let mut store = InMemorySessionStore::with_default_shards();
    let record = SessionRecord {
        cid: 5,
        peer_id: "known-peer".to_string(),
        negotiated_msr_interval_ms: 70,
        disconnect_window_ms: 700,
        last_ordered_rx: 0,
        last_ordered_tx: 0,
    };
    store.upsert(5, record, 1_000, 0).expect("upsert");
    let mut runtime = ServerRuntime::new(cfg(), store);
    runtime.on_datagram(1, 9, &client_hello(5)).expect("hello");
    let session = &runtime.sessions[&5];
    assert_eq!(session.peer_id, "known-peer");
    assert_eq!(session.core.cfg.msr_interval_ms, 70);
    assert_eq!(session.core.cfg.miss_window_count, 2);
    assert_eq!(session.core.cfg.disconnect_window_ms, 700);
    let kept = runtime.store.load(5, 2).expect("load").expect("kept");
    assert_eq!(kept.version, 2);
    assert_eq!(kept.record.negotiated_msr_interval_ms, 100);
    assert_eq!(kept.record.peer_id, "known-peer");
}

#[test]
fn new_sessions_are_named_by_their_path() {
    let mut runtime = ServerRuntime::new(cfg(), InMemorySessionStore::default());
    runtime.on_datagram(1, 42, &client_hello(5)).expect("hello");
    let kept = runtime.store.load(5, 2).expect("load").expect("kept");
    assert_eq!(kept.record.peer_id, "path:42");
    assert_eq!(kept.expires_at_ms, 1_001);
    assert_eq!(kept.record.last_ordered_tx, 0);
}

#[test]
fn stored_intervals_beyond_the_clock_are_refused() {
    let mut store = InMemorySessionStore::default();
    let record = SessionRecord {
        cid: 5,
        peer_id: "p".to_string(),
        negotiated_msr_interval_ms: 70,
        disconnect_window_ms: u64::MAX,
        last_ordered_rx: 0,
        last_ordered_tx: 0,
    };
    store.upsert(5, record, 1_000, 0).expect("upsert");
    let mut runtime = ServerRuntime::new(cfg(), store);
    assert_eq!(
        runtime.on_datagram(1, 9, &client_hello(5)),
        Err(ServerRuntimeError::ClockOverflow)
    );
}

#[test]
fn lost_sessions_are_forgotten() {
    let mut runtime = ServerRuntime::new(cfg(), InMemorySessionStore::default());
    runtime.on_datagram(1, 3, &client_hello(8)).expect("hello");
    let out =
        runtime.on_datagram(2, 3, &frame(MessageType::Close, 8, Vec::new())).expect("close");
    assert_eq!(out.events, vec![RuntimeEvent::CoreEvent { cid: 8, event: Event::Disconnected }]);
    assert_eq!(runtime.active_sessions(), 0);
    assert!(runtime.store.load(8, 3).expect("load").is_none());
    let m = runtime.metrics_snapshot();
    assert_eq!((m.disconnected, m.disconnect_reason_unknown, m.store_delete_calls), (2, 2, 1));
    // Timers of the session that is gone do nothing.
    assert_eq!(
        runtime.poll_timers(10_000, 100),
        Ok(ServerRuntimeOutput { outbound_datagrams: Vec::new(), events: Vec::new() })
    );
}

#[test]
fn messages_come_in_as_text() {
    let mut runtime = ServerRuntime::new(cfg(), InMemorySessionStore::default());
    runtime.on_datagram(1, 3, &client_hello(8)).expect("hello");
    let mut payload = 1u64.to_be_bytes().to_vec();
    payload.extend_from_slice(b"hello");
    let out = runtime.on_datagram(2, 3, &frame(MessageType::Data, 8, payload)).expect("data");
    assert!(out.events.contains(&RuntimeEvent::MessageReceived {
        cid: 8,
        msg_id: 1,
        payload_b64: "aGVsbG8=".to_string(),
    }));
}

#[test]
fn repeated_data_is_counted_as_retransmission() {
    let mut runtime = ServerRuntime::new(cfg(), InMemorySessionStore::default());
    runtime.on_datagram(1, 3, &client_hello(8)).expect("hello");
    runtime.send_message(8, b"m".to_vec(), 2).expect("send");
    let mut range = 1u64.to_be_bytes().to_vec();
    range.extend_from_slice(&1u64.to_be_bytes());
    let request = frame(MessageType::RequestRange, 8, range);
    runtime.on_datagram(3, 3, &request).expect("request");
    runtime.on_datagram(4, 3, &request).expect("again");
    let m = runtime.metrics_snapshot();
    assert_eq!((m.data_sent, m.data_retransmit_inferred), (2, 1));
    assert!(m.msr_sent >= 1);
}

#[test]
fn messages_without_a_session_go_nowhere() {
    let mut runtime = ServerRuntime::new(cfg(), InMemorySessionStore::default());
    let out = runtime.send_message(1, vec![1], 0).expect("nothing");
    assert!(out.events.is_empty() && out.outbound_datagrams.is_empty());
    assert!(!runtime.has_session(1));
}

#[test]
fn bound_paths_are_told() {
    let mut runtime = ServerRuntime::new(cfg(), InMemorySessionStore::default());
    runtime.on_datagram(1, 3, &client_hello(8)).expect("hello");
    let session = runtime.sessions.get_mut(&8).expect("session");
    session.bound_vhost = Some("vh".to_string());
    session.selected_path_id = Some(4);
    let msr = frame(MessageType::Msr, 8, vec![0; 16]);
    assert!(runtime.on_datagram(2, 3, &msr).expect("other path").events.is_empty());
    assert_eq!(
        runtime.on_datagram(3, 4, &msr).expect("bound path").events[0],
        RuntimeEvent::VhostPathBound { cid: 8, vhost: "vh".to_string(), path_id: 4 }
    );
}

#[test]
fn room_and_policy() {
    let mut runtime = ServerRuntime::new_with_nat_policy(
        cfg(),
        InMemorySessionStore::default(),
        RelayPolicy::RelayOnly,
    );
    assert_eq!(runtime.relay_policy, RelayPolicy::RelayOnly);
    runtime.set_relay_policy(RelayPolicy::PreferDirect);
    assert_eq!(runtime.relay_policy, RelayPolicy::PreferDirect);
    assert!(runtime.has_room(u64::MAX));
    runtime.on_datagram(1, 3, &client_hello(8)).expect("hello");
    assert!(runtime.has_room(1));
    assert!(!runtime.has_room(u64::MAX));
    assert!(!runtime.session_has_room(8, u64::MAX));
    assert!(runtime.session_has_room(9, u64::MAX));
    assert_eq!(runtime.sessions[&8].core.state(), LifecycleState::Established);
}

#[test]
fn server_errors_speak() {
    assert_eq!(
        ServerRuntimeError::Wire(WireError::Truncated).message(),
        "wire error: input is truncated"
    );
    assert_eq!(
        ServerRuntimeError::Core(CoreError::MalformedData).message(),
        "core error: malformed data payload"
    );
    assert_eq!(
        ServerRuntimeError::Store(StoreError::ChecksumMismatch).message(),
        "store error: checksum mismatch"
    );
    assert_eq!(ServerRuntimeError::ClockOverflow.message(), "clock overflow");
}

#[test]
fn machine_errors_are_passed_on() {
    let mut runtime = ServerRuntime::new(cfg(), InMemorySessionStore::default());
    runtime.on_datagram(1, 3, &client_hello(8)).expect("hello");
    assert_eq!(
        runtime.on_datagram(1, 3, &frame(MessageType::Data, 8, vec![1])),
        Err(ServerRuntimeError::Core(CoreError::MalformedData))
    );
}

#[test]
fn spans_are_counted_in_whole_microseconds() {
    assert_eq!(micros_of(&std::time::Duration::from_nanos(1_500_999)), 1_500);
    assert_eq!(micros_of(&std::time::Duration::from_secs(2)), 2_000_000);
    let span = std::time::Duration::from_secs(18_446_744_073_709);
    assert_eq!(micros_of(&(span + std::time::Duration::from_micros(551_616))), 0);
    assert_eq!(micros_of(&(span + std::time::Duration::from_micros(551_617))), 1);
}

#[test]
fn hellos_are_answered_on_their_paths_and_persisted() {
    let mut runtime = ServerRuntime::new(cfg(), InMemorySessionStore::with_default_shards());
    for (now, path, cid) in [(1u64, 3u32, 100u64), (2, 5, 200)] {
        let out = runtime.on_datagram(now, path, &client_hello(cid)).expect("hello");
        assert_eq!(out.outbound_datagrams.len(), 1);
        assert_eq!(out.outbound_datagrams[0].path_id, path);
        let answer = WireFrame::decode(&out.outbound_datagrams[0].bytes).expect("frame");
        assert_eq!((answer.message_type, answer.cid), (MessageType::ServerHello, cid));
    }
    assert_eq!(runtime.active_sessions(), 2);
    for (cid, peer, expires_at_ms) in [(100u64, "path:3", 1_001u64), (200, "path:5", 1_002)] {
        let entry = runtime.store.load(cid, 3).expect("load").expect("record");
        assert_eq!(
            entry,
            VersionedRecord {
                version: 1,
                record: SessionRecord {
                    cid,
                    peer_id: peer.to_string(),
                    negotiated_msr_interval_ms: 100,
                    disconnect_window_ms: 1_000,
                    last_ordered_rx: 0,
                    last_ordered_tx: 0,
                },
                expires_at_ms,
            }
        );
    }
    let again = runtime.on_datagram(4, 3, &client_hello(100)).expect("hello again");
    assert!(again.outbound_datagrams.is_empty() && again.events.is_empty());
    assert_eq!(runtime.store.load(100, 5).expect("load").expect("record").version, 2);
}
