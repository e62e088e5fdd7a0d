use todero_protocol::client_runtime::{ClientRuntime, ClientRuntimeError, ClientRuntimeEvent};
use todero_protocol::json::{JsonNumber, JsonValue};
use todero_protocol::session::{CoreConfig, CoreError, Event, LifecycleState, TimerProposal};
use todero_protocol::traversal::{CandidateType, IceCandidate, IpAddress, RelayPolicy};
use todero_protocol::wire::{MessageType, WireFrame};

fn text(t: &str) -> JsonValue {
    JsonValue::Text(t.to_string())
}

fn number(n: u64) -> JsonValue {
    JsonValue::Number(JsonNumber::Positive(n))
}

fn candidate(
    address: Option<&str>,
    port: Option<u64>,
    typ: Option<&str>,
    priority: Option<u64>,
) -> JsonValue {
    let mut fields = Vec::new();
    if let Some(address) = address {
        fields.push(("address".to_string(), text(address)));
    }
    if let Some(port) = port {
        fields.push(("port".to_string(), number(port)));
    }
    if let Some(typ) = typ {
        fields.push(("type".to_string(), text(typ)));
    }
    if let Some(priority) = priority {
        fields.push(("priority".to_string(), number(priority)));
    }
    JsonValue::Object(fields)
}

fn discovery(candidates: Vec<JsonValue>) -> JsonValue {
    JsonValue::Object(vec![("candidates".to_string(), JsonValue::Array(candidates))])
}

fn cfg() -> CoreConfig {
    CoreConfig { msr_interval_ms: 100, miss_window_count: 2, disconnect_window_ms: 1_000 }
}

#[test]
fn client_probe_timer_is_driven_by_runtime_scheduler() {
    let mut runtime = ClientRuntime::new(77, cfg());
    runtime.begin_handshake(0).expect("begin");
    let server_hello = WireFrame::new(MessageType::ServerHello, 0, 77, Vec::new(), Vec::new())
        .encode()
        .expect("encode");
    runtime.on_datagram(1, 9, &server_hello).expect("hello");

    // No server MSR arrives; polling beyond miss window triggers probe.
    let out = runtime.poll_timers(250, 8).expect("poll");
    assert!(out
        .events
        .iter()
        .any(|e| matches!(e, ClientRuntimeEvent::Core(Event::ReactivationProbeSent))));
    assert_eq!(runtime.state(), LifecycleState::Reactivating);
}

#[test]
fn client_runtime_ice_nomination_updates_path() {
    let mut runtime = ClientRuntime::new(77, cfg());
    runtime.set_relay_policy(RelayPolicy::RelayOnly);
    runtime.set_local_candidates(vec![
        IceCandidate {
            foundation: "a".to_string(),
            component: 1,
            transport: "udp".to_string(),
            priority: 100,
            address: IpAddress::V4(u32::from_be_bytes([10, 0, 0, 1])),
            port: 5000,
            typ: CandidateType::Host,
            related_address: None,
            related_port: None,
        },
        IceCandidate {
            foundation: "b".to_string(),
            component: 1,
            transport: "udp".to_string(),
            priority: 200,
            address: IpAddress::V4(u32::from_be_bytes([203, 0, 113, 10])),
            port: 6000,
            typ: CandidateType::Relay,
            related_address: None,
            related_port: None,
        },
    ]);
    runtime.set_remote_candidates(vec![IceCandidate {
        foundation: "c".to_string(),
        component: 1,
        transport: "udp".to_string(),
        priority: 200,
        address: IpAddress::V4(u32::from_be_bytes([203, 0, 113, 20])),
        port: 7000,
        typ: CandidateType::Relay,
        related_address: None,
        related_port: None,
    }]);

    let out = runtime.run_ice_nomination().expect("nominate");
    assert!(out.events.is_empty());
}

#[test]
fn remote_candidates_loaded_from_discovery_payload() {
    let mut runtime = ClientRuntime::new(77, cfg());
    let payload = discovery(vec![candidate(
        Some("203.0.113.10"),
        Some(6000),
        Some("relay"),
        Some(220),
    )]);
    let texts = ClientRuntime::discovery_addresses(&payload);
    assert_eq!(texts, vec![Some("203.0.113.10".to_string())]);
    let addresses = [Some(IpAddress::V4(u32::from_be_bytes([203, 0, 113, 10])))];
    let count =
        runtime.load_remote_candidates_from_discovery(&payload, &addresses).expect("load");
    assert_eq!(count, 1);
}

#[test]
fn metrics_capture_core_and_nat_events() {
    let mut runtime = ClientRuntime::new(77, cfg());
    runtime.begin_handshake(0).expect("begin");
    let server_hello = WireFrame::new(MessageType::ServerHello, 0, 77, Vec::new(), Vec::new())
        .encode()
        .expect("encode");
    runtime.on_datagram(1, 9, &server_hello).expect("hello");
    runtime.poll_timers(250, 8).expect("poll");
    runtime.on_nat_tick(260);
    let m = runtime.metrics_snapshot();
    assert!(m.handshake_started >= 1);
    assert!(m.handshake_established >= 1);
    assert!(m.reactivation_probe_sent >= 1);
    assert!(m.msr_sent >= 1);
}

#[test]
fn dedupes_probe_timer_when_handshake_and_server_hello_share_timestamp() {
    let mut runtime = ClientRuntime::new(77, cfg());
    runtime.begin_handshake(1_000).expect("begin");
    let server_hello = WireFrame::new(MessageType::ServerHello, 0, 77, Vec::new(), Vec::new())
        .encode()
        .expect("encode");
    runtime.on_datagram(1_000, 9, &server_hello).expect("hello");

    let out = runtime.poll_timers(1_250, 16).expect("poll");
    let probe_count = out
        .events
        .iter()
        .filter(|e| matches!(e, ClientRuntimeEvent::Core(Event::ReactivationProbeSent)))
        .count();
    assert_eq!(probe_count, 1);
}

#[test]
fn incomplete_discovery_replies_change_nothing() {
    let mut runtime = ClientRuntime::new(77, cfg());
    let address = [Some(IpAddress::V4(1))];
    let good = discovery(vec![candidate(Some("0.0.0.1"), Some(0x1_0007), None, None)]);
    assert_eq!(runtime.load_remote_candidates_from_discovery(&good, &address), Ok(1));
    let held = &runtime.remote_candidates[0];
    assert_eq!(held.foundation, "remote");
    assert_eq!((held.port, held.priority, held.typ), (7, 100, CandidateType::Host));
    let mut refused = |payload: JsonValue, addresses: &[Option<IpAddress>]| {
        assert_eq!(
            runtime.load_remote_candidates_from_discovery(&payload, addresses),
            Err(ClientRuntimeError::InvalidCandidatePayload)
        );
        assert_eq!(runtime.remote_candidates.len(), 1);
    };
    refused(JsonValue::Null, &address);
    refused(discovery(vec![candidate(None, Some(1), None, None)]), &address);
    refused(discovery(vec![candidate(Some("x"), None, None, None)]), &address);
    refused(discovery(vec![candidate(Some("x"), Some(1), None, None)]), &[None]);
    refused(discovery(vec![candidate(Some("x"), Some(1), None, None)]), &[]);
}

#[test]
fn srflx_candidates_are_known() {
    let mut runtime = ClientRuntime::new(77, cfg());
    let payload = discovery(vec![candidate(Some("x"), Some(1), Some("srflx"), None)]);
    let address = [Some(IpAddress::V4(1))];
    assert_eq!(runtime.load_remote_candidates_from_discovery(&payload, &address), Ok(1));
    assert_eq!(runtime.remote_candidates[0].typ, CandidateType::Srflx);
}

#[test]
fn client_errors_speak() {
    assert_eq!(
        ClientRuntimeError::Core(CoreError::MalformedMsr).message(),
        "core error: malformed MSR payload"
    );
    assert_eq!(
        ClientRuntimeError::InvalidCandidatePayload.message(),
        "invalid candidate payload"
    );
}

#[test]
fn client_calls_go_to_the_machine() {
    let mut runtime = ClientRuntime::new(77, cfg());
    let proposal = TimerProposal {
        msr_interval_ms: 2_000,
        miss_window_count: 3,
        disconnect_window_ms: 20_000,
    };
    assert_eq!(
        runtime.propose_timers(0, proposal).err(),
        Some(ClientRuntimeError::Core(CoreError::InvalidStateForRenegotiation))
    );
    assert!(runtime.send_message(vec![1]).expect("queued").outbound_datagrams.is_empty());
    runtime.on_path_changed(5).expect("path");
    assert_eq!(runtime.core.current_path_id, 5);
    let out = runtime.close_session().expect("close");
    assert_eq!(out.events, vec![ClientRuntimeEvent::Core(Event::Disconnected)]);
    assert_eq!(runtime.metrics_snapshot().disconnected, 1);
    assert!(runtime.has_room(0));
    assert!(!runtime.has_room(u64::MAX));
}
