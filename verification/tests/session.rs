use todero_protocol::session::{
    encode_frame, encode_msr_payload, encode_msr_signal_tlv, CoreConfig, CoreError, CoreMachine,
    Event, LifecycleState, PathEvent, Role, TimerAction, TimerId, TimerProposal, TLV_MSR_SIGNAL,
    TLV_TIMER_ACK, TLV_TIMER_PROPOSAL,
};
use todero_protocol::wire::{MessageType, Tlv, WireError, WireFrame};

fn default_cfg() -> CoreConfig {
    CoreConfig { msr_interval_ms: 100, miss_window_count: 2, disconnect_window_ms: 1000 }
}

#[test]
fn basic_connect_and_steady_state() {
    let cid = 42;
    let mut client = CoreMachine::new(Role::Client, cid, default_cfg());
    let mut server = CoreMachine::new(Role::Server, cid, default_cfg());

    let start = client.begin_handshake(0).expect("client begin");
    assert!(start.events.contains(&Event::HandshakeStarted));
    assert_eq!(start.outbound_datagrams.len(), 1);

    let server_step =
        server.on_datagram(1, 7, &start.outbound_datagrams[0].bytes).expect("server datagram");
    assert_eq!(server.state(), LifecycleState::Established);
    assert!(server_step.events.contains(&Event::HandshakeEstablished));

    let client_step = client
        .on_datagram(2, 7, &server_step.outbound_datagrams[0].bytes)
        .expect("client datagram");
    assert_eq!(client.state(), LifecycleState::Established);
    assert!(client_step.events.contains(&Event::HandshakeEstablished));
}

#[test]
fn missed_msr_triggers_probe_then_reactivation() {
    let cid = 7;
    let mut client = CoreMachine::new(Role::Client, cid, default_cfg());
    client.state = LifecycleState::Established;
    client.last_server_msr_at_ms = Some(0);
    client.disconnect_deadline_ms = Some(5_000);

    let probe = client.on_timer(250, TimerId::ClientProbe).expect("probe timer");
    assert_eq!(client.state(), LifecycleState::Reactivating);
    assert!(probe.events.contains(&Event::ReactivationProbeSent));

    let msr =
        encode_frame(MessageType::Msr, cid, &encode_msr_payload(0, 0)).expect("msr frame");
    let after = client.on_datagram(260, 3, &msr).expect("reactivation msr");
    assert_eq!(client.state(), LifecycleState::Established);
    assert!(after.events.contains(&Event::Reactivated));
}

#[test]
fn disconnect_convergence_marks_lost() {
    let cid = 9;
    let mut client = CoreMachine::new(Role::Client, cid, default_cfg());
    client.state = LifecycleState::Established;
    client.disconnect_deadline_ms = Some(1000);

    let out = client.on_timer(1001, TimerId::Disconnect).expect("disconnect timer");
    assert_eq!(client.state(), LifecycleState::Lost);
    assert!(out.events.contains(&Event::Disconnected));
}

#[test]
fn pull_flow_handles_repeated_request_and_ordered_delivery() {
    let cid = 99;
    let mut client = CoreMachine::new(Role::Client, cid, default_cfg());
    let mut server = CoreMachine::new(Role::Server, cid, default_cfg());
    client.state = LifecycleState::Established;
    server.state = LifecycleState::Established;

    let enqueue = client.on_api_send(b"hello".to_vec()).expect("enqueue");
    let advertise = &enqueue.outbound_datagrams[0].bytes;

    let req1 = server.on_datagram(10, 1, advertise).expect("server request 1");
    assert!(req1
        .events
        .iter()
        .any(|e| matches!(e, Event::RequestRangeSent { start: 1, end: 1 })));

    // Repeated MSR advertisement should not advance requested range beyond pending end.
    let req2 = server.on_datagram(11, 1, advertise).expect("server request 2");
    assert!(req2.outbound_datagrams.is_empty());

    // Client responds to request with DATA.
    let data_out =
        client.on_datagram(12, 1, &req1.outbound_datagrams[0].bytes).expect("client data send");
    assert_eq!(data_out.outbound_datagrams.len(), 1);

    // Server receives DATA and advances ordered delivery.
    let delivered = server
        .on_datagram(13, 1, &data_out.outbound_datagrams[0].bytes)
        .expect("server data recv");
    assert_eq!(server.last_ordered_rx(), 1);
    assert!(delivered
        .events
        .iter()
        .any(|e| matches!(e, Event::MessageDelivered { msg_id: 1 })));
}

#[test]
fn timer_renegotiation_commits_on_ack() {
    let cid = 101;
    let mut client = CoreMachine::new(Role::Client, cid, default_cfg());
    let mut server = CoreMachine::new(Role::Server, cid, default_cfg());
    client.state = LifecycleState::Established;
    server.state = LifecycleState::Established;

    let proposal = TimerProposal {
        msr_interval_ms: 2_000,
        miss_window_count: 3,
        disconnect_window_ms: 20_000,
    };

    let propose = client.on_api_propose_timers(1_000, proposal).expect("proposal");
    assert!(propose
        .events
        .iter()
        .any(|e| matches!(e, Event::TimerRenegotiationProposed { .. })));

    let server_seen = server
        .on_datagram(1_001, 9, &propose.outbound_datagrams[0].bytes)
        .expect("server handles proposal");
    assert!(server_seen
        .events
        .iter()
        .any(|e| matches!(e, Event::TimerRenegotiationCommitted { .. })));

    let client_ack = client
        .on_datagram(1_002, 9, &server_seen.outbound_datagrams[0].bytes)
        .expect("client handles ack");
    assert!(client_ack
        .events
        .iter()
        .any(|e| matches!(e, Event::TimerRenegotiationCommitted { .. })));
    assert_eq!(client.cfg.msr_interval_ms, 2_000);
    assert_eq!(client.cfg.miss_window_count, 3);
}

#[test]
fn timer_renegotiation_rejects_large_miss_window_step() {
    let cid = 202;
    let mut client = CoreMachine::new(Role::Client, cid, default_cfg());
    let mut server = CoreMachine::new(Role::Server, cid, default_cfg());
    client.state = LifecycleState::Established;
    server.state = LifecycleState::Established;

    let mut value = Vec::with_capacity(28);
    value.extend_from_slice(&1_u32.to_be_bytes());
    value.extend_from_slice(&2_000_u64.to_be_bytes());
    value.extend_from_slice(&10_u64.to_be_bytes());
    value.extend_from_slice(&20_000_u64.to_be_bytes());
    let frame = WireFrame::new(
        MessageType::Msr,
        0,
        cid,
        encode_msr_payload(0, 0),
        vec![Tlv { kind: TLV_TIMER_PROPOSAL, value }],
    )
    .encode()
    .expect("encode");

    let out = server.on_datagram(10, 1, &frame).expect("server datagram");
    assert!(out
        .events
        .iter()
        .any(|e| matches!(e, Event::TimerRenegotiationRejected { proposal_id: 1 })));
}

#[test]
fn timer_renegotiation_rolls_back_on_timeout() {
    let cid = 303;
    let mut client = CoreMachine::new(Role::Client, cid, default_cfg());
    client.state = LifecycleState::Established;

    let proposal = TimerProposal {
        msr_interval_ms: 2_000,
        miss_window_count: 3,
        disconnect_window_ms: 20_000,
    };

    let propose = client.on_api_propose_timers(1_000, proposal).expect("proposal");
    assert!(propose
        .timer_actions
        .iter()
        .any(|a| matches!(a, TimerAction::Schedule { id: TimerId::RenegotiationTimeout, .. })));

    let timed_out =
        client.on_timer(1_500, TimerId::RenegotiationTimeout).expect("reneg timeout");
    assert!(timed_out
        .events
        .iter()
        .any(|e| matches!(e, Event::TimerRenegotiationRolledBack { .. })));
    assert_eq!(client.cfg.msr_interval_ms, 100);
}

#[test]
fn pull_flow_tolerates_duplicate_and_reordered_data() {
    let cid = 404;
    let mut client = CoreMachine::new(Role::Client, cid, default_cfg());
    let mut server = CoreMachine::new(Role::Server, cid, default_cfg());
    client.state = LifecycleState::Established;
    server.state = LifecycleState::Established;

    let _ = client.on_api_send(b"m1".to_vec()).expect("enqueue 1");
    let adv2 = client.on_api_send(b"m2".to_vec()).expect("enqueue 2");
    let advertise = &adv2.outbound_datagrams[0].bytes;

    let req = server.on_datagram(10, 1, advertise).expect("request");
    assert!(req
        .events
        .iter()
        .any(|e| matches!(e, Event::RequestRangeSent { start: 1, end: 2 })));

    let data =
        client.on_datagram(11, 1, &req.outbound_datagrams[0].bytes).expect("produce data");
    assert_eq!(data.outbound_datagrams.len(), 2);

    let recv2 =
        server.on_datagram(12, 1, &data.outbound_datagrams[1].bytes).expect("recv msg2 first");
    assert_eq!(server.last_ordered_rx(), 0);
    assert!(recv2.events.is_empty());

    let _dup =
        server.on_datagram(13, 1, &data.outbound_datagrams[1].bytes).expect("recv msg2 dup");
    assert_eq!(server.last_ordered_rx(), 0);

    let recv1 =
        server.on_datagram(14, 1, &data.outbound_datagrams[0].bytes).expect("recv msg1");
    assert_eq!(server.last_ordered_rx(), 2);
    assert_eq!(
        recv1.events.iter().filter(|e| matches!(e, Event::MessageDelivered { .. })).count(),
        2
    );
}

#[test]
fn server_push_anytime_reaches_client_via_urgent_msr_and_pull() {
    let cid = 505;
    let mut client = CoreMachine::new(Role::Client, cid, default_cfg());
    let mut server = CoreMachine::new(Role::Server, cid, default_cfg());
    client.state = LifecycleState::Established;
    server.state = LifecycleState::Established;

    let push = server.on_api_send(b"from-server".to_vec()).expect("server enqueue");
    assert_eq!(push.outbound_datagrams.len(), 1);

    // Client sees server MSR with pending=1 and requests the range.
    let req = client
        .on_datagram(10, 1, &push.outbound_datagrams[0].bytes)
        .expect("client handles urgent msr");
    assert!(req
        .events
        .iter()
        .any(|e| matches!(e, Event::RequestRangeSent { start: 1, end: 1 })));
    assert_eq!(req.outbound_datagrams.len(), 1);

    // Server responds with DATA.
    let data = server
        .on_datagram(11, 1, &req.outbound_datagrams[0].bytes)
        .expect("server handles request");
    assert_eq!(data.outbound_datagrams.len(), 1);

    // Client receives ordered payload.
    let delivered = client
        .on_datagram(12, 1, &data.outbound_datagrams[0].bytes)
        .expect("client handles data");
    assert!(delivered
        .events
        .iter()
        .any(|e| matches!(e, Event::MessageDelivered { msg_id: 1 })));
    assert!(delivered.events.iter().any(
        |e| matches!(e, Event::MessageReceived { msg_id: 1, payload } if payload == b"from-server")
    ));
}

#[test]
fn client_close_api_emits_close_and_server_drops_session() {
    let cid = 808;
    let mut client = CoreMachine::new(Role::Client, cid, default_cfg());
    let mut server = CoreMachine::new(Role::Server, cid, default_cfg());
    client.state = LifecycleState::Established;
    server.state = LifecycleState::Established;

    let close = client.on_api_close().expect("close");
    assert_eq!(client.state(), LifecycleState::Lost);
    assert!(close.events.iter().any(|e| matches!(e, Event::Disconnected)));
    assert_eq!(close.outbound_datagrams.len(), 1);
    let frame = WireFrame::decode(&close.outbound_datagrams[0].bytes).expect("decode close");
    assert_eq!(frame.message_type, MessageType::Close);

    let srv = server
        .on_datagram(10, 1, &close.outbound_datagrams[0].bytes)
        .expect("server close datagram");
    assert_eq!(server.state(), LifecycleState::Lost);
    assert!(srv.events.iter().any(|e| matches!(e, Event::Disconnected)));
}

#[test]
fn client_sends_periodic_keepalive_msr_every_four_server_msrs() {
    let cid = 606;
    let mut client = CoreMachine::new(Role::Client, cid, default_cfg());
    client.state = LifecycleState::Established;

    let server_msr =
        encode_frame(MessageType::Msr, cid, &encode_msr_payload(0, 0)).expect("msr frame");
    for now in [1_u64, 2, 3] {
        let out = client.on_datagram(now, 1, &server_msr).expect("client msr");
        assert!(out.outbound_datagrams.iter().all(|d| WireFrame::decode(&d.bytes)
            .map(|f| f.message_type != MessageType::Msr)
            .unwrap_or(true)));
    }
    let out = client.on_datagram(4, 1, &server_msr).expect("client msr keepalive");
    assert!(out.outbound_datagrams.iter().any(|d| {
        WireFrame::decode(&d.bytes).map(|f| f.message_type == MessageType::Msr).unwrap_or(false)
    }));
}

#[test]
fn server_disconnects_after_consecutive_msr_without_client_keepalive() {
    let cid = 707;
    let mut server = CoreMachine::new(Role::Server, cid, default_cfg());
    server.state = LifecycleState::Established;
    server.current_path_id = 1;

    let mut saw_disconnect = false;
    for tick in 1..=10_u64 {
        let out = server
            .on_timer(tick * default_cfg().msr_interval_ms, TimerId::ServerMsr)
            .expect("server timer");
        if out.events.iter().any(|e| matches!(e, Event::Disconnected)) {
            saw_disconnect = true;
            break;
        }
    }
    assert!(saw_disconnect);
    assert_eq!(server.state(), LifecycleState::Lost);
}

#[test]
fn request_range_and_data_frames_carry_msr_piggyback_tlv() {
    let cid = 8081;
    let mut client = CoreMachine::new(Role::Client, cid, default_cfg());
    let mut server = CoreMachine::new(Role::Server, cid, default_cfg());
    client.state = LifecycleState::Established;
    server.state = LifecycleState::Established;

    let enqueue = client.on_api_send(b"hello".to_vec()).expect("enqueue");
    let advertise = &enqueue.outbound_datagrams[0].bytes;
    let req = server.on_datagram(10, 1, advertise).expect("server request");
    assert_eq!(req.outbound_datagrams.len(), 1);
    let req_frame =
        WireFrame::decode(&req.outbound_datagrams[0].bytes).expect("decode request");
    assert_eq!(req_frame.message_type, MessageType::RequestRange);
    assert!(req_frame.tlvs.iter().any(|t| t.kind == TLV_MSR_SIGNAL));

    let data =
        client.on_datagram(11, 1, &req.outbound_datagrams[0].bytes).expect("client data");
    assert!(!data.outbound_datagrams.is_empty());
    let data_frame = WireFrame::decode(&data.outbound_datagrams[0].bytes).expect("decode data");
    assert!(matches!(data_frame.message_type, MessageType::Data | MessageType::Fragment));
    assert!(data_frame.tlvs.iter().any(|t| t.kind == TLV_MSR_SIGNAL));
}

#[test]
fn piggyback_msr_tlv_on_data_triggers_pull_request_without_control_msr_frame() {
    let cid = 8082;
    let mut client = CoreMachine::new(Role::Client, cid, default_cfg());
    client.state = LifecycleState::Established;

    let mut data_payload = Vec::new();
    data_payload.extend_from_slice(&99_u64.to_be_bytes());
    data_payload.extend_from_slice(b"x");
    let piggyback = encode_msr_signal_tlv(0, 1);
    let frame = WireFrame::new(MessageType::Data, 0, cid, data_payload, vec![piggyback])
        .encode()
        .expect("encode data+msr tlv");

    let out = client.on_datagram(20, 1, &frame).expect("client datagram");
    assert!(out
        .events
        .iter()
        .any(|e| matches!(e, Event::RequestRangeSent { start: 1, end: 1 })));
}

fn established(role: Role, cid: u64) -> CoreMachine {
    let mut machine = CoreMachine::new(role, cid, default_cfg());
    machine.state = LifecycleState::Established;
    machine
}

fn frame(message_type: MessageType, cid: u64, payload: Vec<u8>, tlvs: Vec<Tlv>) -> Vec<u8> {
    WireFrame::new(message_type, 0, cid, payload, tlvs).encode().expect("encode")
}

#[test]
fn unreadable_datagram_changes_nothing() {
    let mut client = established(Role::Client, 1);
    let out = client.on_datagram(10, 1, &[0xff]).expect("parse error is an event");
    assert_eq!(out.events, vec![Event::ParseError]);
    assert!(out.outbound_datagrams.is_empty());
    assert_eq!(client.current_path_id, 0);
}

#[test]
fn foreign_frame_is_refused() {
    let mut client = established(Role::Client, 1);
    let msr = encode_frame(MessageType::Msr, 2, &encode_msr_payload(0, 0)).expect("msr");
    assert_eq!(
        client.on_datagram(10, 1, &msr),
        Err(CoreError::CidMismatch { expected: 1, got: 2 })
    );
}

#[test]
fn malformed_payloads_are_refused() {
    let mut client = established(Role::Client, 1);
    let short = |message_type| frame(message_type, 1, vec![1, 2, 3], Vec::new());
    assert_eq!(
        client.on_datagram(10, 1, &short(MessageType::Msr)),
        Err(CoreError::MalformedMsr)
    );
    assert_eq!(
        client.on_datagram(10, 1, &short(MessageType::RequestRange)),
        Err(CoreError::MalformedRequestRange)
    );
    assert_eq!(
        client.on_datagram(10, 1, &short(MessageType::Data)),
        Err(CoreError::MalformedData)
    );
    let tlv = |kind| vec![Tlv { kind, value: vec![1] }];
    let msr = |kind| frame(MessageType::Msr, 1, encode_msr_payload(0, 0), tlv(kind));
    assert_eq!(
        client.on_datagram(10, 1, &msr(TLV_TIMER_PROPOSAL)),
        Err(CoreError::MalformedTimerProposal)
    );
    assert_eq!(
        client.on_datagram(10, 1, &msr(TLV_TIMER_ACK)),
        Err(CoreError::MalformedTimerAck)
    );
}

#[test]
fn timers_are_proposed_only_within_bounds_and_once_established() {
    let good = TimerProposal {
        msr_interval_ms: 2_000,
        miss_window_count: 3,
        disconnect_window_ms: 20_000,
    };
    let mut early = CoreMachine::new(Role::Client, 1, default_cfg());
    assert_eq!(
        early.on_api_propose_timers(0, good),
        Err(CoreError::InvalidStateForRenegotiation)
    );
    let refused = |change: fn(&mut TimerProposal)| {
        let mut proposal = good;
        change(&mut proposal);
        established(Role::Client, 1).on_api_propose_timers(0, proposal).expect_err("refused")
    };
    assert_eq!(
        refused(|p| p.msr_interval_ms = 999),
        CoreError::InvalidTimerProposal("msr_interval_ms out of bounds")
    );
    assert_eq!(
        refused(|p| p.miss_window_count = 65),
        CoreError::InvalidTimerProposal("miss_window_count out of bounds")
    );
    assert_eq!(
        refused(|p| p.miss_window_count = 5),
        CoreError::InvalidTimerProposal("miss_window_count step too large")
    );
    assert_eq!(
        refused(|p| p.disconnect_window_ms = 4_999),
        CoreError::InvalidTimerProposal("disconnect_window_ms out of bounds")
    );
    assert_eq!(
        refused(|p| p.disconnect_window_ms = 5_999),
        CoreError::InvalidTimerProposal("disconnect_window_ms smaller than probe window")
    );
}

#[test]
fn lost_session_stays_lost() {
    let mut client = established(Role::Client, 1);
    client.on_api_close().expect("close");
    let msr = encode_frame(MessageType::Msr, 1, &encode_msr_payload(0, 3)).expect("msr");
    client.on_datagram(10, 1, &msr).expect("ignored");
    client.on_timer(20, TimerId::ClientProbe).expect("timer");
    assert_eq!(client.state(), LifecycleState::Lost);
}

#[test]
fn long_messages_go_in_fragments_and_come_together_in_any_order() {
    let cid = 21;
    let mut client = established(Role::Client, cid);
    let mut server = established(Role::Server, cid);
    let message: Vec<u8> = (0..5_000u32).map(|i| i as u8).collect();
    let advertised = client.on_api_send(message.clone()).expect("send");
    let request =
        server.on_datagram(1, 1, &advertised.outbound_datagrams[0].bytes).expect("request");
    let fragments =
        client.on_datagram(2, 1, &request.outbound_datagrams[0].bytes).expect("fragments");
    assert!(fragments.outbound_datagrams.len() > 1);
    let mut received = Vec::new();
    for datagram in fragments.outbound_datagrams.iter().rev() {
        let parsed = WireFrame::decode(&datagram.bytes).expect("frame");
        assert_eq!(parsed.message_type, MessageType::Fragment);
        received.extend(server.on_datagram(3, 1, &datagram.bytes).expect("fragment").events);
        server.on_datagram(3, 1, &datagram.bytes).expect("again");
    }
    assert!(received.contains(&Event::MessageReceived { msg_id: 1, payload: message }));
    assert_eq!(server.last_ordered_rx(), 1);
}

#[test]
fn path_changes_are_followed() {
    let mut client = established(Role::Client, 1);
    client.on_path_event(PathEvent::PathChanged { path_id: 9 }).expect("path");
    let out = client.on_api_send(vec![1]).expect("send");
    assert_eq!(out.outbound_datagrams[0].path_id, 9);
}

#[test]
fn room_ends_where_deadlines_do() {
    let client = established(Role::Client, 1);
    assert!(client.has_room(u64::MAX - 1_000));
    assert!(!client.has_room(u64::MAX - 999));
}

#[test]
fn core_errors_speak() {
    let says = [
        (CoreError::Wire(WireError::Truncated), "wire error: input is truncated"),
        (CoreError::CidMismatch { expected: 1, got: 2 }, "cid mismatch expected=1 got=2"),
        (CoreError::MalformedMsr, "malformed MSR payload"),
        (CoreError::MalformedRequestRange, "malformed request range payload"),
        (CoreError::MalformedData, "malformed data payload"),
        (CoreError::InvalidStateForRenegotiation, "invalid state for renegotiation"),
        (CoreError::InvalidTimerProposal("x"), "invalid timer proposal: x"),
        (CoreError::MalformedTimerProposal, "malformed timer proposal tlv"),
        (CoreError::MalformedTimerAck, "malformed timer ack tlv"),
    ];
    for (error, text) in says {
        assert_eq!(error.message(), text);
    }
}

#[test]
fn default_timers() {
    let cfg = CoreConfig::default();
    assert_eq!(cfg.msr_interval_ms, 15_000);
    assert_eq!(cfg.miss_window_count, 3);
    assert_eq!(cfg.disconnect_window_ms, 180_000);
}

#[test]
fn a_life_delivers_each_message_once_and_requests_each_id_once() {
    let mut server = established(Role::Server, 7);
    let data = |id: u64| {
        let mut payload = id.to_be_bytes().to_vec();
        payload.push(id as u8);
        frame(MessageType::Data, 7, payload, Vec::new())
    };
    let msr = |pending: u64| frame(MessageType::Msr, 7, encode_msr_payload(0, pending), Vec::new());
    let mut events = Vec::new();
    let arriving = [msr(2), data(2), msr(1), data(2), data(1), msr(4), data(4), msr(4), data(3), data(1)];
    for bytes in arriving {
        events.extend(server.on_datagram(10, 1, &bytes).expect("taken").events);
    }
    let mut received = Vec::new();
    let mut requested = Vec::new();
    for (k, event) in events.iter().enumerate() {
        if let Event::MessageReceived { msg_id, .. } = event {
            assert_eq!(events[k - 1], Event::MessageDelivered { msg_id: *msg_id });
            received.push(*msg_id);
        }
        if let Event::RequestRangeSent { start, end } = event {
            requested.push((*start, *end));
        }
    }
    assert_eq!(received, vec![1, 2, 3, 4]);
    assert_eq!(requested, vec![(1, 2), (3, 4)]);
    assert_eq!(server.last_ordered_rx(), 4);
}

#[test]
fn lost_session_tells_of_no_life() {
    let mut client = established(Role::Client, 7);
    client.on_api_close().expect("close");
    for bytes in [
        frame(MessageType::ServerHello, 7, Vec::new(), Vec::new()),
        frame(MessageType::Msr, 7, encode_msr_payload(0, 5), Vec::new()),
        frame(MessageType::Data, 7, 1u64.to_be_bytes().to_vec(), Vec::new()),
    ] {
        let out = client.on_datagram(10, 1, &bytes).expect("taken");
        assert!(out.events.is_empty());
        assert_eq!(client.state(), LifecycleState::Lost);
    }
}

#[test]
fn repeated_fragments_deliver_once() {
    let mut client = established(Role::Client, 7);
    let mut server = established(Role::Server, 7);
    let message: Vec<u8> = (0..3_000u32).map(|i| (i % 251) as u8).collect();
    let advertised = client.on_api_send(message.clone()).expect("send");
    let request = server.on_datagram(1, 1, &advertised.outbound_datagrams[0].bytes).expect("msr");
    let served = client.on_datagram(2, 1, &request.outbound_datagrams[0].bytes).expect("served");
    assert_eq!(served.outbound_datagrams.len(), 4);
    let mut received = Vec::new();
    for (at, idx) in [2usize, 0, 2, 3, 0, 1, 1, 3].iter().enumerate() {
        let out = server.on_datagram(3, 1, &served.outbound_datagrams[*idx].bytes).expect("taken");
        for event in out.events {
            if let Event::MessageReceived { msg_id, payload } = event {
                received.push((at, msg_id, payload));
            }
        }
    }
    assert_eq!(received, vec![(5, 1, message)]);
}

#[test]
fn machines_asked_alike_answer_alike() {
    let mut a = CoreMachine::new(Role::Server, 7, default_cfg());
    let mut b = CoreMachine::new(Role::Server, 7, default_cfg());
    for bytes in [
        frame(MessageType::ClientHello, 7, Vec::new(), Vec::new()),
        frame(MessageType::Msr, 7, encode_msr_payload(0, 3), Vec::new()),
        frame(MessageType::Msr, 8, encode_msr_payload(0, 3), Vec::new()),
    ] {
        assert_eq!(a.on_datagram(5, 2, &bytes), b.on_datagram(5, 2, &bytes));
        assert_eq!(a.state(), b.state());
        assert_eq!(a.last_ordered_rx(), b.last_ordered_rx());
    }
}
