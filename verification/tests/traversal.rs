use todero_protocol::traversal::{
    gather_host_candidates, relay_path_mtu, select_path_candidates, stun_build_binding_request,
    stun_parse_binding_success, tune_turn_refresh_for_disconnect_window, CandidatePairState,
    CandidateType, ConsentAction, ConsentConfig, ConsentManager, IceCandidate, IceChecklist,
    IpAddress, NatError, RelayPolicy, SocketAddress, TurnAction, TurnConfig, TurnEvent, TurnManager,
    TurnState, STUN_MAGIC_COOKIE,
};

fn v4(ip: [u8; 4]) -> IpAddress {
    IpAddress::V4(u32::from_be_bytes(ip))
}

fn host(ip: [u8; 4], port: u16, priority: u32) -> IceCandidate {
    IceCandidate {
        foundation: "f".to_string(),
        component: 1,
        transport: "udp".to_string(),
        priority,
        address: IpAddress::V4(u32::from_be_bytes(ip)),
        port,
        typ: CandidateType::Host,
        related_address: None,
        related_port: None,
    }
}

#[test]
fn checklist_nominates_best_succeeded_pair() {
    let local = vec![host([10, 0, 0, 1], 5000, 100), host([10, 0, 0, 1], 5001, 200)];
    let remote = vec![host([10, 0, 0, 2], 6000, 90), host([10, 0, 0, 2], 6001, 250)];
    let mut list = IceChecklist::new(local, remote);

    while let Some((li, ri)) = list.next_check() {
        // Mark only two pairs as succeeded, with different priorities.
        let ok = (li == 0 && ri == 1) || (li == 1 && ri == 0);
        list.mark_check_result(li, ri, ok);
    }

    let nominated = list.nominate_best().expect("must nominate");
    assert!(nominated.nominated);
    assert_eq!(nominated.state, CandidatePairState::Succeeded);
}

#[test]
fn consent_manager_transitions_to_path_lost() {
    let mut consent = ConsentManager::new(0, ConsentConfig { interval_ms: 100, max_missed: 2 });
    assert_eq!(consent.on_tick(100), ConsentAction::SendKeepalive);
    assert_eq!(consent.on_tick(200), ConsentAction::SendKeepalive);
    assert_eq!(consent.on_tick(300), ConsentAction::PathLost);

    consent.on_response(301);
    assert_eq!(consent.state().missed_count, 0);
}

#[test]
fn stun_binding_success_parsing_ipv4() {
    let tx = [1, 2, 3, 4, 5, 6, 7, 8, 9, 10, 11, 12];
    let req = stun_build_binding_request(tx);
    assert_eq!(req.len(), 20);

    let ip = [1u8, 2, 3, 4];
    let port: u16 = 3478;
    let xport = port ^ ((STUN_MAGIC_COOKIE >> 16) as u16);
    let cookie = STUN_MAGIC_COOKIE.to_be_bytes();
    let xip = [
        ip[0] ^ cookie[0],
        ip[1] ^ cookie[1],
        ip[2] ^ cookie[2],
        ip[3] ^ cookie[3],
    ];

    let mut resp = vec![0u8; 20 + 12];
    resp[0] = 0x01;
    resp[1] = 0x01;
    resp[2..4].copy_from_slice(&(12u16).to_be_bytes());
    resp[4..8].copy_from_slice(&STUN_MAGIC_COOKIE.to_be_bytes());
    resp[8..20].copy_from_slice(&tx);
    // XOR-MAPPED-ADDRESS
    resp[20..22].copy_from_slice(&(0x0020u16).to_be_bytes());
    resp[22..24].copy_from_slice(&(8u16).to_be_bytes());
    resp[24] = 0;
    resp[25] = 0x01;
    resp[26..28].copy_from_slice(&xport.to_be_bytes());
    resp[28..32].copy_from_slice(&xip);

    let (mapped, tx_out) = stun_parse_binding_success(&resp).expect("parse");
    assert_eq!(mapped, SocketAddress { ip: v4(ip), port });
    assert_eq!(tx_out, tx);
}

#[test]
fn turn_manager_allocate_refresh_and_retries() {
    let mut turn = TurnManager::new(TurnConfig::default());
    assert_eq!(turn.start_allocate(), TurnAction::SendAllocate);
    assert_eq!(turn.on_event(1_000, TurnEvent::Unauthorized), TurnAction::SendAllocateWithAuth);
    assert_eq!(
        turn.on_event(1_500, TurnEvent::AllocationOk { lifetime_secs: 600 }),
        TurnAction::SendCreatePermission
    );
    assert_eq!(turn.state, TurnState::Allocated);

    // Near expiry should trigger refresh.
    let refresh_at = 1_500 + (600 - 60) * 1000;
    assert_eq!(turn.on_tick(refresh_at), TurnAction::SendRefresh);

    let mut failures = 0;
    loop {
        let action = turn.on_event(2_000, TurnEvent::TransportFailure);
        if action == TurnAction::MarkFailed {
            break;
        }
        failures += 1;
    }
    assert!(failures >= 5);
    assert_eq!(turn.state, TurnState::Failed);
}

#[test]
fn turn_manager_handles_stale_nonce_as_reauth() {
    let mut turn = TurnManager::new(TurnConfig::default());
    turn.start_allocate();
    assert_eq!(turn.on_event(10, TurnEvent::StaleNonce), TurnAction::SendAllocateWithAuth);
}

#[test]
fn turn_refresh_tuned_to_disconnect_window() {
    let tuned = tune_turn_refresh_for_disconnect_window(TurnConfig::default(), 90_000);
    assert!(tuned.permission_refresh_ms <= 81_000);
    assert!(tuned.channel_refresh_ms <= 81_000);
}

#[test]
fn relay_only_policy_filters_candidates() {
    let local = vec![
        host([10, 0, 0, 1], 5000, 100),
        IceCandidate { typ: CandidateType::Relay, ..host([203, 0, 113, 10], 5001, 200) },
    ];
    let remote = vec![
        host([10, 0, 0, 2], 6000, 100),
        IceCandidate { typ: CandidateType::Relay, ..host([203, 0, 113, 20], 6001, 200) },
    ];
    let (ll, rr) = select_path_candidates(&local, &remote, RelayPolicy::RelayOnly);
    assert_eq!(ll.len(), 1);
    assert_eq!(rr.len(), 1);
    assert_eq!(ll[0].typ, CandidateType::Relay);
    assert_eq!(rr[0].typ, CandidateType::Relay);
    assert_eq!(relay_path_mtu(CandidateType::Relay), 1200);
}

#[test]
fn host_candidate_gathering_from_bound_sockets() {
    let gathered = gather_host_candidates(
        &[
            (v4([10, 0, 0, 1]), 5000),
            (v4([192, 168, 1, 2]), 5001),
        ],
        1,
        "udp",
    );
    assert_eq!(gathered.len(), 2);
    assert_eq!(gathered[0].typ, CandidateType::Host);
    assert_eq!(gathered[0].transport, "udp");
}

#[test]
fn binding_request_is_laid_out() {
    let tx = [1u8, 2, 3, 4, 5, 6, 7, 8, 9, 10, 11, 12];
    let mut expected = vec![0x00, 0x01, 0x00, 0x00, 0x21, 0x12, 0xa4, 0x42];
    expected.extend_from_slice(&tx);
    assert_eq!(stun_build_binding_request(tx), expected);
}

#[test]
fn broken_binding_responses_are_refused() {
    assert_eq!(stun_parse_binding_success(&[0; 19]), Err(NatError::InvalidStunPacket));
    let mut packet = stun_build_binding_request([0; 12]);
    assert_eq!(stun_parse_binding_success(&packet), Err(NatError::InvalidStunPacket));
    packet[0] = 0x01;
    packet[1] = 0x01;
    assert_eq!(stun_parse_binding_success(&packet), Err(NatError::InvalidStunPacket));
    packet[3] = 12;
    packet.extend_from_slice(&[0x00, 0x20, 0, 8, 0, 9, 0, 0, 0, 0, 0, 0]);
    assert_eq!(stun_parse_binding_success(&packet), Err(NatError::UnsupportedStunFamily));
    assert_eq!(NatError::InvalidStunPacket.message(), "invalid stun packet");
}

#[test]
fn checklist_orders_pairs_by_priority() {
    let local = vec![host([10, 0, 0, 1], 5000, 100), host([10, 0, 0, 1], 5001, 200)];
    let remote = vec![host([10, 0, 0, 2], 6000, 90), host([10, 0, 0, 2], 6001, 250)];
    let mut list = IceChecklist::new(local, remote);
    let mut order = Vec::new();
    while let Some(pair) = list.next_check() {
        order.push(pair);
        list.mark_check_result(pair.0, pair.1, false);
    }
    assert_eq!(order.len(), 4);
    assert_eq!(order[0], (1, 1));
    assert!(list.nominate_best().is_none());
}

#[test]
fn consent_is_given_time() {
    let mut consent = ConsentManager::new(0, ConsentConfig { interval_ms: 100, max_missed: 2 });
    assert_eq!(consent.on_tick(99), ConsentAction::Noop);
    assert_eq!(consent.on_tick(100), ConsentAction::SendKeepalive);
    consent.on_response(150);
    assert_eq!(consent.on_tick(199), ConsentAction::Noop);
}

#[test]
fn hosts_are_numbered() {
    let gathered = gather_host_candidates(&[(v4([1, 2, 3, 4]), 7), (v4([5, 6, 7, 8]), 8)], 2, "tcp");
    assert_eq!(gathered[1].foundation, "host-1");
    assert_eq!(gathered[1].component, 2);
    assert_eq!(gathered[1].transport, "tcp");
    assert_eq!((gathered[1].address, gathered[1].port), (v4([5, 6, 7, 8]), 8));
}

#[test]
fn direct_paths_are_kept_when_preferred() {
    let local = vec![host([10, 0, 0, 1], 5000, 100)];
    let remote = vec![host([10, 0, 0, 2], 6000, 100)];
    let (l, r) = select_path_candidates(&local, &remote, RelayPolicy::PreferDirect);
    assert_eq!((l.len(), r.len()), (1, 1));
    let (l, r) = select_path_candidates(&local, &remote, RelayPolicy::RelayOnly);
    assert_eq!((l.len(), r.len()), (0, 0));
}

#[test]
fn challenges_are_answered_with_credentials() {
    let mut turn = TurnManager::new(TurnConfig::default());
    turn.start_allocate();
    for event in [TurnEvent::Unauthorized, TurnEvent::StaleNonce, TurnEvent::Unauthorized] {
        assert_eq!(turn.on_event(10, event), TurnAction::SendAllocateWithAuth);
        assert_eq!(turn.state, TurnState::Allocating);
        assert_eq!(turn.retries, 0);
    }
}

#[test]
fn tuned_refreshes_stay_inside_the_window() {
    let tuned = tune_turn_refresh_for_disconnect_window(TurnConfig::default(), 90_000);
    assert_eq!((tuned.permission_refresh_ms, tuned.channel_refresh_ms), (81_000, 81_000));
    let wide = tune_turn_refresh_for_disconnect_window(TurnConfig::default(), 500_000);
    assert_eq!((wide.permission_refresh_ms, wide.channel_refresh_ms), (240_000, 450_000));
    let floor = tune_turn_refresh_for_disconnect_window(TurnConfig::default(), 32_000);
    assert_eq!((floor.permission_refresh_ms, floor.channel_refresh_ms), (30_000, 30_000));
    let narrow = tune_turn_refresh_for_disconnect_window(TurnConfig::default(), 10_000);
    assert_eq!((narrow.permission_refresh_ms, narrow.channel_refresh_ms), (9_000, 9_000));
    let shortest = tune_turn_refresh_for_disconnect_window(TurnConfig::default(), 1);
    assert_eq!((shortest.permission_refresh_ms, shortest.channel_refresh_ms), (1, 1));

    let mut turn = TurnManager::new(tuned);
    turn.on_event(1_000, TurnEvent::AllocationOk { lifetime_secs: 600 });
    assert_eq!(turn.on_tick(81_999), TurnAction::Noop);
    assert_eq!(turn.on_tick(91_000), TurnAction::SendCreatePermission);
}
