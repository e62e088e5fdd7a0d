use base64::Engine;
use openssl::ssl::{Ssl, SslContextBuilder, SslMethod};
use serde_json::Value;
use todero_protocol::crypto::{AdapterRole, CryptoError, OpenSslDtlsAdapter};
use todero_protocol::ffi::tls::{build_server_tls_cfg, open_path, path_opened};
use todero_protocol::ffi::{
    v3_ffi_abi_version, v3_ffi_begin_handshake, v3_ffi_clear_output, v3_ffi_close_session,
    v3_ffi_configure_client_tls, v3_ffi_configure_nat, v3_ffi_configure_server_tls, v3_ffi_free,
    v3_ffi_has_room, v3_ffi_has_room_for, v3_ffi_last_error_copy, v3_ffi_last_error_len, v3_ffi_new_client,
    v3_ffi_new_server, v3_ffi_on_datagram, v3_ffi_out_datagram_copy, v3_ffi_out_datagram_count,
    v3_ffi_out_datagram_len, v3_ffi_out_datagram_path_id, v3_ffi_out_event_copy,
    v3_ffi_out_event_count, v3_ffi_out_event_len, v3_ffi_pending_tls, v3_ffi_poll_nat,
    v3_ffi_poll_timers, v3_ffi_send_message, v3_ffi_server_send_message, PacketLog, Registry,
};
use todero_protocol::wire::{MessageType, Tlv, WireFrame};


const TLV_MSR_SIGNAL: u8 = 0x32;

fn take_datagrams(reg: &Registry, handle: u64) -> Vec<(u32, Vec<u8>)> {
    let count = v3_ffi_out_datagram_count(reg, handle);
    let mut out = Vec::with_capacity(count);
    for i in 0..count {
        let path_id = v3_ffi_out_datagram_path_id(reg, handle, i);
        let len = v3_ffi_out_datagram_len(reg, handle, i);
        let buf = v3_ffi_out_datagram_copy(reg, handle, i, len);
        let copied = buf.len();
        assert_eq!(copied, len);
        out.push((path_id, buf));
    }
    out
}

fn take_events(reg: &Registry, handle: u64) -> Vec<String> {
    let count = v3_ffi_out_event_count(reg, handle);
    let mut out = Vec::with_capacity(count);
    for i in 0..count {
        let len = v3_ffi_out_event_len(reg, handle, i);
        let buf = v3_ffi_out_event_copy(reg, handle, i, len);
        let copied = buf.len();
        assert_eq!(copied, len);
        out.push(String::from_utf8(buf).expect("utf8 event"));
    }
    out
}

fn pump(
    reg: &mut Registry,
    client: u64,
    server: u64,
    mut now_ms: u64,
    rounds: usize,
) -> (Vec<String>, Vec<String>) {
    let mut client_events = Vec::new();
    let mut server_events = Vec::new();
    for _ in 0..rounds {
        let start_client_events = client_events.len();
        let start_server_events = server_events.len();
        for _ in 0..64 {
            let mut progressed = false;
            for (path_id, bytes) in take_datagrams(reg, client) {
                assert_eq!(
                    v3_ffi_on_datagram(reg, server, now_ms, path_id, &bytes, None),
                    0
                );
                server_events.extend(take_events(reg, server));
                now_ms = now_ms.saturating_add(1);
                progressed = true;
            }
            for (path_id, bytes) in take_datagrams(reg, server) {
                assert_eq!(
                    v3_ffi_on_datagram(reg, client, now_ms, path_id, &bytes, None),
                    0
                );
                client_events.extend(take_events(reg, client));
                now_ms = now_ms.saturating_add(1);
                progressed = true;
            }
            if !progressed {
                break;
            }
        }
        let _ = v3_ffi_poll_timers(reg, client, now_ms, 16);
        client_events.extend(take_events(reg, client));
        let _ = v3_ffi_poll_timers(reg, server, now_ms, 16);
        server_events.extend(take_events(reg, server));
        let idle = v3_ffi_out_datagram_count(reg, client) == 0
            && v3_ffi_out_datagram_count(reg, server) == 0
            && client_events.len() == start_client_events
            && server_events.len() == start_server_events;
        if idle {
            break;
        }
        now_ms = now_ms.saturating_add(50);
    }
    (client_events, server_events)
}

#[test]
fn abi_version_is_stable() {
    assert_eq!(v3_ffi_abi_version(), 1);
}

#[test]
fn client_handle_lifecycle_and_output_copy() {
    let mut reg = Registry::new();
    let h = v3_ffi_new_client(&mut reg, 55, 100, 2, 1000);
    assert!(h > 0);
    assert_eq!(v3_ffi_begin_handshake(&mut reg, h, 0), 0);
    assert_eq!(v3_ffi_out_datagram_count(&reg, h), 1);

    let len = v3_ffi_out_datagram_len(&reg, h, 0);
    let buf = v3_ffi_out_datagram_copy(&reg, h, 0, len);
    let copied = buf.len();
    assert_eq!(copied, len);

    let decoded = WireFrame::decode(&buf).expect("decode");
    assert_eq!(decoded.message_type, MessageType::ClientHello);

    v3_ffi_free(&mut reg, h);
}

#[test]
fn server_handle_accepts_datagram() {
    let mut reg = Registry::new();
    let server = v3_ffi_new_server(&mut reg, 100, 2, 1000);
    let client = v3_ffi_new_client(&mut reg, 99, 100, 2, 1000);
    assert_eq!(v3_ffi_begin_handshake(&mut reg, client, 0), 0);

    let len = v3_ffi_out_datagram_len(&reg, client, 0);
    let buf = v3_ffi_out_datagram_copy(&reg, client, 0, len);
    let _ = buf.len();

    assert_eq!(v3_ffi_on_datagram(&mut reg, server, 1, 7, &buf, None), 0);
    assert!(v3_ffi_out_datagram_count(&reg, server) >= 1);

    v3_ffi_free(&mut reg, client);
    v3_ffi_free(&mut reg, server);
}

#[test]
fn client_and_server_exchange_messages_over_v3() {
    let mut reg = Registry::new();
    let cid = 4242;
    let server = v3_ffi_new_server(&mut reg, 100, 2, 2_000);
    let client = v3_ffi_new_client(&mut reg, cid, 100, 2, 2_000);

    // Handshake
    assert_eq!(v3_ffi_begin_handshake(&mut reg, client, 0), 0);
    let (_client_events, _server_events) = pump(&mut reg, client, server, 1, 16);

    // Client -> Server delivery (pull-based flow)
    let client_payload = b"hello-from-client";
    assert_eq!(v3_ffi_send_message(&mut reg, client, client_payload), 0);
    let (_client_events, server_events) = pump(&mut reg, client, server, 100, 32);
    let server_deliver = server_events
        .iter()
        .filter_map(|e| serde_json::from_str::<Value>(e).ok())
        .find(|v| v.get("kind").and_then(Value::as_str) == Some("server_deliver"))
        .expect("server receive event");
    assert_eq!(server_deliver.get("cid").and_then(Value::as_u64), Some(cid));

    // Server -> Client delivery (server can trigger/send any time)
    let server_payload = b"hello-from-server";
    assert_eq!(
        v3_ffi_server_send_message(&mut reg, server, cid, server_payload, 500),
        0
    );
    assert!(v3_ffi_out_datagram_count(&reg, server) > 0, "server_send_message produced no datagrams");
    let (client_events, _server_events) = pump(&mut reg, client, server, 501, 32);
    let client_deliver = client_events
        .iter()
        .filter_map(|e| serde_json::from_str::<Value>(e).ok())
        .find(|v| v.get("kind").and_then(Value::as_str) == Some("client_deliver"))
        .expect("client receive event");
    assert_eq!(client_deliver.get("msg_id").and_then(Value::as_u64), Some(1));
    let payload_b64 =
        client_deliver.get("payload_b64").and_then(Value::as_str).expect("payload b64");
    let decoded =
        base64::engine::general_purpose::STANDARD.decode(payload_b64).expect("decode payload");
    assert_eq!(decoded, server_payload);

    v3_ffi_free(&mut reg, client);
    v3_ffi_free(&mut reg, server);
}

#[test]
fn ffi_request_and_data_frames_include_msr_piggyback_tlv() {
    let mut reg = Registry::new();
    let cid = 9001;
    let server = v3_ffi_new_server(&mut reg, 100, 2, 2_000);
    let client = v3_ffi_new_client(&mut reg, cid, 100, 2, 2_000);

    assert_eq!(v3_ffi_begin_handshake(&mut reg, client, 0), 0);
    let _ = pump(&mut reg, client, server, 1, 16);
    v3_ffi_clear_output(&mut reg, client);
    v3_ffi_clear_output(&mut reg, server);

    let payload = b"ffi-piggyback-check";
    assert_eq!(v3_ffi_send_message(&mut reg, client, payload), 0);
    let client_msr = take_datagrams(&reg, client);
    assert!(!client_msr.is_empty());
    for (path_id, bytes) in client_msr {
        assert_eq!(v3_ffi_on_datagram(&mut reg, server, 100, path_id, &bytes, None), 0);
    }

    let server_out = take_datagrams(&reg, server);
    let req = server_out
        .iter()
        .find_map(|(_, b)| WireFrame::decode(b).ok())
        .filter(|f| f.message_type == MessageType::RequestRange)
        .expect("server request_range");
    assert!(req.tlvs.iter().any(|t| t.kind == TLV_MSR_SIGNAL));

    for (path_id, bytes) in server_out {
        assert_eq!(v3_ffi_on_datagram(&mut reg, client, 101, path_id, &bytes, None), 0);
    }
    let client_data = take_datagrams(&reg, client);
    let data = client_data
        .iter()
        .find_map(|(_, b)| WireFrame::decode(b).ok())
        .filter(|f| matches!(f.message_type, MessageType::Data | MessageType::Fragment))
        .expect("client data/fragment");
    assert!(data.tlvs.iter().any(|t| t.kind == TLV_MSR_SIGNAL));

    v3_ffi_free(&mut reg, client);
    v3_ffi_free(&mut reg, server);
}

#[test]
fn ffi_piggyback_msr_on_data_triggers_pull_without_control_msr() {
    let mut reg = Registry::new();
    let cid = 9002;
    let server = v3_ffi_new_server(&mut reg, 100, 2, 2_000);
    let client = v3_ffi_new_client(&mut reg, cid, 100, 2, 2_000);

    assert_eq!(v3_ffi_begin_handshake(&mut reg, client, 0), 0);
    let _ = pump(&mut reg, client, server, 1, 16);
    v3_ffi_clear_output(&mut reg, client);
    v3_ffi_clear_output(&mut reg, server);

    let mut msr_value = Vec::with_capacity(16);
    msr_value.extend_from_slice(&0_u64.to_be_bytes());
    msr_value.extend_from_slice(&1_u64.to_be_bytes());
    let mut data_payload = Vec::new();
    data_payload.extend_from_slice(&99_u64.to_be_bytes());
    data_payload.extend_from_slice(b"x");
    let frame = WireFrame::new(
        MessageType::Data,
        0,
        cid,
        data_payload,
        vec![Tlv { kind: TLV_MSR_SIGNAL, value: msr_value }],
    )
    .encode()
    .expect("encode");

    assert_eq!(v3_ffi_on_datagram(&mut reg, client, 200, 1, &frame, None), 0);
    let out = take_datagrams(&reg, client);
    assert!(out.iter().any(|(_, b)| {
        WireFrame::decode(b)
            .map(|f| f.message_type == MessageType::RequestRange)
            .unwrap_or(false)
    }));

    v3_ffi_free(&mut reg, client);
    v3_ffi_free(&mut reg, server);
}

fn last_error(reg: &Registry, handle: u64) -> String {
    let len = v3_ffi_last_error_len(reg, handle);
    String::from_utf8(v3_ffi_last_error_copy(reg, handle, len)).expect("utf8 error")
}

#[test]
fn unknown_handles_are_refused() {
    let mut reg = Registry::new();
    assert_eq!(v3_ffi_begin_handshake(&mut reg, 9, 0), -1);
    assert_eq!(v3_ffi_on_datagram(&mut reg, 9, 0, 0, b"x", None), -1);
    assert_eq!(v3_ffi_send_message(&mut reg, 9, b"x"), -1);
    assert_eq!(v3_ffi_close_session(&mut reg, 9), -1);
    assert_eq!(v3_ffi_server_send_message(&mut reg, 9, 1, b"x", 0), -1);
    assert_eq!(v3_ffi_poll_timers(&mut reg, 9, 0, 1), -1);
    assert_eq!(v3_ffi_poll_nat(&mut reg, 9, 0), -1);
    assert_eq!(v3_ffi_configure_nat(&mut reg, 9, 0, b"", b"", b"", b"", b""), -1);
    assert_eq!(v3_ffi_out_datagram_count(&reg, 9), 0);
    assert_eq!(v3_ffi_out_datagram_len(&reg, 9, 0), 0);
    assert_eq!(v3_ffi_out_datagram_path_id(&reg, 9, 0), 0);
    assert_eq!(v3_ffi_out_event_count(&reg, 9), 0);
    assert_eq!(v3_ffi_last_error_len(&reg, 9), 0);
    assert!(v3_ffi_has_room(&reg, 9, u64::MAX));
}

#[test]
fn handles_count_up_and_can_be_freed() {
    let mut reg = Registry::new();
    let first = v3_ffi_new_client(&mut reg, 1, 100, 2, 1000);
    let second = v3_ffi_new_server(&mut reg, 100, 2, 1000);
    assert_eq!((first, second), (1, 2));
    v3_ffi_free(&mut reg, first);
    assert_eq!(v3_ffi_begin_handshake(&mut reg, first, 0), -1);
    assert_eq!(v3_ffi_begin_handshake(&mut reg, second, 0), 0);
    assert_eq!(v3_ffi_new_client(&mut reg, 1, 100, 2, 1000), 3);
}

#[test]
fn roles_are_kept_apart() {
    let mut reg = Registry::new();
    let client = v3_ffi_new_client(&mut reg, 1, 100, 2, 1000);
    let server = v3_ffi_new_server(&mut reg, 100, 2, 1000);
    assert_eq!(v3_ffi_send_message(&mut reg, server, b"x"), -1);
    assert_eq!(v3_ffi_close_session(&mut reg, server), -1);
    assert_eq!(v3_ffi_server_send_message(&mut reg, client, 1, b"x", 0), -1);
    assert_eq!(v3_ffi_last_error_len(&reg, server), 0);
    assert_eq!(
        v3_ffi_configure_client_tls(&mut reg, server, b"s", b"/a", Some(vec![1])),
        -1
    );
    assert_eq!(last_error(&reg, server), "client tls can only be configured on client handle");
    assert_eq!(
        v3_ffi_configure_server_tls(&mut reg, client, b"s", b"/c", b"/k", true, true),
        -1
    );
    assert_eq!(last_error(&reg, client), "server tls can only be configured on server handle");
}

#[test]
fn events_are_lines_of_json() {
    let mut reg = Registry::new();
    let client = v3_ffi_new_client(&mut reg, 5, 100, 2, 1000);
    assert_eq!(v3_ffi_begin_handshake(&mut reg, client, 0), 0);
    assert_eq!(
        take_events(&reg, client),
        vec![r#"{"event":"HandshakeStarted","kind":"client_core"}"#.to_string()]
    );
    let server = v3_ffi_new_server(&mut reg, 100, 2, 1000);
    assert_eq!(v3_ffi_on_datagram(&mut reg, server, 1, 1, b"junk", None), 0);
    assert_eq!(take_events(&reg, server), vec![r#"{"kind":"server_parse_error"}"#.to_string()]);
    v3_ffi_clear_output(&mut reg, server);
    assert_eq!(v3_ffi_out_event_count(&reg, server), 0);
}

#[test]
fn copies_are_cut_to_the_room_there_is() {
    let mut reg = Registry::new();
    let client = v3_ffi_new_client(&mut reg, 5, 100, 2, 1000);
    assert_eq!(v3_ffi_begin_handshake(&mut reg, client, 0), 0);
    assert_eq!(v3_ffi_out_datagram_copy(&reg, client, 0, 2), vec![0x03, 0x01]);
    assert_eq!(v3_ffi_out_event_copy(&reg, client, 0, 1), b"{".to_vec());
    assert!(v3_ffi_out_datagram_copy(&reg, client, 1, 100).is_empty());
    assert!(v3_ffi_out_event_copy(&reg, client, 1, 100).is_empty());
}

#[test]
fn traversal_is_configured_and_told_without_the_password() {
    let mut reg = Registry::new();
    let server = v3_ffi_new_server(&mut reg, 100, 2, 1000);
    assert_eq!(
        v3_ffi_configure_nat(
            &mut reg, server, 1, b"stun:s", b"turn:t", b"realm", b"user", b"word"
        ),
        0
    );
    assert_eq!(
        take_events(&reg, server),
        vec![
            r#"{"kind":"nat_config","relay_policy":"relay_only","stun_uri":"stun:s","turn_password_set":true,"turn_realm":"realm","turn_uri":"turn:t","turn_username":"user"}"#
                .to_string()
        ]
    );
    assert_eq!(v3_ffi_configure_nat(&mut reg, server, 0, b"", b"", &[0xff], b"", b""), -1);
    assert!(last_error(&reg, server).starts_with("invalid turn_realm utf8: "));
    assert_eq!(v3_ffi_configure_nat(&mut reg, server, 0, b"", b"", b"", b"", b""), 0);
    assert!(take_events(&reg, server)[0].contains(r#""relay_policy":"prefer_direct""#));
    assert!(take_events(&reg, server)[0].contains(r#""turn_password_set":false"#));
}

#[test]
fn tls_arguments_are_checked_in_order() {
    let mut reg = Registry::new();
    let client = v3_ffi_new_client(&mut reg, 5, 100, 2, 1000);
    let server = v3_ffi_new_server(&mut reg, 100, 2, 1000);
    let mut client_says = |name: &[u8], path: &[u8], anchor: Option<Vec<u8>>| {
        assert_eq!(v3_ffi_configure_client_tls(&mut reg, client, name, path, anchor), -1);
        last_error(&reg, client)
    };
    let reason = std::str::from_utf8(&[0x41, 0xff]).expect_err("no text");
    assert_eq!(
        client_says(&[0x41, 0xff], b"/a", None),
        format!("invalid expected_server_name utf8: {reason}")
    );
    assert!(client_says(b"s", &[0xff], None).starts_with("invalid trust_anchor_path utf8: "));
    assert_eq!(client_says(b" ", b"/a", None), "expected_server_name is required for TLS");
    assert_eq!(client_says(b"s", b" ", None), "trust anchor path is required for V3 TLS mode");
    assert_eq!(client_says(b"s", b" /a ", None), "trust anchor path does not exist: /a");
    let mut server_says = |name: &[u8], cert: &[u8], key: &[u8], there: (bool, bool)| {
        assert_eq!(
            v3_ffi_configure_server_tls(&mut reg, server, name, cert, key, there.0, there.1),
            -1
        );
        last_error(&reg, server)
    };
    assert!(server_says(&[0xff], b"/c", b"/k", (true, true))
        .starts_with("invalid server_name utf8: "));
    assert!(server_says(b"s", &[0xff], b"/k", (true, true)).starts_with("invalid cert_path utf8: "));
    assert!(server_says(b"s", b"/c", &[0xff], (true, true)).starts_with("invalid key_path utf8: "));
    assert_eq!(server_says(b"", b"/c", b"/k", (true, true)), "server_name is required for TLS");
    assert_eq!(
        server_says(b"s", b"", b"/k", (true, true)),
        "server TLS cert/key paths are required"
    );
    assert_eq!(
        server_says(b"s", b"/c", b"/k", (false, true)),
        "server cert path does not exist: /c"
    );
    assert_eq!(
        server_says(b"s", b"/c", b"/k", (true, false)),
        "server key path does not exist: /k"
    );
}

fn anchor_pem() -> Vec<u8> {
    let rsa = openssl::rsa::Rsa::generate(2048).expect("rsa");
    let key = openssl::pkey::PKey::from_rsa(rsa).expect("pkey");
    let mut name = openssl::x509::X509NameBuilder::new().expect("name");
    name.append_entry_by_nid(openssl::nid::Nid::COMMONNAME, "ffi test root").expect("cn");
    let name = name.build();
    let mut cert = openssl::x509::X509::builder().expect("builder");
    cert.set_version(2).expect("version");
    cert.set_subject_name(&name).expect("subject");
    cert.set_issuer_name(&name).expect("issuer");
    cert.set_pubkey(&key).expect("key");
    let start = openssl::asn1::Asn1Time::days_from_now(0).expect("start");
    let end = openssl::asn1::Asn1Time::days_from_now(30).expect("end");
    cert.set_not_before(&start).expect("not before");
    cert.set_not_after(&end).expect("not after");
    cert.sign(&key, openssl::hash::MessageDigest::sha256()).expect("sign");
    cert.build().to_pem().expect("pem")
}

fn server_context(reg: &Registry, handle: u64, path_id: u32) -> Option<SslContextBuilder> {
    let cfg = v3_ffi_pending_tls(reg, handle, path_id)?;
    OpenSslDtlsAdapter::build_context(AdapterRole::Server, &cfg).ok()
}

#[test]
fn handshake_stands_before_the_sessions() {
    let mut reg = Registry::new();
    let client = v3_ffi_new_client(&mut reg, 77, 100, 2, 2_000);
    let server = v3_ffi_new_server(&mut reg, 100, 2, 2_000);
    assert_eq!(
        v3_ffi_configure_client_tls(&mut reg, client, b"api", b"/anchor.pem", Some(anchor_pem())),
        0
    );
    assert_eq!(
        v3_ffi_configure_server_tls(&mut reg, server, b"api", b"/c.pem", b"/k.pem", true, true),
        0
    );
    let hello = WireFrame::new(MessageType::ClientHello, 0, 77, Vec::new(), Vec::new())
        .encode()
        .expect("encode");
    let context = server_context(&reg, server, 0);
    assert!(context.is_some());
    assert_eq!(v3_ffi_on_datagram(&mut reg, server, 1, 0, &hello, context), 0);
    assert_eq!(v3_ffi_out_datagram_count(&reg, server), 0);
    assert_eq!(v3_ffi_out_event_count(&reg, server), 0);
    assert!(v3_ffi_pending_tls(&reg, server, 0).is_none());

    assert_eq!(v3_ffi_begin_handshake(&mut reg, client, 2), 0);
    assert_eq!(
        take_events(&reg, client),
        vec![r#"{"event":"handshake_started","kind":"client_tls"}"#.to_string()]
    );
    assert_eq!(take_datagrams(&reg, client), vec![(0, b"DTLS_CLIENT_HELLO|sni=api".to_vec())]);
    let (client_events, server_events) = pump(&mut reg, client, server, 3, 16);
    assert!(client_events
        .contains(&r#"{"event":"handshake_established","kind":"client_tls"}"#.to_string()));
    assert!(client_events
        .contains(&r#"{"event":"Core(HandshakeStarted)","kind":"client_core"}"#.to_string()));
    assert!(server_events.contains(
        &r#"{"event":"handshake_established","kind":"server_tls","path_id":0}"#.to_string()
    ));
    assert!(server_events.iter().any(|e| e.contains("server_core")));

    assert_eq!(v3_ffi_on_datagram(&mut reg, client, 900, 0, b"DTLS_LATE", None), 0);
    assert_eq!(v3_ffi_out_datagram_count(&reg, client), 0);
}

#[test]
fn server_path_without_a_context_fails_its_handshake() {
    let mut reg = Registry::new();
    let server = v3_ffi_new_server(&mut reg, 100, 2, 2_000);
    assert_eq!(
        v3_ffi_configure_server_tls(&mut reg, server, b"api", b"/c.pem", b"/k.pem", true, true),
        0
    );
    assert_eq!(v3_ffi_on_datagram(&mut reg, server, 1, 4, b"DTLS_CLIENT_HELLO|sni=api", None), -1);
    assert_eq!(
        last_error(&reg, server),
        "server tls datagram failed: handshake provider failure: openssl context not initialized"
    );
}

#[test]
fn client_tls_start_fails_on_a_bad_anchor() {
    let mut reg = Registry::new();
    let client = v3_ffi_new_client(&mut reg, 77, 100, 2, 2_000);
    assert_eq!(
        v3_ffi_configure_client_tls(&mut reg, client, b"api", b"/a", Some(b"no pem".to_vec())),
        0
    );
    assert_eq!(v3_ffi_begin_handshake(&mut reg, client, 2), -1);
    assert!(last_error(&reg, client)
        .starts_with("tls start failed: invalid handshake configuration: "));
}

#[test]
fn polling_traversal_drops_what_waits() {
    let mut reg = Registry::new();
    let client = v3_ffi_new_client(&mut reg, 5, 100, 2, 1000);
    assert_eq!(v3_ffi_begin_handshake(&mut reg, client, 0), 0);
    assert_eq!(v3_ffi_poll_nat(&mut reg, client, 0), 0);
    assert_eq!(v3_ffi_out_datagram_count(&reg, client), 0);
    assert_eq!(v3_ffi_out_event_count(&reg, client), 0);
}

#[test]
fn closing_tells_the_server() {
    let mut reg = Registry::new();
    let server = v3_ffi_new_server(&mut reg, 100, 2, 2_000);
    let client = v3_ffi_new_client(&mut reg, 31, 100, 2, 2_000);
    assert_eq!(v3_ffi_begin_handshake(&mut reg, client, 0), 0);
    let _ = pump(&mut reg, client, server, 1, 8);
    assert_eq!(v3_ffi_close_session(&mut reg, client), 0);
    let (_, server_events) = pump(&mut reg, client, server, 900, 4);
    assert!(server_events
        .contains(&r#"{"cid":31,"event":"Disconnected","kind":"server_core"}"#.to_string()));
}

#[test]
fn room_runs_out_at_the_end_of_time() {
    let mut reg = Registry::new();
    let client = v3_ffi_new_client(&mut reg, 5, 100, 2, 1000);
    assert!(v3_ffi_has_room(&reg, client, 0));
    assert!(!v3_ffi_has_room(&reg, client, u64::MAX));
}

#[test]
fn packets_that_come_again_are_noted() {
    let mut log = PacketLog::new();
    let first = log.packet_line("client", "recv", 3, b"DTLS_X", 0xabc, 1_000);
    assert_eq!(
        first,
        "[V3PROTO] ts_ms=1000 side=client dir=recv path=3 type=DTLS len=6 dup=false"
    );
    let again = log.packet_line("client", "recv", 3, b"DTLS_X", 0xabc, 1_250);
    assert!(again.ends_with("dup=true dup_count=2 dup_delta_ms=250"));
    let hello = WireFrame::new(MessageType::ClientHello, 0, 9, vec![1], Vec::new())
        .encode()
        .expect("encode");
    assert_eq!(
        log.packet_line("server", "recv", 3, &hello, 1, 1_300),
        "[V3PROTO] ts_ms=1300 side=server dir=recv path=3 type=ClientHello cid=9 payload_len=1 tlv_count=0 dup=false"
    );
    let junk = log.packet_line("server", "recv", 3, &[1], 2, 1_300);
    assert!(junk.contains("type=UNKNOWN len=1 err="));
    let hashed = log.log_proto_packet("server", "send", 1, &hello, 2_000);
    assert!(hashed.ends_with("dup=false"));
    let hashed = log.log_proto_packet("server", "send", 1, &hello, 2_001);
    assert!(hashed.ends_with("dup=true dup_count=2 dup_delta_ms=1"));
    let other = log.log_proto_packet("server", "send", 1, &[3, 1, 0], 2_001);
    assert!(other.ends_with("dup=false"));
}

#[test]
fn packets_are_known_by_side_direction_path_kind_session_and_hash() {
    let mut log = PacketLog::new();
    log.packet_line("client", "recv", 3, b"DTLS_X", 0xabc, 1_000);
    assert_eq!(log.seen[0].key, "client|recv|3|DTLS|0|0000000000000abc");
}

#[test]
fn new_paths_wait_for_a_hello_or_stay_idle() {
    let cfg = build_server_tls_cfg("api.example.com", "/c", "/k", true, true).expect("cfg");
    let builder = || SslContextBuilder::new(SslMethod::dtls_server()).expect("context");

    let idle = open_path(&cfg, None);
    assert_eq!(idle.adapter.role, None);
    assert!(idle.adapter.ssl.is_none() && !idle.established);
    let waiting = open_path(&cfg, Some(builder()));
    assert_eq!(waiting.adapter.role, Some(AdapterRole::Server));
    assert!(waiting.adapter.ssl.is_some() && !waiting.established);

    let ctx = builder().build();
    let ssl = Ssl::new(&ctx).expect("session");
    let path = path_opened(&cfg, Ok((ctx, ssl)));
    assert_eq!(path.adapter.role, Some(AdapterRole::Server));
    assert!(path.adapter.ctx.is_some() && path.adapter.ssl.is_some() && !path.established);
    let refused = path_opened(&cfg, Err(CryptoError::Provider("no".to_string())));
    assert_eq!(refused.adapter.role, None);
    assert!(refused.adapter.ssl.is_none() && !refused.established);
}

#[test]
fn repeated_hello_replaces_what_waits_with_nothing() {
    let mut reg = Registry::new();
    let server = v3_ffi_new_server(&mut reg, 100, 2, 1000);
    let hello = [3u8, 1, 0, 0, 0, 0, 0, 0, 0, 0, 99, 0, 0, 0, 0];
    assert_eq!(v3_ffi_on_datagram(&mut reg, server, 1, 7, &hello, None), 0);
    let waiting = take_datagrams(&reg, server);
    assert_eq!(waiting.len(), 1);
    assert_eq!(waiting[0].0, 7);
    assert_eq!(
        take_events(&reg, server),
        vec![r#"{"cid":99,"event":"HandshakeEstablished","kind":"server_core"}"#.to_string()]
    );
    assert_eq!(v3_ffi_on_datagram(&mut reg, server, 2, 7, &hello, None), 0);
    assert_eq!(v3_ffi_out_datagram_count(&reg, server), 0);
    assert_eq!(v3_ffi_out_event_count(&reg, server), 0);
    assert_eq!(v3_ffi_last_error_len(&reg, server), 0);
}

#[test]
fn only_what_reaches_a_machine_needs_room() {
    let mut reg = Registry::new();
    let client = v3_ffi_new_client(&mut reg, 5, 100, 2, 1000);
    let server = v3_ffi_new_server(&mut reg, 100, 2, 1000);
    let hello = |cid: u8| [3u8, 1, 0, 0, 0, 0, 0, 0, 0, 0, cid, 0, 0, 0, 0];
    assert_eq!(v3_ffi_on_datagram(&mut reg, server, 1, 7, &hello(99), None), 0);
    for handle in [client, server] {
        assert!(v3_ffi_has_room_for(&reg, handle, u64::MAX, 7, &[0xff]));
        assert_eq!(v3_ffi_on_datagram(&mut reg, handle, u64::MAX, 7, &[0xff], None), 0);
    }
    assert!(v3_ffi_has_room_for(&reg, client, u64::MAX, 7, &hello(6)));
    assert!(!v3_ffi_has_room_for(&reg, client, u64::MAX, 7, &hello(5)));
    assert!(v3_ffi_has_room_for(&reg, server, u64::MAX, 7, &hello(98)));
    assert!(!v3_ffi_has_room_for(&reg, server, u64::MAX, 7, &hello(99)));
    assert!(v3_ffi_has_room_for(&reg, server, 1, 7, &hello(99)));
}
