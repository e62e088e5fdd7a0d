use openssl::asn1::Asn1Time;
use openssl::bn::BigNum;
use openssl::hash::MessageDigest;
use openssl::nid::Nid;
use openssl::pkey::PKey;
use openssl::rsa::Rsa;
use openssl::ssl::{Ssl, SslContext, SslContextBuilder, SslMethod, SslVerifyMode};
use openssl::x509::{X509, X509NameBuilder};
use todero_protocol::crypto::{
    expiry_alarm_level, plan_rotation, AdapterRole, AntiAmplificationGate, AuthProfile,
    CertMetadata, CipherPolicy, ClientIdentityRef, CryptoError, DtlsBackendAdapter, DtlsVersion, ExpiryAlarmLevel,
    FrameAuthHook, HandshakeConfig, HandshakeOutput, HandshakeProvider, HmacSha256FrameAuth,
    MtlsPolicy, OpenSslDtlsAdapter, ReplayWindow, RevocationList, TrustConfig, CRATE_NAME,
};

fn start_client(
    adapter: &mut OpenSslDtlsAdapter,
    cfg: &HandshakeConfig,
) -> Result<HandshakeOutput, CryptoError> {
    let prepared = OpenSslDtlsAdapter::build_context(AdapterRole::Client, cfg);
    adapter.start_client(cfg, prepared)
}

fn start_server(
    adapter: &mut OpenSslDtlsAdapter,
    cfg: &HandshakeConfig,
) -> Result<HandshakeOutput, CryptoError> {
    let prepared = OpenSslDtlsAdapter::build_context(AdapterRole::Server, cfg);
    adapter.start_server(cfg, prepared)
}

fn test_root_anchor_pem() -> Vec<u8> {

    let rsa = Rsa::generate(2048).expect("rsa");
    let key = PKey::from_rsa(rsa).expect("pkey");
    let mut name = X509NameBuilder::new().expect("name builder");
    name.append_entry_by_nid(Nid::COMMONNAME, "v3-crypto test root")
        .expect("common name");
    let name = name.build();

    let mut serial = BigNum::new().expect("serial");
    serial.pseudo_rand(64, openssl::bn::MsbOption::MAYBE_ZERO, false)
        .expect("serial rand");
    let serial = serial.to_asn1_integer().expect("serial asn1");

    let mut cert = X509::builder().expect("cert builder");
    cert.set_version(2).expect("version");
    cert.set_serial_number(&serial).expect("serial");
    cert.set_subject_name(&name).expect("subject");
    cert.set_issuer_name(&name).expect("issuer");
    cert.set_pubkey(&key).expect("pubkey");
    cert.set_not_before(&Asn1Time::days_from_now(0).expect("not before"))
        .expect("set not before");
    cert.set_not_after(&Asn1Time::days_from_now(365).expect("not after"))
        .expect("set not after");
    cert.sign(&key, MessageDigest::sha256()).expect("sign");
    cert.build().to_pem().expect("pem")
}

#[test]
fn replay_window_rejects_duplicates_and_too_old() {
    let mut win = ReplayWindow::new(8);
    assert!(win.accept(10));
    assert!(win.accept(11));
    assert!(win.accept(9));
    assert!(!win.accept(10)); // duplicate
    assert!(win.accept(18)); // forward jump
    assert!(!win.accept(9)); // too old now
}

#[test]
fn anti_amplification_limits_before_auth() {
    let mut gate = AntiAmplificationGate::new(3);
    gate.on_receive(100);
    assert!(gate.on_send(150));
    assert!(gate.on_send(150));
    assert!(!gate.on_send(1)); // 300 max pre-auth
    gate.mark_authenticated();
    assert!(gate.on_send(10_000));
}

#[test]
fn crate_name_constant_is_set() {
    assert_eq!(CRATE_NAME, "v3-crypto");
}

#[test]
fn frame_auth_hook_signs_and_rejects_replay() {
    let key = [3u8; 32];
    let mut auth = HmacSha256FrameAuth::new(key, 32);
    let payload = b"hello";
    let tag = auth.sign(1, 55, 9, payload).expect("tag");
    auth.verify(1, 55, 9, payload, &tag).expect("verify");
    let replay_err = auth.verify(1, 55, 9, payload, &tag).expect_err("replay");
    assert!(replay_err.message().contains("replay rejected"));
}

#[test]
fn frame_auth_hook_rejects_tamper() {
    let key = [4u8; 32];
    let mut auth = HmacSha256FrameAuth::new(key, 32);
    let payload = b"hello";
    let mut tag = auth.sign(2, 99, 3, payload).expect("tag");
    tag[0] ^= 0xAA;
    let err = auth.verify(2, 99, 3, payload, &tag).expect_err("tamper");
    assert!(err.message().contains("frame auth tag mismatch"));
}

#[test]
fn spoofed_reactivation_payload_is_rejected_by_frame_auth() {
    let key = [8u8; 32];
    let mut verifier = HmacSha256FrameAuth::new(key, 64);
    let legitimate_payload = b"reactivate:cid=42:path=7";
    let legitimate_tag = verifier.sign(10, 42, 7, legitimate_payload).expect("tag");
    verifier
        .verify(10, 42, 7, legitimate_payload, &legitimate_tag)
        .expect("legitimate must pass");

    // Attacker reuses same sequence/cid/path with altered payload.
    let spoofed_payload = b"reactivate:cid=42:path=99";
    let err = verifier
        .verify(11, 42, 7, spoofed_payload, &legitimate_tag)
        .expect_err("spoofed payload must fail");
    assert!(err.message().contains("frame auth tag mismatch"));
}

#[test]
fn cert_rotation_plan_requires_overlap() {
    const DAY_MS: u64 = 24 * 60 * 60 * 1000;
    let now = 1_000_000_000u64;
    let old = CertMetadata {
        cert_id: "old".to_string(),
        fingerprint_sha256_hex: "aa".repeat(32),
        not_before_ms: now.saturating_sub(30 * DAY_MS),
        not_after_ms: now + 10 * DAY_MS,
    };
    let new = CertMetadata {
        cert_id: "new".to_string(),
        fingerprint_sha256_hex: "bb".repeat(32),
        not_before_ms: now,
        not_after_ms: now + 90 * DAY_MS,
    };
    let plan = plan_rotation(now, &old, &new, 7 * DAY_MS);
    assert!(plan.can_rotate_without_downtime);

    let too_late_new = CertMetadata {
        cert_id: "new2".to_string(),
        fingerprint_sha256_hex: "cc".repeat(32),
        not_before_ms: now + 11 * DAY_MS,
        not_after_ms: now + 90 * DAY_MS,
    };
    let bad = plan_rotation(now, &old, &too_late_new, 7 * DAY_MS);
    assert!(!bad.can_rotate_without_downtime);
}

#[test]
fn cert_expiry_alarm_levels_follow_thresholds() {
    const DAY_MS: u64 = 24 * 60 * 60 * 1000;
    let now = 500_000u64;
    let cert = CertMetadata {
        cert_id: "c1".to_string(),
        fingerprint_sha256_hex: "dd".repeat(32),
        not_before_ms: now.saturating_sub(10 * DAY_MS),
        not_after_ms: now + 40 * DAY_MS,
    };
    assert_eq!(expiry_alarm_level(now, &cert), ExpiryAlarmLevel::NoAlarm);
    let mut near = cert.clone();
    near.not_after_ms = now + 20 * DAY_MS;
    assert_eq!(expiry_alarm_level(now, &near), ExpiryAlarmLevel::Warning30d);
    near.not_after_ms = now + 10 * DAY_MS;
    assert_eq!(expiry_alarm_level(now, &near), ExpiryAlarmLevel::High14d);
    near.not_after_ms = now + 3 * DAY_MS;
    assert_eq!(expiry_alarm_level(now, &near), ExpiryAlarmLevel::Critical7d);
    near.not_after_ms = now.saturating_sub(1);
    assert_eq!(expiry_alarm_level(now, &near), ExpiryAlarmLevel::Expired);
}

#[test]
fn revocation_list_blocks_known_fingerprints() {
    let mut rl = RevocationList::default();
    let fp = "ab".repeat(32);
    assert!(!rl.is_revoked(&fp));
    rl.revoke_fingerprint(&fp);
    assert!(rl.is_revoked(&fp.to_uppercase()));
}

#[test]
fn mtls_policy_hook_requires_client_identity_only_when_configured() {
    assert!(!MtlsPolicy::Disabled.requires_client_cert());
    assert!(!MtlsPolicy::Optional.requires_client_cert());
    assert!(MtlsPolicy::Required.requires_client_cert());
}

#[test]
fn dtls_adapter_enforces_policy_and_establishes() {
    let mut adapter = DtlsBackendAdapter::new();
    let bad = HandshakeConfig {
        profile: AuthProfile::ServerAuth,
        cipher_policy: CipherPolicy {
            min_dtls_version: DtlsVersion::Dtls12,
            allow_weak_suites: true,
        },
        trust: TrustConfig::default(),
        client_identity: None,
        expected_server_name: Some("api.example.com".to_string()),
    };
    assert!(adapter.start_client(&bad).is_err());

    let cfg = HandshakeConfig {
        profile: AuthProfile::ServerAuth,
        cipher_policy: CipherPolicy::default(),
        trust: TrustConfig::default(),
        client_identity: None,
        expected_server_name: Some("api.example.com".to_string()),
    };
    let out = adapter.start_client(&cfg).expect("start");
    assert_eq!(out.outbound_datagrams.len(), 1);
    assert!(!out.established);
    let out = adapter.on_datagram(b"DTLS_SERVER_HELLO").expect("server hello");
    assert!(out.established);
    assert!(out.peer_identity.is_some());
}

#[test]
fn downgrade_capability_forgery_is_rejected_by_policy() {
    let mut adapter = DtlsBackendAdapter::new();
    // Simulate peer forcing weak suites through forged capabilities.
    let cfg = HandshakeConfig {
        profile: AuthProfile::ServerAuth,
        cipher_policy: CipherPolicy {
            min_dtls_version: DtlsVersion::Dtls12,
            allow_weak_suites: true,
        },
        trust: TrustConfig::default(),
        client_identity: None,
        expected_server_name: Some("api.example.com".to_string()),
    };
    let err = adapter.start_client(&cfg).expect_err("must reject downgrade");
    assert!(err.message().contains("weak cipher suites"));
}

#[test]
fn openssl_adapter_builds_context_and_progresses_handshake() {
    let mut client = OpenSslDtlsAdapter::new();
    let mut server = OpenSslDtlsAdapter::new();
    let cfg = HandshakeConfig {
        profile: AuthProfile::ServerAuth,
        cipher_policy: CipherPolicy::default(),
        trust: TrustConfig {
            trust_anchor_pems: vec![test_root_anchor_pem()],
            require_hostname_verification: true,
        },
        client_identity: None,
        expected_server_name: Some("api.example.com".to_string()),
    };
    let c0 = start_client(&mut client, &cfg).expect("client start");
    assert_eq!(c0.outbound_datagrams.len(), 1);
    start_server(&mut server, &cfg).expect("server start");

    let s1 = server.on_datagram(&c0.outbound_datagrams[0].bytes).expect("hello verify");
    assert_eq!(s1.outbound_datagrams.len(), 1);
    let c1 = client.on_datagram(&s1.outbound_datagrams[0].bytes).expect("cookie echo");
    assert_eq!(c1.outbound_datagrams.len(), 1);
    let s2 = server.on_datagram(&c1.outbound_datagrams[0].bytes).expect("server hello");
    assert!(s2.established);
    assert_eq!(s2.outbound_datagrams.len(), 1);
    let out = client.on_datagram(&s2.outbound_datagrams[0].bytes).expect("established");
    assert!(out.established);
    assert!(out.peer_identity.is_some());
}

#[test]
fn openssl_adapter_retransmits_on_timeout() {
    let mut client = OpenSslDtlsAdapter::new();
    let cfg = HandshakeConfig {
        profile: AuthProfile::ServerAuth,
        cipher_policy: CipherPolicy::default(),
        trust: TrustConfig {
            trust_anchor_pems: vec![test_root_anchor_pem()],
            require_hostname_verification: true,
        },
        client_identity: None,
        expected_server_name: Some("api.example.com".to_string()),
    };
    let c0 = start_client(&mut client, &cfg).expect("start");
    assert_eq!(c0.outbound_datagrams.len(), 1);
    let t0 = client.on_timeout(500).expect("no retransmit yet");
    assert!(t0.outbound_datagrams.is_empty());
    let t1 = client.on_timeout(1000).expect("retransmit");
    assert_eq!(t1.outbound_datagrams.len(), 1);
    assert_eq!(t1.outbound_datagrams[0].bytes, c0.outbound_datagrams[0].bytes);
}

#[test]
fn lib_crate_name_constant_is_set() {
    assert_eq!(todero_protocol::transport_udp::CRATE_NAME, "v3-transport-udp");
}

#[test]
fn replay_window_is_held_to_its_bounds() {
    assert_eq!(ReplayWindow::new(0).window_size, 1);
    assert_eq!(ReplayWindow::new(500).window_size, 128);
    let mut win = ReplayWindow::new(128);
    assert!(win.accept(200));
    assert_eq!(win.max_seen(), 200);
    assert!(win.accept(73));
    assert!(!win.accept(72));
    assert!(!win.accept(73));
}

#[test]
fn gate_asks_before_it_counts() {
    let mut gate = AntiAmplificationGate::new(2);
    assert!(!gate.can_send(1));
    gate.on_receive(5);
    assert!(gate.can_send(10));
    assert!(!gate.can_send(11));
    assert!(!gate.on_send(11));
    assert!(gate.on_send(10));
    assert!(!gate.on_send(1));
}

#[test]
fn tag_is_the_known_hmac() {
    // Number, connection, path and length of the payload go first, first byte first.
    let auth = HmacSha256FrameAuth::new([0u8; 32], 32);
    let tag = auth.sign(1, 2, 3, b"a").expect("tag");
    let mut message = Vec::new();
    message.extend_from_slice(&1u64.to_be_bytes());
    message.extend_from_slice(&2u64.to_be_bytes());
    message.extend_from_slice(&3u32.to_be_bytes());
    message.extend_from_slice(&1u64.to_be_bytes());
    message.extend_from_slice(b"a");
    let key = PKey::hmac(&[0u8; 32]).expect("key");
    let mut signer = openssl::sign::Signer::new(MessageDigest::sha256(), &key).expect("signer");
    signer.update(&message).expect("update");
    assert_eq!(tag, signer.sign_to_vec().expect("sign"));
}

#[test]
fn other_fields_make_other_tags() {
    let fresh = || HmacSha256FrameAuth::new([7u8; 32], 32);
    let tag = fresh().sign(5, 1, 1, b"p").expect("tag");
    assert!(fresh().verify(6, 1, 1, b"p", &tag).is_err());
    assert!(fresh().verify(5, 2, 1, b"p", &tag).is_err());
    assert!(fresh().verify(5, 1, 2, b"p", &tag).is_err());
    assert!(fresh().verify(5, 1, 1, b"q", &tag).is_err());
    assert!(fresh().verify(5, 1, 1, b"p", &tag[..31]).is_err());
    assert!(fresh().verify(5, 1, 1, b"p", &tag).is_ok());
    // A number is spent even by a frame that is refused.
    let mut auth = fresh();
    assert!(auth.verify(5, 1, 1, b"q", &tag).is_err());
    assert!(auth.verify(5, 1, 1, b"p", &tag).is_err());
}

#[test]
fn crypto_errors_speak() {
    assert_eq!(
        CryptoError::InvalidConfig("x".into()).message(),
        "invalid handshake configuration: x"
    );
    assert_eq!(CryptoError::AuthFailed("x".into()).message(), "peer authentication failed: x");
    assert_eq!(CryptoError::Provider("x".into()).message(), "handshake provider failure: x");
}

fn plain_cfg() -> HandshakeConfig {
    HandshakeConfig {
        profile: AuthProfile::ServerAuth,
        cipher_policy: CipherPolicy::default(),
        trust: TrustConfig::default(),
        client_identity: None,
        expected_server_name: Some("api.example.com".to_string()),
    }
}

#[test]
fn configurations_are_checked() {
    let refused = |cfg: HandshakeConfig| {
        DtlsBackendAdapter::validate_cfg(&cfg).expect_err("refused").message()
    };
    assert_eq!(
        refused(HandshakeConfig { expected_server_name: Some("  ".to_string()), ..plain_cfg() }),
        "invalid handshake configuration: expected_server_name required when hostname verification is enabled"
    );
    assert_eq!(
        refused(HandshakeConfig { profile: AuthProfile::MutualTls, ..plain_cfg() }),
        "invalid handshake configuration: client identity required for mutual TLS profile"
    );
    assert!(DtlsBackendAdapter::validate_cfg(&plain_cfg()).is_ok());
}

#[test]
fn adapters_shake_hands_with_each_other() {
    let mut client = DtlsBackendAdapter::new();
    let mut server = DtlsBackendAdapter::new();
    assert!(client.on_datagram(b"x").is_err());
    let hello = client.start_client(&plain_cfg()).expect("client");
    server.start_server(&plain_cfg()).expect("server");
    let answer = server.on_datagram(&hello.outbound_datagrams[0].bytes).expect("answer");
    assert!(answer.established);
    let done = client.on_datagram(&answer.outbound_datagrams[0].bytes).expect("done");
    assert!(done.established);
    assert!(client.on_timeout(10).expect("timeout").outbound_datagrams.is_empty());
}

#[test]
fn openssl_adapter_refuses_another_server_name() {
    let mut client = OpenSslDtlsAdapter::new();
    let mut server = OpenSslDtlsAdapter::new();
    let cfg = |name: &str| HandshakeConfig {
        trust: TrustConfig {
            trust_anchor_pems: vec![test_root_anchor_pem()],
            require_hostname_verification: true,
        },
        expected_server_name: Some(name.to_string()),
        ..plain_cfg()
    };
    let hello = start_client(&mut client, &cfg("one.example.com")).expect("client");
    assert_eq!(
        hello.outbound_datagrams[0].bytes,
        b"DTLS_CLIENT_HELLO|sni=one.example.com".to_vec()
    );
    start_server(&mut server, &cfg("two.example.com")).expect("server");
    let verify = server.on_datagram(&hello.outbound_datagrams[0].bytes).expect("verify");
    let echo = client.on_datagram(&verify.outbound_datagrams[0].bytes).expect("echo");
    let answer = server.on_datagram(&echo.outbound_datagrams[0].bytes).expect("answer");
    assert_eq!(
        client.on_datagram(&answer.outbound_datagrams[0].bytes),
        Err(CryptoError::AuthFailed(
            "server identity mismatch expected 'one.example.com' got 'two.example.com'".to_string()
        ))
    );
}

#[test]
fn openssl_contexts_need_anchors_and_dtls12() {
    let no_anchor = OpenSslDtlsAdapter::build_context(AdapterRole::Client, &plain_cfg());
    assert_eq!(
        no_anchor.err().expect("refused").message(),
        "invalid handshake configuration: at least one trust anchor is required for client TLS"
    );
    let newer = HandshakeConfig {
        cipher_policy: CipherPolicy {
            min_dtls_version: DtlsVersion::Dtls13,
            allow_weak_suites: false,
        },
        ..plain_cfg()
    };
    assert!(OpenSslDtlsAdapter::build_context(AdapterRole::Server, &newer).is_err());
    let empty = HandshakeConfig {
        trust: TrustConfig {
            trust_anchor_pems: vec![Vec::new()],
            require_hostname_verification: true,
        },
        ..plain_cfg()
    };
    assert!(OpenSslDtlsAdapter::build_context(AdapterRole::Server, &empty).is_err());
    let anchors = HandshakeConfig {
        trust: TrustConfig {
            trust_anchor_pems: vec![test_root_anchor_pem(), test_root_anchor_pem()],
            require_hostname_verification: true,
        },
        ..plain_cfg()
    };
    let context = OpenSslDtlsAdapter::build_context(AdapterRole::Client, &anchors)
        .expect("builder")
        .build();
    assert_eq!(context.cert_store().all_certificates().len(), 2);
}

#[test]
fn identity_files_are_named_in_order() {
    assert_eq!(OpenSslDtlsAdapter::identity_files(&plain_cfg()), None);
    let cfg = HandshakeConfig {
        client_identity: Some(ClientIdentityRef {
            key_id: "/key.pem".to_string(),
            cert_chain_ids: vec!["/cert.pem".to_string(), "/other.pem".to_string()],
        }),
        ..plain_cfg()
    };
    let files = OpenSslDtlsAdapter::identity_files(&cfg).expect("files");
    assert_eq!(files.private_key, "/key.pem");
    assert_eq!(files.certificate, Some("/cert.pem".to_string()));
}

#[test]
fn datagrams_are_split_at_the_first_bar() {
    assert_eq!(
        OpenSslDtlsAdapter::parse_kv(b"HEAD|a=1|b"),
        ("HEAD".to_string(), Some("a=1|b".to_string()))
    );
    assert_eq!(OpenSslDtlsAdapter::parse_kv(b"HEAD"), ("HEAD".to_string(), None));
    assert_eq!(OpenSslDtlsAdapter::parse_kv(&[0xff]), (String::new(), None));
}

fn opened(method: SslMethod) -> (SslContext, Ssl) {
    let ctx = SslContextBuilder::new(method).expect("context").build();
    let ssl = Ssl::new(&ctx).expect("session");
    (ctx, ssl)
}

#[test]
fn opened_sessions_start_their_side() {
    let cfg = HandshakeConfig {
        expected_server_name: Some("api.example.com".to_string()),
        ..plain_cfg()
    };
    let mut client = OpenSslDtlsAdapter::new();
    let hello = client.client_opened(&cfg, Ok(opened(SslMethod::dtls_client()))).expect("client");
    assert_eq!(
        hello.outbound_datagrams[0].bytes,
        b"DTLS_CLIENT_HELLO|sni=api.example.com".to_vec()
    );
    assert_eq!(client.role, Some(AdapterRole::Client));
    assert_eq!(client.next_retransmit_at_ms, Some(1_000));
    assert!(client.ctx.is_some() && client.ssl.is_some());

    let mut server = OpenSslDtlsAdapter::new();
    let quiet = server.server_opened(&cfg, Ok(opened(SslMethod::dtls_server()))).expect("server");
    assert!(quiet.outbound_datagrams.is_empty() && !quiet.established);
    assert_eq!(server.role, Some(AdapterRole::Server));
    assert_eq!(server.cfg, Some(cfg));
    assert!(server.ctx.is_some() && server.ssl.is_some());
}

#[test]
fn sessions_that_did_not_open_leave_an_adapter_as_it_was() {
    let refused = || CryptoError::Provider("openssl ssl init failed: no".to_string());
    let mut adapter = OpenSslDtlsAdapter::new();
    assert_eq!(adapter.client_opened(&plain_cfg(), Err(refused())), Err(refused()));
    assert_eq!(adapter.server_opened(&plain_cfg(), Err(refused())), Err(refused()));
    assert_eq!(adapter.role, None);
    assert!(adapter.cfg.is_none() && adapter.ctx.is_none() && adapter.ssl.is_none());
    assert!(adapter.last_flight.is_empty());
}

#[test]
fn contexts_are_for_dtls_and_verify_the_peer() {
    let anchored = HandshakeConfig {
        trust: TrustConfig {
            trust_anchor_pems: vec![test_root_anchor_pem()],
            require_hostname_verification: true,
        },
        ..plain_cfg()
    };
    let mutual = HandshakeConfig {
        profile: AuthProfile::MutualTls,
        client_identity: Some(ClientIdentityRef {
            key_id: "/key.pem".to_string(),
            cert_chain_ids: vec!["/cert.pem".to_string()],
        }),
        ..anchored.clone()
    };
    let strict = SslVerifyMode::PEER | SslVerifyMode::FAIL_IF_NO_PEER_CERT;
    for (cfg, mode) in [(&anchored, SslVerifyMode::PEER), (&mutual, strict)] {
        for role in [AdapterRole::Client, AdapterRole::Server] {
            let ctx = OpenSslDtlsAdapter::build_context(role, cfg).expect("context").build();
            assert_eq!(ctx.verify_mode(), mode);
            assert_eq!(ctx.cert_store().all_certificates().len(), 1);
            assert!(Ssl::new(&ctx).expect("session").version_str().starts_with("DTLS"));
        }
    }
    let bare = OpenSslDtlsAdapter::build_context(AdapterRole::Server, &plain_cfg()).expect("bare");
    let ctx = bare.build();
    assert_eq!(ctx.verify_mode(), SslVerifyMode::PEER);
    assert_eq!(ctx.cert_store().all_certificates().len(), 0);
}
