//! How engines are configured.

use std::collections::HashMap;

use vstd::prelude::*;
use vstd::string::StrSliceExecFns;

use crate::crypto::openssl_engine;
use crate::crypto::types::HandshakeConfig;
use crate::ffi::calls;
use crate::ffi::engine;
use crate::ffi::engine::path_is_through;
use crate::ffi::events::BufferView;
use crate::ffi::json_text;
use crate::ffi::json_text::{object_new, object_put_flag, object_put_text, object_text, FieldView};
use crate::ffi::registry::{EngineKind, EngineView, HandleView, Registry};
use crate::ffi::tls;
use crate::ffi::tls::{
    build_client_tls_cfg, build_server_tls_cfg, is_dtls_packet, ClientTlsState, ClientTlsView,
    ServerTlsState, ServerTlsView, TlsMode, TlsView,
};
use crate::server_runtime::model as server_model;
use crate::server_runtime::model::ServerView;
use crate::session::model;
use crate::text;
use crate::text::{joined_text, utf8_error_message, utf8_text};
use crate::traversal::RelayPolicy;
use crate::wire;
use crate::wire::WireFrame;

verus! {

broadcast use vstd::std_specs::hash::group_hash_axioms;

/// The reason for refusing an argument that is no text.
pub open spec fn unreadable(what: Seq<char>, bytes: Seq<u8>) -> Seq<char> {
    "invalid "@ + what + " utf8: "@ + text::utf8_failure(bytes)
}

/// That an engine failed for a reason.
pub open spec fn refused(h: HandleView, reason: Seq<char>, after: HandleView, code: i32) -> bool {
    code == -1 && after == (HandleView { last_error: Some(reason), ..h })
}

fn argument_text(bytes: &[u8], what: &str) -> (text: Result<String, String>)
    ensures
        match text {
            Ok(t) => vstd::utf8::valid_utf8(bytes@) && t@ == vstd::utf8::decode_utf8(bytes@),
            Err(e) => !vstd::utf8::valid_utf8(bytes@) && e@ == unreadable(what@, bytes@),
        },
{
    match utf8_text(bytes) {
        Ok(text) => Ok(text),
        Err(e) => {
            let start = joined_text("invalid ", what);
            let head = joined_text(start.as_str(), " utf8: ");
            Err(joined_text(head.as_str(), utf8_error_message(&e).as_str()))
        },
    }
}

/// The arguments with which traversal is configured, as texts.
#[verifier::ext_equal]
pub struct NatArguments {
    pub stun_uri: Seq<u8>,
    pub turn_uri: Seq<u8>,
    pub turn_realm: Seq<u8>,
    pub turn_username: Seq<u8>,
    pub turn_password: Seq<u8>,
}

/// The reason for refusing the first argument that is no text.
pub open spec fn first_unreadable(args: NatArguments) -> Option<Seq<char>> {
    if !vstd::utf8::valid_utf8(args.stun_uri) {
        Some(unreadable("stun_uri"@, args.stun_uri))
    } else if !vstd::utf8::valid_utf8(args.turn_uri) {
        Some(unreadable("turn_uri"@, args.turn_uri))
    } else if !vstd::utf8::valid_utf8(args.turn_realm) {
        Some(unreadable("turn_realm"@, args.turn_realm))
    } else if !vstd::utf8::valid_utf8(args.turn_username) {
        Some(unreadable("turn_username"@, args.turn_username))
    } else if !vstd::utf8::valid_utf8(args.turn_password) {
        Some(unreadable("turn_password"@, args.turn_password))
    } else {
        None
    }
}

/// The line that tells how traversal is configured; the password stays out of it.
pub open spec fn nat_line(relay_policy: i32, args: NatArguments) -> Seq<char> {
    json_text::json_text(
        json_text::no_fields().insert("kind"@, FieldView::Text("nat_config"@)).insert(
            "relay_policy"@,
            FieldView::Text(
                if relay_policy == 1 {
                    "relay_only"@
                } else {
                    "prefer_direct"@
                },
            ),
        ).insert("stun_uri"@, FieldView::Text(vstd::utf8::decode_utf8(args.stun_uri))).insert(
            "turn_uri"@,
            FieldView::Text(vstd::utf8::decode_utf8(args.turn_uri)),
        ).insert("turn_realm"@, FieldView::Text(vstd::utf8::decode_utf8(args.turn_realm))).insert(
            "turn_username"@,
            FieldView::Text(vstd::utf8::decode_utf8(args.turn_username)),
        ).insert(
            "turn_password_set"@,
            FieldView::Flag(vstd::utf8::decode_utf8(args.turn_password).len() != 0),
        ),
    )
}

/// An engine with another relay policy; only a server keeps one.
pub open spec fn with_policy(kind: EngineView, relay_policy: i32) -> EngineView {
    match kind {
        EngineView::Client(_) => kind,
        EngineView::Server(v, records) => EngineView::Server(
            ServerView {
                relay_policy: if relay_policy == 1 {
                    RelayPolicy::RelayOnly
                } else {
                    RelayPolicy::PreferDirect
                },
                ..v
            },
            records,
        ),
    }
}

/// That configuring traversal leaves an engine as `after` and gives `code`.
pub open spec fn nat_configured(
    h: HandleView,
    relay_policy: i32,
    args: NatArguments,
    after: HandleView,
    code: i32,
) -> bool {
    match first_unreadable(args) {
        Some(reason) => refused(h, reason, after, code),
        None => {
            &&& code == 0
            &&& after == (HandleView {
                kind: with_policy(h.kind, relay_policy),
                output: BufferView {
                    datagrams: Seq::empty(),
                    events: seq![nat_line(relay_policy, args)],
                },
                ..h
            })
        },
    }
}

/// The texts of the arguments, or the first that is none.
fn nat_texts(
    stun_uri: &[u8],
    turn_uri: &[u8],
    turn_realm: &[u8],
    turn_username: &[u8],
    turn_password: &[u8],
) -> (texts: Result<(String, String, String, String, String), String>)
    ensures
        ({
            let args = NatArguments {
                stun_uri: stun_uri@,
                turn_uri: turn_uri@,
                turn_realm: turn_realm@,
                turn_username: turn_username@,
                turn_password: turn_password@,
            };
            match (texts, first_unreadable(args)) {
                (Ok(t), None) => {
                    &&& t.0@ == vstd::utf8::decode_utf8(stun_uri@)
                    &&& t.1@ == vstd::utf8::decode_utf8(turn_uri@)
                    &&& t.2@ == vstd::utf8::decode_utf8(turn_realm@)
                    &&& t.3@ == vstd::utf8::decode_utf8(turn_username@)
                    &&& t.4@ == vstd::utf8::decode_utf8(turn_password@)
                },
                (Err(e), Some(reason)) => e@ == reason,
                _ => false,
            }
        }),
{
    let stun = argument_text(stun_uri, "stun_uri")?;
    let turn = argument_text(turn_uri, "turn_uri")?;
    let realm = argument_text(turn_realm, "turn_realm")?;
    let username = argument_text(turn_username, "turn_username")?;
    let password = argument_text(turn_password, "turn_password")?;
    Ok((stun, turn, realm, username, password))
}

pub fn v3_ffi_configure_nat(
    reg: &mut Registry,
    handle_id: u64,
    relay_policy: i32,
    stun_uri: &[u8],
    turn_uri: &[u8],
    turn_realm: &[u8],
    turn_username: &[u8],
    turn_password: &[u8],
) -> (code: i32)
    requires
        old(reg).wf(),
    ensures
        final(reg).wf(),
        ({
            let args = NatArguments {
                stun_uri: stun_uri@,
                turn_uri: turn_uri@,
                turn_realm: turn_realm@,
                turn_username: turn_username@,
                turn_password: turn_password@,
            };
            if old(reg)@.handles.contains_key(handle_id) {
                exists|after: HandleView| #[trigger]
                    nat_configured(
                        old(reg)@.handles[handle_id],
                        relay_policy,
                        args,
                        after,
                        code,
                    ) && final(reg)@ == old(reg)@.with(handle_id, after)
            } else {
                code == -1 && final(reg)@ == old(reg)@
            }
        }),
{
    let ghost args = NatArguments {
        stun_uri: stun_uri@,
        turn_uri: turn_uri@,
        turn_realm: turn_realm@,
        turn_username: turn_username@,
        turn_password: turn_password@,
    };
    let mut handle = match reg.take(handle_id) {
        Some(handle) => handle,
        None => {
            return -1;
        },
    };
    let ghost before = handle@;
    let code = match nat_texts(stun_uri, turn_uri, turn_realm, turn_username, turn_password) {
        Err(e) => handle.conclude(Err(e)),
        Ok((stun, turn, realm, username, password)) => {
            let policy = if relay_policy == 1 {
                RelayPolicy::RelayOnly
            } else {
                RelayPolicy::PreferDirect
            };
            match &mut handle.kind {
                EngineKind::Client(client) => client.set_relay_policy(policy),
                EngineKind::Server(server) => server.set_relay_policy(policy),
            }
            let mut object = object_new();
            object_put_text(&mut object, "kind", "nat_config");
            if relay_policy == 1 {
                object_put_text(&mut object, "relay_policy", "relay_only");
            } else {
                object_put_text(&mut object, "relay_policy", "prefer_direct");
            }
            object_put_text(&mut object, "stun_uri", stun.as_str());
            object_put_text(&mut object, "turn_uri", turn.as_str());
            object_put_text(&mut object, "turn_realm", realm.as_str());
            object_put_text(&mut object, "turn_username", username.as_str());
            object_put_flag(&mut object, "turn_password_set", !is_empty(&password));
            let line = object_text(object);
            let ghost told = seq![line@];
            let mut lines: Vec<String> = Vec::new();
            lines.push(line);
            handle.output.events = lines;
            handle.output.datagrams = Vec::new();
            assert(handle@.output =~= (BufferView { datagrams: Seq::empty(), events: told }));
            0
        },
    };
    let ghost after = handle@;
    assert(nat_configured(before, relay_policy, args, after, code));
    reg.put(handle_id, handle);
    assert(reg@ =~= old(reg)@.with(handle_id, after));
    code
}

fn is_empty(text: &String) -> (empty: bool)
    ensures
        empty == (text@.len() == 0),
{
    text.as_str().unicode_len() == 0
}

/// That setting up a client's handshake leaves an engine as `after` and gives
/// `code`. `anchor` is what is at the path of the trust anchor.
pub open spec fn client_tls_configured(
    h: HandleView,
    expected: Seq<u8>,
    trust: Seq<u8>,
    anchor: Option<Vec<u8>>,
    after: HandleView,
    code: i32,
) -> bool {
    let name = vstd::utf8::decode_utf8(expected);
    let path = vstd::utf8::decode_utf8(trust);
    if !vstd::utf8::valid_utf8(expected) {
        refused(h, unreadable("expected_server_name"@, expected), after, code)
    } else if !vstd::utf8::valid_utf8(trust) {
        refused(h, unreadable("trust_anchor_path"@, trust), after, code)
    } else if tls::client_refusal(name, path, anchor is Some) is Some {
        refused(h, tls::client_refusal(name, path, anchor is Some)->0, after, code)
    } else if h.kind is Server {
        refused(h, "client tls can only be configured on client handle"@, after, code)
    } else {
        &&& code == 0
        &&& after == (HandleView {
            tls: TlsView::Client(
                ClientTlsView {
                    adapter: tls::idle_adapter(),
                    cfg: tls::client_config(name, anchor->0@),
                    established: false,
                    core_started: false,
                },
            ),
            ..h
        })
    }
}

pub fn v3_ffi_configure_client_tls(
    reg: &mut Registry,
    handle_id: u64,
    expected_server_name: &[u8],
    trust_anchor_path: &[u8],
    anchor: Option<Vec<u8>>,
) -> (code: i32)
    requires
        old(reg).wf(),
        anchor matches Some(pem) ==> pem@.len() <= openssl_engine::MAX_PEM_LEN,
    ensures
        final(reg).wf(),
        if old(reg)@.handles.contains_key(handle_id) {
            exists|after: HandleView| #[trigger]
                client_tls_configured(
                    old(reg)@.handles[handle_id],
                    expected_server_name@,
                    trust_anchor_path@,
                    anchor,
                    after,
                    code,
                ) && final(reg)@ == old(reg)@.with(handle_id, after)
        } else {
            code == -1 && final(reg)@ == old(reg)@
        },
{
    let mut handle = match reg.take(handle_id) {
        Some(handle) => handle,
        None => {
            return -1;
        },
    };
    let ghost before = handle@;
    let code = match client_tls(expected_server_name, trust_anchor_path, anchor) {
        Err(e) => handle.conclude(Err(e)),
        Ok(state) => {
            let is_client = match &handle.kind {
                EngineKind::Client(_) => true,
                EngineKind::Server(_) => false,
            };
            if is_client {
                handle.tls = TlsMode::Client(state);
                0
            } else {
                handle.conclude(
                    Err("client tls can only be configured on client handle".to_string()),
                )
            }
        },
    };
    let ghost after = handle@;
    assert(client_tls_configured(
        before,
        expected_server_name@,
        trust_anchor_path@,
        anchor,
        after,
        code,
    ));
    reg.put(handle_id, handle);
    assert(reg@ =~= old(reg)@.with(handle_id, after));
    code
}

/// How a client is set up to shake hands, or what is wrong with the arguments.
fn client_tls(expected_server_name: &[u8], trust_anchor_path: &[u8], anchor: Option<Vec<u8>>) -> (tls:
    Result<ClientTlsState, String>)
    requires
        anchor matches Some(pem) ==> pem@.len() <= openssl_engine::MAX_PEM_LEN,
    ensures
        ({
            let name = vstd::utf8::decode_utf8(expected_server_name@);
            let path = vstd::utf8::decode_utf8(trust_anchor_path@);
            let refusal = tls::client_refusal(name, path, anchor is Some);
            if !vstd::utf8::valid_utf8(expected_server_name@) {
                tls is Err && tls->Err_0@ == unreadable("expected_server_name"@, expected_server_name@)
            } else if !vstd::utf8::valid_utf8(trust_anchor_path@) {
                tls is Err && tls->Err_0@ == unreadable("trust_anchor_path"@, trust_anchor_path@)
            } else if refusal is Some {
                tls is Err && tls->Err_0@ == refusal->0
            } else {
                &&& tls is Ok
                &&& tls->Ok_0.wf()
                &&& tls->Ok_0@ == (ClientTlsView {
                    adapter: tls::idle_adapter(),
                    cfg: tls::client_config(name, anchor->0@),
                    established: false,
                    core_started: false,
                })
            }
        }),
{
    let expected = argument_text(expected_server_name, "expected_server_name")?;
    let trust = argument_text(trust_anchor_path, "trust_anchor_path")?;
    let ghost pem = anchor;
    let cfg = build_client_tls_cfg(expected.as_str(), trust.as_str(), anchor)?;
    proof {
        let pems = cfg.trust.trust_anchor_pems@;
        assert(cfg@.trust.trust_anchor_pems == seq![pem->0@]);
        assert forall|i: int| 0 <= i < pems.len() implies (#[trigger] pems[i])@.len()
            <= openssl_engine::MAX_PEM_LEN by {
            assert(cfg@.trust.trust_anchor_pems[i] == pems[i]@);
        }
    }
    Ok(ClientTlsState::new(cfg))
}

/// The arguments with which a server's handshakes are set up.
#[verifier::ext_equal]
pub struct ServerTlsArguments {
    pub server_name: Seq<u8>,
    pub cert_path: Seq<u8>,
    pub key_path: Seq<u8>,
    pub cert_there: bool,
    pub key_there: bool,
}

/// The reason for refusing the first argument that is no text.
pub open spec fn first_unreadable_name(args: ServerTlsArguments) -> Option<Seq<char>> {
    if !vstd::utf8::valid_utf8(args.server_name) {
        Some(unreadable("server_name"@, args.server_name))
    } else if !vstd::utf8::valid_utf8(args.cert_path) {
        Some(unreadable("cert_path"@, args.cert_path))
    } else if !vstd::utf8::valid_utf8(args.key_path) {
        Some(unreadable("key_path"@, args.key_path))
    } else {
        None
    }
}

/// Why a server's handshakes are not set up with readable arguments.
pub open spec fn names_refusal(args: ServerTlsArguments) -> Option<Seq<char>> {
    tls::server_refusal(
        vstd::utf8::decode_utf8(args.server_name),
        vstd::utf8::decode_utf8(args.cert_path),
        vstd::utf8::decode_utf8(args.key_path),
        args.cert_there,
        args.key_there,
    )
}

/// How a server is set up to shake hands.
pub open spec fn names_accepted(args: ServerTlsArguments) -> ServerTlsView {
    ServerTlsView {
        server_name: vstd::utf8::decode_utf8(args.server_name),
        cert_path: vstd::utf8::decode_utf8(args.cert_path),
        key_path: vstd::utf8::decode_utf8(args.key_path),
        sessions_by_path: Map::empty(),
    }
}

/// That setting up a server's handshakes leaves an engine as `after` and gives
/// `code`.
pub open spec fn server_tls_configured(
    h: HandleView,
    args: ServerTlsArguments,
    after: HandleView,
    code: i32,
) -> bool {
    if first_unreadable_name(args) is Some {
        refused(h, first_unreadable_name(args)->0, after, code)
    } else if names_refusal(args) is Some {
        refused(h, names_refusal(args)->0, after, code)
    } else if h.kind is Client {
        refused(h, "server tls can only be configured on server handle"@, after, code)
    } else {
        code == 0 && after == (HandleView { tls: TlsView::Server(names_accepted(args)), ..h })
    }
}

pub fn v3_ffi_configure_server_tls(
    reg: &mut Registry,
    handle_id: u64,
    server_name: &[u8],
    cert_path: &[u8],
    key_path: &[u8],
    cert_there: bool,
    key_there: bool,
) -> (code: i32)
    requires
        old(reg).wf(),
    ensures
        final(reg).wf(),
        ({
            let args = ServerTlsArguments {
                server_name: server_name@,
                cert_path: cert_path@,
                key_path: key_path@,
                cert_there,
                key_there,
            };
            if old(reg)@.handles.contains_key(handle_id) {
                exists|after: HandleView| #[trigger]
                    server_tls_configured(old(reg)@.handles[handle_id], args, after, code) && final(reg)@
                        == old(reg)@.with(handle_id, after)
            } else {
                code == -1 && final(reg)@ == old(reg)@
            }
        }),
{
    let ghost args = ServerTlsArguments {
        server_name: server_name@,
        cert_path: cert_path@,
        key_path: key_path@,
        cert_there,
        key_there,
    };
    let mut handle = match reg.take(handle_id) {
        Some(handle) => handle,
        None => {
            return -1;
        },
    };
    let ghost before = handle@;
    let code = match server_tls(server_name, cert_path, key_path, cert_there, key_there) {
        Err(e) => handle.conclude(Err(e)),
        Ok(state) => {
            let is_server = match &handle.kind {
                EngineKind::Client(_) => false,
                EngineKind::Server(_) => true,
            };
            if is_server {
                handle.tls = TlsMode::Server(state);
                0
            } else {
                handle.conclude(
                    Err("server tls can only be configured on server handle".to_string()),
                )
            }
        },
    };
    let ghost after = handle@;
    assert(server_tls_configured(before, args, after, code));
    reg.put(handle_id, handle);
    assert(reg@ =~= old(reg)@.with(handle_id, after));
    code
}

fn server_tls(
    server_name: &[u8],
    cert_path: &[u8],
    key_path: &[u8],
    cert_there: bool,
    key_there: bool,
) -> (tls: Result<ServerTlsState, String>)
    ensures
        ({
            let args = ServerTlsArguments {
                server_name: server_name@,
                cert_path: cert_path@,
                key_path: key_path@,
                cert_there,
                key_there,
            };
            if first_unreadable_name(args) is Some {
                tls is Err && tls->Err_0@ == first_unreadable_name(args)->0
            } else if names_refusal(args) is Some {
                tls is Err && tls->Err_0@ == names_refusal(args)->0
            } else {
                &&& tls is Ok
                &&& engine::server_mode_wf(TlsMode::Server(tls->Ok_0))
                &&& tls->Ok_0@ == names_accepted(args)
            }
        }),
{
    let server_name = argument_text(server_name, "server_name")?;
    let cert_path = argument_text(cert_path, "cert_path")?;
    let key_path = argument_text(key_path, "key_path")?;
    let _ = build_server_tls_cfg(
        server_name.as_str(),
        cert_path.as_str(),
        key_path.as_str(),
        cert_there,
        key_there,
    )?;
    let state = ServerTlsState { server_name, cert_path, key_path, sessions_by_path: HashMap::new() };
    assert(state@.sessions_by_path =~= Map::empty());
    Ok(state)
}

/// The configuration for the handshake that the next datagram on a path begins:
/// there is one where a server shakes hands and the path has no handshake yet.
pub fn v3_ffi_pending_tls(reg: &Registry, handle_id: u64, path_id: u32) -> (cfg: Option<
    HandshakeConfig,
>)
    requires
        reg.wf(),
    ensures
        match cfg {
            Some(cfg) => {
                &&& reg@.handles.contains_key(handle_id)
                &&& reg@.handles[handle_id].tls matches TlsView::Server(t)
                &&& !t.sessions_by_path.contains_key(path_id)
                &&& cfg@ == engine::server_tls_config(t)
            },
            None => reg@.handles.contains_key(handle_id)
                ==> (reg@.handles[handle_id].tls matches TlsView::Server(t)
                ==> t.sessions_by_path.contains_key(path_id)),
        },
{
    match reg.handles.get(&handle_id) {
        None => None,
        Some(handle) => {
            assert(reg@.handles[handle_id] == handle@);
            match &handle.tls {
                TlsMode::Server(state) => {
                    if state.sessions_by_path.contains_key(&path_id) {
                        assert(state@.sessions_by_path.contains_key(path_id));
                        return None;
                    }
                    match build_server_tls_cfg(
                        state.server_name.as_str(),
                        state.cert_path.as_str(),
                        state.key_path.as_str(),
                        true,
                        true,
                    ) {
                        Ok(cfg) => Some(cfg),
                        Err(_) => {
                            assert(false);
                            None
                        },
                    }
                },
                _ => None,
            }
        },
    }
}

/// Whether an engine has room for any datagram and for polling at `now_ms`.
pub fn v3_ffi_has_room(reg: &Registry, handle_id: u64, now_ms: u64) -> (room: bool)
    requires
        reg.wf(),
    ensures
        room && reg@.handles.contains_key(handle_id) ==> {
            let h = reg@.handles[handle_id];
            &&& forall|path_id: u32, bytes: Seq<u8>|
                #![trigger calls::datagram_fits(h, now_ms, path_id, bytes)]
                calls::datagram_fits(h, now_ms, path_id, bytes)
            &&& forall|limit: nat|
                #![trigger calls::poll_fits(h, now_ms, limit)]
                calls::poll_fits(h, now_ms, limit)
        },
        room == (reg@.handles.contains_key(handle_id) ==> match reg@.handles[handle_id].kind {
            EngineView::Client(v) => model::has_room(v.core, now_ms),
            EngineView::Server(v, _) => forall|cid: u64| #[trigger]
                v.sessions.contains_key(cid) ==> model::has_room(v.sessions[cid].core, now_ms),
        }),
{
    match reg.handles.get(&handle_id) {
        None => true,
        Some(handle) => {
            assert(reg@.handles[handle_id] == handle@);
            match &handle.kind {
                EngineKind::Client(client) => client.has_room(now_ms),
                EngineKind::Server(server) => {
                    let room = server.has_room(now_ms);
                    proof {
                        if room {
                            lemma_room_for_datagrams(*server, now_ms);
                        }
                    }
                    room
                },
            }
        },
    }
}

/// Whether an engine has room for a datagram at `now_ms`. A datagram that reaches no
/// machine needs none; of a server only the datagram's own session does.
pub fn v3_ffi_has_room_for(
    reg: &Registry,
    handle_id: u64,
    now_ms: u64,
    path_id: u32,
    bytes: &[u8],
) -> (room: bool)
    requires
        reg.wf(),
    ensures
        room && reg@.handles.contains_key(handle_id) ==> calls::datagram_fits(
            reg@.handles[handle_id],
            now_ms,
            path_id,
            bytes@,
        ),
        room == (reg@.handles.contains_key(handle_id) ==> room_for(
            reg@.handles[handle_id],
            now_ms,
            path_id,
            bytes@,
        )),
{
    let handle = match reg.handles.get(&handle_id) {
        None => {
            return true;
        },
        Some(handle) => handle,
    };
    assert(reg@.handles[handle_id] == handle@);
    let frame = match WireFrame::decode(bytes) {
        Ok(frame) => frame,
        Err(_) => {
            return true;
        },
    };
    match &handle.kind {
        EngineKind::Client(client) => {
            if let TlsMode::Client(state) = &handle.tls {
                if !state.established || is_dtls_packet(bytes) {
                    return true;
                }
            }
            if client.core.cid != 0 && client.core.cid != frame.cid {
                return true;
            }
            client.has_room(now_ms)
        },
        EngineKind::Server(server) => {
            if let TlsMode::Server(state) = &handle.tls {
                if !path_is_through(state, path_id) || is_dtls_packet(bytes) {
                    return true;
                }
            }
            server.session_has_room(frame.cid, now_ms)
        },
    }
}

/// That an engine has room for a datagram, or that the datagram needs none.
pub open spec fn room_for(h: HandleView, now_ms: u64, path_id: u32, bytes: Seq<u8>) -> bool {
    match wire::parse_frame(bytes) {
        Err(_) => true,
        Ok(frame) => match h.kind {
            EngineView::Client(v) => engine::reaches_client(h.tls, bytes) && model::cid_accepted(
                v.core,
                frame.cid,
            ) ==> model::has_room(v.core, now_ms),
            EngineView::Server(v, _) => engine::reaches_server(h.tls, path_id, bytes)
                && v.sessions.contains_key(frame.cid) ==> model::has_room(
                v.sessions[frame.cid].core,
                now_ms,
            ),
        },
    }
}

/// With room in every session, a server takes any datagram in.
proof fn lemma_room_for_datagrams(
    server: crate::server_runtime::runtime::ServerRuntime<crate::store::memory::InMemorySessionStore>,
    now_ms: u64,
)
    requires
        server.wf(),
        forall|cid: u64| #[trigger]
            server@.sessions.contains_key(cid) ==> model::has_room(
                server@.sessions[cid].core,
                now_ms,
            ),
    ensures
        forall|path_id: u32, bytes: Seq<u8>|
            #![trigger server_model::datagram_fits(server@, now_ms, path_id, bytes)]
            server_model::datagram_fits(server@, now_ms, path_id, bytes),
{
    assert forall|path_id: u32, bytes: Seq<u8>|
        #![trigger server_model::datagram_fits(server@, now_ms, path_id, bytes)]
        server_model::datagram_fits(server@, now_ms, path_id, bytes) by {
        if let Ok(frame) = crate::wire::parse_frame(bytes) {
            if server@.sessions.contains_key(frame.cid) {
                let session = server.sessions@[frame.cid];
                assert(server@.sessions[frame.cid] == session@);
                let core = session.core@;
                assert(core.received_buffer.dom() =~= session.core.received_buffer@.dom());
                crate::session::laws::law_room_is_enough(core, now_ms);
                assert(model::datagram_fits(core, now_ms, path_id, bytes));
            }
        }
    }
}

} // verus!
