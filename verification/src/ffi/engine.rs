//! An engine: a client or a server with its handshakes and with what waits to be
//! fetched from it.

use openssl::ssl::SslContextBuilder;
use vstd::prelude::*;

use crate::client_runtime;
use crate::client_runtime::{
    ClientOutputView, ClientRuntime, ClientRuntimeError, ClientRuntimeOutput, ClientView,
};
use crate::crypto::dtls::AdapterRole;
use crate::crypto::openssl_dtls;
use crate::crypto::openssl_dtls::{OpenSslDtlsAdapter, OpenSslView};
use crate::crypto::types;
use crate::crypto::types::{
    ConfigView, CryptoError, CryptoErrorView, HandshakeDatagram, HandshakeOutput, HandshakeView,
};
use crate::ffi::events;
use crate::ffi::events::{
    append_started_output, kind_and_text_line, normalize_client_output, normalize_server_output,
    BufferView, OutputBuffer,
};
use crate::ffi::json_text;
use crate::ffi::json_text::{object_new, object_put_number, object_put_text, object_text, FieldView};
use crate::ffi::tls;
use crate::ffi::tls::{
    build_server_tls_cfg, is_dtls_packet, open_path, ClientTlsState, ClientTlsView, PathTlsView,
    ServerPathTlsState, ServerTlsState, ServerTlsView, TlsMode, TlsView,
};
use crate::server_runtime::model as server_model;
use crate::server_runtime::model::{Answers, Served, ServerView};
use crate::server_runtime::runtime;
use crate::server_runtime::runtime::ServerRuntime;
use crate::server_runtime::types::{ServerRuntimeError, ServerRuntimeOutput};
use crate::session::model;
use crate::store::journal as store_journal;
use crate::store::memory;
use crate::store::memory::InMemorySessionStore;
use crate::store::types::EntryView;
use crate::text::joined_text;

verus! {

broadcast use vstd::std_specs::hash::group_hash_axioms;

/// What a client does with its handshake and its output.
#[verifier::ext_equal]
pub struct ClientTurn {
    pub client: ClientView,
    pub tls: TlsView,
    pub output: BufferView,
    pub error: Option<Seq<char>>,
}

/// What a server does with its handshakes, its output and the records of its
/// store.
#[verifier::ext_equal]
pub struct ServerTurn {
    pub server: ServerView,
    pub records: Map<u64, EntryView>,
    pub tls: TlsView,
    pub output: BufferView,
    pub error: Option<Seq<char>>,
}

/// That an outcome is as `error` says.
pub open spec fn fails_as(outcome: Result<(), String>, error: Option<Seq<char>>) -> bool {
    match (outcome, error) {
        (Ok(_), None) => true,
        (Err(got), Some(expected)) => got@ == expected,
        _ => false,
    }
}

/// A client after a call on its runtime: what the runtime put out waits in place
/// of what waited; where it failed, that stays.
pub open spec fn client_called(
    tls: TlsView,
    output: BufferView,
    called: (ClientView, Result<ClientOutputView, ClientRuntimeError>),
) -> ClientTurn {
    match called.1 {
        Ok(out) => ClientTurn {
            client: called.0,
            tls,
            output: events::client_buffer(out),
            error: None,
        },
        Err(e) => ClientTurn { client: called.0, tls, output, error: Some(e.text()) },
    }
}

/// A server after a call on its runtime.
pub open spec fn server_called(
    records: Map<u64, EntryView>,
    tls: TlsView,
    output: BufferView,
    served: Served,
) -> ServerTurn {
    match served.result {
        Ok(out) => ServerTurn {
            server: served.runtime,
            records: store_journal::after_calls(records, served.calls),
            tls,
            output: events::server_buffer(out),
            error: None,
        },
        Err(e) => ServerTurn {
            server: served.runtime,
            records: store_journal::after_calls(records, served.calls),
            tls,
            output,
            error: Some(e.text()),
        },
    }
}

/// Takes the result of a call on a client's runtime.
pub(crate) fn take_client_result(
    result: Result<ClientRuntimeOutput, ClientRuntimeError>,
    output: &mut OutputBuffer,
) -> (outcome: Result<(), String>)
    ensures
        match result {
            Ok(out) => outcome is Ok && final(output)@ == events::client_buffer(out@),
            Err(e) => outcome is Err && outcome->Err_0@ == e.text() && final(output)@ == old(output)@,
        },
{
    match result {
        Ok(out) => {
            normalize_client_output(out, output);
            Ok(())
        },
        Err(e) => Err(e.message()),
    }
}

/// Takes the result of a call on a server's runtime.
pub(crate) fn take_server_result(
    result: Result<ServerRuntimeOutput, ServerRuntimeError>,
    output: &mut OutputBuffer,
) -> (outcome: Result<(), String>)
    ensures
        match result {
            Ok(out) => outcome is Ok && final(output)@ == events::server_buffer(out@),
            Err(e) => outcome is Err && outcome->Err_0@ == e@.text() && final(output)@ == old(output)@,
        },
{
    match result {
        Ok(out) => {
            normalize_server_output(out, output);
            Ok(())
        },
        Err(e) => Err(e.message()),
    }
}

/// The datagrams of a handshake, all for one path.
pub open spec fn on_path(path_id: u32, datagrams: Seq<Seq<u8>>) -> Seq<(u32, Seq<u8>)> {
    datagrams.map_values(|d: Seq<u8>| (path_id, d))
}

fn path_datagrams(path_id: u32, datagrams: Vec<HandshakeDatagram>) -> (paired: Vec<(u32, Vec<u8>)>)
    ensures
        events::pair_views(paired@) == on_path(path_id, types::flight_views(datagrams@)),
{
    let mut paired: Vec<(u32, Vec<u8>)> = Vec::new();
    for d in it: datagrams.into_iter()
        invariant
            it.seq() == datagrams@,
            paired@.len() == it.index(),
            forall|k: int|
                0 <= k < it.index() ==> (#[trigger] paired@[k]).0 == path_id && paired@[k].1@
                    == datagrams@[k].bytes@,
    {
        paired.push((path_id, d.bytes));
    }
    assert(events::pair_views(paired@) =~= on_path(path_id, types::flight_views(datagrams@)));
    paired
}

/// Whether a client is in the middle of a handshake.
pub open spec fn shaking_hands(tls: TlsView) -> bool {
    tls matches TlsView::Client(t) && !t.established
}

/// What a client does about a datagram in the middle of its handshake. Once the
/// handshake is done the machine is set going.
pub open spec fn client_handshake_turn(
    v: ClientView,
    t: ClientTlsView,
    output: BufferView,
    path_id: u32,
    bytes: Seq<u8>,
) -> ClientTurn {
    let (adapter, result) = openssl_dtls::openssl_datagram(t.adapter, bytes);
    match result {
        Err(e) => ClientTurn {
            client: v,
            tls: TlsView::Client(ClientTlsView { adapter, ..t }),
            output,
            error: Some("tls datagram failed: "@ + e.text()),
        },
        Ok(out) => {
            let sent = on_path(path_id, out.outbound_datagrams);
            if !out.established {
                ClientTurn {
                    client: v,
                    tls: TlsView::Client(ClientTlsView { adapter, ..t }),
                    output: BufferView { datagrams: sent, events: Seq::empty() },
                    error: None,
                }
            } else {
                let told = seq![
                    events::kind_and_text("client_tls"@, "event"@, "handshake_established"@),
                ];
                let tls = TlsView::Client(
                    ClientTlsView { adapter, established: true, core_started: true, ..t },
                );
                if t.core_started {
                    ClientTurn {
                        client: v,
                        tls,
                        output: BufferView { datagrams: sent, events: told },
                        error: None,
                    }
                } else {
                    let (client, begun) = client_runtime::client_step(
                        v,
                        model::begin_step(v.core),
                    );
                    match begun {
                        Err(e) => ClientTurn {
                            client,
                            tls,
                            output: BufferView { datagrams: sent, events: told },
                            error: Some(e.text()),
                        },
                        Ok(core) => ClientTurn {
                            client,
                            tls,
                            output: BufferView {
                                datagrams: sent + events::pairs(core.outbound_datagrams),
                                events: told + events::started_lines(core.events),
                            },
                            error: None,
                        },
                    }
                }
            }
        },
    }
}

/// What a client does about a datagram.
#[verifier::opaque]
pub open spec fn client_datagram_turn(
    v: ClientView,
    t: TlsView,
    output: BufferView,
    now_ms: u64,
    path_id: u32,
    bytes: Seq<u8>,
) -> ClientTurn {
    if shaking_hands(t) {
        client_handshake_turn(v, t->Client_0, output, path_id, bytes)
    } else if t is Client && tls::is_handshake(bytes) {
        ClientTurn { client: v, tls: t, output: BufferView::empty(), error: None }
    } else {
        client_called(
            t,
            output,
            client_runtime::client_step(
                v,
                model::datagram_step(v.core, now_ms, path_id, bytes),
            ),
        )
    }
}

/// Whether a client's datagram gets as far as its machine.
pub open spec fn reaches_client(t: TlsView, bytes: Seq<u8>) -> bool {
    !shaking_hands(t) && !(t is Client && tls::is_handshake(bytes))
}

/// Hands a datagram to a client.
pub(crate) fn client_datagram(
    client: &mut ClientRuntime,
    mode: &mut TlsMode,
    output: &mut OutputBuffer,
    now_ms: u64,
    path_id: u32,
    bytes: &[u8],
) -> (outcome: Result<(), String>)
    requires
        old(client).wf(),
        reaches_client(old(mode)@, bytes@) ==> model::datagram_fits(
            old(client)@.core,
            now_ms,
            path_id,
            bytes@,
        ),
    ensures
        final(client).wf(),
        mode_wf(*old(mode)) ==> mode_wf(*final(mode)),
        (*final(mode)) is Server == (*old(mode)) is Server,
        ({
            let turn = client_datagram_turn(
                old(client)@,
                old(mode)@,
                old(output)@,
                now_ms,
                path_id,
                bytes@,
            );
            &&& final(client)@ == turn.client
            &&& final(mode)@ == turn.tls
            &&& final(output)@ == turn.output
            &&& fails_as(outcome, turn.error)
        }),
{
    reveal(client_datagram_turn);
    if let TlsMode::Client(state) = mode {
        if !state.established {
            return client_handshake(client, state, output, now_ms, path_id, bytes);
        }
        if is_dtls_packet(bytes) {
            *output = OutputBuffer::default();
            return Ok(());
        }
    }
    let result = client.on_datagram(now_ms, path_id, bytes);
    take_client_result(result, output)
}

/// That what a handshake is set up with can be handed to OpenSSL.
pub open spec fn mode_wf(mode: TlsMode) -> bool {
    mode matches TlsMode::Client(state) ==> state.wf()
}

fn client_handshake(
    client: &mut ClientRuntime,
    state: &mut ClientTlsState,
    output: &mut OutputBuffer,
    now_ms: u64,
    path_id: u32,
    bytes: &[u8],
) -> (outcome: Result<(), String>)
    requires
        old(client).wf(),
    ensures
        final(client).wf(),
        final(state).cfg == old(state).cfg,
        ({
            let turn = client_handshake_turn(
                old(client)@,
                old(state)@,
                old(output)@,
                path_id,
                bytes@,
            );
            &&& final(client)@ == turn.client
            &&& TlsView::Client(final(state)@) == turn.tls
            &&& final(output)@ == turn.output
            &&& fails_as(outcome, turn.error)
        }),
{
    match state.adapter.on_datagram(bytes) {
        Ok(out) => {
            output.datagrams = path_datagrams(path_id, out.outbound_datagrams);
            output.events = Vec::new();
            let ghost sent = on_path(path_id, out@.outbound_datagrams);
            assert(output@ =~= (BufferView { datagrams: sent, events: Seq::empty() }));
            if out.established {
                state.established = true;
                let line = kind_and_text_line("client_tls", "event", "handshake_established");
                let ghost told = seq![line@];
                output.events.push(line);
                assert(output@ =~= (BufferView { datagrams: sent, events: told }));
                if !state.core_started {
                    state.core_started = true;
                    match client.begin_handshake(now_ms) {
                        Ok(core_out) => {
                            append_started_output(core_out, output);
                        },
                        Err(e) => {
                            return Err(e.message());
                        },
                    }
                }
            }
            Ok(())
        },
        Err(e) => Err(joined_text("tls datagram failed: ", e.message().as_str())),
    }
}

/// What a client does to begin a handshake that it was not set up for.
pub open spec fn client_begin_turn(v: ClientView, t: TlsView, output: BufferView) -> ClientTurn {
    client_called(t, output, client_runtime::client_step(v, model::begin_step(v.core)))
}

/// What a client does to begin its handshake, once its adapter was started or did
/// not start.
pub open spec fn client_tls_begin_turn(
    v: ClientView,
    t: ClientTlsView,
    output: BufferView,
    adapter: OpenSslView,
    started: Result<HandshakeView, CryptoErrorView>,
) -> ClientTurn {
    let tls = TlsView::Client(ClientTlsView { adapter, ..t });
    match started {
        Ok(out) => ClientTurn {
            client: v,
            tls,
            output: BufferView {
                datagrams: on_path(0, out.outbound_datagrams),
                events: seq![
                    events::kind_and_text("client_tls"@, "event"@, "handshake_started"@),
                ],
            },
            error: None,
        },
        Err(e) => ClientTurn {
            client: v,
            tls,
            output,
            error: Some("tls start failed: "@ + e.text()),
        },
    }
}

/// That a client begins its handshake as `turn` says.
pub open spec fn client_begins(
    v: ClientView,
    t: TlsView,
    output: BufferView,
    turn: ClientTurn,
) -> bool {
    if shaking_hands(t) {
        exists|adapter: OpenSslView, started: Result<HandshakeView, CryptoErrorView>|
            #![trigger client_tls_begin_turn(v, t->Client_0, output, adapter, started)]
            tls::client_start(t->Client_0.adapter, t->Client_0.cfg, adapter, started) && turn
                == client_tls_begin_turn(v, t->Client_0, output, adapter, started)
    } else {
        turn == client_begin_turn(v, t, output)
    }
}

/// Begins a client's handshake.
pub(crate) fn client_begin(
    client: &mut ClientRuntime,
    mode: &mut TlsMode,
    output: &mut OutputBuffer,
    now_ms: u64,
) -> (outcome: Result<(), String>)
    requires
        old(client).wf(),
        mode_wf(*old(mode)),
    ensures
        final(client).wf(),
        mode_wf(*final(mode)),
        (*final(mode)) is Server == (*old(mode)) is Server,
        exists|turn: ClientTurn| #[trigger]
            client_begins(old(client)@, old(mode)@, old(output)@, turn) && final(client)@
                == turn.client && final(mode)@ == turn.tls && final(output)@ == turn.output
                && fails_as(outcome, turn.error),
{
    if let TlsMode::Client(state) = mode {
        if !state.established {
            return client_tls_begin(client, state, output);
        }
    }
    let result = client.begin_handshake(now_ms);
    let outcome = take_client_result(result, output);
    proof {
        let turn = client_begin_turn(old(client)@, old(mode)@, old(output)@);
        assert(client_begins(old(client)@, old(mode)@, old(output)@, turn));
    }
    outcome
}

/// How a start came out.
pub open spec fn started_view(started: Result<HandshakeOutput, CryptoError>) -> Result<
    HandshakeView,
    CryptoErrorView,
> {
    match started {
        Ok(out) => Ok(out@),
        Err(e) => Err(e@),
    }
}

fn client_tls_begin(
    client: &mut ClientRuntime,
    state: &mut ClientTlsState,
    output: &mut OutputBuffer,
) -> (outcome: Result<(), String>)
    requires
        old(client).wf(),
        old(state).wf(),
        !old(state).established,
    ensures
        *final(client) == *old(client),
        final(state).cfg == old(state).cfg,
        exists|turn: ClientTurn| #[trigger]
            client_begins(old(client)@, TlsView::Client(old(state)@), old(output)@, turn)
                && old(client)@ == turn.client && TlsView::Client(final(state)@) == turn.tls
                && final(output)@ == turn.output && fails_as(outcome, turn.error),
{
    let prepared = OpenSslDtlsAdapter::build_context(AdapterRole::Client, &state.cfg);
    let ghost ready = prepared;
    let started = state.adapter.start_client(&state.cfg, prepared);
    let ghost began = started_view(started);
    let ghost turn = client_tls_begin_turn(
        old(client)@,
        old(state)@,
        old(output)@,
        state.adapter@,
        began,
    );
    proof {
        if began is Ok {
            let builder = ready->Ok_0;
            assert(openssl_dtls::context_as_asked(builder, AdapterRole::Client, state.cfg@));
            assert(state.adapter@ == openssl_dtls::client_started(
                old(state)@.adapter,
                state.cfg@,
                crate::crypto::openssl_engine::built_context(builder),
                state.adapter@.ssl->0,
            ));
        }
        assert(tls::client_start(old(state)@.adapter, old(state)@.cfg, state.adapter@, began));
        assert(client_begins(
            old(client)@,
            TlsView::Client(old(state)@),
            old(output)@,
            turn,
        ));
    }
    match started {
        Ok(hs) => {
            output.datagrams = path_datagrams(0, hs.outbound_datagrams);
            let line = kind_and_text_line("client_tls", "event", "handshake_started");
            let ghost told = seq![line@];
            let mut lines: Vec<String> = Vec::new();
            lines.push(line);
            output.events = lines;
            assert(output@.events =~= told);
            Ok(())
        },
        Err(e) => Err(joined_text("tls start failed: ", e.message().as_str())),
    }
}

/// The line that tells that a path's handshake is done.
pub open spec fn path_line(path_id: u32) -> Seq<char> {
    json_text::json_text(
        json_text::no_fields().insert("kind"@, FieldView::Text("server_tls"@)).insert(
            "event"@,
            FieldView::Text("handshake_established"@),
        ).insert("path_id"@, FieldView::Number(path_id as u64)),
    )
}

fn path_established_line(path_id: u32) -> (line: String)
    ensures
        line@ == path_line(path_id),
{
    let mut object = object_new();
    object_put_text(&mut object, "kind", "server_tls");
    object_put_text(&mut object, "event", "handshake_established");
    object_put_number(&mut object, "path_id", path_id as u64);
    object_text(object)
}

/// The handshake of a path; a path that had none has a new one with the adapter
/// `opened`.
pub open spec fn path_state(t: ServerTlsView, path_id: u32, opened: OpenSslView) -> PathTlsView {
    if t.sessions_by_path.contains_key(path_id) {
        t.sessions_by_path[path_id]
    } else {
        PathTlsView { adapter: opened, established: false }
    }
}

pub open spec fn with_path(t: ServerTlsView, path_id: u32, session: PathTlsView) -> TlsView {
    TlsView::Server(
        ServerTlsView { sessions_by_path: t.sessions_by_path.insert(path_id, session), ..t },
    )
}

/// Whether a server's datagram gets as far as its runtime: on a path with a
/// handshake only what comes after it and is no part of it does.
pub open spec fn reaches_server(t: TlsView, path_id: u32, bytes: Seq<u8>) -> bool {
    t matches TlsView::Server(s) ==> s.sessions_by_path.contains_key(path_id)
        && s.sessions_by_path[path_id].established && !tls::is_handshake(bytes)
}

/// What a server does about a datagram that does not reach its runtime.
pub open spec fn server_handshake_turn(
    v: ServerView,
    records: Map<u64, EntryView>,
    t: ServerTlsView,
    output: BufferView,
    path_id: u32,
    bytes: Seq<u8>,
    opened: OpenSslView,
) -> ServerTurn {
    let session = path_state(t, path_id, opened);
    if !tls::is_handshake(bytes) {
        ServerTurn {
            server: v,
            records,
            tls: with_path(t, path_id, session),
            output: BufferView::empty(),
            error: None,
        }
    } else {
        let (adapter, result) = openssl_dtls::openssl_datagram(session.adapter, bytes);
        match result {
            Err(e) => ServerTurn {
                server: v,
                records,
                tls: with_path(t, path_id, PathTlsView { adapter, ..session }),
                output,
                error: Some("server tls datagram failed: "@ + e.text()),
            },
            Ok(out) => ServerTurn {
                server: v,
                records,
                tls: with_path(
                    t,
                    path_id,
                    PathTlsView {
                        adapter,
                        established: session.established || out.established,
                    },
                ),
                output: BufferView {
                    datagrams: on_path(path_id, out.outbound_datagrams),
                    events: if out.established {
                        seq![path_line(path_id)]
                    } else {
                        Seq::empty()
                    },
                },
                error: None,
            },
        }
    }
}

/// What a server does about a datagram.
pub open spec fn server_datagram_turn(
    v: ServerView,
    records: Map<u64, EntryView>,
    t: TlsView,
    output: BufferView,
    now_ms: u64,
    path_id: u32,
    bytes: Seq<u8>,
    opened: OpenSslView,
    a: Answers,
) -> ServerTurn {
    if reaches_server(t, path_id, bytes) {
        server_called(
            records,
            t,
            output,
            server_model::datagram_served(v, now_ms, path_id, bytes, a),
        )
    } else {
        server_handshake_turn(v, records, t->Server_0, output, path_id, bytes, opened)
    }
}

/// The configuration with which a server shakes hands.
pub open spec fn server_tls_config(t: ServerTlsView) -> ConfigView {
    tls::server_config(t.server_name, t.cert_path, t.key_path)
}

/// That a server takes a datagram as `turn` says.
#[verifier::opaque]
pub open spec fn server_takes(
    v: ServerView,
    records: Map<u64, EntryView>,
    t: TlsView,
    output: BufferView,
    now_ms: u64,
    path_id: u32,
    bytes: Seq<u8>,
    context: Option<SslContextBuilder>,
    turn: ServerTurn,
) -> bool {
    exists|opened: OpenSslView, a: Answers|
        #![trigger server_datagram_turn(v, records, t, output, now_ms, path_id, bytes, opened, a)]
        (t is Server ==> tls::path_start(server_tls_config(t->Server_0), context, opened)) && (
        reaches_server(t, path_id, bytes) ==> store_journal::all_answered(
            records,
            server_model::datagram_served(v, now_ms, path_id, bytes, a).calls,
        )) && turn == server_datagram_turn(
            v,
            records,
            t,
            output,
            now_ms,
            path_id,
            bytes,
            opened,
            a,
        )
}

/// Hands a datagram to a server. `context` is a context for the handshake of a
/// path that has none yet.
#[verifier::rlimit(40)]
pub(crate) fn server_datagram(
    server: &mut ServerRuntime<InMemorySessionStore>,
    mode: &mut TlsMode,
    output: &mut OutputBuffer,
    now_ms: u64,
    path_id: u32,
    bytes: &[u8],
    context: Option<SslContextBuilder>,
) -> (outcome: Result<(), String>)
    requires
        old(server).wf(),
        server_mode_wf(*old(mode)),
        reaches_server(old(mode)@, path_id, bytes@) ==> server_model::datagram_fits(
            old(server)@,
            now_ms,
            path_id,
            bytes@,
        ),
    ensures
        final(server).wf(),
        server_mode_wf(*final(mode)),
        (*final(mode)) is Client == (*old(mode)) is Client,
        exists|turn: ServerTurn| #[trigger]
            server_takes(
                old(server)@,
                old(server).store.records(),
                old(mode)@,
                old(output)@,
                now_ms,
                path_id,
                bytes@,
                context,
                turn,
            ) && final(server)@ == turn.server && final(server).store.records() == turn.records
                && final(mode)@ == turn.tls && final(output)@ == turn.output && fails_as(
                outcome,
                turn.error,
            ),
{
    if let TlsMode::Server(state) = mode {
        let through = path_is_through(state, path_id);
        if !through || is_dtls_packet(bytes) {
            return server_handshake(server, state, output, now_ms, path_id, bytes, context);
        }
    }
    let outcome = serve_plain(server, output, now_ms, path_id, bytes);
    proof {
        let a = choose|a: Answers|
            #![trigger server_model::datagram_served(old(server)@, now_ms, path_id, bytes@, a)]
            store_journal::all_answered(
                old(server).store.records(),
                server_model::datagram_served(old(server)@, now_ms, path_id, bytes@, a).calls,
            ) && came_of(
                *server,
                *output,
                outcome,
                server_called(
                    old(server).store.records(),
                    TlsView::Disabled,
                    old(output)@,
                    server_model::datagram_served(old(server)@, now_ms, path_id, bytes@, a),
                ),
            );
        lemma_plain_is_taken(
            old(server)@,
            old(server).store.records(),
            old(mode)@,
            old(output)@,
            now_ms,
            path_id,
            bytes@,
            context,
            a,
        );
    }
    outcome
}

/// A datagram that reaches a server's runtime is taken as the runtime serves it.
proof fn lemma_plain_is_taken(
    v: ServerView,
    records: Map<u64, EntryView>,
    t: TlsView,
    output: BufferView,
    now_ms: u64,
    path_id: u32,
    bytes: Seq<u8>,
    context: Option<SslContextBuilder>,
    a: Answers,
)
    requires
        reaches_server(t, path_id, bytes),
        store_journal::all_answered(
            records,
            server_model::datagram_served(v, now_ms, path_id, bytes, a).calls,
        ),
    ensures
        server_takes(
            v,
            records,
            t,
            output,
            now_ms,
            path_id,
            bytes,
            context,
            server_called(
                records,
                t,
                output,
                server_model::datagram_served(v, now_ms, path_id, bytes, a),
            ),
        ),
{
    reveal(server_takes);
    let turn = server_datagram_turn(
        v,
        records,
        t,
        output,
        now_ms,
        path_id,
        bytes,
        tls::idle_adapter(),
        a,
    );
    assert(turn == server_called(
        records,
        t,
        output,
        server_model::datagram_served(v, now_ms, path_id, bytes, a),
    ));
}

/// That a server and its output are left as `turn` says.
pub open spec fn came_of(
    server: ServerRuntime<InMemorySessionStore>,
    output: OutputBuffer,
    outcome: Result<(), String>,
    turn: ServerTurn,
) -> bool {
    &&& server@ == turn.server
    &&& server.store.records() == turn.records
    &&& output@ == turn.output
    &&& fails_as(outcome, turn.error)
}

/// Hands a datagram to a server's runtime.
fn serve_plain(
    server: &mut ServerRuntime<InMemorySessionStore>,
    output: &mut OutputBuffer,
    now_ms: u64,
    path_id: u32,
    bytes: &[u8],
) -> (outcome: Result<(), String>)
    requires
        old(server).wf(),
        server_model::datagram_fits(old(server)@, now_ms, path_id, bytes@),
    ensures
        final(server).wf(),
        exists|a: Answers|
            #![trigger server_model::datagram_served(old(server)@, now_ms, path_id, bytes@, a)]
            store_journal::all_answered(
                old(server).store.records(),
                server_model::datagram_served(old(server)@, now_ms, path_id, bytes@, a).calls,
            ) && came_of(
                *final(server),
                *final(output),
                outcome,
                server_called(
                    old(server).store.records(),
                    TlsView::Disabled,
                    old(output)@,
                    server_model::datagram_served(old(server)@, now_ms, path_id, bytes@, a),
                ),
            ),
{
    let result = server.on_datagram(now_ms, path_id, bytes);
    let outcome = take_server_result(result, output);
    proof {
        let a = choose|a: Answers|
            runtime::is_served(
                *old(server),
                *server,
                result,
                #[trigger] server_model::datagram_served(
                    old(server)@,
                    now_ms,
                    path_id,
                    bytes@,
                    a,
                ),
            );
        lemma_served_comes_of(
            *old(server),
            *server,
            result,
            old(output)@,
            *output,
            outcome,
            server_model::datagram_served(old(server)@, now_ms, path_id, bytes@, a),
        );
    }
    outcome
}

/// A call on a server's runtime and taking its result come to [`server_called`].
proof fn lemma_served_comes_of(
    before: ServerRuntime<InMemorySessionStore>,
    after: ServerRuntime<InMemorySessionStore>,
    result: Result<ServerRuntimeOutput, ServerRuntimeError>,
    waited: BufferView,
    output: OutputBuffer,
    outcome: Result<(), String>,
    served: Served,
)
    requires
        before.wf(),
        after.wf(),
        runtime::is_served(before, after, result, served),
        match result {
            Ok(out) => outcome is Ok && output@ == events::server_buffer(out@),
            Err(e) => outcome is Err && outcome->Err_0@ == e@.text() && output@ == waited,
        },
    ensures
        came_of(
            after,
            output,
            outcome,
            server_called(before.store.records(), TlsView::Disabled, waited, served),
        ),
        store_journal::all_answered(before.store.records(), served.calls),
{
    memory::law_store_answers_from_its_records(before.store, after.store, served.calls);
}

/// That a server's handshakes are set up with what a configuration needs.
pub open spec fn server_mode_wf(mode: TlsMode) -> bool {
    mode matches TlsMode::Server(state) ==> tls::server_refusal(
        state.server_name@,
        state.cert_path@,
        state.key_path@,
        true,
        true,
    ) is None
}

pub(crate) fn path_is_through(state: &ServerTlsState, path_id: u32) -> (through: bool)
    ensures
        through == (state@.sessions_by_path.contains_key(path_id)
            && state@.sessions_by_path[path_id].established),
{
    match state.sessions_by_path.get(&path_id) {
        Some(session) => {
            assert(state@.sessions_by_path[path_id] == session@);
            session.established
        },
        None => false,
    }
}

fn server_handshake(
    server: &ServerRuntime<InMemorySessionStore>,
    state: &mut ServerTlsState,
    output: &mut OutputBuffer,
    now_ms: u64,
    path_id: u32,
    bytes: &[u8],
    context: Option<SslContextBuilder>,
) -> (outcome: Result<(), String>)
    requires
        server_mode_wf(TlsMode::Server(*old(state))),
        !reaches_server(TlsView::Server(old(state)@), path_id, bytes@),
    ensures
        server_mode_wf(TlsMode::Server(*final(state))),
        exists|turn: ServerTurn| #[trigger]
            server_takes(
                server@,
                server.store.records(),
                TlsView::Server(old(state)@),
                old(output)@,
                now_ms,
                path_id,
                bytes@,
                context,
                turn,
            ) && server@ == turn.server && server.store.records() == turn.records
                && TlsView::Server(final(state)@) == turn.tls && final(output)@ == turn.output
                && fails_as(outcome, turn.error),
{
    reveal(server_takes);
    let ghost before = state@;
    let mut session = match state.sessions_by_path.remove(&path_id) {
        Some(session) => session,
        None => new_path(state, context),
    };
    let ghost opened = if before.sessions_by_path.contains_key(path_id) {
        tls::idle_adapter()
    } else {
        session@.adapter
    };
    assert(session@ =~= path_state(before, path_id, opened));
    let ghost turn = server_datagram_turn(
        server@,
        server.store.records(),
        TlsView::Server(before),
        old(output)@,
        now_ms,
        path_id,
        bytes@,
        opened,
        runtime::no_answers(),
    );
    assert(server_takes(
        server@,
        server.store.records(),
        TlsView::Server(before),
        old(output)@,
        now_ms,
        path_id,
        bytes@,
        context,
        turn,
    ));
    let outcome = if !is_dtls_packet(bytes) {
        *output = OutputBuffer::default();
        Ok(())
    } else {
        match session.adapter.on_datagram(bytes) {
            Ok(out) => {
                output.datagrams = path_datagrams(path_id, out.outbound_datagrams);
                output.events = Vec::new();
                if out.established {
                    session.established = true;
                    output.events.push(path_established_line(path_id));
                }
                assert(output@.events =~= turn.output.events);
                Ok(())
            },
            Err(e) => Err(joined_text("server tls datagram failed: ", e.message().as_str())),
        }
    };
    let ghost after = session@;
    state.sessions_by_path.insert(path_id, session);
    assert(state@.sessions_by_path =~= before.sessions_by_path.insert(path_id, after));
    outcome
}

fn new_path(state: &ServerTlsState, context: Option<SslContextBuilder>) -> (session:
    ServerPathTlsState)
    requires
        server_mode_wf(TlsMode::Server(*state)),
    ensures
        tls::path_start(server_tls_config(state@), context, session@.adapter),
        !session@.established,
{
    match build_server_tls_cfg(
        state.server_name.as_str(),
        state.cert_path.as_str(),
        state.key_path.as_str(),
        true,
        true,
    ) {
        Ok(cfg) => open_path(&cfg, context),
        Err(_) => {
            assert(false);
            ServerPathTlsState { adapter: OpenSslDtlsAdapter::new(), established: false }
        },
    }
}

/// On a path whose handshake is not done, nothing gets to a server's sessions.
pub proof fn law_handshake_comes_first(
    v: ServerView,
    records: Map<u64, EntryView>,
    t: ServerTlsView,
    output: BufferView,
    now_ms: u64,
    path_id: u32,
    bytes: Seq<u8>,
    opened: OpenSslView,
    a: Answers,
)
    requires
        !path_state(t, path_id, opened).established,
    ensures
        ({
            let turn = server_datagram_turn(
                v,
                records,
                TlsView::Server(t),
                output,
                now_ms,
                path_id,
                bytes,
                opened,
                a,
            );
            &&& turn.server == v
            &&& turn.records == records
        }),
{
}

/// The handshakes of a server's paths are apart.
pub proof fn law_paths_are_apart(
    v: ServerView,
    records: Map<u64, EntryView>,
    t: ServerTlsView,
    output: BufferView,
    now_ms: u64,
    path_id: u32,
    bytes: Seq<u8>,
    opened: OpenSslView,
    a: Answers,
    other: u32,
)
    requires
        other != path_id,
    ensures
        ({
            let after = server_datagram_turn(
                v,
                records,
                TlsView::Server(t),
                output,
                now_ms,
                path_id,
                bytes,
                opened,
                a,
            ).tls;
            &&& after is Server
            &&& after->Server_0.sessions_by_path.contains_key(other)
                == t.sessions_by_path.contains_key(other)
            &&& t.sessions_by_path.contains_key(other)
                ==> after->Server_0.sessions_by_path[other] == t.sessions_by_path[other]
        }),
{
}

/// Before a client's handshake is done its machine does nothing.
pub proof fn law_client_waits_for_the_handshake(
    v: ClientView,
    t: ClientTlsView,
    output: BufferView,
    now_ms: u64,
    path_id: u32,
    bytes: Seq<u8>,
)
    requires
        !t.established,
        openssl_dtls::openssl_datagram(t.adapter, bytes).1 matches Ok(out) ==> !out.established,
    ensures
        client_datagram_turn(v, TlsView::Client(t), output, now_ms, path_id, bytes).client == v,
{
    reveal(client_datagram_turn);
}

} // verus!
