//! The calls on engines by number.

use openssl::ssl::SslContextBuilder;
use vstd::prelude::*;

use crate::client_runtime;
use crate::client_runtime::ClientOutputView;
use crate::crypto::openssl_dtls::OpenSslView;
use crate::ffi::engine;
use crate::ffi::engine::{
    client_begin, client_datagram, server_datagram, take_client_result, take_server_result,
    ClientTurn, ServerTurn,
};
use crate::ffi::events;
use crate::ffi::events::{
    normalize_client_output, normalize_server_output, BufferView, OutputBuffer,
};
use crate::ffi::registry;
use crate::ffi::registry::{EngineKind, EngineView, HandleView, Registry};
use crate::ffi::tls;
use crate::ffi::tls::TlsView;
use crate::server_runtime::laws as server_laws;
use crate::server_runtime::model as server_model;
use crate::server_runtime::model::Answers;
use crate::server_runtime::runtime;
use crate::server_runtime::types::ServerOutputView;
use crate::session::codec;
use crate::session::model;
use crate::store::entries;
use crate::store::journal as store_journal;
use crate::store::memory;
use crate::timers;
use crate::wire::MessageType;

verus! {

broadcast use vstd::std_specs::hash::group_hash_axioms;

/// That a call that begins a handshake leaves an engine as `after` and gives `code`.
pub open spec fn begins(h: HandleView, after: HandleView, code: i32) -> bool {
    match h.kind {
        EngineView::Client(v) => exists|turn: ClientTurn| #[trigger]
            engine::client_begins(v, h.tls, h.output, turn) && after == registry::client_settled(h, turn)
                && code == registry::code_for(turn.error),
        EngineView::Server(_, _) => after == h && code == 0,
    }
}

pub fn v3_ffi_begin_handshake(reg: &mut Registry, handle_id: u64, now_ms: u64) -> (code: i32)
    requires
        old(reg).wf(),
    ensures
        final(reg).wf(),
        if old(reg)@.handles.contains_key(handle_id) {
            exists|after: HandleView| #[trigger]
                begins(old(reg)@.handles[handle_id], after, code) && final(reg)@ == old(reg)@.with(handle_id, after)
        } else {
            code == -1 && final(reg)@ == old(reg)@
        },
{
    let mut handle = match reg.take(handle_id) {
        Some(handle) => handle,
        None => {
            return -1;
        },
    };
    let ghost before = handle@;
    let outcome = match &mut handle.kind {
        EngineKind::Client(client) => client_begin(
            client,
            &mut handle.tls,
            &mut handle.output,
            now_ms,
        ),
        EngineKind::Server(_) => Ok(()),
    };
    let ghost middle = handle@;
    let code = handle.conclude(outcome);
    proof {
        if let EngineView::Client(v) = before.kind {
            let turn = choose|turn: ClientTurn| #[trigger]
                engine::client_begins(v, before.tls, before.output, turn) && middle.kind
                    == EngineView::Client(turn.client) && middle.tls == turn.tls && middle.output
                    == turn.output && engine::fails_as(outcome, turn.error);
            assert(handle@ =~= registry::client_settled(before, turn));
        }
        assert(begins(before, handle@, code));
    }
    let ghost after = handle@;
    reg.put(handle_id, handle);
    assert(reg@ =~= old(reg)@.with(handle_id, after));
    code
}

/// That a datagram leaves an engine as `after` and gives `code`. `context` is a
/// context for the handshake of a server's path that has none yet.
pub open spec fn takes(
    h: HandleView,
    now_ms: u64,
    path_id: u32,
    bytes: Seq<u8>,
    context: Option<SslContextBuilder>,
    after: HandleView,
    code: i32,
) -> bool {
    match h.kind {
        EngineView::Client(v) => {
            let turn = engine::client_datagram_turn(v, h.tls, h.output, now_ms, path_id, bytes);
            &&& after == registry::client_settled(h, turn)
            &&& code == registry::code_for(turn.error)
        },
        EngineView::Server(v, records) => exists|turn: ServerTurn| #[trigger]
            engine::server_takes(
                v,
                records,
                h.tls,
                h.output,
                now_ms,
                path_id,
                bytes,
                context,
                turn,
            ) && after == registry::server_settled(h, turn) && code == registry::code_for(
                turn.error,
            ),
    }
}

/// That an engine can take a datagram in.
pub open spec fn datagram_fits(h: HandleView, now_ms: u64, path_id: u32, bytes: Seq<u8>) -> bool {
    match h.kind {
        EngineView::Client(v) => engine::reaches_client(h.tls, bytes) ==> model::datagram_fits(
            v.core,
            now_ms,
            path_id,
            bytes,
        ),
        EngineView::Server(v, _) => engine::reaches_server(h.tls, path_id, bytes)
            ==> server_model::datagram_fits(v, now_ms, path_id, bytes),
    }
}

pub fn v3_ffi_on_datagram(
    reg: &mut Registry,
    handle_id: u64,
    now_ms: u64,
    path_id: u32,
    bytes: &[u8],
    context: Option<SslContextBuilder>,
) -> (code: i32)
    requires
        old(reg).wf(),
        old(reg)@.handles.contains_key(handle_id) ==> datagram_fits(
            old(reg)@.handles[handle_id],
            now_ms,
            path_id,
            bytes@,
        ),
    ensures
        final(reg).wf(),
        if old(reg)@.handles.contains_key(handle_id) {
            exists|after: HandleView| #[trigger]
                takes(
                    old(reg)@.handles[handle_id],
                    now_ms,
                    path_id,
                    bytes@,
                    context,
                    after,
                    code,
                ) && final(reg)@ == old(reg)@.with(handle_id, after)
        } else {
            code == -1 && final(reg)@ == old(reg)@
        },
{
    let mut handle = match reg.take(handle_id) {
        Some(handle) => handle,
        None => {
            return -1;
        },
    };
    let ghost before = handle@;
    let outcome = match &mut handle.kind {
        EngineKind::Client(client) => client_datagram(
            client,
            &mut handle.tls,
            &mut handle.output,
            now_ms,
            path_id,
            bytes,
        ),
        EngineKind::Server(server) => server_datagram(
            server,
            &mut handle.tls,
            &mut handle.output,
            now_ms,
            path_id,
            bytes,
            context,
        ),
    };
    let ghost middle = handle@;
    let code = handle.conclude(outcome);
    proof {
        match before.kind {
            EngineView::Client(v) => {
                let turn = engine::client_datagram_turn(
                    v,
                    before.tls,
                    before.output,
                    now_ms,
                    path_id,
                    bytes@,
                );
                assert(handle@ =~= registry::client_settled(before, turn));
            },
            EngineView::Server(v, records) => {
                let turn = choose|turn: ServerTurn| #[trigger]
                    engine::server_takes(
                        v,
                        records,
                        before.tls,
                        before.output,
                        now_ms,
                        path_id,
                        bytes@,
                        context,
                        turn,
                    ) && middle.kind == EngineView::Server(turn.server, turn.records) && middle.tls
                        == turn.tls && middle.output == turn.output && engine::fails_as(
                        outcome,
                        turn.error,
                    );
                assert(handle@ =~= registry::server_settled(before, turn));
            },
        }
        assert(takes(before, now_ms, path_id, bytes@, context, handle@, code));
    }
    let ghost after = handle@;
    reg.put(handle_id, handle);
    assert(reg@ =~= old(reg)@.with(handle_id, after));
    code
}

/// A server without handshakes answers the hello of a connection that it does not
/// know: the call succeeds, the answer waits alone on the hello's path, and the
/// last error stays as it was.
pub proof fn law_server_answers_hello(
    h: HandleView,
    now_ms: u64,
    path_id: u32,
    bytes: Seq<u8>,
    context: Option<SslContextBuilder>,
    after: HandleView,
    code: i32,
    cid: u64,
)
    requires
        h.kind is Server,
        h.tls == TlsView::Disabled,
        server_laws::is_hello(bytes, cid),
        !h.kind->Server_0.sessions.contains_key(cid),
        entries::live(h.kind->Server_1, cid, now_ms) is None,
        server_model::clock_fits(h.kind->Server_0.cfg, now_ms, MessageType::ClientHello),
        takes(h, now_ms, path_id, bytes, context, after, code),
    ensures
        code == 0,
        after.last_error == h.last_error,
        after.tls == TlsView::Disabled,
        after.output.datagrams == seq![
            (
                path_id,
                codec::core_frame_bytes(
                    MessageType::ServerHello,
                    cid,
                    Seq::empty(),
                    Seq::empty(),
                ),
            ),
        ],
        after.output.events == seq![
            events::kind_cid_and_text("server_core"@, cid, "event"@, "HandshakeEstablished"@),
        ],
        after.kind is Server,
        after.kind->Server_0.cfg == h.kind->Server_0.cfg,
        server_laws::is_greeted(after.kind->Server_0, cid),
        after.kind->Server_1 == h.kind->Server_1.insert(
            cid,
            server_laws::first_entry(h.kind->Server_0.cfg, cid, path_id, now_ms),
        ),
{
    reveal(engine::server_takes);
    let v = h.kind->Server_0;
    let records = h.kind->Server_1;
    let (opened, a) = choose|opened: OpenSslView, a: Answers|
        #![trigger engine::server_datagram_turn(v, records, h.tls, h.output, now_ms, path_id, bytes, opened, a)]
        {
            let turn = engine::server_datagram_turn(
                v,
                records,
                h.tls,
                h.output,
                now_ms,
                path_id,
                bytes,
                opened,
                a,
            );
            &&& store_journal::all_answered(
                records,
                server_model::datagram_served(v, now_ms, path_id, bytes, a).calls,
            )
            &&& after == registry::server_settled(h, turn)
            &&& code == registry::code_for(turn.error)
        };
    server_laws::law_hello_opens_a_session(v, records, now_ms, path_id, bytes, cid, a);
    let out = server_laws::hello_answer(cid, path_id);
    assert(events::pairs(out.outbound_datagrams) =~= seq![
        (path_id, out.outbound_datagrams[0].bytes),
    ]);
    assert(events::server_lines(out.events) =~= seq![events::server_line(out.events[0])]);
}

/// The same hello again is taken quietly: the call succeeds, nothing waits any
/// more, and the last error stays as it was.
pub proof fn law_server_takes_hello_once(
    h: HandleView,
    now_ms: u64,
    path_id: u32,
    bytes: Seq<u8>,
    context: Option<SslContextBuilder>,
    after: HandleView,
    code: i32,
    cid: u64,
)
    requires
        h.kind is Server,
        h.tls == TlsView::Disabled,
        server_laws::is_hello(bytes, cid),
        server_laws::is_greeted(h.kind->Server_0, cid),
        takes(h, now_ms, path_id, bytes, context, after, code),
    ensures
        code == 0,
        after.last_error == h.last_error,
        after.tls == TlsView::Disabled,
        after.output == BufferView::empty(),
        after.kind is Server,
        server_laws::is_greeted(after.kind->Server_0, cid),
{
    reveal(engine::server_takes);
    let v = h.kind->Server_0;
    let records = h.kind->Server_1;
    let (opened, a) = choose|opened: OpenSslView, a: Answers|
        #![trigger engine::server_datagram_turn(v, records, h.tls, h.output, now_ms, path_id, bytes, opened, a)]
        {
            let turn = engine::server_datagram_turn(
                v,
                records,
                h.tls,
                h.output,
                now_ms,
                path_id,
                bytes,
                opened,
                a,
            );
            &&& store_journal::all_answered(
                records,
                server_model::datagram_served(v, now_ms, path_id, bytes, a).calls,
            )
            &&& after == registry::server_settled(h, turn)
            &&& code == registry::code_for(turn.error)
        };
    server_laws::law_repeated_hello_is_quiet(v, records, now_ms, path_id, bytes, cid, a);
    assert(events::server_buffer(ServerOutputView::empty()) =~= BufferView::empty());
}

/// That a client has a number left for a message.
pub open spec fn client_can_send(h: HandleView) -> bool {
    h.kind matches EngineView::Client(v) ==> v.core.next_outbound_id < u64::MAX
}

/// A message that a client sends; a server does not send without a session.
pub open spec fn send_message_after(h: HandleView, payload: Seq<u8>) -> (HandleView, int) {
    match h.kind {
        EngineView::Client(v) => {
            let turn = engine::client_called(
                h.tls,
                h.output,
                client_runtime::client_step(v, model::send_step(v.core, payload)),
            );
            (registry::client_settled(h, turn), registry::code_for(turn.error))
        },
        EngineView::Server(_, _) => (h, -1),
    }
}

pub fn v3_ffi_send_message(reg: &mut Registry, handle_id: u64, bytes: &[u8]) -> (code: i32)
    requires
        old(reg).wf(),
        old(reg)@.handles.contains_key(handle_id) ==> client_can_send(
            old(reg)@.handles[handle_id],
        ),
    ensures
        final(reg).wf(),
        if old(reg)@.handles.contains_key(handle_id) {
            let expected = send_message_after(old(reg)@.handles[handle_id], bytes@);
            final(reg)@ == old(reg)@.with(handle_id, expected.0) && code == expected.1
        } else {
            code == -1 && final(reg)@ == old(reg)@
        },
{
    let mut handle = match reg.take(handle_id) {
        Some(handle) => handle,
        None => {
            return -1;
        },
    };
    let ghost before = handle@;
    let code = match &mut handle.kind {
        EngineKind::Client(client) => {
            let result = client.send_message(vstd::slice::slice_to_vec(bytes));
            let outcome = take_client_result(result, &mut handle.output);
            handle.conclude(outcome)
        },
        EngineKind::Server(_) => -1,
    };
    let ghost after = handle@;
    assert(after =~= send_message_after(before, bytes@).0);
    reg.put(handle_id, handle);
    assert(reg@ =~= old(reg)@.with(handle_id, after));
    code
}

/// The end of a client's session; a server has none of its own to end.
pub open spec fn close_session_after(h: HandleView) -> (HandleView, int) {
    match h.kind {
        EngineView::Client(v) => {
            let turn = engine::client_called(
                h.tls,
                h.output,
                client_runtime::client_step(v, model::close_step(v.core)),
            );
            (registry::client_settled(h, turn), registry::code_for(turn.error))
        },
        EngineView::Server(_, _) => (h, -1),
    }
}

pub fn v3_ffi_close_session(reg: &mut Registry, handle_id: u64) -> (code: i32)
    requires
        old(reg).wf(),
    ensures
        final(reg).wf(),
        if old(reg)@.handles.contains_key(handle_id) {
            let expected = close_session_after(old(reg)@.handles[handle_id]);
            final(reg)@ == old(reg)@.with(handle_id, expected.0) && code == expected.1
        } else {
            code == -1 && final(reg)@ == old(reg)@
        },
{
    let mut handle = match reg.take(handle_id) {
        Some(handle) => handle,
        None => {
            return -1;
        },
    };
    let ghost before = handle@;
    let code = match &mut handle.kind {
        EngineKind::Client(client) => {
            let result = client.close_session();
            let outcome = take_client_result(result, &mut handle.output);
            handle.conclude(outcome)
        },
        EngineKind::Server(_) => -1,
    };
    let ghost after = handle@;
    assert(after =~= close_session_after(before).0);
    reg.put(handle_id, handle);
    assert(reg@ =~= old(reg)@.with(handle_id, after));
    code
}

/// That a message a server sends leaves an engine as `after` and gives `code`.
pub open spec fn server_sends(
    h: HandleView,
    cid: u64,
    payload: Seq<u8>,
    now_ms: u64,
    after: HandleView,
    code: i32,
) -> bool {
    match h.kind {
        EngineView::Client(_) => after == h && code == -1,
        EngineView::Server(v, records) => exists|a: Answers|
            #![trigger server_model::message_served(v, cid, payload, now_ms, a)]
            {
                let turn = engine::server_called(
                    records,
                    h.tls,
                    h.output,
                    server_model::message_served(v, cid, payload, now_ms, a),
                );
                &&& store_journal::all_answered(
                    records,
                    server_model::message_served(v, cid, payload, now_ms, a).calls,
                )
                &&& after == registry::server_settled(h, turn)
                &&& code == registry::code_for(turn.error)
            },
    }
}

/// That a session of a server, if it is there, has a number left for a message.
pub open spec fn server_can_send(h: HandleView, cid: u64) -> bool {
    h.kind matches EngineView::Server(v, _) ==> v.sessions.contains_key(cid)
        ==> v.sessions[cid].core.next_outbound_id < u64::MAX
}

pub fn v3_ffi_server_send_message(
    reg: &mut Registry,
    handle_id: u64,
    cid: u64,
    bytes: &[u8],
    now_ms: u64,
) -> (code: i32)
    requires
        old(reg).wf(),
        old(reg)@.handles.contains_key(handle_id) ==> server_can_send(
            old(reg)@.handles[handle_id],
            cid,
        ),
    ensures
        final(reg).wf(),
        if old(reg)@.handles.contains_key(handle_id) {
            exists|after: HandleView| #[trigger]
                server_sends(
                    old(reg)@.handles[handle_id],
                    cid,
                    bytes@,
                    now_ms,
                    after,
                    code,
                ) && final(reg)@ == old(reg)@.with(handle_id, after)
        } else {
            code == -1 && final(reg)@ == old(reg)@
        },
{
    let mut handle = match reg.take(handle_id) {
        Some(handle) => handle,
        None => {
            return -1;
        },
    };
    let ghost before = handle@;
    let code = match &mut handle.kind {
        EngineKind::Client(_) => -1,
        EngineKind::Server(server) => {
            let ghost start = *server;
            let payload = vstd::slice::slice_to_vec(bytes);
            let result = server.send_message(cid, payload, now_ms);
            let ghost end = *server;
            let outcome = take_server_result(result, &mut handle.output);
            let code = handle.conclude(outcome);
            proof {
                let a = choose|a: Answers|
                    runtime::is_served(
                        start,
                        end,
                        result,
                        #[trigger] server_model::message_served(
                            start@,
                            cid,
                            bytes@,
                            now_ms,
                            a,
                        ),
                    );
                let served = server_model::message_served(start@, cid, bytes@, now_ms, a);
                memory::law_store_answers_from_its_records(start.store, end.store, served.calls);
                let turn = engine::server_called(
                    start.store.records(),
                    before.tls,
                    before.output,
                    served,
                );
                assert(handle@ =~= registry::server_settled(before, turn));
            }
            code
        },
    };
    let ghost after = handle@;
    assert(server_sends(before, cid, bytes@, now_ms, after, code));
    reg.put(handle_id, handle);
    assert(reg@ =~= old(reg)@.with(handle_id, after));
    code
}

/// That polling leaves an engine as `after` and gives `code`.
pub open spec fn polls(h: HandleView, now_ms: u64, limit: nat, after: HandleView, code: i32) -> bool {
    match h.kind {
        EngineView::Client(v) => {
            let turn = engine::client_called(
                h.tls,
                h.output,
                client_runtime::client_polled(
                    v,
                    now_ms,
                    timers::due_at(v.timers, now_ms, limit),
                    ClientOutputView::empty(),
                ),
            );
            after == registry::client_settled(h, turn) && code == registry::code_for(turn.error)
        },
        EngineView::Server(v, records) => exists|answers: Seq<Answers>|
            #![trigger server_model::polled(v, now_ms, timers::due_at(v.timers, now_ms, limit), answers)]
            {
                let turn = engine::server_called(
                    records,
                    h.tls,
                    h.output,
                    server_model::polled(
                        v,
                        now_ms,
                        timers::due_at(v.timers, now_ms, limit),
                        answers,
                    ),
                );
                &&& store_journal::all_answered(
                    records,
                    server_model::polled(
                        v,
                        now_ms,
                        timers::due_at(v.timers, now_ms, limit),
                        answers,
                    ).calls,
                )
                &&& after == registry::server_settled(h, turn)
                &&& code == registry::code_for(turn.error)
            },
    }
}

/// That an engine can take all due timers in.
pub open spec fn poll_fits(h: HandleView, now_ms: u64, limit: nat) -> bool {
    match h.kind {
        EngineView::Client(v) => client_runtime::poll_fits(
            v,
            now_ms,
            timers::due_at(v.timers, now_ms, limit),
        ),
        EngineView::Server(v, _) => server_model::poll_fits(
            server_model::cores(v),
            now_ms,
            timers::due_at(v.timers, now_ms, limit),
        ),
    }
}

pub fn v3_ffi_poll_timers(reg: &mut Registry, handle_id: u64, now_ms: u64, limit: usize) -> (code:
    i32)
    requires
        old(reg).wf(),
        old(reg)@.handles.contains_key(handle_id) ==> poll_fits(
            old(reg)@.handles[handle_id],
            now_ms,
            limit as nat,
        ),
    ensures
        final(reg).wf(),
        if old(reg)@.handles.contains_key(handle_id) {
            exists|after: HandleView| #[trigger]
                polls(old(reg)@.handles[handle_id], now_ms, limit as nat, after, code) && final(reg)@ == old(reg)@.with(handle_id, after)
        } else {
            code == -1 && final(reg)@ == old(reg)@
        },
{
    let mut handle = match reg.take(handle_id) {
        Some(handle) => handle,
        None => {
            return -1;
        },
    };
    let ghost before = handle@;
    let code = match &mut handle.kind {
        EngineKind::Client(client) => {
            let result = client.poll_timers(now_ms, limit);
            let outcome = take_client_result(result, &mut handle.output);
            let code = handle.conclude(outcome);
            proof {
                let v = before.kind->Client_0;
                let turn = engine::client_called(
                    before.tls,
                    before.output,
                    client_runtime::client_polled(
                        v,
                        now_ms,
                        timers::due_at(v.timers, now_ms, limit as nat),
                        ClientOutputView::empty(),
                    ),
                );
                assert(handle@ =~= registry::client_settled(before, turn));
            }
            code
        },
        EngineKind::Server(server) => {
            let ghost start = *server;
            let result = server.poll_timers(now_ms, limit);
            let ghost end = *server;
            let outcome = take_server_result(result, &mut handle.output);
            let code = handle.conclude(outcome);
            proof {
                let due = timers::due_at(start@.timers, now_ms, limit as nat);
                let answers = choose|answers: Seq<Answers>|
                    runtime::is_served(
                        start,
                        end,
                        result,
                        #[trigger] server_model::polled(start@, now_ms, due, answers),
                    );
                let served = server_model::polled(start@, now_ms, due, answers);
                memory::law_store_answers_from_its_records(start.store, end.store, served.calls);
                let turn = engine::server_called(
                    start.store.records(),
                    before.tls,
                    before.output,
                    served,
                );
                assert(handle@ =~= registry::server_settled(before, turn));
            }
            code
        },
    };
    let ghost after = handle@;
    assert(polls(before, now_ms, limit as nat, after, code));
    reg.put(handle_id, handle);
    assert(reg@ =~= old(reg)@.with(handle_id, after));
    code
}

/// The NAT/TURN engine is disabled: what waited is dropped.
pub fn v3_ffi_poll_nat(reg: &mut Registry, handle_id: u64, now_ms: u64) -> (code: i32)
    requires
        old(reg).wf(),
    ensures
        final(reg).wf(),
        if old(reg)@.handles.contains_key(handle_id) {
            code == 0 && final(reg)@ == old(reg)@.with(
                handle_id,
                HandleView { output: BufferView::empty(), ..old(reg)@.handles[handle_id] },
            )
        } else {
            code == -1 && final(reg)@ == old(reg)@
        },
{
    let mut handle = match reg.take(handle_id) {
        Some(handle) => handle,
        None => {
            return -1;
        },
    };
    let ghost before = handle@;
    match &mut handle.kind {
        EngineKind::Client(client) => {
            let out = client.on_nat_tick(now_ms);
            normalize_client_output(out, &mut handle.output);
        },
        EngineKind::Server(server) => {
            let out = server.on_nat_tick(now_ms);
            normalize_server_output(out, &mut handle.output);
        },
    }
    let ghost after = handle@;
    assert(after.output =~= BufferView::empty());
    assert(after =~= (HandleView { output: BufferView::empty(), ..before }));
    reg.put(handle_id, handle);
    assert(reg@ =~= old(reg)@.with(handle_id, after));
    0
}

/// Drops what waits to be fetched from an engine.
pub fn v3_ffi_clear_output(reg: &mut Registry, handle_id: u64)
    requires
        old(reg).wf(),
    ensures
        final(reg).wf(),
        final(reg)@ == if old(reg)@.handles.contains_key(handle_id) {
            old(reg)@.with(
                handle_id,
                HandleView { output: BufferView::empty(), ..old(reg)@.handles[handle_id] },
            )
        } else {
            old(reg)@
        },
{
    let mut handle = match reg.take(handle_id) {
        Some(handle) => handle,
        None => {
            return ;
        },
    };
    handle.output = OutputBuffer::default();
    let ghost after = handle@;
    reg.put(handle_id, handle);
    assert(reg@ =~= old(reg)@.with(handle_id, after));
}

} // verus!
