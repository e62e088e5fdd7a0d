//! What holds of engines behind numbers: what they put out can be fetched whole, and how
//! a call came out is told.

use vstd::prelude::*;

use crate::base64_text;
use crate::client_laws;
use crate::client_runtime;
use crate::client_runtime::{ClientEventView, ClientOutputView, ClientRuntimeError, ClientView};
use crate::crypto::dtls;
use crate::crypto::openssl_dtls;
use crate::crypto::types::{AuthProfile, CryptoErrorView, DtlsVersion, HandshakeView};
use crate::ffi::calls;
use crate::ffi::configure;
use crate::ffi::configure::{NatArguments, ServerTlsArguments};
use crate::ffi::engine;
use crate::ffi::engine::ClientTurn;
use crate::ffi::events;
use crate::ffi::events::BufferView;
use crate::ffi::fetch;
use crate::ffi::json_text;
use crate::ffi::json_text::FieldView;
use crate::ffi::packet_log;
use crate::ffi::packet_log::SeenView;
use crate::ffi::registry;
use crate::ffi::registry::{EngineView, HandleView, RegistryView};
use crate::ffi::tls;
use crate::ffi::tls::{ClientTlsView, TlsView};
use crate::server_runtime::model as server_model;
use crate::server_runtime::model::{Answers, Served, ServerView};
use crate::server_runtime::routing;
use crate::server_runtime::types::{RuntimeEventView, ServerOutputView};
use crate::session::model;
use crate::session::types::{EventView, LifecycleState, TimerId};
use crate::store::journal as store_journal;
use crate::store::types::{EntryView, StoreCall};
use crate::text;
use crate::timers;
use crate::traversal::RelayPolicy;

verus! {

/// All datagrams that a runtime puts out wait to be fetched, in order, with their paths,
/// and a line waits for each event.
pub proof fn law_output_waits_whole(client: ClientOutputView, server: ServerOutputView)
    ensures
        ({
            let buffer = events::client_buffer(client);
            &&& buffer.datagrams.len() == client.outbound_datagrams.len()
            &&& buffer.events.len() == client.events.len()
            &&& forall|k: int|
                #![trigger buffer.datagrams[k]]
                0 <= k < buffer.datagrams.len() ==> buffer.datagrams[k].0
                    == client.outbound_datagrams[k].path_id && buffer.datagrams[k].1
                    == client.outbound_datagrams[k].bytes
            &&& forall|k: int|
                #![trigger buffer.events[k]]
                0 <= k < buffer.events.len() ==> buffer.events[k] == events::client_line(
                    client.events[k],
                )
        }),
        ({
            let buffer = events::server_buffer(server);
            &&& buffer.datagrams.len() == server.outbound_datagrams.len()
            &&& buffer.events.len() == server.events.len()
            &&& forall|k: int|
                #![trigger buffer.datagrams[k]]
                0 <= k < buffer.datagrams.len() ==> buffer.datagrams[k].0
                    == server.outbound_datagrams[k].path_id && buffer.datagrams[k].1
                    == server.outbound_datagrams[k].bytes
            &&& forall|k: int|
                #![trigger buffer.events[k]]
                0 <= k < buffer.events.len() ==> buffer.events[k] == events::server_line(
                    server.events[k],
                )
        }),
{
}

/// The line for a message that came in tells its number and its content, and on a server
/// its session.
pub proof fn law_delivery_line_holds_the_message(msg_id: u64, payload: Seq<u8>, cid: u64)
    ensures
        events::client_line(ClientEventView::Core(EventView::MessageReceived { msg_id, payload }))
            == json_text::json_text(
            map![
                "kind"@ => FieldView::Text("client_deliver"@),
                "msg_id"@ => FieldView::Number(msg_id),
                "payload_b64"@ => FieldView::Text(base64_text::base64_of(payload)),
            ],
        ),
        events::server_line(
            RuntimeEventView::MessageReceived {
                cid,
                msg_id,
                payload_b64: base64_text::base64_of(payload),
            },
        ) == json_text::json_text(
            map![
                "kind"@ => FieldView::Text("server_deliver"@),
                "cid"@ => FieldView::Number(cid),
                "msg_id"@ => FieldView::Number(msg_id),
                "payload_b64"@ => FieldView::Text(base64_text::base64_of(payload)),
            ],
        ),
{
}

/// A call that goes well gives zero, keeps the last error and leaves what the runtime put
/// out in place of what waited. One that fails gives minus one and is told as the last
/// error; what waited still waits.
pub proof fn law_outcome_of_a_client_call(
    h: HandleView,
    called: (ClientView, Result<ClientOutputView, ClientRuntimeError>),
)
    ensures
        ({
            let turn = engine::client_called(h.tls, h.output, called);
            let after = registry::client_settled(h, turn);
            let code = registry::code_for(turn.error);
            &&& after.kind == EngineView::Client(called.0)
            &&& after.tls == h.tls
            &&& match called.1 {
                Ok(out) => {
                    &&& code == 0
                    &&& after.last_error == h.last_error
                    &&& after.output == events::client_buffer(out)
                },
                Err(e) => {
                    &&& code == -1
                    &&& after.last_error == Some(e.text())
                    &&& after.output == h.output
                },
            }
        }),
{
}

/// The same of a server, whose store keeps what the calls on it came to.
pub proof fn law_outcome_of_a_server_call(
    h: HandleView,
    records: Map<u64, EntryView>,
    served: Served,
)
    ensures
        ({
            let turn = engine::server_called(records, h.tls, h.output, served);
            let after = registry::server_settled(h, turn);
            let code = registry::code_for(turn.error);
            &&& after.kind == EngineView::Server(
                served.runtime,
                store_journal::after_calls(records, served.calls),
            )
            &&& after.tls == h.tls
            &&& match served.result {
                Ok(out) => {
                    &&& code == 0
                    &&& after.last_error == h.last_error
                    &&& after.output == events::server_buffer(out)
                },
                Err(e) => {
                    &&& code == -1
                    &&& after.last_error == Some(e.text())
                    &&& after.output == h.output
                },
            }
        }),
{
}

/// A client sends and closes through its machine; a server does neither without a session.
pub proof fn law_client_sends_and_closes(h: HandleView, payload: Seq<u8>)
    ensures
        h.kind matches EngineView::Client(v) ==> {
            let (sent, code) = calls::send_message_after(h, payload);
            let step = model::send_step(v.core, payload);
            &&& code == 0
            &&& sent.kind is Client
            &&& sent.kind->Client_0.core == step.machine
            &&& sent.output.datagrams.len() == step.out.outbound_datagrams.len()
            &&& forall|k: int|
                #![trigger sent.output.datagrams[k]]
                0 <= k < sent.output.datagrams.len() ==> sent.output.datagrams[k].0
                    == step.out.outbound_datagrams[k].path_id && sent.output.datagrams[k].1
                    == step.out.outbound_datagrams[k].bytes
        },
        h.kind matches EngineView::Client(v) ==> {
            let (closed, code) = calls::close_session_after(h);
            let step = model::close_step(v.core);
            &&& code == 0
            &&& closed.kind is Client
            &&& closed.kind->Client_0.core == step.machine
            &&& closed.output.datagrams.len() == step.out.outbound_datagrams.len()
        },
        h.kind is Server ==> calls::send_message_after(h, payload) == (h, -1int),
        h.kind is Server ==> calls::close_session_after(h) == (h, -1int),
{
}

/// A new engine is idle, stands under the next number and touches no other.
pub proof fn law_new_engine_has_its_own_number(r: RegistryView, kind: EngineView, other: u64)
    ensures
        ({
            let after = registry::engine_added(r, kind);
            let made = after.handles[r.next_handle];
            &&& after.handles.contains_key(r.next_handle)
            &&& made.kind == kind
            &&& made.tls is Disabled
            &&& made.output.datagrams.len() == 0
            &&& made.output.events.len() == 0
            &&& made.last_error is None
            &&& r.next_handle < u64::MAX ==> after.next_handle == r.next_handle + 1
            &&& other != r.next_handle ==> {
                &&& after.handles.contains_key(other) == r.handles.contains_key(other)
                &&& r.handles.contains_key(other) ==> after.handles[other] == r.handles[other]
            }
        }),
{
}

/// A copy is the beginning of what there is, as long as there is room for; what waits at a
/// place is fetched as it is, and past the end there is nothing.
pub proof fn law_fetched_is_what_waits(
    bytes: Seq<u8>,
    room: nat,
    datagrams: Seq<(u32, Seq<u8>)>,
    index: int,
)
    ensures
        fetch::fitting(bytes, room).len() <= room,
        fetch::fitting(bytes, room).len() <= bytes.len(),
        fetch::fitting(bytes, room).len() == room || fetch::fitting(bytes, room).len()
            == bytes.len(),
        forall|k: int|
            #![trigger fetch::fitting(bytes, room)[k]]
            0 <= k < fetch::fitting(bytes, room).len() ==> fetch::fitting(bytes, room)[k]
                == bytes[k],
        0 <= index < datagrams.len() ==> fetch::datagram_at(datagrams, index) == datagrams[index],
        index >= datagrams.len() ==> fetch::datagram_at(datagrams, index).1.len() == 0,
{
}

/// A datagram belongs to a handshake exactly if it begins with `DTLS_`.
pub proof fn law_handshake_packets_begin_alike(bytes: Seq<u8>)
    ensures
        tls::is_handshake(bytes) <==> bytes.len() >= 5 && bytes.take(5) == seq![
            0x44u8,
            0x54u8,
            0x4cu8,
            0x53u8,
            0x5fu8,
        ],
{
    let head = seq![0x44u8, 0x54u8, 0x4cu8, 0x53u8, 0x5fu8];
    if tls::is_handshake(bytes) {
        assert(bytes.take(5) =~= head);
    }
    if bytes.len() >= 5 && bytes.take(5) == head {
        assert(bytes.take(5)[0] == 0x44 && bytes.take(5)[1] == 0x54 && bytes.take(5)[2] == 0x4c
            && bytes.take(5)[3] == 0x53 && bytes.take(5)[4] == 0x5f);
    }
}

/// Without a handshake, or after it, every datagram of a client that is no part of one gets
/// to its machine, and a late part of one is passed over.
pub proof fn law_client_hears_after_the_handshake(
    v: ClientView,
    t: TlsView,
    output: BufferView,
    now_ms: u64,
    path_id: u32,
    bytes: Seq<u8>,
)
    requires
        t is Disabled || (t is Client && t->Client_0.established),
    ensures
        ({
            let turn = engine::client_datagram_turn(v, t, output, now_ms, path_id, bytes);
            let step = model::datagram_step(v.core, now_ms, path_id, bytes);
            &&& turn.tls == t
            &&& if t is Client && tls::is_handshake(bytes) {
                &&& turn.client == v
                &&& turn.error is None
                &&& turn.output.datagrams.len() == 0
            } else {
                &&& turn.client.core == step.machine
                &&& turn.error is None <==> step.error is None
                &&& step.error is None ==> turn.output.datagrams.len()
                    == step.out.outbound_datagrams.len()
            }
        }),
{
    reveal(engine::client_datagram_turn);
}

/// When its handshake is done, a client that has not begun says its hello to the server:
/// what the handshake and then what the machine asks for goes out, and the client is
/// established.
pub proof fn law_finished_handshake_sets_the_machine_going(
    v: ClientView,
    t: ClientTlsView,
    output: BufferView,
    now_ms: u64,
    path_id: u32,
    bytes: Seq<u8>,
)
    requires
        !t.established,
        openssl_dtls::openssl_datagram(t.adapter, bytes).1 is Ok,
        openssl_dtls::openssl_datagram(t.adapter, bytes).1->Ok_0.established,
    ensures
        ({
            let out = openssl_dtls::openssl_datagram(t.adapter, bytes).1->Ok_0;
            let turn = engine::client_datagram_turn(
                v,
                TlsView::Client(t),
                output,
                now_ms,
                path_id,
                bytes,
            );
            let begun = model::begin_step(v.core);
            let sent = turn.output.datagrams;
            &&& turn.error is None
            &&& turn.tls is Client
            &&& turn.tls->Client_0.established
            &&& turn.tls->Client_0.core_started
            &&& sent.len() == out.outbound_datagrams.len() + if t.core_started {
                0
            } else {
                begun.out.outbound_datagrams.len()
            }
            &&& forall|k: int|
                #![trigger sent[k]]
                0 <= k < out.outbound_datagrams.len() ==> sent[k] == (
                    path_id,
                    out.outbound_datagrams[k],
                )
            &&& !t.core_started ==> forall|k: int|
                #![trigger sent[k]]
                out.outbound_datagrams.len() <= k < sent.len() ==> sent[k].1
                    == begun.out.outbound_datagrams[k - out.outbound_datagrams.len()].bytes
        }),
{
    reveal(engine::client_datagram_turn);
}

/// Without a handshake to shake, every datagram gets to a server's sessions; else those of
/// a path whose handshake is done that are no part of one.
pub proof fn law_server_hears_after_the_handshake(
    v: ServerView,
    records: Map<u64, EntryView>,
    t: TlsView,
    output: BufferView,
    now_ms: u64,
    path_id: u32,
    bytes: Seq<u8>,
    opened: openssl_dtls::OpenSslView,
    a: Answers,
)
    requires
        !(t is Client),
    ensures
        ({
            let turn = engine::server_datagram_turn(
                v,
                records,
                t,
                output,
                now_ms,
                path_id,
                bytes,
                opened,
                a,
            );
            let heard = t is Disabled || (t->Server_0.sessions_by_path.contains_key(path_id)
                && t->Server_0.sessions_by_path[path_id].established && !tls::is_handshake(bytes));
            let served = server_model::datagram_served(v, now_ms, path_id, bytes, a);
            &&& heard ==> turn.server == served.runtime && turn.tls == t && (turn.error is None
                <==> served.result is Ok)
            &&& !heard ==> turn.server == v && turn.records == records
        }),
{
}

/// A packet that is seen counts once more where it was seen before, and else is new; no
/// other packet is touched.
pub proof fn law_packets_are_counted_apart(
    seen: Seq<SeenView>,
    key: Seq<char>,
    now_ms: u64,
    k: int,
)
    requires
        0 <= k < seen.len(),
        seen[k].key != key,
    ensures
        ({
            let after = packet_log::noted(seen, key, now_ms);
            &&& after.len() >= seen.len()
            &&& after[k] == seen[k]
        }),
{
    lemma_place_is_of_the_key(seen, key, 0);
}

proof fn lemma_place_is_of_the_key(seen: Seq<SeenView>, key: Seq<char>, from: int)
    requires
        0 <= from,
    ensures
        packet_log::place_of(seen, key, from) matches Some(at) ==> from <= at < seen.len()
            && seen[at].key == key,
    decreases seen.len() - from,
{
    if from < seen.len() {
        lemma_place_is_of_the_key(seen, key, from + 1);
    }
}

/// Up to twenty thousand packets are all kept in mind; of more, those of the last minute
/// are, and no others.
pub proof fn law_recent_packets_are_kept(seen: Seq<SeenView>, now_ms: u64, packet: SeenView)
    ensures
        seen.len() <= 20_000 ==> packet_log::kept(seen, now_ms) == seen,
        seen.len() > 20_000 ==> (packet_log::kept(seen, now_ms).contains(packet)
            <==> seen.contains(packet) && packet.last_ms + 60_000 >= now_ms),
{
    let cutoff = if now_ms >= 60_000 {
        (now_ms - 60_000) as u64
    } else {
        0
    };
    lemma_seen_since(seen, cutoff, packet);
}

proof fn lemma_seen_since(seen: Seq<SeenView>, cutoff_ms: u64, packet: SeenView)
    ensures
        packet_log::seen_since(seen, cutoff_ms).contains(packet) <==> seen.contains(packet)
            && packet.last_ms >= cutoff_ms,
    decreases seen.len(),
{
    if seen.len() > 0 {
        let front = seen.drop_last();
        lemma_seen_since(front, cutoff_ms, packet);
        let before = packet_log::seen_since(front, cutoff_ms);
        let after = packet_log::seen_since(seen, cutoff_ms);
        if seen.contains(packet) && packet.last_ms >= cutoff_ms {
            let i = choose|i: int| 0 <= i < seen.len() && seen[i] == packet;
            if i < front.len() {
                assert(front[i] == packet);
                let j = choose|j: int| 0 <= j < before.len() && before[j] == packet;
                assert(after[j] == packet);
            } else {
                assert(after[before.len() as int] == packet);
            }
        }
        if after.contains(packet) {
            let j = choose|j: int| 0 <= j < after.len() && after[j] == packet;
            if j < before.len() {
                assert(before[j] == packet);
                let i = choose|i: int| 0 <= i < front.len() && front[i] == packet;
                assert(seen[i] == packet);
            } else {
                assert(seen[seen.len() - 1] == packet);
            }
        }
    }
}

/// A client's handshake is set up exactly with a server's name and a trust anchor that is
/// there: it verifies that name, trusts that anchor alone and takes no weak suites.
pub proof fn law_client_handshake_verifies_the_server(
    expected_server_name: Seq<char>,
    trust_anchor_path: Seq<char>,
    there: bool,
    anchor: Seq<u8>,
)
    ensures
        tls::client_refusal(expected_server_name, trust_anchor_path, there) is None
            <==> !text::is_blank(expected_server_name) && !text::is_blank(trust_anchor_path)
            && there,
        ({
            let cfg = tls::client_config(expected_server_name, anchor);
            &&& cfg.trust.require_hostname_verification
            &&& cfg.expected_server_name == Some(expected_server_name)
            &&& cfg.trust.trust_anchor_pems == seq![anchor]
            &&& !cfg.cipher_policy.allow_weak_suites
            &&& cfg.cipher_policy.min_dtls_version == DtlsVersion::Dtls12
            &&& cfg.profile == AuthProfile::ServerAuth
            &&& cfg.client_identity is None
        }),
{
}

/// A server's handshakes are set up exactly with its name and with a certificate and a key
/// that are there: these are its identity, trimmed.
pub proof fn law_server_handshake_has_its_identity(
    server_name: Seq<char>,
    cert_path: Seq<char>,
    key_path: Seq<char>,
    cert_there: bool,
    key_there: bool,
)
    ensures
        tls::server_refusal(server_name, cert_path, key_path, cert_there, key_there) is None
            <==> !text::is_blank(server_name) && !text::is_blank(cert_path) && !text::is_blank(
            key_path,
        ) && cert_there && key_there,
        ({
            let cfg = tls::server_config(server_name, cert_path, key_path);
            &&& cfg.expected_server_name == Some(server_name)
            &&& !cfg.trust.require_hostname_verification
            &&& cfg.trust.trust_anchor_pems.len() == 0
            &&& !cfg.cipher_policy.allow_weak_suites
            &&& cfg.cipher_policy.min_dtls_version == DtlsVersion::Dtls12
            &&& cfg.profile == AuthProfile::ServerAuth
            &&& cfg.client_identity is Some
            &&& cfg.client_identity->0.key_id == text::trimmed(key_path)
            &&& cfg.client_identity->0.cert_chain_ids == seq![text::trimmed(cert_path)]
        }),
{
}

/// Configuring a server's handshakes either sets them up anew, with no path open, or is
/// refused, told and changes nothing else. A client has none.
pub proof fn law_server_handshakes_are_set_up_or_refused(
    h: HandleView,
    args: ServerTlsArguments,
    after: HandleView,
    code: i32,
)
    requires
        configure::server_tls_configured(h, args, after, code),
    ensures
        code == 0 || code == -1,
        code == 0 <==> {
            &&& vstd::utf8::valid_utf8(args.server_name)
            &&& vstd::utf8::valid_utf8(args.cert_path)
            &&& vstd::utf8::valid_utf8(args.key_path)
            &&& configure::names_refusal(args) is None
            &&& h.kind is Server
        },
        code == 0 ==> {
            &&& after.tls is Server
            &&& after.tls->Server_0.sessions_by_path == Map::<u32, tls::PathTlsView>::empty()
            &&& after.tls->Server_0.server_name == vstd::utf8::decode_utf8(args.server_name)
            &&& after.tls->Server_0.cert_path == vstd::utf8::decode_utf8(args.cert_path)
            &&& after.tls->Server_0.key_path == vstd::utf8::decode_utf8(args.key_path)
            &&& after.kind == h.kind
            &&& after.last_error == h.last_error
        },
        code == -1 ==> {
            &&& after.last_error is Some
            &&& after == (HandleView { last_error: after.last_error, ..h })
        },
{
}

/// Configuring traversal sets a server's policy, by the number one to relays only, and
/// tells all of it but the password.
pub proof fn law_traversal_is_configured_without_telling_the_password(
    h: HandleView,
    relay_policy: i32,
    args: NatArguments,
    other: NatArguments,
    after: HandleView,
    code: i32,
)
    requires
        configure::nat_configured(h, relay_policy, args, after, code),
        other == (NatArguments { turn_password: other.turn_password, ..args }),
        vstd::utf8::decode_utf8(other.turn_password).len() == 0 <==> vstd::utf8::decode_utf8(
            args.turn_password,
        ).len() == 0,
    ensures
        configure::nat_line(relay_policy, other) == configure::nat_line(relay_policy, args),
        code == 0 || code == -1,
        code == 0 && h.kind is Server ==> {
            &&& after.kind is Server
            &&& after.kind->Server_0.relay_policy == if relay_policy == 1 {
                RelayPolicy::RelayOnly
            } else {
                RelayPolicy::PreferDirect
            }
            &&& after.kind->Server_0 == (ServerView {
                relay_policy: after.kind->Server_0.relay_policy,
                ..h.kind->Server_0
            })
        },
        code == 0 && h.kind is Client ==> after.kind == h.kind,
        code == 0 ==> after.tls == h.tls && after.output.datagrams.len() == 0
            && after.output.events.len() == 1,
        code == -1 ==> after == (HandleView { last_error: after.last_error, ..h })
            && after.last_error is Some,
{
}

/// Setting up a client's handshake either leaves it idle, to be started with the name and
/// the anchor, or is refused, told and changes nothing else. A server has none.
pub proof fn law_client_handshake_is_set_up_or_refused(
    h: HandleView,
    expected: Seq<u8>,
    trust: Seq<u8>,
    anchor: Option<Vec<u8>>,
    after: HandleView,
    code: i32,
)
    requires
        configure::client_tls_configured(h, expected, trust, anchor, after, code),
    ensures
        code == 0 || code == -1,
        code == 0 <==> {
            &&& vstd::utf8::valid_utf8(expected)
            &&& vstd::utf8::valid_utf8(trust)
            &&& !text::is_blank(vstd::utf8::decode_utf8(expected))
            &&& !text::is_blank(vstd::utf8::decode_utf8(trust))
            &&& anchor is Some
            &&& h.kind is Client
        },
        code == 0 ==> {
            &&& after.tls is Client
            &&& !after.tls->Client_0.established
            &&& !after.tls->Client_0.core_started
            &&& after.tls->Client_0.cfg.expected_server_name == Some(
                vstd::utf8::decode_utf8(expected),
            )
            &&& after.tls->Client_0.cfg.trust.trust_anchor_pems == seq![anchor->0@]
            &&& after == (HandleView { tls: after.tls, ..h })
        },
        code == -1 ==> {
            &&& after.last_error is Some
            &&& after == (HandleView { last_error: after.last_error, ..h })
        },
{
}

/// A client without a handshake of its own, or with one that is over, begins its session
/// at once. One that has yet to shake hands sends the handshake's first flight, or tells
/// why it could not, and leaves its session alone. A server begins nothing.
pub proof fn law_client_begins_its_handshake_first(h: HandleView, after: HandleView, code: i32)
    requires
        calls::begins(h, after, code),
    ensures
        h.kind is Server ==> after == h && code == 0,
        h.kind is Client && !(h.tls is Client && !h.tls->Client_0.established) ==> {
            let step = model::begin_step(h.kind->Client_0.core);
            let sent = after.output.datagrams;
            &&& after.tls == h.tls
            &&& after.kind is Client
            &&& after.kind->Client_0.core == step.machine
            &&& code == 0 <==> step.error is None
            &&& code == 0 ==> sent.len() == step.out.outbound_datagrams.len()
            &&& code == 0 ==> forall|k: int|
                #![trigger sent[k]]
                0 <= k < sent.len() ==> sent[k].0 == step.out.outbound_datagrams[k].path_id
                    && sent[k].1 == step.out.outbound_datagrams[k].bytes
        },
        h.kind is Client && h.tls is Client && !h.tls->Client_0.established ==> {
            &&& after.kind == h.kind
            &&& after.tls is Client
            &&& !after.tls->Client_0.established
            &&& after.tls->Client_0.cfg == h.tls->Client_0.cfg
            &&& code == 0 || code == -1
            &&& code == 0 ==> {
                &&& after.output.datagrams == seq![
                    (
                        0u32,
                        text::utf8(
                            "DTLS_CLIENT_HELLO|sni="@ + dtls::server_name(h.tls->Client_0.cfg),
                        ),
                    ),
                ]
                &&& after.tls->Client_0.adapter.ssl is Some
                &&& after.last_error == h.last_error
            }
            &&& code == -1 ==> {
                &&& after.output == h.output
                &&& after.tls == h.tls
                &&& after.last_error is Some
            }
        },
{
    if h.kind is Client {
        let v = h.kind->Client_0;
        let turn = choose|turn: ClientTurn| #[trigger]
            engine::client_begins(v, h.tls, h.output, turn) && after == registry::client_settled(
                h,
                turn,
            ) && code == registry::code_for(turn.error);
        if h.tls is Client && !h.tls->Client_0.established {
            let (adapter, started) = choose|
                adapter: openssl_dtls::OpenSslView,
                started: Result<HandshakeView, CryptoErrorView>,
            |
                #![trigger engine::client_tls_begin_turn(v, h.tls->Client_0, h.output, adapter, started)]
                tls::client_start(h.tls->Client_0.adapter, h.tls->Client_0.cfg, adapter, started)
                    && turn == engine::client_tls_begin_turn(
                    v,
                    h.tls->Client_0,
                    h.output,
                    adapter,
                    started,
                );
            if started is Ok {
                let out = started->Ok_0;
                assert(engine::on_path(0, out.outbound_datagrams) =~= seq![
                    (0u32, out.outbound_datagrams[0]),
                ]);
            }
        } else {
            client_laws::law_client_hands_on_what_the_session_asks(v, model::begin_step(v.core));
        }
    }
}

/// A message that a server is given goes out on the session's path, as the session sends
/// it. Without that session nothing happens. A client is not given any this way.
pub proof fn law_server_sends_on_its_session(
    h: HandleView,
    cid: u64,
    payload: Seq<u8>,
    now_ms: u64,
    after: HandleView,
    code: i32,
)
    requires
        calls::server_sends(h, cid, payload, now_ms, after, code),
    ensures
        h.kind is Client ==> after == h && code == -1,
        h.kind is Server && !h.kind->Server_0.sessions.contains_key(cid) ==> {
            &&& code == 0
            &&& after.kind == h.kind
            &&& after.output.datagrams.len() == 0
            &&& after.output.events.len() == 0
        },
        h.kind is Server && h.kind->Server_0.sessions.contains_key(cid) ==> {
            let core = h.kind->Server_0.sessions[cid].core;
            let step = model::send_step(core, payload);
            let sent = after.output.datagrams;
            &&& after.kind is Server
            &&& after.tls == h.tls
            &&& code == 0 || code == -1
            &&& core.state != LifecycleState::Lost ==> {
                &&& after.kind->Server_0.sessions.contains_key(cid)
                &&& after.kind->Server_0.sessions[cid].core == step.machine
            }
            &&& code == 0 ==> sent.len() == step.out.outbound_datagrams.len()
            &&& code == 0 ==> forall|k: int|
                #![trigger sent[k]]
                0 <= k < sent.len() ==> sent[k].1 == step.out.outbound_datagrams[k].bytes && (
                core.current_path_id != 0 ==> sent[k].0 == core.current_path_id)
            &&& code == -1 ==> after.output == h.output && after.last_error is Some
        },
{
    if h.kind is Server {
        let v = h.kind->Server_0;
        let records = h.kind->Server_1;
        let a = choose|a: Answers|
            #![trigger server_model::message_served(v, cid, payload, now_ms, a)]
            {
                let turn = engine::server_called(
                    records,
                    h.tls,
                    h.output,
                    server_model::message_served(v, cid, payload, now_ms, a),
                );
                &&& store_journal::all_answered(
                    records,
                    server_model::message_served(v, cid, payload, now_ms, a).calls,
                )
                &&& after == registry::server_settled(h, turn)
                &&& code == registry::code_for(turn.error)
            };
        let served = server_model::message_served(v, cid, payload, now_ms, a);
        law_outcome_of_a_server_call(h, records, served);
        if v.sessions.contains_key(cid) {
            let due = (0u64, cid, TimerId::ServerMsr);
            routing::law_calls_reach_one_session(v, now_ms, due, cid, payload, a, cid);
            if served.result is Ok {
                routing::law_message_goes_out_on_the_sessions_path(v, cid, payload, now_ms, a);
                law_output_waits_whole(
                    ClientOutputView::empty(),
                    served.result->Ok_0,
                );
            }
        }
    }
}

/// Polling an engine for which no timer is due changes nothing and has nothing to send.
/// The timer that alone is due is handed to the client's session.
pub proof fn law_polling_serves_what_is_due(
    h: HandleView,
    now_ms: u64,
    limit: nat,
    after: HandleView,
    code: i32,
    deadline: u64,
    owner: u64,
    id: TimerId,
)
    requires
        calls::polls(h, now_ms, limit, after, code),
    ensures
        h.kind is Client && timers::due_at(h.kind->Client_0.timers, now_ms, limit).len() == 0 ==> {
            &&& code == 0
            &&& after.kind == h.kind
            &&& after.output.datagrams.len() == 0
            &&& after.output.events.len() == 0
        },
        h.kind is Server && timers::due_at(h.kind->Server_0.timers, now_ms, limit).len() == 0 ==> {
            &&& code == 0
            &&& after.kind == h.kind
            &&& after.output.datagrams.len() == 0
            &&& after.output.events.len() == 0
        },
        h.kind is Client && timers::due_at(h.kind->Client_0.timers, now_ms, limit) == seq![
            (deadline, owner, id),
        ] ==> {
            let step = model::timer_step(h.kind->Client_0.core, now_ms, id);
            &&& after.kind is Client
            &&& after.kind->Client_0.core == step.machine
            &&& code == 0 <==> step.error is None
            &&& code == 0 ==> after.output.datagrams.len() == step.out.outbound_datagrams.len()
            &&& code == 0 ==> after.output.events.len() == step.out.events.len()
        },
{
    match h.kind {
        EngineView::Client(v) => {
            let due = timers::due_at(v.timers, now_ms, limit);
            let none = ClientOutputView::empty();
            client_laws::law_client_serves_due_timers_in_turn(v, now_ms, due, none);
            if due == seq![(deadline, owner, id)] {
                let taken = ClientView {
                    timers: timers::without_timer(v.timers, deadline, (owner, id)),
                    ..v
                };
                let step = model::timer_step(v.core, now_ms, id);
                client_laws::law_client_hands_on_what_the_session_asks(taken, step);
                let (next, result) = client_runtime::client_step(taken, step);
                if result is Ok {
                    let all = ClientOutputView {
                        outbound_datagrams: none.outbound_datagrams
                            + result->Ok_0.outbound_datagrams,
                        events: none.events + result->Ok_0.events,
                    };
                    client_laws::law_client_serves_due_timers_in_turn(
                        next,
                        now_ms,
                        due.skip(1),
                        all,
                    );
                }
            }
        },
        EngineView::Server(v, records) => {
            let due = timers::due_at(v.timers, now_ms, limit);
            if due.len() == 0 {
                assert(forall|answers: Seq<Answers>|
                    server_model::polled(v, now_ms, due, answers).calls == Seq::<StoreCall>::empty());
            }
        },
    }
}

} // verus!
