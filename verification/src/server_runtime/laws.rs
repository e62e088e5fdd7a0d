//! What holds of a server runtime over several calls.

use vstd::prelude::*;

use crate::server_runtime::model;
use crate::server_runtime::model::{Answers, ServerView};
use crate::server_runtime::runtime;
use crate::server_runtime::runtime::ServerRuntime;
use crate::server_runtime::types::{
    RuntimeEventView, ServerErrorView, ServerOutputView, ServerRuntimeError, ServerRuntimeMetrics,
    ServerRuntimeOutput, SessionView,
};
use crate::session::codec;
use crate::session::model as session_model;
use crate::session::model::MachineView;
use crate::session::types::{
    CoreConfig, DatagramView, EventView, LifecycleState, OutputView, Role, TimerId,
};
use crate::store::entries;
use crate::store::journal;
use crate::store::memory;
use crate::store::memory::InMemorySessionStore;
use crate::store::types::{EntryView, RecordView, StoreCall, StoreErrorView};
use crate::text;
use crate::wire;
use crate::wire::MessageType;

verus! {

/// A datagram that cannot be read is reported and counted, and changes nothing
/// else; the store is not asked.
pub proof fn law_unreadable_datagram_is_reported(
    v: ServerView,
    now_ms: u64,
    src_path_id: u32,
    bytes: Seq<u8>,
    a: Answers,
)
    requires
        wire::parse_frame(bytes) is Err,
    ensures
        ({
            let served = model::datagram_served(v, now_ms, src_path_id, bytes, a);
            &&& served.result == Ok::<ServerOutputView, ServerErrorView>(
                ServerOutputView {
                    outbound_datagrams: Seq::empty(),
                    events: seq![RuntimeEventView::ParseError],
                },
            )
            &&& served.calls == Seq::<StoreCall>::empty()
            &&& served.runtime == (ServerView {
                metrics: ServerRuntimeMetrics {
                    parse_errors: model::bumped(v.metrics.parse_errors),
                    ..v.metrics
                },
                ..v
            })
        }),
{
}

/// A datagram for one session leaves every other session as it is.
pub proof fn law_datagram_reaches_one_session(
    v: ServerView,
    now_ms: u64,
    src_path_id: u32,
    bytes: Seq<u8>,
    a: Answers,
    other: u64,
)
    requires
        wire::parse_frame(bytes) matches Ok(frame) ==> frame.cid != other,
    ensures
        ({
            let after = model::datagram_served(v, now_ms, src_path_id, bytes, a).runtime;
            &&& after.sessions.contains_key(other) == v.sessions.contains_key(other)
            &&& v.sessions.contains_key(other) ==> after.sessions[other] == v.sessions[other]
        }),
{
}

/// The store is asked for a session's record only when the session is not there.
pub proof fn law_known_session_is_not_loaded(
    v: ServerView,
    now_ms: u64,
    src_path_id: u32,
    bytes: Seq<u8>,
    a: Answers,
    i: int,
)
    requires
        wire::parse_frame(bytes) matches Ok(frame) ==> v.sessions.contains_key(frame.cid),
        0 <= i < model::datagram_served(v, now_ms, src_path_id, bytes, a).calls.len(),
    ensures
        !(model::datagram_served(v, now_ms, src_path_id, bytes, a).calls[i] is Load),
{
}

/// After a datagram that was taken in, the session is in the store as it now is;
/// one that was lost is neither in the store nor in the runtime.
pub proof fn law_session_is_persisted(
    v: ServerView,
    now_ms: u64,
    src_path_id: u32,
    bytes: Seq<u8>,
    a: Answers,
)
    requires
        wire::parse_frame(bytes) is Ok,
        model::datagram_served(v, now_ms, src_path_id, bytes, a).result is Ok,
    ensures
        ({
            let cid = wire::parse_frame(bytes)->Ok_0.cid;
            let served = model::datagram_served(v, now_ms, src_path_id, bytes, a);
            let core = session_model::datagram_step(
                model::ensured(v, cid, src_path_id, a).0.sessions[cid].core,
                now_ms,
                src_path_id,
                bytes,
            ).machine;
            &&& served.calls.len() > 0
            &&& if core.state == LifecycleState::Lost {
                &&& !served.runtime.sessions.contains_key(cid)
                &&& served.calls.last() == (StoreCall::Delete { cid, reply: a.delete })
            } else {
                &&& served.runtime.sessions.contains_key(cid)
                &&& served.runtime.sessions[cid].core == core
                &&& served.calls.last() == (StoreCall::Upsert {
                    cid,
                    record: model::snapshot(v.cfg, cid, served.runtime.sessions[cid]),
                    ttl_ms: v.cfg.disconnect_window_ms,
                    now_ms,
                    reply: a.upsert,
                })
            }
        }),
{
}

/// A session that is opened from its stored record is at the same peer and keeps
/// the runtime's timers.
pub proof fn law_stored_session_resumes(
    cfg: CoreConfig,
    cid: u64,
    session: SessionView,
    src_path_id: u32,
    entry: EntryView,
)
    requires
        entry.record == model::snapshot(cfg, cid, session),
    ensures
        ({
            let resumed = model::opened(cfg, cid, src_path_id, Some(entry));
            &&& resumed.peer_id == session.peer_id
            &&& resumed.core.cfg == cfg
            &&& resumed.core.cid == cid
            &&& resumed.core.current_path_id == src_path_id
        }),
{
}

/// A message for a session that is not there goes nowhere and changes nothing.
pub proof fn law_message_without_session_is_dropped(
    v: ServerView,
    cid: u64,
    payload: Seq<u8>,
    now_ms: u64,
    a: Answers,
)
    requires
        !v.sessions.contains_key(cid),
    ensures
        ({
            let served = model::message_served(v, cid, payload, now_ms, a);
            &&& served.runtime == v
            &&& served.calls == Seq::<StoreCall>::empty()
            &&& served.result == Ok::<ServerOutputView, ServerErrorView>(
                ServerOutputView::empty(),
            )
        }),
{
}

/// A timer whose session is gone does nothing but leave the queue.
pub proof fn law_timer_without_session_is_dropped(
    v: ServerView,
    now_ms: u64,
    due: (u64, u64, TimerId),
    a: Answers,
)
    requires
        !v.sessions.contains_key(due.1),
    ensures
        ({
            let served = model::timer_served(v, now_ms, due, a);
            &&& served.runtime.sessions == v.sessions
            &&& served.runtime.metrics == v.metrics
            &&& served.calls == Seq::<StoreCall>::empty()
            &&& served.result == Ok::<ServerOutputView, ServerErrorView>(
                ServerOutputView::empty(),
            )
        }),
{
}

/// With room in every session at a moment, all timers can be taken in then.
pub proof fn law_room_lasts_while_polling(
    cores: Map<u64, MachineView>,
    now_ms: u64,
    due: Seq<(u64, u64, TimerId)>,
)
    requires
        forall|cid: u64| #[trigger]
            cores.contains_key(cid) ==> session_model::has_room(cores[cid], now_ms),
    ensures
        model::poll_fits(cores, now_ms, due),
    decreases due.len(),
{
    if due.len() > 0 {
        let (deadline, cid, id) = due[0];
        if !cores.contains_key(cid) {
            law_room_lasts_while_polling(cores, now_ms, due.skip(1));
        } else {
            let step = session_model::timer_step(cores[cid], now_ms, id);
            let next = if step.machine.state == LifecycleState::Lost {
                cores.remove(cid)
            } else {
                cores.insert(cid, step.machine)
            };
            law_room_lasts_while_polling(next, now_ms, due.skip(1));
        }
    }
}

/// That a datagram is a client's hello for `cid` that advertises no messages.
pub open spec fn is_hello(bytes: Seq<u8>, cid: u64) -> bool {
    &&& wire::parse_frame(bytes) matches Ok(frame)
    &&& frame.message_type == MessageType::ClientHello
    &&& frame.cid == cid
    &&& codec::msr_signal_of(frame.tlvs) is None
}

/// What a server puts out for a hello that it answers.
pub open spec fn hello_answer(cid: u64, src_path_id: u32) -> ServerOutputView {
    ServerOutputView {
        outbound_datagrams: seq![
            DatagramView {
                path_id: src_path_id,
                bytes: codec::core_frame_bytes(
                    MessageType::ServerHello,
                    cid,
                    Seq::empty(),
                    Seq::empty(),
                ),
            },
        ],
        events: seq![
            RuntimeEventView::CoreEvent { cid, event: EventView::HandshakeEstablished },
        ],
    }
}

/// The record of a session that was just opened on a path.
pub open spec fn first_entry(cfg: CoreConfig, cid: u64, src_path_id: u32, now_ms: u64) -> EntryView {
    EntryView {
        version: 1,
        record: RecordView {
            cid,
            peer_id: "path:"@ + text::decimal(src_path_id as nat),
            negotiated_msr_interval_ms: cfg.msr_interval_ms,
            disconnect_window_ms: cfg.disconnect_window_ms,
            last_ordered_rx: 0,
            last_ordered_tx: 0,
        },
        expires_at_ms: codec::saturating_sum(now_ms, cfg.disconnect_window_ms),
    }
}

/// That a session stands and has received nothing yet.
pub open spec fn is_greeted(v: ServerView, cid: u64) -> bool {
    let session = v.sessions[cid];
    &&& v.sessions.contains_key(cid)
    &&& session.core.state == LifecycleState::Established
    &&& session.core.role == Role::Server
    &&& session.core.cfg == v.cfg
    &&& session.core.cid == cid
    &&& session.core.last_ordered_rx == 0
    &&& session.core.received_buffer == Map::<u64, Seq<u8>>::empty()
    &&& session.bound_vhost is None
}

/// Over a store that answers from its records, a hello of a connection that
/// neither the runtime nor the store knows opens a session: it is answered on its
/// path, and the session's first record is in the store.
pub proof fn law_hello_opens_a_session(
    v: ServerView,
    records: Map<u64, EntryView>,
    now_ms: u64,
    src_path_id: u32,
    bytes: Seq<u8>,
    cid: u64,
    a: Answers,
)
    requires
        is_hello(bytes, cid),
        !v.sessions.contains_key(cid),
        entries::live(records, cid, now_ms) is None,
        model::clock_fits(v.cfg, now_ms, MessageType::ClientHello),
        journal::all_answered(
            records,
            model::datagram_served(v, now_ms, src_path_id, bytes, a).calls,
        ),
    ensures
        ({
            let served = model::datagram_served(v, now_ms, src_path_id, bytes, a);
            &&& served.result == Ok::<ServerOutputView, ServerErrorView>(
                hello_answer(cid, src_path_id),
            )
            &&& served.runtime.cfg == v.cfg
            &&& served.runtime.sessions.dom() == v.sessions.dom().insert(cid)
            &&& forall|other: u64|
                other != cid && v.sessions.contains_key(other)
                    ==> #[trigger] served.runtime.sessions[other] == v.sessions[other]
            &&& is_greeted(served.runtime, cid)
            &&& journal::after_calls(records, served.calls) == records.insert(
                cid,
                first_entry(v.cfg, cid, src_path_id, now_ms),
            )
        }),
{
    let served = model::datagram_served(v, now_ms, src_path_id, bytes, a);
    let asked = seq![StoreCall::Load { cid, now_ms, reply: a.load }];
    let rest = served.calls.skip(1);
    assert(served.calls =~= asked + rest);
    journal::lemma_joined(records, asked, rest);
    assert(asked.drop_last() =~= Seq::<StoreCall>::empty());
    assert(asked.last() == asked[0]);
    assert(journal::all_answered(records, asked));
    assert(journal::is_answered(records, asked[0]));
    assert(a.load == Ok::<Option<EntryView>, StoreErrorView>(None));
    let purged = entries::purged(records, cid, now_ms);
    assert(journal::after_calls(records, asked) == purged);
    let v1 = model::ensured(v, cid, src_path_id, a).0;
    let fresh = model::opened(v.cfg, cid, src_path_id, None);
    assert(v1.sessions[cid] == fresh);
    let step = session_model::datagram_step(fresh.core, now_ms, src_path_id, bytes);
    assert(step.error is None);
    assert(step.out.events =~= seq![EventView::HandshakeEstablished]);
    assert(step.out.outbound_datagrams =~= hello_answer(cid, src_path_id).outbound_datagrams);
    assert(model::all_routed(step.out.outbound_datagrams, src_path_id)
        =~= step.out.outbound_datagrams);
    reveal_with_fuel(model::all_reported, 2);
    assert(step.out.events.drop_last() =~= Seq::<EventView>::empty());
    assert(model::all_reported(cid, step.out.events) =~= hello_answer(cid, src_path_id).events);
    let v2 = model::taken_in(model::moved(v1, cid, step.machine), cid, src_path_id, step.out);
    let entry = first_entry(v.cfg, cid, src_path_id, now_ms);
    let upsert = StoreCall::Upsert {
        cid,
        record: entry.record,
        ttl_ms: v.cfg.disconnect_window_ms,
        now_ms,
        reply: a.upsert,
    };
    assert(v2.sessions[cid].core == step.machine);
    assert(model::snapshot(v2.cfg, cid, v2.sessions[cid]) =~= entry.record);
    assert(model::store_calls(v2, cid, now_ms, a) =~= seq![upsert]);
    assert(rest =~= seq![upsert]);
    assert(rest.drop_last() =~= Seq::<StoreCall>::empty());
    assert(rest.last() == rest[0]);
    assert(journal::is_answered(purged, upsert));
    assert(entries::live(purged, cid, now_ms) is None);
    assert(a.upsert == Ok::<EntryView, StoreErrorView>(entry));
    assert(journal::after_calls(purged, rest) == purged.insert(cid, entry));
    assert(purged.insert(cid, entry) =~= records.insert(cid, entry));
    assert(model::binding(fresh, cid, src_path_id) =~= Seq::<RuntimeEventView>::empty());
    assert(served.result->Ok_0 =~= hello_answer(cid, src_path_id));
    assert(served.runtime.sessions.dom() =~= v.sessions.dom().insert(cid));
}

/// Over a store that answers from its records, a hello that comes again is taken
/// in quietly: the session stays, its record is written once more.
pub proof fn law_repeated_hello_is_quiet(
    v: ServerView,
    records: Map<u64, EntryView>,
    now_ms: u64,
    src_path_id: u32,
    bytes: Seq<u8>,
    cid: u64,
    a: Answers,
)
    requires
        is_hello(bytes, cid),
        is_greeted(v, cid),
        journal::all_answered(
            records,
            model::datagram_served(v, now_ms, src_path_id, bytes, a).calls,
        ),
    ensures
        ({
            let served = model::datagram_served(v, now_ms, src_path_id, bytes, a);
            &&& served.result == Ok::<ServerOutputView, ServerErrorView>(
                ServerOutputView::empty(),
            )
            &&& served.runtime.sessions.dom() == v.sessions.dom()
            &&& is_greeted(served.runtime, cid)
            &&& served.runtime.timers == v.timers
            &&& served.runtime.sessions[cid].core == (MachineView {
                current_path_id: src_path_id,
                server_consecutive_msr_without_client_msr: 0,
                ..v.sessions[cid].core
            }).deadline_touched(now_ms)
            &&& journal::after_calls(records, served.calls) == records.insert(
                cid,
                entries::next_entry(
                    records,
                    cid,
                    model::snapshot(v.cfg, cid, v.sessions[cid]),
                    v.cfg.disconnect_window_ms,
                    now_ms,
                ),
            )
        }),
{
    let served = model::datagram_served(v, now_ms, src_path_id, bytes, a);
    let here = v.sessions[cid];
    let step = session_model::datagram_step(here.core, now_ms, src_path_id, bytes);
    assert(step.error is None && step.out == OutputView::empty());
    let v1 = model::moved(v, cid, step.machine);
    assert(model::all_routed(step.out.outbound_datagrams, src_path_id)
        =~= Seq::<DatagramView>::empty());
    let v2 = model::taken_in(v1, cid, src_path_id, step.out);
    assert(v2.sessions =~= v1.sessions);
    assert(v2.timers == v.timers);
    let record = model::snapshot(v.cfg, cid, here);
    assert(model::snapshot(v2.cfg, cid, v2.sessions[cid]) =~= record);
    let upsert = StoreCall::Upsert {
        cid,
        record,
        ttl_ms: v.cfg.disconnect_window_ms,
        now_ms,
        reply: a.upsert,
    };
    assert(model::load_calls(v, cid, now_ms, a.load) =~= Seq::<StoreCall>::empty());
    assert(served.calls =~= seq![upsert]);
    assert(served.calls.drop_last() =~= Seq::<StoreCall>::empty());
    assert(served.calls.last() == upsert);
    assert(journal::is_answered(records, upsert));
    assert(model::binding(here, cid, src_path_id) =~= Seq::<RuntimeEventView>::empty());
    assert(model::all_reported(cid, step.out.events) =~= Seq::<RuntimeEventView>::empty());
    assert(served.result->Ok_0 =~= ServerOutputView::empty());
    assert(served.runtime.sessions.dom() =~= v.sessions.dom());
}

/// A hello that comes again can be taken in while the clock has room.
pub proof fn law_repeated_hello_fits(
    v: ServerView,
    now_ms: u64,
    src_path_id: u32,
    bytes: Seq<u8>,
    cid: u64,
)
    requires
        is_hello(bytes, cid),
        is_greeted(v, cid),
        now_ms + v.cfg.disconnect_window_ms <= u64::MAX,
    ensures
        model::datagram_fits(v, now_ms, src_path_id, bytes),
{
}

/// What a hello does to a server that keeps its sessions in memory: it is answered
/// on its path, and the session is there and in the store.
pub proof fn law_hello_is_persisted(
    before: ServerRuntime<InMemorySessionStore>,
    after: ServerRuntime<InMemorySessionStore>,
    result: Result<ServerRuntimeOutput, ServerRuntimeError>,
    now_ms: u64,
    src_path_id: u32,
    bytes: Seq<u8>,
    cid: u64,
)
    requires
        before.wf(),
        after.wf(),
        exists|a: Answers|
            runtime::is_served(
                before,
                after,
                result,
                #[trigger] model::datagram_served(before@, now_ms, src_path_id, bytes, a),
            ),
        is_hello(bytes, cid),
        !before@.sessions.contains_key(cid),
        entries::live(before.store.records(), cid, now_ms) is None,
        model::clock_fits(before@.cfg, now_ms, MessageType::ClientHello),
    ensures
        result is Ok,
        result->Ok_0@ == hello_answer(cid, src_path_id),
        after@.cfg == before@.cfg,
        after@.sessions.dom() == before@.sessions.dom().insert(cid),
        is_greeted(after@, cid),
        after.store.records() == before.store.records().insert(
            cid,
            first_entry(before@.cfg, cid, src_path_id, now_ms),
        ),
{
    let a = choose|a: Answers|
        runtime::is_served(
            before,
            after,
            result,
            #[trigger] model::datagram_served(before@, now_ms, src_path_id, bytes, a),
        );
    let served = model::datagram_served(before@, now_ms, src_path_id, bytes, a);
    memory::law_store_answers_from_its_records(before.store, after.store, served.calls);
    law_hello_opens_a_session(
        before@,
        before.store.records(),
        now_ms,
        src_path_id,
        bytes,
        cid,
        a,
    );
}

} // verus!
