//! What a server runtime does, over what it holds and what its store answers.

use vstd::prelude::*;

use crate::base64_text;
use crate::big_endian;
use crate::client_runtime;
use crate::server_runtime::types::{
    RuntimeEventView, ServerErrorView, ServerOutputView, ServerRuntimeMetrics, SessionView,
};
use crate::session::codec;
use crate::session::model;
use crate::session::model::{MachineView, Step};
use crate::session::types::{
    CoreConfig, DatagramView, EventView, LifecycleState, OutputView, PathEvent, Role, TimerAction,
    TimerId,
};
use crate::store::types::{EntryView, RecordView, StoreCall, StoreErrorView};
use crate::text;
use crate::timers;
use crate::traversal::RelayPolicy;
use crate::wire;
use crate::wire::MessageType;

verus! {

/// What a server runtime holds.
#[verifier::ext_equal]
pub struct ServerView {
    pub cfg: CoreConfig,
    pub sessions: Map<u64, SessionView>,
    pub timers: Map<u64, Seq<(u64, TimerId)>>,
    pub relay_policy: RelayPolicy,
    pub metrics: ServerRuntimeMetrics,
}

/// What the store answers during a call, as far as it is asked, and how long it
/// takes for it.
#[verifier::ext_equal]
pub struct Answers {
    pub load: Result<Option<EntryView>, StoreErrorView>,
    pub load_us: u64,
    pub upsert: Result<EntryView, StoreErrorView>,
    pub upsert_us: u64,
    pub delete: Result<(), StoreErrorView>,
}

/// What comes of a call: the runtime, the calls on the store and the result.
#[verifier::ext_equal]
pub struct Served {
    pub runtime: ServerView,
    pub calls: Seq<StoreCall>,
    pub result: Result<ServerOutputView, ServerErrorView>,
}

pub open spec fn bumped(n: u64) -> u64 {
    client_runtime::bumped(n)
}

/// The counts after the store was asked for a record.
pub open spec fn load_counted(
    m: ServerRuntimeMetrics,
    load: Result<Option<EntryView>, StoreErrorView>,
    load_us: u64,
) -> ServerRuntimeMetrics {
    ServerRuntimeMetrics {
        store_load_calls: bumped(m.store_load_calls),
        store_load_latency_us_total: codec::saturating_sum(m.store_load_latency_us_total, load_us),
        store_load_failures: if load is Err {
            bumped(m.store_load_failures)
        } else {
            m.store_load_failures
        },
        ..m
    }
}

/// The session that is opened when the store had `found`.
pub open spec fn opened(
    cfg: CoreConfig,
    cid: u64,
    src_path_id: u32,
    found: Option<EntryView>,
) -> SessionView {
    let (session_cfg, peer_id) = match found {
        Some(entry) => (
            CoreConfig {
                msr_interval_ms: entry.record.negotiated_msr_interval_ms,
                miss_window_count: cfg.miss_window_count,
                disconnect_window_ms: entry.record.disconnect_window_ms,
            },
            entry.record.peer_id,
        ),
        None => (cfg, "path:"@ + text::decimal(src_path_id as nat)),
    };
    SessionView {
        core: model::path_step(
            model::fresh(Role::Server, cid, session_cfg),
            PathEvent::PathChanged { path_id: src_path_id },
        ).machine,
        peer_id,
        bound_vhost: None,
        selected_path_id: None,
        sent_data_ids: Set::empty(),
    }
}

/// The runtime with one more session.
pub open spec fn with_session(v: ServerView, cid: u64, session: SessionView) -> ServerView {
    let sessions = v.sessions.insert(cid, session);
    ServerView {
        sessions,
        metrics: ServerRuntimeMetrics {
            peak_sessions: if sessions.dom().len() > v.metrics.peak_sessions {
                sessions.dom().len() as u64
            } else {
                v.metrics.peak_sessions
            },
            ..v.metrics
        },
        ..v
    }
}

/// What becomes of the store's answer about a session that is not there yet.
pub open spec fn loaded(
    v: ServerView,
    cid: u64,
    src_path_id: u32,
    load: Result<Option<EntryView>, StoreErrorView>,
    load_us: u64,
) -> (ServerView, Option<ServerErrorView>) {
    let v1 = ServerView { metrics: load_counted(v.metrics, load, load_us), ..v };
    match load {
        Err(e) => (v1, Some(ServerErrorView::Store(e))),
        Ok(found) => (with_session(v1, cid, opened(v.cfg, cid, src_path_id, found)), None),
    }
}

/// The calls on the store that make sure that a session is there.
pub open spec fn load_calls(
    v: ServerView,
    cid: u64,
    now_ms: u64,
    load: Result<Option<EntryView>, StoreErrorView>,
) -> Seq<StoreCall> {
    if v.sessions.contains_key(cid) {
        Seq::empty()
    } else {
        seq![StoreCall::Load { cid, now_ms, reply: load }]
    }
}

/// Making sure that a session is there.
pub open spec fn ensured(v: ServerView, cid: u64, src_path_id: u32, a: Answers) -> (
    ServerView,
    Option<ServerErrorView>,
) {
    if v.sessions.contains_key(cid) {
        (v, None)
    } else {
        loaded(v, cid, src_path_id, a.load, a.load_us)
    }
}

/// The counts after an event.
pub open spec fn event_counted(m: ServerRuntimeMetrics, event: EventView) -> ServerRuntimeMetrics {
    match event {
        EventView::HandshakeStarted => ServerRuntimeMetrics {
            handshake_started: bumped(m.handshake_started),
            ..m
        },
        EventView::HandshakeEstablished => ServerRuntimeMetrics {
            handshake_established: bumped(m.handshake_established),
            ..m
        },
        EventView::Reactivated => ServerRuntimeMetrics { reactivated: bumped(m.reactivated), ..m },
        EventView::ReactivationProbeSent => ServerRuntimeMetrics {
            msr_probe_sent: bumped(m.msr_probe_sent),
            msr_missed_inferred: bumped(m.msr_missed_inferred),
            ..m
        },
        EventView::RequestRangeSent { .. } => ServerRuntimeMetrics {
            request_range_sent: bumped(m.request_range_sent),
            ..m
        },
        EventView::Disconnected => disconnect_counted(m),
        _ => m,
    }
}

/// The counts after a disconnect.
pub open spec fn disconnect_counted(m: ServerRuntimeMetrics) -> ServerRuntimeMetrics {
    ServerRuntimeMetrics {
        disconnected: bumped(m.disconnected),
        disconnect_reason_unknown: bumped(m.disconnect_reason_unknown),
        ..m
    }
}

/// The counts after some events.
pub open spec fn events_counted(m: ServerRuntimeMetrics, events: Seq<EventView>) -> ServerRuntimeMetrics
    decreases events.len(),
{
    if events.len() == 0 {
        m
    } else {
        event_counted(events_counted(m, events.drop_last()), events.last())
    }
}

/// An event of a session's machine as the runtime reports it: a message that came
/// in also as text.
pub open spec fn reported(cid: u64, event: EventView) -> Seq<RuntimeEventView> {
    match event {
        EventView::MessageReceived { msg_id, payload } => seq![
            RuntimeEventView::CoreEvent { cid, event },
            RuntimeEventView::MessageReceived {
                cid,
                msg_id,
                payload_b64: base64_text::base64_of(payload),
            },
        ],
        _ => seq![RuntimeEventView::CoreEvent { cid, event }],
    }
}

/// The events of a session's machine as the runtime reports them.
pub open spec fn all_reported(cid: u64, events: Seq<EventView>) -> Seq<RuntimeEventView>
    decreases events.len(),
{
    if events.len() == 0 {
        Seq::empty()
    } else {
        all_reported(cid, events.drop_last()) + reported(cid, events.last())
    }
}

/// The timers after a session asked for some.
pub open spec fn timers_set(
    queue: Map<u64, Seq<(u64, TimerId)>>,
    cid: u64,
    actions: Seq<TimerAction>,
) -> Map<u64, Seq<(u64, TimerId)>>
    decreases actions.len(),
{
    if actions.len() == 0 {
        queue
    } else {
        let before = timers_set(queue, cid, actions.drop_last());
        match actions.last() {
            TimerAction::Schedule { id, deadline_ms } => timers::with_timer(
                before,
                deadline_ms,
                (cid, id),
            ),
        }
    }
}

/// A datagram for no path in particular goes back where the call came from.
pub open spec fn routed(d: DatagramView, src_path_id: u32) -> DatagramView {
    DatagramView {
        path_id: if d.path_id == 0 {
            src_path_id
        } else {
            d.path_id
        },
        bytes: d.bytes,
    }
}

pub open spec fn all_routed(datagrams: Seq<DatagramView>, src_path_id: u32) -> Seq<DatagramView> {
    datagrams.map_values(|d: DatagramView| routed(d, src_path_id))
}

/// Counts and the messages sent on a session, where there is one.
#[verifier::ext_equal]
pub struct Sent {
    pub metrics: ServerRuntimeMetrics,
    pub ids: Option<Set<u64>>,
}

/// The message that a data frame's payload begins with, if it is long enough.
pub open spec fn sent_id(payload: Seq<u8>) -> Option<u64> {
    if payload.len() >= 8 {
        Some(big_endian::be_value(payload.take(8)) as u64)
    } else {
        None
    }
}

/// After a datagram was sent.
pub open spec fn datagram_counted(s: Sent, bytes: Seq<u8>) -> Sent {
    match wire::parse_frame(bytes) {
        Err(_) => s,
        Ok(frame) => if frame.message_type == MessageType::Msr {
            Sent {
                metrics: ServerRuntimeMetrics {
                    msr_sent: bumped(s.metrics.msr_sent),
                    ..s.metrics
                },
                ..s
            }
        } else if frame.message_type == MessageType::Data {
            let m = ServerRuntimeMetrics { data_sent: bumped(s.metrics.data_sent), ..s.metrics };
            match (sent_id(frame.payload), s.ids) {
                (Some(id), Some(ids)) => Sent {
                    metrics: if ids.contains(id) {
                        ServerRuntimeMetrics {
                            data_retransmit_inferred: bumped(m.data_retransmit_inferred),
                            ..m
                        }
                    } else {
                        m
                    },
                    ids: Some(ids.insert(id)),
                },
                _ => Sent { metrics: m, ..s },
            }
        } else {
            s
        },
    }
}

/// After some datagrams were sent.
pub open spec fn datagrams_counted(s: Sent, datagrams: Seq<DatagramView>) -> Sent
    decreases datagrams.len(),
{
    if datagrams.len() == 0 {
        s
    } else {
        datagram_counted(datagrams_counted(s, datagrams.drop_last()), datagrams.last().bytes)
    }
}

/// The runtime after the datagrams of a session were sent.
pub open spec fn sent_on(v: ServerView, cid: u64, datagrams: Seq<DatagramView>) -> ServerView {
    let start = Sent {
        metrics: v.metrics,
        ids: if v.sessions.contains_key(cid) {
            Some(v.sessions[cid].sent_data_ids)
        } else {
            None
        },
    };
    let after = datagrams_counted(start, datagrams);
    ServerView {
        sessions: if v.sessions.contains_key(cid) {
            v.sessions.insert(
                cid,
                SessionView { sent_data_ids: after.ids->0, ..v.sessions[cid] },
            )
        } else {
            v.sessions
        },
        metrics: after.metrics,
        ..v
    }
}

/// What the runtime makes of a machine's output before it goes to the store.
pub open spec fn taken_in(v: ServerView, cid: u64, src_path_id: u32, out: OutputView) -> ServerView {
    sent_on(
        ServerView {
            timers: timers_set(v.timers, cid, out.timer_actions),
            metrics: events_counted(v.metrics, out.events),
            ..v
        },
        cid,
        all_routed(out.outbound_datagrams, src_path_id),
    )
}

/// What the runtime hands back of a machine's output.
pub open spec fn handed_back(cid: u64, src_path_id: u32, out: OutputView) -> ServerOutputView {
    ServerOutputView {
        outbound_datagrams: all_routed(out.outbound_datagrams, src_path_id),
        events: all_reported(cid, out.events),
    }
}

/// The record that is kept of a session.
pub open spec fn snapshot(cfg: CoreConfig, cid: u64, session: SessionView) -> RecordView {
    RecordView {
        cid,
        peer_id: session.peer_id,
        negotiated_msr_interval_ms: cfg.msr_interval_ms,
        disconnect_window_ms: cfg.disconnect_window_ms,
        last_ordered_rx: session.core.last_ordered_rx,
        last_ordered_tx: 0,
    }
}

/// After the store was told to forget a lost session.
pub open spec fn forgotten(v: ServerView, cid: u64, delete: Result<(), StoreErrorView>) -> (
    ServerView,
    Option<ServerErrorView>,
) {
    let m = ServerRuntimeMetrics {
        store_delete_calls: bumped(v.metrics.store_delete_calls),
        store_delete_failures: if delete is Err {
            bumped(v.metrics.store_delete_failures)
        } else {
            v.metrics.store_delete_failures
        },
        ..v.metrics
    };
    match delete {
        Err(e) => (
            ServerView { sessions: v.sessions.remove(cid), metrics: m, ..v },
            Some(ServerErrorView::Store(e)),
        ),
        Ok(_) => (
            ServerView {
                sessions: v.sessions.remove(cid),
                metrics: disconnect_counted(m),
                ..v
            },
            None,
        ),
    }
}

/// After the store was given a session's record.
pub open spec fn kept(
    v: ServerView,
    upsert: Result<EntryView, StoreErrorView>,
    upsert_us: u64,
) -> (ServerView, Option<ServerErrorView>) {
    let m = ServerRuntimeMetrics {
        store_upsert_calls: bumped(v.metrics.store_upsert_calls),
        store_upsert_latency_us_total: codec::saturating_sum(
            v.metrics.store_upsert_latency_us_total,
            upsert_us,
        ),
        store_upsert_failures: if upsert is Err {
            bumped(v.metrics.store_upsert_failures)
        } else {
            v.metrics.store_upsert_failures
        },
        ..v.metrics
    };
    (
        ServerView { metrics: m, ..v },
        match upsert {
            Err(e) => Some(ServerErrorView::Store(e)),
            Ok(_) => None,
        },
    )
}

/// A session goes to the store: a lost one is forgotten, another is kept.
pub open spec fn stored(v: ServerView, cid: u64, a: Answers) -> (
    ServerView,
    Option<ServerErrorView>,
) {
    if !v.sessions.contains_key(cid) {
        (v, None)
    } else if v.sessions[cid].core.state == LifecycleState::Lost {
        forgotten(v, cid, a.delete)
    } else {
        kept(v, a.upsert, a.upsert_us)
    }
}

/// The calls on the store with which a session goes there.
pub open spec fn store_calls(v: ServerView, cid: u64, now_ms: u64, a: Answers) -> Seq<StoreCall> {
    if !v.sessions.contains_key(cid) {
        Seq::empty()
    } else if v.sessions[cid].core.state == LifecycleState::Lost {
        seq![StoreCall::Delete { cid, reply: a.delete }]
    } else {
        seq![
            StoreCall::Upsert {
                cid,
                record: snapshot(v.cfg, cid, v.sessions[cid]),
                ttl_ms: v.cfg.disconnect_window_ms,
                now_ms,
                reply: a.upsert,
            },
        ]
    }
}

/// What comes of a machine's output.
pub open spec fn applied(
    v: ServerView,
    cid: u64,
    src_path_id: u32,
    now_ms: u64,
    out: OutputView,
    a: Answers,
) -> Served {
    let v1 = taken_in(v, cid, src_path_id, out);
    let (v2, error) = stored(v1, cid, a);
    Served {
        runtime: v2,
        calls: store_calls(v1, cid, now_ms, a),
        result: match error {
            Some(e) => Err(e),
            None => Ok(handed_back(cid, src_path_id, out)),
        },
    }
}

/// The runtime after a session's machine has moved on.
pub open spec fn moved(v: ServerView, cid: u64, core: MachineView) -> ServerView {
    ServerView {
        sessions: v.sessions.insert(cid, SessionView { core, ..v.sessions[cid] }),
        ..v
    }
}

/// What comes of a step of a session's machine.
pub open spec fn stepped(
    v: ServerView,
    cid: u64,
    src_path_id: u32,
    now_ms: u64,
    step: Step,
    a: Answers,
) -> Served {
    let v1 = moved(v, cid, step.machine);
    match step.error {
        Some(e) => Served {
            runtime: v1,
            calls: Seq::empty(),
            result: Err(ServerErrorView::Core(e)),
        },
        None => applied(v1, cid, src_path_id, now_ms, step.out, a),
    }
}

/// That a new session's deadlines can be told.
pub open spec fn clock_fits(cfg: CoreConfig, now_ms: u64, message_type: MessageType) -> bool {
    &&& now_ms + cfg.disconnect_window_ms <= u64::MAX
    &&& message_type == MessageType::ClientHello || message_type == MessageType::HelloAck ==> now_ms
        + cfg.msr_interval_ms <= u64::MAX
}

/// The event that tells that a session's datagram came on the path it is bound to.
pub open spec fn binding(session: SessionView, cid: u64, src_path_id: u32) -> Seq<RuntimeEventView> {
    match (session.bound_vhost, session.selected_path_id) {
        (Some(vhost), Some(path)) => if path == src_path_id {
            seq![RuntimeEventView::VhostPathBound { cid, vhost, path_id: src_path_id }]
        } else {
            Seq::empty()
        },
        _ => Seq::empty(),
    }
}

/// What comes of a session's datagram; `known` is whether the session was there
/// before.
pub open spec fn session_served(
    v: ServerView,
    cid: u64,
    known: bool,
    message_type: MessageType,
    now_ms: u64,
    src_path_id: u32,
    bytes: Seq<u8>,
    a: Answers,
) -> Served {
    if !known && !clock_fits(v.sessions[cid].core.cfg, now_ms, message_type) {
        Served {
            runtime: v,
            calls: Seq::empty(),
            result: Err(ServerErrorView::ClockOverflow),
        }
    } else {
        let before = binding(v.sessions[cid], cid, src_path_id);
        let step = model::datagram_step(v.sessions[cid].core, now_ms, src_path_id, bytes);
        let served = stepped(v, cid, src_path_id, now_ms, step, a);
        Served {
            result: match served.result {
                Err(e) => Err(e),
                Ok(out) => Ok(ServerOutputView { events: before + out.events, ..out }),
            },
            ..served
        }
    }
}

/// What comes of a datagram.
pub open spec fn datagram_served(
    v: ServerView,
    now_ms: u64,
    src_path_id: u32,
    bytes: Seq<u8>,
    a: Answers,
) -> Served {
    match wire::parse_frame(bytes) {
        Err(_) => Served {
            runtime: ServerView {
                metrics: ServerRuntimeMetrics {
                    parse_errors: bumped(v.metrics.parse_errors),
                    ..v.metrics
                },
                ..v
            },
            calls: Seq::empty(),
            result: Ok(
                ServerOutputView {
                    outbound_datagrams: Seq::empty(),
                    events: seq![RuntimeEventView::ParseError],
                },
            ),
        },
        Ok(frame) => {
            let cid = frame.cid;
            let (v1, error) = ensured(v, cid, src_path_id, a);
            let asked = load_calls(v, cid, now_ms, a.load);
            if error is Some {
                Served { runtime: v1, calls: asked, result: Err(error->0) }
            } else {
                let served = session_served(
                    v1,
                    cid,
                    v.sessions.contains_key(cid),
                    frame.message_type,
                    now_ms,
                    src_path_id,
                    bytes,
                    a,
                );
                Served { calls: asked + served.calls, ..served }
            }
        },
    }
}

/// That a datagram for a session that is there can be taken in.
pub open spec fn datagram_fits(v: ServerView, now_ms: u64, src_path_id: u32, bytes: Seq<u8>) -> bool {
    match wire::parse_frame(bytes) {
        Err(_) => true,
        Ok(frame) => v.sessions.contains_key(frame.cid) ==> model::datagram_fits(
            v.sessions[frame.cid].core,
            now_ms,
            src_path_id,
            bytes,
        ),
    }
}

/// What comes of a due timer.
pub open spec fn timer_served(
    v: ServerView,
    now_ms: u64,
    due: (u64, u64, TimerId),
    a: Answers,
) -> Served {
    let (deadline, cid, id) = due;
    let v1 = ServerView {
        timers: timers::without_timer(v.timers, deadline, (cid, id)),
        ..v
    };
    if !v1.sessions.contains_key(cid) {
        Served { runtime: v1, calls: Seq::empty(), result: Ok(ServerOutputView::empty()) }
    } else {
        stepped(v1, cid, 0, now_ms, model::timer_step(v1.sessions[cid].core, now_ms, id), a)
    }
}

/// What comes of due timers, one after the other up to the first failure.
pub open spec fn polled(
    v: ServerView,
    now_ms: u64,
    due: Seq<(u64, u64, TimerId)>,
    answers: Seq<Answers>,
) -> Served
    decreases due.len(),
{
    if due.len() == 0 {
        Served { runtime: v, calls: Seq::empty(), result: Ok(ServerOutputView::empty()) }
    } else {
        let before = polled(v, now_ms, due.drop_last(), answers.drop_last());
        match before.result {
            Err(_) => before,
            Ok(out) => {
                let next = timer_served(before.runtime, now_ms, due.last(), answers.last());
                Served {
                    runtime: next.runtime,
                    calls: before.calls + next.calls,
                    result: match next.result {
                        Err(e) => Err(e),
                        Ok(more) => Ok(out.plus(more)),
                    },
                }
            },
        }
    }
}

/// The machines of the sessions.
pub open spec fn cores(v: ServerView) -> Map<u64, MachineView> {
    v.sessions.map_values(|s: SessionView| s.core)
}

/// That the machines can take all due timers in.
pub open spec fn poll_fits(
    cores: Map<u64, MachineView>,
    now_ms: u64,
    due: Seq<(u64, u64, TimerId)>,
) -> bool
    decreases due.len(),
{
    due.len() == 0 || {
        let (deadline, cid, id) = due[0];
        if !cores.contains_key(cid) {
            poll_fits(cores, now_ms, due.skip(1))
        } else {
            let step = model::timer_step(cores[cid], now_ms, id);
            &&& model::timer_fits(cores[cid], now_ms, id)
            &&& step.error is None ==> poll_fits(
                if step.machine.state == LifecycleState::Lost {
                    cores.remove(cid)
                } else {
                    cores.insert(cid, step.machine)
                },
                now_ms,
                due.skip(1),
            )
        }
    }
}

/// What comes of a message to send.
pub open spec fn message_served(
    v: ServerView,
    cid: u64,
    payload: Seq<u8>,
    now_ms: u64,
    a: Answers,
) -> Served {
    if !v.sessions.contains_key(cid) {
        Served { runtime: v, calls: Seq::empty(), result: Ok(ServerOutputView::empty()) }
    } else {
        stepped(v, cid, 0, now_ms, model::send_step(v.sessions[cid].core, payload), a)
    }
}

} // verus!
