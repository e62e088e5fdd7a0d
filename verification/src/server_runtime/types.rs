//! What a server runtime reports, counts and fails with.

use std::collections::HashSet;

use vstd::prelude::*;

use crate::session::machine::CoreMachine;
use crate::session::model::MachineView;
use crate::session::types;
use crate::session::types::{CoreError, DatagramView, Event, EventView, OutboundDatagram};
use crate::store::types::{StoreError, StoreErrorView};
use crate::text::joined_text;
use crate::traversal::TurnAction;
use crate::wire::WireError;

verus! {

#[derive(Debug, Clone, PartialEq, Eq)]
pub enum RuntimeEvent {
    ParseError,
    CoreEvent { cid: u64, event: Event },
    NatPairNominated { cid: u64, local_index: usize, remote_index: usize },
    TurnAction { cid: u64, action: TurnAction },
    VhostPathBound { cid: u64, vhost: String, path_id: u32 },
    MessageReceived { cid: u64, msg_id: u64, payload_b64: String },
}

/// What a [`RuntimeEvent`] says.
#[verifier::ext_equal]
pub enum RuntimeEventView {
    ParseError,
    CoreEvent { cid: u64, event: EventView },
    NatPairNominated { cid: u64, local_index: usize, remote_index: usize },
    TurnAction { cid: u64, action: TurnAction },
    VhostPathBound { cid: u64, vhost: Seq<char>, path_id: u32 },
    MessageReceived { cid: u64, msg_id: u64, payload_b64: Seq<char> },
}

impl View for RuntimeEvent {
    type V = RuntimeEventView;

    open spec fn view(&self) -> RuntimeEventView {
        match *self {
            RuntimeEvent::ParseError => RuntimeEventView::ParseError,
            RuntimeEvent::CoreEvent { cid, event } => RuntimeEventView::CoreEvent {
                cid,
                event: event@,
            },
            RuntimeEvent::NatPairNominated { cid, local_index, remote_index } =>
                RuntimeEventView::NatPairNominated { cid, local_index, remote_index },
            RuntimeEvent::TurnAction { cid, action } => RuntimeEventView::TurnAction {
                cid,
                action,
            },
            RuntimeEvent::VhostPathBound { cid, vhost, path_id } =>
                RuntimeEventView::VhostPathBound { cid, vhost: vhost@, path_id },
            RuntimeEvent::MessageReceived { cid, msg_id, payload_b64 } =>
                RuntimeEventView::MessageReceived { cid, msg_id, payload_b64: payload_b64@ },
        }
    }
}

#[derive(Debug, Clone, PartialEq, Eq)]
pub struct ServerRuntimeOutput {
    pub outbound_datagrams: Vec<OutboundDatagram>,
    pub events: Vec<RuntimeEvent>,
}

/// What a [`ServerRuntimeOutput`] says.
#[verifier::ext_equal]
pub struct ServerOutputView {
    pub outbound_datagrams: Seq<DatagramView>,
    pub events: Seq<RuntimeEventView>,
}

pub open spec fn runtime_event_views(events: Seq<RuntimeEvent>) -> Seq<RuntimeEventView> {
    events.map_values(|e: RuntimeEvent| e@)
}

impl View for ServerRuntimeOutput {
    type V = ServerOutputView;

    open spec fn view(&self) -> ServerOutputView {
        ServerOutputView {
            outbound_datagrams: types::datagram_views(self.outbound_datagrams@),
            events: runtime_event_views(self.events@),
        }
    }
}

impl ServerOutputView {
    pub open spec fn empty() -> ServerOutputView {
        ServerOutputView { outbound_datagrams: Seq::empty(), events: Seq::empty() }
    }

    pub open spec fn plus(self, more: ServerOutputView) -> ServerOutputView {
        ServerOutputView {
            outbound_datagrams: self.outbound_datagrams + more.outbound_datagrams,
            events: self.events + more.events,
        }
    }
}

impl ServerRuntimeOutput {
    pub fn empty() -> (out: ServerRuntimeOutput)
        ensures
            out@ == ServerOutputView::empty(),
    {
        let out = ServerRuntimeOutput { outbound_datagrams: Vec::new(), events: Vec::new() };
        assert(out@ =~= ServerOutputView::empty());
        out
    }

    /// Puts another output behind this one.
    pub fn append(&mut self, more: ServerRuntimeOutput)
        ensures
            final(self)@ == old(self)@.plus(more@),
    {
        let mut datagrams = more.outbound_datagrams;
        let mut events = more.events;
        self.outbound_datagrams.append(&mut datagrams);
        self.events.append(&mut events);
        assert(self@ =~= old(self)@.plus(more@));
    }
}

/// One session: its machine, who is at the other end, where it is bound to, and
/// the messages that were sent on it.
pub struct SessionRuntime {
    pub core: CoreMachine,
    pub peer_id: String,
    pub bound_vhost: Option<String>,
    pub selected_path_id: Option<u32>,
    pub sent_data_ids: HashSet<u64>,
}

/// What a [`SessionRuntime`] is at.
#[verifier::ext_equal]
pub struct SessionView {
    pub core: MachineView,
    pub peer_id: Seq<char>,
    pub bound_vhost: Option<Seq<char>>,
    pub selected_path_id: Option<u32>,
    pub sent_data_ids: Set<u64>,
}

impl View for SessionRuntime {
    type V = SessionView;

    open spec fn view(&self) -> SessionView {
        SessionView {
            core: self.core@,
            peer_id: self.peer_id@,
            bound_vhost: match self.bound_vhost {
                Some(vhost) => Some(vhost@),
                None => None,
            },
            selected_path_id: self.selected_path_id,
            sent_data_ids: self.sent_data_ids@,
        }
    }
}

#[derive(Debug, Clone, Copy, PartialEq, Eq, Structural)]
pub struct ServerRuntimeMetrics {
    pub parse_errors: u64,
    pub handshake_started: u64,
    pub handshake_established: u64,
    pub reactivated: u64,
    pub disconnected: u64,
    pub disconnect_reason_unknown: u64,
    pub msr_sent: u64,
    pub msr_probe_sent: u64,
    pub msr_missed_inferred: u64,
    pub request_range_sent: u64,
    pub data_sent: u64,
    pub data_retransmit_inferred: u64,
    pub ice_candidate_selected: u64,
    pub turn_actions: u64,
    pub turn_retry_actions: u64,
    pub turn_mark_failed_actions: u64,
    pub turn_alloc_actions: u64,
    pub turn_refresh_actions: u64,
    pub turn_permission_actions: u64,
    pub turn_channel_bind_actions: u64,
    pub store_load_calls: u64,
    pub store_load_failures: u64,
    pub store_load_latency_us_total: u64,
    pub store_upsert_calls: u64,
    pub store_upsert_failures: u64,
    pub store_upsert_latency_us_total: u64,
    pub store_delete_calls: u64,
    pub store_delete_failures: u64,
    pub peak_sessions: u64,
}

impl ServerRuntimeMetrics {
    pub open spec fn zero() -> ServerRuntimeMetrics {
        ServerRuntimeMetrics {
            parse_errors: 0,
            handshake_started: 0,
            handshake_established: 0,
            reactivated: 0,
            disconnected: 0,
            disconnect_reason_unknown: 0,
            msr_sent: 0,
            msr_probe_sent: 0,
            msr_missed_inferred: 0,
            request_range_sent: 0,
            data_sent: 0,
            data_retransmit_inferred: 0,
            ice_candidate_selected: 0,
            turn_actions: 0,
            turn_retry_actions: 0,
            turn_mark_failed_actions: 0,
            turn_alloc_actions: 0,
            turn_refresh_actions: 0,
            turn_permission_actions: 0,
            turn_channel_bind_actions: 0,
            store_load_calls: 0,
            store_load_failures: 0,
            store_load_latency_us_total: 0,
            store_upsert_calls: 0,
            store_upsert_failures: 0,
            store_upsert_latency_us_total: 0,
            store_delete_calls: 0,
            store_delete_failures: 0,
            peak_sessions: 0,
        }
    }
}

impl Default for ServerRuntimeMetrics {
    fn default() -> (metrics: ServerRuntimeMetrics)
        ensures
            metrics == ServerRuntimeMetrics::zero(),
    {
        ServerRuntimeMetrics {
            parse_errors: 0,
            handshake_started: 0,
            handshake_established: 0,
            reactivated: 0,
            disconnected: 0,
            disconnect_reason_unknown: 0,
            msr_sent: 0,
            msr_probe_sent: 0,
            msr_missed_inferred: 0,
            request_range_sent: 0,
            data_sent: 0,
            data_retransmit_inferred: 0,
            ice_candidate_selected: 0,
            turn_actions: 0,
            turn_retry_actions: 0,
            turn_mark_failed_actions: 0,
            turn_alloc_actions: 0,
            turn_refresh_actions: 0,
            turn_permission_actions: 0,
            turn_channel_bind_actions: 0,
            store_load_calls: 0,
            store_load_failures: 0,
            store_load_latency_us_total: 0,
            store_upsert_calls: 0,
            store_upsert_failures: 0,
            store_upsert_latency_us_total: 0,
            store_delete_calls: 0,
            store_delete_failures: 0,
            peak_sessions: 0,
        }
    }
}

/// Why a call on a server runtime failed. `ClockOverflow` is a session whose
/// stored intervals reach beyond the last moment that can be told.
#[derive(Debug, Clone, PartialEq, Eq)]
pub enum ServerRuntimeError {
    Wire(WireError),
    Core(CoreError),
    Store(StoreError),
    ClockOverflow,
}

/// What a [`ServerRuntimeError`] says.
#[verifier::ext_equal]
pub enum ServerErrorView {
    Wire(WireError),
    Core(CoreError),
    Store(StoreErrorView),
    ClockOverflow,
}

impl View for ServerRuntimeError {
    type V = ServerErrorView;

    open spec fn view(&self) -> ServerErrorView {
        match *self {
            ServerRuntimeError::Wire(e) => ServerErrorView::Wire(e),
            ServerRuntimeError::Core(e) => ServerErrorView::Core(e),
            ServerRuntimeError::Store(e) => ServerErrorView::Store(e@),
            ServerRuntimeError::ClockOverflow => ServerErrorView::ClockOverflow,
        }
    }
}

impl ServerErrorView {
    /// What the error says to a reader.
    pub open spec fn text(self) -> Seq<char> {
        match self {
            ServerErrorView::Wire(e) => "wire error: "@ + e.text(),
            ServerErrorView::Core(e) => "core error: "@ + e.text(),
            ServerErrorView::Store(e) => "store error: "@ + e.text(),
            ServerErrorView::ClockOverflow => "clock overflow"@,
        }
    }
}

impl ServerRuntimeError {
    pub fn message(&self) -> (message: String)
        ensures
            message@ == self@.text(),
    {
        match self {
            ServerRuntimeError::Wire(e) => joined_text("wire error: ", e.message().as_str()),
            ServerRuntimeError::Core(e) => joined_text("core error: ", e.message().as_str()),
            ServerRuntimeError::Store(e) => joined_text("store error: ", e.message().as_str()),
            ServerRuntimeError::ClockOverflow => "clock overflow".to_string(),
        }
    }
}

} // verus!
