//! What goes into a session machine and what comes out of it.

use vstd::prelude::*;
use vstd::string::StringExecFns;

use crate::text;
use crate::text::{joined_text, push_digits, text_with_number};
use crate::wire::WireError;

verus! {

#[derive(Debug, Clone, Copy, PartialEq, Eq, Structural)]
pub enum Role {
    Client,
    Server,
}

#[derive(Debug, Clone, Copy, PartialEq, Eq, Structural)]
pub enum LifecycleState {
    PreHandshake,
    Established,
    Reactivating,
    Lost,
}

#[derive(Debug, Clone, Copy, PartialEq, Eq, Structural)]
pub enum TimerId {
    ServerMsr,
    ClientProbe,
    Disconnect,
    RenegotiationTimeout,
}

#[derive(Debug, Clone, Copy, PartialEq, Eq, Structural)]
pub enum PathEvent {
    PathChanged { path_id: u32 },
}

#[derive(Debug, Clone, PartialEq, Eq)]
pub struct OutboundDatagram {
    pub path_id: u32,
    pub bytes: Vec<u8>,
}

/// What an [`OutboundDatagram`] says.
#[verifier::ext_equal]
pub struct DatagramView {
    pub path_id: u32,
    pub bytes: Seq<u8>,
}

impl View for OutboundDatagram {
    type V = DatagramView;

    open spec fn view(&self) -> DatagramView {
        DatagramView { path_id: self.path_id, bytes: self.bytes@ }
    }
}

#[derive(Debug, PartialEq, Eq)]
pub enum Event {
    HandshakeStarted,
    HandshakeEstablished,
    ReactivationProbeSent,
    Reactivated,
    Disconnected,
    QueueAdvertised { next_pending_id: u64 },
    RequestRangeSent { start: u64, end: u64 },
    MessageDelivered { msg_id: u64 },
    MessageReceived { msg_id: u64, payload: Vec<u8> },
    TimerRenegotiationProposed { proposal_id: u32 },
    TimerRenegotiationCommitted { proposal_id: u32 },
    TimerRenegotiationRejected { proposal_id: u32 },
    TimerRenegotiationRolledBack { proposal_id: u32 },
    ParseError,
}

/// What an [`Event`] says.
#[verifier::ext_equal]
pub enum EventView {
    HandshakeStarted,
    HandshakeEstablished,
    ReactivationProbeSent,
    Reactivated,
    Disconnected,
    QueueAdvertised { next_pending_id: u64 },
    RequestRangeSent { start: u64, end: u64 },
    MessageDelivered { msg_id: u64 },
    MessageReceived { msg_id: u64, payload: Seq<u8> },
    TimerRenegotiationProposed { proposal_id: u32 },
    TimerRenegotiationCommitted { proposal_id: u32 },
    TimerRenegotiationRejected { proposal_id: u32 },
    TimerRenegotiationRolledBack { proposal_id: u32 },
    ParseError,
}

impl Clone for Event {
    fn clone(&self) -> (copy: Event)
        ensures
            copy@ == self@,
    {
        match self {
            Event::HandshakeStarted => Event::HandshakeStarted,
            Event::HandshakeEstablished => Event::HandshakeEstablished,
            Event::ReactivationProbeSent => Event::ReactivationProbeSent,
            Event::Reactivated => Event::Reactivated,
            Event::Disconnected => Event::Disconnected,
            Event::QueueAdvertised { next_pending_id } => Event::QueueAdvertised {
                next_pending_id: *next_pending_id,
            },
            Event::RequestRangeSent { start, end } => Event::RequestRangeSent {
                start: *start,
                end: *end,
            },
            Event::MessageDelivered { msg_id } => Event::MessageDelivered { msg_id: *msg_id },
            Event::MessageReceived { msg_id, payload } => Event::MessageReceived {
                msg_id: *msg_id,
                payload: vstd::slice::slice_to_vec(payload.as_slice()),
            },
            Event::TimerRenegotiationProposed { proposal_id } =>
                Event::TimerRenegotiationProposed { proposal_id: *proposal_id },
            Event::TimerRenegotiationCommitted { proposal_id } =>
                Event::TimerRenegotiationCommitted { proposal_id: *proposal_id },
            Event::TimerRenegotiationRejected { proposal_id } =>
                Event::TimerRenegotiationRejected { proposal_id: *proposal_id },
            Event::TimerRenegotiationRolledBack { proposal_id } =>
                Event::TimerRenegotiationRolledBack { proposal_id: *proposal_id },
            Event::ParseError => Event::ParseError,
        }
    }
}

impl View for Event {
    type V = EventView;

    open spec fn view(&self) -> EventView {
        match *self {
            Event::HandshakeStarted => EventView::HandshakeStarted,
            Event::HandshakeEstablished => EventView::HandshakeEstablished,
            Event::ReactivationProbeSent => EventView::ReactivationProbeSent,
            Event::Reactivated => EventView::Reactivated,
            Event::Disconnected => EventView::Disconnected,
            Event::QueueAdvertised { next_pending_id } => EventView::QueueAdvertised {
                next_pending_id,
            },
            Event::RequestRangeSent { start, end } => EventView::RequestRangeSent { start, end },
            Event::MessageDelivered { msg_id } => EventView::MessageDelivered { msg_id },
            Event::MessageReceived { msg_id, payload } => EventView::MessageReceived {
                msg_id,
                payload: payload@,
            },
            Event::TimerRenegotiationProposed { proposal_id } =>
                EventView::TimerRenegotiationProposed { proposal_id },
            Event::TimerRenegotiationCommitted { proposal_id } =>
                EventView::TimerRenegotiationCommitted { proposal_id },
            Event::TimerRenegotiationRejected { proposal_id } =>
                EventView::TimerRenegotiationRejected { proposal_id },
            Event::TimerRenegotiationRolledBack { proposal_id } =>
                EventView::TimerRenegotiationRolledBack { proposal_id },
            Event::ParseError => EventView::ParseError,
        }
    }
}

#[derive(Debug, Clone, Copy, PartialEq, Eq, Structural)]
pub enum TimerAction {
    Schedule { id: TimerId, deadline_ms: u64 },
}

/// Everything one step of a machine asks its surroundings to do.
#[derive(Debug, Clone, PartialEq, Eq)]
pub struct CoreOutput {
    pub outbound_datagrams: Vec<OutboundDatagram>,
    pub events: Vec<Event>,
    pub timer_actions: Vec<TimerAction>,
}

/// What a [`CoreOutput`] says.
#[verifier::ext_equal]
pub struct OutputView {
    pub outbound_datagrams: Seq<DatagramView>,
    pub events: Seq<EventView>,
    pub timer_actions: Seq<TimerAction>,
}

/// The datagrams that a list of [`OutboundDatagram`] stands for.
pub open spec fn datagram_views(datagrams: Seq<OutboundDatagram>) -> Seq<DatagramView> {
    datagrams.map_values(|d: OutboundDatagram| d@)
}

/// The events that a list of [`Event`] stands for.
pub open spec fn event_views(events: Seq<Event>) -> Seq<EventView> {
    events.map_values(|e: Event| e@)
}

impl View for CoreOutput {
    type V = OutputView;

    open spec fn view(&self) -> OutputView {
        OutputView {
            outbound_datagrams: datagram_views(self.outbound_datagrams@),
            events: event_views(self.events@),
            timer_actions: self.timer_actions@,
        }
    }
}

impl OutputView {
    pub open spec fn empty() -> OutputView {
        OutputView {
            outbound_datagrams: Seq::empty(),
            events: Seq::empty(),
            timer_actions: Seq::empty(),
        }
    }

    /// One more datagram.
    pub open spec fn send(self, path_id: u32, bytes: Seq<u8>) -> OutputView {
        OutputView {
            outbound_datagrams: self.outbound_datagrams.push(DatagramView { path_id, bytes }),
            ..self
        }
    }

    /// One more event.
    pub open spec fn emit(self, event: EventView) -> OutputView {
        OutputView { events: self.events.push(event), ..self }
    }

    /// One more timer.
    pub open spec fn schedule(self, id: TimerId, deadline_ms: u64) -> OutputView {
        OutputView {
            timer_actions: self.timer_actions.push(TimerAction::Schedule { id, deadline_ms }),
            ..self
        }
    }
}

impl Default for CoreOutput {
    fn default() -> (out: CoreOutput)
        ensures
            out@ == OutputView::empty(),
    {
        let out = CoreOutput {
            outbound_datagrams: Vec::new(),
            events: Vec::new(),
            timer_actions: Vec::new(),
        };
        assert(out@ =~= OutputView::empty());
        out
    }
}

impl CoreOutput {
    pub(crate) fn push_datagram(&mut self, path_id: u32, bytes: Vec<u8>)
        ensures
            final(self)@ == old(self)@.send(path_id, bytes@),
    {
        self.outbound_datagrams.push(OutboundDatagram { path_id, bytes });
        assert(self@ =~= old(self)@.send(path_id, bytes@));
    }

    pub(crate) fn push_event(&mut self, event: Event)
        ensures
            final(self)@ == old(self)@.emit(event@),
    {
        self.events.push(event);
        assert(self@ =~= old(self)@.emit(event@));
    }

    pub(crate) fn push_timer(&mut self, id: TimerId, deadline_ms: u64)
        ensures
            final(self)@ == old(self)@.schedule(id, deadline_ms),
    {
        self.timer_actions.push(TimerAction::Schedule { id, deadline_ms });
        assert(self@ =~= old(self)@.schedule(id, deadline_ms));
    }
}

#[derive(Debug, Clone, Copy)]
pub struct CoreConfig {
    pub msr_interval_ms: u64,
    pub miss_window_count: u64,
    pub disconnect_window_ms: u64,
}

impl Default for CoreConfig {
    fn default() -> (cfg: CoreConfig)
        ensures
            cfg == (CoreConfig {
                msr_interval_ms: 15_000,
                miss_window_count: 3,
                disconnect_window_ms: 180_000,
            }),
    {
        CoreConfig { msr_interval_ms: 15_000, miss_window_count: 3, disconnect_window_ms: 180_000 }
    }
}

#[derive(Debug, Clone, Copy, PartialEq, Eq, Structural)]
pub struct TimerProposal {
    pub msr_interval_ms: u64,
    pub miss_window_count: u64,
    pub disconnect_window_ms: u64,
}

impl TimerProposal {
    /// The configuration that the proposal asks for.
    pub open spec fn as_config(self) -> CoreConfig {
        CoreConfig {
            msr_interval_ms: self.msr_interval_ms,
            miss_window_count: self.miss_window_count,
            disconnect_window_ms: self.disconnect_window_ms,
        }
    }

    pub fn to_config(self) -> (cfg: CoreConfig)
        ensures
            cfg == self.as_config(),
    {
        CoreConfig {
            msr_interval_ms: self.msr_interval_ms,
            miss_window_count: self.miss_window_count,
            disconnect_window_ms: self.disconnect_window_ms,
        }
    }
}

/// A proposal that was sent and not answered yet.
#[derive(Debug, Clone, Copy)]
pub struct PendingRenegotiation {
    pub proposal_id: u32,
    pub proposal: TimerProposal,
    pub expires_at_ms: u64,
}

#[derive(Debug, Clone, Copy, PartialEq, Eq)]
pub enum CoreError {
    Wire(WireError),
    CidMismatch { expected: u64, got: u64 },
    MalformedMsr,
    MalformedRequestRange,
    MalformedData,
    InvalidStateForRenegotiation,
    InvalidTimerProposal(&'static str),
    MalformedTimerProposal,
    MalformedTimerAck,
}

impl CoreError {
    /// What the error says to a reader.
    pub open spec fn text(self) -> Seq<char> {
        match self {
            CoreError::Wire(e) => "wire error: "@ + e.text(),
            CoreError::CidMismatch { expected, got } => "cid mismatch expected="@ + text::decimal(
                expected as nat,
            ) + " got="@ + text::decimal(got as nat),
            CoreError::MalformedMsr => "malformed MSR payload"@,
            CoreError::MalformedRequestRange => "malformed request range payload"@,
            CoreError::MalformedData => "malformed data payload"@,
            CoreError::InvalidStateForRenegotiation => "invalid state for renegotiation"@,
            CoreError::InvalidTimerProposal(reason) => "invalid timer proposal: "@ + reason@,
            CoreError::MalformedTimerProposal => "malformed timer proposal tlv"@,
            CoreError::MalformedTimerAck => "malformed timer ack tlv"@,
        }
    }

    pub fn message(&self) -> (message: String)
        ensures
            message@ == self.text(),
    {
        match *self {
            CoreError::Wire(e) => joined_text("wire error: ", e.message().as_str()),
            CoreError::CidMismatch { expected, got } => {
                let mut out = text_with_number("cid mismatch expected=", expected);
                out.append(" got=");
                push_digits(&mut out, got, 10);
                out
            },
            CoreError::MalformedMsr => "malformed MSR payload".to_string(),
            CoreError::MalformedRequestRange => "malformed request range payload".to_string(),
            CoreError::MalformedData => "malformed data payload".to_string(),
            CoreError::InvalidStateForRenegotiation =>
                "invalid state for renegotiation".to_string(),
            CoreError::InvalidTimerProposal(reason) => joined_text(
                "invalid timer proposal: ",
                reason,
            ),
            CoreError::MalformedTimerProposal => "malformed timer proposal tlv".to_string(),
            CoreError::MalformedTimerAck => "malformed timer ack tlv".to_string(),
        }
    }
}

} // verus!
