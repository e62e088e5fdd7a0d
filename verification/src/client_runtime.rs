//! Deterministic client runtime adapter around the session machine: keeps the
//! timers it asks for, counts what happens and holds the candidates.

use vstd::prelude::*;

use crate::json::JsonValue;
use crate::session::machine;
use crate::session::machine::CoreMachine;
use crate::session::model;
use crate::session::model::{MachineView, Step};
use crate::session::types;
use crate::session::types::{
    CoreConfig, CoreError, CoreOutput, DatagramView, Event, EventView, LifecycleState,
    OutboundDatagram, OutputView, PathEvent, Role, TimerAction, TimerId, TimerProposal,
};
use crate::text::{joined_text, same_text};
use crate::timers;
use crate::timers::TimerQueue;
use crate::traversal;
use crate::traversal::{
    CandidateType, CandidateView, ConsentAction, IceCandidate, IpAddress, RelayPolicy, TurnAction,
};
use crate::wire;
use crate::wire::{MessageType, WireFrame};

verus! {

#[derive(Debug, Clone, PartialEq, Eq)]
pub enum ClientRuntimeEvent {
    Core(Event),
    NatPairNominated { local_index: usize, remote_index: usize, path_id: u32 },
    TurnAction(TurnAction),
    ConsentAction(ConsentAction),
}

/// What a [`ClientRuntimeEvent`] says.
#[verifier::ext_equal]
pub enum ClientEventView {
    Core(EventView),
    NatPairNominated { local_index: usize, remote_index: usize, path_id: u32 },
    TurnAction(TurnAction),
    ConsentAction(ConsentAction),
}

impl View for ClientRuntimeEvent {
    type V = ClientEventView;

    open spec fn view(&self) -> ClientEventView {
        match *self {
            ClientRuntimeEvent::Core(event) => ClientEventView::Core(event@),
            ClientRuntimeEvent::NatPairNominated { local_index, remote_index, path_id } =>
                ClientEventView::NatPairNominated { local_index, remote_index, path_id },
            ClientRuntimeEvent::TurnAction(action) => ClientEventView::TurnAction(action),
            ClientRuntimeEvent::ConsentAction(action) => ClientEventView::ConsentAction(action),
        }
    }
}

#[derive(Debug, Clone, PartialEq, Eq)]
pub struct ClientRuntimeOutput {
    pub outbound_datagrams: Vec<OutboundDatagram>,
    pub events: Vec<ClientRuntimeEvent>,
}

/// What a [`ClientRuntimeOutput`] says.
#[verifier::ext_equal]
pub struct ClientOutputView {
    pub outbound_datagrams: Seq<DatagramView>,
    pub events: Seq<ClientEventView>,
}

pub open spec fn client_event_views(events: Seq<ClientRuntimeEvent>) -> Seq<ClientEventView> {
    events.map_values(|e: ClientRuntimeEvent| e@)
}

impl View for ClientRuntimeOutput {
    type V = ClientOutputView;

    open spec fn view(&self) -> ClientOutputView {
        ClientOutputView {
            outbound_datagrams: types::datagram_views(self.outbound_datagrams@),
            events: client_event_views(self.events@),
        }
    }
}

impl ClientOutputView {
    pub open spec fn empty() -> ClientOutputView {
        ClientOutputView { outbound_datagrams: Seq::empty(), events: Seq::empty() }
    }

    pub open spec fn plus(self, more: ClientOutputView) -> ClientOutputView {
        ClientOutputView {
            outbound_datagrams: self.outbound_datagrams + more.outbound_datagrams,
            events: self.events + more.events,
        }
    }
}

#[derive(Debug, Clone, Copy, PartialEq, Eq, Structural)]
pub struct ClientRuntimeMetrics {
    pub handshake_started: u64,
    pub handshake_established: u64,
    pub reactivation_probe_sent: u64,
    pub reactivated: u64,
    pub disconnected: u64,
    pub msr_sent: u64,
    pub nat_pair_nominated: u64,
    pub turn_actions: u64,
    pub consent_actions: u64,
}

impl ClientRuntimeMetrics {
    pub open spec fn zero() -> ClientRuntimeMetrics {
        ClientRuntimeMetrics {
            handshake_started: 0,
            handshake_established: 0,
            reactivation_probe_sent: 0,
            reactivated: 0,
            disconnected: 0,
            msr_sent: 0,
            nat_pair_nominated: 0,
            turn_actions: 0,
            consent_actions: 0,
        }
    }
}

impl Default for ClientRuntimeMetrics {
    fn default() -> (metrics: ClientRuntimeMetrics)
        ensures
            metrics == ClientRuntimeMetrics::zero(),
    {
        ClientRuntimeMetrics {
            handshake_started: 0,
            handshake_established: 0,
            reactivation_probe_sent: 0,
            reactivated: 0,
            disconnected: 0,
            msr_sent: 0,
            nat_pair_nominated: 0,
            turn_actions: 0,
            consent_actions: 0,
        }
    }
}

#[derive(Debug, Clone, Copy, PartialEq, Eq)]
pub enum ClientRuntimeError {
    Core(CoreError),
    InvalidCandidatePayload,
}

impl ClientRuntimeError {
    /// What the error says to a reader.
    pub open spec fn text(self) -> Seq<char> {
        match self {
            ClientRuntimeError::Core(e) => "core error: "@ + e.text(),
            ClientRuntimeError::InvalidCandidatePayload => "invalid candidate payload"@,
        }
    }

    pub fn message(&self) -> (message: String)
        ensures
            message@ == self.text(),
    {
        match self {
            ClientRuntimeError::Core(e) => joined_text("core error: ", e.message().as_str()),
            ClientRuntimeError::InvalidCandidatePayload => "invalid candidate payload".to_string(),
        }
    }
}

#[derive(Debug)]
pub struct ClientRuntime {
    pub core: CoreMachine,
    pub timers: TimerQueue,
    pub local_candidates: Vec<IceCandidate>,
    pub remote_candidates: Vec<IceCandidate>,
    pub metrics: ClientRuntimeMetrics,
}

/// What a [`ClientRuntime`] holds.
#[verifier::ext_equal]
pub struct ClientView {
    pub core: MachineView,
    pub timers: Map<u64, Seq<(u64, TimerId)>>,
    pub local_candidates: Seq<CandidateView>,
    pub remote_candidates: Seq<CandidateView>,
    pub metrics: ClientRuntimeMetrics,
}

impl View for ClientRuntime {
    type V = ClientView;

    open spec fn view(&self) -> ClientView {
        ClientView {
            core: self.core@,
            timers: self.timers@,
            local_candidates: traversal::candidate_views(self.local_candidates@),
            remote_candidates: traversal::candidate_views(self.remote_candidates@),
            metrics: self.metrics,
        }
    }
}

/// One more, held at the largest number.
pub open spec fn bumped(n: u64) -> u64 {
    if n == u64::MAX {
        n
    } else {
        (n + 1) as u64
    }
}

/// Whether a datagram is a frame of the given type.
pub open spec fn is_frame_of(bytes: Seq<u8>, message_type: MessageType) -> bool {
    wire::parse_frame(bytes) matches Ok(frame) && frame.message_type == message_type
}

/// The count of MSRs after some datagrams.
pub open spec fn msrs_counted(count: u64, datagrams: Seq<DatagramView>) -> u64
    decreases datagrams.len(),
{
    if datagrams.len() == 0 {
        count
    } else {
        let before = msrs_counted(count, datagrams.drop_last());
        if is_frame_of(datagrams.last().bytes, MessageType::Msr) {
            bumped(before)
        } else {
            before
        }
    }
}

/// The counts after an event.
pub open spec fn event_counted(m: ClientRuntimeMetrics, event: EventView) -> ClientRuntimeMetrics {
    match event {
        EventView::HandshakeStarted => ClientRuntimeMetrics {
            handshake_started: bumped(m.handshake_started),
            ..m
        },
        EventView::HandshakeEstablished => ClientRuntimeMetrics {
            handshake_established: bumped(m.handshake_established),
            ..m
        },
        EventView::ReactivationProbeSent => ClientRuntimeMetrics {
            reactivation_probe_sent: bumped(m.reactivation_probe_sent),
            ..m
        },
        EventView::Reactivated => ClientRuntimeMetrics { reactivated: bumped(m.reactivated), ..m },
        EventView::Disconnected => ClientRuntimeMetrics {
            disconnected: bumped(m.disconnected),
            ..m
        },
        _ => m,
    }
}

/// The counts after some events.
pub open spec fn events_counted(m: ClientRuntimeMetrics, events: Seq<EventView>) -> ClientRuntimeMetrics
    decreases events.len(),
{
    if events.len() == 0 {
        m
    } else {
        event_counted(events_counted(m, events.drop_last()), events.last())
    }
}

/// The timers after some were asked for, each once per moment.
pub open spec fn timers_set(
    queue: Map<u64, Seq<(u64, TimerId)>>,
    actions: Seq<TimerAction>,
) -> Map<u64, Seq<(u64, TimerId)>>
    decreases actions.len(),
{
    if actions.len() == 0 {
        queue
    } else {
        let before = timers_set(queue, actions.drop_last());
        match actions.last() {
            TimerAction::Schedule { id, deadline_ms } => timers::with_timer_once(
                before,
                deadline_ms,
                (0, id),
            ),
        }
    }
}

/// The machine's events as the runtime's.
pub open spec fn core_events(events: Seq<EventView>) -> Seq<ClientEventView> {
    events.map_values(|e: EventView| ClientEventView::Core(e))
}

/// What the runtime makes of the machine's output.
pub open spec fn client_applied(v: ClientView, out: OutputView) -> (ClientView, ClientOutputView) {
    let counted = ClientRuntimeMetrics {
        msr_sent: msrs_counted(v.metrics.msr_sent, out.outbound_datagrams),
        ..v.metrics
    };
    (
        ClientView {
            timers: timers_set(v.timers, out.timer_actions),
            metrics: events_counted(counted, out.events),
            ..v
        },
        ClientOutputView {
            outbound_datagrams: out.outbound_datagrams,
            events: core_events(out.events),
        },
    )
}

/// What a step of the machine does to the runtime, and how the call comes out.
pub open spec fn client_step(v: ClientView, step: Step) -> (
    ClientView,
    Result<ClientOutputView, ClientRuntimeError>,
) {
    let v1 = ClientView { core: step.machine, ..v };
    match step.error {
        Some(e) => (v1, Err(ClientRuntimeError::Core(e))),
        None => (client_applied(v1, step.out).0, Ok(client_applied(v1, step.out).1)),
    }
}

/// The due timers, taken out and handed to the machine one after the other.
pub open spec fn client_polled(
    v: ClientView,
    now_ms: u64,
    due: Seq<(u64, u64, TimerId)>,
    out: ClientOutputView,
) -> (ClientView, Result<ClientOutputView, ClientRuntimeError>)
    decreases due.len(),
{
    if due.len() == 0 {
        (v, Ok(out))
    } else {
        let (deadline, owner, id) = due[0];
        let v1 = ClientView {
            timers: timers::without_timer(v.timers, deadline, (owner, id)),
            ..v
        };
        let (v2, result) = client_step(v1, model::timer_step(v1.core, now_ms, id));
        match result {
            Err(e) => (v2, Err(e)),
            Ok(more) => client_polled(v2, now_ms, due.skip(1), out.plus(more)),
        }
    }
}

/// That the machine can take all due timers in.
pub open spec fn poll_fits(v: ClientView, now_ms: u64, due: Seq<(u64, u64, TimerId)>) -> bool
    decreases due.len(),
{
    due.len() == 0 || {
        let (deadline, owner, id) = due[0];
        let v1 = ClientView {
            timers: timers::without_timer(v.timers, deadline, (owner, id)),
            ..v
        };
        &&& model::timer_fits(v1.core, now_ms, id)
        &&& poll_fits(
            client_step(v1, model::timer_step(v1.core, now_ms, id)).0,
            now_ms,
            due.skip(1),
        )
    }
}

/// That a call came out as `expected` says.
pub open spec fn client_agrees(
    result: Result<ClientRuntimeOutput, ClientRuntimeError>,
    expected: Result<ClientOutputView, ClientRuntimeError>,
) -> bool {
    match (result, expected) {
        (Ok(got), Ok(view)) => got@ == view,
        (Err(got), Err(e)) => got == e,
        _ => false,
    }
}

/// One candidate of a discovery reply, given the address that its text stands
/// for.
pub open spec fn discovered(c: JsonValue, address: Option<IpAddress>) -> Option<CandidateView> {
    if c.text_member("address"@) is None || c.number_member("port"@) is None || address is None {
        None
    } else {
        Some(
            CandidateView {
                foundation: match c.text_member("foundation"@) {
                    Some(t) => t,
                    None => "remote"@,
                },
                component: 1,
                transport: "udp"@,
                priority: (match c.number_member("priority"@) {
                    Some(n) => n % 0x1_0000_0000,
                    None => 100,
                }) as u32,
                address: address.unwrap(),
                port: (c.number_member("port"@).unwrap() % 0x1_0000) as u16,
                typ: match c.text_member("type"@) {
                    Some(t) => if t == "relay"@ {
                        CandidateType::Relay
                    } else if t == "srflx"@ {
                        CandidateType::Srflx
                    } else {
                        CandidateType::Host
                    },
                    None => CandidateType::Host,
                },
                related_address: None,
                related_port: None,
            },
        )
    }
}

/// The address for a place in a list, if there is one.
pub open spec fn address_at(addresses: Seq<Option<IpAddress>>, i: int) -> Option<IpAddress> {
    if 0 <= i < addresses.len() {
        addresses[i]
    } else {
        None
    }
}

/// That a discovery reply is complete: a list of candidates that all have an
/// address and a port.
pub open spec fn discovery_complete(payload: JsonValue, addresses: Seq<Option<IpAddress>>) -> bool {
    &&& payload.array_member("candidates"@) is Some
    &&& forall|i: int|
        0 <= i < payload.array_member("candidates"@).unwrap().len() ==> discovered(
            #[trigger] payload.array_member("candidates"@).unwrap()[i],
            address_at(addresses, i),
        ) is Some
}

/// The candidates of a complete discovery reply.
pub open spec fn discovered_all(
    payload: JsonValue,
    addresses: Seq<Option<IpAddress>>,
) -> Seq<CandidateView> {
    let items = payload.array_member("candidates"@).unwrap();
    Seq::new(items.len(), |i: int| discovered(items[i], address_at(addresses, i)).unwrap())
}

impl ClientRuntime {
    pub open spec fn wf(&self) -> bool {
        self.core.wf()
    }

    pub fn new(cid: u64, cfg: CoreConfig) -> (runtime: ClientRuntime)
        ensures
            runtime.wf(),
            runtime@ == (ClientView {
                core: model::fresh(Role::Client, cid, cfg),
                timers: Map::empty(),
                local_candidates: Seq::empty(),
                remote_candidates: Seq::empty(),
                metrics: ClientRuntimeMetrics::zero(),
            }),
    {
        let runtime = ClientRuntime {
            core: CoreMachine::new(Role::Client, cid, cfg),
            timers: TimerQueue::new(),
            local_candidates: Vec::new(),
            remote_candidates: Vec::new(),
            metrics: ClientRuntimeMetrics::default(),
        };
        assert(runtime@.local_candidates =~= Seq::empty());
        assert(runtime@.remote_candidates =~= Seq::empty());
        runtime
    }

    pub fn metrics_snapshot(&self) -> (metrics: ClientRuntimeMetrics)
        ensures
            metrics == self@.metrics,
    {
        self.metrics
    }

    pub fn state(&self) -> (state: LifecycleState)
        ensures
            state == self@.core.state,
    {
        self.core.state()
    }

    /// Whether there is room for any datagram and for polling at `now_ms`.
    pub fn has_room(&self, now_ms: u64) -> (room: bool)
        requires
            self.wf(),
        ensures
            room == model::has_room(self@.core, now_ms),
            room ==> forall|path: u32, bytes: Seq<u8>|
                #![trigger model::datagram_fits(self@.core, now_ms, path, bytes)]
                model::datagram_fits(self@.core, now_ms, path, bytes),
            room ==> forall|due: Seq<(u64, u64, TimerId)>|
                #![trigger poll_fits(self@, now_ms, due)]
                poll_fits(self@, now_ms, due),
    {
        proof {
            if model::has_room(self@.core, now_ms) {
                assert forall|due: Seq<(u64, u64, TimerId)>|
                    #![trigger poll_fits(self@, now_ms, due)]
                    poll_fits(self@, now_ms, due) by {
                    law_room_lasts_while_polling(self@, now_ms, due);
                }
            }
        }
        self.core.has_room(now_ms)
    }

    pub fn begin_handshake(&mut self, now_ms: u64) -> (result: Result<
        ClientRuntimeOutput,
        ClientRuntimeError,
    >)
        requires
            old(self).wf(),
        ensures
            final(self).wf(),
            final(self)@ == client_step(old(self)@, model::begin_step(old(self)@.core)).0,
            client_agrees(
                result,
                client_step(old(self)@, model::begin_step(old(self)@.core)).1,
            ),
    {
        match self.core.begin_handshake(now_ms) {
            Ok(out) => Ok(self.apply_core_output(out)),
            Err(e) => Err(ClientRuntimeError::Core(e)),
        }
    }

    pub fn on_datagram(&mut self, now_ms: u64, src_path_id: u32, bytes: &[u8]) -> (result: Result<
        ClientRuntimeOutput,
        ClientRuntimeError,
    >)
        requires
            old(self).wf(),
            model::datagram_fits(old(self)@.core, now_ms, src_path_id, bytes@),
        ensures
            final(self).wf(),
            ({
                let step = client_step(
                    old(self)@,
                    model::datagram_step(old(self)@.core, now_ms, src_path_id, bytes@),
                );
                &&& final(self)@ == step.0
                &&& client_agrees(result, step.1)
            }),
    {
        match self.core.on_datagram(now_ms, src_path_id, bytes) {
            Ok(out) => Ok(self.apply_core_output(out)),
            Err(e) => Err(ClientRuntimeError::Core(e)),
        }
    }

    pub fn send_message(&mut self, payload: Vec<u8>) -> (result: Result<
        ClientRuntimeOutput,
        ClientRuntimeError,
    >)
        requires
            old(self).wf(),
            old(self)@.core.next_outbound_id < u64::MAX,
        ensures
            final(self).wf(),
            ({
                let step = client_step(
                    old(self)@,
                    model::send_step(old(self)@.core, payload@),
                );
                &&& final(self)@ == step.0
                &&& client_agrees(result, step.1)
            }),
    {
        match self.core.on_api_send(payload) {
            Ok(out) => Ok(self.apply_core_output(out)),
            Err(e) => Err(ClientRuntimeError::Core(e)),
        }
    }

    pub fn close_session(&mut self) -> (result: Result<ClientRuntimeOutput, ClientRuntimeError>)
        requires
            old(self).wf(),
        ensures
            final(self).wf(),
            final(self)@ == client_step(old(self)@, model::close_step(old(self)@.core)).0,
            client_agrees(
                result,
                client_step(old(self)@, model::close_step(old(self)@.core)).1,
            ),
    {
        match self.core.on_api_close() {
            Ok(out) => Ok(self.apply_core_output(out)),
            Err(e) => Err(ClientRuntimeError::Core(e)),
        }
    }

    pub fn propose_timers(&mut self, now_ms: u64, proposal: TimerProposal) -> (result: Result<
        ClientRuntimeOutput,
        ClientRuntimeError,
    >)
        requires
            old(self).wf(),
        ensures
            final(self).wf(),
            ({
                let step = client_step(
                    old(self)@,
                    model::propose_step(old(self)@.core, now_ms, proposal),
                );
                &&& final(self)@ == step.0
                &&& client_agrees(result, step.1)
            }),
    {
        match self.core.on_api_propose_timers(now_ms, proposal) {
            Ok(out) => Ok(self.apply_core_output(out)),
            Err(e) => Err(ClientRuntimeError::Core(e)),
        }
    }

    pub fn on_path_changed(&mut self, path_id: u32) -> (result: Result<
        ClientRuntimeOutput,
        ClientRuntimeError,
    >)
        requires
            old(self).wf(),
        ensures
            final(self).wf(),
            ({
                let step = client_step(
                    old(self)@,
                    model::path_step(old(self)@.core, PathEvent::PathChanged { path_id }),
                );
                &&& final(self)@ == step.0
                &&& client_agrees(result, step.1)
            }),
    {
        match self.core.on_path_event(PathEvent::PathChanged { path_id }) {
            Ok(out) => Ok(self.apply_core_output(out)),
            Err(e) => Err(ClientRuntimeError::Core(e)),
        }
    }

    /// Hands the due timers to the machine, at most `limit` of them.
    pub fn poll_timers(&mut self, now_ms: u64, limit: usize) -> (result: Result<
        ClientRuntimeOutput,
        ClientRuntimeError,
    >)
        requires
            old(self).wf(),
            poll_fits(
                old(self)@,
                now_ms,
                timers::due_at(old(self)@.timers, now_ms, limit as nat),
            ),
        ensures
            final(self).wf(),
            ({
                let step = client_polled(
                    old(self)@,
                    now_ms,
                    timers::due_at(old(self)@.timers, now_ms, limit as nat),
                    ClientOutputView::empty(),
                );
                &&& final(self)@ == step.0
                &&& client_agrees(result, step.1)
            }),
    {
        let mut output = empty_output();
        let due = self.timers.due(now_ms, limit);
        let ghost whole = client_polled(old(self)@, now_ms, due@, ClientOutputView::empty());
        let mut i: usize = 0;
        assert(due@.skip(0) =~= due@);
        while i < due.len()
            invariant
                i <= due@.len(),
                self.wf(),
                poll_fits(self@, now_ms, due@.skip(i as int)),
                whole == client_polled(self@, now_ms, due@.skip(i as int), output@),
                whole == client_polled(
                    old(self)@,
                    now_ms,
                    timers::due_at(old(self)@.timers, now_ms, limit as nat),
                    ClientOutputView::empty(),
                ),
            decreases due@.len() - i,
        {
            let (deadline, owner, id) = due[i];
            let ghost rest = due@.skip(i as int);
            assert(rest[0] == due@[i as int]);
            assert(rest.skip(1) =~= due@.skip(i + 1));
            let ghost before = self@;
            self.timers.remove(deadline, owner, id);
            assert(self@ =~= (ClientView {
                timers: timers::without_timer(before.timers, deadline, (owner, id)),
                ..before
            }));
            let partial = match self.core.on_timer(now_ms, id) {
                Ok(out) => self.apply_core_output(out),
                Err(e) => {
                    return Err(ClientRuntimeError::Core(e));
                },
            };
            append_output(&mut output, partial);
            i = i + 1;
        }
        Ok(output)
    }

    pub fn set_local_candidates(&mut self, candidates: Vec<IceCandidate>)
        ensures
            final(self)@ == (ClientView {
                local_candidates: traversal::candidate_views(candidates@),
                ..old(self)@
            }),
    {
        self.local_candidates = candidates;
    }

    pub fn set_remote_candidates(&mut self, candidates: Vec<IceCandidate>)
        ensures
            final(self)@ == (ClientView {
                remote_candidates: traversal::candidate_views(candidates@),
                ..old(self)@
            }),
    {
        self.remote_candidates = candidates;
    }

    /// The texts of the addresses in a discovery reply, in order, as far as they
    /// are there.
    pub fn discovery_addresses(payload: &JsonValue) -> (texts: Vec<Option<String>>)
        ensures
            match payload.array_member("candidates"@) {
                None => texts@.len() == 0,
                Some(items) => {
                    &&& texts@.len() == items.len()
                    &&& forall|i: int|
                        0 <= i < items.len() ==> match (
                            #[trigger] texts@[i],
                            items[i].text_member("address"@),
                        ) {
                            (Some(got), Some(expected)) => got@ == expected,
                            (None, None) => true,
                            _ => false,
                        }
                },
            },
    {
        let mut texts: Vec<Option<String>> = Vec::new();
        if let Some(items) = payload.get_array("candidates") {
            let mut i: usize = 0;
            while i < items.len()
                invariant
                    i <= items@.len(),
                    texts@.len() == i,
                    forall|j: int|
                        0 <= j < i ==> match (
                            #[trigger] texts@[j],
                            items@[j].text_member("address"@),
                        ) {
                            (Some(got), Some(expected)) => got@ == expected,
                            (None, None) => true,
                            _ => false,
                        },
                decreases items@.len() - i,
            {
                texts.push(items[i].get_text("address"));
                i = i + 1;
            }
        }
        texts
    }

    /// Replaces the remote candidates by those of a discovery reply. `addresses`
    /// holds for each candidate the address that its text stands for, if it
    /// stands for one. A reply that is not complete changes nothing.
    pub fn load_remote_candidates_from_discovery(
        &mut self,
        payload: &JsonValue,
        addresses: &[Option<IpAddress>],
    ) -> (result: Result<usize, ClientRuntimeError>)
        ensures
            if discovery_complete(*payload, addresses@) {
                &&& result == Ok::<usize, ClientRuntimeError>(
                    discovered_all(*payload, addresses@).len() as usize,
                )
                &&& final(self)@ == (ClientView {
                    remote_candidates: discovered_all(*payload, addresses@),
                    ..old(self)@
                })
            } else {
                &&& result == Err::<usize, ClientRuntimeError>(
                    ClientRuntimeError::InvalidCandidatePayload,
                )
                &&& final(self)@ == old(self)@
            },
    {
        let items = match payload.get_array("candidates") {
            Some(items) => items,
            None => {
                return Err(ClientRuntimeError::InvalidCandidatePayload);
            },
        };
        let mut parsed: Vec<IceCandidate> = Vec::new();
        let mut i: usize = 0;
        while i < items.len()
            invariant
                i <= items@.len(),
                parsed@.len() == i,
                payload.array_member("candidates"@) == Some(items@),
                forall|j: int|
                    0 <= j < i ==> discovered(#[trigger] items@[j], address_at(addresses@, j))
                        == Some(parsed@[j]@),
                *self == *old(self),
            decreases items@.len() - i,
        {
            let address = if i < addresses.len() {
                addresses[i]
            } else {
                None
            };
            match parse_candidate(&items[i], address) {
                Some(candidate) => {
                    parsed.push(candidate);
                },
                None => {
                    assert(discovered(items@[i as int], address_at(addresses@, i as int)) is None);
                    return Err(ClientRuntimeError::InvalidCandidatePayload);
                },
            }
            i = i + 1;
        }
        self.remote_candidates = parsed;
        assert(self@.remote_candidates =~= discovered_all(*payload, addresses@));
        Ok(self.remote_candidates.len())
    }

    /// Relay policy is handled outside this runtime.
    pub fn set_relay_policy(&mut self, _relay_policy: RelayPolicy)
        ensures
            final(self)@ == old(self)@,
    {
    }

    /// ICE nomination is disabled in this runtime.
    pub fn run_ice_nomination(&mut self) -> (result: Result<
        ClientRuntimeOutput,
        ClientRuntimeError,
    >)
        ensures
            final(self)@ == old(self)@,
            client_agrees(result, Ok(ClientOutputView::empty())),
    {
        Ok(empty_output())
    }

    /// The NAT/TURN engine is disabled in this runtime.
    pub fn on_nat_tick(&mut self, _now_ms: u64) -> (out: ClientRuntimeOutput)
        ensures
            final(self)@ == old(self)@,
            out@ == ClientOutputView::empty(),
    {
        empty_output()
    }

    fn apply_core_output(&mut self, out: CoreOutput) -> (applied: ClientRuntimeOutput)
        ensures
            final(self)@ == client_applied(old(self)@, out@).0,
            applied@ == client_applied(old(self)@, out@).1,
    {
        self.observe_datagrams(&out.outbound_datagrams);
        let mut events: Vec<ClientRuntimeEvent> = Vec::new();
        let ghost start = self@;
        let mut i: usize = 0;
        assert(client_event_views(events@) =~= core_events(out@.events.take(0)));
        while i < out.events.len()
            invariant
                i <= out.events@.len(),
                self@ == (ClientView {
                    metrics: events_counted(start.metrics, out@.events.take(i as int)),
                    ..start
                }),
                client_event_views(events@) == core_events(out@.events.take(i as int)),
            decreases out.events@.len() - i,
        {
            let ghost upto = out@.events.take(i + 1);
            assert(upto.drop_last() =~= out@.events.take(i as int));
            assert(upto.last() == out.events@[i as int]@);
            let ghost before = events@;
            self.observe_core_event(&out.events[i]);
            events.push(ClientRuntimeEvent::Core(out.events[i].clone()));
            proof {
                let last = ClientEventView::Core(upto.last());
                assert(events@.last()@ == last);
                assert(client_event_views(events@) =~= client_event_views(before).push(last));
                assert(core_events(upto) =~= core_events(out@.events.take(i as int)).push(last));
            }
            i = i + 1;
        }
        assert(out@.events.take(i as int) =~= out@.events);
        self.ingest_timers(&out.timer_actions);
        let applied = ClientRuntimeOutput { outbound_datagrams: out.outbound_datagrams, events };
        assert(self@ =~= client_applied(old(self)@, out@).0);
        assert(applied@ =~= client_applied(old(self)@, out@).1);
        applied
    }

    fn observe_core_event(&mut self, event: &Event)
        ensures
            final(self)@ == (ClientView {
                metrics: event_counted(old(self)@.metrics, event@),
                ..old(self)@
            }),
    {
        match event {
            Event::HandshakeStarted => {
                self.metrics.handshake_started = self.metrics.handshake_started.saturating_add(1);
            },
            Event::HandshakeEstablished => {
                self.metrics.handshake_established =
                self.metrics.handshake_established.saturating_add(1);
            },
            Event::ReactivationProbeSent => {
                self.metrics.reactivation_probe_sent =
                self.metrics.reactivation_probe_sent.saturating_add(1);
            },
            Event::Reactivated => {
                self.metrics.reactivated = self.metrics.reactivated.saturating_add(1);
            },
            Event::Disconnected => {
                self.metrics.disconnected = self.metrics.disconnected.saturating_add(1);
            },
            _ => {},
        }
    }

    fn observe_datagrams(&mut self, datagrams: &Vec<OutboundDatagram>)
        ensures
            final(self)@ == (ClientView {
                metrics: ClientRuntimeMetrics {
                    msr_sent: msrs_counted(
                        old(self)@.metrics.msr_sent,
                        types::datagram_views(datagrams@),
                    ),
                    ..old(self)@.metrics
                },
                ..old(self)@
            }),
    {
        let ghost views = types::datagram_views(datagrams@);
        let mut i: usize = 0;
        while i < datagrams.len()
            invariant
                i <= datagrams@.len(),
                views == types::datagram_views(datagrams@),
                self@ == (ClientView {
                    metrics: ClientRuntimeMetrics {
                        msr_sent: msrs_counted(
                            old(self)@.metrics.msr_sent,
                            views.take(i as int),
                        ),
                        ..old(self)@.metrics
                    },
                    ..old(self)@
                }),
            decreases datagrams@.len() - i,
        {
            assert(views.take(i + 1).drop_last() =~= views.take(i as int));
            assert(views.take(i + 1).last().bytes == datagrams@[i as int].bytes@);
            if frame_is(&datagrams[i].bytes, MessageType::Msr) {
                self.metrics.msr_sent = self.metrics.msr_sent.saturating_add(1);
            }
            i = i + 1;
        }
        assert(views.take(i as int) =~= views);
    }

    fn ingest_timers(&mut self, timer_actions: &Vec<TimerAction>)
        ensures
            final(self)@ == (ClientView {
                timers: timers_set(old(self)@.timers, timer_actions@),
                ..old(self)@
            }),
    {
        let mut i: usize = 0;
        while i < timer_actions.len()
            invariant
                i <= timer_actions@.len(),
                self@ == (ClientView {
                    timers: timers_set(old(self)@.timers, timer_actions@.take(i as int)),
                    ..old(self)@
                }),
            decreases timer_actions@.len() - i,
        {
            assert(timer_actions@.take(i + 1).drop_last() =~= timer_actions@.take(i as int));
            match timer_actions[i] {
                TimerAction::Schedule { id, deadline_ms } => {
                    self.timers.schedule_once(deadline_ms, 0, id);
                },
            }
            i = i + 1;
        }
        assert(timer_actions@.take(i as int) =~= timer_actions@);
    }
}

/// Whether a datagram is a frame of the given type.
pub(crate) fn frame_is(bytes: &Vec<u8>, message_type: MessageType) -> (is: bool)
    ensures
        is == is_frame_of(bytes@, message_type),
{
    match WireFrame::decode(bytes) {
        Ok(frame) => frame.message_type == message_type,
        Err(_) => false,
    }
}

fn empty_output() -> (out: ClientRuntimeOutput)
    ensures
        out@ == ClientOutputView::empty(),
{
    let out = ClientRuntimeOutput { outbound_datagrams: Vec::new(), events: Vec::new() };
    assert(out@ =~= ClientOutputView::empty());
    out
}

fn append_output(output: &mut ClientRuntimeOutput, more: ClientRuntimeOutput)
    ensures
        final(output)@ == old(output)@.plus(more@),
{
    let mut datagrams = more.outbound_datagrams;
    let mut events = more.events;
    output.outbound_datagrams.append(&mut datagrams);
    output.events.append(&mut events);
    assert(output@ =~= old(output)@.plus(more@));
}

fn parse_candidate(c: &JsonValue, address: Option<IpAddress>) -> (candidate: Option<IceCandidate>)
    ensures
        match (candidate, discovered(*c, address)) {
            (Some(got), Some(expected)) => got@ == expected,
            (None, None) => true,
            _ => false,
        },
{
    let text = c.get_text("address");
    if text.is_none() {
        return None;
    }
    let port: u16 = match c.get_number("port") {
        Some(port) => (port % 0x1_0000) as u16,
        None => {
            return None;
        },
    };
    let address = match address {
        Some(address) => address,
        None => {
            return None;
        },
    };
    let typ = match c.get_text("type") {
        Some(t) => {
            if same_text(t.as_str(), "relay") {
                CandidateType::Relay
            } else if same_text(t.as_str(), "srflx") {
                CandidateType::Srflx
            } else {
                CandidateType::Host
            }
        },
        None => CandidateType::Host,
    };
    let foundation = match c.get_text("foundation") {
        Some(t) => t,
        None => "remote".to_string(),
    };
    let priority: u32 = match c.get_number("priority") {
        Some(n) => (n % 0x1_0000_0000) as u32,
        None => 100,
    };
    Some(
        IceCandidate {
            foundation,
            component: 1,
            transport: "udp".to_string(),
            priority,
            address,
            port,
            typ,
            related_address: None,
            related_port: None,
        },
    )
}

/// With room at a moment, all due timers can be handed over then.
pub proof fn law_room_lasts_while_polling(
    v: ClientView,
    now_ms: u64,
    due: Seq<(u64, u64, TimerId)>,
)
    requires
        model::has_room(v.core, now_ms),
    ensures
        poll_fits(v, now_ms, due),
    decreases due.len(),
{
    if due.len() > 0 {
        let (deadline, owner, id) = due[0];
        let v1 = ClientView {
            timers: timers::without_timer(v.timers, deadline, (owner, id)),
            ..v
        };
        let v2 = client_step(v1, model::timer_step(v1.core, now_ms, id)).0;
        law_room_lasts_while_polling(v2, now_ms, due.skip(1));
    }
}

/// That no timer is set twice for the same moment.
pub open spec fn set_once(queue: Map<u64, Seq<(u64, TimerId)>>) -> bool {
    forall|d: u64| #[trigger] queue.contains_key(d) ==> queue[d].no_duplicates()
}

/// However often the machine asks for a timer, it is set at most once per
/// moment.
pub proof fn law_timers_are_set_once(
    queue: Map<u64, Seq<(u64, TimerId)>>,
    actions: Seq<TimerAction>,
)
    requires
        set_once(queue),
    ensures
        set_once(timers_set(queue, actions)),
    decreases actions.len(),
{
    if actions.len() > 0 {
        law_timers_are_set_once(queue, actions.drop_last());
        let before = timers_set(queue, actions.drop_last());
        match actions.last() {
            TimerAction::Schedule { id, deadline_ms } => {
                let after = timers::with_timer_once(before, deadline_ms, (0, id));
                assert forall|d: u64| #[trigger] after.contains_key(d) implies
                    after[d].no_duplicates() by {
                    let entries = timers::slot(before, deadline_ms);
                    if d == deadline_ms && !entries.contains((0, id)) {
                        assert(entries.no_duplicates());
                        assert(after[d] == entries.push((0, id)));
                    } else {
                        assert(before.contains_key(d));
                    }
                }
            },
        }
    }
}

} // verus!
