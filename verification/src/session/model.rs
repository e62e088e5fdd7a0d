//! The session machine as mathematics: its state and what each step does to it.

use vstd::prelude::*;

use crate::big_endian;
use crate::session::codec;
use crate::session::types::{
    CoreConfig, CoreError, DatagramView, EventView, LifecycleState, OutputView, PathEvent,
    PendingRenegotiation, Role, TimerId, TimerProposal,
};
use crate::wire;
use crate::wire::{FrameView, MessageType, TlvView};

verus! {

pub const CLIENT_KEEPALIVE_EVERY_SERVER_MSR: u32 = 4;

pub const SERVER_MAX_CONSECUTIVE_SERVER_MSR_WITHOUT_CLIENT_MSR: u32 = 8;

pub const MAX_DATA_PAYLOAD_PER_FRAME: usize = 1000;

/// Message id, fragment index and fragment count.
pub const FRAGMENT_HEADER_LEN: usize = 12;

/// How much of a message one fragment carries.
pub const FRAGMENT_CHUNK_LEN: usize = 988;

/// The fragments of one message that have come in.
#[verifier::ext_equal]
pub struct FragmentsView {
    pub total: u16,
    pub chunks: Map<u16, Seq<u8>>,
}

#[verifier::ext_equal]
pub struct MachineView {
    pub role: Role,
    pub cid: u64,
    pub state: LifecycleState,
    pub cfg: CoreConfig,
    pub current_path_id: u32,
    pub next_outbound_id: u64,
    pub outbound_messages: Map<u64, Seq<u8>>,
    pub received_ids: Set<u64>,
    pub received_buffer: Map<u64, Seq<u8>>,
    pub received_fragments: Map<u64, FragmentsView>,
    pub last_ordered_rx: u64,
    pub last_requested_end: u64,
    pub last_server_msr_at_ms: Option<u64>,
    pub disconnect_deadline_ms: Option<u64>,
    pub client_server_msr_rx_since_last_keepalive: u32,
    pub server_consecutive_msr_without_client_msr: u32,
    pub next_proposal_id: u32,
    pub pending_local_proposal: Option<PendingRenegotiation>,
}

/// A step: the state it leaves, what it asks for, and the error that ended it
/// early, if one did. After an error the output is not handed out.
#[verifier::ext_equal]
pub struct Step {
    pub machine: MachineView,
    pub out: OutputView,
    pub error: Option<CoreError>,
}

pub open spec fn done(machine: MachineView, out: OutputView) -> Step {
    Step { machine, out, error: None }
}

pub open spec fn failed(machine: MachineView, out: OutputView, error: CoreError) -> Step {
    Step { machine, out, error: Some(error) }
}

/// A machine before anything has happened.
pub open spec fn fresh(role: Role, cid: u64, cfg: CoreConfig) -> MachineView {
    MachineView {
        role,
        cid,
        state: LifecycleState::PreHandshake,
        cfg,
        current_path_id: 0,
        next_outbound_id: 1,
        outbound_messages: Map::empty(),
        received_ids: Set::empty(),
        received_buffer: Map::empty(),
        received_fragments: Map::empty(),
        last_ordered_rx: 0,
        last_requested_end: 0,
        last_server_msr_at_ms: None,
        disconnect_deadline_ms: None,
        client_server_msr_rx_since_last_keepalive: 0,
        server_consecutive_msr_without_client_msr: 0,
        next_proposal_id: 1,
        pending_local_proposal: None,
    }
}

impl MachineView {
    /// Messages to send are numbered from one on, without gaps; ids that were
    /// handed to the application or wait in the buffer are known as received;
    /// what was handed over no longer waits; a message that still comes in by
    /// fragments has not been received.
    pub open spec fn wf(self) -> bool {
        &&& self.next_outbound_id >= 1
        &&& forall|id: u64|
            #![trigger self.outbound_messages.contains_key(id)]
            self.outbound_messages.contains_key(id) <==> 1 <= id < self.next_outbound_id
        &&& self.last_ordered_rx < u64::MAX
        &&& forall|id: u64|
            #![trigger self.received_buffer.contains_key(id)]
            self.received_buffer.contains_key(id) ==> {
                &&& self.received_ids.contains(id)
                &&& (id == 0 || id > self.last_ordered_rx)
            }
        &&& forall|id: u64|
            #![trigger self.received_ids.contains(id)]
            1 <= id <= self.last_ordered_rx ==> self.received_ids.contains(id)
        &&& forall|id: u64|
            #![trigger self.received_fragments.contains_key(id)]
            self.received_fragments.contains_key(id) ==> {
                &&& !self.received_ids.contains(id)
                &&& self.received_fragments[id].total > 0
                &&& forall|idx: u16|
                    #![trigger self.received_fragments[id].chunks.contains_key(idx)]
                    self.received_fragments[id].chunks.contains_key(idx) ==> idx
                        < self.received_fragments[id].total
            }
    }

    /// The highest id that waits to be pulled, zero if there is none.
    pub open spec fn max_pending_id(self) -> u64 {
        (self.next_outbound_id - 1) as u64
    }

    pub open spec fn deadline_touched(self, now_ms: u64) -> MachineView {
        MachineView {
            disconnect_deadline_ms: Some((now_ms + self.cfg.disconnect_window_ms) as u64),
            ..self
        }
    }

    /// Any frame of the peer counts as a sign of life once the session stands.
    pub open spec fn peer_heard(self, now_ms: u64) -> MachineView {
        if self.state != LifecycleState::Established {
            self
        } else if self.role == Role::Client {
            MachineView { last_server_msr_at_ms: Some(now_ms), ..self }
        } else {
            MachineView { server_consecutive_msr_without_client_msr: 0, ..self }
        }
    }
}

/// A server's timers, started.
pub open spec fn server_timers(m: MachineView, now_ms: u64, out: OutputView) -> OutputView {
    out.schedule(TimerId::ServerMsr, (now_ms + m.cfg.msr_interval_ms) as u64).schedule(
        TimerId::Disconnect,
        (now_ms + m.cfg.disconnect_window_ms) as u64,
    )
}

/// A client's timers, started.
pub open spec fn client_timers(m: MachineView, now_ms: u64, out: OutputView) -> OutputView {
    out.schedule(TimerId::ClientProbe, (now_ms + m.cfg.msr_interval_ms) as u64).schedule(
        TimerId::Disconnect,
        (now_ms + m.cfg.disconnect_window_ms) as u64,
    )
}

/// A plain MSR datagram.
pub open spec fn msr_bytes(cid: u64, acked: u64, next_pending: u64, tlvs: Seq<TlvView>) -> Seq<
    u8,
> {
    codec::core_frame_bytes(MessageType::Msr, cid, codec::pair_bytes(acked, next_pending), tlvs)
}

/// The record with which a machine advertises its queue next to other traffic.
pub open spec fn own_signal(m: MachineView) -> Seq<TlvView> {
    seq![codec::msr_signal_tlv(m.last_ordered_rx, m.max_pending_id())]
}

/// Reaction to an advertisement of the peer, in a frame of its own (`control`)
/// or next to another payload. What lies beyond the last request is requested.
pub open spec fn msr_signal_step(
    m: MachineView,
    now_ms: u64,
    path: u32,
    next_pending: u64,
    control: bool,
    out: OutputView,
) -> Step {
    let s1 = if m.role == Role::Client {
        client_msr_heard(m, now_ms, path, control, out)
    } else {
        done(MachineView { server_consecutive_msr_without_client_msr: 0, ..m }, out)
    };
    if s1.machine.state == LifecycleState::Established && next_pending
        > s1.machine.last_requested_end {
        let start = (s1.machine.last_requested_end + 1) as u64;
        let m2 = MachineView { last_requested_end: next_pending, ..s1.machine };
        done(
            m2,
            s1.out.send(
                path,
                codec::core_frame_bytes(
                    MessageType::RequestRange,
                    m2.cid,
                    codec::pair_bytes(start, next_pending),
                    own_signal(m2),
                ),
            ).emit(EventView::RequestRangeSent { start, end: next_pending }),
        )
    } else {
        s1
    }
}

/// A client that hears an MSR: every fourth in a frame of its own is answered,
/// and a session that was being revived stands again.
pub open spec fn client_msr_heard(
    m: MachineView,
    now_ms: u64,
    path: u32,
    control: bool,
    out: OutputView,
) -> Step {
    let heard = MachineView { last_server_msr_at_ms: Some(now_ms), ..m };
    let count = if m.client_server_msr_rx_since_last_keepalive == u32::MAX {
        u32::MAX
    } else {
        (m.client_server_msr_rx_since_last_keepalive + 1) as u32
    };
    let s1 = if !control {
        done(heard, out)
    } else if count >= CLIENT_KEEPALIVE_EVERY_SERVER_MSR {
        done(
            MachineView { client_server_msr_rx_since_last_keepalive: 0, ..heard },
            out.send(
                path,
                msr_bytes(m.cid, m.last_ordered_rx, m.max_pending_id(), Seq::empty()),
            ),
        )
    } else {
        done(MachineView { client_server_msr_rx_since_last_keepalive: count, ..heard }, out)
    };
    if s1.machine.state == LifecycleState::Reactivating {
        done(
            MachineView { state: LifecycleState::Established, ..s1.machine },
            s1.out.emit(EventView::Reactivated),
        )
    } else {
        s1
    }
}

/// Reaction to one record of an MSR frame.
pub open spec fn msr_tlv_step(m: MachineView, path: u32, tlv: TlvView, out: OutputView) -> Step {
    if tlv.kind == codec::TLV_TIMER_PROPOSAL {
        match codec::proposal_of(tlv) {
            None => failed(m, out, CoreError::MalformedTimerProposal),
            Some((proposal_id, proposal)) => {
                let accepted = codec::proposal_refusal(m.cfg, proposal) is None;
                let answered = out.send(
                    path,
                    msr_bytes(
                        m.cid,
                        m.last_ordered_rx,
                        m.max_pending_id(),
                        seq![codec::ack_tlv(proposal_id, accepted)],
                    ),
                );
                if accepted {
                    done(
                        MachineView { cfg: proposal.as_config(), ..m },
                        answered.emit(EventView::TimerRenegotiationCommitted { proposal_id }),
                    )
                } else {
                    done(m, answered.emit(EventView::TimerRenegotiationRejected { proposal_id }))
                }
            },
        }
    } else if tlv.kind == codec::TLV_TIMER_ACK {
        match codec::ack_of(tlv) {
            None => failed(m, out, CoreError::MalformedTimerAck),
            Some((proposal_id, accepted)) => match m.pending_local_proposal {
                Some(pending) => if pending.proposal_id != proposal_id {
                    done(m, out)
                } else if accepted {
                    done(
                        MachineView {
                            cfg: pending.proposal.as_config(),
                            pending_local_proposal: None,
                            ..m
                        },
                        out.emit(EventView::TimerRenegotiationCommitted { proposal_id }),
                    )
                } else {
                    done(
                        MachineView { pending_local_proposal: None, ..m },
                        out.emit(EventView::TimerRenegotiationRejected { proposal_id }),
                    )
                },
                None => done(m, out),
            },
        }
    } else {
        done(m, out)
    }
}

/// Reaction to the records of an MSR frame, in order, up to the first that is
/// malformed.
pub open spec fn msr_tlvs_step(
    m: MachineView,
    path: u32,
    tlvs: Seq<TlvView>,
    out: OutputView,
) -> Step
    decreases tlvs.len(),
{
    if tlvs.len() == 0 {
        done(m, out)
    } else {
        let first = msr_tlv_step(m, path, tlvs[0], out);
        if first.error is Some {
            first
        } else {
            msr_tlvs_step(first.machine, path, tlvs.skip(1), first.out)
        }
    }
}

/// Reaction to an MSR frame.
pub open spec fn msr_step(
    m: MachineView,
    now_ms: u64,
    path: u32,
    frame: FrameView,
    out: OutputView,
) -> Step {
    match codec::pair_of(frame.payload) {
        None => failed(m, out, CoreError::MalformedMsr),
        Some((_, next_pending)) => {
            let s1 = msr_tlvs_step(m, path, frame.tlvs, out);
            if s1.error is Some {
                s1
            } else {
                msr_signal_step(s1.machine, now_ms, path, next_pending, true, s1.out)
            }
        },
    }
}

/// How many fragments a message is cut into.
pub open spec fn fragment_count(message: Seq<u8>) -> nat {
    ((message.len() + FRAGMENT_CHUNK_LEN - 1) / FRAGMENT_CHUNK_LEN as int) as nat
}

/// One fragment's part of a message.
pub open spec fn fragment_chunk(message: Seq<u8>, idx: nat) -> Seq<u8> {
    let start = idx * FRAGMENT_CHUNK_LEN;
    let end = if start + FRAGMENT_CHUNK_LEN <= message.len() {
        start + FRAGMENT_CHUNK_LEN
    } else {
        message.len() as int
    };
    message.subrange(start, end)
}

/// The payload of one fragment frame.
pub open spec fn fragment_payload(id: u64, message: Seq<u8>, idx: nat) -> Seq<u8> {
    big_endian::be_bytes(id as nat, 8) + big_endian::be_bytes(idx, 2) + big_endian::be_bytes(
        fragment_count(message),
        2,
    ) + fragment_chunk(message, idx)
}

/// The payload of a data frame.
pub open spec fn data_payload(id: u64, message: Seq<u8>) -> Seq<u8> {
    big_endian::be_bytes(id as nat, 8) + message
}

pub open spec fn fits_one_frame(message: Seq<u8>) -> bool {
    8 + message.len() <= MAX_DATA_PAYLOAD_PER_FRAME
}

/// One message as datagrams: one data frame, or fragments in order. A message
/// that would need too many fragments has none.
pub open spec fn message_datagrams(m: MachineView, path: u32, id: u64, message: Seq<u8>) -> Option<
    Seq<DatagramView>,
> {
    if fits_one_frame(message) {
        Some(
            seq![
                DatagramView {
                    path_id: path,
                    bytes: codec::core_frame_bytes(
                        MessageType::Data,
                        m.cid,
                        data_payload(id, message),
                        own_signal(m),
                    ),
                },
            ],
        )
    } else if fragment_count(message) > u16::MAX {
        None
    } else {
        Some(
            Seq::new(
                fragment_count(message),
                |idx: int|
                    DatagramView {
                        path_id: path,
                        bytes: codec::core_frame_bytes(
                            MessageType::Fragment,
                            m.cid,
                            fragment_payload(id, message, idx as nat),
                            own_signal(m),
                        ),
                    },
            ),
        )
    }
}

/// The messages with ids from `start` to `end` as datagrams. Ids that were
/// never given out are passed over.
pub open spec fn range_datagrams(m: MachineView, path: u32, start: int, end: int) -> Option<
    Seq<DatagramView>,
>
    decreases end - start + 1,
{
    if start > end {
        Some(Seq::empty())
    } else {
        let first = if m.outbound_messages.contains_key(start as u64) {
            message_datagrams(m, path, start as u64, m.outbound_messages[start as u64])
        } else {
            Some(Seq::empty())
        };
        let rest = range_datagrams(m, path, start + 1, end);
        if first is Some && rest is Some {
            Some(first.unwrap() + rest.unwrap())
        } else {
            None
        }
    }
}

/// Reaction to a pull request.
pub open spec fn request_range_step(
    m: MachineView,
    path: u32,
    payload: Seq<u8>,
    out: OutputView,
) -> Step {
    match codec::pair_of(payload) {
        None => failed(m, out, CoreError::MalformedRequestRange),
        Some((start, end)) => match range_datagrams(m, path, start as int, end as int) {
            None => failed(m, out, CoreError::MalformedData),
            Some(datagrams) => done(
                m,
                OutputView { outbound_datagrams: out.outbound_datagrams + datagrams, ..out },
            ),
        },
    }
}

/// Hands the messages over that follow the last one handed over, in order,
/// until one is missing.
pub open spec fn flush(m: MachineView, out: OutputView) -> Step
    decreases u64::MAX - m.last_ordered_rx,
{
    let next = (m.last_ordered_rx + 1) as u64;
    if m.last_ordered_rx < u64::MAX && m.received_buffer.contains_key(next) {
        flush(
            MachineView {
                last_ordered_rx: next,
                received_buffer: m.received_buffer.remove(next),
                ..m
            },
            out.emit(EventView::MessageDelivered { msg_id: next }).emit(
                EventView::MessageReceived { msg_id: next, payload: m.received_buffer[next] },
            ),
        )
    } else {
        done(m, out)
    }
}

/// Handing over goes on from where it was, and never fails.
pub proof fn lemma_flush_grows(m: MachineView, out: OutputView)
    ensures
        flush(m, out).machine.last_ordered_rx >= m.last_ordered_rx,
        flush(m, out).error is None,
    decreases u64::MAX - m.last_ordered_rx,
{
    let next = (m.last_ordered_rx + 1) as u64;
    if m.last_ordered_rx < u64::MAX && m.received_buffer.contains_key(next) {
        lemma_flush_grows(
            MachineView {
                last_ordered_rx: next,
                received_buffer: m.received_buffer.remove(next),
                ..m
            },
            out.emit(EventView::MessageDelivered { msg_id: next }).emit(
                EventView::MessageReceived { msg_id: next, payload: m.received_buffer[next] },
            ),
        );
    }
}

/// Taking in a message that is new keeps a machine well-formed.
pub proof fn lemma_completed_wf(m: MachineView, id: u64, message: Seq<u8>)
    requires
        m.wf(),
        !m.received_ids.contains(id),
    ensures
        message_completed(m, id, message).wf(),
{
    let after = message_completed(m, id, message);
    assert forall|other: u64| after.received_fragments.contains_key(other) implies {
        &&& !after.received_ids.contains(other)
        &&& after.received_fragments[other].total > 0
        &&& forall|idx: u16|
            #![trigger after.received_fragments[other].chunks.contains_key(idx)]
            after.received_fragments[other].chunks.contains_key(idx) ==> idx
                < after.received_fragments[other].total
    } by {
        assert(m.received_fragments.contains_key(other));
        assert(after.received_fragments[other] == m.received_fragments[other]);
    }
    assert forall|other: u64| after.received_buffer.contains_key(other) implies {
        &&& after.received_ids.contains(other)
        &&& (other == 0 || other > after.last_ordered_rx)
    } by {
        if other != id {
            assert(m.received_buffer.contains_key(other));
        }
    }
}

/// A machine that has all of message `id`.
pub open spec fn message_completed(m: MachineView, id: u64, message: Seq<u8>) -> MachineView {
    MachineView {
        received_ids: m.received_ids.insert(id),
        received_buffer: m.received_buffer.insert(id, message),
        received_fragments: m.received_fragments.remove(id),
        ..m
    }
}

/// Reaction to a data frame. A message that was received before is ignored.
pub open spec fn data_step(m: MachineView, payload: Seq<u8>, out: OutputView) -> Step {
    if payload.len() < 8 {
        failed(m, out, CoreError::MalformedData)
    } else {
        let id = big_endian::be_value(payload.subrange(0, 8)) as u64;
        if m.received_ids.contains(id) {
            done(m, out)
        } else {
            flush(message_completed(m, id, payload.skip(8)), out)
        }
    }
}

/// The first `n` chunks, put together.
pub open spec fn joined(chunks: Map<u16, Seq<u8>>, n: nat) -> Seq<u8>
    decreases n,
{
    if n == 0 {
        Seq::empty()
    } else {
        joined(chunks, (n - 1) as nat) + chunks[(n - 1) as u16]
    }
}

/// The fragments of a message after one more, of which the first copy counts.
pub open spec fn fragment_added(
    m: MachineView,
    id: u64,
    idx: u16,
    total: u16,
    chunk: Seq<u8>,
) -> FragmentsView {
    let chunks = if m.received_fragments.contains_key(id) {
        m.received_fragments[id].chunks
    } else {
        Map::empty()
    };
    FragmentsView {
        total,
        chunks: if chunks.contains_key(idx) {
            chunks
        } else {
            chunks.insert(idx, chunk)
        },
    }
}

pub open spec fn all_fragments_in(fragments: FragmentsView) -> bool {
    forall|idx: u16|
        #![trigger fragments.chunks.contains_key(idx)]
        idx < fragments.total ==> fragments.chunks.contains_key(idx)
}

/// Reaction to a fragment frame. All fragments of a message have to agree on
/// how many there are.
pub open spec fn fragment_step(m: MachineView, payload: Seq<u8>, out: OutputView) -> Step {
    if payload.len() < FRAGMENT_HEADER_LEN {
        failed(m, out, CoreError::MalformedData)
    } else {
        let id = big_endian::be_value(payload.subrange(0, 8)) as u64;
        let idx = big_endian::be_value(payload.subrange(8, 10)) as u16;
        let total = big_endian::be_value(payload.subrange(10, 12)) as u16;
        if m.received_ids.contains(id) {
            done(m, out)
        } else if total == 0 || idx >= total {
            failed(m, out, CoreError::MalformedData)
        } else if m.received_fragments.contains_key(id) && m.received_fragments[id].total
            != total {
            failed(m, out, CoreError::MalformedData)
        } else {
            let fragments = fragment_added(m, id, idx, total, payload.skip(12));
            if all_fragments_in(fragments) {
                flush(message_completed(m, id, joined(fragments.chunks, total as nat)), out)
            } else {
                done(
                    MachineView {
                        received_fragments: m.received_fragments.insert(id, fragments),
                        ..m
                    },
                    out,
                )
            }
        }
    }
}

/// A server that hears a hello.
pub open spec fn server_hello_step(
    m: MachineView,
    now_ms: u64,
    path: u32,
    answer: bool,
    out: OutputView,
) -> Step {
    if m.state == LifecycleState::PreHandshake {
        let m1 = MachineView { state: LifecycleState::Established, ..m };
        let o1 = out.emit(EventView::HandshakeEstablished);
        let o2 = if answer {
            o1.send(
                path,
                codec::core_frame_bytes(
                    MessageType::ServerHello,
                    m.cid,
                    Seq::empty(),
                    Seq::empty(),
                ),
            )
        } else {
            o1
        };
        done(m1.deadline_touched(now_ms), server_timers(m1, now_ms, o2))
    } else {
        done(m, out)
    }
}

/// A client that hears the server's hello.
pub open spec fn client_hello_step(m: MachineView, now_ms: u64, path: u32, out: OutputView) -> Step {
    if m.state == LifecycleState::PreHandshake || m.state == LifecycleState::Reactivating {
        let m1 = MachineView {
            state: LifecycleState::Established,
            last_server_msr_at_ms: Some(now_ms),
            client_server_msr_rx_since_last_keepalive: 0,
            ..m
        };
        let o1 = out.send(
            path,
            codec::core_frame_bytes(MessageType::HelloAck, m.cid, Seq::empty(), Seq::empty()),
        ).emit(
            if m.state == LifecycleState::Reactivating {
                EventView::Reactivated
            } else {
                EventView::HandshakeEstablished
            },
        );
        done(m1.deadline_touched(now_ms), client_timers(m1, now_ms, o1))
    } else {
        done(m, out)
    }
}

/// Reaction to a frame by its type.
pub open spec fn frame_step(
    m: MachineView,
    now_ms: u64,
    path: u32,
    frame: FrameView,
    out: OutputView,
) -> Step {
    match frame.message_type {
        MessageType::ClientHello => if m.role == Role::Server {
            server_hello_step(m, now_ms, path, true, out)
        } else {
            done(m, out)
        },
        MessageType::ServerHello => if m.role == Role::Client {
            client_hello_step(m, now_ms, path, out)
        } else {
            done(m, out)
        },
        MessageType::HelloAck => if m.role == Role::Server {
            server_hello_step(m, now_ms, path, false, out)
        } else {
            done(m, out)
        },
        MessageType::Msr => msr_step(m, now_ms, path, frame, out),
        MessageType::RequestRange => if m.state == LifecycleState::Established {
            request_range_step(m, path, frame.payload, out)
        } else {
            done(m, out)
        },
        MessageType::Data => if m.state == LifecycleState::Established {
            data_step(m, frame.payload, out)
        } else {
            done(m, out)
        },
        MessageType::Fragment => if m.state == LifecycleState::Established {
            fragment_step(m, frame.payload, out)
        } else {
            done(m, out)
        },
        MessageType::Close | MessageType::Error => done(
            MachineView { state: LifecycleState::Lost, ..m },
            out.emit(EventView::Disconnected),
        ),
    }
}

/// Reaction to a frame of this session.
pub open spec fn session_frame_step(
    m: MachineView,
    now_ms: u64,
    path: u32,
    frame: FrameView,
) -> Step {
    let m1 = MachineView { current_path_id: path, ..m }.deadline_touched(now_ms).peer_heard(now_ms);
    let s1 = frame_step(m1, now_ms, path, frame, OutputView::empty());
    if s1.error is Some || frame.message_type == MessageType::Msr {
        s1
    } else {
        match codec::msr_signal_of(frame.tlvs) {
            None => s1,
            Some((_, next_pending)) => msr_signal_step(
                s1.machine,
                now_ms,
                path,
                next_pending,
                false,
                s1.out,
            ),
        }
    }
}

/// Whether a machine takes frames with connection id `cid`; zero takes all.
pub open spec fn cid_accepted(m: MachineView, cid: u64) -> bool {
    m.cid == 0 || m.cid == cid
}

/// Reaction to a datagram.
pub open spec fn datagram_step(m: MachineView, now_ms: u64, path: u32, bytes: Seq<u8>) -> Step {
    match wire::parse_frame(bytes) {
        Err(_) => done(m, OutputView::empty().emit(EventView::ParseError)),
        Ok(frame) => if !cid_accepted(m, frame.cid) {
            failed(
                m,
                OutputView::empty(),
                CoreError::CidMismatch { expected: m.cid, got: frame.cid },
            )
        } else {
            session_frame_step(m, now_ms, path, frame)
        },
    }
}

/// A frame that makes a machine start its timers.
pub open spec fn starts_timers(m: MachineView, frame: FrameView) -> bool {
    if m.role == Role::Server {
        &&& frame.message_type == MessageType::ClientHello || frame.message_type
            == MessageType::HelloAck
        &&& m.state == LifecycleState::PreHandshake
    } else {
        &&& frame.message_type == MessageType::ServerHello
        &&& m.state == LifecycleState::PreHandshake || m.state == LifecycleState::Reactivating
    }
}

/// All deadlines and message ids that a datagram leads to are representable.
pub open spec fn datagram_fits(m: MachineView, now_ms: u64, path: u32, bytes: Seq<u8>) -> bool {
    match wire::parse_frame(bytes) {
        Err(_) => true,
        Ok(frame) => cid_accepted(m, frame.cid) ==> {
            &&& now_ms + m.cfg.disconnect_window_ms <= u64::MAX
            &&& starts_timers(m, frame) ==> now_ms + m.cfg.msr_interval_ms <= u64::MAX
            &&& datagram_step(m, now_ms, path, bytes).machine.last_ordered_rx < u64::MAX
        },
    }
}

/// That deadlines from `now_ms` on and ids for everything that waits are
/// representable.
pub open spec fn has_room(m: MachineView, now_ms: u64) -> bool {
    &&& now_ms + m.cfg.disconnect_window_ms <= u64::MAX
    &&& now_ms + m.cfg.msr_interval_ms <= u64::MAX
    &&& m.last_ordered_rx + m.received_buffer.dom().len() + 1 < u64::MAX
}

/// The opening of a handshake.
pub open spec fn begin_step(m: MachineView) -> Step {
    if m.role == Role::Client {
        done(
            m,
            OutputView::empty().send(
                m.current_path_id,
                codec::core_frame_bytes(
                    MessageType::ClientHello,
                    m.cid,
                    Seq::empty(),
                    Seq::empty(),
                ),
            ).emit(EventView::HandshakeStarted),
        )
    } else {
        done(m, OutputView::empty())
    }
}

/// Whether the server has been silent for longer than the miss window.
pub open spec fn msr_missed(m: MachineView, now_ms: u64) -> bool {
    let last = match m.last_server_msr_at_ms {
        Some(at) => at,
        None => 0,
    };
    now_ms - last > codec::saturating_product(m.cfg.msr_interval_ms, m.cfg.miss_window_count)
}

/// The server's MSR timer.
pub open spec fn server_msr_timer(m: MachineView, now_ms: u64) -> Step {
    let count = if m.server_consecutive_msr_without_client_msr == u32::MAX {
        u32::MAX
    } else {
        (m.server_consecutive_msr_without_client_msr + 1) as u32
    };
    let m1 = MachineView { server_consecutive_msr_without_client_msr: count, ..m };
    if count > SERVER_MAX_CONSECUTIVE_SERVER_MSR_WITHOUT_CLIENT_MSR {
        done(
            MachineView { state: LifecycleState::Lost, ..m1 },
            OutputView::empty().emit(EventView::Disconnected),
        )
    } else {
        done(
            m1.deadline_touched(now_ms),
            server_timers(
                m1,
                now_ms,
                OutputView::empty().send(
                    m.current_path_id,
                    msr_bytes(m.cid, m.last_ordered_rx, 0, Seq::empty()),
                ),
            ),
        )
    }
}

/// The client's probe timer.
pub open spec fn client_probe_timer(m: MachineView, now_ms: u64) -> Step {
    let deadline = (now_ms + m.cfg.msr_interval_ms) as u64;
    if msr_missed(m, now_ms) {
        done(
            MachineView { state: LifecycleState::Reactivating, ..m },
            OutputView::empty().send(
                m.current_path_id,
                msr_bytes(m.cid, 0, m.max_pending_id(), Seq::empty()),
            ).emit(EventView::ReactivationProbeSent).schedule(TimerId::ClientProbe, deadline),
        )
    } else {
        done(m, OutputView::empty().schedule(TimerId::ClientProbe, deadline))
    }
}

pub open spec fn client_is_live(m: MachineView) -> bool {
    &&& m.role == Role::Client
    &&& m.state == LifecycleState::Established || m.state == LifecycleState::Reactivating
}

pub open spec fn server_is_live(m: MachineView) -> bool {
    m.role == Role::Server && m.state == LifecycleState::Established
}

/// Reaction to a timer.
pub open spec fn timer_step(m: MachineView, now_ms: u64, id: TimerId) -> Step {
    match id {
        TimerId::ServerMsr => if server_is_live(m) {
            server_msr_timer(m, now_ms)
        } else {
            done(m, OutputView::empty())
        },
        TimerId::ClientProbe => if client_is_live(m) {
            client_probe_timer(m, now_ms)
        } else {
            done(m, OutputView::empty())
        },
        TimerId::Disconnect => match m.disconnect_deadline_ms {
            Some(deadline) => if now_ms >= deadline && m.state != LifecycleState::Lost {
                done(
                    MachineView { state: LifecycleState::Lost, ..m },
                    OutputView::empty().emit(EventView::Disconnected),
                )
            } else {
                done(m, OutputView::empty().schedule(TimerId::Disconnect, deadline))
            },
            None => done(m, OutputView::empty()),
        },
        TimerId::RenegotiationTimeout => match m.pending_local_proposal {
            Some(pending) => if now_ms >= pending.expires_at_ms {
                done(
                    MachineView { pending_local_proposal: None, ..m },
                    OutputView::empty().emit(
                        EventView::TimerRenegotiationRolledBack {
                            proposal_id: pending.proposal_id,
                        },
                    ),
                )
            } else {
                done(m, OutputView::empty())
            },
            None => done(m, OutputView::empty()),
        },
    }
}

/// All deadlines that a timer leads to are representable.
pub open spec fn timer_fits(m: MachineView, now_ms: u64, id: TimerId) -> bool {
    match id {
        TimerId::ServerMsr => server_is_live(m) && m.server_consecutive_msr_without_client_msr
            < SERVER_MAX_CONSECUTIVE_SERVER_MSR_WITHOUT_CLIENT_MSR ==> {
            &&& now_ms + m.cfg.msr_interval_ms <= u64::MAX
            &&& now_ms + m.cfg.disconnect_window_ms <= u64::MAX
        },
        TimerId::ClientProbe => client_is_live(m) ==> now_ms + m.cfg.msr_interval_ms <= u64::MAX,
        _ => true,
    }
}

/// A message of the application is queued and, once the session stands,
/// advertised.
pub open spec fn send_step(m: MachineView, payload: Seq<u8>) -> Step {
    let m1 = MachineView {
        next_outbound_id: (m.next_outbound_id + 1) as u64,
        outbound_messages: m.outbound_messages.insert(m.next_outbound_id, payload),
        ..m
    };
    let pending = m1.max_pending_id();
    if m.state != LifecycleState::Established {
        done(m1, OutputView::empty())
    } else if m.role == Role::Client {
        done(
            m1,
            OutputView::empty().send(
                m.current_path_id,
                msr_bytes(m.cid, 0, pending, Seq::empty()),
            ).emit(EventView::QueueAdvertised { next_pending_id: pending }),
        )
    } else {
        done(
            m1,
            OutputView::empty().send(
                m.current_path_id,
                msr_bytes(m.cid, m.last_ordered_rx, pending, Seq::empty()),
            ),
        )
    }
}

/// The application closes the session.
pub open spec fn close_step(m: MachineView) -> Step {
    if m.state == LifecycleState::Lost {
        done(m, OutputView::empty())
    } else {
        done(
            MachineView { state: LifecycleState::Lost, ..m },
            OutputView::empty().send(
                m.current_path_id,
                codec::core_frame_bytes(MessageType::Close, m.cid, Seq::empty(), Seq::empty()),
            ).emit(EventView::Disconnected),
        )
    }
}

/// The application proposes other timers.
pub open spec fn propose_step(m: MachineView, now_ms: u64, proposal: TimerProposal) -> Step {
    if m.state != LifecycleState::Established {
        failed(m, OutputView::empty(), CoreError::InvalidStateForRenegotiation)
    } else if codec::proposal_refusal(m.cfg, proposal) is Some {
        failed(m, OutputView::empty(), codec::proposal_refusal(m.cfg, proposal).unwrap())
    } else {
        let proposal_id = m.next_proposal_id;
        let expires_at_ms = codec::saturating_sum(
            now_ms,
            codec::saturating_product(m.cfg.msr_interval_ms, 2),
        );
        done(
            MachineView {
                next_proposal_id: if proposal_id == u32::MAX {
                    u32::MAX
                } else {
                    (proposal_id + 1) as u32
                },
                pending_local_proposal: Some(
                    PendingRenegotiation { proposal_id, proposal, expires_at_ms },
                ),
                ..m
            },
            OutputView::empty().send(
                m.current_path_id,
                msr_bytes(
                    m.cid,
                    0,
                    m.max_pending_id(),
                    seq![codec::proposal_tlv(proposal_id, proposal)],
                ),
            ).emit(EventView::TimerRenegotiationProposed { proposal_id }).schedule(
                TimerId::RenegotiationTimeout,
                expires_at_ms,
            ),
        )
    }
}

/// The path below the session changes.
pub open spec fn path_step(m: MachineView, event: PathEvent) -> Step {
    match event {
        PathEvent::PathChanged { path_id } => done(
            MachineView { current_path_id: path_id, ..m },
            OutputView::empty(),
        ),
    }
}

} // verus!
