//! How the two sides of a session agree on other timers.

use vstd::prelude::*;

use crate::big_endian;
use crate::session::codec;
use crate::session::laws;
use crate::session::model;
use crate::session::model::MachineView;
use crate::session::serving;
use crate::session::types::{
    CoreConfig, CoreError, EventView, LifecycleState, OutputView, PendingRenegotiation,
    TimerAction, TimerId, TimerProposal,
};
use crate::wire;
use crate::wire::{MessageType, TlvView};

verus! {

/// The timers that a side with some miss window takes: an MSR every second to every
/// two minutes, up to 64 of which may be missed but at most two more than now, and a
/// disconnect window of five seconds to a quarter of an hour that is long enough to
/// notice the misses.
pub open spec fn is_acceptable(current: CoreConfig, proposal: TimerProposal) -> bool {
    &&& 1_000 <= proposal.msr_interval_ms <= 120_000
    &&& 1 <= proposal.miss_window_count <= 64
    &&& proposal.miss_window_count <= current.miss_window_count + 2
    &&& 5_000 <= proposal.disconnect_window_ms <= 900_000
    &&& proposal.msr_interval_ms * proposal.miss_window_count <= proposal.disconnect_window_ms
}

/// A proposal is refused exactly where it leaves the bounds, and the refusal names
/// the bound.
pub proof fn law_proposals_within_bounds_are_accepted(current: CoreConfig, proposal: TimerProposal)
    ensures
        codec::proposal_refusal(current, proposal) is None <==> is_acceptable(current, proposal),
        proposal.msr_interval_ms < 1_000 || proposal.msr_interval_ms > 120_000
            ==> codec::proposal_refusal(current, proposal) == Some(
            CoreError::InvalidTimerProposal("msr_interval_ms out of bounds"),
        ),
        1_000 <= proposal.msr_interval_ms <= 120_000 && (proposal.miss_window_count == 0
            || proposal.miss_window_count > 64) ==> codec::proposal_refusal(current, proposal)
            == Some(CoreError::InvalidTimerProposal("miss_window_count out of bounds")),
        1_000 <= proposal.msr_interval_ms <= 120_000 && current.miss_window_count + 2
            < proposal.miss_window_count <= 64 ==> codec::proposal_refusal(current, proposal)
            == Some(CoreError::InvalidTimerProposal("miss_window_count step too large")),
        1_000 <= proposal.msr_interval_ms <= 120_000 && 1 <= proposal.miss_window_count <= 64
            && proposal.miss_window_count <= current.miss_window_count + 2 && (
        proposal.disconnect_window_ms < 5_000 || proposal.disconnect_window_ms > 900_000)
            ==> codec::proposal_refusal(current, proposal) == Some(
            CoreError::InvalidTimerProposal("disconnect_window_ms out of bounds"),
        ),
        1_000 <= proposal.msr_interval_ms <= 120_000 && 1 <= proposal.miss_window_count <= 64
            && proposal.miss_window_count <= current.miss_window_count + 2 && 5_000
            <= proposal.disconnect_window_ms <= 900_000 && proposal.msr_interval_ms
            * proposal.miss_window_count > proposal.disconnect_window_ms
            ==> codec::proposal_refusal(current, proposal) == Some(
            CoreError::InvalidTimerProposal("disconnect_window_ms smaller than probe window"),
        ),
{
}

/// A proposal as the record of a frame.
pub open spec fn proposal_record(proposal_id: u32, proposal: TimerProposal) -> Seq<TlvView> {
    seq![
        TlvView {
            kind: 0x30,
            value: big_endian::be_bytes(proposal_id as nat, 4) + big_endian::be_bytes(
                proposal.msr_interval_ms as nat,
                8,
            ) + big_endian::be_bytes(proposal.miss_window_count as nat, 8) + big_endian::be_bytes(
                proposal.disconnect_window_ms as nat,
                8,
            ),
        },
    ]
}

/// The answer to a proposal as the record of a frame.
pub open spec fn answer_record(proposal_id: u32, accepted: bool) -> Seq<TlvView> {
    seq![
        TlvView {
            kind: 0x31,
            value: big_endian::be_bytes(proposal_id as nat, 4) + seq![
                if accepted {
                    1u8
                } else {
                    0u8
                },
            ],
        },
    ]
}

/// A number, held at a limit.
pub open spec fn at_most(value: int, limit: u64) -> int {
    if value > limit {
        limit as int
    } else {
        value
    }
}

/// Of a session that stands, acceptable timers are proposed: one MSR on its path
/// carries them, the proposal is open and numbered, and it waits for two MSR
/// intervals. Anything else is refused and changes nothing.
pub proof fn law_acceptable_timers_are_proposed(
    m: MachineView,
    now_ms: u64,
    proposal: TimerProposal,
)
    requires
        m.next_outbound_id >= 1,
    ensures
        ({
            let step = model::propose_step(m, now_ms, proposal);
            if m.state != LifecycleState::Established {
                &&& step.machine == m
                &&& step.error == Some(CoreError::InvalidStateForRenegotiation)
            } else if !is_acceptable(m.cfg, proposal) {
                &&& step.machine == m
                &&& step.error is Some
                &&& step.error == codec::proposal_refusal(m.cfg, proposal)
            } else {
                let expires_at_ms = at_most(now_ms + m.cfg.msr_interval_ms * 2, u64::MAX) as u64;
                let proposal_id = m.next_proposal_id;
                &&& step.error is None
                &&& step.machine == (MachineView {
                    next_proposal_id: at_most(m.next_proposal_id + 1, u32::MAX as u64) as u32,
                    pending_local_proposal: Some(
                        PendingRenegotiation { proposal_id, proposal, expires_at_ms },
                    ),
                    ..m
                })
                &&& step.out.events == seq![EventView::TimerRenegotiationProposed { proposal_id }]
                &&& step.out.timer_actions == seq![
                    TimerAction::Schedule {
                        id: TimerId::RenegotiationTimeout,
                        deadline_ms: expires_at_ms,
                    },
                ]
                &&& step.out.outbound_datagrams.len() == 1
                &&& step.out.outbound_datagrams[0].path_id == m.current_path_id
                &&& serving::reads_as(
                    step.out.outbound_datagrams[0].bytes,
                    MessageType::Msr,
                    m.cid,
                    serving::two_numbers(0, m.next_outbound_id - 1),
                    proposal_record(proposal_id, proposal),
                )
            }
        }),
{
    let step = model::propose_step(m, now_ms, proposal);
    let queue = (m.next_outbound_id - 1) as u64;
    let proposal_id = m.next_proposal_id;
    laws::lemma_pair_len(0, queue);
    big_endian::lemma_be_bytes_len(proposal_id as nat, 4);
    big_endian::lemma_be_bytes_len(proposal.msr_interval_ms as nat, 8);
    big_endian::lemma_be_bytes_len(proposal.miss_window_count as nat, 8);
    big_endian::lemma_be_bytes_len(proposal.disconnect_window_ms as nat, 8);
    let record = seq![codec::proposal_tlv(proposal_id, proposal)];
    assert(record =~= proposal_record(proposal_id, proposal));
    laws::lemma_core_frame_read(MessageType::Msr, m.cid, codec::pair_bytes(0, queue), record);
    if step.error is None {
        assert(step.out.events =~= seq![EventView::TimerRenegotiationProposed { proposal_id }]);
        assert(step.out.timer_actions =~= seq![
            TimerAction::Schedule {
                id: TimerId::RenegotiationTimeout,
                deadline_ms: at_most(now_ms + m.cfg.msr_interval_ms * 2, u64::MAX) as u64,
            },
        ]);
    }
}

/// A proposal of the peer is answered on its path with its number. It is taken, and
/// said to be taken, exactly if it is acceptable; else nothing changes.
pub proof fn law_proposal_is_answered(
    m: MachineView,
    now_ms: u64,
    path: u32,
    bytes: Seq<u8>,
    proposal_id: u32,
    proposal: TimerProposal,
)
    requires
        m.next_outbound_id >= 1,
        serving::is_for(m, bytes),
        wire::parse_frame(bytes)->Ok_0.message_type == MessageType::Msr,
        wire::parse_frame(bytes)->Ok_0.payload.len() >= 16,
        wire::parse_frame(bytes)->Ok_0.tlvs == proposal_record(proposal_id, proposal),
    ensures
        ({
            let step = model::datagram_step(m, now_ms, path, bytes);
            let accepted = is_acceptable(m.cfg, proposal);
            &&& step.error is None
            &&& step.machine.pending_local_proposal == m.pending_local_proposal
            &&& step.machine.cfg == if accepted {
                CoreConfig {
                    msr_interval_ms: proposal.msr_interval_ms,
                    miss_window_count: proposal.miss_window_count,
                    disconnect_window_ms: proposal.disconnect_window_ms,
                }
            } else {
                m.cfg
            }
            &&& step.out.events.len() > 0
            &&& step.out.events[0] == if accepted {
                EventView::TimerRenegotiationCommitted { proposal_id }
            } else {
                EventView::TimerRenegotiationRejected { proposal_id }
            }
            &&& step.out.outbound_datagrams.len() > 0
            &&& step.out.outbound_datagrams[0].path_id == path
            &&& serving::reads_as(
                step.out.outbound_datagrams[0].bytes,
                MessageType::Msr,
                m.cid,
                serving::two_numbers(m.last_ordered_rx as int, m.next_outbound_id - 1),
                answer_record(proposal_id, accepted),
            )
        }),
{
    let frame = wire::parse_frame(bytes)->Ok_0;
    let none = OutputView::empty();
    let m1 = laws::met(m, now_ms, path);
    let accepted = is_acceptable(m.cfg, proposal);
    let queue = (m.next_outbound_id - 1) as u64;
    codec::law_proposal_round_trip(proposal_id, proposal);
    assert(frame.tlvs[0] == codec::proposal_tlv(proposal_id, proposal));
    let first = model::msr_tlv_step(m1, path, frame.tlvs[0], none);
    laws::lemma_one_tlv(m1, path, frame.tlvs, none);
    let (_, wanted) = codec::pair_of(frame.payload)->0;
    serving::lemma_signal_sends(first.machine, now_ms, path, wanted, true, first.out);
    laws::lemma_signal_extends(first.machine, now_ms, path, wanted, true, first.out);
    let answer = seq![codec::ack_tlv(proposal_id, accepted)];
    assert(answer =~= answer_record(proposal_id, accepted)) by {
        assert(answer[0].value =~= answer_record(proposal_id, accepted)[0].value);
    }
    big_endian::lemma_be_bytes_len(proposal_id as nat, 4);
    laws::lemma_pair_len(m.last_ordered_rx, queue);
    laws::lemma_core_frame_read(
        MessageType::Msr,
        m.cid,
        codec::pair_bytes(m.last_ordered_rx, queue),
        answer,
    );
    assert(first.out.outbound_datagrams[0].bytes == model::msr_bytes(
        m.cid,
        m.last_ordered_rx,
        queue,
        answer,
    ));
    let sent = model::datagram_step(m, now_ms, path, bytes).out.outbound_datagrams;
    assert(sent[0] == first.out.outbound_datagrams[0]);
}

/// The peer's answer settles the open proposal that it names: if accepted, its timers
/// are taken. An answer to anything else settles nothing.
pub proof fn law_answer_settles_the_proposal(
    m: MachineView,
    now_ms: u64,
    path: u32,
    bytes: Seq<u8>,
    proposal_id: u32,
    accepted: bool,
)
    requires
        m.next_outbound_id >= 1,
        serving::is_for(m, bytes),
        wire::parse_frame(bytes)->Ok_0.message_type == MessageType::Msr,
        wire::parse_frame(bytes)->Ok_0.payload.len() >= 16,
        wire::parse_frame(bytes)->Ok_0.tlvs == answer_record(proposal_id, accepted),
    ensures
        ({
            let step = model::datagram_step(m, now_ms, path, bytes);
            &&& step.error is None
            &&& if m.pending_local_proposal matches Some(open) && open.proposal_id == proposal_id {
                let proposal = m.pending_local_proposal->0.proposal;
                &&& step.machine.pending_local_proposal is None
                &&& step.machine.cfg == if accepted {
                    CoreConfig {
                        msr_interval_ms: proposal.msr_interval_ms,
                        miss_window_count: proposal.miss_window_count,
                        disconnect_window_ms: proposal.disconnect_window_ms,
                    }
                } else {
                    m.cfg
                }
                &&& step.out.events.len() > 0
                &&& step.out.events[0] == if accepted {
                    EventView::TimerRenegotiationCommitted { proposal_id }
                } else {
                    EventView::TimerRenegotiationRejected { proposal_id }
                }
            } else {
                &&& step.machine.pending_local_proposal == m.pending_local_proposal
                &&& step.machine.cfg == m.cfg
                &&& forall|i: int|
                    #![trigger step.out.events[i]]
                    0 <= i < step.out.events.len() ==> !(
                    step.out.events[i] is TimerRenegotiationCommitted)
                        && !(step.out.events[i] is TimerRenegotiationRejected)
            }
        }),
{
    let frame = wire::parse_frame(bytes)->Ok_0;
    let none = OutputView::empty();
    let m1 = laws::met(m, now_ms, path);
    codec::law_ack_round_trip(proposal_id, accepted);
    assert(frame.tlvs[0] == codec::ack_tlv(proposal_id, accepted)) by {
        assert(frame.tlvs[0].value =~= codec::ack_tlv(proposal_id, accepted).value);
    }
    let first = model::msr_tlv_step(m1, path, frame.tlvs[0], none);
    laws::lemma_one_tlv(m1, path, frame.tlvs, none);
    let (_, wanted) = codec::pair_of(frame.payload)->0;
    laws::lemma_signal_extends(first.machine, now_ms, path, wanted, true, first.out);
}

/// An open proposal is rolled back by its timer once its time is over, and not
/// before. Without an open proposal the timer does nothing.
pub proof fn law_proposal_waits_for_its_time(m: MachineView, now_ms: u64)
    ensures
        ({
            let step = model::timer_step(m, now_ms, TimerId::RenegotiationTimeout);
            &&& step.error is None
            &&& step.out.outbound_datagrams.len() == 0
            &&& step.out.timer_actions.len() == 0
            &&& match m.pending_local_proposal {
                Some(open) => if now_ms >= open.expires_at_ms {
                    &&& step.machine == (MachineView { pending_local_proposal: None, ..m })
                    &&& step.out.events == seq![
                        EventView::TimerRenegotiationRolledBack { proposal_id: open.proposal_id },
                    ]
                } else {
                    step.machine == m && step.out.events.len() == 0
                },
                None => step.machine == m && step.out.events.len() == 0,
            }
        }),
{
    let step = model::timer_step(m, now_ms, TimerId::RenegotiationTimeout);
    if let Some(open) = m.pending_local_proposal {
        if now_ms >= open.expires_at_ms {
            assert(step.out.events =~= seq![
                EventView::TimerRenegotiationRolledBack { proposal_id: open.proposal_id },
            ]);
        }
    }
}

/// A record that is no proposal or no answer though it says so ends the frame with an
/// error that tells which; records of other kinds are passed over.
pub proof fn law_malformed_records_are_refused(
    m: MachineView,
    now_ms: u64,
    path: u32,
    bytes: Seq<u8>,
)
    requires
        serving::is_for(m, bytes),
        wire::parse_frame(bytes)->Ok_0.message_type == MessageType::Msr,
        wire::parse_frame(bytes)->Ok_0.payload.len() >= 16,
        wire::parse_frame(bytes)->Ok_0.tlvs.len() == 1,
    ensures
        ({
            let record = wire::parse_frame(bytes)->Ok_0.tlvs[0];
            let step = model::datagram_step(m, now_ms, path, bytes);
            step.error == if record.kind == 0x30 && record.value.len() != 28 {
                Some(CoreError::MalformedTimerProposal)
            } else if record.kind == 0x31 && (record.value.len() != 5 || record.value[4] > 1) {
                Some(CoreError::MalformedTimerAck)
            } else {
                None
            }
        }),
        ({
            let record = wire::parse_frame(bytes)->Ok_0.tlvs[0];
            let step = model::datagram_step(m, now_ms, path, bytes);
            record.kind != 0x30 && record.kind != 0x31 ==> step.machine.cfg == m.cfg
                && step.machine.pending_local_proposal == m.pending_local_proposal
        }),
{
    let frame = wire::parse_frame(bytes)->Ok_0;
    let none = OutputView::empty();
    let m1 = laws::met(m, now_ms, path);
    let first = model::msr_tlv_step(m1, path, frame.tlvs[0], none);
    reveal_with_fuel(model::msr_tlvs_step, 2);
    let (_, wanted) = codec::pair_of(frame.payload)->0;
    laws::lemma_signal_extends(first.machine, now_ms, path, wanted, true, first.out);
}

} // verus!
