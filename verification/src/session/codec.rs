//! The payloads and records that session machines exchange.

use vstd::prelude::*;

use crate::big_endian;
use crate::big_endian::{append_be, read_be};
use crate::session::types::{CoreConfig, CoreError, TimerProposal};
use crate::wire;
use crate::wire::{FrameView, MessageType, Tlv, TlvView, WireFrame};

verus! {

pub const TLV_TIMER_PROPOSAL: u8 = 0x30;

pub const TLV_TIMER_ACK: u8 = 0x31;

pub const TLV_MSR_SIGNAL: u8 = 0x32;

/// A frame as a machine sends it: current version, no flags.
pub open spec fn core_frame(
    message_type: MessageType,
    cid: u64,
    payload: Seq<u8>,
    tlvs: Seq<TlvView>,
) -> FrameView {
    FrameView {
        version: wire::WIRE_VERSION_V3,
        message_type,
        flags: 0,
        cid,
        payload,
        tlvs,
    }
}

/// The datagram for such a frame.
pub open spec fn core_frame_bytes(
    message_type: MessageType,
    cid: u64,
    payload: Seq<u8>,
    tlvs: Seq<TlvView>,
) -> Seq<u8> {
    wire::frame_bytes(core_frame(message_type, cid, payload, tlvs))
}

/// Frames with a payload below the limit and at most one short record always
/// fit the wire.
pub proof fn lemma_core_frame_fits(
    message_type: MessageType,
    cid: u64,
    payload: Seq<u8>,
    tlvs: Seq<TlvView>,
)
    requires
        payload.len() <= wire::MAX_PAYLOAD_LEN,
        tlvs.len() <= 1,
        tlvs.len() == 1 ==> tlvs[0].value.len() <= wire::MAX_TLV_VALUE_LEN,
    ensures
        wire::frame_refusal(core_frame(message_type, cid, payload, tlvs)) is None,
{
    reveal_with_fuel(wire::oversized_tlv, 2);
    reveal_with_fuel(wire::tlv_block, 2);
    if tlvs.len() == 1 {
        big_endian::lemma_be_bytes_len(tlvs[0].value.len(), 2);
    }
}

pub fn encode_frame(message_type: MessageType, cid: u64, payload: &[u8]) -> (result: Result<
    Vec<u8>,
    CoreError,
>)
    ensures
        match wire::frame_refusal(core_frame(message_type, cid, payload@, Seq::empty())) {
            Some(e) => result == Err::<Vec<u8>, CoreError>(CoreError::Wire(e)),
            None => result is Ok && result->Ok_0@ == core_frame_bytes(
                message_type,
                cid,
                payload@,
                Seq::empty(),
            ),
        },
{
    encode_frame_with_tlvs(message_type, cid, payload, Vec::new())
}

pub fn encode_frame_with_tlvs(
    message_type: MessageType,
    cid: u64,
    payload: &[u8],
    tlvs: Vec<Tlv>,
) -> (result: Result<Vec<u8>, CoreError>)
    ensures
        match wire::frame_refusal(
            core_frame(message_type, cid, payload@, wire::tlv_views(tlvs@)),
        ) {
            Some(e) => result == Err::<Vec<u8>, CoreError>(CoreError::Wire(e)),
            None => result is Ok && result->Ok_0@ == core_frame_bytes(
                message_type,
                cid,
                payload@,
                wire::tlv_views(tlvs@),
            ),
        },
{
    let frame = WireFrame::new(message_type, 0, cid, vstd::slice::slice_to_vec(payload), tlvs);
    assert(frame@ == core_frame(message_type, cid, payload@, wire::tlv_views(tlvs@)));
    match frame.encode() {
        Ok(bytes) => Ok(bytes),
        Err(e) => Err(CoreError::Wire(e)),
    }
}

/// Two numbers in eight bytes each.
pub open spec fn pair_bytes(first: u64, second: u64) -> Seq<u8> {
    big_endian::be_bytes(first as nat, 8) + big_endian::be_bytes(second as nat, 8)
}

/// The two numbers that a payload starts with; what follows is not looked at.
pub open spec fn pair_of(payload: Seq<u8>) -> Option<(u64, u64)> {
    if payload.len() < 16 {
        None
    } else {
        Some(
            (
                big_endian::be_value(payload.subrange(0, 8)) as u64,
                big_endian::be_value(payload.subrange(8, 16)) as u64,
            ),
        )
    }
}

/// Two numbers that were written are read back.
pub proof fn law_pair_round_trip(first: u64, second: u64, rest: Seq<u8>)
    ensures
        pair_of(pair_bytes(first, second) + rest) == Some((first, second)),
        pair_of(pair_bytes(first, second)) == Some((first, second)),
{
    let bytes = pair_bytes(first, second) + rest;
    big_endian::lemma_be_range_values();
    big_endian::lemma_be_value_of_bytes(first as nat, 8);
    big_endian::lemma_be_value_of_bytes(second as nat, 8);
    assert(bytes.subrange(0, 8) =~= big_endian::be_bytes(first as nat, 8));
    assert(bytes.subrange(8, 16) =~= big_endian::be_bytes(second as nat, 8));
    assert(pair_bytes(first, second).subrange(0, 8) =~= big_endian::be_bytes(first as nat, 8));
    assert(pair_bytes(first, second).subrange(8, 16) =~= big_endian::be_bytes(second as nat, 8));
}

fn encode_pair(first: u64, second: u64) -> (out: Vec<u8>)
    ensures
        out@ == pair_bytes(first, second),
        out@.len() == 16,
{
    let mut out: Vec<u8> = Vec::with_capacity(16);
    append_be(&mut out, first, 8);
    append_be(&mut out, second, 8);
    proof {
        big_endian::lemma_be_bytes_len(first as nat, 8);
        big_endian::lemma_be_bytes_len(second as nat, 8);
    }
    assert(out@ =~= pair_bytes(first, second));
    out
}

fn decode_pair(payload: &[u8]) -> (result: Option<(u64, u64)>)
    ensures
        result == pair_of(payload@),
{
    if payload.len() < 16 {
        return None;
    }
    Some((read_be(payload, 0, 8), read_be(payload, 8, 8)))
}

pub fn encode_msr_payload(acked: u64, next_pending: u64) -> (out: Vec<u8>)
    ensures
        out@ == pair_bytes(acked, next_pending),
        out@.len() == 16,
{
    encode_pair(acked, next_pending)
}

pub fn decode_msr_payload(payload: &[u8]) -> (result: Option<(u64, u64)>)
    ensures
        result == pair_of(payload@),
{
    decode_pair(payload)
}

pub fn encode_range(start: u64, end: u64) -> (out: Vec<u8>)
    ensures
        out@ == pair_bytes(start, end),
        out@.len() == 16,
{
    encode_pair(start, end)
}

pub fn decode_range(payload: &[u8]) -> (result: Option<(u64, u64)>)
    ensures
        result == pair_of(payload@),
{
    decode_pair(payload)
}

/// The record that carries an MSR next to another payload.
pub open spec fn msr_signal_tlv(acked: u64, next_pending: u64) -> TlvView {
    TlvView { kind: TLV_MSR_SIGNAL, value: pair_bytes(acked, next_pending) }
}

pub fn encode_msr_signal_tlv(acked: u64, next_pending: u64) -> (tlv: Tlv)
    ensures
        tlv@ == msr_signal_tlv(acked, next_pending),
        tlv@.value.len() == 16,
{
    Tlv { kind: TLV_MSR_SIGNAL, value: encode_msr_payload(acked, next_pending) }
}

/// The MSR of the first signal record, if it is readable. Later ones are not
/// looked at.
pub open spec fn msr_signal_of(tlvs: Seq<TlvView>) -> Option<(u64, u64)>
    decreases tlvs.len(),
{
    if tlvs.len() == 0 {
        None
    } else if tlvs[0].kind == TLV_MSR_SIGNAL {
        pair_of(tlvs[0].value)
    } else {
        msr_signal_of(tlvs.skip(1))
    }
}

pub fn find_msr_signal_tlv(tlvs: &[Tlv]) -> (result: Option<(u64, u64)>)
    ensures
        result == msr_signal_of(wire::tlv_views(tlvs@)),
{
    let mut i: usize = 0;
    let ghost views = wire::tlv_views(tlvs@);
    assert(views.skip(0) =~= views);
    while i < tlvs.len()
        invariant
            i <= tlvs@.len(),
            views == wire::tlv_views(tlvs@),
            msr_signal_of(views) == msr_signal_of(views.skip(i as int)),
        decreases tlvs@.len() - i,
    {
        assert(views.skip(i as int)[0] == tlvs@[i as int]@);
        if tlvs[i].kind == TLV_MSR_SIGNAL {
            return decode_msr_payload(&tlvs[i].value);
        }
        assert(views.skip(i as int).skip(1) =~= views.skip(i + 1));
        i = i + 1;
    }
    None
}

/// A timer proposal as the value of a record.
pub open spec fn proposal_bytes(proposal_id: u32, proposal: TimerProposal) -> Seq<u8> {
    big_endian::be_bytes(proposal_id as nat, 4)
        + big_endian::be_bytes(proposal.msr_interval_ms as nat, 8)
        + big_endian::be_bytes(proposal.miss_window_count as nat, 8)
        + big_endian::be_bytes(proposal.disconnect_window_ms as nat, 8)
}

pub open spec fn proposal_tlv(proposal_id: u32, proposal: TimerProposal) -> TlvView {
    TlvView { kind: TLV_TIMER_PROPOSAL, value: proposal_bytes(proposal_id, proposal) }
}

/// The proposal that a record carries.
pub open spec fn proposal_of(tlv: TlvView) -> Option<(u32, TimerProposal)> {
    if tlv.kind != TLV_TIMER_PROPOSAL || tlv.value.len() != 28 {
        None
    } else {
        Some(
            (
                big_endian::be_value(tlv.value.subrange(0, 4)) as u32,
                TimerProposal {
                    msr_interval_ms: big_endian::be_value(tlv.value.subrange(4, 12)) as u64,
                    miss_window_count: big_endian::be_value(tlv.value.subrange(12, 20)) as u64,
                    disconnect_window_ms: big_endian::be_value(tlv.value.subrange(20, 28)) as u64,
                },
            ),
        )
    }
}

/// A proposal that was written is read back.
pub proof fn law_proposal_round_trip(proposal_id: u32, proposal: TimerProposal)
    ensures
        proposal_of(proposal_tlv(proposal_id, proposal)) == Some((proposal_id, proposal)),
{
    let value = proposal_bytes(proposal_id, proposal);
    big_endian::lemma_be_range_values();
    big_endian::lemma_be_value_of_bytes(proposal_id as nat, 4);
    big_endian::lemma_be_value_of_bytes(proposal.msr_interval_ms as nat, 8);
    big_endian::lemma_be_value_of_bytes(proposal.miss_window_count as nat, 8);
    big_endian::lemma_be_value_of_bytes(proposal.disconnect_window_ms as nat, 8);
    assert(value.subrange(0, 4) =~= big_endian::be_bytes(proposal_id as nat, 4));
    assert(value.subrange(4, 12) =~= big_endian::be_bytes(proposal.msr_interval_ms as nat, 8));
    assert(value.subrange(12, 20) =~= big_endian::be_bytes(proposal.miss_window_count as nat, 8));
    assert(value.subrange(20, 28) =~= big_endian::be_bytes(
        proposal.disconnect_window_ms as nat,
        8,
    ));
}

pub fn encode_timer_proposal_tlv(proposal_id: u32, proposal: TimerProposal) -> (tlv: Tlv)
    ensures
        tlv@ == proposal_tlv(proposal_id, proposal),
        tlv@.value.len() == 28,
{
    let mut value: Vec<u8> = Vec::with_capacity(28);
    append_be(&mut value, proposal_id as u64, 4);
    append_be(&mut value, proposal.msr_interval_ms, 8);
    append_be(&mut value, proposal.miss_window_count, 8);
    append_be(&mut value, proposal.disconnect_window_ms, 8);
    proof {
        big_endian::lemma_be_bytes_len(proposal_id as nat, 4);
        big_endian::lemma_be_bytes_len(proposal.msr_interval_ms as nat, 8);
        big_endian::lemma_be_bytes_len(proposal.miss_window_count as nat, 8);
        big_endian::lemma_be_bytes_len(proposal.disconnect_window_ms as nat, 8);
    }
    assert(value@ =~= proposal_bytes(proposal_id, proposal));
    Tlv { kind: TLV_TIMER_PROPOSAL, value }
}

pub fn decode_timer_proposal_tlv(tlv: &Tlv) -> (result: Option<(u32, TimerProposal)>)
    ensures
        result == proposal_of(tlv@),
{
    if tlv.kind != TLV_TIMER_PROPOSAL || tlv.value.len() != 28 {
        return None;
    }
    proof {
        big_endian::lemma_be_range_values();
    }
    Some(
        (
            read_be(&tlv.value, 0, 4) as u32,
            TimerProposal {
                msr_interval_ms: read_be(&tlv.value, 4, 8),
                miss_window_count: read_be(&tlv.value, 12, 8),
                disconnect_window_ms: read_be(&tlv.value, 20, 8),
            },
        ),
    )
}

/// The answer to a proposal as a record.
pub open spec fn ack_tlv(proposal_id: u32, accepted: bool) -> TlvView {
    TlvView {
        kind: TLV_TIMER_ACK,
        value: big_endian::be_bytes(proposal_id as nat, 4).push(
            if accepted {
                1
            } else {
                0
            },
        ),
    }
}

/// The answer that a record carries.
pub open spec fn ack_of(tlv: TlvView) -> Option<(u32, bool)> {
    if tlv.kind != TLV_TIMER_ACK || tlv.value.len() != 5 || tlv.value[4] > 1 {
        None
    } else {
        Some((big_endian::be_value(tlv.value.subrange(0, 4)) as u32, tlv.value[4] == 1))
    }
}

/// An answer that was written is read back.
pub proof fn law_ack_round_trip(proposal_id: u32, accepted: bool)
    ensures
        ack_of(ack_tlv(proposal_id, accepted)) == Some((proposal_id, accepted)),
{
    let value = ack_tlv(proposal_id, accepted).value;
    big_endian::lemma_be_range_values();
    big_endian::lemma_be_value_of_bytes(proposal_id as nat, 4);
    assert(value.subrange(0, 4) =~= big_endian::be_bytes(proposal_id as nat, 4));
}

pub fn encode_timer_ack_tlv(proposal_id: u32, accepted: bool) -> (tlv: Tlv)
    ensures
        tlv@ == ack_tlv(proposal_id, accepted),
        tlv@.value.len() == 5,
{
    let mut value: Vec<u8> = Vec::with_capacity(5);
    append_be(&mut value, proposal_id as u64, 4);
    proof {
        big_endian::lemma_be_bytes_len(proposal_id as nat, 4);
    }
    value.push(
        if accepted {
            1
        } else {
            0
        },
    );
    assert(value@ =~= ack_tlv(proposal_id, accepted).value);
    Tlv { kind: TLV_TIMER_ACK, value }
}

pub fn decode_timer_ack_tlv(tlv: &Tlv) -> (result: Option<(u32, bool)>)
    ensures
        result == ack_of(tlv@),
{
    if tlv.kind != TLV_TIMER_ACK || tlv.value.len() != 5 {
        return None;
    }
    let accepted: bool = match tlv.value[4] {
        0 => false,
        1 => true,
        _ => {
            return None;
        },
    };
    proof {
        big_endian::lemma_be_range_values();
    }
    Some((read_be(&tlv.value, 0, 4) as u32, accepted))
}

/// The product, held at the largest number.
pub open spec fn saturating_product(a: u64, b: u64) -> u64 {
    if a * b > u64::MAX {
        u64::MAX
    } else {
        (a * b) as u64
    }
}

/// The sum, held at the largest number.
pub open spec fn saturating_sum(a: u64, b: u64) -> u64 {
    if a + b > u64::MAX {
        u64::MAX
    } else {
        (a + b) as u64
    }
}

pub(crate) fn saturating_times(a: u64, b: u64) -> (product: u64)
    ensures
        product == saturating_product(a, b),
{
    match a.checked_mul(b) {
        Some(product) => product,
        None => u64::MAX,
    }
}

/// Why a proposal is not acceptable to a side that runs with `current`.
pub open spec fn proposal_refusal(current: CoreConfig, proposal: TimerProposal) -> Option<
    CoreError,
> {
    if !(1_000 <= proposal.msr_interval_ms <= 120_000) {
        Some(CoreError::InvalidTimerProposal("msr_interval_ms out of bounds"))
    } else if !(1 <= proposal.miss_window_count <= 64) {
        Some(CoreError::InvalidTimerProposal("miss_window_count out of bounds"))
    } else if proposal.miss_window_count > current.miss_window_count + 2 {
        Some(CoreError::InvalidTimerProposal("miss_window_count step too large"))
    } else if !(5_000 <= proposal.disconnect_window_ms <= 900_000) {
        Some(CoreError::InvalidTimerProposal("disconnect_window_ms out of bounds"))
    } else if proposal.disconnect_window_ms < proposal.msr_interval_ms
        * proposal.miss_window_count {
        Some(CoreError::InvalidTimerProposal("disconnect_window_ms smaller than probe window"))
    } else {
        None
    }
}

pub const MIN_MSR_INTERVAL_MS: u64 = 1_000;

pub const MAX_MSR_INTERVAL_MS: u64 = 120_000;

pub const MIN_MISS_WINDOW_COUNT: u64 = 1;

pub const MAX_MISS_WINDOW_COUNT: u64 = 64;

pub const MAX_MISS_WINDOW_STEP: u64 = 2;

pub const MIN_DISCONNECT_WINDOW_MS: u64 = 5_000;

pub const MAX_DISCONNECT_WINDOW_MS: u64 = 900_000;

pub fn validate_timer_proposal(current: CoreConfig, proposal: TimerProposal) -> (result: Result<
    (),
    CoreError,
>)
    ensures
        match proposal_refusal(current, proposal) {
            Some(e) => result == Err::<(), CoreError>(e),
            None => result == Ok::<(), CoreError>(()),
        },
{
    if !(MIN_MSR_INTERVAL_MS <= proposal.msr_interval_ms && proposal.msr_interval_ms
        <= MAX_MSR_INTERVAL_MS) {
        return Err(CoreError::InvalidTimerProposal("msr_interval_ms out of bounds"));
    }
    if !(MIN_MISS_WINDOW_COUNT <= proposal.miss_window_count && proposal.miss_window_count
        <= MAX_MISS_WINDOW_COUNT) {
        return Err(CoreError::InvalidTimerProposal("miss_window_count out of bounds"));
    }
    if proposal.miss_window_count > current.miss_window_count.saturating_add(
        MAX_MISS_WINDOW_STEP,
    ) {
        return Err(CoreError::InvalidTimerProposal("miss_window_count step too large"));
    }
    if !(MIN_DISCONNECT_WINDOW_MS <= proposal.disconnect_window_ms
        && proposal.disconnect_window_ms <= MAX_DISCONNECT_WINDOW_MS) {
        return Err(CoreError::InvalidTimerProposal("disconnect_window_ms out of bounds"));
    }
    if proposal.disconnect_window_ms < saturating_times(
        proposal.msr_interval_ms,
        proposal.miss_window_count,
    ) {
        proof {
            assert(proposal.msr_interval_ms * proposal.miss_window_count
                >= proposal.msr_interval_ms * 0) by (nonlinear_arith)
                requires
                    proposal.msr_interval_ms >= 0,
                    proposal.miss_window_count >= 0,
            ;
        }
        return Err(
            CoreError::InvalidTimerProposal("disconnect_window_ms smaller than probe window"),
        );
    }
    Ok(())
}

} // verus!
