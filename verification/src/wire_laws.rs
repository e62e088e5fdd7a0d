//! What holds of frames on the wire: where each part stands, and which datagrams are
//! frames.

use vstd::prelude::*;

use crate::big_endian;
use crate::wire;
use crate::wire::{FrameView, MessageType, TlvView, WireError};

verus! {

/// A byte stands for one message type at most, and each type for one byte.
pub proof fn law_types_have_their_bytes(message_type: MessageType, value: u8)
    ensures
        wire::message_type_of(message_type.code()) == Ok::<MessageType, WireError>(message_type),
        wire::message_type_of(value) matches Ok(found) ==> found.code() == value,
        wire::message_type_of(value) is Err ==> wire::message_type_of(value) == Err::<
            MessageType,
            WireError,
        >(WireError::UnknownMessageType(value)),
        value == 0x01 || value == 0x02 || value == 0x03 || value == 0x10 || value == 0x11 || value
            == 0x12 || value == 0x13 || value == 0x7e || value == 0x7f <==> wire::message_type_of(
            value,
        ) is Ok,
        MessageType::ClientHello.code() == 0x01,
        MessageType::ServerHello.code() == 0x02,
        MessageType::HelloAck.code() == 0x03,
        MessageType::Msr.code() == 0x10,
        MessageType::RequestRange.code() == 0x11,
        MessageType::Data.code() == 0x12,
        MessageType::Fragment.code() == 0x13,
        MessageType::Error.code() == 0x7e,
        MessageType::Close.code() == 0x7f,
{
}

/// Two bytes spell a number of two digits to the base 256, the higher first; longer ones
/// go on alike.
pub proof fn law_numbers_are_big_endian(high: u8, low: u8, bytes: Seq<u8>)
    ensures
        big_endian::be_value(seq![high, low]) == 256 * high + low,
        big_endian::be_value(Seq::empty()) == 0,
        big_endian::be_value(bytes.push(low)) == 256 * big_endian::be_value(bytes) + low,
{
    reveal_with_fuel(big_endian::be_value, 3);
    assert(seq![high, low].drop_last() =~= seq![high]);
    assert(seq![high].drop_last() =~= Seq::<u8>::empty());
    assert(bytes.push(low).drop_last() =~= bytes);
}

/// Where the parts of a frame stand: version, type and flags in a byte each, the
/// connection in eight, the two lengths in two each, then the payload and the records.
pub proof fn law_frame_has_its_layout(frame: FrameView)
    requires
        wire::frame_refusal(frame) is None,
        frame.payload.len() < 0x1_0000,
    ensures
        ({
            let bytes = wire::frame_bytes(frame);
            let payload_len = frame.payload.len() as int;
            let block = bytes.skip(15 + payload_len);
            &&& bytes.len() >= 15 + payload_len
            &&& bytes[0] == 3
            &&& bytes[1] == frame.message_type.code()
            &&& bytes[2] == frame.flags
            &&& big_endian::be_value(bytes.subrange(3, 11)) == frame.cid
            &&& big_endian::be_value(bytes.subrange(11, 13)) == payload_len
            &&& big_endian::be_value(bytes.subrange(13, 15)) == block.len()
            &&& bytes.subrange(15, 15 + payload_len) == frame.payload
            &&& block == wire::tlv_block(frame.tlvs)
        }),
{
    let bytes = wire::frame_bytes(frame);
    let block = wire::tlv_block(frame.tlvs);
    let plen = frame.payload.len();
    big_endian::lemma_be_range_values();
    big_endian::lemma_be_value_of_bytes(frame.cid as nat, 8);
    big_endian::lemma_be_value_of_bytes(plen, 2);
    big_endian::lemma_be_value_of_bytes(block.len(), 2);
    assert(bytes.subrange(3, 11) =~= big_endian::be_bytes(frame.cid as nat, 8));
    assert(bytes.subrange(11, 13) =~= big_endian::be_bytes(plen, 2));
    assert(bytes.subrange(13, 15) =~= big_endian::be_bytes(block.len(), 2));
    assert(bytes.subrange(15, 15 + plen as int) =~= frame.payload);
    assert(bytes.skip(15 + plen as int) =~= block);
}

/// Records stand one after the other, each as its kind, its length in two bytes and its
/// value.
pub proof fn law_records_have_their_layout(tlvs: Seq<TlvView>, tlv: TlvView)
    requires
        tlv.value.len() < 0x1_0000,
    ensures
        wire::tlv_block(Seq::empty()) == Seq::<u8>::empty(),
        wire::tlv_block(tlvs.push(tlv)) == wire::tlv_block(tlvs) + wire::tlv_bytes(tlv),
        wire::tlv_bytes(tlv).len() == 3 + tlv.value.len(),
        wire::tlv_bytes(tlv)[0] == tlv.kind,
        big_endian::be_value(wire::tlv_bytes(tlv).subrange(1, 3)) == tlv.value.len(),
        wire::tlv_bytes(tlv).skip(3) == tlv.value,
{
    assert(tlvs.push(tlv).drop_last() =~= tlvs);
    big_endian::lemma_be_range_values();
    big_endian::lemma_be_value_of_bytes(tlv.value.len(), 2);
    assert(wire::tlv_bytes(tlv).subrange(1, 3) =~= big_endian::be_bytes(tlv.value.len(), 2));
    assert(wire::tlv_bytes(tlv).skip(3) =~= tlv.value);
}

proof fn lemma_oversized(tlvs: Seq<TlvView>)
    ensures
        wire::oversized_tlv(tlvs) is None <==> forall|i: int|
            #![trigger tlvs[i]]
            0 <= i < tlvs.len() ==> tlvs[i].value.len() <= 2048,
    decreases tlvs.len(),
{
    if tlvs.len() > 0 {
        let front = tlvs.drop_last();
        lemma_oversized(front);
        if wire::oversized_tlv(tlvs) is None {
            assert forall|i: int| #![trigger tlvs[i]] 0 <= i < tlvs.len() implies
                tlvs[i].value.len() <= 2048 by {
                if i < front.len() {
                    assert(front[i] == tlvs[i]);
                }
            }
        } else if forall|i: int|
            #![trigger tlvs[i]]
            0 <= i < tlvs.len() ==> tlvs[i].value.len() <= 2048 {
            assert forall|i: int| #![trigger front[i]] 0 <= i < front.len() implies
                front[i].value.len() <= 2048 by {
                assert(front[i] == tlvs[i]);
            }
            assert(tlvs[tlvs.len() - 1].value.len() <= 2048);
        }
    }
}

/// A frame can be sent exactly if it has the version three, at most 65536 bytes of
/// payload and at most 64 records of at most 2048 bytes, whose block fits its length.
pub proof fn law_frames_within_the_limits_are_sent(frame: FrameView)
    ensures
        wire::frame_refusal(frame) is None <==> {
            &&& frame.version == 3
            &&& frame.payload.len() <= 65_536
            &&& frame.tlvs.len() <= 64
            &&& forall|i: int|
                #![trigger frame.tlvs[i]]
                0 <= i < frame.tlvs.len() ==> frame.tlvs[i].value.len() <= 2048
            &&& wire::tlv_block(frame.tlvs).len() <= 65_535
        },
{
    lemma_oversized(frame.tlvs);
}

/// Why a datagram is no frame: too short for a header, of another version, of no type, or
/// not as long as it says, in this order.
pub proof fn law_other_datagrams_are_no_frames(bytes: Seq<u8>)
    ensures
        ({
            let read = wire::parse_frame(bytes);
            let said = big_endian::be_value(bytes.subrange(11, 13)) + big_endian::be_value(
                bytes.subrange(13, 15),
            );
            &&& bytes.len() < 15 ==> read == Err::<FrameView, WireError>(WireError::Truncated)
            &&& bytes.len() >= 15 && bytes[0] != 3 ==> read == Err::<FrameView, WireError>(
                WireError::UnsupportedVersion(bytes[0]),
            )
            &&& bytes.len() >= 15 && bytes[0] == 3 && wire::message_type_of(bytes[1]) is Err
                ==> read == Err::<FrameView, WireError>(WireError::UnknownMessageType(bytes[1]))
            &&& bytes.len() >= 15 && bytes[0] == 3 && wire::message_type_of(bytes[1]) is Ok
                && bytes.len() - 15 != said ==> read == Err::<FrameView, WireError>(
                WireError::LengthMismatch {
                    remaining: (bytes.len() - 15) as usize,
                    expected: said as usize,
                },
            )
            &&& read is Ok ==> {
                &&& bytes.len() == 15 + said
                &&& read->Ok_0.version == 3
                &&& read->Ok_0.message_type.code() == bytes[1]
                &&& read->Ok_0.flags == bytes[2]
                &&& read->Ok_0.payload == bytes.subrange(
                    15,
                    15 + big_endian::be_value(bytes.subrange(11, 13)) as int,
                )
            }
        }),
{
}

/// Why a block of records cannot be read: a head that is not whole, one record too many, a
/// value that is too long or not whole.
pub proof fn law_broken_blocks_are_refused(block: Seq<u8>, seen: nat)
    requires
        block.len() > 0,
    ensures
        ({
            let read = wire::parse_tlvs(block, seen);
            let len = big_endian::be_value(block.subrange(1, 3));
            &&& block.len() < 3 ==> read == Err::<Seq<TlvView>, WireError>(WireError::MalformedTlv)
            &&& block.len() >= 3 && seen >= 64 ==> read == Err::<Seq<TlvView>, WireError>(
                WireError::TooManyTlvs(seen as usize),
            )
            &&& block.len() >= 3 && seen < 64 && len > 2048 ==> read == Err::<
                Seq<TlvView>,
                WireError,
            >(WireError::TlvTooLarge(len as usize))
            &&& block.len() >= 3 && seen < 64 && len <= 2048 && block.len() < 3 + len ==> read
                == Err::<Seq<TlvView>, WireError>(WireError::MalformedTlv)
        }),
{
}

} // verus!
