//! Compact wire framing for V3 datagrams.
//!
//! A frame is a fixed header (version, message type, flags, connection id and
//! two lengths) followed by the payload and a block of type-length-value
//! records.

use vstd::prelude::*;
use vstd::string::StringExecFns;

use crate::big_endian;
use crate::byte_buffer;
use crate::byte_buffer::{
    buffer_extend, buffer_new, buffer_put_u16, buffer_put_u64, buffer_put_u8, buffer_slice,
    buffer_with_capacity, cursor_copy_to_slice, cursor_get_u16, cursor_get_u64, cursor_get_u8,
};
use crate::text;
use crate::text::{joined_text, push_digits, text_with_number};

verus! {

pub const WIRE_VERSION_V3: u8 = 0x03;

pub const HEADER_LEN: usize = 15;

pub const MAX_TLV_COUNT: usize = 64;

pub const MAX_TLV_VALUE_LEN: usize = 2048;

pub const MAX_PAYLOAD_LEN: usize = 65536;

#[derive(Debug, Clone, Copy, PartialEq, Eq, Structural)]
pub enum MessageType {
    ClientHello,
    ServerHello,
    HelloAck,
    Msr,
    RequestRange,
    Data,
    Fragment,
    Error,
    Close,
}

impl MessageType {
    /// The byte that stands for this type on the wire.
    pub open spec fn code(self) -> u8 {
        match self {
            MessageType::ClientHello => 0x01,
            MessageType::ServerHello => 0x02,
            MessageType::HelloAck => 0x03,
            MessageType::Msr => 0x10,
            MessageType::RequestRange => 0x11,
            MessageType::Data => 0x12,
            MessageType::Fragment => 0x13,
            MessageType::Error => 0x7e,
            MessageType::Close => 0x7f,
        }
    }

    pub fn as_u8(&self) -> (value: u8)
        ensures
            value == self.code(),
    {
        match self {
            MessageType::ClientHello => 0x01,
            MessageType::ServerHello => 0x02,
            MessageType::HelloAck => 0x03,
            MessageType::Msr => 0x10,
            MessageType::RequestRange => 0x11,
            MessageType::Data => 0x12,
            MessageType::Fragment => 0x13,
            MessageType::Error => 0x7e,
            MessageType::Close => 0x7f,
        }
    }

    pub fn from_u8(value: u8) -> (result: Result<MessageType, WireError>)
        ensures
            result == message_type_of(value),
    {
        match value {
            0x01 => Ok(MessageType::ClientHello),
            0x02 => Ok(MessageType::ServerHello),
            0x03 => Ok(MessageType::HelloAck),
            0x10 => Ok(MessageType::Msr),
            0x11 => Ok(MessageType::RequestRange),
            0x12 => Ok(MessageType::Data),
            0x13 => Ok(MessageType::Fragment),
            0x7e => Ok(MessageType::Error),
            0x7f => Ok(MessageType::Close),
            _ => Err(WireError::UnknownMessageType(value)),
        }
    }
}

/// The message type whose byte is `value`; there is at most one.
pub open spec fn message_type_of(value: u8) -> Result<MessageType, WireError> {
    if value == 0x01 {
        Ok(MessageType::ClientHello)
    } else if value == 0x02 {
        Ok(MessageType::ServerHello)
    } else if value == 0x03 {
        Ok(MessageType::HelloAck)
    } else if value == 0x10 {
        Ok(MessageType::Msr)
    } else if value == 0x11 {
        Ok(MessageType::RequestRange)
    } else if value == 0x12 {
        Ok(MessageType::Data)
    } else if value == 0x13 {
        Ok(MessageType::Fragment)
    } else if value == 0x7e {
        Ok(MessageType::Error)
    } else if value == 0x7f {
        Ok(MessageType::Close)
    } else {
        Err(WireError::UnknownMessageType(value))
    }
}

#[derive(Debug, Clone, Copy, PartialEq, Eq, Structural)]
pub enum WireError {
    Truncated,
    UnsupportedVersion(u8),
    UnknownMessageType(u8),
    PayloadTooLarge(usize),
    TooManyTlvs(usize),
    TlvTooLarge(usize),
    TlvBlockTooLarge(usize),
    MalformedTlv,
    LengthMismatch { remaining: usize, expected: usize },
}

impl WireError {
    /// What the error says to a reader.
    pub open spec fn text(self) -> Seq<char> {
        match self {
            WireError::Truncated => "input is truncated"@,
            WireError::UnsupportedVersion(version) => "unsupported version: "@
                + text::hexadecimal(version as nat),
            WireError::UnknownMessageType(value) => "unknown message type: "@
                + text::hexadecimal(value as nat),
            WireError::PayloadTooLarge(len) => "payload too large: "@ + text::decimal(len as nat),
            WireError::TooManyTlvs(count) => "too many TLVs: "@ + text::decimal(count as nat),
            WireError::TlvTooLarge(len) => "TLV too large: "@ + text::decimal(len as nat),
            WireError::TlvBlockTooLarge(len) => "TLV block too large: "@ + text::decimal(
                len as nat,
            ),
            WireError::MalformedTlv => "malformed TLV"@,
            WireError::LengthMismatch { remaining, expected } => "length mismatch (remaining="@
                + text::decimal(remaining as nat) + ", expected="@ + text::decimal(
                expected as nat,
            ) + ")"@,
        }
    }

    pub fn message(&self) -> (message: String)
        ensures
            message@ == self.text(),
    {
        match *self {
            WireError::Truncated => "input is truncated".to_string(),
            WireError::UnsupportedVersion(version) => {
                let mut out = joined_text("unsupported version: ", "0x");
                push_digits(&mut out, version as u64, 16);
                assert(out@ =~= self.text());
                out
            },
            WireError::UnknownMessageType(value) => {
                let mut out = joined_text("unknown message type: ", "0x");
                push_digits(&mut out, value as u64, 16);
                assert(out@ =~= self.text());
                out
            },
            WireError::PayloadTooLarge(len) => text_with_number("payload too large: ", len as u64),
            WireError::TooManyTlvs(count) => text_with_number("too many TLVs: ", count as u64),
            WireError::TlvTooLarge(len) => text_with_number("TLV too large: ", len as u64),
            WireError::TlvBlockTooLarge(len) => text_with_number(
                "TLV block too large: ",
                len as u64,
            ),
            WireError::MalformedTlv => "malformed TLV".to_string(),
            WireError::LengthMismatch { remaining, expected } => {
                let mut out = text_with_number("length mismatch (remaining=", remaining as u64);
                out.append(", expected=");
                push_digits(&mut out, expected as u64, 10);
                out.append(")");
                out
            },
        }
    }
}

/// One type-length-value record.
#[derive(Debug, Clone, PartialEq, Eq)]
pub struct Tlv {
    pub kind: u8,
    pub value: Vec<u8>,
}

/// What a [`Tlv`] says.
#[verifier::ext_equal]
pub struct TlvView {
    pub kind: u8,
    pub value: Seq<u8>,
}

impl View for Tlv {
    type V = TlvView;

    open spec fn view(&self) -> TlvView {
        TlvView { kind: self.kind, value: self.value@ }
    }
}

#[derive(Debug, Clone, PartialEq, Eq)]
pub struct WireFrame {
    pub version: u8,
    pub message_type: MessageType,
    pub flags: u8,
    pub cid: u64,
    pub payload: Vec<u8>,
    pub tlvs: Vec<Tlv>,
}

/// What a [`WireFrame`] says.
#[verifier::ext_equal]
pub struct FrameView {
    pub version: u8,
    pub message_type: MessageType,
    pub flags: u8,
    pub cid: u64,
    pub payload: Seq<u8>,
    pub tlvs: Seq<TlvView>,
}

/// The records that a list of [`Tlv`] stands for.
pub open spec fn tlv_views(tlvs: Seq<Tlv>) -> Seq<TlvView> {
    tlvs.map_values(|t: Tlv| t@)
}

impl View for WireFrame {
    type V = FrameView;

    open spec fn view(&self) -> FrameView {
        FrameView {
            version: self.version,
            message_type: self.message_type,
            flags: self.flags,
            cid: self.cid,
            payload: self.payload@,
            tlvs: tlv_views(self.tlvs@),
        }
    }
}

/// One record as bytes: kind, two-byte length, value.
pub open spec fn tlv_bytes(tlv: TlvView) -> Seq<u8> {
    seq![tlv.kind] + big_endian::be_bytes(tlv.value.len(), 2) + tlv.value
}

/// Records as bytes, one after the other.
pub open spec fn tlv_block(tlvs: Seq<TlvView>) -> Seq<u8>
    decreases tlvs.len(),
{
    if tlvs.len() == 0 {
        Seq::empty()
    } else {
        tlv_block(tlvs.drop_last()) + tlv_bytes(tlvs.last())
    }
}

/// The first record that is too long for the wire.
pub open spec fn oversized_tlv(tlvs: Seq<TlvView>) -> Option<nat>
    decreases tlvs.len(),
{
    if tlvs.len() == 0 {
        None
    } else if oversized_tlv(tlvs.drop_last()) is Some {
        oversized_tlv(tlvs.drop_last())
    } else if tlvs.last().value.len() > MAX_TLV_VALUE_LEN {
        Some(tlvs.last().value.len())
    } else {
        None
    }
}

/// A frame as bytes. The payload length has two bytes on the wire, so that of
/// the longest payload reads as zero.
pub open spec fn frame_bytes(frame: FrameView) -> Seq<u8> {
    seq![frame.version, frame.message_type.code(), frame.flags]
        + big_endian::be_bytes(frame.cid as nat, 8)
        + big_endian::be_bytes(frame.payload.len() % 0x1_0000, 2)
        + big_endian::be_bytes(tlv_block(frame.tlvs).len(), 2)
        + frame.payload
        + tlv_block(frame.tlvs)
}

/// Why a frame cannot be sent, if it cannot.
pub open spec fn frame_refusal(frame: FrameView) -> Option<WireError> {
    if frame.version != WIRE_VERSION_V3 {
        Some(WireError::UnsupportedVersion(frame.version))
    } else if frame.payload.len() > MAX_PAYLOAD_LEN {
        Some(WireError::PayloadTooLarge(frame.payload.len() as usize))
    } else if frame.tlvs.len() > MAX_TLV_COUNT {
        Some(WireError::TooManyTlvs(frame.tlvs.len() as usize))
    } else if oversized_tlv(frame.tlvs) is Some {
        Some(WireError::TlvTooLarge(oversized_tlv(frame.tlvs).unwrap() as usize))
    } else if tlv_block(frame.tlvs).len() > u16::MAX {
        Some(WireError::TlvBlockTooLarge(tlv_block(frame.tlvs).len() as usize))
    } else {
        None
    }
}

/// The records in `block`, given that `seen` records stood before it.
pub open spec fn parse_tlvs(block: Seq<u8>, seen: nat) -> Result<Seq<TlvView>, WireError>
    decreases block.len(),
{
    if block.len() == 0 {
        Ok(Seq::empty())
    } else if block.len() < 3 {
        Err(WireError::MalformedTlv)
    } else if seen >= MAX_TLV_COUNT {
        Err(WireError::TooManyTlvs(seen as usize))
    } else {
        let len = big_endian::be_value(block.subrange(1, 3));
        if len > MAX_TLV_VALUE_LEN {
            Err(WireError::TlvTooLarge(len as usize))
        } else if block.len() - 3 < len {
            Err(WireError::MalformedTlv)
        } else {
            match parse_tlvs(block.skip(3 + len as int), seen + 1) {
                Err(e) => Err(e),
                Ok(rest) => Ok(
                    seq![TlvView { kind: block[0], value: block.subrange(3, 3 + len as int) }]
                        + rest,
                ),
            }
        }
    }
}

/// What a datagram says, or why it is no frame.
pub open spec fn parse_frame(bytes: Seq<u8>) -> Result<FrameView, WireError> {
    if bytes.len() < HEADER_LEN {
        Err(WireError::Truncated)
    } else if bytes[0] != WIRE_VERSION_V3 {
        Err(WireError::UnsupportedVersion(bytes[0]))
    } else {
        match message_type_of(bytes[1]) {
            Err(e) => Err(e),
            Ok(message_type) => {
                let payload_len = big_endian::be_value(bytes.subrange(11, 13));
                let tlv_len = big_endian::be_value(bytes.subrange(13, 15));
                if bytes.len() - HEADER_LEN != payload_len + tlv_len {
                    Err(
                        WireError::LengthMismatch {
                            remaining: (bytes.len() - HEADER_LEN) as usize,
                            expected: (payload_len + tlv_len) as usize,
                        },
                    )
                } else {
                    match parse_tlvs(bytes.skip(HEADER_LEN + payload_len), 0) {
                        Err(e) => Err(e),
                        Ok(tlvs) => Ok(
                            FrameView {
                                version: bytes[0],
                                message_type,
                                flags: bytes[2],
                                cid: big_endian::be_value(bytes.subrange(3, 11)) as u64,
                                payload: bytes.subrange(
                                    HEADER_LEN as int,
                                    HEADER_LEN + payload_len,
                                ),
                                tlvs,
                            },
                        ),
                    }
                }
            },
        }
    }
}

impl WireFrame {
    pub fn new(
        message_type: MessageType,
        flags: u8,
        cid: u64,
        payload: Vec<u8>,
        tlvs: Vec<Tlv>,
    ) -> (frame: WireFrame)
        ensures
            frame == (WireFrame {
                version: WIRE_VERSION_V3,
                message_type,
                flags,
                cid,
                payload,
                tlvs,
            }),
    {
        WireFrame { version: WIRE_VERSION_V3, message_type, flags, cid, payload, tlvs }
    }

    /// The frame as a datagram.
    pub fn encode(&self) -> (result: Result<Vec<u8>, WireError>)
        ensures
            match frame_refusal(self@) {
                Some(e) => result == Err::<Vec<u8>, WireError>(e),
                None => result is Ok && result->Ok_0@ == frame_bytes(self@),
            },
    {
        validate_frame(self)?;
        let mut block = buffer_new();
        let mut i: usize = 0;
        let ghost views = tlv_views(self.tlvs@);
        assert(views.take(0) =~= Seq::<TlvView>::empty());
        while i < self.tlvs.len()
            invariant
                i <= self.tlvs@.len() <= MAX_TLV_COUNT,
                views == tlv_views(self.tlvs@),
                self@.version == WIRE_VERSION_V3,
                self@.payload.len() <= MAX_PAYLOAD_LEN,
                oversized_tlv(views.take(i as int)) is None,
                byte_buffer::buffer_bytes(block) == tlv_block(views.take(i as int)),
                tlv_block(views.take(i as int)).len() <= i * 2051,
            decreases self.tlvs@.len() - i,
        {
            let tlv = &self.tlvs[i];
            let ghost upto = views.take(i + 1);
            proof {
                assert(upto.drop_last() =~= views.take(i as int));
                assert(upto.last() == tlv@);
                big_endian::lemma_be_bytes_len(tlv.value@.len(), 2);
            }
            if tlv.value.len() > MAX_TLV_VALUE_LEN {
                proof {
                    lemma_oversized_prefix(views, i + 1);
                    assert(frame_refusal(self@) == Some(
                        WireError::TlvTooLarge(tlv.value@.len() as usize),
                    ));
                }
                return Err(WireError::TlvTooLarge(tlv.value.len()));
            }
            buffer_put_u8(&mut block, tlv.kind);
            buffer_put_u16(&mut block, tlv.value.len() as u16);
            buffer_extend(&mut block, &tlv.value);
            assert(byte_buffer::buffer_bytes(block) =~= tlv_block(upto));
            i = i + 1;
        }
        assert(views.take(i as int) =~= views);
        let block_slice = buffer_slice(&block);
        let tlv_len: usize = block_slice.len();
        if tlv_len > u16::MAX as usize {
            return Err(WireError::TlvBlockTooLarge(tlv_len));
        }
        let payload_len: u16 = truncated_len(self.payload.len());
        let mut out = buffer_with_capacity(HEADER_LEN + self.payload.len() + tlv_len);
        proof {
            big_endian::lemma_be_bytes_len(self.cid as nat, 8);
            big_endian::lemma_be_bytes_len(payload_len as nat, 2);
            big_endian::lemma_be_bytes_len(tlv_len as nat, 2);
        }
        buffer_put_u8(&mut out, self.version);
        buffer_put_u8(&mut out, self.message_type.as_u8());
        buffer_put_u8(&mut out, self.flags);
        buffer_put_u64(&mut out, self.cid);
        buffer_put_u16(&mut out, payload_len);
        buffer_put_u16(&mut out, tlv_len as u16);
        buffer_extend(&mut out, &self.payload);
        buffer_extend(&mut out, block_slice);
        assert(byte_buffer::buffer_bytes(out) =~= frame_bytes(self@));
        Ok(vstd::slice::slice_to_vec(buffer_slice(&out)))
    }

    /// Reads a datagram.
    pub fn decode(input: &[u8]) -> (result: Result<WireFrame, WireError>)
        ensures
            match parse_frame(input@) {
                Err(e) => result == Err::<WireFrame, WireError>(e),
                Ok(frame) => result is Ok && result->Ok_0@ == frame,
            },
    {
        if input.len() < HEADER_LEN {
            return Err(WireError::Truncated);
        }
        let mut cursor = input;
        let version: u8 = cursor_get_u8(&mut cursor);
        if version != WIRE_VERSION_V3 {
            return Err(WireError::UnsupportedVersion(version));
        }
        let type_byte: u8 = cursor_get_u8(&mut cursor);
        let message_type = match MessageType::from_u8(type_byte) {
            Ok(message_type) => message_type,
            Err(e) => {
                return Err(e);
            },
        };
        let flags: u8 = cursor_get_u8(&mut cursor);
        assert(cursor@.take(8) =~= input@.subrange(3, 11));
        let cid: u64 = cursor_get_u64(&mut cursor);
        assert(cursor@.take(2) =~= input@.subrange(11, 13));
        let payload_len: usize = cursor_get_u16(&mut cursor) as usize;
        assert(cursor@.take(2) =~= input@.subrange(13, 15));
        let tlv_len: usize = cursor_get_u16(&mut cursor) as usize;
        assert(cursor@ =~= input@.skip(15));
        if payload_len > MAX_PAYLOAD_LEN {
            return Err(WireError::PayloadTooLarge(payload_len));
        }
        if cursor.len() != payload_len + tlv_len {
            return Err(
                WireError::LengthMismatch {
                    remaining: cursor.len(),
                    expected: payload_len + tlv_len,
                },
            );
        }
        let mut payload: Vec<u8> = vec![0u8; payload_len];
        cursor_copy_to_slice(&mut cursor, &mut payload);
        assert(payload@ =~= input@.subrange(15, 15 + payload_len));
        assert(cursor@ =~= input@.skip(15 + payload_len));
        let tlvs = match decode_tlvs(cursor) {
            Ok(tlvs) => tlvs,
            Err(e) => {
                return Err(e);
            },
        };
        Ok(WireFrame { version, message_type, flags, cid, payload, tlvs })
    }
}

/// A payload length as the header carries it.
fn truncated_len(len: usize) -> (short: u16)
    requires
        len <= MAX_PAYLOAD_LEN,
    ensures
        short == len % 0x1_0000,
{
    if len == MAX_PAYLOAD_LEN {
        0
    } else {
        len as u16
    }
}

/// What is found in a prefix is found in the whole.
proof fn lemma_oversized_prefix(tlvs: Seq<TlvView>, n: int)
    requires
        0 <= n <= tlvs.len(),
        oversized_tlv(tlvs.take(n)) is Some,
    ensures
        oversized_tlv(tlvs) == oversized_tlv(tlvs.take(n)),
    decreases tlvs.len(),
{
    if n == tlvs.len() {
        assert(tlvs.take(n) =~= tlvs);
    } else {
        assert(tlvs.drop_last().take(n) =~= tlvs.take(n));
        lemma_oversized_prefix(tlvs.drop_last(), n);
    }
}

fn decode_tlvs(block: &[u8]) -> (result: Result<Vec<Tlv>, WireError>)
    ensures
        match parse_tlvs(block@, 0) {
            Err(e) => result == Err::<Vec<Tlv>, WireError>(e),
            Ok(tlvs) => result is Ok && tlv_views(result->Ok_0@) == tlvs,
        },
{
    let mut input = block;
    let mut out: Vec<Tlv> = Vec::new();
    assert(tlv_views(out@) =~= Seq::<TlvView>::empty());
    assert(parse_tlvs(block@, 0) matches Ok(rest) ==> tlv_views(out@) + rest =~= rest);
    while input.len() > 0
        invariant
            out@.len() <= MAX_TLV_COUNT,
            match parse_tlvs(input@, out@.len()) {
                Err(e) => parse_tlvs(block@, 0) == Err::<Seq<TlvView>, WireError>(e),
                Ok(rest) => parse_tlvs(block@, 0) == Ok::<Seq<TlvView>, WireError>(
                    tlv_views(out@) + rest,
                ),
            },
        decreases input@.len(),
    {
        let ghost whole = input@;
        let ghost before = out@;
        if input.len() < 3 {
            return Err(WireError::MalformedTlv);
        }
        if out.len() >= MAX_TLV_COUNT {
            return Err(WireError::TooManyTlvs(out.len()));
        }
        let kind: u8 = cursor_get_u8(&mut input);
        assert(input@.take(2) =~= whole.subrange(1, 3));
        let len: usize = cursor_get_u16(&mut input) as usize;
        if len > MAX_TLV_VALUE_LEN {
            return Err(WireError::TlvTooLarge(len));
        }
        if input.len() < len {
            return Err(WireError::MalformedTlv);
        }
        let mut value: Vec<u8> = vec![0u8; len];
        cursor_copy_to_slice(&mut input, &mut value);
        assert(value@ =~= whole.subrange(3, 3 + len));
        assert(input@ =~= whole.skip(3 + len));
        out.push(Tlv { kind, value });
        proof {
            let tlv = TlvView { kind, value: value@ };
            assert(tlv_views(out@) =~= tlv_views(before).push(tlv));
            if let Ok(rest) = parse_tlvs(input@, out@.len()) {
                assert(tlv_views(before) + (seq![tlv] + rest) =~= tlv_views(out@) + rest);
            }
        }
    }
    assert(tlv_views(out@) + Seq::<TlvView>::empty() =~= tlv_views(out@));
    Ok(out)
}

fn validate_frame(frame: &WireFrame) -> (result: Result<(), WireError>)
    ensures
        match result {
            Err(e) => frame_refusal(frame@) == Some(e),
            Ok(_) => {
                &&& frame.version == WIRE_VERSION_V3
                &&& frame.payload@.len() <= MAX_PAYLOAD_LEN
                &&& frame.tlvs@.len() <= MAX_TLV_COUNT
            },
        },
{
    if frame.version != WIRE_VERSION_V3 {
        return Err(WireError::UnsupportedVersion(frame.version));
    }
    if frame.payload.len() > MAX_PAYLOAD_LEN {
        return Err(WireError::PayloadTooLarge(frame.payload.len()));
    }
    if frame.tlvs.len() > MAX_TLV_COUNT {
        return Err(WireError::TooManyTlvs(frame.tlvs.len()));
    }
    Ok(())
}

/// A block starts with its first record.
proof fn lemma_tlv_block_first(tlvs: Seq<TlvView>)
    requires
        tlvs.len() > 0,
    ensures
        tlv_block(tlvs) == tlv_bytes(tlvs[0]) + tlv_block(tlvs.skip(1)),
    decreases tlvs.len(),
{
    reveal_with_fuel(tlv_block, 2);
    if tlvs.len() == 1 {
        assert(tlvs.drop_last() =~= Seq::<TlvView>::empty());
        assert(tlvs.skip(1) =~= Seq::<TlvView>::empty());
        assert(tlv_block(tlvs) =~= tlv_bytes(tlvs[0]) + tlv_block(tlvs.skip(1)));
    } else {
        lemma_tlv_block_first(tlvs.drop_last());
        assert(tlvs.drop_last().skip(1) =~= tlvs.skip(1).drop_last());
        assert(tlv_block(tlvs) =~= tlv_bytes(tlvs[0]) + tlv_block(tlvs.skip(1)));
    }
}

/// No record of a list is too long exactly when the search finds none.
proof fn lemma_oversized_none(tlvs: Seq<TlvView>)
    ensures
        oversized_tlv(tlvs) is None <==> forall|i: int|
            0 <= i < tlvs.len() ==> (#[trigger] tlvs[i]).value.len() <= MAX_TLV_VALUE_LEN,
    decreases tlvs.len(),
{
    if tlvs.len() > 0 {
        let front = tlvs.drop_last();
        lemma_oversized_none(front);
        if oversized_tlv(tlvs) is None {
            assert forall|i: int| 0 <= i < tlvs.len() implies (
            #[trigger] tlvs[i]).value.len() <= MAX_TLV_VALUE_LEN by {
                if i < front.len() {
                    assert(front[i] == tlvs[i]);
                }
            }
        } else {
            if oversized_tlv(front) is Some {
                let i = choose|i: int|
                    0 <= i < front.len() && (#[trigger] front[i]).value.len() > MAX_TLV_VALUE_LEN;
                assert(tlvs[i] == front[i]);
            }
        }
    }
}

/// Records that were written are read back.
proof fn lemma_parse_tlv_block(tlvs: Seq<TlvView>, seen: nat)
    requires
        seen + tlvs.len() <= MAX_TLV_COUNT,
        forall|i: int|
            0 <= i < tlvs.len() ==> (#[trigger] tlvs[i]).value.len() <= MAX_TLV_VALUE_LEN,
    ensures
        parse_tlvs(tlv_block(tlvs), seen) == Ok::<Seq<TlvView>, WireError>(tlvs),
    decreases tlvs.len(),
{
    if tlvs.len() == 0 {
        assert(tlvs =~= Seq::<TlvView>::empty());
    } else {
        let first = tlvs[0];
        let rest = tlvs.skip(1);
        let block = tlv_block(tlvs);
        let len = first.value.len();
        lemma_tlv_block_first(tlvs);
        big_endian::lemma_be_range_values();
        big_endian::lemma_be_value_of_bytes(len, 2);
        assert forall|i: int| 0 <= i < rest.len() implies (
        #[trigger] rest[i]).value.len() <= MAX_TLV_VALUE_LEN by {
            assert(rest[i] == tlvs[i + 1]);
        }
        lemma_parse_tlv_block(rest, seen + 1);
        assert(block.subrange(1, 3) =~= big_endian::be_bytes(len, 2));
        assert(block.subrange(3, 3 + len as int) =~= first.value);
        assert(block.skip(3 + len as int) =~= tlv_block(rest));
        assert(seq![first] + rest =~= tlvs);
    }
}

/// Records that were read are written as the bytes they came from.
proof fn lemma_tlv_block_of_parsed(block: Seq<u8>, seen: nat)
    requires
        parse_tlvs(block, seen) is Ok,
    ensures
        ({
            let tlvs = parse_tlvs(block, seen)->Ok_0;
            &&& tlv_block(tlvs) == block
            &&& tlvs.len() > 0 ==> seen + tlvs.len() <= MAX_TLV_COUNT
            &&& forall|i: int|
                0 <= i < tlvs.len() ==> (#[trigger] tlvs[i]).value.len() <= MAX_TLV_VALUE_LEN
        }),
    decreases block.len(),
{
    let tlvs = parse_tlvs(block, seen)->Ok_0;
    if block.len() > 0 {
        let len = big_endian::be_value(block.subrange(1, 3));
        let tail = block.skip(3 + len as int);
        let rest = parse_tlvs(tail, seen + 1)->Ok_0;
        let first = TlvView { kind: block[0], value: block.subrange(3, 3 + len as int) };
        lemma_tlv_block_of_parsed(tail, seen + 1);
        lemma_tlv_block_first(tlvs);
        assert(tlvs.skip(1) =~= rest);
        big_endian::lemma_be_bytes_of_value(block.subrange(1, 3));
        assert(tlv_bytes(first) + tail =~= block);
        assert forall|i: int| 0 <= i < tlvs.len() implies (
        #[trigger] tlvs[i]).value.len() <= MAX_TLV_VALUE_LEN by {
            if i > 0 {
                assert(tlvs[i] == rest[i - 1]);
            }
        }
    } else {
        assert(tlv_block(tlvs) =~= block);
    }
}

/// A frame that can be sent is read back as it was, as long as its payload
/// length fits the header.
pub proof fn law_decode_of_encode(frame: FrameView)
    requires
        frame_refusal(frame) is None,
        frame.payload.len() < MAX_PAYLOAD_LEN,
    ensures
        parse_frame(frame_bytes(frame)) == Ok::<FrameView, WireError>(frame),
{
    let bytes = frame_bytes(frame);
    let block = tlv_block(frame.tlvs);
    let plen = frame.payload.len();
    big_endian::lemma_be_range_values();
    big_endian::lemma_be_value_of_bytes(frame.cid as nat, 8);
    big_endian::lemma_be_value_of_bytes(plen, 2);
    big_endian::lemma_be_value_of_bytes(block.len(), 2);
    lemma_oversized_none(frame.tlvs);
    lemma_parse_tlv_block(frame.tlvs, 0);
    assert(bytes.subrange(3, 11) =~= big_endian::be_bytes(frame.cid as nat, 8));
    assert(bytes.subrange(11, 13) =~= big_endian::be_bytes(plen, 2));
    assert(bytes.subrange(13, 15) =~= big_endian::be_bytes(block.len(), 2));
    assert(bytes.subrange(15, 15 + plen as int) =~= frame.payload);
    assert(bytes.skip(15 + plen as int) =~= block);
}

/// A datagram that is read as a frame is exactly what that frame encodes to, so
/// no two datagrams say the same.
pub proof fn law_encode_of_decode(bytes: Seq<u8>)
    requires
        parse_frame(bytes) is Ok,
    ensures
        frame_refusal(parse_frame(bytes)->Ok_0) is None,
        frame_bytes(parse_frame(bytes)->Ok_0) == bytes,
{
    let frame = parse_frame(bytes)->Ok_0;
    let plen = big_endian::be_value(bytes.subrange(11, 13));
    let tlen = big_endian::be_value(bytes.subrange(13, 15));
    let block = bytes.skip(15 + plen as int);
    big_endian::lemma_be_range_values();
    big_endian::lemma_be_value_bound(bytes.subrange(3, 11));
    big_endian::lemma_be_value_bound(bytes.subrange(11, 13));
    big_endian::lemma_be_value_bound(bytes.subrange(13, 15));
    big_endian::lemma_be_bytes_of_value(bytes.subrange(3, 11));
    big_endian::lemma_be_bytes_of_value(bytes.subrange(11, 13));
    big_endian::lemma_be_bytes_of_value(bytes.subrange(13, 15));
    lemma_tlv_block_of_parsed(block, 0);
    lemma_oversized_none(frame.tlvs);
    assert(frame_bytes(frame) =~= bytes);
}

/// The one payload length that the encoder lets through and the header cannot
/// carry: a frame with it is not read back.
pub proof fn law_longest_payload_is_not_read_back(frame: FrameView)
    requires
        frame_refusal(frame) is None,
        frame.payload.len() == MAX_PAYLOAD_LEN,
    ensures
        parse_frame(frame_bytes(frame)) == Err::<FrameView, WireError>(
            WireError::LengthMismatch {
                remaining: (MAX_PAYLOAD_LEN + tlv_block(frame.tlvs).len()) as usize,
                expected: tlv_block(frame.tlvs).len() as usize,
            },
        ),
{
    let bytes = frame_bytes(frame);
    let block = tlv_block(frame.tlvs);
    big_endian::lemma_be_range_values();
    big_endian::lemma_be_bytes_len(frame.cid as nat, 8);
    big_endian::lemma_be_value_of_bytes(0, 2);
    big_endian::lemma_be_value_of_bytes(block.len(), 2);
    assert(bytes.subrange(11, 13) =~= big_endian::be_bytes(0, 2));
    assert(bytes.subrange(13, 15) =~= big_endian::be_bytes(block.len(), 2));
}

/// Decodes and forgets: every input is read to the end without a fault.
pub fn fuzz_decode(input: &[u8]) {
    let _ = WireFrame::decode(input);
}

} // verus!
