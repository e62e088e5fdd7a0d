//! What is noted of packets that go in and out: one line each, with a note on
//! packets that were seen before.

use vstd::prelude::*;
use vstd::string::StringExecFns;

use crate::ffi::tls;
use crate::ffi::tls::is_dtls_packet;
use crate::hashing;
use crate::hashing::hash64;
use crate::text;
use crate::text::{push_digits, same_text};
use crate::wire;
use crate::wire::{MessageType, WireFrame};

verus! {

/// How many packets are kept in mind before old ones are forgotten.
pub const KEPT_PACKETS: usize = 20_000;

/// For how long a packet is kept in mind once there are too many.
pub const KEPT_MS: u64 = 60_000;

/// A packet that was seen: by what it is known, when it was seen last and how
/// often.
#[derive(Debug)]
pub struct SeenPacket {
    pub key: String,
    pub last_ms: u64,
    pub count: u32,
}

/// What a [`SeenPacket`] says.
#[verifier::ext_equal]
pub struct SeenView {
    pub key: Seq<char>,
    pub last_ms: u64,
    pub count: u32,
}

impl View for SeenPacket {
    type V = SeenView;

    open spec fn view(&self) -> SeenView {
        SeenView { key: self.key@, last_ms: self.last_ms, count: self.count }
    }
}

/// The packets that were seen, no two by the same key.
#[derive(Debug)]
pub struct PacketLog {
    pub seen: Vec<SeenPacket>,
}

impl View for PacketLog {
    type V = Seq<SeenView>;

    open spec fn view(&self) -> Seq<SeenView> {
        self.seen@.map_values(|p: SeenPacket| p@)
    }
}

/// Sixteen hexadecimal digits of a hash, as far as `count` of them from the right.
pub open spec fn hash_digits(hash: u64, count: nat) -> Seq<char>
    decreases count,
{
    if count == 0 {
        Seq::empty()
    } else {
        hash_digits(hash / 16, (count - 1) as nat).push(text::digit((hash % 16) as nat))
    }
}

/// By what a packet is known.
pub open spec fn packet_key(
    side: Seq<char>,
    dir: Seq<char>,
    path_id: u32,
    kind: Seq<char>,
    cid: u64,
    hash: u64,
) -> Seq<char> {
    side + "|"@ + dir + "|"@ + text::decimal(path_id as nat) + "|"@ + kind + "|"@ + text::decimal(
        cid as nat,
    ) + "|"@ + hash_digits(hash, 16)
}

/// Where a key is among packets, from a place on.
pub open spec fn place_of(seen: Seq<SeenView>, key: Seq<char>, from: int) -> Option<int>
    decreases seen.len() - from,
{
    if from < 0 || from >= seen.len() {
        None
    } else if seen[from].key == key {
        Some(from)
    } else {
        place_of(seen, key, from + 1)
    }
}

/// The packets once one more was seen.
pub open spec fn noted(seen: Seq<SeenView>, key: Seq<char>, now_ms: u64) -> Seq<SeenView> {
    match place_of(seen, key, 0) {
        Some(at) => seen.update(
            at,
            SeenView {
                key,
                last_ms: now_ms,
                count: if seen[at].count == u32::MAX {
                    u32::MAX
                } else {
                    (seen[at].count + 1) as u32
                },
            },
        ),
        None => seen.push(SeenView { key, last_ms: now_ms, count: 1 }),
    }
}

/// The packets that were seen since a moment.
pub open spec fn seen_since(seen: Seq<SeenView>, cutoff_ms: u64) -> Seq<SeenView>
    decreases seen.len(),
{
    if seen.len() == 0 {
        Seq::empty()
    } else {
        let before = seen_since(seen.drop_last(), cutoff_ms);
        if seen.last().last_ms >= cutoff_ms {
            before.push(seen.last())
        } else {
            before
        }
    }
}

/// The packets that are kept in mind: all of them, or the recent ones of too many.
pub open spec fn kept(seen: Seq<SeenView>, now_ms: u64) -> Seq<SeenView> {
    if seen.len() > KEPT_PACKETS {
        seen_since(
            seen,
            if now_ms >= KEPT_MS {
                (now_ms - KEPT_MS) as u64
            } else {
                0
            },
        )
    } else {
        seen
    }
}

/// What is noted of a packet.
pub open spec fn note(seen: Seq<SeenView>, key: Seq<char>, now_ms: u64) -> Seq<char> {
    match place_of(seen, key, 0) {
        None => "dup=false"@,
        Some(at) => {
            let count = if seen[at].count == u32::MAX {
                u32::MAX as nat
            } else {
                seen[at].count as nat + 1
            };
            let delta = if now_ms >= seen[at].last_ms {
                (now_ms - seen[at].last_ms) as nat
            } else {
                0
            };
            "dup=true dup_count="@ + text::decimal(count) + " dup_delta_ms="@ + text::decimal(delta)
        },
    }
}

fn push_hash(out: &mut String, hash: u64)
    ensures
        final(out)@ == old(out)@ + hash_digits(hash, 16),
{
    push_hash_digits(out, hash, 16);
}

fn push_hash_digits(out: &mut String, hash: u64, count: usize)
    ensures
        final(out)@ == old(out)@ + hash_digits(hash, count as nat),
    decreases count,
{
    if count == 0 {
        assert(out@ =~= old(out)@ + hash_digits(hash, 0));
        return ;
    }
    push_hash_digits(out, hash / 16, count - 1);
    let digit: u64 = hash % 16;
    push_digits(out, digit, 16);
    proof {
        assert(text::digits(digit as nat, 16) =~= seq![text::digit(digit as nat)]);
        assert(out@ =~= old(out)@ + hash_digits(hash, count as nat));
    }
}

/// By what a packet is known.
pub fn packet_key_text(side: &str, dir: &str, path_id: u32, kind: &str, cid: u64, hash: u64) -> (key:
    String)
    ensures
        key@ == packet_key(side@, dir@, path_id, kind@, cid, hash),
{
    let mut key = side.to_string();
    key.append("|");
    key.append(dir);
    key.append("|");
    push_digits(&mut key, path_id as u64, 10);
    key.append("|");
    key.append(kind);
    key.append("|");
    push_digits(&mut key, cid, 10);
    key.append("|");
    push_hash(&mut key, hash);
    key
}

impl PacketLog {
    pub fn new() -> (log: PacketLog)
        ensures
            log@ == Seq::<SeenView>::empty(),
    {
        let log = PacketLog { seen: Vec::new() };
        assert(log@ =~= Seq::<SeenView>::empty());
        log
    }

    fn place(&self, key: &str) -> (at: Option<usize>)
        ensures
            match (at, place_of(self@, key@, 0)) {
                (Some(at), Some(expected)) => at == expected && at < self.seen@.len(),
                (None, None) => true,
                _ => false,
            },
    {
        let mut i: usize = 0;
        while i < self.seen.len()
            invariant
                i <= self.seen@.len(),
                place_of(self@, key@, 0) == place_of(self@, key@, i as int),
            decreases self.seen@.len() - i,
        {
            assert(self@[i as int].key == self.seen@[i as int].key@);
            if same_text(self.seen[i].key.as_str(), key) {
                return Some(i);
            }
            i = i + 1;
        }
        None
    }

    /// Notes that a packet was seen.
    pub fn dedup_note(&mut self, key: String, now_ms: u64) -> (out: String)
        ensures
            out@ == note(old(self)@, key@, now_ms),
            final(self)@ == kept(noted(old(self)@, key@, now_ms), now_ms),
    {
        let ghost before = self@;
        let ghost known = key@;
        let mut out = "dup=false".to_string();
        match self.place(key.as_str()) {
            Some(at) => {
                assert(before[at as int] == self.seen@[at as int]@);
                let last_ms: u64 = self.seen[at].last_ms;
                let delta: u64 = now_ms.saturating_sub(last_ms);
                let count: u32 = self.seen[at].count.saturating_add(1);
                self.seen.set(at, SeenPacket { key, last_ms: now_ms, count });
                out = "dup=true dup_count=".to_string();
                push_digits(&mut out, count as u64, 10);
                out.append(" dup_delta_ms=");
                push_digits(&mut out, delta, 10);
                assert(self@ =~= noted(before, known, now_ms));
            },
            None => {
                self.seen.push(SeenPacket { key, last_ms: now_ms, count: 1 });
                assert(self@ =~= noted(before, known, now_ms));
            },
        }
        if self.seen.len() > KEPT_PACKETS {
            self.forget_before(now_ms.saturating_sub(KEPT_MS));
        }
        out
    }

    fn forget_before(&mut self, cutoff_ms: u64)
        ensures
            final(self)@ == seen_since(old(self)@, cutoff_ms),
    {
        let ghost all = self@;
        let mut old_packets: Vec<SeenPacket> = Vec::new();
        std::mem::swap(&mut self.seen, &mut old_packets);
        let ghost packets = old_packets@;
        assert(self@ =~= seen_since(all.take(0), cutoff_ms));
        for packet in it: old_packets.into_iter()
            invariant
                it.seq() == packets,
                all == packets.map_values(|p: SeenPacket| p@),
                self@ == seen_since(all.take(it.index()), cutoff_ms),
        {
            let ghost at = it.index();
            let ghost before = self@;
            let ghost view = packet@;
            assert(all.take(at + 1).drop_last() =~= all.take(at));
            assert(all.take(at + 1).last() == view);
            if packet.last_ms >= cutoff_ms {
                self.seen.push(packet);
                assert(self@ =~= before.push(view));
            }
        }
        assert(all.take(all.len() as int) =~= all);
    }
}

/// A type of frame by its name.
pub open spec fn frame_kind(message_type: MessageType) -> Seq<char> {
    match message_type {
        MessageType::ClientHello => "ClientHello"@,
        MessageType::ServerHello => "ServerHello"@,
        MessageType::HelloAck => "HelloAck"@,
        MessageType::Msr => "Msr"@,
        MessageType::RequestRange => "RequestRange"@,
        MessageType::Data => "Data"@,
        MessageType::Fragment => "Fragment"@,
        MessageType::Error => "Error"@,
        MessageType::Close => "Close"@,
    }
}

fn frame_kind_text(message_type: MessageType) -> (name: String)
    ensures
        name@ == frame_kind(message_type),
{
    match message_type {
        MessageType::ClientHello => "ClientHello".to_string(),
        MessageType::ServerHello => "ServerHello".to_string(),
        MessageType::HelloAck => "HelloAck".to_string(),
        MessageType::Msr => "Msr".to_string(),
        MessageType::RequestRange => "RequestRange".to_string(),
        MessageType::Data => "Data".to_string(),
        MessageType::Fragment => "Fragment".to_string(),
        MessageType::Error => "Error".to_string(),
        MessageType::Close => "Close".to_string(),
    }
}

/// The kind of a packet and the session it belongs to.
pub open spec fn packet_kind(bytes: Seq<u8>) -> (Seq<char>, u64) {
    if tls::is_handshake(bytes) {
        ("DTLS"@, 0)
    } else {
        match wire::parse_frame(bytes) {
            Ok(frame) => (frame_kind(frame.message_type), frame.cid),
            Err(_) => ("UNKNOWN"@, 0),
        }
    }
}

/// What a line says of a packet's contents.
pub open spec fn contents(bytes: Seq<u8>) -> Seq<char> {
    if tls::is_handshake(bytes) {
        "DTLS len="@ + text::decimal(bytes.len())
    } else {
        match wire::parse_frame(bytes) {
            Ok(frame) => frame_kind(frame.message_type) + " cid="@ + text::decimal(frame.cid as nat)
                + " payload_len="@ + text::decimal(frame.payload.len()) + " tlv_count="@
                + text::decimal(frame.tlvs.len()),
            Err(e) => "UNKNOWN len="@ + text::decimal(bytes.len()) + " err="@ + e.text(),
        }
    }
}

/// The line on a packet.
pub open spec fn line(
    seen: Seq<SeenView>,
    side: Seq<char>,
    dir: Seq<char>,
    path_id: u32,
    bytes: Seq<u8>,
    hash: u64,
    now_ms: u64,
) -> Seq<char> {
    let (kind, cid) = packet_kind(bytes);
    "[V3PROTO] ts_ms="@ + text::decimal(now_ms as nat) + " side="@ + side + " dir="@ + dir
        + " path="@ + text::decimal(path_id as nat) + " type="@ + contents(bytes) + " "@ + note(
        seen,
        packet_key(side, dir, path_id, kind, cid, hash),
        now_ms,
    )
}

impl PacketLog {
    /// The line on a packet whose bytes have the hash `hash`.
    pub fn packet_line(
        &mut self,
        side: &str,
        dir: &str,
        path_id: u32,
        bytes: &[u8],
        hash: u64,
        now_ms: u64,
    ) -> (out: String)
        ensures
            out@ == line(old(self)@, side@, dir@, path_id, bytes@, hash, now_ms),
            ({
                let (kind, cid) = packet_kind(bytes@);
                final(self)@ == kept(
                    noted(
                        old(self)@,
                        packet_key(side@, dir@, path_id, kind, cid, hash),
                        now_ms,
                    ),
                    now_ms,
                )
            }),
    {
        let len: usize = bytes.len();
        let mut what = String::new();
        let mut kind = "DTLS".to_string();
        let mut cid: u64 = 0;
        if is_dtls_packet(bytes) {
            what.append("DTLS len=");
            push_digits(&mut what, len as u64, 10);
        } else {
            match WireFrame::decode(bytes) {
                Ok(frame) => {
                    kind = frame_kind_text(frame.message_type);
                    cid = frame.cid;
                    what.append(kind.as_str());
                    what.append(" cid=");
                    push_digits(&mut what, cid, 10);
                    what.append(" payload_len=");
                    push_digits(&mut what, frame.payload.len() as u64, 10);
                    what.append(" tlv_count=");
                    push_digits(&mut what, frame.tlvs.len() as u64, 10);
                    assert(frame@.tlvs.len() == frame.tlvs@.len());
                },
                Err(e) => {
                    kind = "UNKNOWN".to_string();
                    what.append("UNKNOWN len=");
                    push_digits(&mut what, len as u64, 10);
                    what.append(" err=");
                    what.append(e.message().as_str());
                },
            }
        }
        assert(what@ =~= contents(bytes@));
        assert((kind@, cid) == packet_kind(bytes@));
        let key = packet_key_text(side, dir, path_id, kind.as_str(), cid, hash);
        let note = self.dedup_note(key, now_ms);
        let mut out = "[V3PROTO] ts_ms=".to_string();
        push_digits(&mut out, now_ms, 10);
        out.append(" side=");
        out.append(side);
        out.append(" dir=");
        out.append(dir);
        out.append(" path=");
        push_digits(&mut out, path_id as u64, 10);
        out.append(" type=");
        out.append(what.as_str());
        out.append(" ");
        out.append(note.as_str());
        out
    }

    /// The line on a packet.
    pub fn log_proto_packet(
        &mut self,
        side: &str,
        dir: &str,
        path_id: u32,
        bytes: &[u8],
        now_ms: u64,
    ) -> (out: String)
        ensures
            exists|hash: u64|
                hashing::is_hash(bytes@, hash) && out@ == #[trigger] line(
                    old(self)@,
                    side@,
                    dir@,
                    path_id,
                    bytes@,
                    hash,
                    now_ms,
                ) && final(self)@ == kept(
                    noted(
                        old(self)@,
                        packet_key(
                            side@,
                            dir@,
                            path_id,
                            packet_kind(bytes@).0,
                            packet_kind(bytes@).1,
                            hash,
                        ),
                        now_ms,
                    ),
                    now_ms,
                ),
    {
        let hash: u64 = hash64(bytes);
        self.packet_line(side, dir, path_id, bytes, hash, now_ms)
    }
}

/// A packet that is seen again is noted as such, with how long it has been.
pub proof fn law_repeated_packet_is_noted(
    seen: Seq<SeenView>,
    key: Seq<char>,
    now_ms: u64,
    later_ms: u64,
)
    requires
        now_ms <= later_ms,
        place_of(seen, key, 0) is None,
    ensures
        note(seen, key, now_ms) == "dup=false"@,
        note(noted(seen, key, now_ms), key, later_ms) == "dup=true dup_count="@ + text::decimal(2)
            + " dup_delta_ms="@ + text::decimal((later_ms - now_ms) as nat),
{
    lemma_place_behind(seen, SeenView { key, last_ms: now_ms, count: 1 }, 0);
}

proof fn lemma_place_behind(seen: Seq<SeenView>, packet: SeenView, from: int)
    requires
        0 <= from <= seen.len(),
        place_of(seen, packet.key, from) is None,
    ensures
        place_of(seen.push(packet), packet.key, from) == Some(seen.len() as int),
    decreases seen.len() - from,
{
    if from < seen.len() {
        lemma_place_behind(seen, packet, from + 1);
        assert(seen.push(packet)[from] == seen[from]);
    }
}

} // verus!
