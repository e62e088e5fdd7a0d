//! What a session promises of the messages that come in on it: what was pulled
//! arrives, each message once, in order and as it was queued.

use vstd::prelude::*;

use crate::big_endian;
use crate::session::codec;
use crate::session::laws;
use crate::session::life;
use crate::session::life::Input;
use crate::session::model;
use crate::session::model::{MachineView, Step};
use crate::session::serving;
use crate::session::types::{CoreError, DatagramView, EventView, LifecycleState, OutputView};
use crate::wire;
use crate::wire::{FrameView, MessageType};

verus! {

/// That no message waits that could be handed over.
pub open spec fn is_drained(m: MachineView) -> bool {
    m.last_ordered_rx < u64::MAX && !m.received_buffer.contains_key((m.last_ordered_rx + 1) as u64)
}

proof fn lemma_flush_drains(m: MachineView, out: OutputView)
    ensures
        ({
            let after = model::flush(m, out).machine;
            &&& after.last_ordered_rx < u64::MAX ==> is_drained(after)
            &&& forall|id: u64|
                #![trigger after.received_buffer.contains_key(id)]
                after.received_buffer.contains_key(id) ==> m.received_buffer.contains_key(id)
        }),
    decreases u64::MAX - m.last_ordered_rx,
{
    let next = (m.last_ordered_rx + 1) as u64;
    if m.last_ordered_rx < u64::MAX && m.received_buffer.contains_key(next) {
        lemma_flush_drains(
            MachineView {
                last_ordered_rx: next,
                received_buffer: m.received_buffer.remove(next),
                ..m
            },
            out.emit(EventView::MessageDelivered { msg_id: next }).emit(
                EventView::MessageReceived { msg_id: next, payload: m.received_buffer[next] },
            ),
        );
    }
}

/// What a frame does to the messages of a machine, before the news next to it.
proof fn lemma_frame_messages(m: MachineView, now_ms: u64, path: u32, frame: FrameView)
    requires
        is_drained(m),
    ensures
        ({
            let none = OutputView::empty();
            let step = model::frame_step(m, now_ms, path, frame, none);
            step.error is None && step.machine.last_ordered_rx < u64::MAX ==> {
                &&& is_drained(step.machine)
                &&& forall|id: u64|
                    #![trigger m.received_buffer.contains_key(id)]
                    m.received_buffer.contains_key(id) && m.received_ids.contains(id)
                        ==> laws::took_in(step, id, m.received_buffer[id])
                &&& forall|id: u64|
                    #![trigger m.received_ids.contains(id)]
                    m.received_ids.contains(id) ==> step.machine.received_ids.contains(id)
            }
        }),
{
    let none = OutputView::empty();
    laws::lemma_tlvs_keep_state(m, path, frame.tlvs, none);
    if frame.message_type == MessageType::Data || frame.message_type == MessageType::Fragment {
        let id = big_endian::be_value(frame.payload.subrange(0, 8)) as u64;
        let idx = big_endian::be_value(frame.payload.subrange(8, 10)) as u16;
        let total = big_endian::be_value(frame.payload.subrange(10, 12)) as u16;
        let fragments = model::fragment_added(m, id, idx, total, frame.payload.skip(12));
        let completed = if frame.message_type == MessageType::Data {
            model::message_completed(m, id, frame.payload.skip(8))
        } else {
            model::message_completed(m, id, model::joined(fragments.chunks, total as nat))
        };
        laws::lemma_flush_keeps(completed, none);
        model::lemma_flush_grows(completed, none);
        lemma_flush_drains(completed, none);
        let step = model::frame_step(m, now_ms, path, frame, none);
        assert forall|other: u64|
            #![trigger m.received_buffer.contains_key(other)]
            step.error is None && m.received_buffer.contains_key(other) && m.received_ids.contains(
                other,
            ) implies laws::took_in(step, other, m.received_buffer[other]) by {
            laws::lemma_flush_hands_over(completed, none, other);
        }
    }
}

/// Whatever datagram comes in, afterwards no message waits that could be handed over,
/// and one that waited before waits still or was handed over as it came.
pub proof fn law_waiting_messages_are_handed_over(
    m: MachineView,
    now_ms: u64,
    path: u32,
    bytes: Seq<u8>,
)
    requires
        is_drained(m),
        model::datagram_step(m, now_ms, path, bytes).error is None,
        model::datagram_step(m, now_ms, path, bytes).machine.last_ordered_rx < u64::MAX,
    ensures
        ({
            let step = model::datagram_step(m, now_ms, path, bytes);
            &&& is_drained(step.machine)
            &&& forall|id: u64|
                #![trigger m.received_buffer.contains_key(id)]
                m.received_buffer.contains_key(id) && m.received_ids.contains(id)
                    ==> laws::took_in(step, id, m.received_buffer[id])
            &&& forall|id: u64|
                #![trigger m.received_ids.contains(id)]
                m.received_ids.contains(id) ==> step.machine.received_ids.contains(id)
        }),
{
    let step = model::datagram_step(m, now_ms, path, bytes);
    if let Ok(frame) = wire::parse_frame(bytes) {
        let m1 = laws::met(m, now_ms, path);
        let s1 = model::frame_step(m1, now_ms, path, frame, OutputView::empty());
        laws::lemma_tlvs_keep_state(m1, path, frame.tlvs, OutputView::empty());
        lemma_frame_messages(m1, now_ms, path, frame);
        if frame.message_type != MessageType::Msr {
            if let Some((_, queued)) = codec::msr_signal_of(frame.tlvs) {
                assert forall|id: u64|
                    #![trigger m.received_buffer.contains_key(id)]
                    m.received_buffer.contains_key(id) && m.received_ids.contains(
                        id,
                    ) implies laws::took_in(step, id, m.received_buffer[id]) by {
                    assert(m1.received_buffer.contains_key(id));
                    laws::lemma_signal_keeps_taken(
                        s1,
                        now_ms,
                        path,
                        queued,
                        id,
                        m.received_buffer[id],
                    );
                }
            }
        }
        assert forall|id: u64|
            #![trigger m.received_ids.contains(id)]
            m.received_ids.contains(id) implies step.machine.received_ids.contains(id) by {
            assert(m1.received_ids.contains(id));
        }
    }
}

/// A message in a data frame that a session meets which stands: it is taken in as it
/// came if it is new, and changes nothing of what was received if it is not. One
/// without a whole id is refused.
pub proof fn law_data_is_taken_once(m: MachineView, now_ms: u64, path: u32, bytes: Seq<u8>)
    requires
        m.state == LifecycleState::Established,
        serving::is_for(m, bytes),
        wire::parse_frame(bytes)->Ok_0.message_type == MessageType::Data,
    ensures
        ({
            let payload = wire::parse_frame(bytes)->Ok_0.payload;
            let step = model::datagram_step(m, now_ms, path, bytes);
            if payload.len() < 8 {
                step.error == Some(CoreError::MalformedData)
            } else {
                let id = big_endian::be_value(payload.subrange(0, 8)) as u64;
                &&& step.error is None
                &&& if m.received_ids.contains(id) {
                    &&& step.machine.received_ids == m.received_ids
                    &&& step.machine.received_buffer == m.received_buffer
                    &&& step.machine.received_fragments == m.received_fragments
                    &&& step.machine.last_ordered_rx == m.last_ordered_rx
                    &&& laws::received_in(step.out.events) == Seq::<u64>::empty()
                } else {
                    &&& step.machine.received_ids == m.received_ids.insert(id)
                    &&& step.machine.received_fragments == m.received_fragments.remove(id)
                    &&& laws::took_in(step, id, payload.skip(8))
                }
            }
        }),
{
    let frame = wire::parse_frame(bytes)->Ok_0;
    let payload = frame.payload;
    let none = OutputView::empty();
    let m1 = laws::met(m, now_ms, path);
    if payload.len() >= 8 {
        let id = big_endian::be_value(payload.subrange(0, 8)) as u64;
        let completed = model::message_completed(m1, id, payload.skip(8));
        laws::lemma_flush_keeps(completed, none);
        model::lemma_flush_grows(completed, none);
        laws::lemma_flush_hands_over(completed, none, id);
        laws::law_messages_arrive_once_and_in_order(m, now_ms, path, bytes);
        assert(laws::ids_after(m.last_ordered_rx, m.last_ordered_rx) =~= Seq::<u64>::empty());
        let s1 = model::frame_step(m1, now_ms, path, frame, none);
        if !m.received_ids.contains(id) {
            if let Some((_, queued)) = codec::msr_signal_of(frame.tlvs) {
                laws::lemma_signal_keeps_taken(s1, now_ms, path, queued, id, payload.skip(8));
            }
        }
    }
}

/// A fragment that makes no sense is refused: one without a whole header, of no
/// message or beyond its message, or of a message that has another number of
/// fragments. One of a message that was received changes nothing.
pub proof fn law_senseless_fragments_are_refused(
    m: MachineView,
    now_ms: u64,
    path: u32,
    bytes: Seq<u8>,
)
    requires
        m.state == LifecycleState::Established,
        serving::is_for(m, bytes),
        wire::parse_frame(bytes)->Ok_0.message_type == MessageType::Fragment,
    ensures
        ({
            let payload = wire::parse_frame(bytes)->Ok_0.payload;
            let step = model::datagram_step(m, now_ms, path, bytes);
            let id = big_endian::be_value(payload.subrange(0, 8)) as u64;
            let idx = big_endian::be_value(payload.subrange(8, 10)) as u16;
            let total = big_endian::be_value(payload.subrange(10, 12)) as u16;
            if payload.len() < 12 {
                step.error == Some(CoreError::MalformedData)
            } else if m.received_ids.contains(id) {
                &&& step.error is None
                &&& step.machine.received_ids == m.received_ids
                &&& step.machine.received_buffer == m.received_buffer
                &&& step.machine.received_fragments == m.received_fragments
                &&& step.machine.last_ordered_rx == m.last_ordered_rx
            } else {
                step.error == if idx >= total || (m.received_fragments.contains_key(id)
                    && m.received_fragments[id].total != total) {
                    Some(CoreError::MalformedData)
                } else {
                    None
                }
            }
        }),
{
    let frame = wire::parse_frame(bytes)->Ok_0;
    let payload = frame.payload;
    let none = OutputView::empty();
    let m1 = laws::met(m, now_ms, path);
    let id = big_endian::be_value(payload.subrange(0, 8)) as u64;
    let idx = big_endian::be_value(payload.subrange(8, 10)) as u16;
    let total = big_endian::be_value(payload.subrange(10, 12)) as u16;
    let fragments = model::fragment_added(m1, id, idx, total, payload.skip(12));
    let completed = model::message_completed(m1, id, model::joined(fragments.chunks, total as nat));
    model::lemma_flush_grows(completed, none);
}

/// Messages and pulls are for sessions that stand: on another they change nothing of
/// what was received and are answered with none.
pub proof fn law_messages_need_a_standing_session(
    m: MachineView,
    now_ms: u64,
    path: u32,
    bytes: Seq<u8>,
)
    requires
        m.state != LifecycleState::Established,
        serving::is_for(m, bytes),
        ({
            let kind = wire::parse_frame(bytes)->Ok_0.message_type;
            kind == MessageType::Data || kind == MessageType::Fragment || kind
                == MessageType::RequestRange
        }),
    ensures
        ({
            let step = model::datagram_step(m, now_ms, path, bytes);
            &&& step.error is None
            &&& step.machine.received_ids == m.received_ids
            &&& step.machine.received_buffer == m.received_buffer
            &&& step.machine.received_fragments == m.received_fragments
            &&& step.machine.last_ordered_rx == m.last_ordered_rx
            &&& step.out.outbound_datagrams.len() <= 1
            &&& codec::msr_signal_of(wire::parse_frame(bytes)->Ok_0.tlvs) is None ==> step.out
                == OutputView::empty()
        }),
{
}

/// MSRs and pulls without two whole numbers are refused.
pub proof fn law_short_payloads_are_refused(m: MachineView, now_ms: u64, path: u32, bytes: Seq<u8>)
    requires
        serving::is_for(m, bytes),
        wire::parse_frame(bytes)->Ok_0.payload.len() < 16,
    ensures
        wire::parse_frame(bytes)->Ok_0.message_type == MessageType::Msr ==> model::datagram_step(
            m,
            now_ms,
            path,
            bytes,
        ).error == Some(CoreError::MalformedMsr),
        wire::parse_frame(bytes)->Ok_0.message_type == MessageType::RequestRange && m.state
            == LifecycleState::Established ==> model::datagram_step(
            m,
            now_ms,
            path,
            bytes,
        ).error == Some(CoreError::MalformedRequestRange),
{
}

/// Datagrams, heard one after the other.
pub open spec fn heard(datagrams: Seq<DatagramView>, now_ms: u64, path: u32) -> Seq<Input> {
    datagrams.map_values(|d: DatagramView| Input::Datagram { now_ms, path, bytes: d.bytes })
}

/// Where a receiver is that has heard all parts of some messages up to one part: it has
/// handed over all messages before that one, has the parts before that part, and has
/// nothing of what follows.
#[verifier::opaque]
pub open spec fn is_at(
    receiver: MachineView,
    sender: MachineView,
    end: u64,
    id: int,
    part: int,
) -> bool {
    let message = sender.outbound_messages[id as u64];
    &&& receiver.state == LifecycleState::Established
    &&& receiver.cid == 0 || receiver.cid == sender.cid
    &&& id <= end + 1
    &&& id <= end ==> receiver.last_ordered_rx == id - 1
    &&& id == end + 1 ==> receiver.last_ordered_rx >= end
    &&& forall|other: u64|
        #![trigger receiver.received_ids.contains(other)]
        #![trigger receiver.received_buffer.contains_key(other)]
        #![trigger receiver.received_fragments.contains_key(other)]
        id <= other <= end ==> {
            &&& !receiver.received_ids.contains(other)
            &&& !receiver.received_buffer.contains_key(other)
            &&& other != id || part == 0 ==> !receiver.received_fragments.contains_key(other)
        }
    &&& part > 0 ==> {
        &&& receiver.received_fragments.contains_key(id as u64)
        &&& laws::assembling(receiver, id as u64, message)
        &&& forall|idx: u16|
            #![trigger receiver.received_fragments[id as u64].chunks.contains_key(idx)]
            receiver.received_fragments[id as u64].chunks.contains_key(idx) <==> idx < part
    }
}

/// The news next to a message changes nothing of what was received.
proof fn lemma_news_keeps_place(
    step: Step,
    sender: MachineView,
    now_ms: u64,
    path: u32,
    queued: u64,
    end: u64,
    id: int,
    part: int,
)
    requires
        is_at(step.machine, sender, end, id, part),
    ensures
        is_at(
            model::msr_signal_step(step.machine, now_ms, path, queued, false, step.out).machine,
            sender,
            end,
            id,
            part,
        ),
{
    reveal(is_at);
}

/// One message more is whole: it is handed over, and nothing behind it.
proof fn lemma_whole_message(
    m: MachineView,
    sender: MachineView,
    end: u64,
    id: u64,
    part: int,
)
    requires
        1 <= id <= end < u64::MAX,
        is_at(m, sender, end, id as int, part),
    ensures
        ({
            let message = sender.outbound_messages[id];
            let step = model::flush(
                model::message_completed(m, id, message),
                OutputView::empty(),
            );
            &&& step.error is None
            &&& is_at(step.machine, sender, end, id + 1, 0)
            &&& step.out.events.contains(
                EventView::MessageReceived { msg_id: id, payload: message },
            )
        }),
{
    reveal(is_at);
    let message = sender.outbound_messages[id];
    let none = OutputView::empty();
    let completed = model::message_completed(m, id, message);
    let step = model::flush(completed, none);
    model::lemma_flush_grows(completed, none);
    laws::lemma_flush_keeps(completed, none);
    laws::lemma_flush_starts(completed, none);
    lemma_flush_drains(completed, none);
    assert(step.out.events[1] == EventView::MessageReceived { msg_id: id, payload: message });
    let m1 = MachineView {
        last_ordered_rx: id,
        received_buffer: completed.received_buffer.remove(id),
        ..completed
    };
    let o1 = none.emit(EventView::MessageDelivered { msg_id: id }).emit(
        EventView::MessageReceived { msg_id: id, payload: message },
    );
    assert(step == model::flush(m1, o1));
    model::lemma_flush_grows(m1, o1);
    if id < end {
        assert(!m.received_buffer.contains_key((id + 1) as u64));
        assert(!m1.received_buffer.contains_key((id + 1) as u64));
        assert(step.machine == m1);
    }
    assert forall|other: u64| id + 1 <= other <= end implies {
        &&& !#[trigger] step.machine.received_ids.contains(other)
        &&& !step.machine.received_buffer.contains_key(other)
        &&& !step.machine.received_fragments.contains_key(other)
    } by {
        assert(!m.received_ids.contains(other));
        assert(!m.received_buffer.contains_key(other));
        if step.machine.received_buffer.contains_key(other) {
            assert(completed.received_buffer.contains_key(other));
        }
    }
    assert forall|other: u64| id + 1 <= other <= end implies
        !#[trigger] step.machine.received_buffer.contains_key(other) by {
        assert(!step.machine.received_ids.contains(other));
    }
    assert forall|other: u64| id + 1 <= other <= end implies
        !#[trigger] step.machine.received_fragments.contains_key(other) by {
        assert(!step.machine.received_ids.contains(other));
    }
}

/// One part more.
proof fn lemma_part_heard(
    sender: MachineView,
    receiver: MachineView,
    d: DatagramView,
    sent_on: u32,
    now_ms: u64,
    path: u32,
    end: u64,
    id: u64,
    part: int,
)
    requires
        1 <= id <= end < u64::MAX,
        sender.outbound_messages[id].len() <= 65_535 * 988,
        0 <= part < serving::parts_of(sender.outbound_messages[id].len()),
        serving::carries(d, sender, sent_on, id, part),
        is_at(receiver, sender, end, id as int, part),
    ensures
        ({
            let message = sender.outbound_messages[id];
            let step = model::datagram_step(receiver, now_ms, path, d.bytes);
            &&& step.error is None
            &&& if part + 1 == serving::parts_of(message.len()) {
                &&& is_at(step.machine, sender, end, id + 1, 0)
                &&& step.out.events.contains(
                    EventView::MessageReceived { msg_id: id, payload: message },
                )
            } else {
                is_at(step.machine, sender, end, id as int, part + 1)
            }
        }),
{
    reveal(is_at);
    let message = sender.outbound_messages[id];
    let count = serving::parts_of(message.len());
    let none = OutputView::empty();
    let frame = wire::parse_frame(d.bytes)->Ok_0;
    let m1 = laws::met(receiver, now_ms, path);
    let whole = EventView::MessageReceived { msg_id: id, payload: message };
    assert(is_at(m1, sender, end, id as int, part));
    lemma_whole_message(m1, sender, end, id, part);
    let s1 = model::frame_step(m1, now_ms, path, frame, none);
    if message.len() <= 992 {
        assert(frame.payload == model::data_payload(id, message));
        laws::lemma_data_taken(m1, id, message, none);
    } else {
        assert(model::fragment_count(message) == count);
        assert(frame.payload == model::fragment_payload(id, message, part as nat));
        laws::law_fragment_is_kept_or_completes(m1, id, message, part as nat, none);
        let added = model::fragment_added(
            m1,
            id,
            part as u16,
            count as u16,
            model::fragment_chunk(message, part as nat),
        );
        assert forall|idx: u16| added.chunks.contains_key(idx) <==> idx < part + 1 by {
            if part > 0 {
                assert(m1.received_fragments[id].chunks.contains_key(idx) <==> idx < part);
            }
        }
        if part + 1 == count {
            assert(model::all_fragments_in(added));
        } else {
            assert(!added.chunks.contains_key((part + 1) as u16));
            assert(!model::all_fragments_in(added));
            assert(is_at(s1.machine, sender, end, id as int, part + 1));
        }
    }
    if let Some((_, queued)) = codec::msr_signal_of(frame.tlvs) {
        let step = model::msr_signal_step(s1.machine, now_ms, path, queued, false, s1.out);
        if part + 1 == count {
            lemma_news_keeps_place(s1, sender, now_ms, path, queued, end, id + 1, 0);
            laws::lemma_signal_keeps_taken(s1, now_ms, path, queued, id, message);
            let at = choose|at: int| 0 <= at < s1.out.events.len() && s1.out.events[at] == whole;
            assert(step.out.events[at] == whole);
        } else {
            lemma_news_keeps_place(s1, sender, now_ms, path, queued, end, id as int, part + 1);
        }
    }
}

/// Where the part that a list names at a place leaves off.
proof fn lemma_next_part(
    parts: Seq<(u64, int)>,
    sender: MachineView,
    start: u64,
    end: u64,
    k: int,
)
    requires
        serving::names_all(parts, sender, start as int, end as int),
        forall|id: u64|
            #![trigger sender.outbound_messages.contains_key(id)]
            start <= id <= end ==> sender.outbound_messages.contains_key(id),
        0 <= k < parts.len(),
        start <= end,
    ensures
        k == 0 ==> parts[k] == (start, 0int),
        k > 0 ==> parts[k] == if parts[k - 1].1 + 1 == serving::parts_of(
            sender.outbound_messages[parts[k - 1].0].len(),
        ) {
            ((parts[k - 1].0 + 1) as u64, 0int)
        } else {
            (parts[k - 1].0, parts[k - 1].1 + 1)
        },
        k == parts.len() - 1 ==> parts[k].0 == end && parts[k].1 + 1 == serving::parts_of(
            sender.outbound_messages[end].len(),
        ),
{
    let (id, part) = parts[k];
    if k == 0 {
        assert(sender.outbound_messages.contains_key(start));
        assert(parts.contains((start, 0int)));
        let at = choose|at: int| 0 <= at < parts.len() && parts[at] == (start, 0int);
        if at > 0 {
            assert(parts[0].0 < parts[at].0 || parts[0].1 < parts[at].1);
        }
    } else {
        let (before, last) = parts[k - 1];
        let count = serving::parts_of(sender.outbound_messages[before].len());
        assert(parts[k - 1].0 < parts[k].0 || (parts[k - 1].0 == parts[k].0 && parts[k - 1].1
            < parts[k].1));
        let follows = if last + 1 == count {
            ((before + 1) as u64, 0int)
        } else {
            (before, last + 1)
        };
        if last + 1 == count {
            assert(before < id);
            assert(sender.outbound_messages.contains_key(follows.0));
        }
        assert(parts.contains(follows));
        let at = choose|at: int| 0 <= at < parts.len() && parts[at] == follows;
        if at < k - 1 {
            assert(parts[at].0 < parts[k - 1].0 || (parts[at].0 == parts[k - 1].0 && parts[at].1
                < parts[k - 1].1));
        }
        if at > k {
            assert(parts[k].0 < parts[at].0 || (parts[k].0 == parts[at].0 && parts[k].1
                < parts[at].1));
        }
    }
    if k == parts.len() - 1 {
        let count = serving::parts_of(sender.outbound_messages[end].len());
        assert(sender.outbound_messages.contains_key(end));
        assert(parts.contains((end, count - 1)));
        let at = choose|at: int| 0 <= at < parts.len() && parts[at] == (end, count - 1);
        if at < k {
            assert(parts[at].0 < parts[k].0 || (parts[at].0 == parts[k].0 && parts[at].1
                < parts[k].1));
        }
    }
}

/// What a receiver has heard of a pulled range after some of its datagrams.
#[verifier::rlimit(30)]
proof fn lemma_parts_heard(
    sender: MachineView,
    receiver: MachineView,
    sent: Seq<DatagramView>,
    parts: Seq<(u64, int)>,
    sent_on: u32,
    now_ms: u64,
    path: u32,
    start: u64,
    end: u64,
    k: int,
)
    requires
        1 <= start <= end < u64::MAX,
        forall|id: u64|
            #![trigger sender.outbound_messages.contains_key(id)]
            start <= id <= end ==> sender.outbound_messages.contains_key(id),
        serving::all_servable(sender, start as int, end as int),
        serving::names_all(parts, sender, start as int, end as int),
        serving::all_carry(sent, sender, sent_on, parts),
        is_at(receiver, sender, end, start as int, 0),
        0 <= k <= parts.len(),
    ensures
        ({
            let inputs = heard(sent.take(k), now_ms, path);
            let after = life::lived(receiver, inputs);
            let events = life::history(receiver, inputs);
            &&& k < parts.len() ==> is_at(after, sender, end, parts[k].0 as int, parts[k].1)
            &&& k == parts.len() ==> is_at(after, sender, end, end + 1, 0)
            &&& forall|id: u64|
                #![trigger sender.outbound_messages[id]]
                start <= id <= end && (k == parts.len() || id < parts[k].0) ==> events.contains(
                    EventView::MessageReceived {
                        msg_id: id,
                        payload: sender.outbound_messages[id],
                    },
                )
        }),
    decreases k,
{
    let inputs = heard(sent.take(k), now_ms, path);
    let events = life::history(receiver, inputs);
    if parts.len() == 0 {
        assert(sender.outbound_messages.contains_key(start));
        assert(parts.contains((start, 0int)));
        assert(false);
    }
    if k < parts.len() {
        lemma_next_part(parts, sender, start, end, k);
    }
    if k > 0 {
        let (id, part) = parts[k - 1];
        let earlier = heard(sent.take(k - 1), now_ms, path);
        let d = sent[k - 1];
        assert(inputs.drop_last() =~= earlier);
        assert(inputs.last() == Input::Datagram { now_ms, path, bytes: d.bytes });
        lemma_parts_heard(
            sender,
            receiver,
            sent,
            parts,
            sent_on,
            now_ms,
            path,
            start,
            end,
            k - 1,
        );
        lemma_next_part(parts, sender, start, end, k - 1);
        let before = life::lived(receiver, earlier);
        let past = life::history(receiver, earlier);
        assert(sender.outbound_messages.contains_key(id));
        lemma_part_heard(sender, before, d, sent_on, now_ms, path, end, id, part);
        life::law_calls_continue_a_life(receiver, earlier, inputs.last());
        assert(earlier.push(inputs.last()) =~= inputs);
        let step = model::datagram_step(before, now_ms, path, d.bytes);
        assert(events == past + step.out.events);
        assert forall|other: u64|
            #![trigger sender.outbound_messages[other]]
            start <= other <= end && (k == parts.len() || other
                < parts[k].0) implies events.contains(
            EventView::MessageReceived {
                msg_id: other,
                payload: sender.outbound_messages[other],
            },
        ) by {
            let event = EventView::MessageReceived {
                msg_id: other,
                payload: sender.outbound_messages[other],
            };
            if other < id {
                assert(past.contains(event));
                let at = choose|at: int| 0 <= at < past.len() && past[at] == event;
                assert(events[at] == event);
            } else {
                assert(other == id);
                let at = choose|at: int|
                    0 <= at < step.out.events.len() && step.out.events[at] == event;
                assert(events[past.len() + at] == event);
            }
        }
    } else {
        assert(inputs =~= Seq::<Input>::empty());
    }
}

/// What answers a pull brings every message of the pulled range to a peer that has all
/// messages before and nothing of these: it hands each over as it was queued, in order
/// and once, and takes every datagram without an error.
pub proof fn law_pulled_range_arrives(
    sender: MachineView,
    receiver: MachineView,
    sent: Seq<DatagramView>,
    parts: Seq<(u64, int)>,
    sent_on: u32,
    now_ms: u64,
    path: u32,
    start: u64,
    end: u64,
)
    requires
        1 <= start <= end < u64::MAX,
        forall|id: u64|
            #![trigger sender.outbound_messages.contains_key(id)]
            start <= id <= end ==> sender.outbound_messages.contains_key(id),
        serving::all_servable(sender, start as int, end as int),
        serving::names_all(parts, sender, start as int, end as int),
        serving::all_carry(sent, sender, sent_on, parts),
        receiver.wf(),
        receiver.state == LifecycleState::Established,
        receiver.cid == 0 || receiver.cid == sender.cid,
        receiver.last_ordered_rx == start - 1,
        forall|id: u64|
            #![trigger receiver.received_ids.contains(id)]
            start <= id <= end ==> !receiver.received_ids.contains(id),
        forall|id: u64|
            #![trigger receiver.received_fragments.contains_key(id)]
            start <= id <= end ==> !receiver.received_fragments.contains_key(id),
    ensures
        ({
            let inputs = heard(sent, now_ms, path);
            let events = life::history(receiver, inputs);
            &&& life::lived(receiver, inputs).last_ordered_rx >= end
            &&& forall|id: u64|
                #![trigger sender.outbound_messages[id]]
                start <= id <= end ==> events.contains(
                    EventView::MessageReceived {
                        msg_id: id,
                        payload: sender.outbound_messages[id],
                    },
                )
        }),
{
    assert(is_at(receiver, sender, end, start as int, 0)) by {
        reveal(is_at);
        assert forall|other: u64| start <= other <= end implies
            !#[trigger] receiver.received_buffer.contains_key(other) by {
            assert(!receiver.received_ids.contains(other));
        }
    }
    lemma_parts_heard(
        sender,
        receiver,
        sent,
        parts,
        sent_on,
        now_ms,
        path,
        start,
        end,
        parts.len() as int,
    );
    reveal(is_at);
    assert(sent.take(parts.len() as int) =~= sent);
}

} // verus!
