//! What a session promises of the messages that are queued on it: none is
//! forgotten, and a pull brings every one that it asks for.

use vstd::prelude::*;

use crate::big_endian;
use crate::session::codec;
use crate::session::laws;
use crate::session::life;
use crate::session::life::Input;
use crate::session::model;
use crate::session::model::MachineView;
use crate::session::types::{CoreError, DatagramView, EventView, LifecycleState, OutputView, Role};
use crate::wire;
use crate::wire::{FrameView, MessageType, TlvView, WireError};

verus! {

/// That a datagram is a frame of the current version without flags, with this
/// content and nothing else.
pub open spec fn reads_as(
    bytes: Seq<u8>,
    message_type: MessageType,
    cid: u64,
    payload: Seq<u8>,
    tlvs: Seq<TlvView>,
) -> bool {
    wire::parse_frame(bytes) == Ok::<FrameView, WireError>(
        FrameView { version: 3, message_type, flags: 0, cid, payload, tlvs },
    )
}

/// Two numbers as sixteen bytes.
pub open spec fn two_numbers(first: int, second: int) -> Seq<u8> {
    big_endian::be_bytes(first as nat, 8) + big_endian::be_bytes(second as nat, 8)
}

/// The record by which a frame tells what its sender has received and has queued.
pub open spec fn news(received: int, queued: int) -> Seq<TlvView> {
    seq![TlvView { kind: 0x32, value: two_numbers(received, queued) }]
}

/// That a frame is one of a machine's session.
pub open spec fn is_for(m: MachineView, bytes: Seq<u8>) -> bool {
    &&& wire::parse_frame(bytes) matches Ok(frame)
    &&& m.cid == 0 || frame.cid == m.cid
}

/// How many datagrams a message of some length takes: one up to 992 bytes, else
/// one for every 988.
pub open spec fn parts_of(len: nat) -> int {
    if len <= 992 {
        1
    } else {
        (len + 987) as int / 988
    }
}

/// That a datagram carries one part of a queued message: a short one whole in a
/// data frame, a slice of a long one in a fragment frame.
pub open spec fn carries(
    d: DatagramView,
    m: MachineView,
    path: u32,
    id: u64,
    part: int,
) -> bool {
    let message = m.outbound_messages[id];
    let told = news(m.last_ordered_rx as int, m.next_outbound_id - 1);
    &&& d.path_id == path
    &&& if message.len() <= 992 {
        reads_as(
            d.bytes,
            MessageType::Data,
            m.cid,
            big_endian::be_bytes(id as nat, 8) + message,
            told,
        )
    } else {
        let from = 988 * part;
        let to = if from + 988 < message.len() {
            from + 988
        } else {
            message.len() as int
        };
        reads_as(
            d.bytes,
            MessageType::Fragment,
            m.cid,
            big_endian::be_bytes(id as nat, 8) + big_endian::be_bytes(part as nat, 2)
                + big_endian::be_bytes(parts_of(message.len()) as nat, 2) + message.subrange(
                from,
                to,
            ),
            told,
        )
    }
}

/// That a list names every part of every queued message with an id in a range,
/// once, by id and then by place, and names nothing else.
pub open spec fn names_all(parts: Seq<(u64, int)>, m: MachineView, start: int, end: int) -> bool {
    &&& forall|k: int|
        #![trigger parts[k]]
        0 <= k < parts.len() ==> {
            &&& start <= parts[k].0 <= end
            &&& m.outbound_messages.contains_key(parts[k].0)
            &&& 0 <= parts[k].1 < parts_of(m.outbound_messages[parts[k].0].len())
        }
    &&& forall|a: int, b: int|
        #![trigger parts[a], parts[b]]
        0 <= a < b < parts.len() ==> parts[a].0 < parts[b].0 || (parts[a].0 == parts[b].0
            && parts[a].1 < parts[b].1)
    &&& forall|id: u64, part: int|
        #![trigger parts.contains((id, part))]
        start <= id <= end && m.outbound_messages.contains_key(id) && 0 <= part < parts_of(
            m.outbound_messages[id].len(),
        ) ==> parts.contains((id, part))
}

/// That all queued messages with an id in a range can be cut into parts.
pub open spec fn all_servable(m: MachineView, start: int, end: int) -> bool {
    forall|id: u64|
        #![trigger m.outbound_messages.contains_key(id)]
        start <= id <= end && m.outbound_messages.contains_key(id)
            ==> m.outbound_messages[id].len() <= 65_535 * 988
}

/// That datagrams carry the parts that a list names, in its order.
pub open spec fn all_carry(
    datagrams: Seq<DatagramView>,
    m: MachineView,
    path: u32,
    parts: Seq<(u64, int)>,
) -> bool {
    &&& datagrams.len() == parts.len()
    &&& forall|k: int|
        #![trigger datagrams[k]]
        #![trigger parts[k]]
        0 <= k < parts.len() ==> carries(datagrams[k], m, path, parts[k].0, parts[k].1)
}

/// One part of a message, as it is sent.
proof fn lemma_part_is_carried(m: MachineView, path: u32, id: u64, part: int)
    requires
        m.wf(),
        m.outbound_messages.contains_key(id),
        m.outbound_messages[id].len() <= 65_535 * 988,
        0 <= part < parts_of(m.outbound_messages[id].len()),
    ensures
        ({
            let served = model::message_datagrams(m, path, id, m.outbound_messages[id]);
            &&& served is Some
            &&& served->0.len() == parts_of(m.outbound_messages[id].len())
            &&& carries(served->0[part], m, path, id, part)
        }),
{
    let message = m.outbound_messages[id];
    let count = parts_of(message.len());
    laws::lemma_own_signal_fits(m);
    assert(model::own_signal(m) =~= news(m.last_ordered_rx as int, m.next_outbound_id - 1));
    big_endian::lemma_be_bytes_len(id as nat, 8);
    if message.len() <= 992 {
        laws::lemma_core_frame_read(
            MessageType::Data,
            m.cid,
            model::data_payload(id, message),
            model::own_signal(m),
        );
    } else {
        assert(model::fragment_count(message) == count);
        big_endian::lemma_be_bytes_len(part as nat, 2);
        big_endian::lemma_be_bytes_len(count as nat, 2);
        laws::lemma_core_frame_read(
            MessageType::Fragment,
            m.cid,
            model::fragment_payload(id, message, part as nat),
            model::own_signal(m),
        );
    }
}

/// The parts of one message.
proof fn lemma_message_parts(m: MachineView, path: u32, id: u64) -> (parts: Seq<(u64, int)>)
    requires
        m.wf(),
        m.outbound_messages.contains_key(id),
        m.outbound_messages[id].len() <= 65_535 * 988,
    ensures
        names_all(parts, m, id as int, id as int),
        ({
            let served = model::message_datagrams(m, path, id, m.outbound_messages[id]);
            served is Some && all_carry(served->0, m, path, parts)
        }),
{
    let message = m.outbound_messages[id];
    let count = parts_of(message.len());
    let parts = Seq::new(count as nat, |k: int| (id, k));
    let served = model::message_datagrams(m, path, id, message)->0;
    lemma_part_is_carried(m, path, id, 0);
    assert(all_carry(served, m, path, parts)) by {
        assert forall|k: int|
            #![trigger served[k]]
            #![trigger parts[k]]
            0 <= k < parts.len() implies carries(served[k], m, path, parts[k].0, parts[k].1) by {
            lemma_part_is_carried(m, path, id, k);
        }
    }
    assert(names_all(parts, m, id as int, id as int)) by {
        assert forall|other: u64, part: int|
            #![trigger parts.contains((other, part))]
            id <= other <= id && m.outbound_messages.contains_key(other) && 0 <= part < parts_of(
                m.outbound_messages[other].len(),
            ) implies parts.contains((other, part)) by {
            assert(parts[part] == (id, part));
        }
    }
    parts
}

/// The parts of a range of messages.
proof fn lemma_range_parts(m: MachineView, path: u32, start: int, end: int) -> (parts: Seq<
    (u64, int),
>)
    requires
        m.wf(),
        0 <= start,
        end <= u64::MAX,
        all_servable(m, start, end),
    ensures
        names_all(parts, m, start, end),
        ({
            let served = model::range_datagrams(m, path, start, end);
            served is Some && all_carry(served->0, m, path, parts)
        }),
    decreases end - start + 1,
{
    let served = model::range_datagrams(m, path, start, end);
    if start > end {
        let parts = Seq::<(u64, int)>::empty();
        parts
    } else {
        let id = start as u64;
        let rest = lemma_range_parts(m, path, start + 1, end);
        let later = model::range_datagrams(m, path, start + 1, end)->0;
        if m.outbound_messages.contains_key(id) {
            let first = lemma_message_parts(m, path, id);
            let now = model::message_datagrams(m, path, id, m.outbound_messages[id])->0;
            let parts = first + rest;
            assert(served->0 == now + later);
            assert forall|other: u64, part: int|
                #![trigger parts.contains((other, part))]
                start <= other <= end && m.outbound_messages.contains_key(other) && 0 <= part
                    < parts_of(m.outbound_messages[other].len()) implies parts.contains(
                (other, part),
            ) by {
                if other == id {
                    assert(first.contains((other, part)));
                    let at = choose|at: int| 0 <= at < first.len() && first[at] == (other, part);
                    assert(parts[at] == (other, part));
                } else {
                    assert(rest.contains((other, part)));
                    let at = choose|at: int| 0 <= at < rest.len() && rest[at] == (other, part);
                    assert(parts[first.len() + at] == (other, part));
                }
            }
            assert forall|k: int|
                #![trigger parts[k]]
                0 <= k < parts.len() implies {
                &&& start <= parts[k].0 <= end
                &&& m.outbound_messages.contains_key(parts[k].0)
                &&& 0 <= parts[k].1 < parts_of(m.outbound_messages[parts[k].0].len())
                &&& carries(served->0[k], m, path, parts[k].0, parts[k].1)
            } by {
                if k < first.len() {
                    assert(parts[k] == first[k]);
                    assert(served->0[k] == now[k]);
                } else {
                    assert(parts[k] == rest[k - first.len()]);
                    assert(served->0[k] == later[k - first.len()]);
                }
            }
            assert forall|a: int, b: int|
                #![trigger parts[a], parts[b]]
                0 <= a < b < parts.len() implies parts[a].0 < parts[b].0 || (parts[a].0
                == parts[b].0 && parts[a].1 < parts[b].1) by {
                if b < first.len() {
                    assert(parts[a] == first[a] && parts[b] == first[b]);
                } else if a >= first.len() {
                    assert(parts[a] == rest[a - first.len()]);
                    assert(parts[b] == rest[b - first.len()]);
                } else {
                    assert(parts[a] == first[a]);
                    assert(parts[b] == rest[b - first.len()]);
                }
            }
            parts
        } else {
            assert(served->0 =~= later);
            assert forall|other: u64, part: int|
                #![trigger rest.contains((other, part))]
                start <= other <= end && m.outbound_messages.contains_key(other) && 0 <= part
                    < parts_of(m.outbound_messages[other].len()) implies rest.contains(
                (other, part),
            ) by {
                assert(other != id);
            }
            rest
        }
    }
}

/// A range with a message in it that is too long to be cut.
proof fn lemma_range_too_long(m: MachineView, path: u32, start: int, end: int, id: u64)
    requires
        0 <= start <= id <= end <= u64::MAX,
        m.outbound_messages.contains_key(id),
        m.outbound_messages[id].len() > 65_535 * 988,
    ensures
        model::range_datagrams(m, path, start, end) is None,
    decreases end - start + 1,
{
    if start < id {
        lemma_range_too_long(m, path, start + 1, end, id);
    }
}

/// A pull for a range of ids, however long, is answered with every message of the
/// queue whose id lies in it, by id: each as it was queued, in one data frame or in
/// all of its fragments. What follows these is at most a pull of one's own. A range
/// with a message that cannot be cut is refused.
pub proof fn law_pull_is_answered_in_full(
    m: MachineView,
    now_ms: u64,
    path: u32,
    bytes: Seq<u8>,
    start: u64,
    end: u64,
)
    requires
        m.wf(),
        m.state == LifecycleState::Established,
        is_for(m, bytes),
        wire::parse_frame(bytes)->Ok_0.message_type == MessageType::RequestRange,
        wire::parse_frame(bytes)->Ok_0.payload.len() >= 16,
        start == big_endian::be_value(wire::parse_frame(bytes)->Ok_0.payload.subrange(0, 8)),
        end == big_endian::be_value(wire::parse_frame(bytes)->Ok_0.payload.subrange(8, 16)),
    ensures
        ({
            let step = model::datagram_step(m, now_ms, path, bytes);
            let sent = step.out.outbound_datagrams;
            if all_servable(m, start as int, end as int) {
                &&& step.error is None
                &&& exists|parts: Seq<(u64, int)>|
                    #![trigger names_all(parts, m, start as int, end as int)]
                    {
                        &&& names_all(parts, m, start as int, end as int)
                        &&& parts.len() <= sent.len() <= parts.len() + 1
                        &&& all_carry(sent.take(parts.len() as int), m, path, parts)
                        &&& sent.len() > parts.len() ==> {
                            &&& wire::parse_frame(sent.last().bytes) is Ok
                            &&& wire::parse_frame(sent.last().bytes)->Ok_0.message_type
                                == MessageType::RequestRange
                        }
                    }
            } else {
                step.error == Some(CoreError::MalformedData)
            }
        }),
{
    let frame = wire::parse_frame(bytes)->Ok_0;
    let m1 = laws::met(m, now_ms, path);
    let none = OutputView::empty();
    let step = model::datagram_step(m, now_ms, path, bytes);
    assert(codec::pair_of(frame.payload) == Some((start, end)));
    assert(m1.wf());
    if all_servable(m, start as int, end as int) {
        assert(all_servable(m1, start as int, end as int));
        let parts = lemma_range_parts(m1, path, start as int, end as int);
        let served = model::range_datagrams(m1, path, start as int, end as int)->0;
        let s1 = model::request_range_step(m1, path, frame.payload, none);
        assert(s1.out.outbound_datagrams =~= served);
        let sent = step.out.outbound_datagrams;
        if let Some((_, wanted)) = codec::msr_signal_of(frame.tlvs) {
            lemma_signal_sends(m1, now_ms, path, wanted, false, s1.out);
        }
        assert(sent.take(parts.len() as int) =~= served);
        assert(names_all(parts, m, start as int, end as int));
        assert forall|k: int|
            #![trigger parts[k]]
            0 <= k < parts.len() implies carries(
            served[k],
            m,
            path,
            parts[k].0,
            parts[k].1,
        ) by {
            assert(carries(served[k], m1, path, parts[k].0, parts[k].1));
        }
    } else {
        let id = choose|id: u64|
            #![trigger m.outbound_messages.contains_key(id)]
            start <= id <= end && m.outbound_messages.contains_key(id)
                && m.outbound_messages[id].len() > 65_535 * 988;
        lemma_range_too_long(m1, path, start as int, end as int, id);
    }
}

/// What a machine does about news of the peer's queue, next to another payload or
/// as the end of an MSR: it sends at most a keepalive and one pull, for all that it
/// has not pulled.
pub(crate) proof fn lemma_signal_sends(
    m: MachineView,
    now_ms: u64,
    path: u32,
    queued: u64,
    control: bool,
    out: OutputView,
)
    requires
        m.next_outbound_id >= 1,
    ensures
        ({
            let step = model::msr_signal_step(m, now_ms, path, queued, control, out);
            let stands = m.state == LifecycleState::Established || (m.role == Role::Client
                && m.state == LifecycleState::Reactivating);
            let keepalive = m.role == Role::Client && control
                && m.client_server_msr_rx_since_last_keepalive >= 3;
            let before = if keepalive {
                out.outbound_datagrams.len() + 1
            } else {
                out.outbound_datagrams.len()
            };
            let sent = step.out.outbound_datagrams;
            &&& step.error is None
            &&& step.out.timer_actions == out.timer_actions
            &&& out.outbound_datagrams.is_prefix_of(sent)
            &&& keepalive ==> sent[before - 1].path_id == path && reads_as(
                sent[before - 1].bytes,
                MessageType::Msr,
                m.cid,
                two_numbers(m.last_ordered_rx as int, m.next_outbound_id - 1),
                Seq::empty(),
            )
            &&& if stands && queued > m.last_requested_end {
                &&& sent.len() == before + 1
                &&& sent.last().path_id == path
                &&& reads_as(
                    sent.last().bytes,
                    MessageType::RequestRange,
                    m.cid,
                    two_numbers(m.last_requested_end + 1, queued as int),
                    news(m.last_ordered_rx as int, m.next_outbound_id - 1),
                )
                &&& step.machine.last_requested_end == queued
            } else {
                &&& sent.len() == before
                &&& step.machine.last_requested_end == m.last_requested_end
            }
            &&& step.machine.state == if stands {
                LifecycleState::Established
            } else {
                m.state
            }
        }),
{
    let step = model::msr_signal_step(m, now_ms, path, queued, control, out);
    let queue = m.next_outbound_id - 1;
    laws::lemma_pair_len(m.last_ordered_rx, queue as u64);
    laws::lemma_core_frame_read(
        MessageType::Msr,
        m.cid,
        codec::pair_bytes(m.last_ordered_rx, queue as u64),
        Seq::empty(),
    );
    laws::lemma_own_signal_fits(m);
    assert(model::own_signal(m) =~= news(m.last_ordered_rx as int, queue));
    if queued > m.last_requested_end {
        let start = (m.last_requested_end + 1) as u64;
        laws::lemma_pair_len(start, queued);
        laws::lemma_core_frame_read(
            MessageType::RequestRange,
            m.cid,
            codec::pair_bytes(start, queued),
            model::own_signal(m),
        );
    }
    assert(out.outbound_datagrams.is_prefix_of(step.out.outbound_datagrams));
}

/// What a message to send does: it is queued under the next id behind all others, and
/// once the session stands, the queue is advertised on its path.
pub proof fn law_message_is_queued_and_advertised(m: MachineView, payload: Seq<u8>)
    requires
        m.next_outbound_id < u64::MAX,
    ensures
        ({
            let step = model::send_step(m, payload);
            let id = m.next_outbound_id;
            &&& step.error is None
            &&& step.machine == (MachineView {
                next_outbound_id: (id + 1) as u64,
                outbound_messages: m.outbound_messages.insert(id, payload),
                ..m
            })
            &&& step.out.timer_actions.len() == 0
            &&& if m.state == LifecycleState::Established {
                &&& step.out.outbound_datagrams.len() == 1
                &&& step.out.outbound_datagrams[0].path_id == m.current_path_id
                &&& reads_as(
                    step.out.outbound_datagrams[0].bytes,
                    MessageType::Msr,
                    m.cid,
                    two_numbers(
                        if m.role == Role::Client {
                            0
                        } else {
                            m.last_ordered_rx as int
                        },
                        id as int,
                    ),
                    Seq::empty(),
                )
                &&& if m.role == Role::Client {
                    step.out.events == seq![EventView::QueueAdvertised { next_pending_id: id }]
                } else {
                    step.out.events.len() == 0
                }
            } else {
                step.out.outbound_datagrams.len() == 0 && step.out.events.len() == 0
            }
        }),
{
    let step = model::send_step(m, payload);
    let id = m.next_outbound_id;
    let received = if m.role == Role::Client {
        0
    } else {
        m.last_ordered_rx
    };
    laws::lemma_pair_len(received, id);
    laws::lemma_core_frame_read(
        MessageType::Msr,
        m.cid,
        codec::pair_bytes(received, id),
        Seq::empty(),
    );
    if step.out.events.len() > 0 {
        assert(step.out.events =~= seq![EventView::QueueAdvertised { next_pending_id: id }]);
    }
}

/// That a queue holds all that another holds, unchanged.
pub open spec fn queue_grew(before: MachineView, after: MachineView) -> bool {
    &&& after.next_outbound_id >= before.next_outbound_id
    &&& forall|id: u64|
        #![trigger after.outbound_messages.contains_key(id)]
        before.outbound_messages.contains_key(id) && id < before.next_outbound_id ==> {
            &&& after.outbound_messages.contains_key(id)
            &&& after.outbound_messages[id] == before.outbound_messages[id]
        }
}

/// That the ids of some inputs' messages do not run out.
pub open spec fn ids_last(m: MachineView, inputs: Seq<Input>) -> bool {
    m.next_outbound_id + inputs.len() <= u64::MAX
}

/// A message that was queued stays queued as it was for the whole life of the
/// machine, whatever it is asked, so that it can be pulled again at any time.
pub proof fn law_queued_messages_are_kept(m: MachineView, inputs: Seq<Input>)
    requires
        ids_last(m, inputs),
    ensures
        queue_grew(m, life::lived(m, inputs)),
        life::lived(m, inputs).next_outbound_id <= m.next_outbound_id + inputs.len(),
    decreases inputs.len(),
{
    reveal(life::input_step);
    if inputs.len() > 0 {
        law_queued_messages_are_kept(m, inputs.drop_last());
        let before = life::lived(m, inputs.drop_last());
        if let Input::Datagram { now_ms, path, bytes } = inputs.last() {
            if is_for(before, bytes) {
                lemma_frame_keeps_the_queue(before, now_ms, path, bytes);
            }
        }
        let after = life::lived(m, inputs);
        assert forall|id: u64|
            #![trigger after.outbound_messages.contains_key(id)]
            m.outbound_messages.contains_key(id) && id < m.next_outbound_id implies {
            &&& after.outbound_messages.contains_key(id)
            &&& after.outbound_messages[id] == m.outbound_messages[id]
        } by {
            assert(before.outbound_messages.contains_key(id));
        }
    }
}

proof fn lemma_frame_keeps_the_queue(m: MachineView, now_ms: u64, path: u32, bytes: Seq<u8>)
    requires
        is_for(m, bytes),
    ensures
        ({
            let after = model::datagram_step(m, now_ms, path, bytes).machine;
            &&& after.next_outbound_id == m.next_outbound_id
            &&& after.outbound_messages == m.outbound_messages
        }),
{
    let frame = wire::parse_frame(bytes)->Ok_0;
    let none = OutputView::empty();
    let m1 = laws::met(m, now_ms, path);
    laws::lemma_tlvs_keep_state(m1, path, frame.tlvs, none);
    let id = big_endian::be_value(frame.payload.subrange(0, 8)) as u64;
    let idx = big_endian::be_value(frame.payload.subrange(8, 10)) as u16;
    let total = big_endian::be_value(frame.payload.subrange(10, 12)) as u16;
    let fragments = model::fragment_added(m1, id, idx, total, frame.payload.skip(12));
    laws::lemma_flush_keeps(model::message_completed(m1, id, frame.payload.skip(8)), none);
    laws::lemma_flush_keeps(
        model::message_completed(m1, id, model::joined(fragments.chunks, total as nat)),
        none,
    );
}

/// The news that a frame brings next to its payload: that of its first record of the
/// kind, where that is long enough.
pub proof fn law_first_news_counts(tlvs: Seq<TlvView>, at: int)
    ensures
        (forall|k: int| #![trigger tlvs[k]] 0 <= k < tlvs.len() ==> tlvs[k].kind != 0x32)
            ==> codec::msr_signal_of(tlvs) is None,
        0 <= at < tlvs.len() && tlvs[at].kind == 0x32 && (forall|k: int|
            #![trigger tlvs[k]]
            0 <= k < at ==> tlvs[k].kind != 0x32) ==> codec::msr_signal_of(tlvs)
            == if tlvs[at].value.len() >= 16 {
            Some(
                (
                    big_endian::be_value(tlvs[at].value.subrange(0, 8)) as u64,
                    big_endian::be_value(tlvs[at].value.subrange(8, 16)) as u64,
                ),
            )
        } else {
            None
        },
    decreases tlvs.len(),
{
    if tlvs.len() > 0 && tlvs[0].kind != 0x32 {
        let rest = tlvs.skip(1);
        law_first_news_counts(rest, at - 1);
        assert(forall|k: int| #![trigger rest[k]] 0 <= k < rest.len() ==> rest[k] == tlvs[k + 1]);
    }
}

/// How many messages of the peer's queue a frame tells of, if it does: an MSR in its
/// payload, any other next to it.
pub open spec fn told_queue(frame: FrameView) -> Option<u64> {
    if frame.message_type == MessageType::Msr {
        if frame.payload.len() >= 16 {
            Some(big_endian::be_value(frame.payload.subrange(8, 16)) as u64)
        } else {
            None
        }
    } else {
        match codec::msr_signal_of(frame.tlvs) {
            Some((_, queued)) => Some(queued),
            None => None,
        }
    }
}

/// Whatever frame tells of messages that were not pulled yet, all of them are pulled
/// at once on its path, by a session that stands after it. Nothing else is pulled.
pub proof fn law_news_is_pulled(m: MachineView, now_ms: u64, path: u32, bytes: Seq<u8>)
    requires
        m.next_outbound_id >= 1,
        is_for(m, bytes),
        model::datagram_step(m, now_ms, path, bytes).error is None,
    ensures
        ({
            let frame = wire::parse_frame(bytes)->Ok_0;
            let step = model::datagram_step(m, now_ms, path, bytes);
            let sent = step.out.outbound_datagrams;
            if told_queue(frame) matches Some(queued) && queued > m.last_requested_end
                && step.machine.state == LifecycleState::Established {
                let queued = told_queue(frame)->0;
                &&& step.machine.last_requested_end == queued
                &&& sent.len() > 0
                &&& sent.last().path_id == path
                &&& reads_as(
                    sent.last().bytes,
                    MessageType::RequestRange,
                    m.cid,
                    two_numbers(m.last_requested_end + 1, queued as int),
                    news(step.machine.last_ordered_rx as int, m.next_outbound_id - 1),
                )
                &&& step.out.events.len() > 0
                &&& step.out.events.last() == (EventView::RequestRangeSent {
                    start: (m.last_requested_end + 1) as u64,
                    end: queued,
                })
            } else {
                step.machine.last_requested_end == m.last_requested_end
            }
        }),
{
    let frame = wire::parse_frame(bytes)->Ok_0;
    let none = OutputView::empty();
    let m1 = laws::met(m, now_ms, path);
    laws::lemma_tlvs_keep_state(m1, path, frame.tlvs, none);
    lemma_frame_keeps_the_queue(m, now_ms, path, bytes);
    if frame.message_type == MessageType::Msr {
        let s1 = model::msr_tlvs_step(m1, path, frame.tlvs, none);
        let (_, queued) = codec::pair_of(frame.payload)->0;
        lemma_signal_sends(s1.machine, now_ms, path, queued, true, s1.out);
    } else {
        let id = big_endian::be_value(frame.payload.subrange(0, 8)) as u64;
        let idx = big_endian::be_value(frame.payload.subrange(8, 10)) as u16;
        let total = big_endian::be_value(frame.payload.subrange(10, 12)) as u16;
        let fragments = model::fragment_added(m1, id, idx, total, frame.payload.skip(12));
        laws::lemma_flush_keeps(model::message_completed(m1, id, frame.payload.skip(8)), none);
        laws::lemma_flush_keeps(
            model::message_completed(m1, id, model::joined(fragments.chunks, total as nat)),
            none,
        );
        let s1 = model::frame_step(m1, now_ms, path, frame, none);
        if let Some((_, queued)) = codec::msr_signal_of(frame.tlvs) {
            lemma_signal_sends(s1.machine, now_ms, path, queued, false, s1.out);
        }
    }
}

} // verus!
