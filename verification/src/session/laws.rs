//! What holds of session machines over several steps and between two of them.

use vstd::prelude::*;

use crate::big_endian;
use crate::session::codec;
use crate::session::model;
use crate::session::model::{FragmentsView, MachineView, Step};
use crate::session::types::{
    CoreConfig, CoreError, DatagramView, EventView, LifecycleState, OutputView, PathEvent, Role,
    TimerId, TimerProposal,
};
use crate::wire;
use crate::wire::{FrameView, MessageType, TlvView, WireError};

verus! {

/// What is no frame leaves a machine as it was and is only reported.
pub proof fn law_unreadable_datagram_changes_nothing(
    m: MachineView,
    now_ms: u64,
    path: u32,
    bytes: Seq<u8>,
)
    requires
        wire::parse_frame(bytes) is Err,
    ensures
        model::datagram_step(m, now_ms, path, bytes) == model::done(
            m,
            OutputView::empty().emit(EventView::ParseError),
        ),
{
}

/// A frame of another session is refused and leaves a machine as it was.
pub proof fn law_foreign_frame_changes_nothing(
    m: MachineView,
    now_ms: u64,
    path: u32,
    bytes: Seq<u8>,
)
    requires
        wire::parse_frame(bytes) is Ok,
        m.cid != 0,
        wire::parse_frame(bytes)->Ok_0.cid != m.cid,
    ensures
        model::datagram_step(m, now_ms, path, bytes).machine == m,
        model::datagram_step(m, now_ms, path, bytes).error == Some(
            CoreError::CidMismatch { expected: m.cid, got: wire::parse_frame(bytes)->Ok_0.cid },
        ),
{
}

pub(crate) proof fn lemma_tlvs_keep_state(m: MachineView, path: u32, tlvs: Seq<TlvView>, out: OutputView)
    ensures
        model::msr_tlvs_step(m, path, tlvs, out).machine == (MachineView {
            cfg: model::msr_tlvs_step(m, path, tlvs, out).machine.cfg,
            pending_local_proposal: model::msr_tlvs_step(
                m,
                path,
                tlvs,
                out,
            ).machine.pending_local_proposal,
            ..m
        }),
    decreases tlvs.len(),
{
    if tlvs.len() > 0 {
        let first = model::msr_tlv_step(m, path, tlvs[0], out);
        lemma_tlvs_keep_state(first.machine, path, tlvs.skip(1), first.out);
    }
}

pub(crate) proof fn lemma_flush_keeps(m: MachineView, out: OutputView)
    ensures
        model::flush(m, out).machine == (MachineView {
            last_ordered_rx: model::flush(m, out).machine.last_ordered_rx,
            received_buffer: model::flush(m, out).machine.received_buffer,
            ..m
        }),
        model::flush(m, out).out == (OutputView {
            events: model::flush(m, out).out.events,
            ..out
        }),
    decreases u64::MAX - m.last_ordered_rx,
{
    let next = (m.last_ordered_rx + 1) as u64;
    if m.last_ordered_rx < u64::MAX && m.received_buffer.contains_key(next) {
        lemma_flush_keeps(
            MachineView {
                last_ordered_rx: next,
                received_buffer: m.received_buffer.remove(next),
                ..m
            },
            out.emit(EventView::MessageDelivered { msg_id: next }).emit(
                EventView::MessageReceived { msg_id: next, payload: m.received_buffer[next] },
            ),
        );
    }
}

/// That some events tell neither that a session stands nor that messages were
/// requested or arrived.
pub open spec fn tells_no_life(events: Seq<EventView>) -> bool {
    forall|i: int|
        #![trigger events[i]]
        0 <= i < events.len() ==> match events[i] {
            EventView::HandshakeEstablished => false,
            EventView::Reactivated => false,
            EventView::RequestRangeSent { .. } => false,
            EventView::MessageDelivered { .. } => false,
            EventView::MessageReceived { .. } => false,
            _ => true,
        }
}

proof fn lemma_tlvs_tell_no_life(m: MachineView, path: u32, tlvs: Seq<TlvView>, out: OutputView)
    requires
        tells_no_life(out.events),
    ensures
        tells_no_life(model::msr_tlvs_step(m, path, tlvs, out).out.events),
    decreases tlvs.len(),
{
    if tlvs.len() > 0 {
        let first = model::msr_tlv_step(m, path, tlvs[0], out);
        if first.out.events != out.events {
            assert(first.out.events.drop_last() =~= out.events);
        }
        assert(tells_no_life(first.out.events));
        lemma_tlvs_tell_no_life(first.machine, path, tlvs.skip(1), first.out);
    }
}

/// A lost session stays lost, whatever comes in and whatever the application
/// asks for, and tells of no life any more.
pub proof fn law_lost_stays_lost(
    m: MachineView,
    now_ms: u64,
    path: u32,
    bytes: Seq<u8>,
    timer: TimerId,
    payload: Seq<u8>,
    proposal: TimerProposal,
    event: PathEvent,
)
    requires
        m.state == LifecycleState::Lost,
    ensures
        model::datagram_step(m, now_ms, path, bytes).machine.state == LifecycleState::Lost,
        model::timer_step(m, now_ms, timer).machine.state == LifecycleState::Lost,
        model::send_step(m, payload).machine.state == LifecycleState::Lost,
        model::close_step(m).machine.state == LifecycleState::Lost,
        model::propose_step(m, now_ms, proposal).machine.state == LifecycleState::Lost,
        model::path_step(m, event).machine.state == LifecycleState::Lost,
        model::begin_step(m).machine.state == LifecycleState::Lost,
        tells_no_life(model::datagram_step(m, now_ms, path, bytes).out.events),
        tells_no_life(model::timer_step(m, now_ms, timer).out.events),
        tells_no_life(model::send_step(m, payload).out.events),
        tells_no_life(model::close_step(m).out.events),
        tells_no_life(model::propose_step(m, now_ms, proposal).out.events),
        tells_no_life(model::path_step(m, event).out.events),
        tells_no_life(model::begin_step(m).out.events),
{
    if let Ok(frame) = wire::parse_frame(bytes) {
        let m1 = MachineView { current_path_id: path, ..m }.deadline_touched(now_ms).peer_heard(
            now_ms,
        );
        lemma_tlvs_keep_state(m1, path, frame.tlvs, OutputView::empty());
        lemma_tlvs_tell_no_life(m1, path, frame.tlvs, OutputView::empty());
    }
}

/// The ids of the messages that a list of events hands over.
pub open spec fn received_in(events: Seq<EventView>) -> Seq<u64>
    decreases events.len(),
{
    if events.len() == 0 {
        Seq::empty()
    } else {
        let before = received_in(events.drop_last());
        match events.last() {
            EventView::MessageReceived { msg_id, .. } => before.push(msg_id),
            _ => before,
        }
    }
}

proof fn lemma_received_after_emit(out: OutputView, event: EventView)
    ensures
        received_in(out.emit(event).events) == match event {
            EventView::MessageReceived { msg_id, .. } => received_in(out.events).push(msg_id),
            _ => received_in(out.events),
        },
{
    assert(out.emit(event).events.drop_last() =~= out.events);
}

/// The ids that follow `from`, up to `to`.
pub open spec fn ids_after(from: u64, to: u64) -> Seq<u64> {
    Seq::new((to - from) as nat, |i: int| (from + 1 + i) as u64)
}

proof fn lemma_flush_received(m: MachineView, out: OutputView)
    ensures
        received_in(model::flush(m, out).out.events) == received_in(out.events) + ids_after(
            m.last_ordered_rx,
            model::flush(m, out).machine.last_ordered_rx,
        ),
        model::flush(m, out).machine.last_ordered_rx >= m.last_ordered_rx,
    decreases u64::MAX - m.last_ordered_rx,
{
    let next = (m.last_ordered_rx + 1) as u64;
    model::lemma_flush_grows(m, out);
    if m.last_ordered_rx < u64::MAX && m.received_buffer.contains_key(next) {
        let m1 = MachineView {
            last_ordered_rx: next,
            received_buffer: m.received_buffer.remove(next),
            ..m
        };
        let delivered = EventView::MessageDelivered { msg_id: next };
        let received = EventView::MessageReceived {
            msg_id: next,
            payload: m.received_buffer[next],
        };
        lemma_received_after_emit(out, delivered);
        lemma_received_after_emit(out.emit(delivered), received);
        let o1 = out.emit(delivered).emit(received);
        lemma_flush_received(m1, o1);
        let end = model::flush(m1, o1).machine.last_ordered_rx;
        assert(received_in(out.events).push(next) + ids_after(next, end) =~= received_in(
            out.events,
        ) + ids_after(m.last_ordered_rx, end));
    } else {
        assert(received_in(out.events) + ids_after(m.last_ordered_rx, m.last_ordered_rx)
            =~= received_in(out.events));
    }
}

proof fn lemma_tlvs_hand_nothing_over(
    m: MachineView,
    path: u32,
    tlvs: Seq<TlvView>,
    out: OutputView,
)
    ensures
        received_in(model::msr_tlvs_step(m, path, tlvs, out).out.events) == received_in(
            out.events,
        ),
        requested_in(model::msr_tlvs_step(m, path, tlvs, out).out.events) == requested_in(
            out.events,
        ),
    decreases tlvs.len(),
{
    if tlvs.len() > 0 {
        let first = model::msr_tlv_step(m, path, tlvs[0], out);
        if first.out.events != out.events {
            assert(first.out.events.drop_last() =~= out.events);
        }
        lemma_tlvs_hand_nothing_over(first.machine, path, tlvs.skip(1), first.out);
    }
}

/// The requests that a list of events reports.
pub open spec fn requested_in(events: Seq<EventView>) -> Seq<(u64, u64)>
    decreases events.len(),
{
    if events.len() == 0 {
        Seq::empty()
    } else {
        let before = requested_in(events.drop_last());
        match events.last() {
            EventView::RequestRangeSent { start, end } => before.push((start, end)),
            _ => before,
        }
    }
}

proof fn lemma_requested_after_emit(out: OutputView, event: EventView)
    ensures
        requested_in(out.emit(event).events) == match event {
            EventView::RequestRangeSent { start, end } => requested_in(out.events).push(
                (start, end),
            ),
            _ => requested_in(out.events),
        },
{
    assert(out.emit(event).events.drop_last() =~= out.events);
}

pub(crate) proof fn lemma_signal_reports(
    m: MachineView,
    now_ms: u64,
    path: u32,
    next_pending: u64,
    control: bool,
    out: OutputView,
)
    ensures
        ({
            let step = model::msr_signal_step(m, now_ms, path, next_pending, control, out);
            &&& step.error is None
            &&& received_in(step.out.events) == received_in(out.events)
            &&& step.machine.last_ordered_rx == m.last_ordered_rx
            &&& step.machine.last_requested_end >= m.last_requested_end
            &&& requested_in(step.out.events) == requested_in(out.events) + new_requests(
                m.last_requested_end,
                step.machine.last_requested_end,
            )
        }),
{
    let s1 = if m.role == Role::Client {
        model::client_msr_heard(m, now_ms, path, control, out)
    } else {
        model::done(MachineView { server_consecutive_msr_without_client_msr: 0, ..m }, out)
    };
    if s1.out.events != out.events {
        assert(s1.out.events.drop_last() =~= out.events);
    }
    assert(requested_in(out.events) + Seq::<(u64, u64)>::empty() =~= requested_in(out.events));
    if s1.machine.state == LifecycleState::Established && next_pending
        > s1.machine.last_requested_end {
        let start = (s1.machine.last_requested_end + 1) as u64;
        let m2 = MachineView { last_requested_end: next_pending, ..s1.machine };
        let sent = s1.out.send(
            path,
            codec::core_frame_bytes(
                MessageType::RequestRange,
                m2.cid,
                codec::pair_bytes(start, next_pending),
                model::own_signal(m2),
            ),
        );
        let event = EventView::RequestRangeSent { start, end: next_pending };
        lemma_received_after_emit(sent, event);
        lemma_requested_after_emit(sent, event);
        assert(requested_in(out.events).push((start, next_pending)) =~= requested_in(out.events)
            + new_requests(m.last_requested_end, next_pending));
    }
}

/// The one request that takes the requested end from `from` to `to`.
pub open spec fn new_requests(from: u64, to: u64) -> Seq<(u64, u64)> {
    if to > from {
        seq![((from + 1) as u64, to)]
    } else {
        Seq::empty()
    }
}

proof fn lemma_frame_reports(m: MachineView, now_ms: u64, path: u32, frame: FrameView)
    ensures
        ({
            let step = model::frame_step(m, now_ms, path, frame, OutputView::empty());
            &&& step.error is None ==> received_in(step.out.events) == ids_after(
                m.last_ordered_rx,
                step.machine.last_ordered_rx,
            )
            &&& step.machine.last_ordered_rx >= m.last_ordered_rx
            &&& step.machine.last_requested_end >= m.last_requested_end
            &&& step.error is None ==> requested_in(step.out.events) == new_requests(
                m.last_requested_end,
                step.machine.last_requested_end,
            )
            &&& step.error is Some ==> step.machine.last_ordered_rx == m.last_ordered_rx
                && step.machine.last_requested_end == m.last_requested_end
        }),
{
    let none = OutputView::empty();
    let step = model::frame_step(m, now_ms, path, frame, none);
    assert(received_in(none.events) =~= Seq::<u64>::empty());
    assert(requested_in(none.events) =~= Seq::<(u64, u64)>::empty());
    assert(ids_after(m.last_ordered_rx, m.last_ordered_rx) =~= Seq::<u64>::empty());
    match frame.message_type {
        MessageType::Msr => {
            lemma_tlvs_keep_state(m, path, frame.tlvs, none);
            lemma_tlvs_hand_nothing_over(m, path, frame.tlvs, none);
            if let Some((_, next_pending)) = codec::pair_of(frame.payload) {
                let s1 = model::msr_tlvs_step(m, path, frame.tlvs, none);
                lemma_signal_reports(s1.machine, now_ms, path, next_pending, true, s1.out);
                assert(requested_in(step.out.events) =~= new_requests(
                    m.last_requested_end,
                    step.machine.last_requested_end,
                ) || step.error is Some);
            }
        },
        MessageType::Data | MessageType::Fragment => {
            let completed = if frame.message_type == MessageType::Data {
                model::message_completed(
                    m,
                    big_endian::be_value(frame.payload.subrange(0, 8)) as u64,
                    frame.payload.skip(8),
                )
            } else {
                let id = big_endian::be_value(frame.payload.subrange(0, 8)) as u64;
                let idx = big_endian::be_value(frame.payload.subrange(8, 10)) as u16;
                let total = big_endian::be_value(frame.payload.subrange(10, 12)) as u16;
                let fragments = model::fragment_added(m, id, idx, total, frame.payload.skip(12));
                model::message_completed(m, id, model::joined(fragments.chunks, total as nat))
            };
            lemma_flush_received(completed, none);
            lemma_flush_keeps(completed, none);
            model::lemma_flush_grows(completed, none);
            lemma_flush_requests_nothing(completed, none);
            assert(Seq::<u64>::empty() + ids_after(
                m.last_ordered_rx,
                model::flush(completed, none).machine.last_ordered_rx,
            ) =~= ids_after(
                m.last_ordered_rx,
                model::flush(completed, none).machine.last_ordered_rx,
            ));
        },
        _ => {
            if step.out.events.len() > 0 {
                assert(step.out.events.drop_last() =~= none.events);
            }
        },
    }
}

proof fn lemma_flush_requests_nothing(m: MachineView, out: OutputView)
    ensures
        requested_in(model::flush(m, out).out.events) == requested_in(out.events),
    decreases u64::MAX - m.last_ordered_rx,
{
    let next = (m.last_ordered_rx + 1) as u64;
    if m.last_ordered_rx < u64::MAX && m.received_buffer.contains_key(next) {
        let delivered = EventView::MessageDelivered { msg_id: next };
        let received = EventView::MessageReceived {
            msg_id: next,
            payload: m.received_buffer[next],
        };
        lemma_requested_after_emit(out, delivered);
        lemma_requested_after_emit(out.emit(delivered), received);
        lemma_flush_requests_nothing(
            MachineView {
                last_ordered_rx: next,
                received_buffer: m.received_buffer.remove(next),
                ..m
            },
            out.emit(delivered).emit(received),
        );
    }
}

/// Whatever datagram comes in, the messages handed over are exactly those that
/// follow the last one handed over before, in order and without a gap. As the
/// position never goes back, no message is handed over twice.
pub proof fn law_messages_arrive_once_and_in_order(
    m: MachineView,
    now_ms: u64,
    path: u32,
    bytes: Seq<u8>,
)
    ensures
        ({
            let step = model::datagram_step(m, now_ms, path, bytes);
            &&& step.machine.last_ordered_rx >= m.last_ordered_rx
            &&& step.error is None ==> received_in(step.out.events) == ids_after(
                m.last_ordered_rx,
                step.machine.last_ordered_rx,
            )
        }),
{
    lemma_datagram_reports(m, now_ms, path, bytes);
}

/// Whatever datagram comes in, at most one range is requested. It starts right
/// after the last id requested before, so no id is requested twice and none is
/// left out.
pub proof fn law_requests_follow_each_other(
    m: MachineView,
    now_ms: u64,
    path: u32,
    bytes: Seq<u8>,
)
    ensures
        ({
            let step = model::datagram_step(m, now_ms, path, bytes);
            &&& step.machine.last_requested_end >= m.last_requested_end
            &&& step.error is None ==> requested_in(step.out.events) == new_requests(
                m.last_requested_end,
                step.machine.last_requested_end,
            )
        }),
{
    lemma_datagram_reports(m, now_ms, path, bytes);
}

pub(crate) proof fn lemma_datagram_reports(m: MachineView, now_ms: u64, path: u32, bytes: Seq<u8>)
    ensures
        ({
            let step = model::datagram_step(m, now_ms, path, bytes);
            &&& step.machine.last_ordered_rx >= m.last_ordered_rx
            &&& step.error is None ==> received_in(step.out.events) == ids_after(
                m.last_ordered_rx,
                step.machine.last_ordered_rx,
            )
            &&& step.machine.last_requested_end >= m.last_requested_end
            &&& step.error is None ==> requested_in(step.out.events) == new_requests(
                m.last_requested_end,
                step.machine.last_requested_end,
            )
            &&& step.error is Some ==> step.machine.last_ordered_rx == m.last_ordered_rx
                && step.machine.last_requested_end == m.last_requested_end
        }),
{
    let none = OutputView::empty();
    assert(ids_after(m.last_ordered_rx, m.last_ordered_rx) =~= Seq::<u64>::empty());
    match wire::parse_frame(bytes) {
        Err(_) => {
            lemma_received_after_emit(none, EventView::ParseError);
            lemma_requested_after_emit(none, EventView::ParseError);
        },
        Ok(frame) => {
            let m1 = MachineView { current_path_id: path, ..m }.deadline_touched(
                now_ms,
            ).peer_heard(now_ms);
            let s1 = model::frame_step(m1, now_ms, path, frame, none);
            lemma_frame_reports(m1, now_ms, path, frame);
            if s1.error is None && frame.message_type != MessageType::Msr {
                if let Some((_, next_pending)) = codec::msr_signal_of(frame.tlvs) {
                    lemma_signal_reports(s1.machine, now_ms, path, next_pending, false, s1.out);
                    lemma_only_msr_requests(m1, now_ms, path, frame);
                    let s2 = model::msr_signal_step(
                        s1.machine,
                        now_ms,
                        path,
                        next_pending,
                        false,
                        s1.out,
                    );
                    assert(requested_in(s2.out.events) =~= new_requests(
                        m.last_requested_end,
                        s2.machine.last_requested_end,
                    ));
                }
            }
        },
    }
}

proof fn lemma_only_msr_requests(m: MachineView, now_ms: u64, path: u32, frame: FrameView)
    requires
        frame.message_type != MessageType::Msr,
    ensures
        model::frame_step(
            m,
            now_ms,
            path,
            frame,
            OutputView::empty(),
        ).machine.last_requested_end == m.last_requested_end,
{
    let none = OutputView::empty();
    if frame.message_type == MessageType::Data {
        lemma_flush_keeps(
            model::message_completed(
                m,
                big_endian::be_value(frame.payload.subrange(0, 8)) as u64,
                frame.payload.skip(8),
            ),
            none,
        );
    } else if frame.message_type == MessageType::Fragment {
        let id = big_endian::be_value(frame.payload.subrange(0, 8)) as u64;
        let idx = big_endian::be_value(frame.payload.subrange(8, 10)) as u16;
        let total = big_endian::be_value(frame.payload.subrange(10, 12)) as u16;
        let fragments = model::fragment_added(m, id, idx, total, frame.payload.skip(12));
        lemma_flush_keeps(
            model::message_completed(m, id, model::joined(fragments.chunks, total as nat)),
            none,
        );
    }
}

/// Timers and the application's own requests hand no message over and request
/// no range.
pub proof fn law_only_datagrams_deliver(
    m: MachineView,
    now_ms: u64,
    timer: TimerId,
    payload: Seq<u8>,
    proposal: TimerProposal,
    event: PathEvent,
)
    ensures
        model::timer_step(m, now_ms, timer).machine.last_ordered_rx == m.last_ordered_rx,
        received_in(model::timer_step(m, now_ms, timer).out.events) == Seq::<u64>::empty(),
        model::send_step(m, payload).machine.last_ordered_rx == m.last_ordered_rx,
        received_in(model::send_step(m, payload).out.events) == Seq::<u64>::empty(),
        model::close_step(m).machine.last_ordered_rx == m.last_ordered_rx,
        received_in(model::close_step(m).out.events) == Seq::<u64>::empty(),
        model::propose_step(m, now_ms, proposal).machine.last_ordered_rx == m.last_ordered_rx,
        received_in(model::propose_step(m, now_ms, proposal).out.events) == Seq::<u64>::empty(),
        model::path_step(m, event).machine.last_ordered_rx == m.last_ordered_rx,
        received_in(model::path_step(m, event).out.events) == Seq::<u64>::empty(),
{
    let t = model::timer_step(m, now_ms, timer).out.events;
    let s = model::send_step(m, payload).out.events;
    let c = model::close_step(m).out.events;
    let p = model::propose_step(m, now_ms, proposal).out.events;
    let none = Seq::<EventView>::empty();
    if t.len() > 0 {
        assert(t.drop_last() =~= none);
    }
    if s.len() > 0 {
        assert(s.drop_last() =~= none);
    }
    if c.len() > 0 {
        assert(c.drop_last() =~= none);
    }
    if p.len() > 0 {
        assert(p.drop_last() =~= none);
    }
    assert(received_in(none) =~= Seq::<u64>::empty());
}

/// A frame that a machine sends is read by its peer as that frame.
pub(crate) proof fn lemma_core_frame_read(
    message_type: MessageType,
    cid: u64,
    payload: Seq<u8>,
    tlvs: Seq<TlvView>,
)
    requires
        payload.len() < wire::MAX_PAYLOAD_LEN,
        tlvs.len() <= 1,
        tlvs.len() == 1 ==> tlvs[0].value.len() <= wire::MAX_TLV_VALUE_LEN,
    ensures
        wire::parse_frame(codec::core_frame_bytes(message_type, cid, payload, tlvs)) == Ok::<
            FrameView,
            WireError,
        >(codec::core_frame(message_type, cid, payload, tlvs)),
{
    codec::lemma_core_frame_fits(message_type, cid, payload, tlvs);
    wire::law_decode_of_encode(codec::core_frame(message_type, cid, payload, tlvs));
}

pub(crate) proof fn lemma_pair_len(first: u64, second: u64)
    ensures
        codec::pair_bytes(first, second).len() == 16,
{
    big_endian::lemma_be_bytes_len(first as nat, 8);
    big_endian::lemma_be_bytes_len(second as nat, 8);
}

pub(crate) proof fn lemma_own_signal_fits(m: MachineView)
    ensures
        model::own_signal(m).len() == 1,
        model::own_signal(m)[0].value.len() == 16,
{
    lemma_pair_len(m.last_ordered_rx, m.max_pending_id());
}

/// The next event's id and payload head what a flush hands over.
pub(crate) proof fn lemma_flush_starts(m: MachineView, out: OutputView)
    requires
        m.last_ordered_rx < u64::MAX,
        m.received_buffer.contains_key((m.last_ordered_rx + 1) as u64),
    ensures
        ({
            let next = (m.last_ordered_rx + 1) as u64;
            let events = model::flush(m, out).out.events;
            &&& events.len() >= out.events.len() + 2
            &&& events[out.events.len() as int] == EventView::MessageDelivered { msg_id: next }
            &&& events[out.events.len() as int + 1] == EventView::MessageReceived {
                msg_id: next,
                payload: m.received_buffer[next],
            }
        }),
{
    let next = (m.last_ordered_rx + 1) as u64;
    let o1 = out.emit(EventView::MessageDelivered { msg_id: next }).emit(
        EventView::MessageReceived { msg_id: next, payload: m.received_buffer[next] },
    );
    lemma_flush_extends(
        MachineView {
            last_ordered_rx: next,
            received_buffer: m.received_buffer.remove(next),
            ..m
        },
        o1,
    );
    assert(o1.events[out.events.len() as int] == EventView::MessageDelivered { msg_id: next });
    assert(o1.events[out.events.len() as int + 1] == EventView::MessageReceived {
        msg_id: next,
        payload: m.received_buffer[next],
    });
}

/// A flush only adds events.
proof fn lemma_flush_extends(m: MachineView, out: OutputView)
    ensures
        model::flush(m, out).out.events.len() >= out.events.len(),
        forall|i: int|
            #![trigger out.events[i]]
            0 <= i < out.events.len() ==> model::flush(m, out).out.events[i] == out.events[i],
    decreases u64::MAX - m.last_ordered_rx,
{
    let next = (m.last_ordered_rx + 1) as u64;
    if m.last_ordered_rx < u64::MAX && m.received_buffer.contains_key(next) {
        let o1 = out.emit(EventView::MessageDelivered { msg_id: next }).emit(
            EventView::MessageReceived { msg_id: next, payload: m.received_buffer[next] },
        );
        let m1 = MachineView {
            last_ordered_rx: next,
            received_buffer: m.received_buffer.remove(next),
            ..m
        };
        lemma_flush_extends(m1, o1);
        assert forall|i: int| #![trigger out.events[i]] 0 <= i < out.events.len() implies model::flush(
            m,
            out,
        ).out.events[i] == out.events[i] by {
            assert(o1.events[i] == out.events[i]);
        }
    }
}

/// What waits in the buffer before a flush waits there after it or was handed
/// over as it is.
pub(crate) proof fn lemma_flush_hands_over(m: MachineView, out: OutputView, id: u64)
    requires
        m.received_buffer.contains_key(id),
    ensures
        ({
            let step = model::flush(m, out);
            ||| step.machine.received_buffer.contains_key(id) && step.machine.received_buffer[id]
                == m.received_buffer[id]
            ||| step.out.events.contains(
                EventView::MessageReceived { msg_id: id, payload: m.received_buffer[id] },
            )
        }),
    decreases u64::MAX - m.last_ordered_rx,
{
    let next = (m.last_ordered_rx + 1) as u64;
    if m.last_ordered_rx < u64::MAX && m.received_buffer.contains_key(next) {
        if id == next {
            lemma_flush_starts(m, out);
            assert(model::flush(m, out).out.events[out.events.len() as int + 1]
                == EventView::MessageReceived { msg_id: id, payload: m.received_buffer[id] });
        } else {
            lemma_flush_hands_over(
                MachineView {
                    last_ordered_rx: next,
                    received_buffer: m.received_buffer.remove(next),
                    ..m
                },
                out.emit(EventView::MessageDelivered { msg_id: next }).emit(
                    EventView::MessageReceived { msg_id: next, payload: m.received_buffer[next] },
                ),
                id,
            );
        }
    }
}

/// The state in which a machine meets the content of a frame of its session.
pub open spec fn met(m: MachineView, now_ms: u64, path: u32) -> MachineView {
    MachineView { current_path_id: path, ..m }.deadline_touched(now_ms).peer_heard(now_ms)
}

/// That a step has taken message `id` in as `message`: it waits in the buffer
/// or was handed over.
pub open spec fn took_in(step: Step, id: u64, message: Seq<u8>) -> bool {
    ||| step.machine.received_buffer.contains_key(id) && step.machine.received_buffer[id]
        == message
    ||| step.out.events.contains(EventView::MessageReceived { msg_id: id, payload: message })
}

pub(crate) proof fn lemma_signal_keeps_taken(
    step: Step,
    now_ms: u64,
    path: u32,
    next_pending: u64,
    id: u64,
    message: Seq<u8>,
)
    requires
        took_in(step, id, message),
    ensures
        took_in(
            model::msr_signal_step(step.machine, now_ms, path, next_pending, false, step.out),
            id,
            message,
        ),
        forall|i: int|
            #![trigger step.out.events[i]]
            0 <= i < step.out.events.len() ==> {
                let after = model::msr_signal_step(
                    step.machine,
                    now_ms,
                    path,
                    next_pending,
                    false,
                    step.out,
                ).out.events;
                &&& i < after.len()
                &&& after[i] == step.out.events[i]
            },
{
    let after = model::msr_signal_step(
        step.machine,
        now_ms,
        path,
        next_pending,
        false,
        step.out,
    ).out.events;
    let event = EventView::MessageReceived { msg_id: id, payload: message };
    if step.out.events.contains(event) {
        let i = choose|i: int| 0 <= i < step.out.events.len() && step.out.events[i] == event;
        assert(after[i] == event);
    }
}

/// What a data frame does to a machine of its session that stands, when the
/// message is new to it.
pub(crate) proof fn lemma_data_taken(m: MachineView, id: u64, message: Seq<u8>, out: OutputView)
    requires
        !m.received_ids.contains(id),
    ensures
        model::data_step(m, model::data_payload(id, message), out) == model::flush(
            model::message_completed(m, id, message),
            out,
        ),
{
    let payload = model::data_payload(id, message);
    big_endian::lemma_be_range_values();
    big_endian::lemma_be_value_of_bytes(id as nat, 8);
    assert(payload.subrange(0, 8) =~= big_endian::be_bytes(id as nat, 8));
    assert(payload.skip(8) =~= message);
}

/// A short message that one side serves reaches the other as it is: the other
/// side takes it in, and if it is the next one in order, hands it over at once.
pub proof fn law_pulled_message_arrives(
    sender: MachineView,
    receiver: MachineView,
    id: u64,
    now_ms: u64,
    path: u32,
    sent_on: u32,
)
    requires
        sender.outbound_messages.contains_key(id),
        model::fits_one_frame(sender.outbound_messages[id]),
        receiver.state == LifecycleState::Established,
        model::cid_accepted(receiver, sender.cid),
        !receiver.received_ids.contains(id),
    ensures
        ({
            let message = sender.outbound_messages[id];
            let datagrams = model::range_datagrams(sender, sent_on, id as int, id as int);
            let step = model::datagram_step(
                receiver,
                now_ms,
                path,
                datagrams.unwrap()[0].bytes,
            );
            &&& datagrams is Some
            &&& datagrams.unwrap().len() == 1
            &&& step.error is None
            &&& step.machine.received_ids.contains(id)
            &&& took_in(step, id, message)
            &&& receiver.last_ordered_rx + 1 == id ==> {
                &&& step.machine.last_ordered_rx >= id
                &&& step.out.events.len() >= 2
                &&& step.out.events[0] == EventView::MessageDelivered { msg_id: id }
                &&& step.out.events[1] == EventView::MessageReceived {
                    msg_id: id,
                    payload: message,
                }
            }
        }),
{
    let message = sender.outbound_messages[id];
    let signal = model::own_signal(sender);
    let payload = model::data_payload(id, message);
    let none = OutputView::empty();
    reveal_with_fuel(model::range_datagrams, 2);
    let datagrams = model::range_datagrams(sender, sent_on, id as int, id as int).unwrap();
    let sent = model::message_datagrams(sender, sent_on, id, message).unwrap();
    assert(datagrams =~= sent);
    let bytes = datagrams[0].bytes;
    big_endian::lemma_be_bytes_len(id as nat, 8);
    lemma_own_signal_fits(sender);
    lemma_core_frame_read(MessageType::Data, sender.cid, payload, signal);
    let m1 = met(receiver, now_ms, path);
    lemma_data_taken(m1, id, message, none);
    let m2 = model::message_completed(m1, id, message);
    let s1 = model::flush(m2, none);
    model::lemma_flush_grows(m2, none);
    lemma_flush_keeps(m2, none);
    lemma_flush_hands_over(m2, none, id);
    if receiver.last_ordered_rx + 1 == id {
        lemma_flush_starts(m2, none);
        lemma_flush_received(m2, none);
        reveal_with_fuel(model::flush, 2);
        model::lemma_flush_grows(
            MachineView { last_ordered_rx: id, received_buffer: m2.received_buffer.remove(id), ..m2 },
            none.emit(EventView::MessageDelivered { msg_id: id }).emit(
                EventView::MessageReceived { msg_id: id, payload: message },
            ),
        );
    }
    codec::law_pair_round_trip(sender.last_ordered_rx, sender.max_pending_id(), Seq::empty());
    let next_pending = sender.max_pending_id();
    lemma_signal_keeps_taken(s1, now_ms, path, next_pending, id, message);
    assert(codec::msr_signal_of(signal) == Some((sender.last_ordered_rx, next_pending)));
    if receiver.last_ordered_rx + 1 == id {
        assert(s1.out.events[0] == EventView::MessageDelivered { msg_id: id });
        assert(s1.out.events[1] == EventView::MessageReceived { msg_id: id, payload: message });
    }
}

/// A datagram that carries a message already received changes nothing of what
/// was received and hands nothing over.
pub proof fn law_duplicate_message_is_ignored(
    m: MachineView,
    id: u64,
    message: Seq<u8>,
    out: OutputView,
)
    requires
        m.received_ids.contains(id),
    ensures
        model::data_step(m, model::data_payload(id, message), out) == model::done(m, out),
{
    let payload = model::data_payload(id, message);
    big_endian::lemma_be_range_values();
    big_endian::lemma_be_value_of_bytes(id as nat, 8);
    assert(payload.subrange(0, 8) =~= big_endian::be_bytes(id as nat, 8));
}

/// That what a machine holds of message `id` in fragments is part of `message`.
pub open spec fn assembling(m: MachineView, id: u64, message: Seq<u8>) -> bool {
    m.received_fragments.contains_key(id) ==> {
        let held = m.received_fragments[id];
        &&& held.total == model::fragment_count(message)
        &&& forall|idx: u16|
            #![trigger held.chunks.contains_key(idx)]
            held.chunks.contains_key(idx) ==> {
                &&& idx < held.total
                &&& held.chunks[idx] == model::fragment_chunk(message, idx as nat)
            }
    }
}

/// The first `n` fragments of a message, put together, are its beginning.
proof fn lemma_joined_is_prefix(chunks: Map<u16, Seq<u8>>, message: Seq<u8>, n: nat)
    requires
        n <= model::fragment_count(message) <= u16::MAX,
        forall|idx: u16|
            #![trigger chunks.contains_key(idx)]
            idx < n ==> chunks.contains_key(idx) && chunks[idx] == model::fragment_chunk(
                message,
                idx as nat,
            ),
    ensures
        model::joined(chunks, n) == message.take(
            if n * model::FRAGMENT_CHUNK_LEN <= message.len() {
                n * model::FRAGMENT_CHUNK_LEN
            } else {
                message.len() as int
            },
        ),
    decreases n,
{
    if n == 0 {
        assert(message.take(0) =~= Seq::<u8>::empty());
    } else {
        let last = (n - 1) as u16;
        lemma_joined_is_prefix(chunks, message, (n - 1) as nat);
        assert(chunks.contains_key(last));
        let end = if n * model::FRAGMENT_CHUNK_LEN <= message.len() {
            n * model::FRAGMENT_CHUNK_LEN
        } else {
            message.len() as int
        };
        assert(model::joined(chunks, n) =~= message.take(end));
    }
}

/// The fragments of a message, put together in order, are the message.
pub proof fn law_fragments_make_the_message(chunks: Map<u16, Seq<u8>>, message: Seq<u8>)
    requires
        model::fragment_count(message) <= u16::MAX,
        forall|idx: u16|
            #![trigger chunks.contains_key(idx)]
            idx < model::fragment_count(message) ==> chunks.contains_key(idx) && chunks[idx]
                == model::fragment_chunk(message, idx as nat),
    ensures
        model::joined(chunks, model::fragment_count(message)) == message,
{
    lemma_joined_is_prefix(chunks, message, model::fragment_count(message));
    assert(message.take(message.len() as int) =~= message);
}

proof fn lemma_full_fragments(fragments: FragmentsView, message: Seq<u8>)
    requires
        fragments.total == model::fragment_count(message),
        model::all_fragments_in(fragments),
        forall|idx: u16|
            #![trigger fragments.chunks.contains_key(idx)]
            fragments.chunks.contains_key(idx) ==> fragments.chunks[idx] == model::fragment_chunk(
                message,
                idx as nat,
            ),
    ensures
        model::joined(fragments.chunks, model::fragment_count(message)) == message,
{
    law_fragments_make_the_message(fragments.chunks, message);
}

/// What one fragment of a message does to a machine that does not have the
/// message yet: it is kept, or the message is complete and taken in as it was.
pub proof fn law_fragment_is_kept_or_completes(
    m: MachineView,
    id: u64,
    message: Seq<u8>,
    idx: nat,
    out: OutputView,
)
    requires
        model::fragment_count(message) <= u16::MAX,
        idx < model::fragment_count(message),
        !m.received_ids.contains(id),
        assembling(m, id, message),
    ensures
        ({
            let step = model::fragment_step(m, model::fragment_payload(id, message, idx), out);
            let added = model::fragment_added(
                m,
                id,
                idx as u16,
                model::fragment_count(message) as u16,
                model::fragment_chunk(message, idx),
            );
            if model::all_fragments_in(added) {
                step == model::flush(model::message_completed(m, id, message), out)
            } else {
                &&& step == model::done(
                    MachineView {
                        received_fragments: m.received_fragments.insert(id, added),
                        ..m
                    },
                    out,
                )
                &&& assembling(step.machine, id, message)
                &&& added.chunks.contains_key(idx as u16)
            }
        }),
{
    let payload = model::fragment_payload(id, message, idx);
    let total = model::fragment_count(message);
    let chunk = model::fragment_chunk(message, idx);
    big_endian::lemma_be_range_values();
    big_endian::lemma_be_value_of_bytes(id as nat, 8);
    big_endian::lemma_be_value_of_bytes(idx, 2);
    big_endian::lemma_be_value_of_bytes(total, 2);
    assert(payload.subrange(0, 8) =~= big_endian::be_bytes(id as nat, 8));
    assert(payload.subrange(8, 10) =~= big_endian::be_bytes(idx, 2));
    assert(payload.subrange(10, 12) =~= big_endian::be_bytes(total, 2));
    assert(payload.skip(12) =~= chunk);
    let added = model::fragment_added(m, id, idx as u16, total as u16, chunk);
    assert forall|i: u16| #![trigger added.chunks.contains_key(i)] added.chunks.contains_key(
        i,
    ) implies i < added.total && added.chunks[i] == model::fragment_chunk(message, i as nat) by {
        if m.received_fragments.contains_key(id) {
            let held = m.received_fragments[id];
            if held.chunks.contains_key(i) {
            }
        }
    }
    if model::all_fragments_in(added) {
        lemma_full_fragments(added, message);
    }
}

/// The fragments with the given indices, taken in one after the other.
pub open spec fn feed_fragments(
    m: MachineView,
    id: u64,
    message: Seq<u8>,
    order: Seq<nat>,
    out: OutputView,
) -> Step
    decreases order.len(),
{
    if order.len() == 0 {
        model::done(m, out)
    } else {
        let step = model::fragment_step(
            m,
            model::fragment_payload(id, message, order[0]),
            out,
        );
        feed_fragments(step.machine, id, message, order.skip(1), step.out)
    }
}

proof fn lemma_feed_when_received(
    m: MachineView,
    id: u64,
    message: Seq<u8>,
    order: Seq<nat>,
    out: OutputView,
)
    requires
        m.received_ids.contains(id),
        model::fragment_count(message) <= u16::MAX,
        forall|i: int|
            #![trigger order[i]]
            0 <= i < order.len() ==> order[i] < model::fragment_count(message),
    ensures
        feed_fragments(m, id, message, order, out) == model::done(m, out),
    decreases order.len(),
{
    if order.len() > 0 {
        let payload = model::fragment_payload(id, message, order[0]);
        big_endian::lemma_be_range_values();
        big_endian::lemma_be_value_of_bytes(id as nat, 8);
        big_endian::lemma_be_bytes_len(order[0], 2);
        big_endian::lemma_be_bytes_len(model::fragment_count(message), 2);
        assert(payload.subrange(0, 8) =~= big_endian::be_bytes(id as nat, 8));
        assert forall|i: int| #![trigger order.skip(1)[i]] 0 <= i < order.skip(1).len() implies
            order.skip(1)[i] < model::fragment_count(message) by {
            assert(order.skip(1)[i] == order[i + 1]);
        }
        lemma_feed_when_received(m, id, message, order.skip(1), out);
    }
}

/// A long message is taken in as it was once all of its fragments are there,
/// in whatever order and however often they came.
pub proof fn law_fragments_arrive_in_any_order(
    m: MachineView,
    id: u64,
    message: Seq<u8>,
    order: Seq<nat>,
    out: OutputView,
)
    requires
        m.wf(),
        0 < model::fragment_count(message) <= u16::MAX,
        !m.received_ids.contains(id),
        assembling(m, id, message),
        forall|i: int|
            #![trigger order[i]]
            0 <= i < order.len() ==> order[i] < model::fragment_count(message),
        forall|idx: nat|
            #![trigger order.contains(idx)]
            idx < model::fragment_count(message) ==> order.contains(idx) || (
            m.received_fragments.contains_key(id)
                && m.received_fragments[id].chunks.contains_key(idx as u16)),
        !(m.received_fragments.contains_key(id) && model::all_fragments_in(
            m.received_fragments[id],
        )),
    ensures
        ({
            let step = feed_fragments(m, id, message, order, out);
            &&& step.error is None
            &&& step.machine.received_ids.contains(id)
            &&& took_in(step, id, message)
        }),
    decreases order.len(),
{
    let total = model::fragment_count(message);
    if order.len() == 0 {
        if m.received_fragments.contains_key(id) {
            let held = m.received_fragments[id];
            assert forall|idx: u16| #![trigger held.chunks.contains_key(idx)] idx
                < held.total implies held.chunks.contains_key(idx) by {
                assert(!order.contains(idx as nat));
                assert((idx as nat) as u16 == idx);
            }
            assert(false);
        } else {
            assert(!order.contains(0));
            assert(false);
        }
    } else {
        let idx = order[0];
        let rest = order.skip(1);
        let payload = model::fragment_payload(id, message, idx);
        let step = model::fragment_step(m, payload, out);
        law_fragment_is_kept_or_completes(m, id, message, idx, out);
        let added = model::fragment_added(
            m,
            id,
            idx as u16,
            total as u16,
            model::fragment_chunk(message, idx),
        );
        assert forall|i: int| #![trigger rest[i]] 0 <= i < rest.len() implies rest[i] < total by {
            assert(rest[i] == order[i + 1]);
        }
        if model::all_fragments_in(added) {
            let completed = model::message_completed(m, id, message);
            lemma_flush_keeps(completed, out);
            model::lemma_flush_grows(completed, out);
            lemma_flush_hands_over(completed, out, id);
            lemma_feed_when_received(step.machine, id, message, rest, step.out);
        } else {
            let m1 = step.machine;
            assert forall|i: nat| #![trigger rest.contains(i)] i < total implies rest.contains(i)
                || (m1.received_fragments.contains_key(id)
                && m1.received_fragments[id].chunks.contains_key(i as u16)) by {
                if i == idx {
                    assert(added.chunks.contains_key(i as u16));
                } else if order.contains(i) {
                    let at = choose|at: int| 0 <= at < order.len() && order[at] == i;
                    assert(rest[at - 1] == i);
                    assert(rest.contains(i));
                } else {
                    assert(m.received_fragments[id].chunks.contains_key(i as u16));
                    assert(added.chunks.contains_key(i as u16));
                }
            }
            assert(m1.wf()) by {
                lemma_kept_fragment_wf(m, id, added);
            }
            law_fragments_arrive_in_any_order(m1, id, message, rest, step.out);
        }
    }
}

proof fn lemma_kept_fragment_wf(m: MachineView, id: u64, added: FragmentsView)
    requires
        m.wf(),
        !m.received_ids.contains(id),
        added.total > 0,
        forall|idx: u16|
            #![trigger added.chunks.contains_key(idx)]
            added.chunks.contains_key(idx) ==> idx < added.total,
    ensures
        (MachineView {
            received_fragments: m.received_fragments.insert(id, added),
            ..m
        }).wf(),
{
    let m1 = MachineView { received_fragments: m.received_fragments.insert(id, added), ..m };
    assert forall|other: u64| #![trigger m1.received_fragments.contains_key(other)]
        m1.received_fragments.contains_key(other) implies {
        &&& !m1.received_ids.contains(other)
        &&& m1.received_fragments[other].total > 0
        &&& forall|idx: u16|
            #![trigger m1.received_fragments[other].chunks.contains_key(idx)]
            m1.received_fragments[other].chunks.contains_key(idx) ==> idx
                < m1.received_fragments[other].total
    } by {
        if other != id {
            assert(m.received_fragments.contains_key(other));
            assert(m1.received_fragments[other] == m.received_fragments[other]);
        }
    }
}

/// Each fragment that one side serves of a long message is a datagram that the
/// other side, once it stands, takes as that fragment.
pub proof fn law_served_fragment_is_taken(
    sender: MachineView,
    receiver: MachineView,
    id: u64,
    idx: nat,
    now_ms: u64,
    path: u32,
    sent_on: u32,
)
    requires
        sender.outbound_messages.contains_key(id),
        !model::fits_one_frame(sender.outbound_messages[id]),
        model::fragment_count(sender.outbound_messages[id]) <= u16::MAX,
        idx < model::fragment_count(sender.outbound_messages[id]),
        receiver.state == LifecycleState::Established,
        model::cid_accepted(receiver, sender.cid),
    ensures
        ({
            let message = sender.outbound_messages[id];
            let datagrams = model::message_datagrams(sender, sent_on, id, message).unwrap();
            let m1 = met(receiver, now_ms, path);
            let taken = model::fragment_step(
                m1,
                model::fragment_payload(id, message, idx),
                OutputView::empty(),
            );
            &&& datagrams.len() == model::fragment_count(message)
            &&& taken.error is None ==> model::datagram_step(
                receiver,
                now_ms,
                path,
                datagrams[idx as int].bytes,
            ) == model::msr_signal_step(
                taken.machine,
                now_ms,
                path,
                sender.max_pending_id(),
                false,
                taken.out,
            )
        }),
{
    let message = sender.outbound_messages[id];
    let payload = model::fragment_payload(id, message, idx);
    big_endian::lemma_be_bytes_len(id as nat, 8);
    big_endian::lemma_be_bytes_len(idx, 2);
    big_endian::lemma_be_bytes_len(model::fragment_count(message), 2);
    lemma_own_signal_fits(sender);
    lemma_core_frame_read(
        MessageType::Fragment,
        sender.cid,
        payload,
        model::own_signal(sender),
    );
    codec::law_pair_round_trip(sender.last_ordered_rx, sender.max_pending_id(), Seq::empty());
}

/// A client and a server that begin with the same connection id stand after
/// hello, answer and acknowledgement.
pub proof fn law_handshake_establishes_both(
    cid: u64,
    client_cfg: CoreConfig,
    server_cfg: CoreConfig,
    t1: u64,
    t2: u64,
    t3: u64,
    path: u32,
)
    ensures
        ({
            let client = model::fresh(Role::Client, cid, client_cfg);
            let server = model::fresh(Role::Server, cid, server_cfg);
            let hello = model::begin_step(client);
            let s1 = model::datagram_step(
                server,
                t1,
                path,
                hello.out.outbound_datagrams[0].bytes,
            );
            let c1 = model::datagram_step(
                hello.machine,
                t2,
                path,
                s1.out.outbound_datagrams[0].bytes,
            );
            let s2 = model::datagram_step(
                s1.machine,
                t3,
                path,
                c1.out.outbound_datagrams[0].bytes,
            );
            &&& hello.out.events == seq![EventView::HandshakeStarted]
            &&& s1.machine.state == LifecycleState::Established
            &&& s1.out.events == seq![EventView::HandshakeEstablished]
            &&& c1.machine.state == LifecycleState::Established
            &&& c1.out.events == seq![EventView::HandshakeEstablished]
            &&& s2.machine.state == LifecycleState::Established
            &&& s2.out.events == Seq::<EventView>::empty()
            &&& s1.error is None && c1.error is None && s2.error is None
        }),
{
    let none = Seq::<u8>::empty();
    lemma_core_frame_read(MessageType::ClientHello, cid, none, Seq::empty());
    lemma_core_frame_read(MessageType::ServerHello, cid, none, Seq::empty());
    lemma_core_frame_read(MessageType::HelloAck, cid, none, Seq::empty());
    let client = model::fresh(Role::Client, cid, client_cfg);
    let server = model::fresh(Role::Server, cid, server_cfg);
    let hello = model::begin_step(client);
    assert(hello.out.events =~= seq![EventView::HandshakeStarted]);
    let s1 = model::datagram_step(server, t1, path, hello.out.outbound_datagrams[0].bytes);
    assert(s1.out.events =~= seq![EventView::HandshakeEstablished]);
    let c1 = model::datagram_step(hello.machine, t2, path, s1.out.outbound_datagrams[0].bytes);
    assert(c1.out.events =~= seq![EventView::HandshakeEstablished]);
}

/// A session that one side closes is lost on both.
pub proof fn law_close_reaches_the_peer(
    closing: MachineView,
    peer: MachineView,
    now_ms: u64,
    path: u32,
)
    requires
        closing.state != LifecycleState::Lost,
        model::cid_accepted(peer, closing.cid),
    ensures
        model::close_step(closing).machine.state == LifecycleState::Lost,
        model::close_step(closing).out.outbound_datagrams.len() == 1,
        ({
            let step = model::datagram_step(
                peer,
                now_ms,
                path,
                model::close_step(closing).out.outbound_datagrams[0].bytes,
            );
            &&& step.machine.state == LifecycleState::Lost
            &&& step.out.events == seq![EventView::Disconnected]
            &&& step.error is None
        }),
{
    lemma_core_frame_read(MessageType::Close, closing.cid, Seq::empty(), Seq::empty());
    let step = model::datagram_step(
        peer,
        now_ms,
        path,
        model::close_step(closing).out.outbound_datagrams[0].bytes,
    );
    assert(step.out.events =~= seq![EventView::Disconnected]);
}

/// What the peer makes of a proposal: it changes its timers if it accepts, and
/// answers either way.
proof fn lemma_proposal_taken(
    proposer: MachineView,
    peer: MachineView,
    proposal: TimerProposal,
    t1: u64,
    t2: u64,
    path: u32,
)
    requires
        proposer.state == LifecycleState::Established,
        codec::proposal_refusal(proposer.cfg, proposal) is None,
        proposer.cid == peer.cid,
    ensures
        ({
            let p1 = model::propose_step(proposer, t1, proposal);
            let q1 = model::datagram_step(peer, t2, path, p1.out.outbound_datagrams[0].bytes);
            let q0 = met(peer, t2, path);
            let accepted = codec::proposal_refusal(peer.cfg, proposal) is None;
            &&& p1.error is None
            &&& q1.error is None
            &&& q1.machine.cfg == if accepted {
                proposal.as_config()
            } else {
                peer.cfg
            }
            &&& q1.out.outbound_datagrams[0].bytes == model::msr_bytes(
                peer.cid,
                q0.last_ordered_rx,
                q0.max_pending_id(),
                seq![codec::ack_tlv(proposer.next_proposal_id, accepted)],
            )
        }),
{
    let none = OutputView::empty();
    let id = proposer.next_proposal_id;
    let p1 = model::propose_step(proposer, t1, proposal);
    let tlvs = seq![codec::proposal_tlv(id, proposal)];
    let pending = proposer.max_pending_id();
    lemma_pair_len(0, pending);
    big_endian::lemma_be_bytes_len(id as nat, 4);
    big_endian::lemma_be_bytes_len(proposal.msr_interval_ms as nat, 8);
    big_endian::lemma_be_bytes_len(proposal.miss_window_count as nat, 8);
    big_endian::lemma_be_bytes_len(proposal.disconnect_window_ms as nat, 8);
    lemma_core_frame_read(
        MessageType::Msr,
        proposer.cid,
        codec::pair_bytes(0, pending),
        tlvs,
    );
    codec::law_pair_round_trip(0, pending, Seq::empty());
    codec::law_proposal_round_trip(id, proposal);
    let q0 = met(peer, t2, path);
    lemma_one_tlv(q0, path, tlvs, none);
    let accepted = codec::proposal_refusal(peer.cfg, proposal) is None;
    let first = model::msr_tlv_step(q0, path, tlvs[0], none);
    lemma_signal_extends(first.machine, t2, path, pending, true, first.out);
    let answer = seq![codec::ack_tlv(id, accepted)];
    assert(first.out.outbound_datagrams[0] == DatagramView {
        path_id: path,
        bytes: model::msr_bytes(peer.cid, q0.last_ordered_rx, q0.max_pending_id(), answer),
    });
}

/// What the proposer makes of the answer: the proposal is no longer open, and its
/// timers change if the peer accepted.
proof fn lemma_answer_taken(
    proposer: MachineView,
    proposal: TimerProposal,
    t1: u64,
    accepted: bool,
    acked: u64,
    wanted: u64,
    t3: u64,
    back: u32,
)
    requires
        proposer.state == LifecycleState::Established,
        codec::proposal_refusal(proposer.cfg, proposal) is None,
    ensures
        ({
            let p1 = model::propose_step(proposer, t1, proposal);
            let answer = seq![codec::ack_tlv(proposer.next_proposal_id, accepted)];
            let p2 = model::datagram_step(
                p1.machine,
                t3,
                back,
                model::msr_bytes(proposer.cid, acked, wanted, answer),
            );
            &&& p1.error is None
            &&& p1.machine.cfg == proposer.cfg
            &&& p2.error is None
            &&& p2.machine.pending_local_proposal is None
            &&& p2.machine.cfg == if accepted {
                proposal.as_config()
            } else {
                proposer.cfg
            }
        }),
{
    let none = OutputView::empty();
    let id = proposer.next_proposal_id;
    let p1 = model::propose_step(proposer, t1, proposal);
    let answer = seq![codec::ack_tlv(id, accepted)];
    big_endian::lemma_be_bytes_len(id as nat, 4);
    lemma_pair_len(acked, wanted);
    lemma_core_frame_read(MessageType::Msr, proposer.cid, codec::pair_bytes(acked, wanted), answer);
    codec::law_pair_round_trip(acked, wanted, Seq::empty());
    codec::law_ack_round_trip(id, accepted);
    let p1m = met(p1.machine, t3, back);
    lemma_one_tlv(p1m, back, answer, none);
    let second = model::msr_tlv_step(p1m, back, answer[0], none);
    lemma_signal_extends(second.machine, t3, back, wanted, true, second.out);
}

/// A proposal that both sides accept ends with both on the same timers; one
/// that the peer refuses leaves both on the timers they had. Either way no
/// proposal stays open.
pub proof fn law_renegotiation_ends_in_agreement(
    proposer: MachineView,
    peer: MachineView,
    proposal: TimerProposal,
    t1: u64,
    t2: u64,
    t3: u64,
    path: u32,
    back: u32,
)
    requires
        proposer.state == LifecycleState::Established,
        codec::proposal_refusal(proposer.cfg, proposal) is None,
        proposer.cid == peer.cid,
    ensures
        ({
            let p1 = model::propose_step(proposer, t1, proposal);
            let q1 = model::datagram_step(peer, t2, path, p1.out.outbound_datagrams[0].bytes);
            let p2 = model::datagram_step(
                p1.machine,
                t3,
                back,
                q1.out.outbound_datagrams[0].bytes,
            );
            &&& p1.error is None && q1.error is None && p2.error is None
            &&& p1.machine.cfg == proposer.cfg
            &&& p2.machine.pending_local_proposal is None
            &&& if codec::proposal_refusal(peer.cfg, proposal) is None {
                &&& q1.machine.cfg == proposal.as_config()
                &&& p2.machine.cfg == proposal.as_config()
            } else {
                &&& q1.machine.cfg == peer.cfg
                &&& p2.machine.cfg == proposer.cfg
            }
        }),
{
    let q0 = met(peer, t2, path);
    lemma_proposal_taken(proposer, peer, proposal, t1, t2, path);
    lemma_answer_taken(
        proposer,
        proposal,
        t1,
        codec::proposal_refusal(peer.cfg, proposal) is None,
        q0.last_ordered_rx,
        q0.max_pending_id(),
        t3,
        back,
    );
}

pub(crate) proof fn lemma_one_tlv(m: MachineView, path: u32, tlvs: Seq<TlvView>, out: OutputView)
    requires
        tlvs.len() == 1,
        model::msr_tlv_step(m, path, tlvs[0], out).error is None,
    ensures
        model::msr_tlvs_step(m, path, tlvs, out) == model::msr_tlv_step(m, path, tlvs[0], out),
{
    reveal_with_fuel(model::msr_tlvs_step, 2);
}

/// An advertisement only adds datagrams and leaves the timers' configuration.
pub(crate) proof fn lemma_signal_extends(
    m: MachineView,
    now_ms: u64,
    path: u32,
    next_pending: u64,
    control: bool,
    out: OutputView,
)
    ensures
        ({
            let step = model::msr_signal_step(m, now_ms, path, next_pending, control, out);
            &&& step.error is None
            &&& step.machine.cfg == m.cfg
            &&& step.machine.pending_local_proposal == m.pending_local_proposal
            &&& step.out.outbound_datagrams.len() >= out.outbound_datagrams.len()
            &&& forall|i: int|
                #![trigger out.outbound_datagrams[i]]
                0 <= i < out.outbound_datagrams.len() ==> step.out.outbound_datagrams[i]
                    == out.outbound_datagrams[i]
        }),
{
}

/// A proposal that is not answered in time is given up, and the timers stay as
/// they were.
pub proof fn law_unanswered_proposal_rolls_back(
    m: MachineView,
    t1: u64,
    proposal: TimerProposal,
    t2: u64,
)
    requires
        model::propose_step(m, t1, proposal).error is None,
        t2 >= codec::saturating_sum(t1, codec::saturating_product(m.cfg.msr_interval_ms, 2)),
    ensures
        ({
            let open = model::propose_step(m, t1, proposal).machine;
            let step = model::timer_step(open, t2, TimerId::RenegotiationTimeout);
            &&& step.machine.cfg == m.cfg
            &&& step.machine.pending_local_proposal is None
            &&& step.out.events == seq![
                EventView::TimerRenegotiationRolledBack { proposal_id: m.next_proposal_id },
            ]
        }),
{
    let open = model::propose_step(m, t1, proposal).machine;
    let step = model::timer_step(open, t2, TimerId::RenegotiationTimeout);
    assert(step.out.events =~= seq![
        EventView::TimerRenegotiationRolledBack { proposal_id: m.next_proposal_id },
    ]);
}

/// Timers that both sides can agree on are within fixed bounds, and the session
/// outlives the window in which a silent server is noticed.
pub proof fn law_accepted_timers_are_bounded(current: CoreConfig, proposal: TimerProposal)
    requires
        codec::proposal_refusal(current, proposal) is None,
    ensures
        1_000 <= proposal.msr_interval_ms <= 120_000,
        1 <= proposal.miss_window_count <= 64,
        proposal.miss_window_count <= current.miss_window_count + 2,
        5_000 <= proposal.disconnect_window_ms <= 900_000,
        proposal.msr_interval_ms * proposal.miss_window_count <= proposal.disconnect_window_ms,
{
}

/// A session whose deadline has passed is lost at the next disconnect timer.
pub proof fn law_silence_ends_the_session(m: MachineView, now_ms: u64)
    requires
        m.disconnect_deadline_ms matches Some(deadline) && now_ms >= deadline,
        m.state != LifecycleState::Lost,
    ensures
        model::timer_step(m, now_ms, TimerId::Disconnect).machine.state == LifecycleState::Lost,
        model::timer_step(m, now_ms, TimerId::Disconnect).out.events == seq![
            EventView::Disconnected,
        ],
{
    assert(model::timer_step(m, now_ms, TimerId::Disconnect).out.events =~= seq![
        EventView::Disconnected,
    ]);
}

/// The MSR timer of a server, fired once per entry of `times`.
pub open spec fn server_ticks(m: MachineView, times: Seq<u64>) -> MachineView
    decreases times.len(),
{
    if times.len() == 0 {
        m
    } else {
        model::timer_step(
            server_ticks(m, times.drop_last()),
            times.last(),
            TimerId::ServerMsr,
        ).machine
    }
}

/// A server that hears nothing from its client sends eight MSRs and gives the
/// session up when the ninth is due.
pub proof fn law_server_gives_up_on_a_silent_client(m: MachineView, times: Seq<u64>)
    requires
        model::server_is_live(m),
        m.server_consecutive_msr_without_client_msr == 0,
        times.len() <= 9,
    ensures
        times.len() <= 8 ==> {
            &&& model::server_is_live(server_ticks(m, times))
            &&& server_ticks(m, times).server_consecutive_msr_without_client_msr == times.len()
        },
        times.len() == 9 ==> server_ticks(m, times).state == LifecycleState::Lost,
    decreases times.len(),
{
    if times.len() > 0 {
        law_server_gives_up_on_a_silent_client(m, times.drop_last());
    }
}

/// Any frame of the client sets the count of a server that stands back to zero.
pub proof fn law_any_client_frame_resets_the_count(
    m: MachineView,
    now_ms: u64,
    path: u32,
    bytes: Seq<u8>,
)
    requires
        model::server_is_live(m),
        wire::parse_frame(bytes) is Ok,
        model::cid_accepted(m, wire::parse_frame(bytes)->Ok_0.cid),
    ensures
        model::datagram_step(
            m,
            now_ms,
            path,
            bytes,
        ).machine.server_consecutive_msr_without_client_msr == 0,
{
    let frame = wire::parse_frame(bytes)->Ok_0;
    let none = OutputView::empty();
    let m1 = met(m, now_ms, path);
    lemma_tlvs_keep_state(m1, path, frame.tlvs, none);
    let id = big_endian::be_value(frame.payload.subrange(0, 8)) as u64;
    let idx = big_endian::be_value(frame.payload.subrange(8, 10)) as u16;
    let total = big_endian::be_value(frame.payload.subrange(10, 12)) as u16;
    let fragments = model::fragment_added(m1, id, idx, total, frame.payload.skip(12));
    lemma_flush_keeps(model::message_completed(m1, id, frame.payload.skip(8)), none);
    lemma_flush_keeps(
        model::message_completed(m1, id, model::joined(fragments.chunks, total as nat)),
        none,
    );
}

/// Control MSRs without news, heard by a client one after the other.
pub open spec fn hear_msrs(m: MachineView, now_ms: u64, path: u32, n: nat, out: OutputView) -> Step
    decreases n,
{
    if n == 0 {
        model::done(m, out)
    } else {
        let before = hear_msrs(m, now_ms, path, (n - 1) as nat, out);
        model::msr_signal_step(before.machine, now_ms, path, 0, true, before.out)
    }
}

/// Of the server's MSRs every fourth is answered, so that a server that keeps
/// sending hears from its client long before it would give up.
pub proof fn law_every_fourth_msr_is_answered(
    m: MachineView,
    now_ms: u64,
    path: u32,
    out: OutputView,
)
    requires
        m.role == Role::Client,
        m.state == LifecycleState::Established,
        m.client_server_msr_rx_since_last_keepalive == 0,
    ensures
        hear_msrs(m, now_ms, path, 1, out).out == out,
        hear_msrs(m, now_ms, path, 2, out).out == out,
        hear_msrs(m, now_ms, path, 3, out).out == out,
        hear_msrs(m, now_ms, path, 4, out).out == out.send(
            path,
            model::msr_bytes(m.cid, m.last_ordered_rx, m.max_pending_id(), Seq::empty()),
        ),
        hear_msrs(
            m,
            now_ms,
            path,
            4,
            out,
        ).machine.client_server_msr_rx_since_last_keepalive == 0,
{
    reveal_with_fuel(hear_msrs, 5);
}

/// A client that was reviving its session stands again with the server's next
/// MSR.
pub proof fn law_msr_revives_the_session(
    m: MachineView,
    now_ms: u64,
    path: u32,
    cid: u64,
    acked: u64,
    next_pending: u64,
)
    requires
        m.role == Role::Client,
        m.state == LifecycleState::Reactivating,
        model::cid_accepted(m, cid),
    ensures
        ({
            let step = model::datagram_step(
                m,
                now_ms,
                path,
                model::msr_bytes(cid, acked, next_pending, Seq::empty()),
            );
            &&& step.error is None
            &&& step.machine.state == LifecycleState::Established
            &&& step.out.events.len() > 0
            &&& step.out.events[0] == EventView::Reactivated
        }),
{
    lemma_pair_len(acked, next_pending);
    lemma_core_frame_read(
        MessageType::Msr,
        cid,
        codec::pair_bytes(acked, next_pending),
        Seq::empty(),
    );
    codec::law_pair_round_trip(acked, next_pending, Seq::empty());
}

/// A message that is queued while the session stands is advertised at once, and
/// the peer asks for exactly what it has not asked for yet.
pub proof fn law_queued_message_is_requested(
    sender: MachineView,
    peer: MachineView,
    payload: Seq<u8>,
    now_ms: u64,
    path: u32,
)
    requires
        sender.wf(),
        sender.next_outbound_id < u64::MAX,
        sender.state == LifecycleState::Established,
        peer.state == LifecycleState::Established,
        model::cid_accepted(peer, sender.cid),
        peer.last_requested_end < sender.next_outbound_id,
    ensures
        ({
            let sent = model::send_step(sender, payload);
            let step = model::datagram_step(
                peer,
                now_ms,
                path,
                sent.out.outbound_datagrams[0].bytes,
            );
            &&& sent.machine.outbound_messages[sender.next_outbound_id] == payload
            &&& sent.out.outbound_datagrams.len() == 1
            &&& step.error is None
            &&& step.machine.last_requested_end == sender.next_outbound_id
            &&& requested_in(step.out.events) == seq![
                ((peer.last_requested_end + 1) as u64, sender.next_outbound_id),
            ]
        }),
{
    let sent = model::send_step(sender, payload);
    let pending = sent.machine.max_pending_id();
    let acked = if sender.role == Role::Client {
        0
    } else {
        sender.last_ordered_rx
    };
    lemma_pair_len(acked, pending);
    lemma_core_frame_read(
        MessageType::Msr,
        sender.cid,
        codec::pair_bytes(acked, pending),
        Seq::empty(),
    );
    codec::law_pair_round_trip(acked, pending, Seq::empty());
    law_requests_follow_each_other(peer, now_ms, path, sent.out.outbound_datagrams[0].bytes);
}

proof fn lemma_flush_bounded(m: MachineView, out: OutputView)
    requires
        m.received_buffer.dom().finite(),
    ensures
        model::flush(m, out).machine.last_ordered_rx <= m.last_ordered_rx
            + m.received_buffer.dom().len(),
    decreases u64::MAX - m.last_ordered_rx,
{
    let next = (m.last_ordered_rx + 1) as u64;
    if m.last_ordered_rx < u64::MAX && m.received_buffer.contains_key(next) {
        let m1 = MachineView {
            last_ordered_rx: next,
            received_buffer: m.received_buffer.remove(next),
            ..m
        };
        assert(m1.received_buffer.dom() =~= m.received_buffer.dom().remove(next));
        lemma_flush_bounded(
            m1,
            out.emit(EventView::MessageDelivered { msg_id: next }).emit(
                EventView::MessageReceived { msg_id: next, payload: m.received_buffer[next] },
            ),
        );
    }
}

proof fn lemma_completed_bounded(m: MachineView, id: u64, message: Seq<u8>, out: OutputView)
    requires
        m.received_buffer.dom().finite(),
    ensures
        model::flush(
            model::message_completed(m, id, message),
            out,
        ).machine.last_ordered_rx <= m.last_ordered_rx + m.received_buffer.dom().len() + 1,
{
    let m1 = model::message_completed(m, id, message);
    assert(m1.received_buffer.dom() =~= m.received_buffer.dom().insert(id));
    lemma_flush_bounded(m1, out);
}

/// While there are ids for everything that waits, a datagram does not use them
/// up.
pub proof fn lemma_ids_suffice(m: MachineView, now_ms: u64, path: u32, bytes: Seq<u8>)
    requires
        m.wf(),
        m.received_buffer.dom().finite(),
        m.last_ordered_rx + m.received_buffer.dom().len() + 1 < u64::MAX,
    ensures
        model::datagram_step(m, now_ms, path, bytes).machine.last_ordered_rx < u64::MAX,
{
    if let Ok(frame) = wire::parse_frame(bytes) {
        let none = OutputView::empty();
        let m1 = met(m, now_ms, path);
        lemma_tlvs_keep_state(m1, path, frame.tlvs, none);
        let id = big_endian::be_value(frame.payload.subrange(0, 8)) as u64;
        let idx = big_endian::be_value(frame.payload.subrange(8, 10)) as u16;
        let total = big_endian::be_value(frame.payload.subrange(10, 12)) as u16;
        let fragments = model::fragment_added(m1, id, idx, total, frame.payload.skip(12));
        lemma_completed_bounded(m1, id, frame.payload.skip(8), none);
        lemma_completed_bounded(
            m1,
            id,
            model::joined(fragments.chunks, total as nat),
            none,
        );
    }
}

/// With room at a moment, every datagram and every timer can be taken in then.
pub proof fn law_room_is_enough(m: MachineView, now_ms: u64)
    requires
        m.wf(),
        m.received_buffer.dom().finite(),
        model::has_room(m, now_ms),
    ensures
        forall|path: u32, bytes: Seq<u8>|
            #![trigger model::datagram_fits(m, now_ms, path, bytes)]
            model::datagram_fits(m, now_ms, path, bytes),
        forall|id: TimerId|
            #![trigger model::timer_fits(m, now_ms, id)]
            model::timer_fits(m, now_ms, id),
{
    assert forall|path: u32, bytes: Seq<u8>|
        #![trigger model::datagram_fits(m, now_ms, path, bytes)]
        model::datagram_fits(m, now_ms, path, bytes) by {
        lemma_ids_suffice(m, now_ms, path, bytes);
    }
}

} // verus!
