//! What holds of a session machine over its whole life, whatever it is asked.

use vstd::prelude::*;

use crate::big_endian;
use crate::session::codec;
use crate::session::laws;
use crate::session::machine;
use crate::session::model;
use crate::session::model::{FragmentsView, MachineView, Step};
use crate::session::types::{
    CoreConfig, CoreError, CoreOutput, EventView, LifecycleState, OutputView, PathEvent, Role,
    TimerId, TimerProposal,
};
use crate::wire;
use crate::wire::{FrameView, MessageType};

verus! {

/// What a machine can be asked.
#[verifier::ext_equal]
pub enum Input {
    Begin,
    Datagram { now_ms: u64, path: u32, bytes: Seq<u8> },
    Timer { now_ms: u64, id: TimerId },
    Send { payload: Seq<u8> },
    Close,
    Propose { now_ms: u64, proposal: TimerProposal },
    Path { event: PathEvent },
}

/// What a machine does about an input.
#[verifier::opaque]
pub open spec fn input_step(m: MachineView, input: Input) -> Step {
    match input {
        Input::Begin => model::begin_step(m),
        Input::Datagram { now_ms, path, bytes } => model::datagram_step(m, now_ms, path, bytes),
        Input::Timer { now_ms, id } => model::timer_step(m, now_ms, id),
        Input::Send { payload } => model::send_step(m, payload),
        Input::Close => model::close_step(m),
        Input::Propose { now_ms, proposal } => model::propose_step(m, now_ms, proposal),
        Input::Path { event } => model::path_step(m, event),
    }
}

/// A machine after some inputs.
pub open spec fn lived(m: MachineView, inputs: Seq<Input>) -> MachineView
    decreases inputs.len(),
{
    if inputs.len() == 0 {
        m
    } else {
        input_step(lived(m, inputs.drop_last()), inputs.last()).machine
    }
}

/// The events that a step hands out; a step that failed hands out none.
pub open spec fn handed_out(step: Step) -> Seq<EventView> {
    if step.error is None {
        step.out.events
    } else {
        Seq::empty()
    }
}

/// All events that a machine handed out over some inputs.
pub open spec fn history(m: MachineView, inputs: Seq<Input>) -> Seq<EventView>
    decreases inputs.len(),
{
    if inputs.len() == 0 {
        Seq::empty()
    } else {
        history(m, inputs.drop_last()) + handed_out(
            input_step(lived(m, inputs.drop_last()), inputs.last()),
        )
    }
}

/// Each call of a machine continues its life: what the call is asked is one more
/// input, and what it hands out goes behind the history.
pub proof fn law_calls_continue_a_life(m: MachineView, inputs: Seq<Input>, input: Input)
    ensures
        lived(m, inputs.push(input)) == input_step(lived(m, inputs), input).machine,
        history(m, inputs.push(input)) == history(m, inputs) + handed_out(
            input_step(lived(m, inputs), input),
        ),
        input_step(lived(m, inputs), input) == match input {
            Input::Begin => model::begin_step(lived(m, inputs)),
            Input::Datagram { now_ms, path, bytes } => model::datagram_step(
                lived(m, inputs),
                now_ms,
                path,
                bytes,
            ),
            Input::Timer { now_ms, id } => model::timer_step(lived(m, inputs), now_ms, id),
            Input::Send { payload } => model::send_step(lived(m, inputs), payload),
            Input::Close => model::close_step(lived(m, inputs)),
            Input::Propose { now_ms, proposal } => model::propose_step(
                lived(m, inputs),
                now_ms,
                proposal,
            ),
            Input::Path { event } => model::path_step(lived(m, inputs), event),
        },
{
    reveal(input_step);
    assert(inputs.push(input).drop_last() =~= inputs);
}

/// That each message that is handed over comes right behind the news of it.
pub open spec fn is_paired(events: Seq<EventView>) -> bool {
    forall|k: int|
        #![trigger events[k]]
        0 <= k < events.len() ==> (events[k] matches EventView::MessageReceived { msg_id, .. }
            ==> k > 0 && events[k - 1] == EventView::MessageDelivered { msg_id })
}

/// That requests follow each other from the first id to `end`.
pub open spec fn is_chain(requests: Seq<(u64, u64)>, end: u64) -> bool {
    &&& requests.len() == 0 ==> end == 0
    &&& requests.len() > 0 ==> requests[0].0 == 1 && requests.last().1 == end
    &&& forall|k: int|
        #![trigger requests[k]]
        0 <= k < requests.len() ==> requests[k].0 <= requests[k].1 && (k > 0 ==> requests[k].0
            == requests[k - 1].1 + 1)
}

proof fn lemma_received_joined(a: Seq<EventView>, b: Seq<EventView>)
    ensures
        laws::received_in(a + b) == laws::received_in(a) + laws::received_in(b),
        laws::requested_in(a + b) == laws::requested_in(a) + laws::requested_in(b),
    decreases b.len(),
{
    if b.len() == 0 {
        assert(a + b =~= a);
        assert(laws::received_in(a) + laws::received_in(b) =~= laws::received_in(a));
        assert(laws::requested_in(a) + laws::requested_in(b) =~= laws::requested_in(a));
    } else {
        lemma_received_joined(a, b.drop_last());
        assert((a + b).drop_last() =~= a + b.drop_last());
        assert(laws::received_in(a + b) =~= laws::received_in(a) + laws::received_in(b));
        assert(laws::requested_in(a + b) =~= laws::requested_in(a) + laws::requested_in(b));
    }
}

proof fn lemma_paired_joined(a: Seq<EventView>, b: Seq<EventView>)
    requires
        is_paired(a),
        is_paired(b),
    ensures
        is_paired(a + b),
{
    let all = a + b;
    assert forall|k: int| #![trigger all[k]] 0 <= k < all.len() implies (
    all[k] matches EventView::MessageReceived { msg_id, .. } ==> k > 0 && all[k - 1]
        == EventView::MessageDelivered { msg_id }) by {
        if k < a.len() {
            assert(all[k] == a[k]);
        } else {
            assert(all[k] == b[k - a.len()]);
            if b[k - a.len()] is MessageReceived {
                assert(all[k - 1] == b[k - a.len() - 1]);
            }
        }
    }
}

proof fn lemma_paired_after_emit(out: OutputView, event: EventView)
    requires
        is_paired(out.events),
        !(event is MessageReceived),
    ensures
        is_paired(out.emit(event).events),
{
    let after = out.emit(event).events;
    assert forall|k: int| #![trigger after[k]] 0 <= k < after.len() implies (
    after[k] matches EventView::MessageReceived { msg_id, .. } ==> k > 0 && after[k - 1]
        == EventView::MessageDelivered { msg_id }) by {
        if k < out.events.len() {
            assert(after[k] == out.events[k]);
        }
    }
}

proof fn lemma_flush_is_paired(m: MachineView, out: OutputView)
    requires
        is_paired(out.events),
    ensures
        is_paired(model::flush(m, out).out.events),
    decreases u64::MAX - m.last_ordered_rx,
{
    let next = (m.last_ordered_rx + 1) as u64;
    if m.last_ordered_rx < u64::MAX && m.received_buffer.contains_key(next) {
        let delivered = EventView::MessageDelivered { msg_id: next };
        let received = EventView::MessageReceived {
            msg_id: next,
            payload: m.received_buffer[next],
        };
        let o1 = out.emit(delivered).emit(received);
        assert forall|k: int| #![trigger o1.events[k]] 0 <= k < o1.events.len() implies (
        o1.events[k] matches EventView::MessageReceived { msg_id, .. } ==> k > 0 && o1.events[k
            - 1] == EventView::MessageDelivered { msg_id }) by {
            if k < out.events.len() {
                assert(o1.events[k] == out.events[k]);
            } else if k == out.events.len() {
                assert(o1.events[k] == delivered);
            } else {
                assert(o1.events[k - 1] == delivered);
            }
        }
        lemma_flush_is_paired(
            MachineView {
                last_ordered_rx: next,
                received_buffer: m.received_buffer.remove(next),
                ..m
            },
            o1,
        );
    }
}

proof fn lemma_tlvs_are_paired(
    m: MachineView,
    path: u32,
    tlvs: Seq<wire::TlvView>,
    out: OutputView,
)
    requires
        is_paired(out.events),
    ensures
        is_paired(model::msr_tlvs_step(m, path, tlvs, out).out.events),
    decreases tlvs.len(),
{
    if tlvs.len() > 0 {
        let first = model::msr_tlv_step(m, path, tlvs[0], out);
        if first.out.events != out.events {
            lemma_paired_after_emit(out, first.out.events.last());
            assert(first.out.events =~= out.events.push(first.out.events.last()));
        }
        lemma_tlvs_are_paired(first.machine, path, tlvs.skip(1), first.out);
    }
}

proof fn lemma_signal_is_paired(
    m: MachineView,
    now_ms: u64,
    path: u32,
    next_pending: u64,
    control: bool,
    out: OutputView,
)
    requires
        is_paired(out.events),
    ensures
        is_paired(model::msr_signal_step(m, now_ms, path, next_pending, control, out).out.events),
{
    let s1 = if m.role == Role::Client {
        model::client_msr_heard(m, now_ms, path, control, out)
    } else {
        model::done(MachineView { server_consecutive_msr_without_client_msr: 0, ..m }, out)
    };
    if s1.out.events != out.events {
        lemma_paired_after_emit(out, EventView::Reactivated);
        assert(s1.out.events =~= out.emit(EventView::Reactivated).events);
    }
    let start = (s1.machine.last_requested_end + 1) as u64;
    lemma_paired_after_emit(
        s1.out,
        EventView::RequestRangeSent { start, end: next_pending },
    );
}

proof fn lemma_frame_is_paired(m: MachineView, now_ms: u64, path: u32, frame: FrameView)
    ensures
        is_paired(model::frame_step(m, now_ms, path, frame, OutputView::empty()).out.events),
{
    let none = OutputView::empty();
    let step = model::frame_step(m, now_ms, path, frame, none);
    match frame.message_type {
        MessageType::Msr => {
            lemma_tlvs_are_paired(m, path, frame.tlvs, none);
            if let Some((_, next_pending)) = codec::pair_of(frame.payload) {
                let s1 = model::msr_tlvs_step(m, path, frame.tlvs, none);
                lemma_signal_is_paired(s1.machine, now_ms, path, next_pending, true, s1.out);
            }
        },
        MessageType::Data => {
            lemma_flush_is_paired(
                model::message_completed(
                    m,
                    big_endian::be_value(frame.payload.subrange(0, 8)) as u64,
                    frame.payload.skip(8),
                ),
                none,
            );
        },
        MessageType::Fragment => {
            let id = big_endian::be_value(frame.payload.subrange(0, 8)) as u64;
            let idx = big_endian::be_value(frame.payload.subrange(8, 10)) as u16;
            let total = big_endian::be_value(frame.payload.subrange(10, 12)) as u16;
            let fragments = model::fragment_added(m, id, idx, total, frame.payload.skip(12));
            lemma_flush_is_paired(
                model::message_completed(m, id, model::joined(fragments.chunks, total as nat)),
                none,
            );
        },
        _ => {},
    }
}

/// What one input does to the messages and requests of a life.
proof fn lemma_input_reports(m: MachineView, input: Input)
    ensures
        ({
            let step = input_step(m, input);
            let events = handed_out(step);
            &&& step.machine.last_ordered_rx >= m.last_ordered_rx
            &&& laws::received_in(events) == laws::ids_after(
                m.last_ordered_rx,
                step.machine.last_ordered_rx,
            )
            &&& step.machine.last_requested_end >= m.last_requested_end
            &&& laws::requested_in(events) == laws::new_requests(
                m.last_requested_end,
                step.machine.last_requested_end,
            )
            &&& is_paired(events)
        }),
{
    reveal(input_step);
    let step = input_step(m, input);
    let events = handed_out(step);
    assert(laws::ids_after(m.last_ordered_rx, m.last_ordered_rx) =~= Seq::<u64>::empty());
    let none = Seq::<EventView>::empty();
    assert(laws::received_in(none) =~= Seq::<u64>::empty());
    assert(laws::requested_in(none) =~= Seq::<(u64, u64)>::empty());
    match input {
        Input::Datagram { now_ms, path, bytes } => {
            laws::lemma_datagram_reports(m, now_ms, path, bytes);
            if let Ok(frame) = wire::parse_frame(bytes) {
                let m1 = MachineView { current_path_id: path, ..m }.deadline_touched(
                    now_ms,
                ).peer_heard(now_ms);
                let s1 = model::frame_step(m1, now_ms, path, frame, OutputView::empty());
                lemma_frame_is_paired(m1, now_ms, path, frame);
                if let Some((_, next_pending)) = codec::msr_signal_of(frame.tlvs) {
                    lemma_signal_is_paired(s1.machine, now_ms, path, next_pending, false, s1.out);
                }
            }
        },
        _ => {
            if events.len() > 0 {
                assert(events.drop_last() =~= none);
                assert(events[0] == events.last());
            }
        },
    }
}

/// Over its whole life a machine hands its peer's messages over in order, each
/// once: the ids are those from one to the last one handed over. Each comes right
/// behind the news of its delivery.
pub proof fn law_a_life_delivers_once_and_in_order(
    role: Role,
    cid: u64,
    cfg: CoreConfig,
    inputs: Seq<Input>,
)
    ensures
        ({
            let m = model::fresh(role, cid, cfg);
            let events = history(m, inputs);
            &&& laws::received_in(events) == laws::ids_after(0, lived(m, inputs).last_ordered_rx)
            &&& is_paired(events)
        }),
    decreases inputs.len(),
{
    let m = model::fresh(role, cid, cfg);
    if inputs.len() == 0 {
        assert(laws::received_in(history(m, inputs)) =~= laws::ids_after(0, 0));
    } else {
        law_a_life_delivers_once_and_in_order(role, cid, cfg, inputs.drop_last());
        let before = lived(m, inputs.drop_last());
        let events = handed_out(input_step(before, inputs.last()));
        lemma_input_reports(before, inputs.last());
        lemma_received_joined(history(m, inputs.drop_last()), events);
        lemma_paired_joined(history(m, inputs.drop_last()), events);
        let end = lived(m, inputs).last_ordered_rx;
        assert(laws::ids_after(0, before.last_ordered_rx) + laws::ids_after(
            before.last_ordered_rx,
            end,
        ) =~= laws::ids_after(0, end));
    }
}

/// Over its whole life a machine requests every id once: the first request starts
/// at one, and each starts right behind the one before.
pub proof fn law_a_life_requests_each_id_once(
    role: Role,
    cid: u64,
    cfg: CoreConfig,
    inputs: Seq<Input>,
)
    ensures
        ({
            let m = model::fresh(role, cid, cfg);
            is_chain(
                laws::requested_in(history(m, inputs)),
                lived(m, inputs).last_requested_end,
            )
        }),
    decreases inputs.len(),
{
    let m = model::fresh(role, cid, cfg);
    if inputs.len() > 0 {
        law_a_life_requests_each_id_once(role, cid, cfg, inputs.drop_last());
        let before = lived(m, inputs.drop_last());
        let events = handed_out(input_step(before, inputs.last()));
        lemma_input_reports(before, inputs.last());
        lemma_received_joined(history(m, inputs.drop_last()), events);
        let earlier = laws::requested_in(history(m, inputs.drop_last()));
        let all = laws::requested_in(history(m, inputs));
        let end = lived(m, inputs).last_requested_end;
        if end > before.last_requested_end {
            assert(all =~= earlier.push(((before.last_requested_end + 1) as u64, end)));
            assert forall|k: int| #![trigger all[k]] 0 <= k < all.len() implies all[k].0
                <= all[k].1 && (k > 0 ==> all[k].0 == all[k - 1].1 + 1) by {
                if k < earlier.len() {
                    assert(all[k] == earlier[k]);
                    if k > 0 {
                        assert(all[k - 1] == earlier[k - 1]);
                    }
                } else if k > 0 {
                    assert(all[k - 1] == earlier.last());
                }
            }
            if earlier.len() > 0 {
                assert(all[0] == earlier[0]);
            }
        } else {
            assert(all =~= earlier);
        }
    }
}

/// An advertisement of nothing beyond what was requested requests nothing.
pub proof fn law_stale_advertisement_requests_nothing(
    m: MachineView,
    now_ms: u64,
    path: u32,
    next_pending: u64,
    control: bool,
    out: OutputView,
)
    requires
        next_pending <= m.last_requested_end,
    ensures
        ({
            let step = model::msr_signal_step(m, now_ms, path, next_pending, control, out);
            &&& step.machine.last_requested_end == m.last_requested_end
            &&& laws::requested_in(step.out.events) == laws::requested_in(out.events)
        }),
{
    laws::lemma_signal_reports(m, now_ms, path, next_pending, control, out);
    assert(laws::requested_in(out.events) + Seq::<(u64, u64)>::empty() =~= laws::requested_in(
        out.events,
    ));
}

/// A machine that is lost stays lost for the rest of its life and tells of no life
/// any more.
pub proof fn law_a_lost_life_is_over(m: MachineView, inputs: Seq<Input>)
    requires
        m.state == LifecycleState::Lost,
    ensures
        lived(m, inputs).state == LifecycleState::Lost,
        laws::tells_no_life(history(m, inputs)),
    decreases inputs.len(),
{
    reveal(input_step);
    if inputs.len() > 0 {
        law_a_lost_life_is_over(m, inputs.drop_last());
        let before = lived(m, inputs.drop_last());
        let earlier = history(m, inputs.drop_last());
        let input = inputs.last();
        let events = handed_out(input_step(before, input));
        let now_ms = match input {
            Input::Datagram { now_ms, .. } => now_ms,
            Input::Timer { now_ms, .. } => now_ms,
            Input::Propose { now_ms, .. } => now_ms,
            _ => 0,
        };
        laws::law_lost_stays_lost(
            before,
            now_ms,
            input->path,
            input->bytes,
            input->id,
            input->payload,
            input->proposal,
            input->event,
        );
        let all = history(m, inputs);
        assert forall|i: int| #![trigger all[i]] 0 <= i < all.len() implies match all[i] {
            EventView::HandshakeEstablished => false,
            EventView::Reactivated => false,
            EventView::RequestRangeSent { .. } => false,
            EventView::MessageDelivered { .. } => false,
            EventView::MessageReceived { .. } => false,
            _ => true,
        } by {
            if i < earlier.len() {
                assert(all[i] == earlier[i]);
            } else {
                assert(all[i] == events[i - earlier.len()]);
            }
        }
    }
}

/// Machines that were made alike and asked alike answer alike: with the same
/// output or the same error.
pub proof fn law_equal_lives_answer_alike(
    role: Role,
    cid: u64,
    cfg: CoreConfig,
    inputs: Seq<Input>,
    input: Input,
    first: Result<CoreOutput, CoreError>,
    second: Result<CoreOutput, CoreError>,
)
    requires
        machine::agrees(first, input_step(lived(model::fresh(role, cid, cfg), inputs), input)),
        machine::agrees(second, input_step(lived(model::fresh(role, cid, cfg), inputs), input)),
    ensures
        match (first, second) {
            (Ok(a), Ok(b)) => a@ == b@,
            (Err(a), Err(b)) => a == b,
            _ => false,
        },
{
}

/// That every fragment of a message is among some indices.
pub open spec fn all_among(order: Seq<nat>, message: Seq<u8>) -> bool {
    forall|idx: nat|
        #![trigger order.contains(idx)]
        idx < model::fragment_count(message) ==> order.contains(idx)
}

/// The fragments of a message with some indices, as a machine holds them.
pub open spec fn held_fragments(order: Seq<nat>, message: Seq<u8>) -> FragmentsView {
    FragmentsView {
        total: model::fragment_count(message) as u16,
        chunks: Map::new(
            |idx: u16| order.contains(idx as nat),
            |idx: u16| model::fragment_chunk(message, idx as nat),
        ),
    }
}

/// What has become of a machine that had nothing of message `id` once the
/// fragments with some indices came in: it holds these until all are there; then
/// it has the message, as it was, once.
pub open spec fn fragments_taken(
    m: MachineView,
    id: u64,
    message: Seq<u8>,
    order: Seq<nat>,
    out: OutputView,
) -> Step {
    if order.len() == 0 {
        model::done(m, out)
    } else if all_among(order, message) {
        model::flush(model::message_completed(m, id, message), out)
    } else {
        model::done(
            MachineView {
                received_fragments: m.received_fragments.insert(
                    id,
                    held_fragments(order, message),
                ),
                ..m
            },
            out,
        )
    }
}

proof fn lemma_feed_one_more(
    m: MachineView,
    id: u64,
    message: Seq<u8>,
    order: Seq<nat>,
    idx: nat,
    out: OutputView,
)
    ensures
        ({
            let before = laws::feed_fragments(m, id, message, order, out);
            let step = model::fragment_step(
                before.machine,
                model::fragment_payload(id, message, idx),
                before.out,
            );
            laws::feed_fragments(m, id, message, order.push(idx), out) == model::done(
                step.machine,
                step.out,
            )
        }),
    decreases order.len(),
{
    reveal_with_fuel(laws::feed_fragments, 2);
    if order.len() > 0 {
        let step = model::fragment_step(
            m,
            model::fragment_payload(id, message, order[0]),
            out,
        );
        lemma_feed_one_more(step.machine, id, message, order.skip(1), idx, step.out);
        assert(order.push(idx).skip(1) =~= order.skip(1).push(idx));
    } else {
        assert(order.push(idx).skip(1) =~= Seq::<nat>::empty());
    }
}

/// The fragments of a long message, in whatever order and however often they come:
/// every one is taken without an error; the message is there, as it was and once,
/// as soon as the last missing one is; until then nothing of it is handed over, and
/// what comes later changes nothing.
pub proof fn law_fragments_deliver_the_message_once(
    m: MachineView,
    id: u64,
    message: Seq<u8>,
    order: Seq<nat>,
    out: OutputView,
)
    requires
        m.wf(),
        0 < model::fragment_count(message) <= u16::MAX,
        !m.received_ids.contains(id),
        !m.received_fragments.contains_key(id),
        forall|i: int|
            #![trigger order[i]]
            0 <= i < order.len() ==> order[i] < model::fragment_count(message),
    ensures
        laws::feed_fragments(m, id, message, order, out) == fragments_taken(
            m,
            id,
            message,
            order,
            out,
        ),
        forall|n: int|
            #![trigger order.take(n)]
            0 <= n < order.len() ==> {
                let before = laws::feed_fragments(m, id, message, order.take(n), out);
                model::fragment_step(
                    before.machine,
                    model::fragment_payload(id, message, order[n]),
                    before.out,
                ).error is None
            },
    decreases order.len(),
{
    if order.len() > 0 {
        let total = model::fragment_count(message);
        let last = order.len() - 1;
        let earlier = order.drop_last();
        let idx = order.last();
        assert(earlier.push(idx) =~= order);
        assert forall|i: int| #![trigger earlier[i]] 0 <= i < earlier.len() implies earlier[i]
            < total by {
            assert(earlier[i] == order[i]);
        }
        law_fragments_deliver_the_message_once(m, id, message, earlier, out);
        lemma_feed_one_more(m, id, message, earlier, idx, out);
        let before = laws::feed_fragments(m, id, message, earlier, out);
        let m1 = before.machine;
        let step = model::fragment_step(
            m1,
            model::fragment_payload(id, message, idx),
            before.out,
        );
        assert(order[last] == idx);
        assert forall|i: nat| order.contains(i) == (earlier.contains(i) || i == idx) by {
            if earlier.contains(i) {
                let k = choose|k: int| 0 <= k < earlier.len() && earlier[k] == i;
                assert(order[k] == i);
            }
            if order.contains(i) && i != idx {
                let k = choose|k: int| 0 <= k < order.len() && order[k] == i;
                assert(earlier[k] == i);
            }
        }
        if earlier.len() > 0 && all_among(earlier, message) {
            assert(all_among(order, message));
            let completed = model::message_completed(m, id, message);
            laws::lemma_flush_keeps(completed, out);
            model::lemma_flush_grows(completed, out);
            assert(m1.received_ids.contains(id));
            lemma_received_fragment_is_ignored(m1, id, message, idx, before.out);
        } else {
            assert(laws::assembling(m1, id, message)) by {
                if earlier.len() > 0 {
                    let held = m1.received_fragments[id];
                    assert(held == held_fragments(earlier, message));
                    assert forall|i: u16| #![trigger held.chunks.contains_key(i)]
                        held.chunks.contains_key(i) implies i < held.total && held.chunks[i]
                        == model::fragment_chunk(message, i as nat) by {
                        assert(earlier.contains(i as nat));
                        let k = choose|k: int| 0 <= k < earlier.len() && earlier[k] == i as nat;
                        assert(earlier[k] < total);
                    }
                }
            }
            laws::law_fragment_is_kept_or_completes(m1, id, message, idx, before.out);
            let added = model::fragment_added(
                m1,
                id,
                idx as u16,
                total as u16,
                model::fragment_chunk(message, idx),
            );
            let now = held_fragments(order, message);
            assert forall|i: u16| added.chunks.contains_key(i) == now.chunks.contains_key(i) by {
                if earlier.len() == 0 {
                    assert(!earlier.contains(i as nat));
                }
            }
            assert(added.chunks =~= now.chunks);
            assert(added == now);
            assert(model::all_fragments_in(added) == all_among(order, message)) by {
                if model::all_fragments_in(added) {
                    assert forall|i: nat| #![trigger order.contains(i)] i < total implies
                        order.contains(i) by {
                        assert(added.chunks.contains_key(i as u16));
                    }
                }
                if all_among(order, message) {
                    assert forall|i: u16| #![trigger added.chunks.contains_key(i)] i
                        < added.total implies added.chunks.contains_key(i) by {
                        assert(order.contains(i as nat));
                    }
                }
            }
            let completed = model::message_completed(m1, id, message);
            assert(completed.received_fragments =~= m.received_fragments.remove(id));
            assert(completed =~= model::message_completed(m, id, message));
            model::lemma_flush_grows(completed, before.out);
            assert(m1.received_fragments.insert(id, added) =~= m.received_fragments.insert(
                id,
                now,
            ));
        }
        assert(step.error is None);
        assert(step == fragments_taken(m, id, message, order, out));
        assert forall|n: int| #![trigger order.take(n)] 0 <= n < order.len() implies {
            let b = laws::feed_fragments(m, id, message, order.take(n), out);
            model::fragment_step(
                b.machine,
                model::fragment_payload(id, message, order[n]),
                b.out,
            ).error is None
        } by {
            if n < last {
                assert(order.take(n) =~= earlier.take(n));
                assert(order[n] == earlier[n]);
            } else {
                assert(order.take(n) =~= earlier);
            }
        }
    }
}

proof fn lemma_received_fragment_is_ignored(
    m: MachineView,
    id: u64,
    message: Seq<u8>,
    idx: nat,
    out: OutputView,
)
    requires
        m.received_ids.contains(id),
        model::fragment_count(message) <= u16::MAX,
        idx < model::fragment_count(message),
    ensures
        model::fragment_step(m, model::fragment_payload(id, message, idx), out) == model::done(
            m,
            out,
        ),
{
    let payload = model::fragment_payload(id, message, idx);
    big_endian::lemma_be_range_values();
    big_endian::lemma_be_value_of_bytes(id as nat, 8);
    big_endian::lemma_be_bytes_len(idx, 2);
    big_endian::lemma_be_bytes_len(model::fragment_count(message), 2);
    assert(payload.subrange(0, 8) =~= big_endian::be_bytes(id as nat, 8));
}

/// A long message that was queued is served in fragments, and these, in whatever
/// order and however often they come, make the peer take it as it was, once.
pub proof fn law_long_message_is_delivered_once(
    sender: MachineView,
    receiver: MachineView,
    id: u64,
    sent_on: u32,
    order: Seq<nat>,
    out: OutputView,
)
    requires
        sender.outbound_messages.contains_key(id),
        992 < sender.outbound_messages[id].len() <= 65_535 * 988,
        receiver.wf(),
        !receiver.received_ids.contains(id),
        !receiver.received_fragments.contains_key(id),
        forall|i: int|
            #![trigger order[i]]
            0 <= i < order.len() ==> order[i] < model::fragment_count(
                sender.outbound_messages[id],
            ),
        all_among(order, sender.outbound_messages[id]),
    ensures
        ({
            let message = sender.outbound_messages[id];
            let served = model::range_datagrams(sender, sent_on, id as int, id as int);
            &&& served is Some
            &&& served->0.len() == model::fragment_count(message)
            &&& forall|idx: int|
                #![trigger served->0[idx]]
                0 <= idx < served->0.len() ==> {
                    let frame = wire::parse_frame(served->0[idx].bytes);
                    &&& frame is Ok
                    &&& frame->Ok_0.message_type == MessageType::Fragment
                    &&& frame->Ok_0.payload == model::fragment_payload(id, message, idx as nat)
                }
            &&& laws::feed_fragments(receiver, id, message, order, out) == model::flush(
                model::message_completed(receiver, id, message),
                out,
            )
        }),
{
    let message = sender.outbound_messages[id];
    let total = model::fragment_count(message);
    reveal_with_fuel(model::range_datagrams, 2);
    let served = model::range_datagrams(sender, sent_on, id as int, id as int)->0;
    assert(served =~= model::message_datagrams(sender, sent_on, id, message)->0);
    laws::lemma_own_signal_fits(sender);
    assert forall|idx: int| #![trigger served[idx]] 0 <= idx < served.len() implies {
        let frame = wire::parse_frame(served[idx].bytes);
        &&& frame is Ok
        &&& frame->Ok_0.message_type == MessageType::Fragment
        &&& frame->Ok_0.payload == model::fragment_payload(id, message, idx as nat)
    } by {
        big_endian::lemma_be_bytes_len(id as nat, 8);
        big_endian::lemma_be_bytes_len(idx as nat, 2);
        big_endian::lemma_be_bytes_len(total, 2);
        laws::lemma_core_frame_read(
            MessageType::Fragment,
            sender.cid,
            model::fragment_payload(id, message, idx as nat),
            model::own_signal(sender),
        );
    }
    assert(order.contains(0nat));
    law_fragments_deliver_the_message_once(receiver, id, message, order, out);
}

} // verus!
