//! How a session conducts itself: when it stands and when it is lost, when it speaks
//! up, and on which path.

use vstd::prelude::*;

use crate::big_endian;
use crate::session::codec;
use crate::session::laws;
use crate::session::life;
use crate::session::life::Input;
use crate::session::model;
use crate::session::model::MachineView;
use crate::session::serving;
use crate::session::types::{
    DatagramView, EventView, LifecycleState, OutputView, PathEvent, Role, TimerAction, TimerId,
    TimerProposal,
};
use crate::wire;
use crate::wire::{MessageType, TlvView};

verus! {

/// What no frame of a session touches, and what every frame does.
pub(crate) proof fn lemma_frame_keeps(m: MachineView, now_ms: u64, path: u32, bytes: Seq<u8>)
    requires
        serving::is_for(m, bytes),
    ensures
        ({
            let after = model::datagram_step(m, now_ms, path, bytes).machine;
            &&& after.role == m.role
            &&& after.cid == m.cid
            &&& after.current_path_id == path
            &&& after.next_outbound_id == m.next_outbound_id
            &&& after.outbound_messages == m.outbound_messages
            &&& after.next_proposal_id == m.next_proposal_id
            &&& after.disconnect_deadline_ms == Some((now_ms + m.cfg.disconnect_window_ms) as u64)
            &&& m.role == Role::Client && m.state == LifecycleState::Established
                ==> after.last_server_msr_at_ms == Some(now_ms)
        }),
{
    let frame = wire::parse_frame(bytes)->Ok_0;
    let none = OutputView::empty();
    let m1 = laws::met(m, now_ms, path);
    laws::lemma_tlvs_keep_state(m1, path, frame.tlvs, none);
    let id = big_endian::be_value(frame.payload.subrange(0, 8)) as u64;
    let idx = big_endian::be_value(frame.payload.subrange(8, 10)) as u16;
    let total = big_endian::be_value(frame.payload.subrange(10, 12)) as u16;
    let fragments = model::fragment_added(m1, id, idx, total, frame.payload.skip(12));
    laws::lemma_flush_keeps(model::message_completed(m1, id, frame.payload.skip(8)), none);
    laws::lemma_flush_keeps(
        model::message_completed(m1, id, model::joined(fragments.chunks, total as nat)),
        none,
    );
}

/// Any frame of the session moves its end: it is then a disconnect window away,
/// whatever it was before and whatever becomes of the frame.
pub proof fn law_any_frame_moves_the_deadline(
    m: MachineView,
    now_ms: u64,
    path: u32,
    bytes: Seq<u8>,
)
    requires
        serving::is_for(m, bytes),
        now_ms + m.cfg.disconnect_window_ms <= u64::MAX,
    ensures
        model::datagram_step(m, now_ms, path, bytes).machine.disconnect_deadline_ms matches Some(
            deadline,
        ) && deadline == now_ms + m.cfg.disconnect_window_ms,
{
    lemma_frame_keeps(m, now_ms, path, bytes);
}

/// That an input leaves the end of a session where it is: neither a datagram nor the
/// server's MSR timer.
pub open spec fn is_silent(input: Input) -> bool {
    match input {
        Input::Datagram { .. } => false,
        Input::Timer { id, .. } => id != TimerId::ServerMsr,
        _ => true,
    }
}

proof fn lemma_silent_input(m: MachineView, input: Input)
    requires
        is_silent(input),
    ensures
        life::input_step(m, input).machine.disconnect_deadline_ms == m.disconnect_deadline_ms,
{
    reveal(life::input_step);
}

proof fn lemma_silence_keeps_the_deadline(m: MachineView, inputs: Seq<Input>)
    requires
        forall|i: int| #![trigger inputs[i]] 0 <= i < inputs.len() ==> is_silent(inputs[i]),
    ensures
        life::lived(m, inputs).disconnect_deadline_ms == m.disconnect_deadline_ms,
    decreases inputs.len(),
{
    if inputs.len() > 0 {
        let earlier = inputs.drop_last();
        assert forall|i: int| #![trigger earlier[i]] 0 <= i < earlier.len() implies is_silent(
            earlier[i],
        ) by {
            assert(earlier[i] == inputs[i]);
        }
        lemma_silence_keeps_the_deadline(m, earlier);
        assert(is_silent(inputs[inputs.len() - 1]));
        lemma_silent_input(life::lived(m, earlier), inputs.last());
    }
}

/// A session from which a frame was heard less than a disconnect window ago is not
/// ended: whatever its side did since, the disconnect timer changes and reports
/// nothing and is set again for the end of the window. From then on it ends it.
pub proof fn law_live_session_is_not_ended(
    m: MachineView,
    heard_ms: u64,
    path: u32,
    bytes: Seq<u8>,
    since: Seq<Input>,
    now_ms: u64,
)
    requires
        serving::is_for(m, bytes),
        heard_ms + m.cfg.disconnect_window_ms <= u64::MAX,
        forall|i: int| #![trigger since[i]] 0 <= i < since.len() ==> is_silent(since[i]),
    ensures
        ({
            let heard = model::datagram_step(m, heard_ms, path, bytes).machine;
            let before = life::lived(heard, since);
            let step = model::timer_step(before, now_ms, TimerId::Disconnect);
            let deadline = heard_ms + m.cfg.disconnect_window_ms;
            &&& step.error is None
            &&& step.out.outbound_datagrams.len() == 0
            &&& if now_ms < deadline || before.state == LifecycleState::Lost {
                &&& step.machine == before
                &&& step.out.events.len() == 0
                &&& step.out.timer_actions.len() == 1
                &&& step.out.timer_actions[0] == (TimerAction::Schedule {
                    id: TimerId::Disconnect,
                    deadline_ms: deadline as u64,
                })
            } else {
                &&& step.machine == (MachineView { state: LifecycleState::Lost, ..before })
                &&& step.out.events == seq![EventView::Disconnected]
                &&& step.out.timer_actions.len() == 0
            }
        }),
{
    let heard = model::datagram_step(m, heard_ms, path, bytes).machine;
    let before = life::lived(heard, since);
    lemma_frame_keeps(m, heard_ms, path, bytes);
    lemma_silence_keeps_the_deadline(heard, since);
    let step = model::timer_step(before, now_ms, TimerId::Disconnect);
    if step.out.events.len() > 0 {
        assert(step.out.events =~= seq![EventView::Disconnected]);
    }
}

/// Before anything was heard there is no end, and the disconnect timer does nothing.
pub proof fn law_session_without_deadline_is_not_ended(m: MachineView, now_ms: u64)
    requires
        m.disconnect_deadline_ms is None,
    ensures
        ({
            let step = model::timer_step(m, now_ms, TimerId::Disconnect);
            &&& step.machine == m
            &&& step.error is None
            &&& step.out == OutputView::empty()
        }),
{
}

/// A server's MSR timer: while fewer than eight went unanswered, it tells on the
/// session's path what it has received, moves the end and sets both timers again;
/// then it gives the session up. On anything but a server that stands it does
/// nothing.
pub proof fn law_server_speaks_up_regularly(m: MachineView, now_ms: u64)
    requires
        now_ms + m.cfg.disconnect_window_ms <= u64::MAX,
        now_ms + m.cfg.msr_interval_ms <= u64::MAX,
    ensures
        ({
            let step = model::timer_step(m, now_ms, TimerId::ServerMsr);
            let unanswered = m.server_consecutive_msr_without_client_msr;
            &&& step.error is None
            &&& if m.role != Role::Server || m.state != LifecycleState::Established {
                step.machine == m && step.out == OutputView::empty()
            } else if unanswered < 8 {
                &&& step.machine.server_consecutive_msr_without_client_msr == unanswered + 1
                &&& step.machine == (MachineView {
                    server_consecutive_msr_without_client_msr: (unanswered + 1) as u32,
                    disconnect_deadline_ms: Some((now_ms + m.cfg.disconnect_window_ms) as u64),
                    ..m
                })
                &&& step.out.events.len() == 0
                &&& step.out.outbound_datagrams.len() == 1
                &&& step.out.outbound_datagrams[0].path_id == m.current_path_id
                &&& serving::reads_as(
                    step.out.outbound_datagrams[0].bytes,
                    MessageType::Msr,
                    m.cid,
                    serving::two_numbers(m.last_ordered_rx as int, 0),
                    Seq::empty(),
                )
                &&& step.out.timer_actions == seq![
                    TimerAction::Schedule {
                        id: TimerId::ServerMsr,
                        deadline_ms: (now_ms + m.cfg.msr_interval_ms) as u64,
                    },
                    TimerAction::Schedule {
                        id: TimerId::Disconnect,
                        deadline_ms: (now_ms + m.cfg.disconnect_window_ms) as u64,
                    },
                ]
            } else {
                &&& step.machine.state == LifecycleState::Lost
                &&& step.out.events == seq![EventView::Disconnected]
                &&& step.out.outbound_datagrams.len() == 0
                &&& step.out.timer_actions.len() == 0
            }
        }),
{
    let step = model::timer_step(m, now_ms, TimerId::ServerMsr);
    laws::lemma_pair_len(m.last_ordered_rx, 0);
    laws::lemma_core_frame_read(
        MessageType::Msr,
        m.cid,
        codec::pair_bytes(m.last_ordered_rx, 0),
        Seq::empty(),
    );
    if m.role == Role::Server && m.state == LifecycleState::Established {
        if m.server_consecutive_msr_without_client_msr < 8 {
            assert(step.out.timer_actions =~= seq![
                TimerAction::Schedule {
                    id: TimerId::ServerMsr,
                    deadline_ms: (now_ms + m.cfg.msr_interval_ms) as u64,
                },
                TimerAction::Schedule {
                    id: TimerId::Disconnect,
                    deadline_ms: (now_ms + m.cfg.disconnect_window_ms) as u64,
                },
            ]);
        } else {
            assert(step.out.events =~= seq![EventView::Disconnected]);
        }
    }
}

/// A client's probe timer: if nothing was heard of the server for longer than as many
/// MSR intervals as may be missed, it asks for the session to be revived on its path;
/// else it is only set again.
pub proof fn law_client_probes_after_the_miss_window(m: MachineView, now_ms: u64)
    requires
        m.next_outbound_id >= 1,
        now_ms + m.cfg.msr_interval_ms <= u64::MAX,
    ensures
        ({
            let step = model::timer_step(m, now_ms, TimerId::ClientProbe);
            let heard = match m.last_server_msr_at_ms {
                Some(at) => at as int,
                None => 0,
            };
            let missed = now_ms > heard + m.cfg.msr_interval_ms * m.cfg.miss_window_count;
            let stands = m.state == LifecycleState::Established || m.state
                == LifecycleState::Reactivating;
            &&& step.error is None
            &&& if m.role != Role::Client || !stands {
                step.machine == m && step.out == OutputView::empty()
            } else {
                &&& step.out.timer_actions == seq![
                    TimerAction::Schedule {
                        id: TimerId::ClientProbe,
                        deadline_ms: (now_ms + m.cfg.msr_interval_ms) as u64,
                    },
                ]
                &&& if missed {
                    &&& step.machine == (MachineView { state: LifecycleState::Reactivating, ..m })
                    &&& step.out.events == seq![EventView::ReactivationProbeSent]
                    &&& step.out.outbound_datagrams.len() == 1
                    &&& step.out.outbound_datagrams[0].path_id == m.current_path_id
                    &&& serving::reads_as(
                        step.out.outbound_datagrams[0].bytes,
                        MessageType::Msr,
                        m.cid,
                        serving::two_numbers(0, m.next_outbound_id - 1),
                        Seq::empty(),
                    )
                } else {
                    &&& step.machine == m
                    &&& step.out.events.len() == 0
                    &&& step.out.outbound_datagrams.len() == 0
                }
            }
        }),
{
    let step = model::timer_step(m, now_ms, TimerId::ClientProbe);
    let queue = (m.next_outbound_id - 1) as u64;
    laws::lemma_pair_len(0, queue);
    laws::lemma_core_frame_read(
        MessageType::Msr,
        m.cid,
        codec::pair_bytes(0, queue),
        Seq::empty(),
    );
    if model::client_is_live(m) {
        assert(step.out.timer_actions =~= seq![
            TimerAction::Schedule {
                id: TimerId::ClientProbe,
                deadline_ms: (now_ms + m.cfg.msr_interval_ms) as u64,
            },
        ]);
        if step.out.events.len() > 0 {
            assert(step.out.events =~= seq![EventView::ReactivationProbeSent]);
        }
    }
}

/// A client that stands and has heard any frame within the miss window does not
/// probe.
pub proof fn law_heard_server_is_not_probed(
    m: MachineView,
    heard_ms: u64,
    path: u32,
    bytes: Seq<u8>,
    now_ms: u64,
)
    requires
        serving::is_for(m, bytes),
        m.role == Role::Client,
        m.state == LifecycleState::Established,
        ({
            let cfg = model::datagram_step(m, heard_ms, path, bytes).machine.cfg;
            now_ms <= heard_ms + cfg.msr_interval_ms * cfg.miss_window_count
        }),
    ensures
        ({
            let heard = model::datagram_step(m, heard_ms, path, bytes).machine;
            let step = model::timer_step(heard, now_ms, TimerId::ClientProbe);
            &&& step.machine == heard
            &&& step.out.events.len() == 0
            &&& step.out.outbound_datagrams.len() == 0
        }),
{
    lemma_frame_keeps(m, heard_ms, path, bytes);
}

/// Which state a frame of the session leaves it in. It is lost with a close or an
/// error, stands after the hello that it waits for or, while a client revives it, with
/// any news of the server, and else is as it was.
pub proof fn law_frames_change_the_state_only_so(
    m: MachineView,
    now_ms: u64,
    path: u32,
    bytes: Seq<u8>,
)
    requires
        serving::is_for(m, bytes),
        model::datagram_step(m, now_ms, path, bytes).error is None,
    ensures
        ({
            let frame = wire::parse_frame(bytes)->Ok_0;
            let step = model::datagram_step(m, now_ms, path, bytes);
            let kind = frame.message_type;
            let greeted = if m.role == Role::Server {
                m.state == LifecycleState::PreHandshake && (kind == MessageType::ClientHello
                    || kind == MessageType::HelloAck)
            } else {
                kind == MessageType::ServerHello && (m.state == LifecycleState::PreHandshake
                    || m.state == LifecycleState::Reactivating)
            };
            let revived = m.role == Role::Client && m.state == LifecycleState::Reactivating && (kind
                == MessageType::Msr || codec::msr_signal_of(frame.tlvs) is Some);
            step.machine.state == if kind == MessageType::Close || kind == MessageType::Error {
                LifecycleState::Lost
            } else if greeted || revived {
                LifecycleState::Established
            } else {
                m.state
            }
        }),
{
    let frame = wire::parse_frame(bytes)->Ok_0;
    let none = OutputView::empty();
    let m1 = laws::met(m, now_ms, path);
    laws::lemma_tlvs_keep_state(m1, path, frame.tlvs, none);
    let id = big_endian::be_value(frame.payload.subrange(0, 8)) as u64;
    let idx = big_endian::be_value(frame.payload.subrange(8, 10)) as u16;
    let total = big_endian::be_value(frame.payload.subrange(10, 12)) as u16;
    let fragments = model::fragment_added(m1, id, idx, total, frame.payload.skip(12));
    laws::lemma_flush_keeps(model::message_completed(m1, id, frame.payload.skip(8)), none);
    laws::lemma_flush_keeps(
        model::message_completed(m1, id, model::joined(fragments.chunks, total as nat)),
        none,
    );
}

/// The hello that a server waits for makes it stand, is answered on its path if it is
/// the client's first word, and sets both timers.
pub proof fn law_server_answers_the_hello(
    m: MachineView,
    now_ms: u64,
    path: u32,
    bytes: Seq<u8>,
)
    requires
        m.next_outbound_id >= 1,
        serving::is_for(m, bytes),
        m.role == Role::Server,
        m.state == LifecycleState::PreHandshake,
        wire::parse_frame(bytes)->Ok_0.message_type == MessageType::ClientHello
            || wire::parse_frame(bytes)->Ok_0.message_type == MessageType::HelloAck,
        now_ms + m.cfg.disconnect_window_ms <= u64::MAX,
        now_ms + m.cfg.msr_interval_ms <= u64::MAX,
    ensures
        ({
            let frame = wire::parse_frame(bytes)->Ok_0;
            let step = model::datagram_step(m, now_ms, path, bytes);
            &&& step.error is None
            &&& step.machine.state == LifecycleState::Established
            &&& step.out.events.len() > 0
            &&& step.out.events[0] == EventView::HandshakeEstablished
            &&& step.out.timer_actions == seq![
                TimerAction::Schedule {
                    id: TimerId::ServerMsr,
                    deadline_ms: (now_ms + m.cfg.msr_interval_ms) as u64,
                },
                TimerAction::Schedule {
                    id: TimerId::Disconnect,
                    deadline_ms: (now_ms + m.cfg.disconnect_window_ms) as u64,
                },
            ]
            &&& frame.message_type == MessageType::ClientHello ==> {
                &&& step.out.outbound_datagrams.len() > 0
                &&& step.out.outbound_datagrams[0].path_id == path
                &&& serving::reads_as(
                    step.out.outbound_datagrams[0].bytes,
                    MessageType::ServerHello,
                    m.cid,
                    Seq::empty(),
                    Seq::empty(),
                )
            }
            &&& codec::msr_signal_of(frame.tlvs) is None ==> step.out.events.len() == 1
                && step.out.outbound_datagrams.len() == if frame.message_type
                == MessageType::ClientHello {
                1int
            } else {
                0int
            }
        }),
{
    let frame = wire::parse_frame(bytes)->Ok_0;
    let m1 = laws::met(m, now_ms, path);
    let step = model::datagram_step(m, now_ms, path, bytes);
    laws::lemma_core_frame_read(MessageType::ServerHello, m.cid, Seq::empty(), Seq::empty());
    let s1 = model::frame_step(m1, now_ms, path, frame, OutputView::empty());
    if let Some((_, queued)) = codec::msr_signal_of(frame.tlvs) {
        serving::lemma_signal_sends(s1.machine, now_ms, path, queued, false, s1.out);
    }
    assert(step.out.timer_actions =~= seq![
        TimerAction::Schedule {
            id: TimerId::ServerMsr,
            deadline_ms: (now_ms + m.cfg.msr_interval_ms) as u64,
        },
        TimerAction::Schedule {
            id: TimerId::Disconnect,
            deadline_ms: (now_ms + m.cfg.disconnect_window_ms) as u64,
        },
    ]);
}

/// The server's hello makes a client stand that waits for it, is acknowledged on its
/// path, and sets both timers.
pub proof fn law_client_acknowledges_the_hello(
    m: MachineView,
    now_ms: u64,
    path: u32,
    bytes: Seq<u8>,
)
    requires
        m.next_outbound_id >= 1,
        serving::is_for(m, bytes),
        m.role == Role::Client,
        m.state == LifecycleState::PreHandshake || m.state == LifecycleState::Reactivating,
        wire::parse_frame(bytes)->Ok_0.message_type == MessageType::ServerHello,
        now_ms + m.cfg.disconnect_window_ms <= u64::MAX,
        now_ms + m.cfg.msr_interval_ms <= u64::MAX,
    ensures
        ({
            let frame = wire::parse_frame(bytes)->Ok_0;
            let step = model::datagram_step(m, now_ms, path, bytes);
            &&& step.error is None
            &&& step.machine.state == LifecycleState::Established
            &&& step.machine.last_server_msr_at_ms == Some(now_ms)
            &&& step.machine.client_server_msr_rx_since_last_keepalive == 0
            &&& step.out.events.len() > 0
            &&& step.out.events[0] == if m.state == LifecycleState::Reactivating {
                EventView::Reactivated
            } else {
                EventView::HandshakeEstablished
            }
            &&& step.out.timer_actions == seq![
                TimerAction::Schedule {
                    id: TimerId::ClientProbe,
                    deadline_ms: (now_ms + m.cfg.msr_interval_ms) as u64,
                },
                TimerAction::Schedule {
                    id: TimerId::Disconnect,
                    deadline_ms: (now_ms + m.cfg.disconnect_window_ms) as u64,
                },
            ]
            &&& step.out.outbound_datagrams.len() > 0
            &&& step.out.outbound_datagrams[0].path_id == path
            &&& serving::reads_as(
                step.out.outbound_datagrams[0].bytes,
                MessageType::HelloAck,
                m.cid,
                Seq::empty(),
                Seq::empty(),
            )
            &&& codec::msr_signal_of(frame.tlvs) is None ==> step.out.events.len() == 1
                && step.out.outbound_datagrams.len() == 1
        }),
{
    let frame = wire::parse_frame(bytes)->Ok_0;
    let m1 = laws::met(m, now_ms, path);
    let step = model::datagram_step(m, now_ms, path, bytes);
    laws::lemma_core_frame_read(MessageType::HelloAck, m.cid, Seq::empty(), Seq::empty());
    let s1 = model::frame_step(m1, now_ms, path, frame, OutputView::empty());
    if let Some((_, queued)) = codec::msr_signal_of(frame.tlvs) {
        serving::lemma_signal_sends(s1.machine, now_ms, path, queued, false, s1.out);
    }
    assert(step.out.timer_actions =~= seq![
        TimerAction::Schedule {
            id: TimerId::ClientProbe,
            deadline_ms: (now_ms + m.cfg.msr_interval_ms) as u64,
        },
        TimerAction::Schedule {
            id: TimerId::Disconnect,
            deadline_ms: (now_ms + m.cfg.disconnect_window_ms) as u64,
        },
    ]);
}

/// A client's handshake opens with its hello on the current path; a server's with
/// nothing. Neither changes the machine.
pub proof fn law_only_the_client_speaks_first(m: MachineView)
    ensures
        ({
            let step = model::begin_step(m);
            &&& step.machine == m
            &&& step.error is None
            &&& step.out.timer_actions.len() == 0
            &&& if m.role == Role::Client {
                &&& step.out.events == seq![EventView::HandshakeStarted]
                &&& step.out.outbound_datagrams.len() == 1
                &&& step.out.outbound_datagrams[0].path_id == m.current_path_id
                &&& serving::reads_as(
                    step.out.outbound_datagrams[0].bytes,
                    MessageType::ClientHello,
                    m.cid,
                    Seq::empty(),
                    Seq::empty(),
                )
            } else {
                step.out.events.len() == 0 && step.out.outbound_datagrams.len() == 0
            }
        }),
{
    let step = model::begin_step(m);
    laws::lemma_core_frame_read(MessageType::ClientHello, m.cid, Seq::empty(), Seq::empty());
    if m.role == Role::Client {
        assert(step.out.events =~= seq![EventView::HandshakeStarted]);
    }
}

/// A session is closed once: with a close on its path, after which it is lost. A lost
/// one says nothing more.
pub proof fn law_close_is_told_once(m: MachineView)
    ensures
        ({
            let step = model::close_step(m);
            &&& step.error is None
            &&& step.machine == (MachineView { state: LifecycleState::Lost, ..m })
            &&& step.out.timer_actions.len() == 0
            &&& if m.state == LifecycleState::Lost {
                step.out.events.len() == 0 && step.out.outbound_datagrams.len() == 0
            } else {
                &&& step.out.events == seq![EventView::Disconnected]
                &&& step.out.outbound_datagrams.len() == 1
                &&& step.out.outbound_datagrams[0].path_id == m.current_path_id
                &&& serving::reads_as(
                    step.out.outbound_datagrams[0].bytes,
                    MessageType::Close,
                    m.cid,
                    Seq::empty(),
                    Seq::empty(),
                )
            }
        }),
{
    let step = model::close_step(m);
    laws::lemma_core_frame_read(MessageType::Close, m.cid, Seq::empty(), Seq::empty());
    if m.state != LifecycleState::Lost {
        assert(step.out.events =~= seq![EventView::Disconnected]);
    }
}

/// That all datagrams go out on one path.
pub open spec fn all_on(datagrams: Seq<DatagramView>, path: u32) -> bool {
    forall|k: int| #![trigger datagrams[k]] 0 <= k < datagrams.len() ==> datagrams[k].path_id == path
}

proof fn lemma_range_on(m: MachineView, path: u32, start: int, end: int)
    ensures
        model::range_datagrams(m, path, start, end) matches Some(sent) ==> all_on(sent, path),
    decreases end - start + 1,
{
    if start <= end {
        lemma_range_on(m, path, start + 1, end);
    }
}

proof fn lemma_tlvs_on(m: MachineView, path: u32, tlvs: Seq<TlvView>, out: OutputView)
    requires
        all_on(out.outbound_datagrams, path),
    ensures
        all_on(model::msr_tlvs_step(m, path, tlvs, out).out.outbound_datagrams, path),
    decreases tlvs.len(),
{
    if tlvs.len() > 0 {
        let first = model::msr_tlv_step(m, path, tlvs[0], out);
        lemma_tlvs_on(first.machine, path, tlvs.skip(1), first.out);
    }
}

/// What a datagram is answered with goes out on the path it came on, which is the
/// session's path from then on. What a session says of itself goes out on its path,
/// which only a datagram or a change of the path itself moves.
pub proof fn law_sessions_speak_on_their_path(
    m: MachineView,
    now_ms: u64,
    path: u32,
    bytes: Seq<u8>,
    timer: TimerId,
    payload: Seq<u8>,
    proposal: TimerProposal,
    to: u32,
)
    ensures
        serving::is_for(m, bytes) ==> model::datagram_step(m, now_ms, path, bytes).machine.current_path_id
            == path,
        all_on(model::datagram_step(m, now_ms, path, bytes).out.outbound_datagrams, path),
        model::timer_step(m, now_ms, timer).machine.current_path_id == m.current_path_id,
        all_on(model::timer_step(m, now_ms, timer).out.outbound_datagrams, m.current_path_id),
        model::send_step(m, payload).machine.current_path_id == m.current_path_id,
        all_on(model::send_step(m, payload).out.outbound_datagrams, m.current_path_id),
        model::propose_step(m, now_ms, proposal).machine.current_path_id == m.current_path_id,
        all_on(model::propose_step(m, now_ms, proposal).out.outbound_datagrams, m.current_path_id),
        model::close_step(m).machine.current_path_id == m.current_path_id,
        all_on(model::close_step(m).out.outbound_datagrams, m.current_path_id),
        all_on(model::begin_step(m).out.outbound_datagrams, m.current_path_id),
        model::path_step(m, PathEvent::PathChanged { path_id: to }).machine == (MachineView {
            current_path_id: to,
            ..m
        }),
        model::path_step(m, PathEvent::PathChanged { path_id: to }).out == OutputView::empty(),
{
    if serving::is_for(m, bytes) {
        lemma_frame_keeps(m, now_ms, path, bytes);
        let frame = wire::parse_frame(bytes)->Ok_0;
        let none = OutputView::empty();
        let m1 = laws::met(m, now_ms, path);
        lemma_tlvs_on(m1, path, frame.tlvs, none);
        if let Some((start, end)) = codec::pair_of(frame.payload) {
            lemma_range_on(m1, path, start as int, end as int);
        }
        let id = big_endian::be_value(frame.payload.subrange(0, 8)) as u64;
        let idx = big_endian::be_value(frame.payload.subrange(8, 10)) as u16;
        let total = big_endian::be_value(frame.payload.subrange(10, 12)) as u16;
        let fragments = model::fragment_added(m1, id, idx, total, frame.payload.skip(12));
        laws::lemma_flush_keeps(model::message_completed(m1, id, frame.payload.skip(8)), none);
        laws::lemma_flush_keeps(
            model::message_completed(m1, id, model::joined(fragments.chunks, total as nat)),
            none,
        );
    }
}

/// A client counts the MSRs of the server that bring no records and answers every
/// fourth, on its path.
pub proof fn law_client_answers_every_fourth_msr(
    m: MachineView,
    now_ms: u64,
    path: u32,
    bytes: Seq<u8>,
)
    requires
        m.next_outbound_id >= 1,
        serving::is_for(m, bytes),
        m.role == Role::Client,
        wire::parse_frame(bytes)->Ok_0.message_type == MessageType::Msr,
        wire::parse_frame(bytes)->Ok_0.tlvs.len() == 0,
        wire::parse_frame(bytes)->Ok_0.payload.len() >= 16,
    ensures
        ({
            let step = model::datagram_step(m, now_ms, path, bytes);
            let sent = step.out.outbound_datagrams;
            let count = m.client_server_msr_rx_since_last_keepalive;
            &&& step.error is None
            &&& step.machine.last_server_msr_at_ms == Some(now_ms)
            &&& step.machine.client_server_msr_rx_since_last_keepalive == if count < 3 {
                count + 1
            } else {
                0
            }
            &&& count >= 3 ==> {
                &&& sent.len() > 0
                &&& serving::reads_as(
                    sent[0].bytes,
                    MessageType::Msr,
                    m.cid,
                    serving::two_numbers(m.last_ordered_rx as int, m.next_outbound_id - 1),
                    Seq::empty(),
                )
            }
            &&& count < 3 && sent.len() > 0 ==> {
                &&& sent.len() == 1
                &&& wire::parse_frame(sent[0].bytes) matches Ok(frame)
                &&& frame.message_type == MessageType::RequestRange
            }
        }),
{
    let frame = wire::parse_frame(bytes)->Ok_0;
    let m1 = laws::met(m, now_ms, path);
    let none = OutputView::empty();
    assert(model::msr_tlvs_step(m1, path, frame.tlvs, none) == model::done(m1, none));
    let (_, queued) = codec::pair_of(frame.payload)->0;
    serving::lemma_signal_sends(m1, now_ms, path, queued, true, none);
}

/// A frame sets timers only with the hello that a session waits for; what a session
/// says of itself sets none but its own timers.
pub proof fn law_only_the_handshake_sets_timers(
    m: MachineView,
    now_ms: u64,
    path: u32,
    bytes: Seq<u8>,
)
    requires
        ({
            let greeted = wire::parse_frame(bytes) matches Ok(frame) && if m.role == Role::Server {
                m.state == LifecycleState::PreHandshake && (frame.message_type
                    == MessageType::ClientHello || frame.message_type == MessageType::HelloAck)
            } else {
                frame.message_type == MessageType::ServerHello && (m.state
                    == LifecycleState::PreHandshake || m.state == LifecycleState::Reactivating)
            };
            !greeted
        }),
    ensures
        model::datagram_step(m, now_ms, path, bytes).out.timer_actions.len() == 0,
{
    if serving::is_for(m, bytes) {
        let frame = wire::parse_frame(bytes)->Ok_0;
        let none = OutputView::empty();
        let m1 = laws::met(m, now_ms, path);
        lemma_tlvs_set_no_timers(m1, path, frame.tlvs, none);
        let id = big_endian::be_value(frame.payload.subrange(0, 8)) as u64;
        let idx = big_endian::be_value(frame.payload.subrange(8, 10)) as u16;
        let total = big_endian::be_value(frame.payload.subrange(10, 12)) as u16;
        let fragments = model::fragment_added(m1, id, idx, total, frame.payload.skip(12));
        laws::lemma_flush_keeps(model::message_completed(m1, id, frame.payload.skip(8)), none);
        laws::lemma_flush_keeps(
            model::message_completed(m1, id, model::joined(fragments.chunks, total as nat)),
            none,
        );
    }
}

proof fn lemma_tlvs_set_no_timers(
    m: MachineView,
    path: u32,
    tlvs: Seq<TlvView>,
    out: OutputView,
)
    ensures
        model::msr_tlvs_step(m, path, tlvs, out).out.timer_actions == out.timer_actions,
    decreases tlvs.len(),
{
    if tlvs.len() > 0 {
        let first = model::msr_tlv_step(m, path, tlvs[0], out);
        lemma_tlvs_set_no_timers(first.machine, path, tlvs.skip(1), first.out);
    }
}

/// A close or an error of the peer ends the session and is reported, once more each
/// time.
pub proof fn law_close_and_error_end_the_session(
    m: MachineView,
    now_ms: u64,
    path: u32,
    bytes: Seq<u8>,
)
    requires
        serving::is_for(m, bytes),
        wire::parse_frame(bytes)->Ok_0.message_type == MessageType::Close
            || wire::parse_frame(bytes)->Ok_0.message_type == MessageType::Error,
    ensures
        ({
            let step = model::datagram_step(m, now_ms, path, bytes);
            &&& step.error is None
            &&& step.machine.state == LifecycleState::Lost
            &&& step.out.events == seq![EventView::Disconnected]
            &&& step.out.outbound_datagrams.len() == 0
        }),
{
    let step = model::datagram_step(m, now_ms, path, bytes);
    assert(step.out.events =~= seq![EventView::Disconnected]);
}

/// Whatever tells a client of the server's queue counts as having heard it. Only MSRs in
/// frames of their own count towards its keepalive.
pub proof fn law_news_counts_as_heard(m: MachineView, now_ms: u64, path: u32, bytes: Seq<u8>)
    requires
        serving::is_for(m, bytes),
        m.role == Role::Client,
        model::datagram_step(m, now_ms, path, bytes).error is None,
    ensures
        ({
            let frame = wire::parse_frame(bytes)->Ok_0;
            let after = model::datagram_step(m, now_ms, path, bytes).machine;
            let greeted = frame.message_type == MessageType::ServerHello && (m.state
                == LifecycleState::PreHandshake || m.state == LifecycleState::Reactivating);
            let told = serving::told_queue(frame) is Some;
            &&& after.last_server_msr_at_ms == if told || greeted || m.state
                == LifecycleState::Established {
                Some(now_ms)
            } else {
                m.last_server_msr_at_ms
            }
            &&& frame.message_type != MessageType::Msr
                ==> after.client_server_msr_rx_since_last_keepalive == if greeted {
                0
            } else {
                m.client_server_msr_rx_since_last_keepalive
            }
        }),
{
    let frame = wire::parse_frame(bytes)->Ok_0;
    let none = OutputView::empty();
    let m1 = laws::met(m, now_ms, path);
    laws::lemma_tlvs_keep_state(m1, path, frame.tlvs, none);
    let id = big_endian::be_value(frame.payload.subrange(0, 8)) as u64;
    let idx = big_endian::be_value(frame.payload.subrange(8, 10)) as u16;
    let total = big_endian::be_value(frame.payload.subrange(10, 12)) as u16;
    let fragments = model::fragment_added(m1, id, idx, total, frame.payload.skip(12));
    laws::lemma_flush_keeps(model::message_completed(m1, id, frame.payload.skip(8)), none);
    laws::lemma_flush_keeps(
        model::message_completed(m1, id, model::joined(fragments.chunks, total as nat)),
        none,
    );
}

/// A message that comes in, whole or in part, is answered with nothing but a pull, and
/// reports nothing but what is handed over and pulled.
pub proof fn law_messages_are_answered_with_a_pull_only(
    m: MachineView,
    now_ms: u64,
    path: u32,
    bytes: Seq<u8>,
)
    requires
        m.next_outbound_id >= 1,
        serving::is_for(m, bytes),
        wire::parse_frame(bytes)->Ok_0.message_type == MessageType::Data || wire::parse_frame(
            bytes,
        )->Ok_0.message_type == MessageType::Fragment,
    ensures
        ({
            let sent = model::datagram_step(m, now_ms, path, bytes).out.outbound_datagrams;
            &&& sent.len() <= 1
            &&& sent.len() == 1 ==> {
                &&& wire::parse_frame(sent[0].bytes) matches Ok(frame)
                &&& frame.message_type == MessageType::RequestRange
            }
        }),
{
    let frame = wire::parse_frame(bytes)->Ok_0;
    let none = OutputView::empty();
    let m1 = laws::met(m, now_ms, path);
    let id = big_endian::be_value(frame.payload.subrange(0, 8)) as u64;
    let idx = big_endian::be_value(frame.payload.subrange(8, 10)) as u16;
    let total = big_endian::be_value(frame.payload.subrange(10, 12)) as u16;
    let fragments = model::fragment_added(m1, id, idx, total, frame.payload.skip(12));
    laws::lemma_flush_keeps(model::message_completed(m1, id, frame.payload.skip(8)), none);
    laws::lemma_flush_keeps(
        model::message_completed(m1, id, model::joined(fragments.chunks, total as nat)),
        none,
    );
    let s1 = model::frame_step(m1, now_ms, path, frame, none);
    if let Some((_, queued)) = codec::msr_signal_of(frame.tlvs) {
        serving::lemma_signal_sends(s1.machine, now_ms, path, queued, false, s1.out);
    }
}

/// The records of an MSR are taken one after the other, each in the state that the one
/// before left, up to the first that is refused.
pub proof fn law_records_are_taken_in_turn(
    m: MachineView,
    path: u32,
    first: TlvView,
    rest: Seq<TlvView>,
    out: OutputView,
)
    ensures
        ({
            let one = model::msr_tlv_step(m, path, first, out);
            let all = model::msr_tlvs_step(m, path, seq![first] + rest, out);
            &&& one.error is Some ==> all == one
            &&& one.error is None ==> all == model::msr_tlvs_step(one.machine, path, rest, one.out)
        }),
        model::msr_tlvs_step(m, path, Seq::empty(), out) == model::done(m, out),
{
    assert((seq![first] + rest).skip(1) =~= rest);
}

/// A hello that nobody waits for changes nothing of a session that stands but its path,
/// its end and the time of the last word, and is not answered.
pub proof fn law_repeated_hellos_are_quiet(m: MachineView, now_ms: u64, path: u32, bytes: Seq<u8>)
    requires
        serving::is_for(m, bytes),
        m.state == LifecycleState::Established || m.state == LifecycleState::Lost,
        ({
            let kind = wire::parse_frame(bytes)->Ok_0.message_type;
            kind == MessageType::ClientHello || kind == MessageType::ServerHello || kind
                == MessageType::HelloAck
        }),
        codec::msr_signal_of(wire::parse_frame(bytes)->Ok_0.tlvs) is None,
    ensures
        ({
            let step = model::datagram_step(m, now_ms, path, bytes);
            &&& step.error is None
            &&& step.out == OutputView::empty()
            &&& step.machine == (MachineView {
                current_path_id: path,
                disconnect_deadline_ms: step.machine.disconnect_deadline_ms,
                last_server_msr_at_ms: step.machine.last_server_msr_at_ms,
                server_consecutive_msr_without_client_msr:
                    step.machine.server_consecutive_msr_without_client_msr,
                ..m
            })
        }),
{
}

} // verus!
