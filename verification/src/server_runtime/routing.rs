//! What a server runtime makes of what its sessions ask for: datagrams go out on the
//! session's path, timers are set and fire, events are reported, records are kept.

use vstd::prelude::*;

use crate::base64_text;
use crate::server_runtime::model;
use crate::server_runtime::model::{Answers, ServerView};
use crate::server_runtime::types::{
    RuntimeEventView, ServerErrorView, ServerOutputView, ServerRuntimeMetrics, SessionView,
};
use crate::session::conduct;
use crate::session::model as session_model;
use crate::session::model::Step;
use crate::session::types::{
    CoreConfig, DatagramView, EventView, LifecycleState, Role, TimerAction, TimerId,
};
use crate::store::types::{EntryView, StoreCall, StoreErrorView};
use crate::text;
use crate::timers;
use crate::wire;
use crate::wire::MessageType;

verus! {

/// That datagrams were handed on as a machine asked for them: all of them, in order,
/// each on the path that the machine chose, or on the path of the call where it chose
/// none.
pub open spec fn keep_their_path(
    asked: Seq<DatagramView>,
    given: Seq<DatagramView>,
    call_path: u32,
) -> bool {
    &&& given.len() == asked.len()
    &&& forall|k: int|
        #![trigger given[k]]
        0 <= k < given.len() ==> {
            &&& given[k].bytes == asked[k].bytes
            &&& asked[k].path_id != 0 ==> given[k].path_id == asked[k].path_id
            &&& asked[k].path_id == 0 ==> given[k].path_id == call_path
        }
}

/// What comes out of a message to send is what the session's machine asks for, on the
/// path that the session is on.
pub proof fn law_message_goes_out_on_the_sessions_path(
    v: ServerView,
    cid: u64,
    payload: Seq<u8>,
    now_ms: u64,
    a: Answers,
)
    requires
        v.sessions.contains_key(cid),
        model::message_served(v, cid, payload, now_ms, a).result is Ok,
    ensures
        ({
            let core = v.sessions[cid].core;
            let out = model::message_served(v, cid, payload, now_ms, a).result->Ok_0;
            let step = session_model::send_step(core, payload);
            &&& keep_their_path(step.out.outbound_datagrams, out.outbound_datagrams, 0)
            &&& core.current_path_id != 0 ==> conduct::all_on(out.outbound_datagrams, core.current_path_id)
            &&& core.state == LifecycleState::Established ==> out.outbound_datagrams.len() == 1
        }),
{
    let core = v.sessions[cid].core;
    conduct::law_sessions_speak_on_their_path(
        core,
        now_ms,
        0,
        Seq::empty(),
        TimerId::Disconnect,
        payload,
        arbitrary(),
        0,
    );
}

/// What comes out of a due timer is what the session's machine asks for, on the path
/// that the session is on. The session is as the timer left it, and the timer is gone
/// from the queue.
pub proof fn law_timer_speaks_on_the_sessions_path(
    v: ServerView,
    now_ms: u64,
    due: (u64, u64, TimerId),
    a: Answers,
)
    requires
        v.sessions.contains_key(due.1),
        model::timer_served(v, now_ms, due, a).result is Ok,
    ensures
        ({
            let core = v.sessions[due.1].core;
            let served = model::timer_served(v, now_ms, due, a);
            let out = served.result->Ok_0;
            let step = session_model::timer_step(core, now_ms, due.2);
            &&& keep_their_path(step.out.outbound_datagrams, out.outbound_datagrams, 0)
            &&& core.current_path_id != 0 ==> conduct::all_on(out.outbound_datagrams, core.current_path_id)
            &&& if step.machine.state == LifecycleState::Lost {
                !served.runtime.sessions.contains_key(due.1)
            } else {
                &&& served.runtime.sessions.contains_key(due.1)
                &&& served.runtime.sessions[due.1].core == step.machine
            }
        }),
{
    let core = v.sessions[due.1].core;
    conduct::law_sessions_speak_on_their_path(
        core,
        now_ms,
        0,
        Seq::empty(),
        due.2,
        Seq::empty(),
        arbitrary(),
        0,
    );
}

/// What answers a datagram goes back where the datagram came from, and the session is
/// on that path from then on.
pub proof fn law_answers_go_back_where_they_came_from(
    v: ServerView,
    now_ms: u64,
    src_path_id: u32,
    bytes: Seq<u8>,
    a: Answers,
)
    requires
        wire::parse_frame(bytes) is Ok,
        model::datagram_served(v, now_ms, src_path_id, bytes, a).result is Ok,
    ensures
        ({
            let cid = wire::parse_frame(bytes)->Ok_0.cid;
            let served = model::datagram_served(v, now_ms, src_path_id, bytes, a);
            let out = served.result->Ok_0;
            &&& conduct::all_on(out.outbound_datagrams, src_path_id)
            &&& served.runtime.sessions.contains_key(cid) && (v.sessions.contains_key(cid)
                ==> v.sessions[cid].core.cid == cid)
                ==> served.runtime.sessions[cid].core.current_path_id == src_path_id
        }),
{
    let cid = wire::parse_frame(bytes)->Ok_0.cid;
    let core = model::ensured(v, cid, src_path_id, a).0.sessions[cid].core;
    conduct::law_sessions_speak_on_their_path(
        core,
        now_ms,
        src_path_id,
        bytes,
        TimerId::Disconnect,
        Seq::empty(),
        arbitrary(),
        0,
    );
}

/// After a client was last heard on a path, whatever its session sends of itself goes
/// out on that path: a message that is pushed, and what any of its timers brings.
pub proof fn law_pushes_follow_the_client(
    v: ServerView,
    heard_ms: u64,
    path: u32,
    bytes: Seq<u8>,
    heard: Answers,
    payload: Seq<u8>,
    timer: TimerId,
    deadline: u64,
    now_ms: u64,
    a: Answers,
)
    requires
        path != 0,
        wire::parse_frame(bytes) is Ok,
        model::datagram_served(v, heard_ms, path, bytes, heard).result is Ok,
        ({
            let cid = wire::parse_frame(bytes)->Ok_0.cid;
            v.sessions.contains_key(cid) ==> v.sessions[cid].core.cid == cid
        }),
    ensures
        ({
            let cid = wire::parse_frame(bytes)->Ok_0.cid;
            let v1 = model::datagram_served(v, heard_ms, path, bytes, heard).runtime;
            let pushed = model::message_served(v1, cid, payload, now_ms, a).result;
            let fired = model::timer_served(v1, now_ms, (deadline, cid, timer), a).result;
            &&& pushed matches Ok(out) ==> conduct::all_on(out.outbound_datagrams, path)
            &&& fired matches Ok(out) ==> conduct::all_on(out.outbound_datagrams, path)
        }),
{
    let cid = wire::parse_frame(bytes)->Ok_0.cid;
    let v1 = model::datagram_served(v, heard_ms, path, bytes, heard).runtime;
    law_answers_go_back_where_they_came_from(v, heard_ms, path, bytes, heard);
    if v1.sessions.contains_key(cid) {
        if model::message_served(v1, cid, payload, now_ms, a).result is Ok {
            law_message_goes_out_on_the_sessions_path(v1, cid, payload, now_ms, a);
        }
        if model::timer_served(v1, now_ms, (deadline, cid, timer), a).result is Ok {
            law_timer_speaks_on_the_sessions_path(v1, now_ms, (deadline, cid, timer), a);
        }
    }
}

/// That a queue has all the timers of another in the same places and, behind them, just
/// those that a session asked for.
pub open spec fn timers_added(
    before: Map<u64, Seq<(u64, TimerId)>>,
    after: Map<u64, Seq<(u64, TimerId)>>,
    cid: u64,
    actions: Seq<TimerAction>,
) -> bool {
    &&& forall|deadline: u64|
        #![trigger timers::slot(after, deadline)]
        {
            let old = timers::slot(before, deadline);
            let new = timers::slot(after, deadline);
            &&& old.len() <= new.len()
            &&& new.take(old.len() as int) == old
            &&& forall|k: int|
                #![trigger new[k]]
                old.len() <= k < new.len() ==> new[k].0 == cid && actions.contains(
                    TimerAction::Schedule { id: new[k].1, deadline_ms: deadline },
                )
        }
    &&& forall|i: int|
        #![trigger actions[i]]
        0 <= i < actions.len() ==> {
            let TimerAction::Schedule { id, deadline_ms } = actions[i];
            timers::slot(after, deadline_ms).skip(
                timers::slot(before, deadline_ms).len() as int,
            ).contains((cid, id))
        }
}

/// Every timer that a session asks for is set, in order, under its deadline and for that
/// session, and no other timer is touched.
pub proof fn law_asked_timers_are_set(
    queue: Map<u64, Seq<(u64, TimerId)>>,
    cid: u64,
    actions: Seq<TimerAction>,
)
    ensures
        timers_added(queue, model::timers_set(queue, cid, actions), cid, actions),
    decreases actions.len(),
{
    let after = model::timers_set(queue, cid, actions);
    if actions.len() == 0 {
        assert forall|deadline: u64| #![trigger timers::slot(after, deadline)] {
            let old = timers::slot(queue, deadline);
            old.take(old.len() as int) == old
        } by {
            let old = timers::slot(queue, deadline);
            assert(old.take(old.len() as int) =~= old);
        }
    } else {
        let earlier = actions.drop_last();
        let middle = model::timers_set(queue, cid, earlier);
        let TimerAction::Schedule { id, deadline_ms } = actions.last();
        law_asked_timers_are_set(queue, cid, earlier);
        assert forall|deadline: u64| #![trigger timers::slot(after, deadline)] {
            let old = timers::slot(queue, deadline);
            let new = timers::slot(after, deadline);
            &&& old.len() <= new.len()
            &&& new.take(old.len() as int) == old
            &&& forall|k: int|
                #![trigger new[k]]
                old.len() <= k < new.len() ==> new[k].0 == cid && actions.contains(
                    TimerAction::Schedule { id: new[k].1, deadline_ms: deadline },
                )
        } by {
            let old = timers::slot(queue, deadline);
            let mid = timers::slot(middle, deadline);
            let new = timers::slot(after, deadline);
            if deadline == deadline_ms {
                assert(new == mid.push((cid, id)));
            } else {
                assert(new == mid);
            }
            assert(new.take(old.len() as int) =~= mid.take(old.len() as int));
            assert forall|k: int| #![trigger new[k]] old.len() <= k < new.len() implies new[k].0
                == cid && actions.contains(
                TimerAction::Schedule { id: new[k].1, deadline_ms: deadline },
            ) by {
                let action = TimerAction::Schedule { id: new[k].1, deadline_ms: deadline };
                if k < mid.len() {
                    assert(new[k] == mid[k]);
                    assert(earlier.contains(action));
                    let at = choose|at: int| 0 <= at < earlier.len() && earlier[at] == action;
                    assert(actions[at] == action);
                } else {
                    assert(actions[actions.len() - 1] == action);
                }
            }
        }
        assert forall|i: int| #![trigger actions[i]] 0 <= i < actions.len() implies {
            let TimerAction::Schedule { id, deadline_ms } = actions[i];
            timers::slot(after, deadline_ms).skip(
                timers::slot(queue, deadline_ms).len() as int,
            ).contains((cid, id))
        } by {
            let TimerAction::Schedule { id: this, deadline_ms: deadline } = actions[i];
            let old = timers::slot(queue, deadline);
            let mid = timers::slot(middle, deadline);
            let new = timers::slot(after, deadline);
            let added = new.skip(old.len() as int);
            if i == actions.len() - 1 {
                assert(new == mid.push((cid, id)));
                assert(added[mid.len() - old.len()] == (cid, this));
            } else {
                assert(earlier[i] == actions[i]);
                let was = mid.skip(old.len() as int);
                assert(was.contains((cid, this)));
                let at = choose|at: int| 0 <= at < was.len() && was[at] == (cid, this);
                if deadline == deadline_ms {
                    assert(new == mid.push((cid, id)));
                } else {
                    assert(new == mid);
                }
                assert(added[at] == (cid, this));
            }
        }
    }
}

/// All timers that a session asks for, whatever brought it to that, are set when the
/// call succeeds.
pub proof fn law_calls_set_the_asked_timers(
    v: ServerView,
    cid: u64,
    src_path_id: u32,
    now_ms: u64,
    step: Step,
    a: Answers,
)
    requires
        step.error is None,
    ensures
        timers_added(
            v.timers,
            model::stepped(v, cid, src_path_id, now_ms, step, a).runtime.timers,
            cid,
            step.out.timer_actions,
        ),
{
    law_asked_timers_are_set(v.timers, cid, step.out.timer_actions);
}

/// Due timers are served one after the other: one more comes on top of what the others
/// came to, in the state they left, and after a failure no more are served.
pub proof fn law_due_timers_are_served_in_turn(
    v: ServerView,
    now_ms: u64,
    due: Seq<(u64, u64, TimerId)>,
    answers: Seq<Answers>,
    next: (u64, u64, TimerId),
    a: Answers,
)
    ensures
        ({
            let before = model::polled(v, now_ms, due, answers);
            let last = model::timer_served(before.runtime, now_ms, next, a);
            let all = model::polled(v, now_ms, due.push(next), answers.push(a));
            match before.result {
                Err(_) => all == before,
                Ok(out) => {
                    &&& all.runtime == last.runtime
                    &&& all.calls == before.calls + last.calls
                    &&& match last.result {
                        Err(e) => all.result == Err::<ServerOutputView, ServerErrorView>(e),
                        Ok(more) => {
                            &&& all.result is Ok
                            &&& all.result->Ok_0.outbound_datagrams == out.outbound_datagrams
                                + more.outbound_datagrams
                            &&& all.result->Ok_0.events == out.events + more.events
                        },
                    }
                },
            }
        }),
        ({
            let nothing = model::polled(v, now_ms, Seq::empty(), Seq::empty());
            &&& nothing.runtime == v
            &&& nothing.calls.len() == 0
            &&& nothing.result is Ok
            &&& nothing.result->Ok_0.outbound_datagrams.len() == 0
            &&& nothing.result->Ok_0.events.len() == 0
        }),
{
    assert(due.push(next).drop_last() =~= due);
    assert(answers.push(a).drop_last() =~= answers);
}

/// Every event of a session is reported in order with its session; right behind a
/// message that came in, its content as text.
pub proof fn law_events_are_reported_in_order(
    cid: u64,
    events: Seq<EventView>,
    more: Seq<EventView>,
    event: EventView,
)
    ensures
        model::all_reported(cid, events + more) == model::all_reported(cid, events)
            + model::all_reported(cid, more),
        model::all_reported(cid, Seq::empty()) == Seq::<RuntimeEventView>::empty(),
        model::all_reported(cid, seq![event])[0] == (RuntimeEventView::CoreEvent { cid, event }),
        !(event is MessageReceived) ==> model::all_reported(cid, seq![event]).len() == 1,
        event matches EventView::MessageReceived { msg_id, payload } ==> {
            &&& model::all_reported(cid, seq![event]).len() == 2
            &&& model::all_reported(cid, seq![event])[1] == (RuntimeEventView::MessageReceived {
                cid,
                msg_id,
                payload_b64: base64_text::base64_of(payload),
            })
        },
    decreases more.len(),
{
    reveal_with_fuel(model::all_reported, 2);
    assert(seq![event].drop_last() =~= Seq::empty());
    assert(model::all_reported(cid, seq![event]) =~= model::reported(cid, event));
    if more.len() == 0 {
        assert(events + more =~= events);
        assert(model::all_reported(cid, events) + model::all_reported(cid, more)
            =~= model::all_reported(cid, events));
    } else {
        law_events_are_reported_in_order(cid, events, more.drop_last(), event);
        assert((events + more).drop_last() =~= events + more.drop_last());
        assert((events + more).last() == more.last());
        assert(model::all_reported(cid, events + more) =~= model::all_reported(cid, events)
            + model::all_reported(cid, more));
    }
}

/// The record that is kept of a session tells who is at its other end, the runtime's
/// timers and the last message that it handed over.
pub proof fn law_record_tells_the_session(cfg: CoreConfig, cid: u64, session: SessionView)
    ensures
        ({
            let record = model::snapshot(cfg, cid, session);
            &&& record.cid == cid
            &&& record.peer_id == session.peer_id
            &&& record.negotiated_msr_interval_ms == cfg.msr_interval_ms
            &&& record.disconnect_window_ms == cfg.disconnect_window_ms
            &&& record.last_ordered_rx == session.core.last_ordered_rx
            &&& record.last_ordered_tx == 0
        }),
{
}

/// A session that is opened begins anew on the path of the call: with the timers and the
/// peer of its record if the store has one, else with the runtime's timers and the path
/// as its peer.
pub proof fn law_opened_session_begins_on_the_path(
    cfg: CoreConfig,
    cid: u64,
    src_path_id: u32,
    found: Option<EntryView>,
)
    ensures
        ({
            let session = model::opened(cfg, cid, src_path_id, found);
            &&& session.core == (session_model::MachineView {
                current_path_id: src_path_id,
                ..session_model::fresh(Role::Server, cid, session.core.cfg)
            })
            &&& session.bound_vhost is None
            &&& session.selected_path_id is None
            &&& session.sent_data_ids == Set::<u64>::empty()
            &&& session.core.cfg.miss_window_count == cfg.miss_window_count
            &&& match found {
                Some(entry) => {
                    &&& session.core.cfg.msr_interval_ms == entry.record.negotiated_msr_interval_ms
                    &&& session.core.cfg.disconnect_window_ms == entry.record.disconnect_window_ms
                    &&& session.peer_id == entry.record.peer_id
                },
                None => {
                    &&& session.core.cfg == cfg
                    &&& session.peer_id == "path:"@ + text::decimal(src_path_id as nat)
                },
            }
        }),
{
}

/// A session that the store cannot answer for is not opened, and the call fails with the
/// store's error. One whose deadlines cannot be told fails without another call.
pub proof fn law_failed_load_opens_nothing(
    v: ServerView,
    now_ms: u64,
    src_path_id: u32,
    bytes: Seq<u8>,
    a: Answers,
    error: StoreErrorView,
)
    requires
        wire::parse_frame(bytes) is Ok,
        !v.sessions.contains_key(wire::parse_frame(bytes)->Ok_0.cid),
        a.load == Err::<Option<EntryView>, StoreErrorView>(error),
    ensures
        ({
            let served = model::datagram_served(v, now_ms, src_path_id, bytes, a);
            &&& served.result == Err::<ServerOutputView, ServerErrorView>(
                ServerErrorView::Store(error),
            )
            &&& served.runtime.sessions == v.sessions
            &&& served.runtime.timers == v.timers
            &&& served.calls.len() == 1
        }),
{
}

/// A session's failure leaves it in the runtime as its machine is and is what the call
/// fails with; so is the store's failure to keep or to forget it.
pub proof fn law_failures_are_told(
    v: ServerView,
    cid: u64,
    src_path_id: u32,
    now_ms: u64,
    step: Step,
    a: Answers,
)
    requires
        v.sessions.contains_key(cid),
    ensures
        ({
            let served = model::stepped(v, cid, src_path_id, now_ms, step, a);
            let lost = step.machine.state == LifecycleState::Lost;
            match step.error {
                Some(e) => {
                    &&& served.result == Err::<ServerOutputView, ServerErrorView>(
                        ServerErrorView::Core(e),
                    )
                    &&& served.calls.len() == 0
                    &&& served.runtime.sessions.contains_key(cid)
                    &&& served.runtime.sessions[cid].core == step.machine
                },
                None => {
                    &&& served.calls.len() == 1
                    &&& served.runtime.sessions.contains_key(cid) == !lost
                    &&& served.result is Err <==> if lost {
                        a.delete is Err
                    } else {
                        a.upsert is Err
                    }
                    &&& lost ==> served.calls[0] == (StoreCall::Delete { cid, reply: a.delete })
                    &&& !lost ==> served.calls[0] is Upsert
                    &&& lost && a.delete is Err ==> served.result->Err_0 == ServerErrorView::Store(
                        a.delete->Err_0,
                    )
                    &&& !lost && a.upsert is Err ==> served.result->Err_0 == ServerErrorView::Store(
                        a.upsert->Err_0,
                    )
                },
            }
        }),
{
}

/// The runtime leaves all sessions alone but the one whose timer is due or that has a
/// message to send.
pub proof fn law_calls_reach_one_session(
    v: ServerView,
    now_ms: u64,
    due: (u64, u64, TimerId),
    cid: u64,
    payload: Seq<u8>,
    a: Answers,
    other: u64,
)
    ensures
        other != due.1 ==> {
            let after = model::timer_served(v, now_ms, due, a).runtime;
            &&& after.sessions.contains_key(other) == v.sessions.contains_key(other)
            &&& v.sessions.contains_key(other) ==> after.sessions[other] == v.sessions[other]
        },
        other != cid ==> {
            let after = model::message_served(v, cid, payload, now_ms, a).runtime;
            &&& after.sessions.contains_key(other) == v.sessions.contains_key(other)
            &&& v.sessions.contains_key(other) ==> after.sessions[other] == v.sessions[other]
        },
        v.sessions.contains_key(cid) && v.sessions[cid].core.state != LifecycleState::Lost ==> {
            let after = model::message_served(v, cid, payload, now_ms, a).runtime;
            &&& after.sessions.contains_key(cid)
            &&& after.sessions[cid].core == session_model::send_step(
                v.sessions[cid].core,
                payload,
            ).machine
            &&& after.sessions[cid].peer_id == v.sessions[cid].peer_id
        },
{
}

/// A session that is bound to a host tells so with each datagram that comes on the path
/// it is bound to, ahead of all other events.
pub proof fn law_bound_path_is_told(session: SessionView, cid: u64, src_path_id: u32)
    ensures
        ({
            let told = model::binding(session, cid, src_path_id);
            if session.bound_vhost is Some && session.selected_path_id == Some(src_path_id) {
                told == seq![
                    RuntimeEventView::VhostPathBound {
                        cid,
                        vhost: session.bound_vhost->0,
                        path_id: src_path_id,
                    },
                ]
            } else {
                told.len() == 0
            }
        }),
{
}

/// What answers a datagram is what the session's machine asks for about it: all its
/// datagrams in order, and all its events behind the news of the bound path.
pub proof fn law_datagram_brings_what_the_session_asks(
    v: ServerView,
    now_ms: u64,
    src_path_id: u32,
    bytes: Seq<u8>,
    a: Answers,
)
    requires
        wire::parse_frame(bytes) is Ok,
        model::datagram_served(v, now_ms, src_path_id, bytes, a).result is Ok,
    ensures
        ({
            let cid = wire::parse_frame(bytes)->Ok_0.cid;
            let session = if v.sessions.contains_key(cid) {
                v.sessions[cid]
            } else {
                model::opened(v.cfg, cid, src_path_id, a.load->Ok_0)
            };
            let step = session_model::datagram_step(session.core, now_ms, src_path_id, bytes);
            let out = model::datagram_served(v, now_ms, src_path_id, bytes, a).result->Ok_0;
            &&& step.error is None
            &&& keep_their_path(step.out.outbound_datagrams, out.outbound_datagrams, src_path_id)
            &&& out.events == model::binding(session, cid, src_path_id) + model::all_reported(
                cid,
                step.out.events,
            )
        }),
{
}

/// What comes of a timer and of a message to send is told event by event.
pub proof fn law_calls_bring_the_sessions_events(
    v: ServerView,
    cid: u64,
    payload: Seq<u8>,
    timer: TimerId,
    deadline: u64,
    now_ms: u64,
    a: Answers,
)
    requires
        v.sessions.contains_key(cid),
    ensures
        model::message_served(v, cid, payload, now_ms, a).result matches Ok(out) ==> out.events
            == model::all_reported(
            cid,
            session_model::send_step(v.sessions[cid].core, payload).out.events,
        ),
        model::timer_served(v, now_ms, (deadline, cid, timer), a).result matches Ok(out)
            ==> out.events == model::all_reported(
            cid,
            session_model::timer_step(v.sessions[cid].core, now_ms, timer).out.events,
        ),
        model::timer_served(v, now_ms, (deadline, cid, timer), a).runtime.metrics.parse_errors
            == v.metrics.parse_errors,
{
    lemma_parse_errors_stay(
        v.metrics,
        session_model::timer_step(v.sessions[cid].core, now_ms, timer).out.events,
    );
    let step = session_model::timer_step(v.sessions[cid].core, now_ms, timer);
    lemma_sending_leaves_parse_errors(
        model::Sent {
            metrics: model::events_counted(v.metrics, step.out.events),
            ids: Some(v.sessions[cid].sent_data_ids),
        },
        model::all_routed(step.out.outbound_datagrams, 0),
    );
}

proof fn lemma_parse_errors_stay(m: ServerRuntimeMetrics, events: Seq<EventView>)
    ensures
        model::events_counted(m, events).parse_errors == m.parse_errors,
    decreases events.len(),
{
    if events.len() > 0 {
        lemma_parse_errors_stay(m, events.drop_last());
    }
}

proof fn lemma_sending_leaves_parse_errors(s: model::Sent, datagrams: Seq<DatagramView>)
    ensures
        model::datagrams_counted(s, datagrams).metrics.parse_errors == s.metrics.parse_errors,
    decreases datagrams.len(),
{
    if datagrams.len() > 0 {
        lemma_sending_leaves_parse_errors(s, datagrams.drop_last());
    }
}

/// One more, unless it is the largest number.
pub open spec fn one_more(n: u64) -> int {
    if n < u64::MAX {
        n + 1
    } else {
        n as int
    }
}

/// The count after something that counts or does not.
pub open spec fn counted(n: u64, counts: bool) -> int {
    if counts {
        one_more(n)
    } else {
        n as int
    }
}

/// What a server counts of events: each of the six kinds that matter once per event,
/// nothing of the others, and several as one after the other.
pub proof fn law_server_counts_each_event(
    m: ServerRuntimeMetrics,
    events: Seq<EventView>,
    more: Seq<EventView>,
    event: EventView,
)
    ensures
        ({
            let after = model::events_counted(m, seq![event]);
            &&& after.handshake_started == counted(m.handshake_started, event is HandshakeStarted)
            &&& after.handshake_established == counted(
                m.handshake_established,
                event is HandshakeEstablished,
            )
            &&& after.reactivated == counted(m.reactivated, event is Reactivated)
            &&& after.msr_probe_sent == counted(m.msr_probe_sent, event is ReactivationProbeSent)
            &&& after.msr_missed_inferred == counted(
                m.msr_missed_inferred,
                event is ReactivationProbeSent,
            )
            &&& after.request_range_sent == counted(
                m.request_range_sent,
                event is RequestRangeSent,
            )
            &&& after.disconnected == counted(m.disconnected, event is Disconnected)
            &&& after.disconnect_reason_unknown == counted(
                m.disconnect_reason_unknown,
                event is Disconnected,
            )
            &&& after.msr_sent == m.msr_sent
            &&& after.data_sent == m.data_sent
            &&& after.data_retransmit_inferred == m.data_retransmit_inferred
        }),
        model::events_counted(m, events + more) == model::events_counted(
            model::events_counted(m, events),
            more,
        ),
        model::events_counted(m, Seq::empty()) == m,
    decreases more.len(),
{
    reveal_with_fuel(model::events_counted, 2);
    assert(seq![event].drop_last() =~= Seq::empty());
    if more.len() == 0 {
        assert(events + more =~= events);
    } else {
        law_server_counts_each_event(m, events, more.drop_last(), event);
        assert((events + more).drop_last() =~= events + more.drop_last());
    }
}

/// What a server counts of the datagrams it sends: every MSR and every data frame, and of
/// these as sent again those whose message was sent on the session before.
pub proof fn law_server_counts_each_datagram(
    s: model::Sent,
    datagrams: Seq<DatagramView>,
    more: Seq<DatagramView>,
    datagram: DatagramView,
)
    ensures
        ({
            let after = model::datagrams_counted(s, seq![datagram]);
            let frame = wire::parse_frame(datagram.bytes)->Ok_0;
            let msr = wire::parse_frame(datagram.bytes) is Ok && frame.message_type
                == MessageType::Msr;
            let data = wire::parse_frame(datagram.bytes) is Ok && frame.message_type
                == MessageType::Data;
            let known = data && frame.payload.len() >= 8 && s.ids is Some;
            let id = crate::big_endian::be_value(frame.payload.take(8)) as u64;
            &&& after.metrics.msr_sent == counted(s.metrics.msr_sent, msr)
            &&& after.metrics.data_sent == counted(s.metrics.data_sent, data)
            &&& after.metrics.data_retransmit_inferred == counted(
                s.metrics.data_retransmit_inferred,
                known && s.ids->0.contains(id),
            )
            &&& after.ids == if known {
                Some(s.ids->0.insert(id))
            } else {
                s.ids
            }
        }),
        model::datagrams_counted(s, datagrams + more) == model::datagrams_counted(
            model::datagrams_counted(s, datagrams),
            more,
        ),
        model::datagrams_counted(s, Seq::empty()) == s,
    decreases more.len(),
{
    reveal_with_fuel(model::datagrams_counted, 2);
    assert(seq![datagram].drop_last() =~= Seq::empty());
    if more.len() == 0 {
        assert(datagrams + more =~= datagrams);
    } else {
        law_server_counts_each_datagram(s, datagrams, more.drop_last(), datagram);
        assert((datagrams + more).drop_last() =~= datagrams + more.drop_last());
    }
}

/// What a server counts of the calls on its store: each one, each failure, and for how
/// long it waited.
pub proof fn law_server_counts_its_store(
    v: ServerView,
    cid: u64,
    load: Result<Option<EntryView>, StoreErrorView>,
    upsert: Result<EntryView, StoreErrorView>,
    delete: Result<(), StoreErrorView>,
    span_us: u64,
)
    requires
        v.metrics.store_load_latency_us_total + span_us <= u64::MAX,
        v.metrics.store_upsert_latency_us_total + span_us <= u64::MAX,
    ensures
        ({
            let after = model::load_counted(v.metrics, load, span_us);
            &&& after.store_load_calls == one_more(v.metrics.store_load_calls)
            &&& after.store_load_failures == counted(v.metrics.store_load_failures, load is Err)
            &&& after.store_load_latency_us_total == v.metrics.store_load_latency_us_total
                + span_us
            &&& after.store_upsert_calls == v.metrics.store_upsert_calls
        }),
        ({
            let after = model::kept(v, upsert, span_us).0.metrics;
            &&& after.store_upsert_calls == one_more(v.metrics.store_upsert_calls)
            &&& after.store_upsert_failures == counted(
                v.metrics.store_upsert_failures,
                upsert is Err,
            )
            &&& after.store_upsert_latency_us_total == v.metrics.store_upsert_latency_us_total
                + span_us
        }),
        ({
            let after = model::forgotten(v, cid, delete).0.metrics;
            &&& after.store_delete_calls == one_more(v.metrics.store_delete_calls)
            &&& after.store_delete_failures == counted(
                v.metrics.store_delete_failures,
                delete is Err,
            )
            &&& after.disconnected == counted(v.metrics.disconnected, delete is Ok)
        }),
{
}

/// The most sessions that there were at once are known.
pub proof fn law_peak_is_known(v: ServerView, cid: u64, session: SessionView)
    requires
        v.sessions.dom().finite(),
        v.sessions.dom().len() < u64::MAX,
    ensures
        ({
            let after = model::with_session(v, cid, session);
            &&& after.sessions == v.sessions.insert(cid, session)
            &&& after.metrics.peak_sessions >= after.sessions.dom().len()
            &&& after.metrics.peak_sessions >= v.metrics.peak_sessions
            &&& after.metrics.peak_sessions == v.metrics.peak_sessions
                || after.metrics.peak_sessions == after.sessions.dom().len()
        }),
{
    assert(v.sessions.insert(cid, session).dom() =~= v.sessions.dom().insert(cid));
}

} // verus!
