//! What holds of timers and of a client runtime: nothing that the session asks for is
//! dropped, and timers fire when they are due, the longest due first.

use vstd::prelude::*;

use crate::client_runtime;
use crate::client_runtime::{
    ClientEventView, ClientOutputView, ClientRuntimeError, ClientRuntimeMetrics, ClientView,
};
use crate::json::JsonValue;
use crate::session::model;
use crate::session::model::Step;
use crate::session::types::{DatagramView, EventView, TimerAction, TimerId};
use crate::timers;
use crate::traversal::{CandidateType, IpAddress};
use crate::wire;
use crate::wire::MessageType;

verus! {

/// A timer that is set stands last among those of its moment; no other moment is touched.
/// Set once, it is not set again where it stands already.
pub proof fn law_set_timer_stands_last(
    queue: Map<u64, Seq<(u64, TimerId)>>,
    deadline: u64,
    entry: (u64, TimerId),
    other: u64,
)
    ensures
        timers::slot(timers::with_timer(queue, deadline, entry), other) == if other == deadline {
            timers::slot(queue, other).push(entry)
        } else {
            timers::slot(queue, other)
        },
        timers::slot(timers::with_timer_once(queue, deadline, entry), other) == if other
            == deadline && !timers::slot(queue, other).contains(entry) {
            timers::slot(queue, other).push(entry)
        } else {
            timers::slot(queue, other)
        },
{
}

/// A timer that is taken out is gone once, the first of those alike at its moment; no
/// other timer is touched.
pub proof fn law_taken_timer_is_gone_once(
    queue: Map<u64, Seq<(u64, TimerId)>>,
    deadline: u64,
    entry: (u64, TimerId),
    other: u64,
)
    ensures
        ({
            let after = timers::without_timer(queue, deadline, entry);
            let old = timers::slot(queue, other);
            if other == deadline && old.contains(entry) {
                exists|at: int|
                    #![trigger old.remove(at)]
                    {
                        &&& 0 <= at < old.len()
                        &&& old[at] == entry
                        &&& forall|k: int| #![trigger old[k]] 0 <= k < at ==> old[k] != entry
                        &&& timers::slot(after, other) == old.remove(at)
                    }
            } else {
                timers::slot(after, other) == old
            }
        }),
{
    let after = timers::without_timer(queue, deadline, entry);
    let old = timers::slot(queue, other);
    if queue.contains_key(deadline) {
        lemma_first_at(queue[deadline], entry, 0);
        if other == deadline {
            match timers::first_at(queue[deadline], entry, 0) {
                Some(at) => {
                    assert(old.contains(entry)) by {
                        assert(old[at] == entry);
                    }
                    assert(timers::slot(after, other) =~= old.remove(at));
                },
                None => {
                    assert(!old.contains(entry));
                    assert(timers::slot(after, other) =~= old);
                },
            }
        }
    }
}

proof fn lemma_first_at(entries: Seq<(u64, TimerId)>, entry: (u64, TimerId), from: int)
    requires
        0 <= from,
    ensures
        match timers::first_at(entries, entry, from) {
            Some(at) => {
                &&& from <= at < entries.len()
                &&& entries[at] == entry
                &&& forall|k: int| #![trigger entries[k]] from <= k < at ==> entries[k] != entry
            },
            None => forall|k: int|
                #![trigger entries[k]]
                from <= k < entries.len() ==> entries[k] != entry,
        },
    decreases entries.len() - from,
{
    if from < entries.len() {
        lemma_first_at(entries, entry, from + 1);
    }
}

proof fn lemma_due_between(queue: Map<u64, Seq<(u64, TimerId)>>, from: int, to: int)
    requires
        0 <= from,
        to <= u64::MAX,
    ensures
        ({
            let due = timers::due_between(queue, from, to);
            &&& forall|k: int|
                #![trigger due[k]]
                0 <= k < due.len() ==> from <= due[k].0 <= to && timers::slot(
                    queue,
                    due[k].0,
                ).contains((due[k].1, due[k].2))
            &&& forall|a: int, b: int|
                #![trigger due[a], due[b]]
                0 <= a < b < due.len() ==> due[a].0 <= due[b].0
        }),
    decreases to - from + 1,
{
    if from <= to {
        let here = timers::tagged(from as u64, timers::slot(queue, from as u64));
        let behind = timers::due_between(queue, from + 1, to);
        let due = timers::due_between(queue, from, to);
        lemma_due_between(queue, from + 1, to);
        assert forall|k: int| #![trigger due[k]] 0 <= k < due.len() implies from <= due[k].0 <= to
            && timers::slot(queue, due[k].0).contains((due[k].1, due[k].2)) by {
            if k < here.len() {
                assert(due[k] == here[k]);
                assert(timers::slot(queue, from as u64)[k] == (due[k].1, due[k].2));
            } else {
                assert(due[k] == behind[k - here.len()]);
            }
        }
        assert forall|a: int, b: int| #![trigger due[a], due[b]] 0 <= a < b < due.len() implies
            due[a].0 <= due[b].0 by {
            if b < here.len() {
                assert(due[a] == here[a] && due[b] == here[b]);
            } else if a >= here.len() {
                assert(due[a] == behind[a - here.len()]);
                assert(due[b] == behind[b - here.len()]);
            } else {
                assert(due[a] == here[a]);
                assert(due[b] == behind[b - here.len()]);
            }
        }
    }
}

/// The timers that are due are set for then or before, come by deadline, and are at most
/// as many as asked for; if they are fewer, every timer of the queue that is due is among
/// them.
pub proof fn law_due_timers_come_by_deadline(
    queue: Map<u64, Seq<(u64, TimerId)>>,
    now_ms: u64,
    limit: nat,
    deadline: u64,
    entry: (u64, TimerId),
)
    ensures
        ({
            let due = timers::due_at(queue, now_ms, limit);
            &&& due.len() <= limit
            &&& forall|k: int|
                #![trigger due[k]]
                0 <= k < due.len() ==> due[k].0 <= now_ms && timers::slot(
                    queue,
                    due[k].0,
                ).contains((due[k].1, due[k].2))
            &&& forall|a: int, b: int|
                #![trigger due[a], due[b]]
                0 <= a < b < due.len() ==> due[a].0 <= due[b].0
            &&& due.len() < limit && deadline <= now_ms && timers::slot(queue, deadline).contains(
                entry,
            ) ==> due.contains((deadline, entry.0, entry.1))
            &&& due.len() == limit && deadline <= now_ms && timers::slot(queue, deadline).contains(
                entry,
            ) && !due.contains((deadline, entry.0, entry.1)) ==> forall|k: int|
                #![trigger due[k]]
                0 <= k < due.len() ==> due[k].0 <= deadline
        }),
{
    let all = timers::due_between(queue, 0, now_ms as int);
    let due = timers::due_at(queue, now_ms, limit);
    lemma_due_between(queue, 0, now_ms as int);
    assert forall|k: int| #![trigger due[k]] 0 <= k < due.len() implies due[k] == all[k] by {}
    if deadline <= now_ms && timers::slot(queue, deadline).contains(entry) {
        timers::lemma_due_contains(queue, 0, now_ms as int, deadline, entry);
        let at = choose|at: int|
            0 <= at < all.len() && all[at] == (deadline, entry.0, entry.1);
        if at < due.len() {
            assert(due[at] == all[at]);
        } else {
            assert forall|k: int| #![trigger due[k]] 0 <= k < due.len() implies due[k].0
                <= deadline by {
                assert(all[k].0 <= all[at].0);
            }
        }
    }
}

/// Timers of one moment come in the order in which they were set, and those of a later
/// moment behind them.
pub proof fn law_due_timers_keep_their_order(
    queue: Map<u64, Seq<(u64, TimerId)>>,
    from: int,
    middle: int,
    to: int,
)
    requires
        0 <= from <= middle <= to <= u64::MAX,
    ensures
        timers::due_between(queue, from, to) == timers::due_between(queue, from, middle)
            + timers::due_between(queue, middle + 1, to),
        timers::due_between(queue, from, from).len() == timers::slot(queue, from as u64).len(),
        forall|k: int|
            #![trigger timers::due_between(queue, from, from)[k]]
            0 <= k < timers::slot(queue, from as u64).len() ==> timers::due_between(
                queue,
                from,
                from,
            )[k] == (
                from as u64,
                timers::slot(queue, from as u64)[k].0,
                timers::slot(queue, from as u64)[k].1,
            ),
    decreases middle - from,
{
    reveal_with_fuel(timers::due_between, 2);
    let here = timers::tagged(from as u64, timers::slot(queue, from as u64));
    if from < middle {
        law_due_timers_keep_their_order(queue, from + 1, middle, to);
        assert(timers::due_between(queue, from, to) =~= timers::due_between(queue, from, middle)
            + timers::due_between(queue, middle + 1, to));
    } else {
        assert(timers::due_between(queue, from, to) =~= timers::due_between(queue, from, middle)
            + timers::due_between(queue, middle + 1, to));
    }
}

/// All that the machine asks for in a step goes out as it is: its datagrams and its
/// events, in order. A step that failed is told as that failure; the machine is as the
/// step left it either way, and the candidates stay.
pub proof fn law_client_hands_on_what_the_session_asks(v: ClientView, step: Step)
    ensures
        ({
            let (after, result) = client_runtime::client_step(v, step);
            &&& after.core == step.machine
            &&& after.local_candidates == v.local_candidates
            &&& after.remote_candidates == v.remote_candidates
            &&& match step.error {
                Some(e) => {
                    &&& result == Err::<ClientOutputView, ClientRuntimeError>(
                        ClientRuntimeError::Core(e),
                    )
                    &&& after.timers == v.timers
                    &&& after.metrics == v.metrics
                },
                None => {
                    &&& result is Ok
                    &&& result->Ok_0.outbound_datagrams == step.out.outbound_datagrams
                    &&& result->Ok_0.events.len() == step.out.events.len()
                    &&& forall|k: int|
                        #![trigger result->Ok_0.events[k]]
                        0 <= k < step.out.events.len() ==> result->Ok_0.events[k]
                            == ClientEventView::Core(step.out.events[k])
                },
            }
        }),
{
}

/// Every timer that the machine asks for is set under its deadline; those that were set
/// stay where they are, and no others are set.
pub proof fn law_client_sets_the_asked_timers(
    queue: Map<u64, Seq<(u64, TimerId)>>,
    actions: Seq<TimerAction>,
)
    ensures
        ({
            let after = client_runtime::timers_set(queue, actions);
            &&& forall|i: int|
                #![trigger actions[i]]
                0 <= i < actions.len() ==> {
                    let TimerAction::Schedule { id, deadline_ms } = actions[i];
                    timers::slot(after, deadline_ms).contains((0u64, id))
                }
            &&& forall|deadline: u64|
                #![trigger timers::slot(after, deadline)]
                {
                    let old = timers::slot(queue, deadline);
                    let new = timers::slot(after, deadline);
                    &&& old.len() <= new.len()
                    &&& new.take(old.len() as int) == old
                    &&& forall|k: int|
                        #![trigger new[k]]
                        old.len() <= k < new.len() ==> new[k].0 == 0 && actions.contains(
                            TimerAction::Schedule { id: new[k].1, deadline_ms: deadline },
                        )
                }
        }),
    decreases actions.len(),
{
    let after = client_runtime::timers_set(queue, actions);
    if actions.len() == 0 {
        assert forall|deadline: u64| #![trigger timers::slot(after, deadline)] {
            let old = timers::slot(queue, deadline);
            old.take(old.len() as int) == old
        } by {
            let old = timers::slot(queue, deadline);
            assert(old.take(old.len() as int) =~= old);
        }
    } else {
        let earlier = actions.drop_last();
        let middle = client_runtime::timers_set(queue, earlier);
        let TimerAction::Schedule { id, deadline_ms } = actions.last();
        law_client_sets_the_asked_timers(queue, earlier);
        assert forall|i: int| #![trigger actions[i]] 0 <= i < actions.len() implies {
            let TimerAction::Schedule { id, deadline_ms } = actions[i];
            timers::slot(after, deadline_ms).contains((0u64, id))
        } by {
            let TimerAction::Schedule { id: this, deadline_ms: deadline } = actions[i];
            let mid = timers::slot(middle, deadline);
            let new = timers::slot(after, deadline);
            law_set_timer_stands_last(middle, deadline_ms, (0u64, id), deadline);
            if i == actions.len() - 1 {
                if !mid.contains((0u64, id)) {
                    assert(new[mid.len() as int] == (0u64, this));
                }
            } else {
                assert(earlier[i] == actions[i]);
                assert(mid.contains((0u64, this)));
                let at = choose|at: int| 0 <= at < mid.len() && mid[at] == (0u64, this);
                assert(new[at] == (0u64, this));
            }
        }
        assert forall|deadline: u64| #![trigger timers::slot(after, deadline)] {
            let old = timers::slot(queue, deadline);
            let new = timers::slot(after, deadline);
            &&& old.len() <= new.len()
            &&& new.take(old.len() as int) == old
            &&& forall|k: int|
                #![trigger new[k]]
                old.len() <= k < new.len() ==> new[k].0 == 0 && actions.contains(
                    TimerAction::Schedule { id: new[k].1, deadline_ms: deadline },
                )
        } by {
            let old = timers::slot(queue, deadline);
            let mid = timers::slot(middle, deadline);
            let new = timers::slot(after, deadline);
            law_set_timer_stands_last(middle, deadline_ms, (0u64, id), deadline);
            assert(new.take(old.len() as int) =~= mid.take(old.len() as int));
            assert forall|k: int| #![trigger new[k]] old.len() <= k < new.len() implies new[k].0
                == 0 && actions.contains(
                TimerAction::Schedule { id: new[k].1, deadline_ms: deadline },
            ) by {
                let action = TimerAction::Schedule { id: new[k].1, deadline_ms: deadline };
                if k < mid.len() {
                    assert(new[k] == mid[k]);
                    assert(earlier.contains(action));
                    let at = choose|at: int| 0 <= at < earlier.len() && earlier[at] == action;
                    assert(actions[at] == action);
                } else {
                    assert(actions[actions.len() - 1] == action);
                }
            }
        }
    }
}

/// Due timers are taken out and handed to the machine one after the other, in the state
/// that the one before left, and what each brings comes behind what there is; after a
/// failure no more are.
pub proof fn law_client_serves_due_timers_in_turn(
    v: ClientView,
    now_ms: u64,
    due: Seq<(u64, u64, TimerId)>,
    out: ClientOutputView,
)
    ensures
        due.len() == 0 ==> client_runtime::client_polled(v, now_ms, due, out) == (
            v,
            Ok::<ClientOutputView, ClientRuntimeError>(out),
        ),
        due.len() > 0 ==> {
            let taken = ClientView {
                timers: timers::without_timer(v.timers, due[0].0, (due[0].1, due[0].2)),
                ..v
            };
            let (after, result) = client_runtime::client_step(
                taken,
                model::timer_step(v.core, now_ms, due[0].2),
            );
            match result {
                Err(e) => client_runtime::client_polled(v, now_ms, due, out) == (
                    after,
                    Err::<ClientOutputView, ClientRuntimeError>(e),
                ),
                Ok(more) => client_runtime::client_polled(v, now_ms, due, out)
                    == client_runtime::client_polled(
                    after,
                    now_ms,
                    due.skip(1),
                    ClientOutputView {
                        outbound_datagrams: out.outbound_datagrams + more.outbound_datagrams,
                        events: out.events + more.events,
                    },
                ),
            }
        },
{
}

/// One more, unless it is the largest number.
pub open spec fn one_more(n: u64) -> int {
    if n < u64::MAX {
        n + 1
    } else {
        n as int
    }
}

/// What is counted of events: each of the five kinds that matter once per event, nothing
/// of the others, and several as one after the other.
pub proof fn law_client_counts_each_event(
    m: ClientRuntimeMetrics,
    events: Seq<EventView>,
    more: Seq<EventView>,
    event: EventView,
)
    ensures
        ({
            let after = client_runtime::events_counted(m, seq![event]);
            &&& after.handshake_started == if event is HandshakeStarted {
                one_more(m.handshake_started)
            } else {
                m.handshake_started as int
            }
            &&& after.handshake_established == if event is HandshakeEstablished {
                one_more(m.handshake_established)
            } else {
                m.handshake_established as int
            }
            &&& after.reactivation_probe_sent == if event is ReactivationProbeSent {
                one_more(m.reactivation_probe_sent)
            } else {
                m.reactivation_probe_sent as int
            }
            &&& after.reactivated == if event is Reactivated {
                one_more(m.reactivated)
            } else {
                m.reactivated as int
            }
            &&& after.disconnected == if event is Disconnected {
                one_more(m.disconnected)
            } else {
                m.disconnected as int
            }
            &&& after.msr_sent == m.msr_sent
            &&& after.nat_pair_nominated == m.nat_pair_nominated
            &&& after.turn_actions == m.turn_actions
            &&& after.consent_actions == m.consent_actions
        }),
        client_runtime::events_counted(m, events + more) == client_runtime::events_counted(
            client_runtime::events_counted(m, events),
            more,
        ),
        client_runtime::events_counted(m, Seq::empty()) == m,
    decreases more.len(),
{
    reveal_with_fuel(client_runtime::events_counted, 2);
    assert(seq![event].drop_last() =~= Seq::empty());
    if more.len() == 0 {
        assert(events + more =~= events);
    } else {
        law_client_counts_each_event(m, events, more.drop_last(), event);
        assert((events + more).drop_last() =~= events + more.drop_last());
    }
}

/// What is counted of datagrams: every MSR once, nothing else.
pub proof fn law_client_counts_each_msr(
    count: u64,
    datagrams: Seq<DatagramView>,
    more: Seq<DatagramView>,
    datagram: DatagramView,
)
    ensures
        client_runtime::msrs_counted(count, seq![datagram]) == if wire::parse_frame(
            datagram.bytes,
        ) matches Ok(frame) && frame.message_type == MessageType::Msr {
            one_more(count)
        } else {
            count as int
        },
        client_runtime::msrs_counted(count, datagrams + more) == client_runtime::msrs_counted(
            client_runtime::msrs_counted(count, datagrams),
            more,
        ),
        client_runtime::msrs_counted(count, Seq::empty()) == count,
    decreases more.len(),
{
    reveal_with_fuel(client_runtime::msrs_counted, 2);
    assert(seq![datagram].drop_last() =~= Seq::empty());
    if more.len() == 0 {
        assert(datagrams + more =~= datagrams);
    } else {
        law_client_counts_each_msr(count, datagrams, more.drop_last(), datagram);
        assert((datagrams + more).drop_last() =~= datagrams + more.drop_last());
    }
}

/// A step that goes well counts its events and its MSRs.
pub proof fn law_client_counts_what_happens(v: ClientView, step: Step)
    requires
        step.error is None,
    ensures
        ({
            let counted = client_runtime::events_counted(v.metrics, step.out.events);
            let (after, _) = client_runtime::client_step(v, step);
            &&& after.metrics.msr_sent == client_runtime::msrs_counted(
                v.metrics.msr_sent,
                step.out.outbound_datagrams,
            )
            &&& after.metrics == (ClientRuntimeMetrics {
                msr_sent: after.metrics.msr_sent,
                ..counted
            })
        }),
{
    let counted = ClientRuntimeMetrics {
        msr_sent: client_runtime::msrs_counted(
            v.metrics.msr_sent,
            step.out.outbound_datagrams,
        ),
        ..v.metrics
    };
    lemma_events_leave_the_msrs(v.metrics, counted, step.out.events);
}

proof fn lemma_events_leave_the_msrs(
    a: ClientRuntimeMetrics,
    b: ClientRuntimeMetrics,
    events: Seq<EventView>,
)
    requires
        b == (ClientRuntimeMetrics { msr_sent: b.msr_sent, ..a }),
    ensures
        client_runtime::events_counted(b, events) == (ClientRuntimeMetrics {
            msr_sent: b.msr_sent,
            ..client_runtime::events_counted(a, events)
        }),
    decreases events.len(),
{
    if events.len() > 0 {
        lemma_events_leave_the_msrs(a, b, events.drop_last());
    }
}

/// A candidate of a discovery reply says what the reply says of it: with an address and a
/// port it counts, and what else is missing has its default.
pub proof fn law_discovered_candidate_says_what_the_reply_says(
    c: JsonValue,
    address: Option<IpAddress>,
)
    ensures
        client_runtime::discovered(c, address) is Some <==> c.text_member("address"@) is Some
            && c.number_member("port"@) is Some && address is Some,
        client_runtime::discovered(c, address) matches Some(found) ==> {
            &&& found.address == address->0
            &&& c.number_member("port"@)->0 < 0x1_0000 ==> found.port == c.number_member("port"@)->0
            &&& found.component == 1
            &&& found.transport == "udp"@
            &&& c.text_member("foundation"@) matches Some(t) ==> found.foundation == t
            &&& c.text_member("foundation"@) is None ==> found.foundation == "remote"@
            &&& c.number_member("priority"@) is Some && c.number_member("priority"@)->0
                < 0x1_0000_0000 ==> found.priority == c.number_member("priority"@)->0
            &&& c.number_member("priority"@) is None ==> found.priority == 100
            &&& c.text_member("type"@) == Some("relay"@) ==> found.typ == CandidateType::Relay
            &&& c.text_member("type"@) == Some("srflx"@) && "srflx"@ != "relay"@ ==> found.typ
                == CandidateType::Srflx
            &&& c.text_member("type"@) is None ==> found.typ == CandidateType::Host
            &&& c.text_member("type"@) is Some && c.text_member("type"@)->0 != "relay"@
                && c.text_member("type"@)->0 != "srflx"@ ==> found.typ == CandidateType::Host
            &&& found.related_address is None
            &&& found.related_port is None
        },
{
}

/// A complete discovery reply gives one candidate for each of its entries, in their order.
pub proof fn law_discovery_takes_every_candidate(
    payload: JsonValue,
    addresses: Seq<Option<IpAddress>>,
    items: Seq<JsonValue>,
    k: int,
)
    requires
        payload.array_member("candidates"@) == Some(items),
    ensures
        client_runtime::discovery_complete(payload, addresses) ==> {
            let found = client_runtime::discovered_all(payload, addresses);
            &&& found.len() == items.len()
            &&& 0 <= k < items.len() ==> {
                &&& k < addresses.len()
                &&& client_runtime::discovered(items[k], addresses[k]) == Some(found[k])
            }
        },
        0 <= k < items.len() && (k >= addresses.len() || addresses[k] is None || items[k].text_member(
            "address"@,
        ) is None || items[k].number_member("port"@) is None)
            ==> !client_runtime::discovery_complete(payload, addresses),
{
    assert(payload.array_member("candidates"@).unwrap() == items);
    if 0 <= k < items.len() {
        let entry = payload.array_member("candidates"@).unwrap()[k];
        assert(entry == items[k]);
    }
}

} // verus!
