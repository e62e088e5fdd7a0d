//! The server runtime.

use std::collections::{HashMap, HashSet};
use std::time::{Duration, Instant};

use vstd::prelude::*;

use crate::base64_text::base64_text;
use crate::big_endian;
use crate::big_endian::read_be;
use crate::server_runtime::laws as server_laws;
use crate::server_runtime::model;
use crate::server_runtime::model::{Answers, Served, ServerView};
use crate::server_runtime::types;
use crate::server_runtime::types::{
    RuntimeEvent, RuntimeEventView, ServerErrorView, ServerOutputView, ServerRuntimeError,
    ServerRuntimeMetrics, ServerRuntimeOutput, SessionRuntime, SessionView,
};
use crate::session::laws;
use crate::session::machine::CoreMachine;
use crate::session::model as session_model;
use crate::session::model::Step;
use crate::session::types as session_types;
use crate::session::types::{
    CoreConfig, CoreError, CoreOutput, Event, LifecycleState, OutboundDatagram, PathEvent, Role,
    TimerAction, TimerId,
};
use crate::store::types as store_types;
use crate::store::types::{
    EntryView, SessionRecord, SessionStore, StoreCall, StoreError, StoreErrorView, VersionedRecord,
};
use crate::text::text_with_number;
use crate::timers;
use crate::timers::TimerQueue;
use crate::traversal;
use crate::traversal::{gather_host_candidates, IceCandidate, IpAddress, RelayPolicy};
use crate::wire;
use crate::wire::{MessageType, WireFrame};

verus! {

broadcast use vstd::std_specs::hash::group_hash_axioms;

/// `std::time::Instant`, a moment that only differences can be taken of.
#[verifier::external_type_specification]
#[verifier::external_body]
pub struct ExInstant(std::time::Instant);

/// `std::time::Instant::now`. When it is called is not known here.
pub assume_specification[ std::time::Instant::now ]() -> Instant;

/// `std::time::Instant::elapsed`. How long it has been is not known here.
pub assume_specification[ std::time::Instant::elapsed ](start: &Instant) -> Duration;

/// How many whole microseconds a span of time is.
pub uninterp spec fn duration_micros(d: Duration) -> u128;

/// `std::time::Duration::as_micros`: the whole microseconds of the span, which the
/// span alone determines.
pub assume_specification[ std::time::Duration::as_micros ](d: &Duration) -> (us: u128)
    ensures
        us == duration_micros(*d),
;

/// A span of time in microseconds, in their low sixty-four bits.
pub open spec fn span_micros(span: Duration) -> u64 {
    (duration_micros(span) % 0x1_0000_0000_0000_0000) as u64
}

/// The microseconds of a span, in their low sixty-four bits.
pub fn micros_of(span: &Duration) -> (us: u64)
    ensures
        us == span_micros(*span),
{
    let us: u128 = span.as_micros();
    (us % 0x1_0000_0000_0000_0000) as u64
}

/// Microseconds since a moment, in their low sixty-four bits: those of the span
/// that the clock tells, which may be any.
fn micros_since(start: &Instant) -> (us: u64)
    ensures
        exists|span: Duration| us == #[trigger] span_micros(span),
{
    let span = start.elapsed();
    micros_of(&span)
}

/// Routes datagrams and timers to sessions and keeps these in a store.
pub struct ServerRuntime<S: SessionStore> {
    pub cfg: CoreConfig,
    pub store: S,
    pub sessions: HashMap<u64, SessionRuntime>,
    pub timers: TimerQueue,
    pub relay_policy: RelayPolicy,
    pub metrics: ServerRuntimeMetrics,
}

pub open spec fn session_views(sessions: Map<u64, SessionRuntime>) -> Map<u64, SessionView> {
    sessions.map_values(|s: SessionRuntime| s@)
}

impl<S: SessionStore> View for ServerRuntime<S> {
    type V = ServerView;

    open spec fn view(&self) -> ServerView {
        ServerView {
            cfg: self.cfg,
            sessions: session_views(self.sessions@),
            timers: self.timers@,
            relay_policy: self.relay_policy,
            metrics: self.metrics,
        }
    }
}

/// That a call came out as `expected` says.
pub open spec fn comes_out(
    result: Result<ServerRuntimeOutput, ServerRuntimeError>,
    expected: Result<ServerOutputView, ServerErrorView>,
) -> bool {
    match (result, expected) {
        (Ok(got), Ok(view)) => got@ == view,
        (Err(got), Err(e)) => got@ == e,
        _ => false,
    }
}

/// That a call left the runtime `after` and came out as `served` says.
pub open spec fn is_served<S: SessionStore>(
    before: ServerRuntime<S>,
    after: ServerRuntime<S>,
    result: Result<ServerRuntimeOutput, ServerRuntimeError>,
    served: Served,
) -> bool {
    &&& after@ == served.runtime
    &&& after.store.journal() == before.store.journal() + served.calls
    &&& comes_out(result, served.result)
}

/// That an outcome without a value is as `expected` says.
pub open spec fn ends(outcome: Result<(), ServerRuntimeError>, expected: Option<ServerErrorView>) -> bool {
    match (outcome, expected) {
        (Ok(_), None) => true,
        (Err(got), Some(e)) => got@ == e,
        _ => false,
    }
}

impl<S: SessionStore> ServerRuntime<S> {
    pub open spec fn wf(&self) -> bool {
        &&& self.store.wf()
        &&& forall|cid: u64| #[trigger]
            self@.sessions.contains_key(cid) ==> self@.sessions[cid].core.wf()
    }

    pub fn new(cfg: CoreConfig, store: S) -> (runtime: ServerRuntime<S>)
        requires
            store.wf(),
        ensures
            runtime.wf(),
            runtime.store == store,
            runtime@ == (ServerView {
                cfg,
                sessions: Map::empty(),
                timers: Map::empty(),
                relay_policy: RelayPolicy::PreferDirect,
                metrics: ServerRuntimeMetrics::zero(),
            }),
    {
        ServerRuntime::new_with_nat_policy(cfg, store, RelayPolicy::PreferDirect)
    }

    pub fn new_with_nat_policy(cfg: CoreConfig, store: S, relay_policy: RelayPolicy) -> (runtime:
        ServerRuntime<S>)
        requires
            store.wf(),
        ensures
            runtime.wf(),
            runtime.store == store,
            runtime@ == (ServerView {
                cfg,
                sessions: Map::empty(),
                timers: Map::empty(),
                relay_policy,
                metrics: ServerRuntimeMetrics::zero(),
            }),
    {
        let runtime = ServerRuntime {
            cfg,
            store,
            sessions: HashMap::new(),
            timers: TimerQueue::new(),
            relay_policy,
            metrics: ServerRuntimeMetrics::default(),
        };
        assert(runtime@.sessions =~= Map::empty());
        runtime
    }

    pub fn active_sessions(&self) -> (count: usize)
        ensures
            count == self@.sessions.dom().len(),
    {
        assert(self@.sessions.dom() =~= self.sessions@.dom());
        self.sessions.len()
    }

    pub fn metrics_snapshot(&self) -> (metrics: ServerRuntimeMetrics)
        ensures
            metrics == self@.metrics,
    {
        self.metrics
    }

    pub fn set_relay_policy(&mut self, relay_policy: RelayPolicy)
        ensures
            final(self)@ == (ServerView { relay_policy, ..old(self)@ }),
            final(self).store == old(self).store,
    {
        self.relay_policy = relay_policy;
    }

    pub fn gather_local_candidates(&self, sockets: &[(IpAddress, u16)], component: u16) -> (gathered:
        Vec<IceCandidate>)
        ensures
            gathered@.len() == sockets@.len(),
            forall|i: int|
                0 <= i < sockets@.len() ==> traversal::is_host_candidate(
                    #[trigger] gathered@[i],
                    i as nat,
                    sockets@[i],
                    component,
                    "udp"@,
                ),
    {
        gather_host_candidates(sockets, component, "udp")
    }

    /// Takes a session out; it has to be put back.
    fn take_session(&mut self, cid: u64) -> (session: Option<SessionRuntime>)
        ensures
            final(self)@ == (ServerView {
                sessions: old(self)@.sessions.remove(cid),
                ..old(self)@
            }),
            final(self).store == old(self).store,
            match session {
                Some(session) => old(self)@.sessions.contains_key(cid) && session@
                    == old(self)@.sessions[cid],
                None => !old(self)@.sessions.contains_key(cid),
            },
    {
        let session = self.sessions.remove(&cid);
        assert(self@.sessions =~= old(self)@.sessions.remove(cid));
        session
    }

    fn put_session(&mut self, cid: u64, session: SessionRuntime)
        ensures
            final(self)@ == (ServerView {
                sessions: old(self)@.sessions.insert(cid, session@),
                ..old(self)@
            }),
            final(self).store == old(self).store,
    {
        self.sessions.insert(cid, session);
        assert(self@.sessions =~= old(self)@.sessions.insert(cid, session@));
    }

    /// Whether there is a session.
    pub fn has_session(&self, cid: u64) -> (there: bool)
        ensures
            there == self@.sessions.contains_key(cid),
    {
        self.sessions.contains_key(&cid)
    }

    /// Whether a session, if it is there, has room for any datagram and any timer
    /// at `now_ms`.
    pub fn session_has_room(&self, cid: u64, now_ms: u64) -> (room: bool)
        requires
            self.wf(),
        ensures
            room == (self@.sessions.contains_key(cid) ==> session_model::has_room(
                self@.sessions[cid].core,
                now_ms,
            )),
            room ==> forall|path: u32, bytes: Seq<u8>|
                #![trigger model::datagram_fits(self@, now_ms, path, bytes)]
                wire::parse_frame(bytes) is Ok && wire::parse_frame(bytes)->Ok_0.cid == cid
                    ==> model::datagram_fits(self@, now_ms, path, bytes),
    {
        match self.sessions.get(&cid) {
            Some(session) => {
                assert(self@.sessions.contains_key(cid));
                assert(self@.sessions[cid] == session@);
                session.core.has_room(now_ms)
            },
            None => true,
        }
    }

    /// Whether every session has room for any timer at `now_ms`.
    pub fn has_room(&self, now_ms: u64) -> (room: bool)
        requires
            self.wf(),
        ensures
            room == (forall|cid: u64| #[trigger]
                self@.sessions.contains_key(cid) ==> session_model::has_room(
                    self@.sessions[cid].core,
                    now_ms,
                )),
            room ==> forall|due: Seq<(u64, u64, TimerId)>|
                #![trigger model::poll_fits(model::cores(self@), now_ms, due)]
                model::poll_fits(model::cores(self@), now_ms, due),
    {
        for entry in it: self.sessions.iter()
            invariant
                self.wf(),
                forall|i: int|
                    #![trigger it.seq()[i]]
                    0 <= i < it.seq().len() ==> {
                        &&& self@.sessions.contains_key(*it.seq()[i].0)
                        &&& self@.sessions[*it.seq()[i].0] == it.seq()[i].1@
                    },
                forall|k: int|
                    0 <= k < it.index() ==> session_model::has_room(
                        (#[trigger] it.seq()[k]).1@.core,
                        now_ms,
                    ),
        {
            let ghost at = it.index();
            assert(it.seq()[at] == entry);
            assert(self@.sessions.contains_key(*entry.0));
            if !entry.1.core.has_room(now_ms) {
                return false;
            }
        }
        proof {
            assert forall|cid: u64| #[trigger] self@.sessions.contains_key(cid) implies
                session_model::has_room(self@.sessions[cid].core, now_ms) by {
                assert(self.sessions@.contains_key(cid));
            }
            assert forall|due: Seq<(u64, u64, TimerId)>|
                #![trigger model::poll_fits(model::cores(self@), now_ms, due)]
                model::poll_fits(model::cores(self@), now_ms, due) by {
                server_laws::law_room_lasts_while_polling(model::cores(self@), now_ms, due);
            }
        }
        true
    }

    /// Takes the store's answer about a session that is not there yet: opens the
    /// session, or fails as the store did.
    pub fn session_loaded(
        &mut self,
        cid: u64,
        src_path_id: u32,
        reply: Result<Option<VersionedRecord>, StoreError>,
        load_us: u64,
    ) -> (outcome: Result<(), ServerRuntimeError>)
        requires
            old(self).wf(),
            !old(self)@.sessions.contains_key(cid),
        ensures
            final(self).wf(),
            final(self).store == old(self).store,
            ({
                let load = store_types::loaded_view(reply);
                let expected = model::loaded(old(self)@, cid, src_path_id, load, load_us);
                &&& final(self)@ == expected.0
                &&& ends(outcome, expected.1)
            }),
    {
        self.metrics.store_load_calls = self.metrics.store_load_calls.saturating_add(1);
        self.metrics.store_load_latency_us_total =
        self.metrics.store_load_latency_us_total.saturating_add(load_us);
        let found = match reply {
            Ok(found) => found,
            Err(e) => {
                self.metrics.store_load_failures =
                self.metrics.store_load_failures.saturating_add(1);
                return Err(ServerRuntimeError::Store(e));
            },
        };
        let (cfg, peer_id) = match found {
            Some(versioned) => (
                CoreConfig {
                    msr_interval_ms: versioned.record.negotiated_msr_interval_ms,
                    miss_window_count: self.cfg.miss_window_count,
                    disconnect_window_ms: versioned.record.disconnect_window_ms,
                },
                versioned.record.peer_id,
            ),
            None => (self.cfg, text_with_number("path:", src_path_id as u64)),
        };
        let mut core = CoreMachine::new(Role::Server, cid, cfg);
        let _ = core.on_path_event(PathEvent::PathChanged { path_id: src_path_id });
        let session = SessionRuntime {
            core,
            peer_id,
            bound_vhost: None,
            selected_path_id: None,
            sent_data_ids: HashSet::new(),
        };
        let ghost view = session@;
        let ghost before = self@;
        self.put_session(cid, session);
        self.update_peak_sessions_metric();
        proof {
            let load = store_types::loaded_view(reply);
            assert(view =~= model::opened(old(self)@.cfg, cid, src_path_id, load->Ok_0));
            assert(self@ =~= model::with_session(before, cid, view));
            assert(self@ =~= model::loaded(old(self)@, cid, src_path_id, load, load_us).0);
        }
        Ok(())
    }

    fn update_peak_sessions_metric(&mut self)
        ensures
            final(self)@ == (ServerView {
                metrics: ServerRuntimeMetrics {
                    peak_sessions: if old(self)@.sessions.dom().len()
                        > old(self)@.metrics.peak_sessions {
                        old(self)@.sessions.dom().len() as u64
                    } else {
                        old(self)@.metrics.peak_sessions
                    },
                    ..old(self)@.metrics
                },
                ..old(self)@
            }),
            final(self).store == old(self).store,
    {
        let current: u64 = self.active_sessions() as u64;
        if current > self.metrics.peak_sessions {
            self.metrics.peak_sessions = current;
        }
    }

    /// Makes sure that a session is there, with what the store has of it.
    fn ensure_session_loaded(&mut self, cid: u64, src_path_id: u32, now_ms: u64) -> (outcome: Result<
        (),
        ServerRuntimeError,
    >)
        requires
            old(self).wf(),
        ensures
            final(self).wf(),
            exists|load: Result<Option<EntryView>, StoreErrorView>, load_us: u64|
                is_ensured(
                    *old(self),
                    *final(self),
                    cid,
                    src_path_id,
                    now_ms,
                    outcome,
                    load,
                    load_us,
                ),
    {
        if self.sessions.contains_key(&cid) {
            let ghost load: Result<Option<EntryView>, StoreErrorView> = Ok(None);
            proof {
                assert(self.store.journal() + Seq::<StoreCall>::empty() =~= self.store.journal());
                assert(is_ensured(
                    *old(self),
                    *self,
                    cid,
                    src_path_id,
                    now_ms,
                    Ok(()),
                    load,
                    0,
                ));
            }
            return Ok(());
        }
        let load_start = Instant::now();
        let reply = self.store.load(cid, now_ms);
        let load_us: u64 = micros_since(&load_start);
        let ghost load = store_types::loaded_view(reply);
        assert(self.store.journal() =~= old(self).store.journal() + seq![
            StoreCall::Load { cid, now_ms, reply: load },
        ]);
        assert(self@ == old(self)@);
        let outcome = self.session_loaded(cid, src_path_id, reply, load_us);
        assert(is_ensured(
            *old(self),
            *self,
            cid,
            src_path_id,
            now_ms,
            outcome,
            load,
            load_us,
        ));
        outcome
    }

    pub fn on_datagram(&mut self, now_ms: u64, src_path_id: u32, bytes: &[u8]) -> (result: Result<
        ServerRuntimeOutput,
        ServerRuntimeError,
    >)
        requires
            old(self).wf(),
            model::datagram_fits(old(self)@, now_ms, src_path_id, bytes@),
        ensures
            final(self).wf(),
            exists|a: Answers|
                is_served(
                    *old(self),
                    *final(self),
                    result,
                    #[trigger] model::datagram_served(old(self)@, now_ms, src_path_id, bytes@, a),
                ),
    {
        let frame = match WireFrame::decode(bytes) {
            Ok(frame) => frame,
            Err(_) => {
                self.metrics.parse_errors = self.metrics.parse_errors.saturating_add(1);
                let mut events: Vec<RuntimeEvent> = Vec::new();
                events.push(RuntimeEvent::ParseError);
                let out = ServerRuntimeOutput { outbound_datagrams: Vec::new(), events };
                proof {
                    let a = no_answers();
                    assert(out@ =~= (ServerOutputView {
                        outbound_datagrams: Seq::empty(),
                        events: seq![RuntimeEventView::ParseError],
                    }));
                    assert(self.store.journal() + Seq::<StoreCall>::empty()
                        =~= self.store.journal());
                    assert(is_served(
                        *old(self),
                        *self,
                        Ok(out),
                        model::datagram_served(old(self)@, now_ms, src_path_id, bytes@, a),
                    ));
                }
                return Ok(out);
            },
        };
        let cid: u64 = frame.cid;
        let known: bool = self.has_session(cid);
        let outcome = self.ensure_session_loaded(cid, src_path_id, now_ms);
        let ghost (load, load_us) = choose|
            load: Result<Option<EntryView>, StoreErrorView>,
            load_us: u64,
        |
            is_ensured(
                *old(self),
                *self,
                cid,
                src_path_id,
                now_ms,
                outcome,
                load,
                load_us,
            );
        let ghost a0 = Answers { load, load_us, ..no_answers() };
        if let Err(e) = outcome {
            assert(is_served(
                *old(self),
                *self,
                Err(e),
                model::datagram_served(old(self)@, now_ms, src_path_id, bytes@, a0),
            ));
            return Err(e);
        }
        let ghost middle = *self;
        proof {
            if !known {
                assert(middle@.sessions[cid] == model::opened(
                    old(self)@.cfg,
                    cid,
                    src_path_id,
                    load->Ok_0,
                ));
                lemma_opened_waits(old(self)@.cfg, cid, src_path_id, load->Ok_0);
            }
        }
        let result = self.serve_session(
            cid,
            known,
            frame.message_type,
            now_ms,
            src_path_id,
            bytes,
        );
        proof {
            let a1 = choose|a1: Answers|
                is_served(
                    middle,
                    *self,
                    result,
                    #[trigger] model::session_served(
                        middle@,
                        cid,
                        known,
                        frame.message_type,
                        now_ms,
                        src_path_id,
                        bytes@,
                        a1,
                    ),
                );
            lemma_load_then_serve(
                *old(self),
                middle,
                *self,
                result,
                now_ms,
                src_path_id,
                bytes@,
                load,
                load_us,
                a1,
            );
        }
        result
    }

    /// Hands a datagram to its session; `known` is whether the session was there
    /// before the datagram came.
    fn serve_session(
        &mut self,
        cid: u64,
        known: bool,
        message_type: MessageType,
        now_ms: u64,
        src_path_id: u32,
        bytes: &[u8],
    ) -> (result: Result<ServerRuntimeOutput, ServerRuntimeError>)
        requires
            old(self).wf(),
            old(self)@.sessions.contains_key(cid),
            wire::parse_frame(bytes@) is Ok,
            wire::parse_frame(bytes@)->Ok_0.message_type == message_type,
            known ==> session_model::datagram_fits(
                old(self)@.sessions[cid].core,
                now_ms,
                src_path_id,
                bytes@,
            ),
            !known ==> waits_for_nothing(old(self)@.sessions[cid]),
        ensures
            final(self).wf(),
            exists|a: Answers|
                is_served(
                    *old(self),
                    *final(self),
                    result,
                    #[trigger] model::session_served(
                        old(self)@,
                        cid,
                        known,
                        message_type,
                        now_ms,
                        src_path_id,
                        bytes@,
                        a,
                    ),
                ),
    {
        let mut session = match self.take_session(cid) {
            Some(session) => session,
            None => {
                assert(false);
                return Err(ServerRuntimeError::ClockOverflow);
            },
        };
        let ghost here = session@;
        if !known && !clock_fits(&session.core.cfg, now_ms, message_type) {
            self.put_session(cid, session);
            proof {
                let a = no_answers();
                assert(self@.sessions =~= old(self)@.sessions);
                assert(self.store.journal() + Seq::<StoreCall>::empty() =~= self.store.journal());
                assert(is_served(
                    *old(self),
                    *self,
                    Err(ServerRuntimeError::ClockOverflow),
                    model::session_served(
                        old(self)@,
                        cid,
                        known,
                        message_type,
                        now_ms,
                        src_path_id,
                        bytes@,
                        a,
                    ),
                ));
            }
            return Err(ServerRuntimeError::ClockOverflow);
        }
        let mut events = bound_events(&session, cid, src_path_id);
        proof {
            if !known {
                laws::lemma_ids_suffice(here.core, now_ms, src_path_id, bytes@);
            }
        }
        let stepped = session.core.on_datagram(now_ms, src_path_id, bytes);
        self.put_session(cid, session);
        let ghost step = session_model::datagram_step(here.core, now_ms, src_path_id, bytes@);
        assert(self@ =~= model::moved(old(self)@, cid, step.machine)) by {
            assert(self@.sessions =~= old(self)@.sessions.insert(
                cid,
                SessionView { core: step.machine, ..here },
            ));
        }
        let ghost moved = *self;
        let result = self.step_done(cid, src_path_id, now_ms, stepped);
        let ghost a = step_answers(moved, *self, result, cid, src_path_id, now_ms, step);
        let ghost served = model::session_served(
            old(self)@,
            cid,
            known,
            message_type,
            now_ms,
            src_path_id,
            bytes@,
            a,
        );
        assert(is_served(
            *old(self),
            *self,
            result,
            model::stepped(old(self)@, cid, src_path_id, now_ms, step, a),
        ));
        match result {
            Err(e) => {
                assert(is_served(*old(self), *self, Err(e), served));
                Err(e)
            },
            Ok(mut out) => {
                let ghost behind = out@;
                let ghost before = types::runtime_event_views(events@);
                events.append(&mut out.events);
                let whole = ServerRuntimeOutput {
                    outbound_datagrams: out.outbound_datagrams,
                    events,
                };
                assert(whole@ =~= (ServerOutputView { events: before + behind.events, ..behind }));
                assert(is_served(*old(self), *self, Ok(whole), served));
                Ok(whole)
            },
        }
    }

    /// Hands the due timers to their sessions, at most `limit` of them.
    pub fn poll_timers(&mut self, now_ms: u64, limit: usize) -> (result: Result<
        ServerRuntimeOutput,
        ServerRuntimeError,
    >)
        requires
            old(self).wf(),
            model::poll_fits(
                model::cores(old(self)@),
                now_ms,
                timers::due_at(old(self)@.timers, now_ms, limit as nat),
            ),
        ensures
            final(self).wf(),
            exists|answers: Seq<Answers>|
                is_served(
                    *old(self),
                    *final(self),
                    result,
                    #[trigger] model::polled(
                        old(self)@,
                        now_ms,
                        timers::due_at(old(self)@.timers, now_ms, limit as nat),
                        answers,
                    ),
                ),
    {
        let mut output = ServerRuntimeOutput::empty();
        let due = self.timers.due(now_ms, limit);
        let ghost start = *self;
        let ghost mut answers: Seq<Answers> = Seq::empty();
        let mut i: usize = 0;
        assert(due@.skip(0) =~= due@);
        assert(self.store.journal() + Seq::<StoreCall>::empty() =~= self.store.journal());
        while i < due.len()
            invariant
                i <= due@.len(),
                self.wf(),
                start == *old(self),
                due@ == timers::due_at(old(self)@.timers, now_ms, limit as nat),
                answers.len() == i,
                model::poll_fits(model::cores(self@), now_ms, due@.skip(i as int)),
                is_served(
                    start,
                    *self,
                    Ok(output),
                    model::polled(start@, now_ms, due@.take(i as int), answers),
                ),
            decreases due@.len() - i,
        {
            let ghost rest = due@.skip(i as int);
            let ghost more = due@.take(i + 1);
            let ghost before = *self;
            assert(rest[0] == due@[i as int]);
            assert(rest.skip(1) =~= due@.skip(i + 1));
            assert(more.drop_last() =~= due@.take(i as int) && more.last() == due@[i as int]);
            let partial = self.fire(now_ms, due[i]);
            proof {
                let a = choose|a: Answers|
                    is_served(
                        before,
                        *self,
                        partial,
                        #[trigger] model::timer_served(before@, now_ms, due@[i as int], a),
                    );
                let longer = answers.push(a);
                assert(longer.drop_last() =~= answers);
                let earlier = model::polled(start@, now_ms, due@.take(i as int), answers);
                let next = model::timer_served(before@, now_ms, due@[i as int], a);
                assert(self.store.journal() =~= start.store.journal() + (earlier.calls
                    + next.calls));
                if partial is Ok {
                    lemma_cores_after_timer(before@, now_ms, due@[i as int], a);
                }
                answers = longer;
            }
            match partial {
                Ok(out) => {
                    output.append(out);
                },
                Err(e) => {
                    proof {
                        let padded = lemma_poll_stops(start@, now_ms, due@, answers);
                        assert(is_served(
                            *old(self),
                            *self,
                            Err(e),
                            model::polled(start@, now_ms, due@, padded),
                        ));
                    }
                    return Err(e);
                },
            }
            i = i + 1;
        }
        assert(due@.take(i as int) =~= due@);
        Ok(output)
    }

    /// Takes a due timer out and hands it to its session, if that is there.
    fn fire(&mut self, now_ms: u64, due: (u64, u64, TimerId)) -> (result: Result<
        ServerRuntimeOutput,
        ServerRuntimeError,
    >)
        requires
            old(self).wf(),
            old(self)@.sessions.contains_key(due.1) ==> session_model::timer_fits(
                old(self)@.sessions[due.1].core,
                now_ms,
                due.2,
            ),
        ensures
            final(self).wf(),
            exists|a: Answers|
                is_served(
                    *old(self),
                    *final(self),
                    result,
                    #[trigger] model::timer_served(old(self)@, now_ms, due, a),
                ),
    {
        let (deadline, cid, id) = due;
        self.timers.remove(deadline, cid, id);
        let ghost start = *self;
        let mut session = match self.take_session(cid) {
            Some(session) => session,
            None => {
                let out = ServerRuntimeOutput::empty();
                proof {
                    assert(self@.sessions =~= old(self)@.sessions);
                    assert(self.store.journal() + Seq::<StoreCall>::empty()
                        =~= self.store.journal());
                    assert(is_served(
                        *old(self),
                        *self,
                        Ok(out),
                        model::timer_served(old(self)@, now_ms, due, no_answers()),
                    ));
                }
                return Ok(out);
            },
        };
        let ghost here = session@;
        let stepped = session.core.on_timer(now_ms, id);
        self.put_session(cid, session);
        let ghost step = session_model::timer_step(here.core, now_ms, id);
        assert(self@ =~= model::moved(start@, cid, step.machine)) by {
            assert(self@.sessions =~= start@.sessions.insert(
                cid,
                SessionView { core: step.machine, ..here },
            ));
        }
        let ghost moved = *self;
        let result = self.step_done(cid, 0, now_ms, stepped);
        let ghost a = step_answers(moved, *self, result, cid, 0, now_ms, step);
        assert(is_served(
            *old(self),
            *self,
            result,
            model::timer_served(old(self)@, now_ms, due, a),
        ));
        result
    }

    /// The NAT/TURN engine is disabled in this runtime.
    pub fn on_nat_tick(&mut self, _now_ms: u64) -> (out: ServerRuntimeOutput)
        ensures
            *final(self) == *old(self),
            out@ == ServerOutputView::empty(),
    {
        ServerRuntimeOutput::empty()
    }

    /// Sends a message on a session; nothing is sent where there is none.
    pub fn send_message(&mut self, cid: u64, payload: Vec<u8>, now_ms: u64) -> (result: Result<
        ServerRuntimeOutput,
        ServerRuntimeError,
    >)
        requires
            old(self).wf(),
            old(self)@.sessions.contains_key(cid) ==> old(
                self,
            )@.sessions[cid].core.next_outbound_id < u64::MAX,
        ensures
            final(self).wf(),
            exists|a: Answers|
                is_served(
                    *old(self),
                    *final(self),
                    result,
                    #[trigger] model::message_served(old(self)@, cid, payload@, now_ms, a),
                ),
    {
        let ghost start = *self;
        let mut session = match self.take_session(cid) {
            Some(session) => session,
            None => {
                let out = ServerRuntimeOutput::empty();
                proof {
                    assert(self@.sessions =~= old(self)@.sessions);
                    assert(self.store.journal() + Seq::<StoreCall>::empty()
                        =~= self.store.journal());
                    assert(is_served(
                        *old(self),
                        *self,
                        Ok(out),
                        model::message_served(old(self)@, cid, payload@, now_ms, no_answers()),
                    ));
                }
                return Ok(out);
            },
        };
        let ghost here = session@;
        let ghost sent = payload@;
        let stepped = session.core.on_api_send(payload);
        self.put_session(cid, session);
        let ghost step = session_model::send_step(here.core, sent);
        assert(self@ =~= model::moved(start@, cid, step.machine)) by {
            assert(self@.sessions =~= start@.sessions.insert(
                cid,
                SessionView { core: step.machine, ..here },
            ));
        }
        let ghost moved = *self;
        let result = self.step_done(cid, 0, now_ms, stepped);
        let ghost a = step_answers(moved, *self, result, cid, 0, now_ms, step);
        assert(is_served(
            *old(self),
            *self,
            result,
            model::message_served(old(self)@, cid, sent, now_ms, a),
        ));
        result
    }

    /// ICE path nomination is disabled in this runtime.
    pub fn on_ice_candidates(
        &mut self,
        _cid: u64,
        _vhost: String,
        _local: Vec<IceCandidate>,
        _remote: Vec<IceCandidate>,
    ) -> (result: Result<ServerRuntimeOutput, ServerRuntimeError>)
        ensures
            *final(self) == *old(self),
            comes_out(result, Ok(ServerOutputView::empty())),
    {
        Ok(ServerRuntimeOutput::empty())
    }

    /// Goes on after a step of a session's machine.
    fn step_done(
        &mut self,
        cid: u64,
        src_path_id: u32,
        now_ms: u64,
        stepped: Result<CoreOutput, CoreError>,
    ) -> (result: Result<ServerRuntimeOutput, ServerRuntimeError>)
        requires
            old(self).wf(),
        ensures
            final(self).wf(),
            match stepped {
                Err(e) => *final(self) == *old(self) && result is Err && result->Err_0@
                    == ServerErrorView::Core(e),
                Ok(out) => exists|a: Answers|
                    is_served(
                        *old(self),
                        *final(self),
                        result,
                        #[trigger] model::applied(
                            old(self)@,
                            cid,
                            src_path_id,
                            now_ms,
                            out@,
                            a,
                        ),
                    ),
            },
    {
        match stepped {
            Ok(out) => self.apply_core_output(cid, src_path_id, now_ms, out),
            Err(e) => Err(ServerRuntimeError::Core(e)),
        }
    }

    /// Takes in what a session's machine put out, and brings the session to the
    /// store.
    fn apply_core_output(&mut self, cid: u64, src_path_id: u32, now_ms: u64, out: CoreOutput) -> (result:
        Result<ServerRuntimeOutput, ServerRuntimeError>)
        requires
            old(self).wf(),
        ensures
            final(self).wf(),
            exists|a: Answers|
                is_served(
                    *old(self),
                    *final(self),
                    result,
                    #[trigger] model::applied(old(self)@, cid, src_path_id, now_ms, out@, a),
                ),
    {
        let ghost view = out@;
        let events = self.report_events(cid, &out.events);
        self.ingest_timers(cid, &out.timer_actions);
        let datagrams = route_datagrams(out.outbound_datagrams, src_path_id);
        self.observe_datagrams(cid, &datagrams);
        let ghost taken = *self;
        proof {
            assert(self@ =~= model::taken_in(old(self)@, cid, src_path_id, view));
        }
        let outcome = self.save_session(cid, now_ms);
        let ghost a = choose|a: Answers|
            #![trigger model::stored(taken@, cid, a)]
            self@ == model::stored(taken@, cid, a).0 && ends(
                outcome,
                model::stored(taken@, cid, a).1,
            ) && self.store.journal() == taken.store.journal() + model::store_calls(
                taken@,
                cid,
                now_ms,
                a,
            );
        let ghost served = model::applied(old(self)@, cid, src_path_id, now_ms, view, a);
        match outcome {
            Err(e) => {
                assert(is_served(*old(self), *self, Err(e), served));
                Err(e)
            },
            Ok(_) => {
                let back = ServerRuntimeOutput { outbound_datagrams: datagrams, events };
                assert(back@ =~= model::handed_back(cid, src_path_id, view));
                assert(is_served(*old(self), *self, Ok(back), served));
                Ok(back)
            },
        }
    }

    /// Counts events and puts them as the runtime reports them.
    fn report_events(&mut self, cid: u64, events: &Vec<Event>) -> (reported: Vec<RuntimeEvent>)
        ensures
            final(self)@ == (ServerView {
                metrics: model::events_counted(
                    old(self)@.metrics,
                    session_types::event_views(events@),
                ),
                ..old(self)@
            }),
            final(self).store == old(self).store,
            types::runtime_event_views(reported@) == model::all_reported(
                cid,
                session_types::event_views(events@),
            ),
    {
        let ghost views = session_types::event_views(events@);
        let ghost start = self@;
        let mut reported: Vec<RuntimeEvent> = Vec::new();
        let mut i: usize = 0;
        assert(types::runtime_event_views(reported@) =~= model::all_reported(cid, views.take(0)));
        while i < events.len()
            invariant
                i <= events@.len(),
                views == session_types::event_views(events@),
                self@ == (ServerView {
                    metrics: model::events_counted(start.metrics, views.take(i as int)),
                    ..start
                }),
                self.store == old(self).store,
                types::runtime_event_views(reported@) == model::all_reported(
                    cid,
                    views.take(i as int),
                ),
            decreases events@.len() - i,
        {
            let ghost before = reported@;
            assert(views.take(i + 1).drop_last() =~= views.take(i as int));
            assert(views.take(i + 1).last() == events@[i as int]@);
            self.observe_core_event(&events[i]);
            reported.push(RuntimeEvent::CoreEvent { cid, event: events[i].clone() });
            if let Event::MessageReceived { msg_id, payload } = &events[i] {
                reported.push(
                    RuntimeEvent::MessageReceived {
                        cid,
                        msg_id: *msg_id,
                        payload_b64: base64_text(payload.as_slice()),
                    },
                );
            }
            assert(types::runtime_event_views(reported@) =~= types::runtime_event_views(before)
                + model::reported(cid, events@[i as int]@));
            i = i + 1;
        }
        assert(views.take(i as int) =~= views);
        reported
    }

    fn observe_core_event(&mut self, event: &Event)
        ensures
            final(self)@ == (ServerView {
                metrics: model::event_counted(old(self)@.metrics, event@),
                ..old(self)@
            }),
            final(self).store == old(self).store,
    {
        match event {
            Event::HandshakeStarted => {
                self.metrics.handshake_started = self.metrics.handshake_started.saturating_add(1);
            },
            Event::HandshakeEstablished => {
                self.metrics.handshake_established =
                self.metrics.handshake_established.saturating_add(1);
            },
            Event::Reactivated => {
                self.metrics.reactivated = self.metrics.reactivated.saturating_add(1);
            },
            Event::ReactivationProbeSent => {
                self.metrics.msr_probe_sent = self.metrics.msr_probe_sent.saturating_add(1);
                self.metrics.msr_missed_inferred =
                self.metrics.msr_missed_inferred.saturating_add(1);
            },
            Event::RequestRangeSent { .. } => {
                self.metrics.request_range_sent = self.metrics.request_range_sent.saturating_add(1);
            },
            Event::Disconnected => {
                self.count_disconnect();
            },
            _ => {},
        }
    }

    fn count_disconnect(&mut self)
        ensures
            final(self)@ == (ServerView {
                metrics: model::disconnect_counted(old(self)@.metrics),
                ..old(self)@
            }),
            final(self).store == old(self).store,
    {
        self.metrics.disconnected = self.metrics.disconnected.saturating_add(1);
        self.metrics.disconnect_reason_unknown =
        self.metrics.disconnect_reason_unknown.saturating_add(1);
    }

    fn ingest_timers(&mut self, cid: u64, timer_actions: &Vec<TimerAction>)
        ensures
            final(self)@ == (ServerView {
                timers: model::timers_set(old(self)@.timers, cid, timer_actions@),
                ..old(self)@
            }),
            final(self).store == old(self).store,
    {
        let mut i: usize = 0;
        while i < timer_actions.len()
            invariant
                i <= timer_actions@.len(),
                self@ == (ServerView {
                    timers: model::timers_set(
                        old(self)@.timers,
                        cid,
                        timer_actions@.take(i as int),
                    ),
                    ..old(self)@
                }),
                self.store == old(self).store,
            decreases timer_actions@.len() - i,
        {
            assert(timer_actions@.take(i + 1).drop_last() =~= timer_actions@.take(i as int));
            match timer_actions[i] {
                TimerAction::Schedule { id, deadline_ms } => {
                    self.timers.schedule(deadline_ms, cid, id);
                },
            }
            i = i + 1;
        }
        assert(timer_actions@.take(i as int) =~= timer_actions@);
    }

    fn observe_datagrams(&mut self, cid: u64, datagrams: &Vec<OutboundDatagram>)
        ensures
            final(self)@ == model::sent_on(
                old(self)@,
                cid,
                session_types::datagram_views(datagrams@),
            ),
            final(self).store == old(self).store,
    {
        let ghost views = session_types::datagram_views(datagrams@);
        let mut session = self.take_session(cid);
        let ghost start = model::Sent {
            metrics: old(self)@.metrics,
            ids: sent_ids(session),
        };
        let ghost here = session;
        let ghost held = self@;
        let mut i: usize = 0;
        while i < datagrams.len()
            invariant
                i <= datagrams@.len(),
                views == session_types::datagram_views(datagrams@),
                self.store == old(self).store,
                self@ == (ServerView { metrics: self.metrics, ..held }),
                (session is Some) == (here is Some),
                session is Some ==> session->0@ == (SessionView {
                    sent_data_ids: session->0@.sent_data_ids,
                    ..here->0@
                }),
                model::datagrams_counted(start, views.take(i as int)) == (model::Sent {
                    metrics: self.metrics,
                    ids: sent_ids(session),
                }),
            decreases datagrams@.len() - i,
        {
            assert(views.take(i + 1).drop_last() =~= views.take(i as int));
            assert(views.take(i + 1).last().bytes == datagrams@[i as int].bytes@);
            self.observe_datagram(&mut session, &datagrams[i].bytes);
            i = i + 1;
        }
        assert(views.take(i as int) =~= views);
        if let Some(session) = session {
            self.put_session(cid, session);
        }
        proof {
            assert(self@.sessions =~= model::sent_on(old(self)@, cid, views).sessions);
            assert(self@ =~= model::sent_on(old(self)@, cid, views));
        }
    }

    fn observe_datagram(&mut self, session: &mut Option<SessionRuntime>, bytes: &Vec<u8>)
        ensures
            final(self)@ == (ServerView { metrics: final(self).metrics, ..old(self)@ }),
            final(self).store == old(self).store,
            ((*final(session)) is Some) == ((*old(session)) is Some),
            (*old(session)) is Some ==> (*final(session))->0@ == (SessionView {
                sent_data_ids: (*final(session))->0@.sent_data_ids,
                ..(*old(session))->0@
            }),
            (model::Sent {
                metrics: final(self).metrics,
                ids: sent_ids(*final(session)),
            }) == model::datagram_counted(
                model::Sent {
                    metrics: old(self).metrics,
                    ids: sent_ids(*old(session)),
                },
                bytes@,
            ),
    {
        if let Ok(frame) = WireFrame::decode(bytes) {
            if frame.message_type == MessageType::Msr {
                self.metrics.msr_sent = self.metrics.msr_sent.saturating_add(1);
            } else if frame.message_type == MessageType::Data {
                self.metrics.data_sent = self.metrics.data_sent.saturating_add(1);
                if frame.payload.len() >= 8 {
                    let msg_id: u64 = read_be(frame.payload.as_slice(), 0, 8);
                    proof {
                        big_endian::lemma_be_range_values();
                        assert(frame.payload@.subrange(0, 8) =~= frame.payload@.take(8));
                        assert(model::sent_id(frame.payload@) == Some(msg_id));
                    }
                    let taken = session.take();
                    if let Some(mut known) = taken {
                        if !known.sent_data_ids.insert(msg_id) {
                            self.metrics.data_retransmit_inferred =
                            self.metrics.data_retransmit_inferred.saturating_add(1);
                        }
                        *session = Some(known);
                    }
                }
            }
        }
    }

    /// Brings a session to the store: a lost one is forgotten, another is kept.
    fn save_session(&mut self, cid: u64, now_ms: u64) -> (outcome: Result<(), ServerRuntimeError>)
        requires
            old(self).wf(),
        ensures
            final(self).wf(),
            exists|a: Answers|
                #![trigger model::stored(old(self)@, cid, a)]
                final(self)@ == model::stored(old(self)@, cid, a).0 && ends(
                    outcome,
                    model::stored(old(self)@, cid, a).1,
                ) && final(self).store.journal() == old(self).store.journal() + model::store_calls(
                    old(self)@,
                    cid,
                    now_ms,
                    a,
                ),
    {
        let record = match self.sessions.get(&cid) {
            None => {
                proof {
                    let a = no_answers();
                    assert(!self@.sessions.contains_key(cid));
                    assert(self.store.journal() + Seq::<StoreCall>::empty()
                        =~= self.store.journal());
                    assert(model::stored(old(self)@, cid, a) == (self@, None::<ServerErrorView>));
                }
                return Ok(());
            },
            Some(session) => {
                assert(self@.sessions.contains_key(cid) && self@.sessions[cid] == session@);
                if session.core.state() == LifecycleState::Lost {
                    None
                } else {
                    Some(
                        SessionRecord {
                            cid,
                            peer_id: session.peer_id.clone(),
                            negotiated_msr_interval_ms: self.cfg.msr_interval_ms,
                            disconnect_window_ms: self.cfg.disconnect_window_ms,
                            last_ordered_rx: session.core.last_ordered_rx(),
                            last_ordered_tx: 0,
                        },
                    )
                }
            },
        };
        match record {
            None => {
                let reply = self.store.delete(cid);
                let ghost a = Answers {
                    delete: store_types::deleted_view(reply),
                    ..no_answers()
                };
                assert(self.store.journal() =~= old(self).store.journal() + model::store_calls(
                    old(self)@,
                    cid,
                    now_ms,
                    a,
                ));
                assert(self@ == old(self)@);
                let outcome = self.session_forgotten(cid, reply);
                assert(model::stored(old(self)@, cid, a) == model::forgotten(
                    old(self)@,
                    cid,
                    a.delete,
                ));
                outcome
            },
            Some(record) => {
                let ghost view = record@;
                let upsert_start = Instant::now();
                let reply = self.store.upsert(
                    cid,
                    record,
                    self.cfg.disconnect_window_ms,
                    now_ms,
                );
                let upsert_us: u64 = micros_since(&upsert_start);
                let ghost a = Answers {
                    upsert: store_types::saved_view(reply),
                    upsert_us,
                    ..no_answers()
                };
                proof {
                    assert(view =~= model::snapshot(
                        old(self)@.cfg,
                        cid,
                        old(self)@.sessions[cid],
                    ));
                    assert(self.store.journal() =~= old(self).store.journal()
                        + model::store_calls(old(self)@, cid, now_ms, a));
                    assert(self@ == old(self)@);
                }
                let outcome = self.session_kept(reply, upsert_us);
                assert(model::stored(old(self)@, cid, a) == model::kept(
                    old(self)@,
                    a.upsert,
                    upsert_us,
                ));
                outcome
            },
        }
    }

    /// Takes the store's answer about a session that it was to forget.
    pub fn session_forgotten(&mut self, cid: u64, reply: Result<(), StoreError>) -> (outcome: Result<
        (),
        ServerRuntimeError,
    >)
        requires
            old(self).wf(),
        ensures
            final(self).wf(),
            final(self).store == old(self).store,
            ({
                let expected = model::forgotten(
                    old(self)@,
                    cid,
                    store_types::deleted_view(reply),
                );
                &&& final(self)@ == expected.0
                &&& ends(outcome, expected.1)
            }),
    {
        self.metrics.store_delete_calls = self.metrics.store_delete_calls.saturating_add(1);
        let _ = self.take_session(cid);
        match reply {
            Err(e) => {
                self.metrics.store_delete_failures =
                self.metrics.store_delete_failures.saturating_add(1);
                Err(ServerRuntimeError::Store(e))
            },
            Ok(_) => {
                self.count_disconnect();
                Ok(())
            },
        }
    }

    /// Takes the store's answer about a session that it was to keep.
    pub fn session_kept(&mut self, reply: Result<VersionedRecord, StoreError>, upsert_us: u64) -> (outcome:
        Result<(), ServerRuntimeError>)
        requires
            old(self).wf(),
        ensures
            final(self).wf(),
            final(self).store == old(self).store,
            ({
                let expected = model::kept(
                    old(self)@,
                    store_types::saved_view(reply),
                    upsert_us,
                );
                &&& final(self)@ == expected.0
                &&& ends(outcome, expected.1)
            }),
    {
        self.metrics.store_upsert_calls = self.metrics.store_upsert_calls.saturating_add(1);
        self.metrics.store_upsert_latency_us_total =
        self.metrics.store_upsert_latency_us_total.saturating_add(upsert_us);
        match reply {
            Err(e) => {
                self.metrics.store_upsert_failures =
                self.metrics.store_upsert_failures.saturating_add(1);
                Err(ServerRuntimeError::Store(e))
            },
            Ok(_) => Ok(()),
        }
    }
}

/// That making sure that a session is there went as the answer of the store says.
pub open spec fn is_ensured<S: SessionStore>(
    before: ServerRuntime<S>,
    after: ServerRuntime<S>,
    cid: u64,
    src_path_id: u32,
    now_ms: u64,
    outcome: Result<(), ServerRuntimeError>,
    load: Result<Option<EntryView>, StoreErrorView>,
    load_us: u64,
) -> bool {
    let a = Answers { load, load_us, ..no_answers() };
    let expected = model::ensured(before@, cid, src_path_id, a);
    &&& after@ == expected.0
    &&& ends(outcome, expected.1)
    &&& after.store.journal() == before.store.journal() + model::load_calls(
        before@,
        cid,
        now_ms,
        load,
    )
}

/// The messages sent on a session, where there is one.
pub open spec fn sent_ids(session: Option<SessionRuntime>) -> Option<Set<u64>> {
    match session {
        Some(session) => Some(session@.sent_data_ids),
        None => None,
    }
}

/// Answers where the store was not asked.
pub open spec fn no_answers() -> Answers {
    Answers {
        load: Ok(None),
        load_us: 0,
        upsert: Err(StoreErrorView::CorruptLogEntry),
        upsert_us: 0,
        delete: Ok(()),
    }
}

/// The answers that explain how the runtime went on after a step.
pub open spec fn step_answers<S: SessionStore>(
    moved: ServerRuntime<S>,
    after: ServerRuntime<S>,
    result: Result<ServerRuntimeOutput, ServerRuntimeError>,
    cid: u64,
    src_path_id: u32,
    now_ms: u64,
    step: Step,
) -> Answers {
    choose|a: Answers|
        is_served(
            moved,
            after,
            result,
            #[trigger] model::applied(moved@, cid, src_path_id, now_ms, step.out, a),
        )
}

fn clock_fits(cfg: &CoreConfig, now_ms: u64, message_type: MessageType) -> (fits: bool)
    ensures
        fits == model::clock_fits(*cfg, now_ms, message_type),
{
    let opens = message_type == MessageType::ClientHello || message_type == MessageType::HelloAck;
    cfg.disconnect_window_ms <= u64::MAX - now_ms && (!opens || cfg.msr_interval_ms <= u64::MAX
        - now_ms)
}

fn bound_events(session: &SessionRuntime, cid: u64, src_path_id: u32) -> (events: Vec<RuntimeEvent>)
    ensures
        types::runtime_event_views(events@) == model::binding(session@, cid, src_path_id),
{
    let mut events: Vec<RuntimeEvent> = Vec::new();
    if let (Some(vhost), Some(bound)) = (&session.bound_vhost, session.selected_path_id) {
        if bound == src_path_id {
            events.push(
                RuntimeEvent::VhostPathBound { cid, vhost: vhost.clone(), path_id: src_path_id },
            );
        }
    }
    assert(types::runtime_event_views(events@) =~= model::binding(session@, cid, src_path_id));
    events
}

fn route_datagrams(datagrams: Vec<OutboundDatagram>, src_path_id: u32) -> (routed: Vec<
    OutboundDatagram,
>)
    ensures
        session_types::datagram_views(routed@) == model::all_routed(
            session_types::datagram_views(datagrams@),
            src_path_id,
        ),
{
    let mut routed: Vec<OutboundDatagram> = Vec::new();
    for d in it: datagrams.into_iter()
        invariant
            it.seq() == datagrams@,
            routed@.len() == it.index(),
            forall|k: int|
                0 <= k < it.index() ==> (#[trigger] routed@[k])@ == model::routed(
                    datagrams@[k]@,
                    src_path_id,
                ),
    {
        let path_id: u32 = if d.path_id == 0 {
            src_path_id
        } else {
            d.path_id
        };
        routed.push(OutboundDatagram { path_id, bytes: d.bytes });
    }
    assert(session_types::datagram_views(routed@) =~= model::all_routed(
        session_types::datagram_views(datagrams@),
        src_path_id,
    ));
    routed
}

/// Making sure that a session is there and then handing it the datagram is what
/// serving the datagram comes to.
proof fn lemma_load_then_serve<S: SessionStore>(
    before: ServerRuntime<S>,
    middle: ServerRuntime<S>,
    after: ServerRuntime<S>,
    result: Result<ServerRuntimeOutput, ServerRuntimeError>,
    now_ms: u64,
    src_path_id: u32,
    bytes: Seq<u8>,
    load: Result<Option<EntryView>, StoreErrorView>,
    load_us: u64,
    a: Answers,
)
    requires
        wire::parse_frame(bytes) is Ok,
        ({
            let frame = wire::parse_frame(bytes)->Ok_0;
            &&& is_ensured(
                before,
                middle,
                frame.cid,
                src_path_id,
                now_ms,
                Ok(()),
                load,
                load_us,
            )
            &&& is_served(
                middle,
                after,
                result,
                model::session_served(
                    middle@,
                    frame.cid,
                    before@.sessions.contains_key(frame.cid),
                    frame.message_type,
                    now_ms,
                    src_path_id,
                    bytes,
                    a,
                ),
            )
        }),
    ensures
        is_served(
            before,
            after,
            result,
            model::datagram_served(
                before@,
                now_ms,
                src_path_id,
                bytes,
                Answers { load, load_us, ..a },
            ),
        ),
{
    let frame = wire::parse_frame(bytes)->Ok_0;
    let all = Answers { load, load_us, ..a };
    let known = before@.sessions.contains_key(frame.cid);
    let served = model::session_served(
        middle@,
        frame.cid,
        known,
        frame.message_type,
        now_ms,
        src_path_id,
        bytes,
        a,
    );
    lemma_load_is_past(
        middle@,
        frame.cid,
        known,
        frame.message_type,
        now_ms,
        src_path_id,
        bytes,
        a,
        load,
        load_us,
    );
    let whole = model::datagram_served(before@, now_ms, src_path_id, bytes, all);
    let asked = model::load_calls(before@, frame.cid, now_ms, load);
    assert(whole == (Served { calls: asked + served.calls, ..served }));
    assert(after.store.journal() =~= before.store.journal() + whole.calls);
}

/// What the store answered when a session was loaded matters no more once the
/// session is there.
proof fn lemma_load_is_past(
    v: ServerView,
    cid: u64,
    known: bool,
    message_type: MessageType,
    now_ms: u64,
    src_path_id: u32,
    bytes: Seq<u8>,
    a: Answers,
    load: Result<Option<EntryView>, StoreErrorView>,
    load_us: u64,
)
    ensures
        model::session_served(
            v,
            cid,
            known,
            message_type,
            now_ms,
            src_path_id,
            bytes,
            Answers { load, load_us, ..a },
        ) == model::session_served(
            v,
            cid,
            known,
            message_type,
            now_ms,
            src_path_id,
            bytes,
            a,
        ),
{
}

/// That a session has just been opened, as a server.
pub open spec fn waits_for_nothing(session: SessionView) -> bool {
    &&& session.core.role == Role::Server
    &&& session.core.last_ordered_rx == 0
    &&& session.core.received_buffer == Map::<u64, Seq<u8>>::empty()
}

proof fn lemma_opened_waits(cfg: CoreConfig, cid: u64, src_path_id: u32, found: Option<EntryView>)
    ensures
        waits_for_nothing(model::opened(cfg, cid, src_path_id, found)),
{
}

/// The machines after a due timer, where nothing failed.
proof fn lemma_cores_after_timer(
    v: ServerView,
    now_ms: u64,
    due: (u64, u64, TimerId),
    a: Answers,
)
    requires
        model::timer_served(v, now_ms, due, a).result is Ok,
    ensures
        ({
            let after = model::cores(model::timer_served(v, now_ms, due, a).runtime);
            let before = model::cores(v);
            let cid = due.1;
            let step = session_model::timer_step(before[cid], now_ms, due.2);
            if !before.contains_key(cid) {
                after == before
            } else {
                &&& step.error is None
                &&& after == (if step.machine.state == LifecycleState::Lost {
                    before.remove(cid)
                } else {
                    before.insert(cid, step.machine)
                })
            }
        }),
{
    let after = model::cores(model::timer_served(v, now_ms, due, a).runtime);
    let before = model::cores(v);
    let cid = due.1;
    let step = session_model::timer_step(before[cid], now_ms, due.2);
    if before.contains_key(cid) {
        assert(v.sessions.contains_key(cid));
        if step.machine.state == LifecycleState::Lost {
            assert(after =~= before.remove(cid));
        } else {
            assert(after =~= before.insert(cid, step.machine));
        }
    } else {
        assert(!v.sessions.contains_key(cid));
        assert(after =~= before);
    }
}

/// Polling stops at the first failure, whatever the answers after it would be.
proof fn lemma_poll_stops(
    v: ServerView,
    now_ms: u64,
    due: Seq<(u64, u64, TimerId)>,
    answers: Seq<Answers>,
) -> (all: Seq<Answers>)
    requires
        answers.len() <= due.len(),
        model::polled(v, now_ms, due.take(answers.len() as int), answers).result is Err,
    ensures
        model::polled(v, now_ms, due, all) == model::polled(
            v,
            now_ms,
            due.take(answers.len() as int),
            answers,
        ),
    decreases due.len() - answers.len(),
{
    let at = answers.len() as int;
    if at == due.len() {
        assert(due.take(at) =~= due);
        answers
    } else {
        let longer = answers.push(no_answers());
        assert(longer.drop_last() =~= answers);
        assert(due.take(at + 1).drop_last() =~= due.take(at));
        lemma_poll_stops(v, now_ms, due, longer)
    }
}

} // verus!
