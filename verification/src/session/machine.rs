//! The session machine.

use std::collections::{BTreeMap, BTreeSet};

use vstd::prelude::*;

use crate::big_endian;
use crate::big_endian::{append_be, read_be};
use crate::session::codec;
use crate::session::codec::{
    decode_msr_payload, decode_range, decode_timer_ack_tlv, decode_timer_proposal_tlv,
    encode_frame, encode_frame_with_tlvs, encode_msr_payload, encode_msr_signal_tlv, encode_range,
    encode_timer_ack_tlv, encode_timer_proposal_tlv, find_msr_signal_tlv, saturating_times,
    validate_timer_proposal, TLV_TIMER_ACK, TLV_TIMER_PROPOSAL,
};
use crate::session::laws;
use crate::session::model;
use crate::session::model::{
    FragmentsView, MachineView, Step, CLIENT_KEEPALIVE_EVERY_SERVER_MSR, FRAGMENT_CHUNK_LEN,
    FRAGMENT_HEADER_LEN, MAX_DATA_PAYLOAD_PER_FRAME,
    SERVER_MAX_CONSECUTIVE_SERVER_MSR_WITHOUT_CLIENT_MSR,
};
use crate::session::types::{
    CoreConfig, CoreError, CoreOutput, DatagramView, Event, LifecycleState, OutputView, PathEvent,
    PendingRenegotiation, Role, TimerId, TimerProposal,
};
use crate::wire;
use crate::wire::{MessageType, Tlv, WireFrame};

verus! {

broadcast use vstd::laws_cmp::group_laws_cmp;

#[derive(Debug)]
pub struct FragmentAccumulator {
    pub total: u16,
    pub chunks: BTreeMap<u16, Vec<u8>>,
}

impl View for FragmentAccumulator {
    type V = FragmentsView;

    open spec fn view(&self) -> FragmentsView {
        FragmentsView { total: self.total, chunks: self.chunks@.map_values(|c: Vec<u8>| c@) }
    }
}

#[derive(Debug)]
pub struct CoreMachine {
    pub role: Role,
    pub cid: u64,
    pub state: LifecycleState,
    pub cfg: CoreConfig,
    pub current_path_id: u32,
    pub next_outbound_id: u64,
    pub outbound_messages: BTreeMap<u64, Vec<u8>>,
    pub received_ids: BTreeSet<u64>,
    pub received_buffer: BTreeMap<u64, Vec<u8>>,
    pub received_fragments: BTreeMap<u64, FragmentAccumulator>,
    pub last_ordered_rx: u64,
    pub last_requested_end: u64,
    pub last_server_msr_at_ms: Option<u64>,
    pub disconnect_deadline_ms: Option<u64>,
    pub client_server_msr_rx_since_last_keepalive: u32,
    pub server_consecutive_msr_without_client_msr: u32,
    pub next_proposal_id: u32,
    pub pending_local_proposal: Option<PendingRenegotiation>,
}

impl View for CoreMachine {
    type V = MachineView;

    open spec fn view(&self) -> MachineView {
        MachineView {
            role: self.role,
            cid: self.cid,
            state: self.state,
            cfg: self.cfg,
            current_path_id: self.current_path_id,
            next_outbound_id: self.next_outbound_id,
            outbound_messages: self.outbound_messages@.map_values(|p: Vec<u8>| p@),
            received_ids: self.received_ids@,
            received_buffer: self.received_buffer@.map_values(|p: Vec<u8>| p@),
            received_fragments: self.received_fragments@.map_values(|f: FragmentAccumulator| f@),
            last_ordered_rx: self.last_ordered_rx,
            last_requested_end: self.last_requested_end,
            last_server_msr_at_ms: self.last_server_msr_at_ms,
            disconnect_deadline_ms: self.disconnect_deadline_ms,
            client_server_msr_rx_since_last_keepalive: self.client_server_msr_rx_since_last_keepalive,
            server_consecutive_msr_without_client_msr: self.server_consecutive_msr_without_client_msr,
            next_proposal_id: self.next_proposal_id,
            pending_local_proposal: self.pending_local_proposal,
        }
    }
}

/// That a call came out as the model's step says.
pub open spec fn agrees(result: Result<CoreOutput, CoreError>, step: Step) -> bool {
    match step.error {
        Some(e) => result == Err::<CoreOutput, CoreError>(e),
        None => result is Ok && result->Ok_0@ == step.out,
    }
}

/// An output with more datagrams at its end.
pub open spec fn with_datagrams(out: OutputView, datagrams: Seq<DatagramView>) -> OutputView {
    OutputView { outbound_datagrams: out.outbound_datagrams + datagrams, ..out }
}

impl CoreMachine {
    pub open spec fn wf(&self) -> bool {
        self@.wf()
    }

    pub fn new(role: Role, cid: u64, cfg: CoreConfig) -> (machine: CoreMachine)
        ensures
            machine.wf(),
            machine@ == model::fresh(role, cid, cfg),
    {
        let machine = CoreMachine {
            role,
            cid,
            state: LifecycleState::PreHandshake,
            cfg,
            current_path_id: 0,
            next_outbound_id: 1,
            outbound_messages: BTreeMap::new(),
            received_ids: BTreeSet::new(),
            received_buffer: BTreeMap::new(),
            received_fragments: BTreeMap::new(),
            last_ordered_rx: 0,
            last_requested_end: 0,
            last_server_msr_at_ms: None,
            disconnect_deadline_ms: None,
            client_server_msr_rx_since_last_keepalive: 0,
            server_consecutive_msr_without_client_msr: 0,
            next_proposal_id: 1,
            pending_local_proposal: None,
        };
        assert(machine@ =~= model::fresh(role, cid, cfg));
        machine
    }

    pub fn state(&self) -> (state: LifecycleState)
        ensures
            state == self@.state,
    {
        self.state
    }

    pub fn last_ordered_rx(&self) -> (id: u64)
        ensures
            id == self@.last_ordered_rx,
    {
        self.last_ordered_rx
    }

    /// Whether there is room for any datagram and any timer at `now_ms`.
    pub fn has_room(&self, now_ms: u64) -> (room: bool)
        requires
            self.wf(),
        ensures
            room == model::has_room(self@, now_ms),
            room ==> forall|path: u32, bytes: Seq<u8>|
                #![trigger model::datagram_fits(self@, now_ms, path, bytes)]
                model::datagram_fits(self@, now_ms, path, bytes),
            room ==> forall|id: TimerId|
                #![trigger model::timer_fits(self@, now_ms, id)]
                model::timer_fits(self@, now_ms, id),
    {
        proof {
            assert(self@.received_buffer.dom() =~= self.received_buffer@.dom());
            if model::has_room(self@, now_ms) {
                laws::law_room_is_enough(self@, now_ms);
            }
        }
        let waiting: u128 = self.received_buffer.len() as u128;
        now_ms as u128 + self.cfg.disconnect_window_ms as u128 <= u64::MAX as u128 && now_ms as u128
            + self.cfg.msr_interval_ms as u128 <= u64::MAX as u128 && self.last_ordered_rx as u128
            + waiting + 1 < u64::MAX as u128
    }

    /// Opens the handshake; only a client does.
    pub fn begin_handshake(&mut self, _now_ms: u64) -> (result: Result<CoreOutput, CoreError>)
        requires
            old(self).wf(),
        ensures
            final(self).wf(),
            final(self)@ == model::begin_step(old(self)@).machine,
            agrees(result, model::begin_step(old(self)@)),
    {
        let mut out = CoreOutput::default();
        if self.role == Role::Client {
            let empty: Vec<u8> = Vec::new();
            proof {
                codec::lemma_core_frame_fits(
                    MessageType::ClientHello,
                    self.cid,
                    empty@,
                    Seq::empty(),
                );
            }
            let bytes = encode_frame(MessageType::ClientHello, self.cid, &empty)?;
            out.push_datagram(self.current_path_id, bytes);
            out.push_event(Event::HandshakeStarted);
            assert(empty@ =~= Seq::<u8>::empty());
        }
        Ok(out)
    }

    /// The highest id that waits to be pulled.
    fn max_pending_id(&self) -> (id: u64)
        requires
            self.wf(),
        ensures
            id == self@.max_pending_id(),
    {
        self.next_outbound_id - 1
    }

    fn touch_disconnect_deadline(&mut self, now_ms: u64)
        requires
            now_ms + old(self)@.cfg.disconnect_window_ms <= u64::MAX,
        ensures
            final(self)@ == old(self)@.deadline_touched(now_ms),
    {
        self.disconnect_deadline_ms = Some(now_ms + self.cfg.disconnect_window_ms);
        assert(self@ =~= old(self)@.deadline_touched(now_ms));
    }

    fn on_valid_peer_datagram(&mut self, now_ms: u64)
        ensures
            final(self)@ == old(self)@.peer_heard(now_ms),
    {
        if self.state != LifecycleState::Established {
            return ;
        }
        if self.role == Role::Client {
            self.last_server_msr_at_ms = Some(now_ms);
        } else if self.role == Role::Server {
            self.server_consecutive_msr_without_client_msr = 0;
        }
        assert(self@ =~= old(self)@.peer_heard(now_ms));
    }

    fn schedule_server_timers(&mut self, now_ms: u64, out: &mut CoreOutput)
        requires
            now_ms + old(self)@.cfg.disconnect_window_ms <= u64::MAX,
            now_ms + old(self)@.cfg.msr_interval_ms <= u64::MAX,
        ensures
            final(self)@ == old(self)@.deadline_touched(now_ms),
            final(out)@ == model::server_timers(old(self)@, now_ms, old(out)@),
    {
        self.touch_disconnect_deadline(now_ms);
        out.push_timer(TimerId::ServerMsr, now_ms + self.cfg.msr_interval_ms);
        out.push_timer(TimerId::Disconnect, now_ms + self.cfg.disconnect_window_ms);
    }

    fn schedule_client_timers(&mut self, now_ms: u64, out: &mut CoreOutput)
        requires
            now_ms + old(self)@.cfg.disconnect_window_ms <= u64::MAX,
            now_ms + old(self)@.cfg.msr_interval_ms <= u64::MAX,
        ensures
            final(self)@ == (MachineView {
                last_server_msr_at_ms: Some(now_ms),
                client_server_msr_rx_since_last_keepalive: 0,
                ..old(self)@
            }).deadline_touched(now_ms),
            final(out)@ == model::client_timers(old(self)@, now_ms, old(out)@),
    {
        self.last_server_msr_at_ms = Some(now_ms);
        self.client_server_msr_rx_since_last_keepalive = 0;
        assert(self@ =~= (MachineView {
            last_server_msr_at_ms: Some(now_ms),
            client_server_msr_rx_since_last_keepalive: 0,
            ..old(self)@
        }));
        self.touch_disconnect_deadline(now_ms);
        out.push_timer(TimerId::ClientProbe, now_ms + self.cfg.msr_interval_ms);
        out.push_timer(TimerId::Disconnect, now_ms + self.cfg.disconnect_window_ms);
    }

    fn handle_msr_signal(
        &mut self,
        now_ms: u64,
        src_path_id: u32,
        next_pending: u64,
        control: bool,
        out: &mut CoreOutput,
    ) -> (result: Result<(), CoreError>)
        requires
            old(self).wf(),
        ensures
            final(self).wf(),
            ({
                let step = model::msr_signal_step(
                    old(self)@,
                    now_ms,
                    src_path_id,
                    next_pending,
                    control,
                    old(out)@,
                );
                &&& final(self)@ == step.machine
                &&& final(out)@ == step.out
                &&& step.error is None
                &&& result == Ok::<(), CoreError>(())
            }),
    {
        if self.role == Role::Client {
            self.client_hears_msr(now_ms, src_path_id, control, out)?;
        } else {
            self.server_consecutive_msr_without_client_msr = 0;
            assert(self@ =~= (MachineView {
                server_consecutive_msr_without_client_msr: 0,
                ..old(self)@
            }));
        }
        if self.state == LifecycleState::Established && next_pending > self.last_requested_end {
            let ghost before = self@;
            let start: u64 = self.last_requested_end + 1;
            self.last_requested_end = next_pending;
            assert(self@ =~= (MachineView { last_requested_end: next_pending, ..before }));
            let request = encode_range(start, next_pending);
            let tlvs: Vec<Tlv> = vec![
                encode_msr_signal_tlv(self.last_ordered_rx, self.max_pending_id()),
            ];
            proof {
                assert(wire::tlv_views(tlvs@) =~= model::own_signal(self@));
                codec::lemma_core_frame_fits(
                    MessageType::RequestRange,
                    self.cid,
                    request@,
                    wire::tlv_views(tlvs@),
                );
            }
            let bytes = encode_frame_with_tlvs(
                MessageType::RequestRange,
                self.cid,
                &request,
                tlvs,
            )?;
            out.push_datagram(src_path_id, bytes);
            out.push_event(Event::RequestRangeSent { start, end: next_pending });
        }
        Ok(())
    }

    fn client_hears_msr(
        &mut self,
        now_ms: u64,
        src_path_id: u32,
        control: bool,
        out: &mut CoreOutput,
    ) -> (result: Result<(), CoreError>)
        requires
            old(self).wf(),
        ensures
            final(self).wf(),
            ({
                let step = model::client_msr_heard(
                    old(self)@,
                    now_ms,
                    src_path_id,
                    control,
                    old(out)@,
                );
                &&& final(self)@ == step.machine
                &&& final(out)@ == step.out
                &&& step.error is None
                &&& result == Ok::<(), CoreError>(())
            }),
    {
        self.last_server_msr_at_ms = Some(now_ms);
        if control {
            self.client_server_msr_rx_since_last_keepalive =
            self.client_server_msr_rx_since_last_keepalive.saturating_add(1);
            if self.client_server_msr_rx_since_last_keepalive >= CLIENT_KEEPALIVE_EVERY_SERVER_MSR {
                self.client_server_msr_rx_since_last_keepalive = 0;
                let keepalive = encode_msr_payload(self.last_ordered_rx, self.max_pending_id());
                proof {
                    codec::lemma_core_frame_fits(
                        MessageType::Msr,
                        self.cid,
                        keepalive@,
                        Seq::empty(),
                    );
                }
                let bytes = encode_frame(MessageType::Msr, self.cid, &keepalive)?;
                out.push_datagram(src_path_id, bytes);
            }
        }
        if self.state == LifecycleState::Reactivating {
            self.state = LifecycleState::Established;
            out.push_event(Event::Reactivated);
        }
        assert(self@ =~= model::client_msr_heard(
            old(self)@,
            now_ms,
            src_path_id,
            control,
            old(out)@,
        ).machine);
        Ok(())
    }

    fn handle_msr_tlv(&mut self, src_path_id: u32, tlv: &Tlv, out: &mut CoreOutput) -> (result:
        Result<(), CoreError>)
        requires
            old(self).wf(),
        ensures
            final(self).wf(),
            ({
                let step = model::msr_tlv_step(old(self)@, src_path_id, tlv@, old(out)@);
                &&& final(self)@ == step.machine
                &&& final(out)@ == step.out
                &&& match step.error {
                    Some(e) => result == Err::<(), CoreError>(e),
                    None => result == Ok::<(), CoreError>(()),
                }
            }),
    {
        if tlv.kind == TLV_TIMER_PROPOSAL {
            let (proposal_id, proposal) = match decode_timer_proposal_tlv(tlv) {
                Some(found) => found,
                None => {
                    return Err(CoreError::MalformedTimerProposal);
                },
            };
            let accepted: bool = match validate_timer_proposal(self.cfg, proposal) {
                Ok(_) => true,
                Err(_) => false,
            };
            let msr = encode_msr_payload(self.last_ordered_rx, self.max_pending_id());
            let tlvs: Vec<Tlv> = vec![encode_timer_ack_tlv(proposal_id, accepted)];
            proof {
                assert(wire::tlv_views(tlvs@) =~= seq![codec::ack_tlv(proposal_id, accepted)]);
                codec::lemma_core_frame_fits(
                    MessageType::Msr,
                    self.cid,
                    msr@,
                    wire::tlv_views(tlvs@),
                );
            }
            let bytes = encode_frame_with_tlvs(MessageType::Msr, self.cid, &msr, tlvs)?;
            out.push_datagram(src_path_id, bytes);
            if accepted {
                self.cfg = proposal.to_config();
                out.push_event(Event::TimerRenegotiationCommitted { proposal_id });
            } else {
                out.push_event(Event::TimerRenegotiationRejected { proposal_id });
            }
        } else if tlv.kind == TLV_TIMER_ACK {
            let (proposal_id, accepted) = match decode_timer_ack_tlv(tlv) {
                Some(found) => found,
                None => {
                    return Err(CoreError::MalformedTimerAck);
                },
            };
            if let Some(pending) = self.pending_local_proposal {
                if pending.proposal_id == proposal_id {
                    if accepted {
                        self.cfg = pending.proposal.to_config();
                        out.push_event(Event::TimerRenegotiationCommitted { proposal_id });
                    } else {
                        out.push_event(Event::TimerRenegotiationRejected { proposal_id });
                    }
                    self.pending_local_proposal = None;
                }
            }
        }
        assert(self@ =~= model::msr_tlv_step(old(self)@, src_path_id, tlv@, old(out)@).machine);
        Ok(())
    }

    fn handle_msr(
        &mut self,
        now_ms: u64,
        src_path_id: u32,
        frame: &WireFrame,
        out: &mut CoreOutput,
    ) -> (result: Result<(), CoreError>)
        requires
            old(self).wf(),
        ensures
            final(self).wf(),
            ({
                let step = model::msr_step(old(self)@, now_ms, src_path_id, frame@, old(out)@);
                &&& final(self)@ == step.machine
                &&& final(out)@ == step.out
                &&& match step.error {
                    Some(e) => result == Err::<(), CoreError>(e),
                    None => result == Ok::<(), CoreError>(()),
                }
            }),
    {
        let next_pending: u64 = match decode_msr_payload(&frame.payload) {
            Some((_acked, next_pending)) => next_pending,
            None => {
                return Err(CoreError::MalformedMsr);
            },
        };
        let ghost views = wire::tlv_views(frame.tlvs@);
        let ghost whole = model::msr_tlvs_step(old(self)@, src_path_id, views, old(out)@);
        let mut i: usize = 0;
        assert(views.skip(0) =~= views);
        while i < frame.tlvs.len()
            invariant
                i <= frame.tlvs@.len(),
                views == wire::tlv_views(frame.tlvs@),
                self.wf(),
                whole == model::msr_tlvs_step(self@, src_path_id, views.skip(i as int), out@),
                whole == model::msr_tlvs_step(old(self)@, src_path_id, views, old(out)@),
                frame@.tlvs == views,
                codec::pair_of(frame@.payload) matches Some((_, n)) && n == next_pending,
            decreases frame.tlvs@.len() - i,
        {
            let ghost rest = views.skip(i as int);
            assert(rest[0] == frame.tlvs@[i as int]@);
            assert(rest.skip(1) =~= views.skip(i + 1));
            self.handle_msr_tlv(src_path_id, &frame.tlvs[i], out)?;
            i = i + 1;
        }
        self.handle_msr_signal(now_ms, src_path_id, next_pending, true, out)
    }

    /// Sends one queued message, in one frame or in fragments.
    fn send_message(&self, src_path_id: u32, id: u64, msg: &Vec<u8>, out: &mut CoreOutput) -> (result:
        Result<(), CoreError>)
        requires
            self.wf(),
        ensures
            match model::message_datagrams(self@, src_path_id, id, msg@) {
                None => result == Err::<(), CoreError>(CoreError::MalformedData),
                Some(datagrams) => {
                    &&& result == Ok::<(), CoreError>(())
                    &&& final(out)@ == with_datagrams(old(out)@, datagrams)
                },
            },
    {
        let len: usize = msg.len();
        if len <= MAX_DATA_PAYLOAD_PER_FRAME - 8 {
            let mut data: Vec<u8> = Vec::with_capacity(8 + len);
            append_be(&mut data, id, 8);
            data.extend_from_slice(msg);
            proof {
                big_endian::lemma_be_bytes_len(id as nat, 8);
                assert(data@ =~= model::data_payload(id, msg@));
            }
            let bytes = self.encode_with_signal(MessageType::Data, &data)?;
            out.push_datagram(src_path_id, bytes);
            assert(out@ =~= with_datagrams(
                old(out)@,
                model::message_datagrams(self@, src_path_id, id, msg@).unwrap(),
            ));
            return Ok(());
        }
        let chunk_size: usize = FRAGMENT_CHUNK_LEN;
        let total_frags: usize = len / chunk_size + if len % chunk_size > 0 {
            1
        } else {
            0
        };
        assert(total_frags == model::fragment_count(msg@));
        if total_frags > u16::MAX as usize {
            return Err(CoreError::MalformedData);
        }
        let ghost datagrams = model::message_datagrams(self@, src_path_id, id, msg@).unwrap();
        let mut idx: usize = 0;
        assert(out@ =~= with_datagrams(old(out)@, datagrams.take(0)));
        while idx < total_frags
            invariant
                idx <= total_frags <= u16::MAX,
                self.wf(),
                total_frags == model::fragment_count(msg@),
                len == msg@.len(),
                !model::fits_one_frame(msg@),
                chunk_size == FRAGMENT_CHUNK_LEN,
                Some(datagrams) == model::message_datagrams(self@, src_path_id, id, msg@),
                datagrams.len() == total_frags,
                out@ == with_datagrams(old(out)@, datagrams.take(idx as int)),
            decreases total_frags - idx,
        {
            let start: usize = idx * chunk_size;
            let end: usize = if len - start >= chunk_size {
                start + chunk_size
            } else {
                len
            };
            let chunk = vstd::slice::slice_subrange(msg.as_slice(), start, end);
            let mut data: Vec<u8> = Vec::with_capacity(FRAGMENT_HEADER_LEN + chunk.len());
            append_be(&mut data, id, 8);
            append_be(&mut data, idx as u64, 2);
            append_be(&mut data, total_frags as u64, 2);
            data.extend_from_slice(chunk);
            proof {
                big_endian::lemma_be_bytes_len(id as nat, 8);
                big_endian::lemma_be_bytes_len(idx as nat, 2);
                big_endian::lemma_be_bytes_len(total_frags as nat, 2);
                assert(data@ =~= model::fragment_payload(id, msg@, idx as nat));
            }
            let bytes = self.encode_with_signal(MessageType::Fragment, &data)?;
            let ghost before = out@;
            out.push_datagram(src_path_id, bytes);
            proof {
                assert(datagrams.take(idx + 1) =~= datagrams.take(idx as int).push(
                    datagrams[idx as int],
                ));
                assert(out@ =~= with_datagrams(old(out)@, datagrams.take(idx + 1)));
            }
            idx = idx + 1;
        }
        assert(datagrams.take(total_frags as int) =~= datagrams);
        Ok(())
    }

    /// A frame with this machine's own advertisement next to its payload.
    fn encode_with_signal(&self, message_type: MessageType, payload: &Vec<u8>) -> (result: Result<
        Vec<u8>,
        CoreError,
    >)
        requires
            self.wf(),
            payload@.len() <= wire::MAX_PAYLOAD_LEN,
        ensures
            result is Ok,
            result->Ok_0@ == codec::core_frame_bytes(
                message_type,
                self@.cid,
                payload@,
                model::own_signal(self@),
            ),
    {
        let tlvs: Vec<Tlv> = vec![
            encode_msr_signal_tlv(self.last_ordered_rx, self.max_pending_id()),
        ];
        proof {
            assert(wire::tlv_views(tlvs@) =~= model::own_signal(self@));
            codec::lemma_core_frame_fits(
                message_type,
                self.cid,
                payload@,
                wire::tlv_views(tlvs@),
            );
        }
        encode_frame_with_tlvs(message_type, self.cid, payload, tlvs)
    }

    fn handle_request_range(&self, src_path_id: u32, payload: &[u8], out: &mut CoreOutput) -> (result:
        Result<(), CoreError>)
        requires
            self.wf(),
        ensures
            ({
                let step = model::request_range_step(self@, src_path_id, payload@, old(out)@);
                match step.error {
                    Some(e) => result == Err::<(), CoreError>(e),
                    None => result == Ok::<(), CoreError>(()) && final(out)@ == step.out,
                }
            }),
    {
        let (start, end) = match decode_range(payload) {
            Some(range) => range,
            None => {
                return Err(CoreError::MalformedRequestRange);
            },
        };
        let ghost whole = model::range_datagrams(self@, src_path_id, start as int, end as int);
        let ghost mut sent = Seq::<DatagramView>::empty();
        let mut id: u64 = start;
        let mut more: bool = start <= end;
        proof {
            assert(out@ =~= with_datagrams(old(out)@, sent));
            if whole is Some {
                assert(sent + whole.unwrap() =~= whole.unwrap());
            }
        }
        while more
            invariant
                self.wf(),
                more ==> start <= id <= end,
                out@ == with_datagrams(old(out)@, sent),
                ({
                    let at = if more {
                        id as int
                    } else {
                        end + 1
                    };
                    match model::range_datagrams(self@, src_path_id, at, end as int) {
                        None => whole is None,
                        Some(rest) => whole == Some(sent + rest),
                    }
                }),
                whole == model::range_datagrams(self@, src_path_id, start as int, end as int),
                codec::pair_of(payload@) == Some((start, end)),
            decreases end - id + if more {
                1int
            } else {
                0int
            },
        {
            let ghost known = self@.outbound_messages;
            if let Some(msg) = self.outbound_messages.get(&id) {
                assert(known.contains_key(id) && known[id] == msg@);
                self.send_message(src_path_id, id, msg, out)?;
                proof {
                    let first = model::message_datagrams(
                        self@,
                        src_path_id,
                        id,
                        known[id],
                    ).unwrap();
                    let rest = model::range_datagrams(self@, src_path_id, id + 1, end as int);
                    if rest is Some {
                        assert(sent + (first + rest.unwrap()) =~= (sent + first) + rest.unwrap());
                    }
                    assert(out@ =~= with_datagrams(old(out)@, sent + first));
                    sent = sent + first;
                }
            } else {
                proof {
                    assert(!known.contains_key(id));
                    let rest = model::range_datagrams(self@, src_path_id, id + 1, end as int);
                    if rest is Some {
                        assert(Seq::<DatagramView>::empty() + rest.unwrap() =~= rest.unwrap());
                    }
                }
            }
            if id == end {
                more = false;
            } else {
                id = id + 1;
            }
        }
        assert(sent + Seq::<DatagramView>::empty() =~= sent);
        Ok(())
    }

    fn flush_ordered(&mut self, out: &mut CoreOutput)
        requires
            old(self).wf(),
            model::flush(old(self)@, old(out)@).machine.last_ordered_rx < u64::MAX,
        ensures
            final(self).wf(),
            final(self)@ == model::flush(old(self)@, old(out)@).machine,
            final(out)@ == model::flush(old(self)@, old(out)@).out,
            model::flush(old(self)@, old(out)@).error is None,
    {
        let mut more: bool = true;
        let ghost whole = model::flush(old(self)@, old(out)@);
        while more
            invariant
                self.wf(),
                whole == model::flush(old(self)@, old(out)@),
                whole.machine.last_ordered_rx < u64::MAX,
                more ==> whole == model::flush(self@, out@),
                !more ==> whole == model::done(self@, out@),
            decreases
                u64::MAX - self@.last_ordered_rx,
                if more {
                    1int
                } else {
                    0int
                },
        {
            let ghost before = *self;
            let next: u64 = self.last_ordered_rx + 1;
            match self.received_buffer.remove(&next) {
                Some(payload) => {
                    proof {
                        model::lemma_flush_grows(before@, out@);
                        assert(before@.received_buffer.contains_key(next));
                        assert(before@.received_buffer[next] == payload@);
                    }
                    self.last_ordered_rx = next;
                    assert(self@ =~= (MachineView {
                        last_ordered_rx: next,
                        received_buffer: before@.received_buffer.remove(next),
                        ..before@
                    }));
                    proof {
                        model::lemma_flush_grows(self@, out@);
                    }
                    out.push_event(Event::MessageDelivered { msg_id: next });
                    out.push_event(Event::MessageReceived { msg_id: next, payload });
                    proof {
                        model::lemma_flush_grows(self@, out@);
                    }
                },
                None => {
                    assert(!before@.received_buffer.contains_key(next));
                    assert(self@ =~= before@);
                    more = false;
                },
            }
        }
    }

    fn handle_data(&mut self, payload: &[u8], out: &mut CoreOutput) -> (result: Result<
        (),
        CoreError,
    >)
        requires
            old(self).wf(),
            model::data_step(old(self)@, payload@, old(out)@).machine.last_ordered_rx < u64::MAX,
        ensures
            final(self).wf(),
            ({
                let step = model::data_step(old(self)@, payload@, old(out)@);
                &&& final(self)@ == step.machine
                &&& match step.error {
                    Some(e) => result == Err::<(), CoreError>(e),
                    None => result == Ok::<(), CoreError>(()) && final(out)@ == step.out,
                }
            }),
    {
        if payload.len() < 8 {
            return Err(CoreError::MalformedData);
        }
        let msg_id: u64 = read_be(payload, 0, 8);
        if self.received_ids.contains(&msg_id) {
            return Ok(());
        }
        let message = vstd::slice::slice_to_vec(
            vstd::slice::slice_subrange(payload, 8, payload.len()),
        );
        assert(message@ =~= payload@.skip(8));
        self.complete_message(msg_id, message, out);
        Ok(())
    }

    /// Takes a whole message in and hands over what is in order.
    fn complete_message(&mut self, msg_id: u64, message: Vec<u8>, out: &mut CoreOutput)
        requires
            old(self).wf(),
            !old(self)@.received_ids.contains(msg_id),
            model::flush(
                model::message_completed(old(self)@, msg_id, message@),
                old(out)@,
            ).machine.last_ordered_rx < u64::MAX,
        ensures
            final(self).wf(),
            ({
                let step = model::flush(
                    model::message_completed(old(self)@, msg_id, message@),
                    old(out)@,
                );
                &&& final(self)@ == step.machine
                &&& final(out)@ == step.out
                &&& step.error is None
            }),
    {
        self.received_ids.insert(msg_id);
        self.received_buffer.insert(msg_id, message);
        self.received_fragments.remove(&msg_id);
        proof {
            assert(self@ =~= model::message_completed(old(self)@, msg_id, message@));
            model::lemma_completed_wf(old(self)@, msg_id, message@);
        }
        self.flush_ordered(out);
    }

    fn handle_fragment(&mut self, payload: &[u8], out: &mut CoreOutput) -> (result: Result<
        (),
        CoreError,
    >)
        requires
            old(self).wf(),
            model::fragment_step(old(self)@, payload@, old(out)@).machine.last_ordered_rx
                < u64::MAX,
        ensures
            final(self).wf(),
            ({
                let step = model::fragment_step(old(self)@, payload@, old(out)@);
                &&& final(self)@ == step.machine
                &&& match step.error {
                    Some(e) => result == Err::<(), CoreError>(e),
                    None => result == Ok::<(), CoreError>(()) && final(out)@ == step.out,
                }
            }),
    {
        if payload.len() < FRAGMENT_HEADER_LEN {
            return Err(CoreError::MalformedData);
        }
        let msg_id: u64 = read_be(payload, 0, 8);
        if self.received_ids.contains(&msg_id) {
            return Ok(());
        }
        proof {
            big_endian::lemma_be_range_values();
        }
        let frag_idx: u16 = read_be(payload, 8, 2) as u16;
        let frag_total: u16 = read_be(payload, 10, 2) as u16;
        if frag_total == 0 || frag_idx >= frag_total {
            return Err(CoreError::MalformedData);
        }
        let ghost before = self@;
        let known_total: Option<u16> = match self.received_fragments.get(&msg_id) {
            Some(acc) => {
                assert(before.received_fragments[msg_id].total == acc.total);
                Some(acc.total)
            },
            None => None,
        };
        if let Some(total) = known_total {
            if total != frag_total {
                return Err(CoreError::MalformedData);
            }
        }
        let mut chunks: BTreeMap<u16, Vec<u8>> = match self.received_fragments.remove(&msg_id) {
            Some(acc) => {
                assert(before.received_fragments.contains_key(msg_id));
                assert(before.received_fragments[msg_id] == acc@);
                acc.chunks
            },
            None => BTreeMap::new(),
        };
        let ghost held = chunks@.map_values(|c: Vec<u8>| c@);
        assert(held =~= if before.received_fragments.contains_key(msg_id) {
            before.received_fragments[msg_id].chunks
        } else {
            Map::empty()
        });
        let ghost added = model::fragment_added(
            before,
            msg_id,
            frag_idx,
            frag_total,
            payload@.skip(12),
        );
        if !chunks.contains_key(&frag_idx) {
            let chunk = vstd::slice::slice_to_vec(
                vstd::slice::slice_subrange(payload, FRAGMENT_HEADER_LEN, payload.len()),
            );
            assert(chunk@ =~= payload@.skip(12));
            chunks.insert(frag_idx, chunk);
        }
        let acc = FragmentAccumulator { total: frag_total, chunks };
        assert(acc@ =~= added);
        proof {
            assert forall|idx: u16| #![trigger acc.chunks@.dom().contains(idx)]
                acc.chunks@.dom().contains(idx) implies idx < frag_total by {
                assert(acc@.chunks.contains_key(idx));
                if idx != frag_idx {
                    assert(held.contains_key(idx));
                    assert(before.received_fragments[msg_id].chunks.contains_key(idx));
                }
            }
            lemma_full_count(acc.chunks@.dom(), frag_total);
        }
        if acc.chunks.len() == frag_total as usize {
            let merged = join_chunks(&acc);
            assert(model::all_fragments_in(added)) by {
                assert forall|idx: u16| idx < added.total implies added.chunks.contains_key(
                    idx,
                ) by {
                    assert(acc.chunks@.dom().contains(idx));
                }
            }
            assert(self@ =~= (MachineView {
                received_fragments: before.received_fragments.remove(msg_id),
                ..before
            }));
            assert(model::message_completed(self@, msg_id, merged@)
                =~= model::message_completed(before, msg_id, merged@));
            self.complete_message(msg_id, merged, out);
        } else {
            assert(!model::all_fragments_in(added)) by {
                let idx = choose|idx: u16| idx < frag_total && !acc.chunks@.dom().contains(idx);
                assert(!added.chunks.contains_key(idx));
            }
            self.received_fragments.insert(msg_id, acc);
            assert(self@ =~= (MachineView {
                received_fragments: before.received_fragments.insert(msg_id, added),
                ..before
            }));
        }
        Ok(())
    }

    fn on_server_hello(
        &mut self,
        now_ms: u64,
        src_path_id: u32,
        answer: bool,
        out: &mut CoreOutput,
    ) -> (result: Result<(), CoreError>)
        requires
            old(self).wf(),
            old(self)@.state == LifecycleState::PreHandshake ==> {
                &&& now_ms + old(self)@.cfg.disconnect_window_ms <= u64::MAX
                &&& now_ms + old(self)@.cfg.msr_interval_ms <= u64::MAX
            },
        ensures
            final(self).wf(),
            ({
                let step = model::server_hello_step(
                    old(self)@,
                    now_ms,
                    src_path_id,
                    answer,
                    old(out)@,
                );
                &&& final(self)@ == step.machine
                &&& final(out)@ == step.out
                &&& result == Ok::<(), CoreError>(())
            }),
    {
        if self.state == LifecycleState::PreHandshake {
            self.state = LifecycleState::Established;
            assert(self@ =~= (MachineView { state: LifecycleState::Established, ..old(self)@ }));
            out.push_event(Event::HandshakeEstablished);
            if answer {
                let empty: Vec<u8> = Vec::new();
                proof {
                    codec::lemma_core_frame_fits(
                        MessageType::ServerHello,
                        self.cid,
                        empty@,
                        Seq::empty(),
                    );
                    assert(empty@ =~= Seq::<u8>::empty());
                }
                let bytes = encode_frame(MessageType::ServerHello, self.cid, &empty)?;
                out.push_datagram(src_path_id, bytes);
            }
            self.schedule_server_timers(now_ms, out);
        }
        Ok(())
    }

    fn on_client_hello(&mut self, now_ms: u64, src_path_id: u32, out: &mut CoreOutput) -> (result:
        Result<(), CoreError>)
        requires
            old(self).wf(),
            old(self)@.state == LifecycleState::PreHandshake || old(self)@.state
                == LifecycleState::Reactivating ==> {
                &&& now_ms + old(self)@.cfg.disconnect_window_ms <= u64::MAX
                &&& now_ms + old(self)@.cfg.msr_interval_ms <= u64::MAX
            },
        ensures
            final(self).wf(),
            ({
                let step = model::client_hello_step(old(self)@, now_ms, src_path_id, old(out)@);
                &&& final(self)@ == step.machine
                &&& final(out)@ == step.out
                &&& result == Ok::<(), CoreError>(())
            }),
    {
        if self.state == LifecycleState::PreHandshake || self.state
            == LifecycleState::Reactivating {
            let was_reactivating: bool = self.state == LifecycleState::Reactivating;
            self.state = LifecycleState::Established;
            self.last_server_msr_at_ms = Some(now_ms);
            let ghost m1 = MachineView {
                state: LifecycleState::Established,
                last_server_msr_at_ms: Some(now_ms),
                ..old(self)@
            };
            assert(self@ =~= m1);
            let empty: Vec<u8> = Vec::new();
            proof {
                codec::lemma_core_frame_fits(
                    MessageType::HelloAck,
                    self.cid,
                    empty@,
                    Seq::empty(),
                );
                assert(empty@ =~= Seq::<u8>::empty());
            }
            let bytes = encode_frame(MessageType::HelloAck, self.cid, &empty)?;
            out.push_datagram(src_path_id, bytes);
            if was_reactivating {
                out.push_event(Event::Reactivated);
            } else {
                out.push_event(Event::HandshakeEstablished);
            }
            self.schedule_client_timers(now_ms, out);
        }
        Ok(())
    }

    /// Takes a datagram in. What is no frame only leads to an event; a frame of
    /// another session is refused and changes nothing.
    pub fn on_datagram(&mut self, now_ms: u64, src_path_id: u32, bytes: &[u8]) -> (result: Result<
        CoreOutput,
        CoreError,
    >)
        requires
            old(self).wf(),
            model::datagram_fits(old(self)@, now_ms, src_path_id, bytes@),
        ensures
            final(self).wf(),
            final(self)@ == model::datagram_step(
                old(self)@,
                now_ms,
                src_path_id,
                bytes@,
            ).machine,
            agrees(result, model::datagram_step(old(self)@, now_ms, src_path_id, bytes@)),
    {
        let mut out = CoreOutput::default();
        let frame = match WireFrame::decode(bytes) {
            Ok(frame) => frame,
            Err(_) => {
                out.push_event(Event::ParseError);
                return Ok(out);
            },
        };
        if self.cid != 0 && frame.cid != self.cid {
            return Err(CoreError::CidMismatch { expected: self.cid, got: frame.cid });
        }
        self.current_path_id = src_path_id;
        assert(self@ =~= (MachineView { current_path_id: src_path_id, ..old(self)@ }));
        self.touch_disconnect_deadline(now_ms);
        self.on_valid_peer_datagram(now_ms);
        let ghost m1 = self@;
        let ghost step = model::frame_step(m1, now_ms, src_path_id, frame@, OutputView::empty());
        proof {
            lemma_signal_keeps_order(
                step.machine,
                now_ms,
                src_path_id,
                match codec::msr_signal_of(frame@.tlvs) {
                    Some((_, next_pending)) => next_pending,
                    None => 0,
                },
                step.out,
            );
        }
        self.handle_frame(now_ms, src_path_id, &frame, &mut out)?;
        if frame.message_type != MessageType::Msr {
            if let Some((_acked, next_pending)) = find_msr_signal_tlv(&frame.tlvs) {
                self.handle_msr_signal(now_ms, src_path_id, next_pending, false, &mut out)?;
            }
        }
        Ok(out)
    }

    fn handle_frame(
        &mut self,
        now_ms: u64,
        src_path_id: u32,
        frame: &WireFrame,
        out: &mut CoreOutput,
    ) -> (result: Result<(), CoreError>)
        requires
            old(self).wf(),
            model::starts_timers(old(self)@, frame@) ==> {
                &&& now_ms + old(self)@.cfg.disconnect_window_ms <= u64::MAX
                &&& now_ms + old(self)@.cfg.msr_interval_ms <= u64::MAX
            },
            model::frame_step(
                old(self)@,
                now_ms,
                src_path_id,
                frame@,
                old(out)@,
            ).machine.last_ordered_rx < u64::MAX,
        ensures
            final(self).wf(),
            ({
                let step = model::frame_step(old(self)@, now_ms, src_path_id, frame@, old(out)@);
                &&& final(self)@ == step.machine
                &&& match step.error {
                    Some(e) => result == Err::<(), CoreError>(e),
                    None => result == Ok::<(), CoreError>(()) && final(out)@ == step.out,
                }
            }),
    {
        match frame.message_type {
            MessageType::ClientHello => {
                if self.role == Role::Server {
                    self.on_server_hello(now_ms, src_path_id, true, out)?;
                }
            },
            MessageType::ServerHello => {
                if self.role == Role::Client {
                    self.on_client_hello(now_ms, src_path_id, out)?;
                }
            },
            MessageType::HelloAck => {
                if self.role == Role::Server {
                    self.on_server_hello(now_ms, src_path_id, false, out)?;
                }
            },
            MessageType::Msr => {
                self.handle_msr(now_ms, src_path_id, frame, out)?;
            },
            MessageType::RequestRange => {
                if self.state == LifecycleState::Established {
                    self.handle_request_range(src_path_id, &frame.payload, out)?;
                }
            },
            MessageType::Data => {
                if self.state == LifecycleState::Established {
                    self.handle_data(&frame.payload, out)?;
                }
            },
            MessageType::Fragment => {
                if self.state == LifecycleState::Established {
                    self.handle_fragment(&frame.payload, out)?;
                }
            },
            MessageType::Close | MessageType::Error => {
                self.state = LifecycleState::Lost;
                out.push_event(Event::Disconnected);
                assert(self@ =~= (MachineView { state: LifecycleState::Lost, ..old(self)@ }));
            },
        }
        Ok(())
    }

    /// Takes a timer in.
    pub fn on_timer(&mut self, now_ms: u64, timer_id: TimerId) -> (result: Result<
        CoreOutput,
        CoreError,
    >)
        requires
            old(self).wf(),
            model::timer_fits(old(self)@, now_ms, timer_id),
        ensures
            final(self).wf(),
            final(self)@ == model::timer_step(old(self)@, now_ms, timer_id).machine,
            agrees(result, model::timer_step(old(self)@, now_ms, timer_id)),
    {
        let mut out = CoreOutput::default();
        match timer_id {
            TimerId::ServerMsr => {
                if self.role == Role::Server && self.state == LifecycleState::Established {
                    self.server_consecutive_msr_without_client_msr =
                    self.server_consecutive_msr_without_client_msr.saturating_add(1);
                    if self.server_consecutive_msr_without_client_msr
                        > SERVER_MAX_CONSECUTIVE_SERVER_MSR_WITHOUT_CLIENT_MSR {
                        self.state = LifecycleState::Lost;
                        out.push_event(Event::Disconnected);
                        assert(self@ =~= model::server_msr_timer(old(self)@, now_ms).machine);
                        return Ok(out);
                    }
                    let msr = encode_msr_payload(self.last_ordered_rx, 0);
                    proof {
                        codec::lemma_core_frame_fits(
                            MessageType::Msr,
                            self.cid,
                            msr@,
                            Seq::empty(),
                        );
                    }
                    let bytes = encode_frame(MessageType::Msr, self.cid, &msr)?;
                    out.push_datagram(self.current_path_id, bytes);
                    self.schedule_server_timers(now_ms, &mut out);
                    assert(self@ =~= model::server_msr_timer(old(self)@, now_ms).machine);
                }
            },
            TimerId::ClientProbe => {
                if self.role == Role::Client && (self.state == LifecycleState::Established
                    || self.state == LifecycleState::Reactivating) {
                    let since_last: u64 = now_ms.saturating_sub(
                        self.last_server_msr_at_ms.unwrap_or(0),
                    );
                    let miss_window: u64 = saturating_times(
                        self.cfg.msr_interval_ms,
                        self.cfg.miss_window_count,
                    );
                    proof {
                        assert(self.cfg.msr_interval_ms * self.cfg.miss_window_count >= 0)
                            by (nonlinear_arith)
                            requires
                                self.cfg.msr_interval_ms >= 0,
                                self.cfg.miss_window_count >= 0,
                        ;
                    }
                    if since_last > miss_window {
                        self.state = LifecycleState::Reactivating;
                        let msr = encode_msr_payload(0, self.max_pending_id());
                        proof {
                            codec::lemma_core_frame_fits(
                                MessageType::Msr,
                                self.cid,
                                msr@,
                                Seq::empty(),
                            );
                        }
                        let bytes = encode_frame(MessageType::Msr, self.cid, &msr)?;
                        out.push_datagram(self.current_path_id, bytes);
                        out.push_event(Event::ReactivationProbeSent);
                    }
                    out.push_timer(TimerId::ClientProbe, now_ms + self.cfg.msr_interval_ms);
                    assert(self@ =~= model::client_probe_timer(old(self)@, now_ms).machine);
                }
            },
            TimerId::Disconnect => {
                if let Some(deadline) = self.disconnect_deadline_ms {
                    if now_ms >= deadline && self.state != LifecycleState::Lost {
                        self.state = LifecycleState::Lost;
                        out.push_event(Event::Disconnected);
                    } else {
                        out.push_timer(TimerId::Disconnect, deadline);
                    }
                }
            },
            TimerId::RenegotiationTimeout => {
                if let Some(pending) = self.pending_local_proposal {
                    if now_ms >= pending.expires_at_ms {
                        self.pending_local_proposal = None;
                        out.push_event(
                            Event::TimerRenegotiationRolledBack {
                                proposal_id: pending.proposal_id,
                            },
                        );
                    }
                }
            },
        }
        assert(self@ =~= model::timer_step(old(self)@, now_ms, timer_id).machine);
        Ok(out)
    }

    /// Queues a message and advertises it once the session stands. Ids are
    /// given out from one on and run out only at the largest number.
    pub fn on_api_send(&mut self, payload: Vec<u8>) -> (result: Result<CoreOutput, CoreError>)
        requires
            old(self).wf(),
            old(self)@.next_outbound_id < u64::MAX,
        ensures
            final(self).wf(),
            final(self)@ == model::send_step(old(self)@, payload@).machine,
            agrees(result, model::send_step(old(self)@, payload@)),
    {
        let mut out = CoreOutput::default();
        let msg_id: u64 = self.next_outbound_id;
        self.next_outbound_id = msg_id + 1;
        self.outbound_messages.insert(msg_id, payload);
        assert(self@ =~= model::send_step(old(self)@, payload@).machine);
        if self.state == LifecycleState::Established {
            let pending: u64 = self.max_pending_id();
            let acked: u64 = if self.role == Role::Client {
                0
            } else {
                self.last_ordered_rx
            };
            let msr = encode_msr_payload(acked, pending);
            proof {
                codec::lemma_core_frame_fits(MessageType::Msr, self.cid, msr@, Seq::empty());
            }
            let bytes = encode_frame(MessageType::Msr, self.cid, &msr)?;
            out.push_datagram(self.current_path_id, bytes);
            if self.role == Role::Client {
                out.push_event(Event::QueueAdvertised { next_pending_id: pending });
            }
        }
        Ok(out)
    }

    /// Closes the session, which tells the peer unless it is lost already.
    pub fn on_api_close(&mut self) -> (result: Result<CoreOutput, CoreError>)
        requires
            old(self).wf(),
        ensures
            final(self).wf(),
            final(self)@ == model::close_step(old(self)@).machine,
            agrees(result, model::close_step(old(self)@)),
    {
        let mut out = CoreOutput::default();
        if self.state == LifecycleState::Lost {
            return Ok(out);
        }
        let empty: Vec<u8> = Vec::new();
        proof {
            codec::lemma_core_frame_fits(MessageType::Close, self.cid, empty@, Seq::empty());
            assert(empty@ =~= Seq::<u8>::empty());
        }
        let bytes = encode_frame(MessageType::Close, self.cid, &empty)?;
        out.push_datagram(self.current_path_id, bytes);
        self.state = LifecycleState::Lost;
        out.push_event(Event::Disconnected);
        assert(self@ =~= model::close_step(old(self)@).machine);
        Ok(out)
    }

    /// Proposes other timers to the peer. They hold once it has agreed.
    pub fn on_api_propose_timers(&mut self, now_ms: u64, proposal: TimerProposal) -> (result: Result<
        CoreOutput,
        CoreError,
    >)
        requires
            old(self).wf(),
        ensures
            final(self).wf(),
            final(self)@ == model::propose_step(old(self)@, now_ms, proposal).machine,
            agrees(result, model::propose_step(old(self)@, now_ms, proposal)),
    {
        let mut out = CoreOutput::default();
        if self.state != LifecycleState::Established {
            return Err(CoreError::InvalidStateForRenegotiation);
        }
        validate_timer_proposal(self.cfg, proposal)?;
        let proposal_id: u32 = self.next_proposal_id;
        self.next_proposal_id = self.next_proposal_id.saturating_add(1);
        let expires_at_ms: u64 = now_ms.saturating_add(
            saturating_times(self.cfg.msr_interval_ms, 2),
        );
        self.pending_local_proposal = Some(
            PendingRenegotiation { proposal_id, proposal, expires_at_ms },
        );
        let msr = encode_msr_payload(0, self.max_pending_id());
        let tlvs: Vec<Tlv> = vec![encode_timer_proposal_tlv(proposal_id, proposal)];
        proof {
            assert(wire::tlv_views(tlvs@) =~= seq![codec::proposal_tlv(proposal_id, proposal)]);
            codec::lemma_core_frame_fits(
                MessageType::Msr,
                self.cid,
                msr@,
                wire::tlv_views(tlvs@),
            );
        }
        let bytes = encode_frame_with_tlvs(MessageType::Msr, self.cid, &msr, tlvs)?;
        out.push_datagram(self.current_path_id, bytes);
        out.push_event(Event::TimerRenegotiationProposed { proposal_id });
        out.push_timer(TimerId::RenegotiationTimeout, expires_at_ms);
        assert(self@ =~= model::propose_step(old(self)@, now_ms, proposal).machine);
        Ok(out)
    }

    /// Follows a change of the path below the session.
    pub fn on_path_event(&mut self, event: PathEvent) -> (result: Result<CoreOutput, CoreError>)
        requires
            old(self).wf(),
        ensures
            final(self).wf(),
            final(self)@ == model::path_step(old(self)@, event).machine,
            agrees(result, model::path_step(old(self)@, event)),
    {
        match event {
            PathEvent::PathChanged { path_id } => {
                self.current_path_id = path_id;
            },
        }
        assert(self@ =~= model::path_step(old(self)@, event).machine);
        Ok(CoreOutput::default())
    }
}

/// Fragments put together in order.
fn join_chunks(acc: &FragmentAccumulator) -> (merged: Vec<u8>)
    requires
        forall|idx: u16|
            #![trigger acc.chunks@.dom().contains(idx)]
            idx < acc.total ==> acc.chunks@.dom().contains(idx),
    ensures
        merged@ == model::joined(acc@.chunks, acc.total as nat),
{
    let mut merged: Vec<u8> = Vec::new();
    let mut i: u16 = 0;
    assert(merged@ =~= Seq::<u8>::empty());
    while i < acc.total
        invariant
            i <= acc.total,
            forall|idx: u16|
                #![trigger acc.chunks@.dom().contains(idx)]
                idx < acc.total ==> acc.chunks@.dom().contains(idx),
            merged@ == model::joined(acc@.chunks, i as nat),
        decreases acc.total - i,
    {
        assert(acc.chunks@.dom().contains(i));
        if let Some(chunk) = acc.chunks.get(&i) {
            let ghost before = merged@;
            merged.extend_from_slice(chunk);
            assert(acc@.chunks[i] == chunk@);
            assert(merged@ =~= before + chunk@);
        }
        i = i + 1;
    }
    merged
}

/// A set of indices below `total` has `total` elements exactly when it has all.
proof fn lemma_full_count(indices: Set<u16>, total: u16)
    requires
        indices.finite(),
        forall|idx: u16| #![trigger indices.contains(idx)] indices.contains(idx) ==> idx < total,
    ensures
        indices.len() == total ==> forall|idx: u16|
            #![trigger indices.contains(idx)]
            idx < total ==> indices.contains(idx),
        indices.len() != total ==> exists|idx: u16|
            #![trigger indices.contains(idx)]
            idx < total && !indices.contains(idx),
{
    let all = Set::new(|idx: u16| idx < total);
    lemma_below_count(total);
    assert(indices.subset_of(all));
    if indices.len() == total {
        vstd::set_lib::lemma_subset_equality(indices, all);
    } else {
        if forall|idx: u16| #![trigger indices.contains(idx)] idx < total ==> indices.contains(idx) {
            assert(indices =~= all);
        }
    }
}

/// There are `total` indices below `total`.
proof fn lemma_below_count(total: u16)
    ensures
        Set::new(|idx: u16| idx < total).finite(),
        Set::new(|idx: u16| idx < total).len() == total,
    decreases total,
{
    let all = Set::new(|idx: u16| idx < total);
    if total == 0 {
        assert(all =~= Set::empty());
    } else {
        let last = (total - 1) as u16;
        lemma_below_count(last);
        assert(all =~= Set::new(|idx: u16| idx < last).insert(last));
    }
}

/// An advertisement does not touch what was handed over.
proof fn lemma_signal_keeps_order(
    m: MachineView,
    now_ms: u64,
    path: u32,
    next_pending: u64,
    out: OutputView,
)
    ensures
        model::msr_signal_step(
            m,
            now_ms,
            path,
            next_pending,
            false,
            out,
        ).machine.last_ordered_rx == m.last_ordered_rx,
{
}

} // verus!
