//! What holds of the NAT traversal helpers: which path is tried and taken first, when a
//! path is given up, and how a relay is kept.

use vstd::prelude::*;

use crate::big_endian;
use crate::text;
use crate::traversal;
use crate::traversal::{
    CandidatePair, CandidatePairState, CandidateType, ConsentAction, ConsentConfig, ConsentState,
    IceCandidate, IpAddress, NatError, RelayPolicy, SocketAddress, TurnAction, TurnConfig,
    TurnEvent, TurnManager, TurnState,
};

verus! {

/// The lower of two priorities.
pub open spec fn lower(a: u32, b: u32) -> int {
    if a < b {
        a as int
    } else {
        b as int
    }
}

/// The higher of two priorities.
pub open spec fn higher(a: u32, b: u32) -> int {
    if a < b {
        b as int
    } else {
        a as int
    }
}

/// The pair whose lower priority is greater ranks first, whatever the higher ones are, as
/// long as these are not both further apart than half of all numbers and the lower ones
/// neighbours; of equal lower ones the greater higher one decides, and then the one whose
/// local side is the higher.
pub proof fn law_lower_priority_counts_first(l1: u32, r1: u32, l2: u32, r2: u32)
    ensures
        lower(l1, r1) > lower(l2, r2) && (lower(l1, r1) > lower(l2, r2) + 1 || higher(l2, r2)
            < higher(l1, r1) + 0x8000_0000) ==> traversal::priority_of(l1, r1)
            > traversal::priority_of(l2, r2),
        lower(l1, r1) == lower(l2, r2) && higher(l1, r1) > higher(l2, r2)
            ==> traversal::priority_of(l1, r1) > traversal::priority_of(l2, r2),
        lower(l1, r1) == lower(l2, r2) && higher(l1, r1) == higher(l2, r2) && l1 > r1 && l2 <= r2
            ==> traversal::priority_of(l1, r1) > traversal::priority_of(l2, r2),
        !(l1 == u32::MAX && r1 == u32::MAX) ==> 0 <= traversal::priority_of(l1, r1) <= u64::MAX,
{
}

/// That a list holds the pairs of some candidates: each with its own priority.
pub open spec fn is_paired_up(
    local: Seq<IceCandidate>,
    remote: Seq<IceCandidate>,
    pairs: Seq<CandidatePair>,
) -> bool {
    forall|k: int|
        #![trigger pairs[k]]
        0 <= k < pairs.len() ==> {
            let l = pairs[k].local_index;
            let r = pairs[k].remote_index;
            &&& l < local.len()
            &&& r < remote.len()
            &&& !(local[l as int].priority == u32::MAX && remote[r as int].priority == u32::MAX)
            &&& pairs[k].priority == traversal::priority_of(
                local[l as int].priority,
                remote[r as int].priority,
            )
        }
}

/// That the lower priority of one pair is greater than that of another by enough to
/// decide.
pub open spec fn is_better(
    local: Seq<IceCandidate>,
    remote: Seq<IceCandidate>,
    p: CandidatePair,
    q: CandidatePair,
) -> bool {
    let l1 = local[p.local_index as int].priority;
    let r1 = remote[p.remote_index as int].priority;
    let l2 = local[q.local_index as int].priority;
    let r2 = remote[q.remote_index as int].priority;
    lower(l1, r1) > lower(l2, r2) && (lower(l1, r1) > lower(l2, r2) + 1 || higher(l2, r2) < higher(
        l1,
        r1,
    ) + 0x8000_0000)
}

/// Of the pairs that succeeded, none is better than the one that is nominated: a direct
/// path that works is taken before one over a relay of low priority. If none succeeded,
/// none is nominated.
pub proof fn law_no_better_pair_is_passed_over(
    local: Seq<IceCandidate>,
    remote: Seq<IceCandidate>,
    pairs: Seq<CandidatePair>,
    k: int,
)
    requires
        is_paired_up(local, remote, pairs),
    ensures
        0 <= k < pairs.len() && pairs[k].state == CandidatePairState::Succeeded ==> {
            &&& traversal::best_pair(pairs, pairs.len() as int) matches Some(best)
            &&& 0 <= best < pairs.len()
            &&& pairs[best].state == CandidatePairState::Succeeded
            &&& !is_better(local, remote, pairs[k], pairs[best])
        },
        (forall|i: int|
            #![trigger pairs[i]]
            0 <= i < pairs.len() ==> pairs[i].state != CandidatePairState::Succeeded)
            ==> traversal::best_pair(pairs, pairs.len() as int) is None,
{
    if 0 <= k < pairs.len() && pairs[k].state == CandidatePairState::Succeeded {
        traversal::law_nominated_pair_is_best(pairs, pairs.len() as int, k);
        let best = traversal::best_pair(pairs, pairs.len() as int)->0;
        law_lower_priority_counts_first(
            local[pairs[k].local_index as int].priority,
            remote[pairs[k].remote_index as int].priority,
            local[pairs[best].local_index as int].priority,
            remote[pairs[best].remote_index as int].priority,
        );
    }
    traversal::lemma_best_in_range(pairs, pairs.len() as int);
}

/// The checklist of some candidates: the better pair is checked first, every two
/// candidates of one component and transport are on it once, and no others are.
pub proof fn law_checklist_is_complete_and_ranked(
    local: Seq<IceCandidate>,
    remote: Seq<IceCandidate>,
    pairs: Seq<CandidatePair>,
    a: int,
    b: int,
    i: int,
    j: int,
)
    requires
        traversal::priorities_fit(local, remote),
        local.len() <= usize::MAX,
        remote.len() <= usize::MAX,
        traversal::ranked(pairs),
        forall|k: int|
            0 <= k < pairs.len() ==> traversal::is_fresh_match(local, remote, #[trigger] pairs[k]),
        forall|i: int, j: int|
            0 <= i < local.len() && 0 <= j < remote.len() && #[trigger] traversal::matching(
                local[i],
                remote[j],
            ) ==> pairs.contains(traversal::fresh_pair(local, remote, i, j)),
    ensures
        is_paired_up(local, remote, pairs),
        0 <= a < pairs.len() && 0 <= b < pairs.len() && is_better(
            local,
            remote,
            pairs[a],
            pairs[b],
        ) ==> a < b,
        0 <= a < pairs.len() && 0 <= b < pairs.len() && pairs[a].local_index
            == pairs[b].local_index && pairs[a].remote_index == pairs[b].remote_index ==> a == b,
        0 <= a < pairs.len() ==> {
            let l = local[pairs[a].local_index as int];
            let r = remote[pairs[a].remote_index as int];
            &&& pairs[a].local_index < local.len()
            &&& pairs[a].remote_index < remote.len()
            &&& l.component == r.component
            &&& l.transport@ == r.transport@
            &&& !pairs[a].nominated
            &&& pairs[a].state == CandidatePairState::Frozen
        },
        0 <= i < local.len() && 0 <= j < remote.len() && local[i].component == remote[j].component
            && local[i].transport@ == remote[j].transport@ ==> exists|k: int|
            #![trigger pairs[k]]
            0 <= k < pairs.len() && pairs[k].local_index == i && pairs[k].remote_index == j,
{
    assert forall|k: int| #![trigger pairs[k]] 0 <= k < pairs.len() implies {
        let l = pairs[k].local_index;
        let r = pairs[k].remote_index;
        &&& l < local.len()
        &&& r < remote.len()
        &&& !(local[l as int].priority == u32::MAX && remote[r as int].priority == u32::MAX)
        &&& pairs[k].priority == traversal::priority_of(
            local[l as int].priority,
            remote[r as int].priority,
        )
    } by {
        let l = pairs[k].local_index as int;
        let r = pairs[k].remote_index as int;
        assert(traversal::is_fresh_match(local, remote, pairs[k]));
        assert(traversal::matching(local[l], remote[r]));
        law_lower_priority_counts_first(local[l].priority, remote[r].priority, 0, 0);
    }
    if 0 <= a < pairs.len() && 0 <= b < pairs.len() {
        law_lower_priority_counts_first(
            local[pairs[a].local_index as int].priority,
            remote[pairs[a].remote_index as int].priority,
            local[pairs[b].local_index as int].priority,
            remote[pairs[b].remote_index as int].priority,
        );
        if b < a {
            assert(traversal::ranks_before(pairs[b], pairs[a]));
        }
        if a < b {
            assert(traversal::ranks_before(pairs[a], pairs[b]));
        }
    }
    if 0 <= i < local.len() && 0 <= j < remote.len() && local[i].component == remote[j].component
        && local[i].transport@ == remote[j].transport@ {
        assert(traversal::matching(local[i], remote[j]));
        let pair = traversal::fresh_pair(local, remote, i, j);
        assert(pairs.contains(pair));
        let k = choose|k: int| 0 <= k < pairs.len() && pairs[k] == pair;
        assert(pairs[k].local_index == i && pairs[k].remote_index == j);
    }
}

/// The next check is of the first pair that waits, and of none if none waits.
pub proof fn law_first_waiting_pair_is_next(pairs: Seq<CandidatePair>, k: int)
    ensures
        match traversal::find_frozen(pairs, 0) {
            Some(at) => {
                &&& 0 <= at < pairs.len()
                &&& pairs[at].state == CandidatePairState::Frozen
                &&& 0 <= k < at ==> pairs[k].state != CandidatePairState::Frozen
            },
            None => 0 <= k < pairs.len() ==> pairs[k].state != CandidatePairState::Frozen,
        },
{
    lemma_frozen_from(pairs, 0, k);
}

proof fn lemma_frozen_from(pairs: Seq<CandidatePair>, from: int, k: int)
    requires
        0 <= from,
    ensures
        match traversal::find_frozen(pairs, from) {
            Some(at) => {
                &&& from <= at < pairs.len()
                &&& pairs[at].state == CandidatePairState::Frozen
                &&& from <= k < at ==> pairs[k].state != CandidatePairState::Frozen
            },
            None => from <= k < pairs.len() ==> pairs[k].state != CandidatePairState::Frozen,
        },
    decreases pairs.len() - from,
{
    if from < pairs.len() {
        lemma_frozen_from(pairs, from + 1, k);
    }
}

/// The result of a check is noted with the first pair of its places, if there is one.
pub proof fn law_result_is_noted_with_its_pair(
    pairs: Seq<CandidatePair>,
    local_index: usize,
    remote_index: usize,
    k: int,
)
    ensures
        match traversal::find_pair(pairs, local_index, remote_index, 0) {
            Some(at) => {
                &&& 0 <= at < pairs.len()
                &&& pairs[at].local_index == local_index
                &&& pairs[at].remote_index == remote_index
                &&& 0 <= k < at ==> !(pairs[k].local_index == local_index && pairs[k].remote_index
                    == remote_index)
            },
            None => 0 <= k < pairs.len() ==> !(pairs[k].local_index == local_index
                && pairs[k].remote_index == remote_index),
        },
{
    lemma_pair_from(pairs, local_index, remote_index, 0, k);
}

proof fn lemma_pair_from(
    pairs: Seq<CandidatePair>,
    local_index: usize,
    remote_index: usize,
    from: int,
    k: int,
)
    requires
        0 <= from,
    ensures
        match traversal::find_pair(pairs, local_index, remote_index, from) {
            Some(at) => {
                &&& from <= at < pairs.len()
                &&& pairs[at].local_index == local_index
                &&& pairs[at].remote_index == remote_index
                &&& from <= k < at ==> !(pairs[k].local_index == local_index
                    && pairs[k].remote_index == remote_index)
            },
            None => from <= k < pairs.len() ==> !(pairs[k].local_index == local_index
                && pairs[k].remote_index == remote_index),
        },
    decreases pairs.len() - from,
{
    if from < pairs.len() {
        lemma_pair_from(pairs, local_index, remote_index, from + 1, k);
    }
}

/// A number, held at the largest.
pub open spec fn held(value: int) -> int {
    if value > u64::MAX {
        u64::MAX as int
    } else {
        value
    }
}

/// Nothing happens to the consent for a path before a keepalive is due. Then it counts one
/// more miss and is due again an interval later; the path is lost once more were missed
/// than may be.
pub proof fn law_consent_is_due_every_interval(
    cfg: ConsentConfig,
    state: ConsentState,
    now_ms: u64,
)
    ensures
        ({
            let (after, action) = traversal::consent_tick(cfg, state, now_ms);
            if now_ms < state.next_deadline_ms {
                after == state && action == ConsentAction::Noop
            } else {
                &&& after.next_deadline_ms == held(now_ms + cfg.interval_ms)
                &&& state.missed_count < 255 ==> after.missed_count == state.missed_count + 1
                &&& state.missed_count == 255 ==> after.missed_count == 255
                &&& action == ConsentAction::PathLost <==> after.missed_count > cfg.max_missed
                &&& action == ConsentAction::SendKeepalive <==> after.missed_count
                    <= cfg.max_missed
            }
        }),
{
}

/// An attribute of a STUN message: kind, length, value, and padding to four bytes.
pub open spec fn attribute(kind: int, value: Seq<u8>, padding: Seq<u8>) -> Seq<u8> {
    big_endian::be_bytes(kind as nat, 2) + big_endian::be_bytes(value.len(), 2) + value + padding
}

/// Attributes of other kinds are passed over with their padding, whatever they hold.
pub proof fn law_other_attributes_are_passed_over(
    kind: int,
    value: Seq<u8>,
    padding: Seq<u8>,
    rest: Seq<u8>,
)
    requires
        0 <= kind <= u16::MAX,
        kind != 0x20,
        value.len() <= u16::MAX,
        padding.len() < 4,
        (value.len() + padding.len()) % 4 == 0,
    ensures
        traversal::mapped_address(attribute(kind, value, padding) + rest)
            == traversal::mapped_address(rest),
{
    let all = attribute(kind, value, padding) + rest;
    big_endian::lemma_be_range_values();
    big_endian::lemma_be_value_of_bytes(kind as nat, 2);
    big_endian::lemma_be_value_of_bytes(value.len(), 2);
    assert(all.subrange(0, 2) =~= big_endian::be_bytes(kind as nat, 2));
    assert(all.subrange(2, 4) =~= big_endian::be_bytes(value.len(), 2));
    let padded = (value.len() + 3) / 4 * 4;
    assert(padded == value.len() + padding.len());
    assert(all.skip(4 + padded as int) =~= rest);
}

/// A reply is no binding success if it is too short, of another type, shorter than it
/// says or without the cookie, nor if its attributes end without a mapped address.
pub proof fn law_other_replies_are_refused(packet: Seq<u8>)
    ensures
        packet.len() < 20 || packet[0] != 1 || packet[1] != 1 || packet.len() < 20
            + big_endian::be_value(packet.subrange(2, 4)) || big_endian::be_value(
            packet.subrange(4, 8),
        ) != 0x2112_A442 || packet.len() < 24 ==> traversal::binding_success(packet) == Err::<
            SocketAddress,
            NatError,
        >(NatError::InvalidStunPacket),
{
}

/// A mapped address is read from eight bytes at least and only of IPv4. An attribute that
/// is longer than what is left ends the reading.
pub proof fn law_bad_attributes_are_refused(attributes: Seq<u8>)
    requires
        attributes.len() >= 4,
    ensures
        ({
            let kind = big_endian::be_value(attributes.subrange(0, 2));
            let len = big_endian::be_value(attributes.subrange(2, 4));
            let read = traversal::mapped_address(attributes);
            &&& len > attributes.len() - 4 || (kind == 0x20 && len < 8) ==> read == Err::<
                SocketAddress,
                NatError,
            >(NatError::InvalidStunPacket)
            &&& kind == 0x20 && 8 <= len <= attributes.len() - 4 && attributes[5] != 1 ==> read
                == Err::<SocketAddress, NatError>(NatError::UnsupportedStunFamily)
            &&& kind == 0x20 && 8 <= len <= attributes.len() - 4 && attributes[5] == 1 ==> read
                == Ok::<SocketAddress, NatError>(
                SocketAddress {
                    ip: IpAddress::V4(
                        big_endian::be_value(
                            seq![
                                attributes[8] ^ 0x21,
                                attributes[9] ^ 0x12,
                                attributes[10] ^ 0xa4,
                                attributes[11] ^ 0x42,
                            ],
                        ) as u32,
                    ),
                    port: (big_endian::be_value(attributes.subrange(6, 8)) as u16) ^ 0x2112,
                },
            )
        }),
{
    let value = attributes.skip(4);
    if value.len() >= 8 {
        assert(value.subrange(2, 4) =~= attributes.subrange(6, 8));
        assert(seq![value[4] ^ 0x21, value[5] ^ 0x12, value[6] ^ 0xa4, value[7] ^ 0x42] =~= seq![
            attributes[8] ^ 0x21,
            attributes[9] ^ 0x12,
            attributes[10] ^ 0xa4,
            attributes[11] ^ 0x42,
        ]);
    }
}

/// What is due on a relay that was granted at a moment: its refresh from the lead time
/// before its end on; before that the permission and then the channel once their time is
/// over; else nothing. On a relay that is not granted nothing is due.
pub proof fn law_relay_is_kept_in_turn(
    turn: TurnManager,
    granted_ms: u64,
    lifetime_secs: u32,
    now_ms: u64,
)
    requires
        granted_ms + lifetime_secs * 1000 <= u64::MAX,
        granted_ms + turn.cfg.permission_refresh_ms <= u64::MAX,
        granted_ms + turn.cfg.channel_refresh_ms <= u64::MAX,
    ensures
        ({
            let (granted, action) = traversal::turn_step(
                turn,
                granted_ms,
                TurnEvent::AllocationOk { lifetime_secs },
            );
            let due = traversal::turn_due(granted, now_ms);
            let lead = turn.cfg.refresh_before_expiry_secs * 1000;
            let refresh = now_ms + lead >= granted_ms + lifetime_secs * 1000;
            let permission = now_ms >= granted_ms + turn.cfg.permission_refresh_ms;
            let channel = now_ms >= granted_ms + turn.cfg.channel_refresh_ms;
            &&& action == TurnAction::SendCreatePermission
            &&& granted.state == TurnState::Allocated
            &&& granted.retries == 0
            &&& granted.cfg == turn.cfg
            &&& refresh ==> due == TurnAction::SendRefresh
            &&& !refresh && permission ==> due == TurnAction::SendCreatePermission
            &&& !refresh && !permission && channel ==> due == TurnAction::SendChannelBind
            &&& !refresh && !permission && !channel ==> due == TurnAction::Noop
        }),
        turn.state != TurnState::Allocated ==> traversal::turn_due(turn, now_ms)
            == TurnAction::Noop,
{
}

/// A permission that was renewed asks for the channel and is due again after its refresh
/// time; a channel that was bound asks for nothing and is due again after its own.
/// Neither touches anything else.
pub proof fn law_renewals_last_their_time(turn: TurnManager, now_ms: u64)
    ensures
        ({
            let (renewed, action) = traversal::turn_step(turn, now_ms, TurnEvent::PermissionOk);
            &&& action == TurnAction::SendChannelBind
            &&& renewed.permission_expiry_ms matches Some(expiry) && expiry == held(
                now_ms + turn.cfg.permission_refresh_ms,
            )
            &&& renewed == (TurnManager {
                permission_expiry_ms: renewed.permission_expiry_ms,
                ..turn
            })
        }),
        ({
            let (bound, action) = traversal::turn_step(turn, now_ms, TurnEvent::ChannelBindOk);
            &&& action == TurnAction::Noop
            &&& bound.channel_expiry_ms matches Some(expiry) && expiry == held(
                now_ms + turn.cfg.channel_refresh_ms,
            )
            &&& bound == (TurnManager { channel_expiry_ms: bound.channel_expiry_ms, ..turn })
        }),
{
}

/// The waits after failures in a row: the backoff once, twice, four, eight and sixteen
/// times. A failure leaves all times as they are.
pub proof fn law_waits_double(turn: TurnManager, now_ms: u64)
    requires
        turn.retries < 5,
        turn.cfg.retry_backoff_ms * 16 <= u64::MAX,
    ensures
        ({
            let (after, action) = traversal::turn_step(turn, now_ms, TurnEvent::TransportFailure);
            let times = if turn.retries == 0 {
                1int
            } else if turn.retries == 1 {
                2
            } else if turn.retries == 2 {
                4
            } else if turn.retries == 3 {
                8
            } else {
                16
            };
            &&& action matches TurnAction::RetryAfter { delay_ms } && delay_ms
                == turn.cfg.retry_backoff_ms * times
            &&& after.retries == turn.retries + 1
            &&& after == (TurnManager { retries: after.retries, ..turn })
        }),
{
    reveal_with_fuel(traversal::backoff_factor, 6);
    let b = turn.cfg.retry_backoff_ms;
    assert(b * 1 <= b * 16 && b * 2 <= b * 16 && b * 4 <= b * 16 && b * 8 <= b * 16)
        by (nonlinear_arith)
        requires
            b >= 0,
    ;
}

/// Tuned refresh times are those of the configuration, but at most nine tenths of the
/// window, or half a minute where that is more and inside the window.
pub proof fn law_tuning_only_shortens_what_is_too_long(cfg: TurnConfig, disconnect_window_ms: u64)
    ensures
        ({
            let tuned = traversal::tuned_config(cfg, disconnect_window_ms);
            let tenth = disconnect_window_ms / 10;
            let most = if disconnect_window_ms - tenth < 30_000 && disconnect_window_ms >= 30_000 {
                30_000
            } else {
                disconnect_window_ms - tenth
            };
            &&& cfg.permission_refresh_ms <= most ==> tuned.permission_refresh_ms
                == cfg.permission_refresh_ms
            &&& cfg.permission_refresh_ms > most ==> tuned.permission_refresh_ms == most
            &&& cfg.channel_refresh_ms <= most ==> tuned.channel_refresh_ms
                == cfg.channel_refresh_ms
            &&& cfg.channel_refresh_ms > most ==> tuned.channel_refresh_ms == most
        }),
{
}

/// What a policy lets be used of two lists is what it lets be used of each, in order: it
/// looks at every candidate for itself.
pub proof fn law_candidates_are_chosen_one_by_one(
    policy: RelayPolicy,
    candidates: Seq<IceCandidate>,
    more: Seq<IceCandidate>,
    candidate: IceCandidate,
)
    ensures
        traversal::allowed(policy, candidates + more) == traversal::allowed(policy, candidates)
            + traversal::allowed(policy, more),
        policy == RelayPolicy::PreferDirect || candidate.typ == CandidateType::Relay
            ==> traversal::allowed(policy, seq![candidate]) == seq![candidate],
        policy == RelayPolicy::RelayOnly && candidate.typ != CandidateType::Relay
            ==> traversal::allowed(policy, seq![candidate]) == Seq::<IceCandidate>::empty(),
    decreases more.len(),
{
    reveal_with_fuel(traversal::allowed, 2);
    assert(seq![candidate].drop_last() =~= Seq::empty());
    assert(Seq::<IceCandidate>::empty().push(candidate) =~= seq![candidate]);
    if more.len() == 0 {
        assert(candidates + more =~= candidates);
        assert(traversal::allowed(policy, candidates) + traversal::allowed(policy, more)
            =~= traversal::allowed(policy, candidates));
    } else {
        law_candidates_are_chosen_one_by_one(policy, candidates, more.drop_last(), candidate);
        assert((candidates + more).drop_last() =~= candidates + more.drop_last());
        assert(traversal::allowed(policy, candidates + more) =~= traversal::allowed(
            policy,
            candidates,
        ) + traversal::allowed(policy, more));
    }
}

/// A host candidate says which socket it stands for, in the order of the sockets: a
/// later one has the higher priority.
pub proof fn law_host_candidate_stands_for_its_socket(
    candidate: IceCandidate,
    idx: nat,
    socket: (IpAddress, u16),
    component: u16,
    transport: Seq<char>,
)
    requires
        traversal::is_host_candidate(candidate, idx, socket, component, transport),
        idx <= u32::MAX - 100,
    ensures
        candidate.priority == 100 + idx,
        candidate.address == socket.0,
        candidate.port == socket.1,
        candidate.component == component,
        candidate.transport@ == transport,
        candidate.typ == CandidateType::Host,
        candidate.foundation@ == "host-"@ + text::decimal(idx),
        candidate.related_address is None,
        candidate.related_port is None,
{
}

} // verus!
