//! Deterministic NAT traversal helpers for V3 runtime integration.
//! Socket I/O stays outside; policy and state are here.

use vstd::prelude::*;

use crate::big_endian;
use crate::big_endian::{append_be, read_be};
use crate::session::codec;
use crate::session::codec::saturating_times;
use crate::text;
use crate::text::text_with_number;

verus! {

pub const STUN_MAGIC_COOKIE: u32 = 0x2112_A442;

/// An IP address as the number that its bytes spell.
#[derive(Debug, Clone, Copy, PartialEq, Eq, Structural)]
pub enum IpAddress {
    V4(u32),
    V6(u128),
}

#[derive(Debug, Clone, Copy, PartialEq, Eq, Structural)]
pub struct SocketAddress {
    pub ip: IpAddress,
    pub port: u16,
}

#[derive(Debug, Clone, Copy, PartialEq, Eq, Structural)]
pub enum CandidateType {
    Host,
    Srflx,
    Relay,
}

#[derive(Debug, Clone, PartialEq, Eq)]
pub struct IceCandidate {
    pub foundation: String,
    pub component: u16,
    pub transport: String,
    pub priority: u32,
    pub address: IpAddress,
    pub port: u16,
    pub typ: CandidateType,
    pub related_address: Option<IpAddress>,
    pub related_port: Option<u16>,
}

/// What an [`IceCandidate`] says.
#[verifier::ext_equal]
pub struct CandidateView {
    pub foundation: Seq<char>,
    pub component: u16,
    pub transport: Seq<char>,
    pub priority: u32,
    pub address: IpAddress,
    pub port: u16,
    pub typ: CandidateType,
    pub related_address: Option<IpAddress>,
    pub related_port: Option<u16>,
}

impl View for IceCandidate {
    type V = CandidateView;

    open spec fn view(&self) -> CandidateView {
        CandidateView {
            foundation: self.foundation@,
            component: self.component,
            transport: self.transport@,
            priority: self.priority,
            address: self.address,
            port: self.port,
            typ: self.typ,
            related_address: self.related_address,
            related_port: self.related_port,
        }
    }
}

/// The candidates that a list of [`IceCandidate`] stands for.
pub open spec fn candidate_views(candidates: Seq<IceCandidate>) -> Seq<CandidateView> {
    candidates.map_values(|c: IceCandidate| c@)
}

#[derive(Debug, Clone, Copy, PartialEq, Eq, Structural)]
pub enum CandidatePairState {
    Frozen,
    InProgress,
    Succeeded,
    Failed,
}

#[derive(Debug, Clone, Copy, PartialEq, Eq, Structural)]
pub struct CandidatePair {
    pub local_index: usize,
    pub remote_index: usize,
    pub priority: u64,
    pub nominated: bool,
    pub state: CandidatePairState,
}

#[derive(Debug, Clone)]
pub struct IceChecklist {
    pub local: Vec<IceCandidate>,
    pub remote: Vec<IceCandidate>,
    pub pairs: Vec<CandidatePair>,
}

/// The priority of a pair: the lower of the two priorities counts most, then the
/// higher, then whether the local one is the higher.
pub open spec fn priority_of(local_priority: u32, remote_priority: u32) -> int {
    let higher = if local_priority > remote_priority {
        local_priority
    } else {
        remote_priority
    };
    let lower = if local_priority > remote_priority {
        remote_priority
    } else {
        local_priority
    };
    0x1_0000_0000 * lower + 2 * higher + if local_priority > remote_priority {
        1int
    } else {
        0int
    }
}

/// Two candidates that can be checked against each other.
pub open spec fn matching(local: IceCandidate, remote: IceCandidate) -> bool {
    local.component == remote.component && local.transport@ == remote.transport@
}

/// All pair priorities are representable: they are unless both priorities are
/// the largest.
pub open spec fn priorities_fit(local: Seq<IceCandidate>, remote: Seq<IceCandidate>) -> bool {
    forall|i: int, j: int|
        0 <= i < local.len() && 0 <= j < remote.len() && #[trigger] matching(local[i], remote[j])
            ==> !(local[i].priority == u32::MAX && remote[j].priority == u32::MAX)
}

/// The pair of the candidates at two places, before any check.
pub open spec fn fresh_pair(
    local: Seq<IceCandidate>,
    remote: Seq<IceCandidate>,
    i: int,
    j: int,
) -> CandidatePair {
    CandidatePair {
        local_index: i as usize,
        remote_index: j as usize,
        priority: priority_of(local[i].priority, remote[j].priority) as u64,
        nominated: false,
        state: CandidatePairState::Frozen,
    }
}

/// That one place comes before another, row by row.
pub open spec fn earlier_place(i: int, j: int, k: int, l: int) -> bool {
    i < k || (i == k && j < l)
}

/// The order of a checklist: higher priority first, equal ones by place.
pub open spec fn ranks_before(a: CandidatePair, b: CandidatePair) -> bool {
    ||| a.priority > b.priority
    ||| a.priority == b.priority && earlier_place(
        a.local_index as int,
        a.remote_index as int,
        b.local_index as int,
        b.remote_index as int,
    )
}

pub open spec fn ranked(pairs: Seq<CandidatePair>) -> bool {
    forall|a: int, b: int| 0 <= a < b < pairs.len() ==> ranks_before(pairs[a], pairs[b])
}

/// That a pair is the fresh pair of two matching candidates.
pub open spec fn is_fresh_match(
    local: Seq<IceCandidate>,
    remote: Seq<IceCandidate>,
    pair: CandidatePair,
) -> bool {
    &&& pair.local_index < local.len()
    &&& pair.remote_index < remote.len()
    &&& matching(local[pair.local_index as int], remote[pair.remote_index as int])
    &&& pair == fresh_pair(local, remote, pair.local_index as int, pair.remote_index as int)
}

/// That `pairs` are the fresh pairs of all matching candidates up to a place.
pub open spec fn covers_up_to(
    local: Seq<IceCandidate>,
    remote: Seq<IceCandidate>,
    pairs: Seq<CandidatePair>,
    row: int,
    column: int,
) -> bool {
    forall|i: int, j: int|
        0 <= i < local.len() && 0 <= j < remote.len() && earlier_place(i, j, row, column)
            && #[trigger] matching(local[i], remote[j]) ==> pairs.contains(
            fresh_pair(local, remote, i, j),
        )
}

fn pair_priority(local_priority: u32, remote_priority: u32) -> (priority: u64)
    requires
        !(local_priority == u32::MAX && remote_priority == u32::MAX),
    ensures
        priority == priority_of(local_priority, remote_priority),
{
    let g: u64 = if local_priority > remote_priority {
        local_priority as u64
    } else {
        remote_priority as u64
    };
    let l: u64 = if local_priority > remote_priority {
        remote_priority as u64
    } else {
        local_priority as u64
    };
    let tie: u64 = if local_priority > remote_priority {
        1
    } else {
        0
    };
    0x1_0000_0000 * l + 2 * g + tie
}

/// Puts a pair, which comes from a later place than all others, at its rank.
fn insert_ranked(pairs: &mut Vec<CandidatePair>, pair: CandidatePair)
    requires
        ranked(old(pairs)@),
        forall|a: int|
            0 <= a < old(pairs)@.len() ==> earlier_place(
                (#[trigger] old(pairs)@[a]).local_index as int,
                old(pairs)@[a].remote_index as int,
                pair.local_index as int,
                pair.remote_index as int,
            ),
    ensures
        ranked(final(pairs)@),
        exists|at: int|
            0 <= at <= old(pairs)@.len() && final(pairs)@ == #[trigger] old(pairs)@.insert(
                at,
                pair,
            ),
{
    let mut at: usize = pairs.len();
    while at > 0 && pairs[at - 1].priority < pair.priority
        invariant
            at <= pairs@.len(),
            forall|a: int| at <= a < pairs@.len() ==> (#[trigger] pairs@[a]).priority < pair.priority,
        decreases at,
    {
        at = at - 1;
    }
    let ghost before = pairs@;
    pairs.insert(at, pair);
    proof {
        assert(pairs@ =~= before.insert(at as int, pair));
        assert forall|a: int, b: int| 0 <= a < b < pairs@.len() implies ranks_before(
            pairs@[a],
            pairs@[b],
        ) by {
            let x = if a < at {
                a
            } else {
                a - 1
            };
            let y = if b < at {
                b
            } else {
                b - 1
            };
            if a != at {
                assert(pairs@[a] == before[x]);
            }
            if b != at {
                assert(pairs@[b] == before[y]);
            }
            if a != at && b != at {
                assert(ranks_before(before[x], before[y]));
            } else if b == at {
                if a < at - 1 {
                    assert(ranks_before(before[a], before[at - 1]));
                }
            }
        }
    }
}

/// The first pair with the given places.
pub open spec fn find_pair(pairs: Seq<CandidatePair>, li: usize, ri: usize, from: int) -> Option<int>
    decreases pairs.len() - from,
{
    if from < 0 || from >= pairs.len() {
        None
    } else if pairs[from].local_index == li && pairs[from].remote_index == ri {
        Some(from)
    } else {
        find_pair(pairs, li, ri, from + 1)
    }
}

/// The first pair that waits for its check.
pub open spec fn find_frozen(pairs: Seq<CandidatePair>, from: int) -> Option<int>
    decreases pairs.len() - from,
{
    if from < 0 || from >= pairs.len() {
        None
    } else if pairs[from].state == CandidatePairState::Frozen {
        Some(from)
    } else {
        find_frozen(pairs, from + 1)
    }
}

/// Among the first `n` pairs, the successful one of highest priority, the last
/// of several.
pub open spec fn best_pair(pairs: Seq<CandidatePair>, n: int) -> Option<int>
    decreases n,
{
    if n <= 0 {
        None
    } else {
        let before = best_pair(pairs, n - 1);
        if pairs[n - 1].state != CandidatePairState::Succeeded {
            before
        } else {
            match before {
                Some(b) => if pairs[n - 1].priority >= pairs[b].priority {
                    Some(n - 1)
                } else {
                    before
                },
                None => Some(n - 1),
            }
        }
    }
}

impl IceChecklist {
    pub fn new(local: Vec<IceCandidate>, remote: Vec<IceCandidate>) -> (list: IceChecklist)
        requires
            priorities_fit(local@, remote@),
        ensures
            list.local == local,
            list.remote == remote,
            ranked(list.pairs@),
            forall|k: int|
                0 <= k < list.pairs@.len() ==> is_fresh_match(
                    local@,
                    remote@,
                    #[trigger] list.pairs@[k],
                ),
            forall|i: int, j: int|
                0 <= i < local@.len() && 0 <= j < remote@.len() && #[trigger] matching(
                    local@[i],
                    remote@[j],
                ) ==> list.pairs@.contains(fresh_pair(local@, remote@, i, j)),
    {
        let mut pairs: Vec<CandidatePair> = Vec::new();
        let mut li: usize = 0;
        while li < local.len()
            invariant
                li <= local@.len(),
                priorities_fit(local@, remote@),
                ranked(pairs@),
                forall|k: int|
                    0 <= k < pairs@.len() ==> is_fresh_match(
                        local@,
                        remote@,
                        #[trigger] pairs@[k],
                    ) && pairs@[k].local_index < li,
                covers_up_to(local@, remote@, pairs@, li as int, 0),
            decreases local@.len() - li,
        {
            let mut ri: usize = 0;
            while ri < remote.len()
                invariant
                    li < local@.len(),
                    ri <= remote@.len(),
                    priorities_fit(local@, remote@),
                    ranked(pairs@),
                    forall|k: int|
                        0 <= k < pairs@.len() ==> is_fresh_match(
                            local@,
                            remote@,
                            #[trigger] pairs@[k],
                        ) && earlier_place(
                            pairs@[k].local_index as int,
                            pairs@[k].remote_index as int,
                            li as int,
                            ri as int,
                        ),
                    covers_up_to(local@, remote@, pairs@, li as int, ri as int),
                decreases remote@.len() - ri,
            {
                let l = &local[li];
                let r = &remote[ri];
                let ghost before = pairs@;
                if l.component == r.component && l.transport == r.transport {
                    assert(matching(local@[li as int], remote@[ri as int]));
                    let pair = CandidatePair {
                        local_index: li,
                        remote_index: ri,
                        priority: pair_priority(l.priority, r.priority),
                        nominated: false,
                        state: CandidatePairState::Frozen,
                    };
                    insert_ranked(&mut pairs, pair);
                    proof {
                        let at = choose|at: int|
                            0 <= at <= before.len() && pairs@ == #[trigger] before.insert(at, pair);
                        lemma_inserted(before, at, pair);
                        assert(pair == fresh_pair(local@, remote@, li as int, ri as int));
                    }
                } else {
                    assert(!matching(local@[li as int], remote@[ri as int]));
                }
                proof {
                    assert forall|i: int, j: int|
                        0 <= i < local@.len() && 0 <= j < remote@.len() && earlier_place(
                            i,
                            j,
                            li as int,
                            ri + 1,
                        ) && #[trigger] matching(local@[i], remote@[j]) implies pairs@.contains(
                        fresh_pair(local@, remote@, i, j),
                    ) by {
                        if earlier_place(i, j, li as int, ri as int) {
                            assert(before.contains(fresh_pair(local@, remote@, i, j)));
                        } else {
                            assert(i == li && j == ri);
                        }
                    }
                }
                ri = ri + 1;
            }
            proof {
                assert forall|i: int, j: int|
                    0 <= i < local@.len() && 0 <= j < remote@.len() && earlier_place(
                        i,
                        j,
                        li + 1,
                        0,
                    ) && #[trigger] matching(local@[i], remote@[j]) implies pairs@.contains(
                    fresh_pair(local@, remote@, i, j),
                ) by {
                    assert(earlier_place(i, j, li as int, ri as int));
                }
            }
            li = li + 1;
        }
        proof {
            assert forall|i: int, j: int|
                0 <= i < local@.len() && 0 <= j < remote@.len() && #[trigger] matching(
                    local@[i],
                    remote@[j],
                ) implies pairs@.contains(fresh_pair(local@, remote@, i, j)) by {
                assert(earlier_place(i, j, li as int, 0));
            }
        }
        IceChecklist { local, remote, pairs }
    }

    /// Takes the next pair up for its check: the first that waits.
    pub fn next_check(&mut self) -> (next: Option<(usize, usize)>)
        ensures
            final(self).local == old(self).local,
            final(self).remote == old(self).remote,
            match find_frozen(old(self).pairs@, 0) {
                Some(at) => {
                    let pair = old(self).pairs@[at];
                    &&& next == Some((pair.local_index, pair.remote_index))
                    &&& final(self).pairs@ == old(self).pairs@.update(
                        at,
                        CandidatePair { state: CandidatePairState::InProgress, ..pair },
                    )
                },
                None => next is None && final(self).pairs@ == old(self).pairs@,
            },
    {
        let mut i: usize = 0;
        while i < self.pairs.len()
            invariant
                i <= self.pairs@.len(),
                *self == *old(self),
                find_frozen(self.pairs@, 0) == find_frozen(self.pairs@, i as int),
            decreases self.pairs@.len() - i,
        {
            if self.pairs[i].state == CandidatePairState::Frozen {
                let pair = self.pairs[i];
                self.pairs.set(i, CandidatePair { state: CandidatePairState::InProgress, ..pair });
                return Some((pair.local_index, pair.remote_index));
            }
            i = i + 1;
        }
        None
    }

    /// Notes how a check came out.
    pub fn mark_check_result(&mut self, local_index: usize, remote_index: usize, ok: bool)
        ensures
            final(self).local == old(self).local,
            final(self).remote == old(self).remote,
            final(self).pairs@ == match find_pair(old(self).pairs@, local_index, remote_index, 0) {
                Some(at) => old(self).pairs@.update(
                    at,
                    CandidatePair {
                        state: if ok {
                            CandidatePairState::Succeeded
                        } else {
                            CandidatePairState::Failed
                        },
                        ..old(self).pairs@[at]
                    },
                ),
                None => old(self).pairs@,
            },
    {
        let mut i: usize = 0;
        while i < self.pairs.len()
            invariant
                i <= self.pairs@.len(),
                *self == *old(self),
                find_pair(self.pairs@, local_index, remote_index, 0) == find_pair(
                    self.pairs@,
                    local_index,
                    remote_index,
                    i as int,
                ),
            decreases self.pairs@.len() - i,
        {
            if self.pairs[i].local_index == local_index && self.pairs[i].remote_index
                == remote_index {
                let pair = self.pairs[i];
                self.pairs.set(
                    i,
                    CandidatePair {
                        state: if ok {
                            CandidatePairState::Succeeded
                        } else {
                            CandidatePairState::Failed
                        },
                        ..pair
                    },
                );
                return ;
            }
            i = i + 1;
        }
    }

    /// Nominates the best pair that succeeded.
    pub fn nominate_best(&mut self) -> (nominated: Option<CandidatePair>)
        ensures
            final(self).local == old(self).local,
            final(self).remote == old(self).remote,
            match best_pair(old(self).pairs@, old(self).pairs@.len() as int) {
                Some(at) => {
                    let pair = CandidatePair { nominated: true, ..old(self).pairs@[at] };
                    &&& nominated == Some(pair)
                    &&& final(self).pairs@ == old(self).pairs@.update(at, pair)
                },
                None => nominated is None && final(self).pairs@ == old(self).pairs@,
            },
    {
        let mut best: Option<usize> = None;
        let mut i: usize = 0;
        while i < self.pairs.len()
            invariant
                i <= self.pairs@.len(),
                *self == *old(self),
                match (best, best_pair(self.pairs@, i as int)) {
                    (Some(b), Some(expected)) => b == expected && b < i,
                    (None, None) => true,
                    _ => false,
                },
            decreases self.pairs@.len() - i,
        {
            if self.pairs[i].state == CandidatePairState::Succeeded {
                let better: bool = match best {
                    Some(b) => self.pairs[i].priority >= self.pairs[b].priority,
                    None => true,
                };
                if better {
                    best = Some(i);
                }
            }
            i = i + 1;
        }
        match best {
            Some(b) => {
                let pair = CandidatePair { nominated: true, ..self.pairs[b] };
                self.pairs.set(b, pair);
                Some(pair)
            },
            None => None,
        }
    }
}

proof fn lemma_inserted(before: Seq<CandidatePair>, at: int, pair: CandidatePair)
    requires
        0 <= at <= before.len(),
    ensures
        before.insert(at, pair).contains(pair),
        forall|p: CandidatePair| before.contains(p) ==> before.insert(at, pair).contains(p),
        forall|k: int|
            0 <= k < before.insert(at, pair).len() ==> #[trigger] before.insert(at, pair)[k] == pair
                || before.contains(before.insert(at, pair)[k]),
{
    let after = before.insert(at, pair);
    assert(after[at] == pair);
    assert forall|p: CandidatePair| before.contains(p) implies after.contains(p) by {
        let k = choose|k: int| 0 <= k < before.len() && before[k] == p;
        if k < at {
            assert(after[k] == p);
        } else {
            assert(after[k + 1] == p);
        }
    }
    assert forall|k: int| 0 <= k < after.len() implies #[trigger] after[k] == pair
        || before.contains(after[k]) by {
        if k < at {
            assert(after[k] == before[k]);
        } else if k > at {
            assert(after[k] == before[k - 1]);
        }
    }
}

/// What is nominated succeeded, and no pair that succeeded has a higher priority.
pub proof fn law_nominated_pair_is_best(pairs: Seq<CandidatePair>, n: int, k: int)
    requires
        0 <= n <= pairs.len(),
        0 <= k < n,
        pairs[k].state == CandidatePairState::Succeeded,
    ensures
        best_pair(pairs, n) is Some,
        ({
            let b = best_pair(pairs, n).unwrap();
            &&& 0 <= b < n
            &&& pairs[b].state == CandidatePairState::Succeeded
            &&& pairs[b].priority >= pairs[k].priority
        }),
    decreases n,
{
    lemma_best_in_range(pairs, n);
    if k < n - 1 {
        law_nominated_pair_is_best(pairs, n - 1, k);
    } else {
        lemma_best_in_range(pairs, n - 1);
    }
}

pub(crate) proof fn lemma_best_in_range(pairs: Seq<CandidatePair>, n: int)
    requires
        0 <= n <= pairs.len(),
    ensures
        best_pair(pairs, n) matches Some(b) ==> 0 <= b < n && pairs[b].state
            == CandidatePairState::Succeeded,
    decreases n,
{
    if n > 0 {
        lemma_best_in_range(pairs, n - 1);
    }
}

/// Checks come in the order of the checklist: a pair that is taken up has no
/// waiting pair before it, and is waiting no longer.
pub proof fn law_checks_follow_rank(pairs: Seq<CandidatePair>, k: int)
    requires
        0 <= k < pairs.len(),
        pairs[k].state == CandidatePairState::Frozen,
    ensures
        find_frozen(pairs, 0) matches Some(at) && 0 <= at <= k && pairs[at].state
            == CandidatePairState::Frozen,
{
    lemma_find_frozen(pairs, 0, k);
}

proof fn lemma_find_frozen(pairs: Seq<CandidatePair>, from: int, k: int)
    requires
        0 <= from <= k < pairs.len(),
        pairs[k].state == CandidatePairState::Frozen,
    ensures
        find_frozen(pairs, from) matches Some(at) && from <= at <= k && pairs[at].state
            == CandidatePairState::Frozen,
    decreases k - from,
{
    if from < k {
        if pairs[from].state != CandidatePairState::Frozen {
            lemma_find_frozen(pairs, from + 1, k);
        }
    }
}

#[derive(Debug, Clone, Copy, PartialEq, Eq, Structural)]
pub struct ConsentConfig {
    pub interval_ms: u64,
    pub max_missed: u8,
}

impl Default for ConsentConfig {
    fn default() -> (cfg: ConsentConfig)
        ensures
            cfg == (ConsentConfig { interval_ms: 15_000, max_missed: 3 }),
    {
        ConsentConfig { interval_ms: 15_000, max_missed: 3 }
    }
}

#[derive(Debug, Clone, Copy, PartialEq, Eq, Structural)]
pub struct ConsentState {
    pub next_deadline_ms: u64,
    pub missed_count: u8,
}

#[derive(Debug, Clone, Copy, PartialEq, Eq, Structural)]
pub enum ConsentAction {
    SendKeepalive,
    PathLost,
    Noop,
}

pub struct ConsentManager {
    pub cfg: ConsentConfig,
    pub state: ConsentState,
}

/// What a tick does to the consent for a path.
pub open spec fn consent_tick(cfg: ConsentConfig, state: ConsentState, now_ms: u64) -> (
    ConsentState,
    ConsentAction,
) {
    if now_ms < state.next_deadline_ms {
        (state, ConsentAction::Noop)
    } else {
        let missed = if state.missed_count == u8::MAX {
            u8::MAX
        } else {
            (state.missed_count + 1) as u8
        };
        (
            ConsentState {
                next_deadline_ms: codec::saturating_sum(now_ms, cfg.interval_ms),
                missed_count: missed,
            },
            if missed > cfg.max_missed {
                ConsentAction::PathLost
            } else {
                ConsentAction::SendKeepalive
            },
        )
    }
}

impl ConsentManager {
    pub fn new(start_ms: u64, cfg: ConsentConfig) -> (manager: ConsentManager)
        ensures
            manager.cfg == cfg,
            manager.state == (ConsentState {
                next_deadline_ms: codec::saturating_sum(start_ms, cfg.interval_ms),
                missed_count: 0,
            }),
    {
        ConsentManager {
            cfg,
            state: ConsentState {
                next_deadline_ms: start_ms.saturating_add(cfg.interval_ms),
                missed_count: 0,
            },
        }
    }

    pub fn on_tick(&mut self, now_ms: u64) -> (action: ConsentAction)
        ensures
            final(self).cfg == old(self).cfg,
            (final(self).state, action) == consent_tick(old(self).cfg, old(self).state, now_ms),
    {
        if now_ms < self.state.next_deadline_ms {
            return ConsentAction::Noop;
        }
        self.state.next_deadline_ms = now_ms.saturating_add(self.cfg.interval_ms);
        self.state.missed_count = self.state.missed_count.saturating_add(1);
        if self.state.missed_count > self.cfg.max_missed {
            ConsentAction::PathLost
        } else {
            ConsentAction::SendKeepalive
        }
    }

    pub fn on_response(&mut self, now_ms: u64)
        ensures
            final(self).cfg == old(self).cfg,
            final(self).state == (ConsentState {
                next_deadline_ms: codec::saturating_sum(now_ms, old(self).cfg.interval_ms),
                missed_count: 0,
            }),
    {
        self.state.missed_count = 0;
        self.state.next_deadline_ms = now_ms.saturating_add(self.cfg.interval_ms);
    }

    pub fn state(&self) -> (state: ConsentState)
        ensures
            state == self.state,
    {
        self.state
    }
}

/// A tick per interval, without a response: the state after `n` of them.
pub open spec fn unanswered_ticks(
    cfg: ConsentConfig,
    state: ConsentState,
    times: Seq<u64>,
) -> ConsentState
    decreases times.len(),
{
    if times.len() == 0 {
        state
    } else {
        consent_tick(cfg, unanswered_ticks(cfg, state, times.drop_last()), times.last()).0
    }
}

/// That every tick comes when it is due.
pub open spec fn all_due(cfg: ConsentConfig, state: ConsentState, times: Seq<u64>) -> bool
    decreases times.len(),
{
    times.len() == 0 || {
        &&& all_due(cfg, state, times.drop_last())
        &&& times.last() >= unanswered_ticks(cfg, state, times.drop_last()).next_deadline_ms
    }
}

/// A path is given up with the first due tick after as many unanswered ones as
/// are allowed, and not before.
pub proof fn law_path_is_lost_after_the_allowed_misses(
    cfg: ConsentConfig,
    state: ConsentState,
    times: Seq<u64>,
    now_ms: u64,
)
    requires
        state.missed_count == 0,
        cfg.max_missed < u8::MAX,
        times.len() <= cfg.max_missed,
        all_due(cfg, state, times),
        now_ms >= unanswered_ticks(cfg, state, times).next_deadline_ms,
    ensures
        unanswered_ticks(cfg, state, times).missed_count == times.len(),
        consent_tick(cfg, unanswered_ticks(cfg, state, times), now_ms).1 == if times.len()
            == cfg.max_missed {
            ConsentAction::PathLost
        } else {
            ConsentAction::SendKeepalive
        },
    decreases times.len(),
{
    if times.len() > 0 {
        law_path_is_lost_after_the_allowed_misses(cfg, state, times.drop_last(), times.last());
    }
}

#[derive(Debug, Clone, Copy, PartialEq, Eq, Structural)]
pub enum NatError {
    InvalidStunPacket,
    UnsupportedStunFamily,
}

impl NatError {
    /// What the error says to a reader.
    pub fn message(&self) -> (message: String)
        ensures
            message@ == match *self {
                NatError::InvalidStunPacket => "invalid stun packet"@,
                NatError::UnsupportedStunFamily => "unsupported stun family"@,
            },
    {
        match self {
            NatError::InvalidStunPacket => "invalid stun packet".to_string(),
            NatError::UnsupportedStunFamily => "unsupported stun family".to_string(),
        }
    }
}

/// A binding request without attributes: type, length, magic cookie and
/// transaction id.
pub fn stun_build_binding_request(tx_id: [u8; 12]) -> (out: Vec<u8>)
    ensures
        out@ == seq![0u8, 1u8, 0u8, 0u8] + big_endian::be_bytes(STUN_MAGIC_COOKIE as nat, 4)
            + tx_id@,
{
    let mut out: Vec<u8> = Vec::with_capacity(20);
    out.push(0x00);
    out.push(0x01);
    out.push(0x00);
    out.push(0x00);
    append_be(&mut out, STUN_MAGIC_COOKIE as u64, 4);
    proof {
        big_endian::lemma_be_bytes_len(STUN_MAGIC_COOKIE as nat, 4);
    }
    let ghost head = out@;
    assert(head =~= seq![0u8, 1u8, 0u8, 0u8] + big_endian::be_bytes(STUN_MAGIC_COOKIE as nat, 4));
    let mut i: usize = 0;
    while i < 12
        invariant
            i <= 12,
            out@ == head + tx_id@.take(i as int),
        decreases 12 - i,
    {
        out.push(tx_id[i]);
        assert(tx_id@.take(i + 1) =~= tx_id@.take(i as int).push(tx_id@[i as int]));
        i = i + 1;
    }
    assert(tx_id@.take(12) =~= tx_id@);
    out
}

/// The address in a XOR-MAPPED-ADDRESS value of family IPv4.
pub open spec fn unmasked_address(value: Seq<u8>) -> SocketAddress {
    SocketAddress {
        ip: IpAddress::V4(
            big_endian::be_value(
                seq![value[4] ^ 0x21, value[5] ^ 0x12, value[6] ^ 0xa4, value[7] ^ 0x42],
            ) as u32,
        ),
        port: (big_endian::be_value(value.subrange(2, 4)) as u16) ^ 0x2112,
    }
}

/// The first mapped address in a list of attributes. Values are padded to four
/// bytes.
pub open spec fn mapped_address(attributes: Seq<u8>) -> Result<SocketAddress, NatError>
    decreases attributes.len(),
{
    if attributes.len() < 4 {
        Err(NatError::InvalidStunPacket)
    } else {
        let kind = big_endian::be_value(attributes.subrange(0, 2));
        let len = big_endian::be_value(attributes.subrange(2, 4));
        let padded = (len + 3) / 4 * 4;
        if 4 + len > attributes.len() {
            Err(NatError::InvalidStunPacket)
        } else if kind == 0x0020 {
            if len < 8 {
                Err(NatError::InvalidStunPacket)
            } else if attributes[5] != 0x01 {
                Err(NatError::UnsupportedStunFamily)
            } else {
                Ok(unmasked_address(attributes.skip(4)))
            }
        } else if 4 + padded > attributes.len() {
            Err(NatError::InvalidStunPacket)
        } else {
            mapped_address(attributes.skip(4 + padded as int))
        }
    }
}

/// What a binding response says.
pub open spec fn binding_success(packet: Seq<u8>) -> Result<SocketAddress, NatError> {
    if packet.len() < 20 || packet[0] != 0x01 || packet[1] != 0x01 {
        Err(NatError::InvalidStunPacket)
    } else if packet.len() < 20 + big_endian::be_value(packet.subrange(2, 4)) {
        Err(NatError::InvalidStunPacket)
    } else if big_endian::be_value(packet.subrange(4, 8)) != STUN_MAGIC_COOKIE {
        Err(NatError::InvalidStunPacket)
    } else {
        mapped_address(packet.skip(20))
    }
}

fn read_mapped_address(packet: &[u8], pos: usize) -> (address: SocketAddress)
    requires
        pos + 8 <= packet@.len(),
    ensures
        address == unmasked_address(packet@.skip(pos as int)),
{
    let ghost value = packet@.skip(pos as int);
    let total: usize = packet.len();
    assert(pos + 8 <= total);
    proof {
        big_endian::lemma_be_range_values();
        assert(packet@.subrange(pos + 2, pos + 4) =~= value.subrange(2, 4));
    }
    let port: u16 = (read_be(packet, pos + 2, 2) as u16) ^ 0x2112;
    let octets: Vec<u8> = vec![
        packet[pos + 4] ^ 0x21,
        packet[pos + 5] ^ 0x12,
        packet[pos + 6] ^ 0xa4,
        packet[pos + 7] ^ 0x42,
    ];
    proof {
        assert(octets@ =~= seq![value[4] ^ 0x21, value[5] ^ 0x12, value[6] ^ 0xa4, value[7] ^ 0x42]);
        assert(octets@.subrange(0, 4) =~= octets@);
    }
    SocketAddress { ip: IpAddress::V4(read_be(&octets, 0, 4) as u32), port }
}

/// Reads a binding response: the address that the server saw, and the
/// transaction that it answers.
pub fn stun_parse_binding_success(packet: &[u8]) -> (result: Result<
    (SocketAddress, [u8; 12]),
    NatError,
>)
    ensures
        match binding_success(packet@) {
            Ok(address) => {
                &&& result is Ok
                &&& result->Ok_0.0 == address
                &&& result->Ok_0.1@ == packet@.subrange(8, 20)
            },
            Err(e) => result == Err::<(SocketAddress, [u8; 12]), NatError>(e),
        },
{
    if packet.len() < 20 {
        return Err(NatError::InvalidStunPacket);
    }
    if packet[0] != 0x01 || packet[1] != 0x01 {
        return Err(NatError::InvalidStunPacket);
    }
    proof {
        big_endian::lemma_be_range_values();
    }
    let len: usize = read_be(packet, 2, 2) as usize;
    if packet.len() - 20 < len {
        return Err(NatError::InvalidStunPacket);
    }
    if read_be(packet, 4, 4) != STUN_MAGIC_COOKIE as u64 {
        return Err(NatError::InvalidStunPacket);
    }
    let mut tx_id: [u8; 12] = [0u8; 12];
    let mut i: usize = 0;
    while i < 12
        invariant
            i <= 12,
            packet@.len() >= 20,
            forall|j: int| 0 <= j < i ==> tx_id@[j] == packet@[8 + j],
        decreases 12 - i,
    {
        tx_id[i] = packet[8 + i];
        i = i + 1;
    }
    assert(tx_id@ =~= packet@.subrange(8, 20));
    let mut pos: usize = 20;
    while packet.len() - pos >= 4
        invariant
            20 <= pos <= packet@.len(),
            binding_success(packet@) == mapped_address(packet@.skip(pos as int)),
            tx_id@ == packet@.subrange(8, 20),
        decreases packet@.len() - pos,
    {
        let ghost rest = packet@.skip(pos as int);
        proof {
            big_endian::lemma_be_range_values();
            assert(packet@.subrange(pos as int, pos + 2) =~= rest.subrange(0, 2));
            assert(packet@.subrange(pos + 2, pos + 4) =~= rest.subrange(2, 4));
            assert(packet@.skip(pos + 4) =~= rest.skip(4));
        }
        let attr_type: u64 = read_be(packet, pos, 2);
        let attr_len: usize = read_be(packet, pos + 2, 2) as usize;
        pos = pos + 4;
        if attr_len > packet.len() - pos {
            return Err(NatError::InvalidStunPacket);
        }
        if attr_type == 0x0020 {
            if attr_len < 8 {
                return Err(NatError::InvalidStunPacket);
            }
            if packet[pos + 1] != 0x01 {
                return Err(NatError::UnsupportedStunFamily);
            }
            return Ok((read_mapped_address(packet, pos), tx_id));
        }
        let padded: usize = (attr_len + 3) / 4 * 4;
        if padded > packet.len() - pos {
            return Err(NatError::InvalidStunPacket);
        }
        assert(rest.skip(4 + padded) =~= packet@.skip(pos + padded));
        pos = pos + padded;
    }
    Err(NatError::InvalidStunPacket)
}

/// A binding response with an IPv4 address as a server writes it.
pub open spec fn binding_response(tx_id: Seq<u8>, octets: Seq<u8>, port: u16) -> Seq<u8> {
    seq![0x01u8, 0x01u8] + big_endian::be_bytes(12, 2) + big_endian::be_bytes(
        STUN_MAGIC_COOKIE as nat,
        4,
    ) + tx_id + seq![0x00u8, 0x20u8, 0x00u8, 0x08u8, 0x00u8, 0x01u8] + big_endian::be_bytes(
        (port ^ 0x2112) as nat,
        2,
    ) + seq![octets[0] ^ 0x21, octets[1] ^ 0x12, octets[2] ^ 0xa4, octets[3] ^ 0x42]
}

proof fn lemma_xor_twice(a: u8, m: u8, p: u16, q: u16)
    by (bit_vector)
    ensures
        (a ^ m) ^ m == a,
        (p ^ q) ^ q == p,
{
}

/// The address that a server writes into its response is the one that is read.
pub proof fn law_mapped_address_is_read(tx_id: Seq<u8>, octets: Seq<u8>, port: u16)
    requires
        tx_id.len() == 12,
        octets.len() == 4,
    ensures
        binding_success(binding_response(tx_id, octets, port)) == Ok::<SocketAddress, NatError>(
            SocketAddress { ip: IpAddress::V4(big_endian::be_value(octets) as u32), port },
        ),
{
    let packet = binding_response(tx_id, octets, port);
    big_endian::lemma_be_range_values();
    big_endian::lemma_be_value_of_bytes(12, 2);
    big_endian::lemma_be_value_of_bytes(STUN_MAGIC_COOKIE as nat, 4);
    big_endian::lemma_be_value_of_bytes((port ^ 0x2112) as nat, 2);
    assert(packet.subrange(2, 4) =~= big_endian::be_bytes(12, 2));
    assert(packet.subrange(4, 8) =~= big_endian::be_bytes(STUN_MAGIC_COOKIE as nat, 4));
    let attributes = packet.skip(20);
    reveal_with_fuel(big_endian::be_value, 3);
    assert(attributes.subrange(0, 2) =~= seq![0x00u8, 0x20u8]);
    assert(attributes.subrange(2, 4) =~= seq![0x00u8, 0x08u8]);
    assert(seq![0x00u8, 0x20u8].drop_last() =~= seq![0x00u8]);
    assert(seq![0x00u8, 0x08u8].drop_last() =~= seq![0x00u8]);
    assert(seq![0x00u8].drop_last() =~= Seq::<u8>::empty());
    let value = attributes.skip(4);
    assert(value.subrange(2, 4) =~= big_endian::be_bytes((port ^ 0x2112) as nat, 2));
    lemma_xor_twice(octets[0], 0x21, port, 0x2112);
    lemma_xor_twice(octets[1], 0x12, port, 0x2112);
    lemma_xor_twice(octets[2], 0xa4, port, 0x2112);
    lemma_xor_twice(octets[3], 0x42, port, 0x2112);
    assert(seq![value[4] ^ 0x21, value[5] ^ 0x12, value[6] ^ 0xa4, value[7] ^ 0x42] =~= octets);
}

#[derive(Debug, Clone, Copy, PartialEq, Eq, Structural)]
pub enum TurnAuthMode {
    LongTerm,
    RestSecret,
}

#[derive(Debug, Clone, Copy, PartialEq, Eq, Structural)]
pub enum TurnState {
    Idle,
    Allocating,
    Allocated,
    Failed,
}

#[derive(Debug, Clone, Copy, PartialEq, Eq, Structural)]
pub enum TurnEvent {
    AllocationOk { lifetime_secs: u32 },
    PermissionOk,
    ChannelBindOk,
    Unauthorized,
    StaleNonce,
    TransportFailure,
}

#[derive(Debug, Clone, Copy, PartialEq, Eq, Structural)]
pub enum TurnAction {
    SendAllocate,
    SendAllocateWithAuth,
    SendRefresh,
    SendCreatePermission,
    SendChannelBind,
    RetryAfter { delay_ms: u64 },
    MarkFailed,
    Noop,
}

#[derive(Debug, Clone, Copy, PartialEq, Eq, Structural)]
pub enum RelayPolicy {
    PreferDirect,
    RelayOnly,
}

#[derive(Debug, Clone, Copy, PartialEq, Eq, Structural)]
pub struct TurnConfig {
    pub auth_mode: TurnAuthMode,
    pub refresh_before_expiry_secs: u32,
    pub retry_backoff_ms: u64,
    pub permission_refresh_ms: u64,
    pub channel_refresh_ms: u64,
    pub relay_policy: RelayPolicy,
}

impl Default for TurnConfig {
    fn default() -> (cfg: TurnConfig)
        ensures
            cfg == (TurnConfig {
                auth_mode: TurnAuthMode::RestSecret,
                refresh_before_expiry_secs: 60,
                retry_backoff_ms: 1_000,
                permission_refresh_ms: 240_000,
                channel_refresh_ms: 540_000,
                relay_policy: RelayPolicy::PreferDirect,
            }),
    {
        TurnConfig {
            auth_mode: TurnAuthMode::RestSecret,
            refresh_before_expiry_secs: 60,
            retry_backoff_ms: 1_000,
            permission_refresh_ms: 240_000,
            channel_refresh_ms: 540_000,
            relay_policy: RelayPolicy::PreferDirect,
        }
    }
}

#[derive(Debug, Clone, Copy, PartialEq, Eq, Structural)]
pub struct TurnManager {
    pub state: TurnState,
    pub allocation_expiry_ms: Option<u64>,
    pub permission_expiry_ms: Option<u64>,
    pub channel_expiry_ms: Option<u64>,
    pub retries: u32,
    pub cfg: TurnConfig,
}

/// What is due on a relay at a moment: the allocation first, then the
/// permission, then the channel.
pub open spec fn turn_due(turn: TurnManager, now_ms: u64) -> TurnAction {
    if turn.state != TurnState::Allocated {
        TurnAction::Noop
    } else if turn.allocation_expiry_ms matches Some(expiry) && now_ms
        + turn.cfg.refresh_before_expiry_secs * 1000 >= expiry {
        TurnAction::SendRefresh
    } else if turn.permission_expiry_ms matches Some(expiry) && now_ms >= expiry {
        TurnAction::SendCreatePermission
    } else if turn.channel_expiry_ms matches Some(expiry) && now_ms >= expiry {
        TurnAction::SendChannelBind
    } else {
        TurnAction::Noop
    }
}

/// How often the backoff is waited after a number of failures: it doubles.
pub open spec fn backoff_factor(retries: u32) -> u64
    decreases retries,
{
    if retries <= 1 {
        1
    } else {
        (2 * backoff_factor((retries - 1) as u32)) as u64
    }
}

pub const MAX_TURN_RETRIES: u32 = 5;

/// What an event does to a relay, and what is to be done about it.
pub open spec fn turn_step(turn: TurnManager, now_ms: u64, event: TurnEvent) -> (
    TurnManager,
    TurnAction,
) {
    match event {
        TurnEvent::AllocationOk { lifetime_secs } => (
            TurnManager {
                state: TurnState::Allocated,
                retries: 0,
                allocation_expiry_ms: Some(
                    codec::saturating_sum(now_ms, (lifetime_secs * 1000) as u64),
                ),
                permission_expiry_ms: Some(
                    codec::saturating_sum(now_ms, turn.cfg.permission_refresh_ms),
                ),
                channel_expiry_ms: Some(
                    codec::saturating_sum(now_ms, turn.cfg.channel_refresh_ms),
                ),
                cfg: turn.cfg,
            },
            TurnAction::SendCreatePermission,
        ),
        TurnEvent::PermissionOk => (
            TurnManager {
                permission_expiry_ms: Some(
                    codec::saturating_sum(now_ms, turn.cfg.permission_refresh_ms),
                ),
                ..turn
            },
            TurnAction::SendChannelBind,
        ),
        TurnEvent::ChannelBindOk => (
            TurnManager {
                channel_expiry_ms: Some(
                    codec::saturating_sum(now_ms, turn.cfg.channel_refresh_ms),
                ),
                ..turn
            },
            TurnAction::Noop,
        ),
        TurnEvent::Unauthorized | TurnEvent::StaleNonce => (
            turn,
            TurnAction::SendAllocateWithAuth,
        ),
        TurnEvent::TransportFailure => {
            let retries = if turn.retries == u32::MAX {
                u32::MAX
            } else {
                (turn.retries + 1) as u32
            };
            if retries > MAX_TURN_RETRIES {
                (
                    TurnManager { retries, state: TurnState::Failed, ..turn },
                    TurnAction::MarkFailed,
                )
            } else {
                (
                    TurnManager { retries, ..turn },
                    TurnAction::RetryAfter {
                        delay_ms: codec::saturating_product(
                            turn.cfg.retry_backoff_ms,
                            backoff_factor(retries),
                        ),
                    },
                )
            }
        },
    }
}

fn backoff_times(retries: u32) -> (factor: u64)
    requires
        retries <= MAX_TURN_RETRIES,
    ensures
        factor == backoff_factor(retries),
        factor <= 16,
{
    reveal_with_fuel(backoff_factor, 6);
    match retries {
        0 | 1 => 1,
        2 => 2,
        3 => 4,
        4 => 8,
        _ => 16,
    }
}

impl TurnManager {
    pub fn new(cfg: TurnConfig) -> (turn: TurnManager)
        ensures
            turn == (TurnManager {
                state: TurnState::Idle,
                allocation_expiry_ms: None,
                permission_expiry_ms: None,
                channel_expiry_ms: None,
                retries: 0,
                cfg,
            }),
    {
        TurnManager {
            state: TurnState::Idle,
            allocation_expiry_ms: None,
            permission_expiry_ms: None,
            channel_expiry_ms: None,
            retries: 0,
            cfg,
        }
    }

    pub fn start_allocate(&mut self) -> (action: TurnAction)
        ensures
            *final(self) == (TurnManager { state: TurnState::Allocating, ..*old(self) }),
            action == TurnAction::SendAllocate,
    {
        self.state = TurnState::Allocating;
        TurnAction::SendAllocate
    }

    pub fn on_tick(&mut self, now_ms: u64) -> (action: TurnAction)
        ensures
            *final(self) == *old(self),
            action == turn_due(*old(self), now_ms),
    {
        if self.state != TurnState::Allocated {
            return TurnAction::Noop;
        }
        if let Some(expiry) = self.allocation_expiry_ms {
            let lead: u64 = self.cfg.refresh_before_expiry_secs as u64 * 1000;
            if now_ms >= expiry.saturating_sub(lead) {
                return TurnAction::SendRefresh;
            }
        }
        if let Some(expiry) = self.permission_expiry_ms {
            if now_ms >= expiry {
                return TurnAction::SendCreatePermission;
            }
        }
        if let Some(expiry) = self.channel_expiry_ms {
            if now_ms >= expiry {
                return TurnAction::SendChannelBind;
            }
        }
        TurnAction::Noop
    }

    pub fn on_event(&mut self, now_ms: u64, event: TurnEvent) -> (action: TurnAction)
        ensures
            (*final(self), action) == turn_step(*old(self), now_ms, event),
    {
        match event {
            TurnEvent::AllocationOk { lifetime_secs } => {
                self.state = TurnState::Allocated;
                self.retries = 0;
                let life_ms: u64 = lifetime_secs as u64 * 1000;
                self.allocation_expiry_ms = Some(now_ms.saturating_add(life_ms));
                self.permission_expiry_ms = Some(
                    now_ms.saturating_add(self.cfg.permission_refresh_ms),
                );
                self.channel_expiry_ms = Some(now_ms.saturating_add(self.cfg.channel_refresh_ms));
                TurnAction::SendCreatePermission
            },
            TurnEvent::PermissionOk => {
                self.permission_expiry_ms = Some(
                    now_ms.saturating_add(self.cfg.permission_refresh_ms),
                );
                TurnAction::SendChannelBind
            },
            TurnEvent::ChannelBindOk => {
                self.channel_expiry_ms = Some(now_ms.saturating_add(self.cfg.channel_refresh_ms));
                TurnAction::Noop
            },
            TurnEvent::Unauthorized | TurnEvent::StaleNonce => TurnAction::SendAllocateWithAuth,
            TurnEvent::TransportFailure => {
                self.retries = self.retries.saturating_add(1);
                if self.retries > MAX_TURN_RETRIES {
                    self.state = TurnState::Failed;
                    TurnAction::MarkFailed
                } else {
                    TurnAction::RetryAfter {
                        delay_ms: saturating_times(
                            self.cfg.retry_backoff_ms,
                            backoff_times(self.retries),
                        ),
                    }
                }
            },
        }
    }
}

/// Transport failures, one after the other.
pub open spec fn turn_failures(turn: TurnManager, times: Seq<u64>) -> TurnManager
    decreases times.len(),
{
    if times.len() == 0 {
        turn
    } else {
        turn_step(
            turn_failures(turn, times.drop_last()),
            times.last(),
            TurnEvent::TransportFailure,
        ).0
    }
}

/// A relay is retried five times with a doubling delay and given up at the
/// sixth failure in a row.
pub proof fn law_relay_is_given_up_at_the_sixth_failure(
    turn: TurnManager,
    times: Seq<u64>,
    now_ms: u64,
)
    requires
        turn.retries == 0,
        times.len() <= 5,
    ensures
        turn_failures(turn, times).retries == times.len(),
        turn_failures(turn, times).cfg == turn.cfg,
        turn_failures(turn, times).state == turn.state,
        turn_step(turn_failures(turn, times), now_ms, TurnEvent::TransportFailure).1
            == if times.len() == 5 {
            TurnAction::MarkFailed
        } else {
            TurnAction::RetryAfter {
                delay_ms: codec::saturating_product(
                    turn.cfg.retry_backoff_ms,
                    backoff_factor((times.len() + 1) as u32),
                ),
            }
        },
        times.len() == 5 ==> turn_step(
            turn_failures(turn, times),
            now_ms,
            TurnEvent::TransportFailure,
        ).0.state == TurnState::Failed,
    decreases times.len(),
{
    if times.len() > 0 {
        law_relay_is_given_up_at_the_sixth_failure(turn, times.drop_last(), times.last());
    }
}

/// An allocation is refreshed before it runs out: at any moment from the lead
/// time on, a refresh is what is due.
pub proof fn law_allocation_is_refreshed_in_time(
    turn: TurnManager,
    granted_ms: u64,
    lifetime_secs: u32,
    now_ms: u64,
)
    requires
        now_ms + turn.cfg.refresh_before_expiry_secs * 1000 >= granted_ms + lifetime_secs * 1000,
    ensures
        turn_due(
            turn_step(turn, granted_ms, TurnEvent::AllocationOk { lifetime_secs }).0,
            now_ms,
        ) == TurnAction::SendRefresh,
{
}

/// The refresh time that keeps a relay inside a disconnect window: nine tenths of
/// it, or half a minute where that is more and still inside.
pub open spec fn refresh_target(disconnect_window_ms: u64) -> u64 {
    let target = (disconnect_window_ms - disconnect_window_ms / 10) as u64;
    if target < 30_000 <= disconnect_window_ms {
        30_000
    } else {
        target
    }
}

/// A configuration whose refresh times are no later than the window asks for.
pub open spec fn tuned_config(cfg: TurnConfig, disconnect_window_ms: u64) -> TurnConfig {
    let target = refresh_target(disconnect_window_ms);
    TurnConfig {
        permission_refresh_ms: if cfg.permission_refresh_ms <= target {
            cfg.permission_refresh_ms
        } else {
            target
        },
        channel_refresh_ms: if cfg.channel_refresh_ms <= target {
            cfg.channel_refresh_ms
        } else {
            target
        },
        ..cfg
    }
}

pub fn tune_turn_refresh_for_disconnect_window(cfg: TurnConfig, disconnect_window_ms: u64) -> (tuned:
    TurnConfig)
    ensures
        tuned == tuned_config(cfg, disconnect_window_ms),
        tuned.permission_refresh_ms <= disconnect_window_ms,
        tuned.channel_refresh_ms <= disconnect_window_ms,
{
    let guard_ms: u64 = disconnect_window_ms / 10;
    let target: u64 = disconnect_window_ms.saturating_sub(guard_ms);
    let target_ms: u64 = if target < 30_000 && disconnect_window_ms >= 30_000 {
        30_000
    } else {
        target
    };
    TurnConfig {
        permission_refresh_ms: if cfg.permission_refresh_ms <= target_ms {
            cfg.permission_refresh_ms
        } else {
            target_ms
        },
        channel_refresh_ms: if cfg.channel_refresh_ms <= target_ms {
            cfg.channel_refresh_ms
        } else {
            target_ms
        },
        ..cfg
    }
}

/// Tuned refreshes come within the disconnect window, however short it is, and
/// never later than before, and nothing else is tuned. A relay of such a
/// configuration that is quiet for a window has a refresh due.
pub proof fn law_tuned_refresh_is_inside_the_window(
    cfg: TurnConfig,
    disconnect_window_ms: u64,
    turn: TurnManager,
    granted_ms: u64,
    lifetime_secs: u32,
    now_ms: u64,
)
    ensures
        ({
            let tuned = tuned_config(cfg, disconnect_window_ms);
            &&& tuned == (TurnConfig {
                permission_refresh_ms: tuned.permission_refresh_ms,
                channel_refresh_ms: tuned.channel_refresh_ms,
                ..cfg
            })
            &&& tuned.permission_refresh_ms <= disconnect_window_ms
            &&& tuned.permission_refresh_ms <= cfg.permission_refresh_ms
            &&& tuned.channel_refresh_ms <= disconnect_window_ms
            &&& tuned.channel_refresh_ms <= cfg.channel_refresh_ms
            &&& turn.cfg == tuned && now_ms >= granted_ms + disconnect_window_ms ==> turn_due(
                turn_step(turn, granted_ms, TurnEvent::AllocationOk { lifetime_secs }).0,
                now_ms,
            ) != TurnAction::Noop
        }),
{
}

/// A request that is refused for want of credentials or for an old nonce is
/// made again with authentication, however often that happens, and nothing
/// else changes.
pub proof fn law_challenge_is_answered(turn: TurnManager, now_ms: u64)
    ensures
        turn_step(turn, now_ms, TurnEvent::Unauthorized) == (
            turn,
            TurnAction::SendAllocateWithAuth,
        ),
        turn_step(turn, now_ms, TurnEvent::StaleNonce) == (turn, TurnAction::SendAllocateWithAuth),
{
}

pub fn relay_path_mtu(candidate_type: CandidateType) -> (mtu: usize)
    ensures
        mtu == match candidate_type {
            CandidateType::Relay => 1200usize,
            CandidateType::Srflx => 1232,
            CandidateType::Host => 1400,
        },
{
    match candidate_type {
        CandidateType::Relay => 1200,
        CandidateType::Srflx => 1232,
        CandidateType::Host => 1400,
    }
}

/// Whether a policy lets a candidate be used.
pub open spec fn policy_allows(policy: RelayPolicy, candidate: IceCandidate) -> bool {
    policy == RelayPolicy::PreferDirect || candidate.typ == CandidateType::Relay
}

/// The candidates that a policy lets be used, in order.
pub open spec fn allowed(policy: RelayPolicy, candidates: Seq<IceCandidate>) -> Seq<IceCandidate>
    decreases candidates.len(),
{
    if candidates.len() == 0 {
        Seq::empty()
    } else {
        let front = allowed(policy, candidates.drop_last());
        if policy_allows(policy, candidates.last()) {
            front.push(candidates.last())
        } else {
            front
        }
    }
}

/// What a list of references refers to.
pub open spec fn referred(candidates: Seq<&IceCandidate>) -> Seq<IceCandidate> {
    candidates.map_values(|c: &IceCandidate| *c)
}

fn select_allowed<'a>(candidates: &'a [IceCandidate], policy: RelayPolicy) -> (kept: Vec<
    &'a IceCandidate,
>)
    ensures
        referred(kept@) == allowed(policy, candidates@),
{
    let mut kept: Vec<&'a IceCandidate> = Vec::new();
    let mut i: usize = 0;
    assert(referred(kept@) =~= Seq::<IceCandidate>::empty());
    while i < candidates.len()
        invariant
            i <= candidates@.len(),
            referred(kept@) == allowed(policy, candidates@.take(i as int)),
        decreases candidates@.len() - i,
    {
        let candidate = &candidates[i];
        let ghost before = kept@;
        let keep: bool = policy == RelayPolicy::PreferDirect || candidate.typ
            == CandidateType::Relay;
        if keep {
            kept.push(candidate);
            assert(referred(kept@) =~= referred(before).push(*candidate));
        }
        assert(candidates@.take(i + 1).drop_last() =~= candidates@.take(i as int));
        i = i + 1;
    }
    assert(candidates@.take(i as int) =~= candidates@);
    kept
}

pub fn select_path_candidates<'a>(
    local: &'a [IceCandidate],
    remote: &'a [IceCandidate],
    policy: RelayPolicy,
) -> (kept: (Vec<&'a IceCandidate>, Vec<&'a IceCandidate>))
    ensures
        referred(kept.0@) == allowed(policy, local@),
        referred(kept.1@) == allowed(policy, remote@),
{
    (select_allowed(local, policy), select_allowed(remote, policy))
}

/// Under the relay-only policy the relay candidates are used and nothing else;
/// under the other nothing is left out.
pub proof fn law_relay_only_keeps_relays(candidates: Seq<IceCandidate>, k: int)
    ensures
        0 <= k < candidates.len() && candidates[k].typ == CandidateType::Relay ==> allowed(
            RelayPolicy::RelayOnly,
            candidates,
        ).contains(candidates[k]),
        0 <= k < allowed(RelayPolicy::RelayOnly, candidates).len() ==> allowed(
            RelayPolicy::RelayOnly,
            candidates,
        )[k].typ == CandidateType::Relay,
        allowed(RelayPolicy::PreferDirect, candidates) == candidates,
    decreases candidates.len(),
{
    if candidates.len() > 0 {
        law_relay_only_keeps_relays(candidates.drop_last(), k);
        assert(candidates.drop_last().push(candidates.last()) =~= candidates);
        let front = allowed(RelayPolicy::RelayOnly, candidates.drop_last());
        let all = allowed(RelayPolicy::RelayOnly, candidates);
        if 0 <= k < candidates.len() && candidates[k].typ == CandidateType::Relay {
            if k == candidates.len() - 1 {
                assert(all[front.len() as int] == candidates[k]);
            } else {
                let at = choose|at: int| 0 <= at < front.len() && front[at] == candidates[k];
                assert(all[at] == candidates[k]);
            }
        }
    } else {
        assert(allowed(RelayPolicy::PreferDirect, candidates) =~= candidates);
    }
}

/// The host candidate for a bound socket.
pub open spec fn is_host_candidate(
    candidate: IceCandidate,
    idx: nat,
    socket: (IpAddress, u16),
    component: u16,
    transport: Seq<char>,
) -> bool {
    &&& candidate.foundation@ == "host-"@ + text::decimal(idx)
    &&& candidate.component == component
    &&& candidate.transport@ == transport
    &&& candidate.priority == if 100 + idx % 0x1_0000_0000 > u32::MAX {
        u32::MAX as int
    } else {
        (100 + idx % 0x1_0000_0000) as int
    }
    &&& candidate.address == socket.0
    &&& candidate.port == socket.1
    &&& candidate.typ == CandidateType::Host
    &&& candidate.related_address is None
    &&& candidate.related_port is None
}

pub fn gather_host_candidates(sockets: &[(IpAddress, u16)], component: u16, transport: &str) -> (gathered:
    Vec<IceCandidate>)
    ensures
        gathered@.len() == sockets@.len(),
        forall|i: int|
            0 <= i < sockets@.len() ==> is_host_candidate(
                #[trigger] gathered@[i],
                i as nat,
                sockets@[i],
                component,
                transport@,
            ),
{
    let mut gathered: Vec<IceCandidate> = Vec::new();
    let mut idx: usize = 0;
    while idx < sockets.len()
        invariant
            idx <= sockets@.len(),
            gathered@.len() == idx,
            forall|i: int|
                0 <= i < idx ==> is_host_candidate(
                    #[trigger] gathered@[i],
                    i as nat,
                    sockets@[i],
                    component,
                    transport@,
                ),
        decreases sockets@.len() - idx,
    {
        let low: u32 = (idx as u64 % 0x1_0000_0000) as u32;
        let (address, port) = sockets[idx];
        gathered.push(
            IceCandidate {
                foundation: text_with_number("host-", idx as u64),
                component,
                transport: transport.to_string(),
                priority: 100u32.saturating_add(low),
                address,
                port,
                typ: CandidateType::Host,
                related_address: None,
                related_port: None,
            },
        );
        idx = idx + 1;
    }
    gathered
}

} // verus!
