//! Timers by deadline.

use std::collections::BTreeMap;

use vstd::prelude::*;

use crate::session::types::TimerId;

verus! {

broadcast use vstd::laws_cmp::group_laws_cmp;

/// Timers that wait, each with the session it belongs to. Timers with the same
/// deadline keep the order in which they were set.
#[derive(Debug)]
pub struct TimerQueue {
    pub slots: BTreeMap<u64, Vec<(u64, TimerId)>>,
}

impl View for TimerQueue {
    type V = Map<u64, Seq<(u64, TimerId)>>;

    open spec fn view(&self) -> Map<u64, Seq<(u64, TimerId)>> {
        self.slots@.map_values(|s: Vec<(u64, TimerId)>| s@)
    }
}

/// The timers set for a moment.
pub open spec fn slot(queue: Map<u64, Seq<(u64, TimerId)>>, deadline: u64) -> Seq<(u64, TimerId)> {
    if queue.contains_key(deadline) {
        queue[deadline]
    } else {
        Seq::empty()
    }
}

/// Entries with their deadline.
pub open spec fn tagged(deadline: u64, entries: Seq<(u64, TimerId)>) -> Seq<(u64, u64, TimerId)> {
    entries.map_values(|e: (u64, TimerId)| (deadline, e.0, e.1))
}

/// The timers with deadlines from `from` to `to`, in order.
pub open spec fn due_between(
    queue: Map<u64, Seq<(u64, TimerId)>>,
    from: int,
    to: int,
) -> Seq<(u64, u64, TimerId)>
    decreases to - from + 1,
{
    if from > to {
        Seq::empty()
    } else {
        tagged(from as u64, slot(queue, from as u64)) + due_between(queue, from + 1, to)
    }
}

/// The timers that are due at a moment, the longest due first, at most `limit`.
pub open spec fn due_at(
    queue: Map<u64, Seq<(u64, TimerId)>>,
    now_ms: u64,
    limit: nat,
) -> Seq<(u64, u64, TimerId)> {
    let all = due_between(queue, 0, now_ms as int);
    if all.len() <= limit {
        all
    } else {
        all.take(limit as int)
    }
}

/// The queue with one more timer behind the others of its moment.
pub open spec fn with_timer(
    queue: Map<u64, Seq<(u64, TimerId)>>,
    deadline: u64,
    entry: (u64, TimerId),
) -> Map<u64, Seq<(u64, TimerId)>> {
    queue.insert(deadline, slot(queue, deadline).push(entry))
}

/// The queue with one more timer, unless it is set for that moment already.
pub open spec fn with_timer_once(
    queue: Map<u64, Seq<(u64, TimerId)>>,
    deadline: u64,
    entry: (u64, TimerId),
) -> Map<u64, Seq<(u64, TimerId)>> {
    if slot(queue, deadline).contains(entry) {
        queue
    } else {
        with_timer(queue, deadline, entry)
    }
}

/// Where an entry first stands.
pub open spec fn first_at(entries: Seq<(u64, TimerId)>, entry: (u64, TimerId), from: int) -> Option<
    int,
>
    decreases entries.len() - from,
{
    if from < 0 || from >= entries.len() {
        None
    } else if entries[from] == entry {
        Some(from)
    } else {
        first_at(entries, entry, from + 1)
    }
}

/// The queue without the first of a moment's timers that is `entry`. A moment
/// without timers is dropped.
pub open spec fn without_timer(
    queue: Map<u64, Seq<(u64, TimerId)>>,
    deadline: u64,
    entry: (u64, TimerId),
) -> Map<u64, Seq<(u64, TimerId)>> {
    if !queue.contains_key(deadline) {
        queue
    } else {
        let rest = match first_at(queue[deadline], entry, 0) {
            Some(at) => queue[deadline].remove(at),
            None => queue[deadline],
        };
        if rest.len() == 0 {
            queue.remove(deadline)
        } else {
            queue.insert(deadline, rest)
        }
    }
}

/// Numbers in the order of a sorted map's keys grow.
proof fn lemma_increasing(keys: Seq<u64>, i: int, j: int)
    requires
        vstd::std_specs::btree::increasing_seq(keys),
        0 <= i < j < keys.len(),
    ensures
        keys[i] < keys[j],
{
    vstd::std_specs::btree::axiom_increasing_seq_meaning(keys);
    assert(vstd::laws_cmp::obeys_cmp::<u64>());
    assert(vstd::std_specs::cmp::OrdSpec::cmp_spec(&keys[i], &keys[j]) is Less);
}

proof fn lemma_no_timers_between(
    queue: Map<u64, Seq<(u64, TimerId)>>,
    from: int,
    middle: int,
    to: int,
)
    requires
        0 <= from <= middle,
        middle <= to + 1,
        to <= u64::MAX,
        forall|d: u64| from <= d < middle ==> !queue.contains_key(d),
    ensures
        due_between(queue, from, to) == due_between(queue, middle, to),
    decreases middle - from,
{
    if from < middle {
        assert(!queue.contains_key(from as u64));
        assert(tagged(from as u64, slot(queue, from as u64)) =~= Seq::empty());
        assert(Seq::<(u64, u64, TimerId)>::empty() + due_between(queue, from + 1, to)
            =~= due_between(queue, from + 1, to));
        lemma_no_timers_between(queue, from + 1, middle, to);
    }
}

impl TimerQueue {
    pub fn new() -> (queue: TimerQueue)
        ensures
            queue@ == Map::<u64, Seq<(u64, TimerId)>>::empty(),
    {
        let queue = TimerQueue { slots: BTreeMap::new() };
        assert(queue@ =~= Map::<u64, Seq<(u64, TimerId)>>::empty());
        queue
    }

    /// The deadlines up to a moment, in order.
    fn deadlines(&self, now_ms: u64) -> (deadlines: Vec<u64>)
        ensures
            forall|i: int, j: int|
                0 <= i < j < deadlines@.len() ==> deadlines@[i] < deadlines@[j],
            forall|d: u64|
                deadlines@.contains(d) <==> #[trigger] self@.contains_key(d) && d <= now_ms,
    {
        let mut deadlines: Vec<u64> = Vec::new();
        for entry in it: self.slots.iter()
            invariant
                vstd::std_specs::btree::increasing_seq(
                    it.seq().map_values(|kv: (&u64, &Vec<(u64, TimerId)>)| *kv.0),
                ),
                forall|i: int, j: int|
                    0 <= i < j < deadlines@.len() ==> deadlines@[i] < deadlines@[j],
                forall|i: int|
                    0 <= i < deadlines@.len() ==> {
                        &&& #[trigger] deadlines@[i] <= now_ms
                        &&& exists|k: int|
                            0 <= k < it.index() && *(#[trigger] it.seq()[k]).0 == deadlines@[i]
                    },
                forall|k: int|
                    0 <= k < it.index() && *(#[trigger] it.seq()[k]).0 <= now_ms
                        ==> deadlines@.contains(*it.seq()[k].0),
        {
            let deadline: u64 = *entry.0;
            let ghost before = deadlines@;
            let ghost at = it.index();
            assert(*it.seq()[at].0 == deadline);
            proof {
                let keys = it.seq().map_values(|kv: (&u64, &Vec<(u64, TimerId)>)| *kv.0);
                assert forall|i: int| 0 <= i < before.len() implies #[trigger] before[i]
                    < deadline by {
                    let k = choose|k: int|
                        0 <= k < at && *(#[trigger] it.seq()[k]).0 == before[i];
                    assert(keys[k] == before[i]);
                    assert(keys[at] == deadline);
                    lemma_increasing(keys, k, at);
                }
            }
            if deadline <= now_ms {
                deadlines.push(deadline);
                assert(deadlines@[before.len() as int] == deadline);
            }
            assert forall|k: int|
                0 <= k < at + 1 && *(#[trigger] it.seq()[k]).0 <= now_ms implies deadlines@.contains(
                *it.seq()[k].0,
            ) by {
                if k < at {
                    let i = choose|i: int| 0 <= i < before.len() && before[i] == *it.seq()[k].0;
                    assert(deadlines@[i] == before[i]);
                }
            }
        }
        deadlines
    }

    /// The timers that are due at a moment, the longest due first, at most
    /// `limit`.
    pub fn due(&self, now_ms: u64, limit: usize) -> (due: Vec<(u64, u64, TimerId)>)
        ensures
            due@ == due_at(self@, now_ms, limit as nat),
    {
        let deadlines = self.deadlines(now_ms);
        let ghost queue = self@;
        let ghost all = due_between(queue, 0, now_ms as int);
        let ghost mut rest = all;
        let mut due: Vec<(u64, u64, TimerId)> = Vec::new();
        let mut i: usize = 0;
        proof {
            assert(due@ + rest =~= all);
            lemma_up_to_next(queue, deadlines@, 0, now_ms);
        }
        while i < deadlines.len() && due.len() < limit
            invariant
                i <= deadlines@.len(),
                queue == self@,
                all == due_between(queue, 0, now_ms as int),
                all == due@ + rest,
                due@.len() <= limit,
                due@.len() < limit ==> rest == due_between(
                    queue,
                    next_deadline(deadlines@, i as int, now_ms),
                    now_ms as int,
                ),
                forall|a: int, b: int|
                    0 <= a < b < deadlines@.len() ==> deadlines@[a] < deadlines@[b],
                forall|d: u64|
                    deadlines@.contains(d) <==> #[trigger] queue.contains_key(d) && d <= now_ms,
            decreases deadlines@.len() - i,
        {
            let deadline: u64 = deadlines[i];
            assert(deadlines@.contains(deadline));
            assert(queue.contains_key(deadline));
            let ghost behind = due_between(queue, deadline + 1, now_ms as int);
            if let Some(entries) = self.slots.get(&deadline) {
                let ghost marked = tagged(deadline, entries@);
                assert(slot(queue, deadline) == entries@);
                assert(rest == marked + behind);
                let mut j: usize = 0;
                assert(marked.skip(0) =~= marked);
                while j < entries.len() && due.len() < limit
                    invariant
                        j <= entries@.len(),
                        marked == tagged(deadline, entries@),
                        all == due@ + rest,
                        rest == marked.skip(j as int) + behind,
                        due@.len() <= limit,
                    decreases entries@.len() - j,
                {
                    let (owner, id) = entries[j];
                    let ghost before = due@;
                    due.push((deadline, owner, id));
                    proof {
                        let left = marked.skip(j + 1) + behind;
                        assert(marked.skip(j as int) =~= seq![(deadline, owner, id)] + marked.skip(
                            j + 1,
                        ));
                        assert(before + rest =~= due@ + left);
                        rest = left;
                    }
                    j = j + 1;
                }
                if due.len() < limit {
                    assert(marked.skip(j as int) + behind =~= behind);
                }
            }
            proof {
                lemma_up_to_next(queue, deadlines@, i + 1, now_ms);
            }
            i = i + 1;
        }
        proof {
            if due@.len() < limit {
                assert(next_deadline(deadlines@, i as int, now_ms) == now_ms + 1);
                assert(rest =~= Seq::empty());
                assert(due@ =~= all);
            } else {
                assert(due@ =~= all.take(limit as int));
                if all.len() <= limit {
                    assert(all.take(limit as int) =~= all);
                }
            }
        }
        due
    }

    fn take_slot(&mut self, deadline: u64) -> (entries: Vec<(u64, TimerId)>)
        ensures
            entries@ == slot(old(self)@, deadline),
            final(self)@ == old(self)@.remove(deadline),
    {
        let entries = match self.slots.remove(&deadline) {
            Some(entries) => entries,
            None => Vec::new(),
        };
        assert(entries@ =~= slot(old(self)@, deadline));
        assert(self@ =~= old(self)@.remove(deadline));
        entries
    }

    fn put_slot(&mut self, deadline: u64, entries: Vec<(u64, TimerId)>)
        ensures
            final(self)@ == old(self)@.insert(deadline, entries@),
    {
        self.slots.insert(deadline, entries);
        assert(self@ =~= old(self)@.insert(deadline, entries@));
    }

    /// Sets a timer.
    pub fn schedule(&mut self, deadline: u64, owner: u64, id: TimerId)
        ensures
            final(self)@ == with_timer(old(self)@, deadline, (owner, id)),
    {
        let mut entries = self.take_slot(deadline);
        entries.push((owner, id));
        self.put_slot(deadline, entries);
        assert(self@ =~= with_timer(old(self)@, deadline, (owner, id)));
    }

    /// Sets a timer, unless it is set for that moment already.
    pub fn schedule_once(&mut self, deadline: u64, owner: u64, id: TimerId)
        ensures
            final(self)@ == with_timer_once(old(self)@, deadline, (owner, id)),
    {
        if let Some(entries) = self.slots.get(&deadline) {
            assert(entries@ == slot(self@, deadline));
            let found = find_entry(entries, owner, id);
            proof {
                lemma_first_at(entries@, (owner, id), 0);
            }
            if found.is_some() {
                return ;
            }
        } else {
            assert(slot(self@, deadline) =~= Seq::empty());
        }
        self.schedule(deadline, owner, id);
    }

    /// Takes a timer out.
    pub fn remove(&mut self, deadline: u64, owner: u64, id: TimerId)
        ensures
            final(self)@ == without_timer(old(self)@, deadline, (owner, id)),
    {
        if !self.slots.contains_key(&deadline) {
            assert(!self@.contains_key(deadline));
            return ;
        }
        assert(self@.contains_key(deadline));
        let mut entries = self.take_slot(deadline);
        if let Some(at) = find_entry(&entries, owner, id) {
            entries.remove(at);
        }
        if entries.len() > 0 {
            self.put_slot(deadline, entries);
        }
        assert(self@ =~= without_timer(old(self)@, deadline, (owner, id)));
    }
}

fn find_entry(entries: &Vec<(u64, TimerId)>, owner: u64, id: TimerId) -> (found: Option<usize>)
    ensures
        match (found, first_at(entries@, (owner, id), 0)) {
            (Some(at), Some(expected)) => at == expected && at < entries@.len(),
            (None, None) => true,
            _ => false,
        },
{
    let mut i: usize = 0;
    while i < entries.len()
        invariant
            i <= entries@.len(),
            first_at(entries@, (owner, id), 0) == first_at(entries@, (owner, id), i as int),
        decreases entries@.len() - i,
    {
        let entry = entries[i];
        if entry.0 == owner && entry.1 == id {
            return Some(i);
        }
        i = i + 1;
    }
    None
}

proof fn lemma_first_at(entries: Seq<(u64, TimerId)>, entry: (u64, TimerId), from: int)
    requires
        0 <= from <= entries.len(),
    ensures
        first_at(entries, entry, from) is Some <==> entries.skip(from).contains(entry),
        from == 0 ==> (first_at(entries, entry, from) is Some <==> entries.contains(entry)),
    decreases entries.len() - from,
{
    if from < entries.len() {
        lemma_first_at(entries, entry, from + 1);
        let here = entries.skip(from);
        let next = entries.skip(from + 1);
        if entries[from] == entry {
            assert(here[0] == entry);
        } else {
            if next.contains(entry) {
                let k = choose|k: int| 0 <= k < next.len() && next[k] == entry;
                assert(here[k + 1] == entry);
            }
            if here.contains(entry) {
                let k = choose|k: int| 0 <= k < here.len() && here[k] == entry;
                assert(next[k - 1] == entry);
            }
        }
    }
    assert(entries.skip(0) =~= entries);
}

/// The deadline at `i`, or the moment after the last one looked at.
spec fn next_deadline(deadlines: Seq<u64>, i: int, now_ms: u64) -> int {
    if i < deadlines.len() {
        deadlines[i] as int
    } else {
        now_ms + 1
    }
}

/// Nothing is due between one deadline and the next.
proof fn lemma_up_to_next(
    queue: Map<u64, Seq<(u64, TimerId)>>,
    deadlines: Seq<u64>,
    i: int,
    now_ms: u64,
)
    requires
        0 <= i <= deadlines.len(),
        forall|a: int, b: int| 0 <= a < b < deadlines.len() ==> deadlines[a] < deadlines[b],
        forall|d: u64|
            deadlines.contains(d) <==> #[trigger] queue.contains_key(d) && d <= now_ms,
    ensures
        ({
            let from = if i == 0 {
                0
            } else {
                deadlines[i - 1] + 1
            };
            due_between(queue, from, now_ms as int) == due_between(
                queue,
                next_deadline(deadlines, i, now_ms),
                now_ms as int,
            )
        }),
{
    let from = if i == 0 {
        0
    } else {
        deadlines[i - 1] + 1
    };
    let next = next_deadline(deadlines, i, now_ms);
    if i < deadlines.len() {
        assert(deadlines.contains(deadlines[i]));
        assert(queue.contains_key(deadlines[i]));
        if i > 0 {
            assert(deadlines[i - 1] < deadlines[i]);
        }
    }
    if i > 0 {
        assert(deadlines.contains(deadlines[i - 1]));
        assert(queue.contains_key(deadlines[i - 1]));
    }
    assert forall|d: u64| from <= d < next implies !queue.contains_key(d) by {
        if queue.contains_key(d) {
            assert(deadlines.contains(d));
            let k = choose|k: int| 0 <= k < deadlines.len() && deadlines[k] == d;
            if k < i - 1 {
                assert(deadlines[k] < deadlines[i - 1]);
            }
            if i < k {
                assert(deadlines[i] < deadlines[k]);
            }
        }
    }
    lemma_no_timers_between(queue, from, next, now_ms as int);
}

/// A timer that was set is due from its deadline on and not before.
pub proof fn law_timer_is_due_from_its_deadline(
    queue: Map<u64, Seq<(u64, TimerId)>>,
    deadline: u64,
    entry: (u64, TimerId),
    now_ms: u64,
)
    ensures
        now_ms >= deadline ==> due_between(
            with_timer(queue, deadline, entry),
            0,
            now_ms as int,
        ).contains((deadline, entry.0, entry.1)),
        now_ms < deadline ==> due_between(
            with_timer(queue, deadline, entry),
            0,
            now_ms as int,
        ) == due_between(queue, 0, now_ms as int),
{
    let after = with_timer(queue, deadline, entry);
    if now_ms >= deadline {
        let entries = slot(after, deadline);
        assert(entries[entries.len() - 1] == entry);
        lemma_due_contains(after, 0, now_ms as int, deadline, entry);
    } else {
        lemma_due_unchanged(queue, after, 0, now_ms as int);
    }
}

pub(crate) proof fn lemma_due_contains(
    queue: Map<u64, Seq<(u64, TimerId)>>,
    from: int,
    to: int,
    deadline: u64,
    entry: (u64, TimerId),
)
    requires
        0 <= from <= deadline <= to <= u64::MAX,
        slot(queue, deadline).contains(entry),
    ensures
        due_between(queue, from, to).contains((deadline, entry.0, entry.1)),
    decreases deadline - from,
{
    let here = tagged(from as u64, slot(queue, from as u64));
    let behind = due_between(queue, from + 1, to);
    let whole = here + behind;
    if from == deadline {
        let entries = slot(queue, deadline);
        let k = choose|k: int| 0 <= k < entries.len() && entries[k] == entry;
        assert(here[k] == (deadline, entry.0, entry.1));
        assert(whole[k] == here[k]);
    } else {
        lemma_due_contains(queue, from + 1, to, deadline, entry);
        let k = choose|k: int|
            0 <= k < behind.len() && behind[k] == (deadline, entry.0, entry.1);
        assert(whole[here.len() + k] == behind[k]);
    }
}

proof fn lemma_due_unchanged(
    before: Map<u64, Seq<(u64, TimerId)>>,
    after: Map<u64, Seq<(u64, TimerId)>>,
    from: int,
    to: int,
)
    requires
        0 <= from,
        to <= u64::MAX,
        forall|d: u64| from <= d <= to ==> slot(before, d) == slot(after, d),
    ensures
        due_between(before, from, to) == due_between(after, from, to),
    decreases to - from + 1,
{
    if from <= to {
        assert(slot(before, from as u64) == slot(after, from as u64));
        lemma_due_unchanged(before, after, from + 1, to);
    }
}

} // verus!
