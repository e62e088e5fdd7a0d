//! The store that keeps its records in memory, spread over shards.

use vstd::prelude::*;

use crate::store::entries;
use crate::store::entries::EntryMap;
use crate::store::journal;
use crate::store::types;
use crate::store::types::{
    EntryView, SessionRecord, SessionStore, StoreCall, StoreError, StoreErrorView, VersionedRecord,
};

verus! {

pub const DEFAULT_SHARD_COUNT: usize = 32;

pub struct InMemorySessionStore {
    pub shards: Vec<EntryMap>,
    pub calls: Ghost<Seq<StoreCall>>,
}

/// The shard that a session belongs to.
pub open spec fn shard_of(cid: u64, shard_count: nat) -> int {
    (cid as usize) as int % shard_count as int
}

/// The records in some shards.
pub open spec fn sharded(shards: Seq<EntryMap>) -> Map<u64, EntryView> {
    Map::new(
        |cid: u64| shards[shard_of(cid, shards.len())]@.contains_key(cid),
        |cid: u64| shards[shard_of(cid, shards.len())]@[cid],
    )
}

/// That every record is in the shard where it belongs.
pub open spec fn well_sharded(shards: Seq<EntryMap>) -> bool {
    &&& shards.len() > 0
    &&& forall|i: int, cid: u64|
        0 <= i < shards.len() && #[trigger] shards[i]@.contains_key(cid) ==> shard_of(
            cid,
            shards.len(),
        ) == i
}

impl InMemorySessionStore {
    /// The records in the store.
    pub open spec fn records(&self) -> Map<u64, EntryView> {
        sharded(self.shards@)
    }

    pub fn new(shard_count: usize) -> (result: Result<InMemorySessionStore, StoreError>)
        ensures
            if shard_count == 0 {
                result is Err && result->Err_0@ == StoreErrorView::InvalidShardCount
            } else {
                &&& result is Ok
                &&& result->Ok_0.wf()
                &&& result->Ok_0.records() == Map::<u64, EntryView>::empty()
                &&& result->Ok_0.journal() == Seq::<StoreCall>::empty()
                &&& result->Ok_0.shards@.len() == shard_count
            },
    {
        if shard_count == 0 {
            return Err(StoreError::InvalidShardCount);
        }
        let mut shards: Vec<EntryMap> = Vec::new();
        let mut i: usize = 0;
        while i < shard_count
            invariant
                i <= shard_count,
                shards@.len() == i,
                forall|j: int|
                    0 <= j < i ==> (#[trigger] shards@[j])@ == Map::<u64, EntryView>::empty(),
            decreases shard_count - i,
        {
            shards.push(EntryMap::new());
            i = i + 1;
        }
        let store = InMemorySessionStore { shards, calls: Ghost(Seq::empty()) };
        assert(store.records() =~= Map::<u64, EntryView>::empty());
        Ok(store)
    }

    pub fn with_default_shards() -> (store: InMemorySessionStore)
        ensures
            store.wf(),
            store.records() == Map::<u64, EntryView>::empty(),
            store.journal() == Seq::<StoreCall>::empty(),
            store.shards@.len() == DEFAULT_SHARD_COUNT,
    {
        match InMemorySessionStore::new(DEFAULT_SHARD_COUNT) {
            Ok(store) => store,
            Err(_) => {
                assert(false);
                InMemorySessionStore { shards: Vec::new(), calls: Ghost(Seq::empty()) }
            },
        }
    }

    fn shard_index(&self, cid: u64) -> (index: usize)
        requires
            well_sharded(self.shards@),
        ensures
            index == shard_of(cid, self.shards@.len()),
            index < self.shards@.len(),
    {
        (cid as usize) % self.shards.len()
    }
}

impl Default for InMemorySessionStore {
    fn default() -> (store: InMemorySessionStore)
        ensures
            store.wf(),
            store.records() == Map::<u64, EntryView>::empty(),
            store.journal() == Seq::<StoreCall>::empty(),
            store.shards@.len() == DEFAULT_SHARD_COUNT,
    {
        InMemorySessionStore::with_default_shards()
    }
}

impl SessionStore for InMemorySessionStore {
    open spec fn journal(&self) -> Seq<StoreCall> {
        self.calls@
    }

    /// Every record is in its shard, and the calls so far were answered from the
    /// records that they led to.
    open spec fn wf(&self) -> bool {
        &&& well_sharded(self.shards@)
        &&& journal::all_answered(Map::empty(), self.calls@)
        &&& self.records() == journal::after_calls(Map::empty(), self.calls@)
    }

    fn load(&mut self, cid: u64, now_ms: u64) -> (reply: Result<
        Option<VersionedRecord>,
        StoreError,
    >)
        ensures
            types::loaded_view(reply) == Ok::<Option<EntryView>, StoreErrorView>(
                entries::live(old(self).records(), cid, now_ms),
            ),
            final(self).records() == entries::purged(old(self).records(), cid, now_ms),
    {
        let index: usize = self.shard_index(cid);
        let ghost before = self.shards@;
        let found = self.shards[index].effective_entry(cid, now_ms);
        let reply = Ok(found);
        proof {
            lemma_one_shard(before, self.shards@, index as int, cid);
            assert(self.records() =~= entries::purged(old(self).records(), cid, now_ms));
            let call = StoreCall::Load { cid, now_ms, reply: types::loaded_view(reply) };
            journal::lemma_one_more(Map::empty(), self.calls@, call);
            self.calls@ = self.calls@.push(call);
        }
        reply
    }

    fn compare_and_swap(
        &mut self,
        cid: u64,
        expected_version: Option<u64>,
        new_record: SessionRecord,
        ttl_ms: u64,
        now_ms: u64,
    ) -> (reply: Result<VersionedRecord, StoreError>)
        ensures
            ({
                let records = old(self).records();
                let actual = entries::live_version(records, cid, now_ms);
                if actual == expected_version {
                    let next = entries::next_entry(records, cid, new_record@, ttl_ms, now_ms);
                    &&& types::saved_view(reply) == Ok::<EntryView, StoreErrorView>(next)
                    &&& final(self).records() == records.insert(cid, next)
                } else {
                    &&& types::saved_view(reply) == Err::<EntryView, StoreErrorView>(
                        StoreErrorView::CasConflict { expected: expected_version, actual },
                    )
                    &&& final(self).records() == entries::purged(records, cid, now_ms)
                }
            }),
    {
        let index: usize = self.shard_index(cid);
        let ghost before = self.shards@;
        let current = self.shards[index].effective_entry(cid, now_ms);
        proof {
            lemma_one_shard(before, self.shards@, index as int, cid);
            assert(self.records() =~= entries::purged(old(self).records(), cid, now_ms));
        }
        let current_version: Option<u64> = match &current {
            Some(entry) => Some(entry.version),
            None => None,
        };
        if current_version != expected_version {
            let reply = Err(
                StoreError::CasConflict { expected: expected_version, actual: current_version },
            );
            proof {
                let call = StoreCall::CompareAndSwap {
                    cid,
                    expected_version,
                    record: new_record@,
                    ttl_ms,
                    now_ms,
                    reply: types::saved_view(reply),
                };
                journal::lemma_one_more(Map::empty(), self.calls@, call);
                self.calls@ = self.calls@.push(call);
            }
            return reply;
        }
        let ghost record = new_record@;
        let ghost middle = self.shards@;
        let written = self.shards[index].put_next(cid, new_record, ttl_ms, now_ms);
        let reply = Ok(written);
        proof {
            lemma_one_shard(middle, self.shards@, index as int, cid);
            assert(self.records() =~= old(self).records().insert(
                cid,
                entries::next_entry(old(self).records(), cid, record, ttl_ms, now_ms),
            ));
            let call = StoreCall::CompareAndSwap {
                cid,
                expected_version,
                record,
                ttl_ms,
                now_ms,
                reply: types::saved_view(reply),
            };
            journal::lemma_one_more(Map::empty(), self.calls@, call);
            self.calls@ = self.calls@.push(call);
        }
        reply
    }

    fn upsert(&mut self, cid: u64, new_record: SessionRecord, ttl_ms: u64, now_ms: u64) -> (reply:
        Result<VersionedRecord, StoreError>)
        ensures
            ({
                let records = old(self).records();
                let next = entries::next_entry(records, cid, new_record@, ttl_ms, now_ms);
                &&& types::saved_view(reply) == Ok::<EntryView, StoreErrorView>(next)
                &&& final(self).records() == records.insert(cid, next)
            }),
    {
        let index: usize = self.shard_index(cid);
        let ghost record = new_record@;
        let ghost before = self.shards@;
        let written = self.shards[index].put_next(cid, new_record, ttl_ms, now_ms);
        let reply = Ok(written);
        proof {
            lemma_one_shard(before, self.shards@, index as int, cid);
            assert(self.records() =~= old(self).records().insert(
                cid,
                entries::next_entry(old(self).records(), cid, record, ttl_ms, now_ms),
            ));
            let call = StoreCall::Upsert {
                cid,
                record,
                ttl_ms,
                now_ms,
                reply: types::saved_view(reply),
            };
            journal::lemma_one_more(Map::empty(), self.calls@, call);
            self.calls@ = self.calls@.push(call);
        }
        reply
    }

    fn delete(&mut self, cid: u64) -> (reply: Result<(), StoreError>)
        ensures
            reply is Ok,
            final(self).records() == old(self).records().remove(cid),
    {
        let index: usize = self.shard_index(cid);
        let ghost before = self.shards@;
        self.shards[index].remove(cid);
        let reply = Ok(());
        proof {
            lemma_one_shard(before, self.shards@, index as int, cid);
            assert(self.records() =~= old(self).records().remove(cid));
            let call = StoreCall::Delete { cid, reply: types::deleted_view(reply) };
            journal::lemma_one_more(Map::empty(), self.calls@, call);
            self.calls@ = self.calls@.push(call);
        }
        reply
    }

    fn scan_expired(&mut self, now_ms: u64, limit: usize) -> (reply: Result<Vec<u64>, StoreError>)
        ensures
            reply is Ok,
            entries::is_cleanup(old(self).records(), reply->Ok_0@, now_ms, limit as nat),
            final(self).records() == entries::without(old(self).records(), reply->Ok_0@),
    {
        let mut removed: Vec<u64> = Vec::new();
        let ghost records = self.records();
        let mut i: usize = 0;
        assert(entries::without(records, removed@) =~= records);
        while i < self.shards.len() && removed.len() < limit
            invariant
                well_sharded(self.shards@),
                i <= self.shards@.len() == old(self).shards@.len(),
                self.calls == old(self).calls,
                records == old(self).records(),
                self.records() == entries::without(records, removed@),
                removed@.len() <= limit,
                removed@.no_duplicates(),
                forall|k: int|
                    0 <= k < removed@.len() ==> {
                        &&& entries::is_expired(records, #[trigger] removed@[k], now_ms)
                        &&& shard_of(removed@[k], self.shards@.len()) < i
                    },
                removed@.len() < limit ==> forall|cid: u64|
                    #[trigger] entries::is_expired(records, cid, now_ms) && shard_of(
                        cid,
                        self.shards@.len(),
                    ) < i ==> removed@.contains(cid),
            decreases self.shards@.len() - i,
        {
            let ghost before = self.shards@;
            let ghost done = removed@;
            let expired = self.shards[i].expired(now_ms, limit - removed.len());
            self.shards[i].remove_all(&expired);
            proof {
                lemma_shard_cleaned(before, self.shards@, i as int, expired@, now_ms);
                assert forall|cid: u64| sharded(before).contains_key(cid) && shard_of(
                    cid,
                    before.len(),
                ) == i implies records.contains_key(cid) && records[cid] == sharded(before)[cid] by {}
                lemma_joined_cleanup(
                    records,
                    done,
                    expired@,
                    before,
                    i as int,
                    now_ms,
                    limit as nat,
                );
            }
            let mut batch = expired;
            removed.append(&mut batch);
            assert(self.records() =~= entries::without(records, removed@));
            i = i + 1;
        }
        proof {
            assert forall|cid: u64|
                removed@.len() < limit && #[trigger] entries::is_expired(records, cid, now_ms) implies
                removed@.contains(cid) by {}
        }
        let reply = Ok(removed);
        proof {
            let call = StoreCall::ScanExpired { now_ms, limit, reply: types::scanned_view(reply) };
            journal::lemma_one_more(Map::empty(), self.calls@, call);
            self.calls@ = self.calls@.push(call);
        }
        reply
    }
}

/// What a store answered between two moments, and the records it was left with,
/// follow from the records it had and the calls in between.
pub proof fn law_store_answers_from_its_records(
    before: InMemorySessionStore,
    after: InMemorySessionStore,
    calls: Seq<StoreCall>,
)
    requires
        before.wf(),
        after.wf(),
        after.journal() == before.journal() + calls,
    ensures
        journal::all_answered(before.records(), calls),
        after.records() == journal::after_calls(before.records(), calls),
{
    journal::lemma_joined(Map::empty(), before.journal(), calls);
}

/// A change of one shard at one session changes the records there and nowhere
/// else.
proof fn lemma_one_shard(before: Seq<EntryMap>, after: Seq<EntryMap>, index: int, cid: u64)
    requires
        well_sharded(before),
        0 <= index < before.len(),
        index == shard_of(cid, before.len()),
        after.len() == before.len(),
        forall|i: int| 0 <= i < before.len() && i != index ==> after[i] == before[i],
        forall|c: u64|
            c != cid ==> {
                &&& #[trigger] after[index]@.contains_key(c) == before[index]@.contains_key(c)
                &&& before[index]@.contains_key(c) ==> after[index]@[c] == before[index]@[c]
            },
    ensures
        well_sharded(after),
        forall|c: u64|
            c != cid ==> {
                &&& #[trigger] sharded(after).contains_key(c) == sharded(before).contains_key(c)
                &&& sharded(before).contains_key(c) ==> sharded(after)[c] == sharded(before)[c]
            },
        sharded(after).contains_key(cid) == after[index]@.contains_key(cid),
        sharded(after).contains_key(cid) ==> sharded(after)[cid] == after[index]@[cid],
        sharded(before).contains_key(cid) == before[index]@.contains_key(cid),
        sharded(before).contains_key(cid) ==> sharded(before)[cid] == before[index]@[cid],
{
    assert forall|i: int, c: u64|
        0 <= i < after.len() && #[trigger] after[i]@.contains_key(c) implies shard_of(
        c,
        after.len(),
    ) == i by {
        if i != index {
            assert(before[i]@.contains_key(c));
        } else if c != cid {
            assert(before[index]@.contains_key(c));
        }
    }
    assert forall|c: u64| c != cid implies {
        &&& #[trigger] sharded(after).contains_key(c) == sharded(before).contains_key(c)
        &&& sharded(before).contains_key(c) ==> sharded(after)[c] == sharded(before)[c]
    } by {
        let i = shard_of(c, before.len());
        if i == index {
            assert(after[index]@.contains_key(c) == before[index]@.contains_key(c));
        }
    }
}

/// A shard that was cleaned: the records without what was taken.
proof fn lemma_shard_cleaned(
    before: Seq<EntryMap>,
    after: Seq<EntryMap>,
    index: int,
    expired: Seq<u64>,
    now_ms: u64,
)
    requires
        well_sharded(before),
        0 <= index < before.len(),
        after.len() == before.len(),
        forall|i: int| 0 <= i < before.len() && i != index ==> after[i] == before[i],
        after[index]@ == entries::without(before[index]@, expired),
        forall|k: int|
            0 <= k < expired.len() ==> entries::is_expired(
                before[index]@,
                #[trigger] expired[k],
                now_ms,
            ),
    ensures
        well_sharded(after),
        sharded(after) == entries::without(sharded(before), expired),
{
    assert forall|i: int, c: u64|
        0 <= i < after.len() && #[trigger] after[i]@.contains_key(c) implies shard_of(
        c,
        after.len(),
    ) == i by {
        assert(before[i]@.contains_key(c));
    }
    assert forall|c: u64| expired.contains(c) implies shard_of(c, before.len()) == index by {
        let k = choose|k: int| 0 <= k < expired.len() && expired[k] == c;
        assert(entries::is_expired(before[index]@, expired[k], now_ms));
        assert(before[index]@.contains_key(c));
    }
    assert(sharded(after) =~= entries::without(sharded(before), expired));
}

/// What two clean-ups of different shards took is a clean-up of both.
proof fn lemma_joined_cleanup(
    records: Map<u64, EntryView>,
    done: Seq<u64>,
    expired: Seq<u64>,
    before: Seq<EntryMap>,
    index: int,
    now_ms: u64,
    limit: nat,
)
    requires
        well_sharded(before),
        0 <= index < before.len(),
        sharded(before) == entries::without(records, done),
        done.len() < limit,
        done.no_duplicates(),
        entries::is_cleanup(before[index]@, expired, now_ms, (limit - done.len()) as nat),
        forall|k: int|
            0 <= k < done.len() ==> {
                &&& entries::is_expired(records, #[trigger] done[k], now_ms)
                &&& shard_of(done[k], before.len()) < index
            },
        forall|cid: u64|
            #[trigger] entries::is_expired(records, cid, now_ms) && shard_of(cid, before.len())
                < index ==> done.contains(cid),
    ensures
        ({
            let all = done + expired;
            &&& all.len() <= limit
            &&& all.no_duplicates()
            &&& forall|k: int|
                0 <= k < all.len() ==> {
                    &&& entries::is_expired(records, #[trigger] all[k], now_ms)
                    &&& shard_of(all[k], before.len()) < index + 1
                }
            &&& all.len() < limit ==> forall|cid: u64|
                #[trigger] entries::is_expired(records, cid, now_ms) && shard_of(
                    cid,
                    before.len(),
                ) < index + 1 ==> all.contains(cid)
            &&& entries::without(entries::without(records, done), expired) == entries::without(
                records,
                all,
            )
        }),
{
    let all = done + expired;
    let shard = before[index]@;
    assert forall|c: u64| #[trigger] shard.contains_key(c) implies {
        &&& shard_of(c, before.len()) == index
        &&& records.contains_key(c)
        &&& records[c] == shard[c]
    } by {
        assert(before[index]@.contains_key(c));
        assert(sharded(before).contains_key(c) && sharded(before)[c] == shard[c]);
        assert(entries::without(records, done).contains_key(c));
    }
    assert forall|k: int| 0 <= k < all.len() implies {
        &&& entries::is_expired(records, #[trigger] all[k], now_ms)
        &&& shard_of(all[k], before.len()) < index + 1
    } by {
        if k < done.len() {
            assert(all[k] == done[k]);
        } else {
            let e = expired[k - done.len()];
            assert(all[k] == e);
            assert(entries::is_expired(shard, e, now_ms));
            assert(shard.contains_key(e));
        }
    }
    assert forall|a: int, b: int| 0 <= a < all.len() && 0 <= b < all.len() && a != b implies all[a]
        != all[b] by {
        let cut = done.len() as int;
        if a >= cut {
            assert(entries::is_expired(shard, expired[a - cut], now_ms));
            assert(shard.contains_key(expired[a - cut]));
        } else {
            assert(shard_of(done[a], before.len()) < index);
        }
        if b >= cut {
            assert(entries::is_expired(shard, expired[b - cut], now_ms));
            assert(shard.contains_key(expired[b - cut]));
        } else {
            assert(shard_of(done[b], before.len()) < index);
        }
    }
    if all.len() < limit {
        assert forall|cid: u64|
            #[trigger] entries::is_expired(records, cid, now_ms) && shard_of(cid, before.len())
                < index + 1 implies all.contains(cid) by {
            if shard_of(cid, before.len()) < index {
                let k = choose|k: int| 0 <= k < done.len() && done[k] == cid;
                assert(all[k] == cid);
            } else {
                if done.contains(cid) {
                    let k = choose|k: int| 0 <= k < done.len() && done[k] == cid;
                    assert(all[k] == cid);
                } else {
                    assert(sharded(before).contains_key(cid));
                    assert(entries::is_expired(shard, cid, now_ms));
                    let k = choose|k: int| 0 <= k < expired.len() && expired[k] == cid;
                    assert(all[done.len() + k] == cid);
                }
            }
        }
    }
    assert forall|c: u64| all.to_set().contains(c) == (done.to_set().contains(c)
        || expired.to_set().contains(c)) by {
        if done.contains(c) {
            let k = choose|k: int| 0 <= k < done.len() && done[k] == c;
            assert(all[k] == c);
        }
        if expired.contains(c) {
            let k = choose|k: int| 0 <= k < expired.len() && expired[k] == c;
            assert(all[done.len() + k] == c);
        }
        if all.contains(c) {
            let k = choose|k: int| 0 <= k < all.len() && all[k] == c;
            if k < done.len() {
                assert(done[k] == c);
            } else {
                assert(expired[k - done.len()] == c);
            }
        }
    }
    assert(entries::without(entries::without(records, done), expired) =~= entries::without(
        records,
        all,
    ));
}

} // verus!
