//! Records with their version and expiry, by session.

use std::collections::HashMap;

use vstd::prelude::*;

use crate::session::codec;
use crate::store::types::{EntryView, RecordView, SessionRecord, VersionedRecord};

verus! {

broadcast use vstd::std_specs::hash::group_hash_axioms;

/// The record of a session that has not expired.
pub open spec fn live(entries: Map<u64, EntryView>, cid: u64, now_ms: u64) -> Option<EntryView> {
    if entries.contains_key(cid) && entries[cid].expires_at_ms > now_ms {
        Some(entries[cid])
    } else {
        None
    }
}

/// That a session's record has expired.
pub open spec fn is_expired(entries: Map<u64, EntryView>, cid: u64, now_ms: u64) -> bool {
    entries.contains_key(cid) && entries[cid].expires_at_ms <= now_ms
}

/// The records without that of a session if it has expired.
pub open spec fn purged(entries: Map<u64, EntryView>, cid: u64, now_ms: u64) -> Map<
    u64,
    EntryView,
> {
    if is_expired(entries, cid, now_ms) {
        entries.remove(cid)
    } else {
        entries
    }
}

/// The version of a session's live record.
pub open spec fn live_version(entries: Map<u64, EntryView>, cid: u64, now_ms: u64) -> Option<u64> {
    match live(entries, cid, now_ms) {
        Some(entry) => Some(entry.version),
        None => None,
    }
}

/// What is written for a session: the version after that of the live record, and
/// an expiry from now.
pub open spec fn next_entry(
    entries: Map<u64, EntryView>,
    cid: u64,
    record: RecordView,
    ttl_ms: u64,
    now_ms: u64,
) -> EntryView {
    EntryView {
        version: match live_version(entries, cid, now_ms) {
            Some(version) => codec::saturating_sum(version, 1),
            None => 1,
        },
        record,
        expires_at_ms: codec::saturating_sum(now_ms, ttl_ms),
    }
}

/// The records without those of some sessions.
pub open spec fn without(entries: Map<u64, EntryView>, removed: Seq<u64>) -> Map<u64, EntryView> {
    entries.remove_keys(removed.to_set())
}

/// That `removed` is what a clean-up may remove: expired records, each once, up
/// to the limit, and none left if the limit was not reached.
pub open spec fn is_cleanup(
    entries: Map<u64, EntryView>,
    removed: Seq<u64>,
    now_ms: u64,
    limit: nat,
) -> bool {
    &&& removed.no_duplicates()
    &&& removed.len() <= limit
    &&& forall|i: int|
        0 <= i < removed.len() ==> is_expired(entries, #[trigger] removed[i], now_ms)
    &&& removed.len() < limit ==> forall|cid: u64|
        #[trigger] is_expired(entries, cid, now_ms) ==> removed.contains(cid)
}

/// A map of records.
#[derive(Debug)]
pub struct EntryMap {
    pub entries: HashMap<u64, VersionedRecord>,
}

impl View for EntryMap {
    type V = Map<u64, EntryView>;

    open spec fn view(&self) -> Map<u64, EntryView> {
        self.entries@.map_values(|e: VersionedRecord| e@)
    }
}

impl EntryMap {
    pub fn new() -> (map: EntryMap)
        ensures
            map@ == Map::<u64, EntryView>::empty(),
    {
        let map = EntryMap { entries: HashMap::new() };
        assert(map@ =~= Map::<u64, EntryView>::empty());
        map
    }

    /// The record of a session that has not expired.
    pub fn live(&self, cid: u64, now_ms: u64) -> (found: Option<VersionedRecord>)
        ensures
            match (found, live(self@, cid, now_ms)) {
                (Some(got), Some(expected)) => got@ == expected,
                (None, None) => true,
                _ => false,
            },
    {
        match self.entries.get(&cid) {
            Some(entry) => {
                assert(self@.contains_key(cid) && self@[cid] == entry@);
                if entry.expires_at_ms > now_ms {
                    Some(entry.clone())
                } else {
                    None
                }
            },
            None => {
                assert(!self@.contains_key(cid));
                None
            },
        }
    }

    /// Whether there is a record of a session, live or not.
    pub fn holds(&self, cid: u64) -> (held: bool)
        ensures
            held == self@.contains_key(cid),
    {
        let held: bool = self.entries.contains_key(&cid);
        assert(self@.contains_key(cid) == self.entries@.contains_key(cid));
        held
    }

    /// The record of a session that has not expired; an expired one is dropped.
    pub fn effective_entry(&mut self, cid: u64, now_ms: u64) -> (found: Option<VersionedRecord>)
        ensures
            final(self)@ == purged(old(self)@, cid, now_ms),
            match (found, live(old(self)@, cid, now_ms)) {
                (Some(got), Some(expected)) => got@ == expected,
                (None, None) => true,
                _ => false,
            },
    {
        let found = self.live(cid, now_ms);
        if found.is_none() && self.holds(cid) {
            self.remove(cid);
        }
        found
    }

    pub fn insert(&mut self, cid: u64, entry: VersionedRecord)
        ensures
            final(self)@ == old(self)@.insert(cid, entry@),
    {
        self.entries.insert(cid, entry);
        assert(self@ =~= old(self)@.insert(cid, entry@));
    }

    pub fn remove(&mut self, cid: u64)
        ensures
            final(self)@ == old(self)@.remove(cid),
    {
        self.entries.remove(&cid);
        assert(self@ =~= old(self)@.remove(cid));
    }

    /// Writes a session's next record, whatever was there.
    pub fn put_next(&mut self, cid: u64, record: SessionRecord, ttl_ms: u64, now_ms: u64) -> (written:
        VersionedRecord)
        ensures
            written@ == next_entry(old(self)@, cid, record@, ttl_ms, now_ms),
            final(self)@ == old(self)@.insert(cid, written@),
    {
        let next_version: u64 = match self.live(cid, now_ms) {
            Some(current) => current.version.saturating_add(1),
            None => 1,
        };
        let written = VersionedRecord {
            version: next_version,
            record,
            expires_at_ms: now_ms.saturating_add(ttl_ms),
        };
        self.insert(cid, written.clone());
        written
    }

    /// Expired sessions, up to a limit.
    pub fn expired(&self, now_ms: u64, limit: usize) -> (expired: Vec<u64>)
        ensures
            is_cleanup(self@, expired@, now_ms, limit as nat),
    {
        let mut expired: Vec<u64> = Vec::new();
        for entry in it: self.entries.iter()
            invariant
                it.seq().no_duplicates(),
                forall|i: int|
                    #![trigger it.seq()[i]]
                    0 <= i < it.seq().len() ==> {
                        &&& self@.contains_key(*it.seq()[i].0)
                        &&& self@[*it.seq()[i].0] == it.seq()[i].1@
                        &&& self.entries@[*it.seq()[i].0] == *it.seq()[i].1
                    },
                expired@.len() <= limit,
                expired@.no_duplicates(),
                forall|i: int|
                    0 <= i < expired@.len() ==> {
                        &&& is_expired(self@, #[trigger] expired@[i], now_ms)
                        &&& exists|k: int|
                            0 <= k < it.index() && *(#[trigger] it.seq()[k]).0 == expired@[i]
                    },
                expired@.len() < limit ==> forall|k: int|
                    0 <= k < it.index() && (#[trigger] it.seq()[k]).1.expires_at_ms <= now_ms
                        ==> expired@.contains(*it.seq()[k].0),
        {
            let cid: u64 = *entry.0;
            let ghost before = expired@;
            let ghost at = it.index();
            assert(it.seq()[at] == entry);
            proof {
                assert forall|i: int| 0 <= i < before.len() implies #[trigger] before[i] != cid by {
                    let k = choose|k: int| 0 <= k < at && *(#[trigger] it.seq()[k]).0 == before[i];
                    if before[i] == cid {
                        assert(it.seq()[k] == it.seq()[at]);
                    }
                }
            }
            if entry.1.expires_at_ms <= now_ms && expired.len() < limit {
                expired.push(cid);
                assert(expired@[before.len() as int] == cid);
            }
            proof {
                assert forall|k: int|
                    expired@.len() < limit && 0 <= k < at + 1 && (
                    #[trigger] it.seq()[k]).1.expires_at_ms <= now_ms implies expired@.contains(
                    *it.seq()[k].0,
                ) by {
                    if k < at {
                        let i = choose|i: int| 0 <= i < before.len() && before[i] == *it.seq()[k].0;
                        assert(expired@[i] == before[i]);
                    }
                }
            }
        }
        proof {
            assert forall|cid: u64|
                expired@.len() < limit && #[trigger] is_expired(self@, cid, now_ms) implies
                expired@.contains(cid) by {
                assert(self.entries@.contains_key(cid));
            }
        }
        expired
    }

    /// The record of a session that there is one of.
    pub fn at(&self, cid: u64) -> (entry: VersionedRecord)
        requires
            self@.contains_key(cid),
        ensures
            entry@ == self@[cid],
    {
        match self.entries.get(&cid) {
            Some(entry) => entry.clone(),
            None => {
                assert(false);
                VersionedRecord {
                    version: 0,
                    record: SessionRecord {
                        cid,
                        peer_id: String::new(),
                        negotiated_msr_interval_ms: 0,
                        disconnect_window_ms: 0,
                        last_ordered_rx: 0,
                        last_ordered_tx: 0,
                    },
                    expires_at_ms: 0,
                }
            },
        }
    }

    /// The sessions with a record, each once.
    pub fn sessions(&self) -> (cids: Vec<u64>)
        ensures
            cids@.no_duplicates(),
            forall|i: int| 0 <= i < cids@.len() ==> self@.contains_key(#[trigger] cids@[i]),
            forall|cid: u64| #[trigger] self@.contains_key(cid) ==> cids@.contains(cid),
    {
        let mut cids: Vec<u64> = Vec::new();
        for entry in it: self.entries.iter()
            invariant
                it.seq().no_duplicates(),
                forall|i: int|
                    #![trigger it.seq()[i]]
                    0 <= i < it.seq().len() ==> {
                        &&& self@.contains_key(*it.seq()[i].0)
                        &&& self.entries@[*it.seq()[i].0] == *it.seq()[i].1
                    },
                cids@.len() == it.index(),
                forall|i: int| 0 <= i < it.index() ==> #[trigger] cids@[i] == *it.seq()[i].0,
                forall|k: int|
                    0 <= k < it.index() ==> cids@.contains(*(#[trigger] it.seq()[k]).0),
        {
            let ghost at = it.index();
            assert(it.seq()[at] == entry);
            cids.push(*entry.0);
            proof {
                assert forall|k: int| 0 <= k < at + 1 implies cids@.contains(
                    *(#[trigger] it.seq()[k]).0,
                ) by {
                    assert(cids@[k] == *it.seq()[k].0);
                }
            }
        }
        proof {
            assert forall|cid: u64| #[trigger] self@.contains_key(cid) implies cids@.contains(
                cid,
            ) by {
                assert(self.entries@.contains_key(cid));
            }
        }
        cids
    }

    pub fn remove_all(&mut self, cids: &Vec<u64>)
        ensures
            final(self)@ == without(old(self)@, cids@),
    {
        let mut i: usize = 0;
        assert(without(self@, cids@.take(0)) =~= self@);
        while i < cids.len()
            invariant
                i <= cids@.len(),
                self@ == without(old(self)@, cids@.take(i as int)),
            decreases cids@.len() - i,
        {
            self.remove(cids[i]);
            proof {
                lemma_without_one_more(old(self)@, cids@, i as int);
            }
            i = i + 1;
        }
        assert(cids@.take(i as int) =~= cids@);
    }
}

pub proof fn lemma_without_one_more(entries: Map<u64, EntryView>, cids: Seq<u64>, i: int)
    requires
        0 <= i < cids.len(),
    ensures
        without(entries, cids.take(i + 1)) == without(entries, cids.take(i)).remove(cids[i]),
{
    let shorter = cids.take(i);
    let longer = cids.take(i + 1);
    assert forall|c: u64| longer.to_set().contains(c) == (shorter.to_set().contains(c) || c
        == cids[i]) by {
        if shorter.contains(c) {
            let k = choose|k: int| 0 <= k < shorter.len() && shorter[k] == c;
            assert(longer[k] == c);
        }
        assert(longer[i] == cids[i]);
        if longer.contains(c) {
            let k = choose|k: int| 0 <= k < longer.len() && longer[k] == c;
            if k < i {
                assert(shorter[k] == c);
            }
        }
    }
    assert(without(entries, longer) =~= without(entries, shorter).remove(cids[i]));
}

} // verus!
