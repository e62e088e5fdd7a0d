//! What holds of a store's records over several calls.

use vstd::prelude::*;

use crate::session::codec;
use crate::store::entries;
use crate::store::types::{EntryView, RecordView};

verus! {

/// A record that was written is read back until it expires.
pub proof fn law_written_record_is_read(
    records: Map<u64, EntryView>,
    cid: u64,
    record: RecordView,
    ttl_ms: u64,
    now_ms: u64,
    later_ms: u64,
)
    requires
        later_ms < codec::saturating_sum(now_ms, ttl_ms),
    ensures
        ({
            let next = entries::next_entry(records, cid, record, ttl_ms, now_ms);
            &&& entries::live(records.insert(cid, next), cid, later_ms) == Some(next)
            &&& next.record == record
        }),
{
}

/// A record is not read once it has expired.
pub proof fn law_expired_record_is_gone(
    records: Map<u64, EntryView>,
    cid: u64,
    record: RecordView,
    ttl_ms: u64,
    now_ms: u64,
    later_ms: u64,
)
    requires
        later_ms >= codec::saturating_sum(now_ms, ttl_ms),
    ensures
        entries::live(
            records.insert(cid, entries::next_entry(records, cid, record, ttl_ms, now_ms)),
            cid,
            later_ms,
        ) is None,
{
}

/// Of two writes that expect the same version only one is made: the second finds
/// the version of the first.
pub proof fn law_one_writer_wins(
    records: Map<u64, EntryView>,
    cid: u64,
    expected: Option<u64>,
    record: RecordView,
    ttl_ms: u64,
    now_ms: u64,
    later_ms: u64,
)
    requires
        entries::live_version(records, cid, now_ms) == expected,
        expected != Some(u64::MAX),
        later_ms < codec::saturating_sum(now_ms, ttl_ms),
    ensures
        ({
            let next = entries::next_entry(records, cid, record, ttl_ms, now_ms);
            let found = entries::live_version(records.insert(cid, next), cid, later_ms);
            &&& found == Some(next.version)
            &&& found != expected
        }),
{
}

/// A write gives the version after the live one, and the first version where
/// there is none.
pub proof fn law_versions_count_writes(
    records: Map<u64, EntryView>,
    cid: u64,
    record: RecordView,
    ttl_ms: u64,
    now_ms: u64,
)
    requires
        entries::live_version(records, cid, now_ms) != Some(u64::MAX),
    ensures
        entries::next_entry(records, cid, record, ttl_ms, now_ms).version == match entries::live_version(
            records,
            cid,
            now_ms,
        ) {
            Some(version) => version + 1,
            None => 1,
        },
{
}

/// Reading, writing and deleting one session's record changes no other.
pub proof fn law_sessions_are_apart(
    records: Map<u64, EntryView>,
    cid: u64,
    entry: EntryView,
    other: u64,
    now_ms: u64,
    later_ms: u64,
)
    requires
        other != cid,
    ensures
        entries::live(records.insert(cid, entry), other, later_ms) == entries::live(
            records,
            other,
            later_ms,
        ),
        entries::live(records.remove(cid), other, later_ms) == entries::live(
            records,
            other,
            later_ms,
        ),
        entries::live(entries::purged(records, cid, now_ms), other, later_ms) == entries::live(
            records,
            other,
            later_ms,
        ),
{
}

/// A clean-up takes no live record, and takes every expired one if the limit
/// allows.
pub proof fn law_cleanup_takes_the_expired(
    records: Map<u64, EntryView>,
    removed: Seq<u64>,
    now_ms: u64,
    limit: nat,
    cid: u64,
)
    requires
        entries::is_cleanup(records, removed, now_ms, limit),
    ensures
        entries::live(entries::without(records, removed), cid, now_ms) == entries::live(
            records,
            cid,
            now_ms,
        ),
        removed.len() < limit ==> !entries::is_expired(
            entries::without(records, removed),
            cid,
            now_ms,
        ),
{
    if removed.contains(cid) {
        let i = choose|i: int| 0 <= i < removed.len() && removed[i] == cid;
        assert(entries::is_expired(records, removed[i], now_ms));
        assert(removed.to_set().contains(cid));
    } else {
        assert(!removed.to_set().contains(cid));
        if entries::is_expired(entries::without(records, removed), cid, now_ms) {
            assert(entries::is_expired(records, cid, now_ms));
        }
    }
}

/// Dropping an expired record changes nothing that can be read from then on.
pub proof fn law_dropping_the_expired_is_unseen(
    records: Map<u64, EntryView>,
    cid: u64,
    other: u64,
    now_ms: u64,
    later_ms: u64,
)
    requires
        now_ms <= later_ms,
    ensures
        entries::live(entries::purged(records, cid, now_ms), other, later_ms) == entries::live(
            records,
            other,
            later_ms,
        ),
{
}

} // verus!
