//! What is found again of a store on disk that is opened anew.

use vstd::prelude::*;

use crate::store::disk;
use crate::store::disk::{ItemView, LineView, OpView, Reading};
use crate::store::entries;
use crate::store::types::{EntryView, RecordView, SESSION_SCHEMA_VERSION};

verus! {

/// A call of a store on disk that succeeds; a clean-up with what it removes, and a
/// compaction with what it writes.
#[verifier::ext_equal]
pub enum DiskCall {
    Load { cid: u64, now_ms: u64 },
    CompareAndSwap { cid: u64, record: RecordView, ttl_ms: u64, now_ms: u64 },
    Upsert { cid: u64, record: RecordView, ttl_ms: u64, now_ms: u64 },
    Delete { cid: u64 },
    ScanExpired { removed: Seq<u64>, now_ms: u64, limit: nat },
    Compact { items: Seq<ItemView> },
}

/// A store on disk: the records it answers from, the snapshot where there is one,
/// and the operations in the log.
#[verifier::ext_equal]
pub struct DiskView {
    pub records: Map<u64, EntryView>,
    pub snapshot: Option<Seq<ItemView>>,
    pub log: Seq<OpView>,
}

/// A store in an empty directory.
pub open spec fn new_disk() -> DiskView {
    DiskView { records: Map::empty(), snapshot: None, log: Seq::empty() }
}

/// That a call can come out so on some records.
pub open spec fn is_possible(records: Map<u64, EntryView>, call: DiskCall) -> bool {
    match call {
        DiskCall::ScanExpired { removed, now_ms, limit } => entries::is_cleanup(
            records,
            removed,
            now_ms,
            limit,
        ),
        DiskCall::Compact { items } => disk::is_snapshot(records, items),
        _ => true,
    }
}

/// The records after a call.
pub open spec fn records_after(records: Map<u64, EntryView>, call: DiskCall) -> Map<u64, EntryView> {
    match call {
        DiskCall::Load { cid, now_ms } => entries::purged(records, cid, now_ms),
        DiskCall::CompareAndSwap { cid, record, ttl_ms, now_ms } => records.insert(
            cid,
            entries::next_entry(records, cid, record, ttl_ms, now_ms),
        ),
        DiskCall::Upsert { cid, record, ttl_ms, now_ms } => records.insert(
            cid,
            entries::next_entry(records, cid, record, ttl_ms, now_ms),
        ),
        DiskCall::Delete { cid } => records.remove(cid),
        DiskCall::ScanExpired { removed, .. } => entries::without(records, removed),
        DiskCall::Compact { .. } => records,
    }
}

/// The operations that a call logs.
pub open spec fn logged(records: Map<u64, EntryView>, call: DiskCall) -> Seq<OpView> {
    match call {
        DiskCall::Load { cid, now_ms } => if entries::is_expired(records, cid, now_ms) {
            seq![OpView::Delete { cid }]
        } else {
            Seq::empty()
        },
        DiskCall::CompareAndSwap { cid, record, ttl_ms, now_ms } => seq![
            disk::upsert_op(cid, entries::next_entry(records, cid, record, ttl_ms, now_ms)),
        ],
        DiskCall::Upsert { cid, record, ttl_ms, now_ms } => seq![
            disk::upsert_op(cid, entries::next_entry(records, cid, record, ttl_ms, now_ms)),
        ],
        DiskCall::Delete { cid } => seq![OpView::Delete { cid }],
        DiskCall::ScanExpired { removed, .. } => removed.map_values(
            |cid: u64| OpView::Delete { cid },
        ),
        DiskCall::Compact { .. } => Seq::empty(),
    }
}

/// A store after a call: what is logged goes behind the log; a compaction leaves a
/// snapshot and an empty log.
pub open spec fn disk_after(d: DiskView, call: DiskCall) -> DiskView {
    match call {
        DiskCall::Compact { items } => DiskView {
            snapshot: Some(items),
            log: Seq::empty(),
            ..d
        },
        _ => DiskView {
            records: records_after(d.records, call),
            log: d.log + logged(d.records, call),
            ..d
        },
    }
}

/// A store after some calls.
pub open spec fn disk_after_all(d: DiskView, calls: Seq<DiskCall>) -> DiskView
    decreases calls.len(),
{
    if calls.len() == 0 {
        d
    } else {
        disk_after(disk_after_all(d, calls.drop_last()), calls.last())
    }
}

/// That calls can come out so one after the other.
pub open spec fn are_possible(d: DiskView, calls: Seq<DiskCall>) -> bool
    decreases calls.len(),
{
    calls.len() == 0 || {
        &&& are_possible(d, calls.drop_last())
        &&& is_possible(disk_after_all(d, calls.drop_last()).records, calls.last())
    }
}

/// What reading the snapshot of a directory gives; nothing where there is none.
pub open spec fn snapshot_reading(snapshot: Option<Seq<ItemView>>) -> Reading {
    match snapshot {
        Some(items) => disk::snapshot_read(Map::empty(), SESSION_SCHEMA_VERSION, items),
        None => Reading { records: Map::empty(), error: None },
    }
}

/// What opening a directory gives: the snapshot is read, and then the log.
pub open spec fn reopened(
    snapshot: Option<Seq<ItemView>>,
    lines: Seq<LineView>,
    computed: Seq<u64>,
) -> Reading {
    let base = snapshot_reading(snapshot);
    if base.error is Some {
        base
    } else {
        disk::log_replayed(base.records, lines, computed)
    }
}

proof fn lemma_applied_joined(records: Map<u64, EntryView>, ops: Seq<OpView>, more: Seq<OpView>)
    ensures
        disk::applied_all(records, ops + more) == disk::applied_all(
            disk::applied_all(records, ops),
            more,
        ),
    decreases more.len(),
{
    if more.len() == 0 {
        assert(ops + more =~= ops);
    } else {
        lemma_applied_joined(records, ops, more.drop_last());
        assert((ops + more).drop_last() =~= ops + more.drop_last());
    }
}

/// What a call logs gives the records after it.
proof fn lemma_logged_is_done(records: Map<u64, EntryView>, call: DiskCall)
    ensures
        disk::applied_all(records, logged(records, call)) == records_after(records, call),
{
    let ops = logged(records, call);
    if let DiskCall::ScanExpired { removed, .. } = call {
        disk::law_logged_cleanup_is_the_cleanup(records, removed);
    } else {
        reveal_with_fuel(disk::applied_all, 2);
        if ops.len() > 0 {
            assert(ops.drop_last() =~= Seq::<OpView>::empty());
        }
    }
}

/// The snapshot can be read, and with the log behind it gives the records.
proof fn lemma_disk_holds_the_records(calls: Seq<DiskCall>)
    requires
        are_possible(new_disk(), calls),
    ensures
        ({
            let d = disk_after_all(new_disk(), calls);
            let base = snapshot_reading(d.snapshot);
            &&& base.error is None
            &&& disk::applied_all(base.records, d.log) == d.records
        }),
    decreases calls.len(),
{
    if calls.len() > 0 {
        lemma_disk_holds_the_records(calls.drop_last());
        let before = disk_after_all(new_disk(), calls.drop_last());
        let base = snapshot_reading(before.snapshot);
        match calls.last() {
            DiskCall::Compact { items } => {
                disk::law_snapshot_keeps_the_records(before.records, items);
            },
            call => {
                lemma_applied_joined(base.records, before.log, logged(before.records, call));
                lemma_logged_is_done(before.records, call);
            },
        }
    }
}

/// A store that is opened anew has the records of the one before, whatever calls
/// that one had answered since its directory was empty. The lines of the log are
/// taken to hold what was logged.
pub proof fn law_reopened_store_has_the_records(
    calls: Seq<DiskCall>,
    lines: Seq<LineView>,
    computed: Seq<u64>,
)
    requires
        are_possible(new_disk(), calls),
        ({
            let d = disk_after_all(new_disk(), calls);
            &&& lines.len() == d.log.len() == computed.len()
            &&& forall|i: int|
                0 <= i < d.log.len() ==> disk::line_holds(
                    #[trigger] lines[i],
                    computed[i],
                    d.log[i],
                )
        }),
    ensures
        ({
            let d = disk_after_all(new_disk(), calls);
            reopened(d.snapshot, lines, computed) == (Reading { records: d.records, error: None })
        }),
{
    let d = disk_after_all(new_disk(), calls);
    lemma_disk_holds_the_records(calls);
    disk::law_log_rebuilds_the_records(
        snapshot_reading(d.snapshot).records,
        d.log,
        lines,
        computed,
    );
}

/// Some calls without the compactions among them.
pub open spec fn without_compactions(calls: Seq<DiskCall>) -> Seq<DiskCall>
    decreases calls.len(),
{
    if calls.len() == 0 {
        calls
    } else {
        let before = without_compactions(calls.drop_last());
        if calls.last() is Compact {
            before
        } else {
            before.push(calls.last())
        }
    }
}

/// Whether and when a store is compacted makes no difference to its records.
pub proof fn law_compaction_is_unseen(calls: Seq<DiskCall>)
    ensures
        disk_after_all(new_disk(), calls).records == disk_after_all(
            new_disk(),
            without_compactions(calls),
        ).records,
    decreases calls.len(),
{
    if calls.len() > 0 {
        law_compaction_is_unseen(calls.drop_last());
        let before = without_compactions(calls.drop_last());
        if !(calls.last() is Compact) {
            assert(before.push(calls.last()).drop_last() =~= before);
        }
    }
}

} // verus!
