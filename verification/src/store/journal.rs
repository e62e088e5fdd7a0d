//! The calls on a store that keeps its records and answers from them.

use vstd::prelude::*;

use crate::store::entries;
use crate::store::types::{EntryView, StoreCall, StoreErrorView};

verus! {

/// The records after a call.
pub open spec fn after_call(records: Map<u64, EntryView>, call: StoreCall) -> Map<u64, EntryView> {
    match call {
        StoreCall::Load { cid, now_ms, .. } => entries::purged(records, cid, now_ms),
        StoreCall::CompareAndSwap { cid, expected_version, record, ttl_ms, now_ms, .. } => {
            if entries::live_version(records, cid, now_ms) == expected_version {
                records.insert(cid, entries::next_entry(records, cid, record, ttl_ms, now_ms))
            } else {
                entries::purged(records, cid, now_ms)
            }
        },
        StoreCall::Upsert { cid, record, ttl_ms, now_ms, .. } => records.insert(
            cid,
            entries::next_entry(records, cid, record, ttl_ms, now_ms),
        ),
        StoreCall::Delete { cid, .. } => records.remove(cid),
        StoreCall::ScanExpired { reply, .. } => match reply {
            Ok(removed) => entries::without(records, removed),
            Err(_) => records,
        },
    }
}

/// That a call was answered as the records say.
pub open spec fn is_answered(records: Map<u64, EntryView>, call: StoreCall) -> bool {
    match call {
        StoreCall::Load { cid, now_ms, reply } => reply == Ok::<Option<EntryView>, StoreErrorView>(
            entries::live(records, cid, now_ms),
        ),
        StoreCall::CompareAndSwap { cid, expected_version, record, ttl_ms, now_ms, reply } => {
            let actual = entries::live_version(records, cid, now_ms);
            reply == if actual == expected_version {
                Ok::<EntryView, StoreErrorView>(
                    entries::next_entry(records, cid, record, ttl_ms, now_ms),
                )
            } else {
                Err(StoreErrorView::CasConflict { expected: expected_version, actual })
            }
        },
        StoreCall::Upsert { cid, record, ttl_ms, now_ms, reply } => reply == Ok::<
            EntryView,
            StoreErrorView,
        >(entries::next_entry(records, cid, record, ttl_ms, now_ms)),
        StoreCall::Delete { cid: _, reply } => reply is Ok,
        StoreCall::ScanExpired { now_ms, limit, reply } => {
            &&& reply is Ok
            &&& entries::is_cleanup(records, reply->Ok_0, now_ms, limit as nat)
        },
    }
}

/// The records after some calls.
pub open spec fn after_calls(records: Map<u64, EntryView>, calls: Seq<StoreCall>) -> Map<
    u64,
    EntryView,
>
    decreases calls.len(),
{
    if calls.len() == 0 {
        records
    } else {
        after_call(after_calls(records, calls.drop_last()), calls.last())
    }
}

/// That each call was answered as the records before it say.
pub open spec fn all_answered(records: Map<u64, EntryView>, calls: Seq<StoreCall>) -> bool
    decreases calls.len(),
{
    calls.len() == 0 || {
        &&& all_answered(records, calls.drop_last())
        &&& is_answered(after_calls(records, calls.drop_last()), calls.last())
    }
}

/// One more call.
pub proof fn lemma_one_more(records: Map<u64, EntryView>, calls: Seq<StoreCall>, call: StoreCall)
    ensures
        after_calls(records, calls.push(call)) == after_call(after_calls(records, calls), call),
        all_answered(records, calls.push(call)) == (all_answered(records, calls) && is_answered(
            after_calls(records, calls),
            call,
        )),
{
    assert(calls.push(call).drop_last() =~= calls);
}

/// Calls and then more calls.
pub proof fn lemma_joined(records: Map<u64, EntryView>, calls: Seq<StoreCall>, more: Seq<StoreCall>)
    ensures
        after_calls(records, calls + more) == after_calls(after_calls(records, calls), more),
        all_answered(records, calls + more) == (all_answered(records, calls) && all_answered(
            after_calls(records, calls),
            more,
        )),
    decreases more.len(),
{
    if more.len() == 0 {
        assert(calls + more =~= calls);
    } else {
        lemma_joined(records, calls, more.drop_last());
        assert((calls + more).drop_last() =~= calls + more.drop_last());
    }
}

} // verus!
