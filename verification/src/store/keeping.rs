//! What a store keeps and for how long, and what is read back of what was kept.

use vstd::prelude::*;

use crate::store::disk;
use crate::store::disk::{DataView, ItemView, LineView, LoggedView, Reading};
use crate::store::entries;
use crate::store::journal;
use crate::store::redis_protocol;
use crate::store::redis_protocol::LoadReply;
use crate::store::types::{EntryView, RecordView, StoreCall, StoreErrorView};
use crate::text;

verus! {

/// A number, held at the largest.
pub open spec fn held(value: int) -> int {
    if value > u64::MAX {
        u64::MAX as int
    } else {
        value
    }
}

/// A record can be read up to the moment of its expiry, whatever it says, and not from
/// then on.
pub proof fn law_record_is_read_until_it_expires(
    records: Map<u64, EntryView>,
    cid: u64,
    now_ms: u64,
)
    ensures
        !records.contains_key(cid) ==> entries::live(records, cid, now_ms) is None,
        records.contains_key(cid) && now_ms < records[cid].expires_at_ms ==> entries::live(
            records,
            cid,
            now_ms,
        ) == Some(records[cid]),
        records.contains_key(cid) && now_ms >= records[cid].expires_at_ms ==> entries::live(
            records,
            cid,
            now_ms,
        ) is None,
{
}

/// A write keeps the record for its time to live, under the version after the live one.
pub proof fn law_write_lasts_its_time(
    records: Map<u64, EntryView>,
    cid: u64,
    record: RecordView,
    ttl_ms: u64,
    now_ms: u64,
)
    ensures
        ({
            let written = entries::next_entry(records, cid, record, ttl_ms, now_ms);
            let live = records.contains_key(cid) && now_ms < records[cid].expires_at_ms;
            &&& written.record == record
            &&& written.expires_at_ms == held(now_ms + ttl_ms)
            &&& live ==> written.version == held(records[cid].version + 1)
            &&& !live ==> written.version == 1
        }),
{
}

/// A write that expects a version is made exactly if that is the live one, or none where
/// none is expected. One that is not made tells both versions and leaves all that can be
/// read.
pub proof fn law_swap_needs_the_live_version(
    records: Map<u64, EntryView>,
    cid: u64,
    expected_version: Option<u64>,
    record: RecordView,
    ttl_ms: u64,
    now_ms: u64,
    reply: Result<EntryView, StoreErrorView>,
    other: u64,
)
    requires
        journal::is_answered(
            records,
            StoreCall::CompareAndSwap { cid, expected_version, record, ttl_ms, now_ms, reply },
        ),
    ensures
        ({
            let call = StoreCall::CompareAndSwap {
                cid,
                expected_version,
                record,
                ttl_ms,
                now_ms,
                reply,
            };
            let after = journal::after_call(records, call);
            let live = records.contains_key(cid) && now_ms < records[cid].expires_at_ms;
            let actual = if live {
                Some(records[cid].version)
            } else {
                None
            };
            &&& reply is Ok <==> expected_version == actual
            &&& reply is Ok ==> {
                &&& reply->Ok_0.record == record
                &&& after.contains_key(cid)
                &&& after[cid] == reply->Ok_0
            }
            &&& reply is Err ==> {
                &&& reply->Err_0 == (StoreErrorView::CasConflict {
                    expected: expected_version,
                    actual,
                })
                &&& entries::live(after, cid, now_ms) == entries::live(records, cid, now_ms)
            }
            &&& other != cid ==> {
                &&& after.contains_key(other) == records.contains_key(other)
                &&& records.contains_key(other) ==> after[other] == records[other]
            }
        }),
{
}

/// Loads, writes and deletions answer from the records and leave those of other sessions
/// alone.
pub proof fn law_calls_answer_from_the_records(
    records: Map<u64, EntryView>,
    cid: u64,
    record: RecordView,
    ttl_ms: u64,
    now_ms: u64,
    found: Result<Option<EntryView>, StoreErrorView>,
    written: Result<EntryView, StoreErrorView>,
    gone: Result<(), StoreErrorView>,
)
    requires
        journal::is_answered(records, StoreCall::Load { cid, now_ms, reply: found }),
        journal::is_answered(
            records,
            StoreCall::Upsert { cid, record, ttl_ms, now_ms, reply: written },
        ),
        journal::is_answered(records, StoreCall::Delete { cid, reply: gone }),
    ensures
        found is Ok,
        found->Ok_0 == if records.contains_key(cid) && now_ms < records[cid].expires_at_ms {
            Some(records[cid])
        } else {
            None
        },
        written is Ok,
        journal::after_call(
            records,
            StoreCall::Upsert { cid, record, ttl_ms, now_ms, reply: written },
        ) == records.insert(cid, written->Ok_0),
        written->Ok_0.record == record,
        gone is Ok,
        journal::after_call(records, StoreCall::Delete { cid, reply: gone }) == records.remove(cid),
        entries::live(
            journal::after_call(records, StoreCall::Load { cid, now_ms, reply: found }),
            cid,
            now_ms,
        ) == found->Ok_0,
{
}

/// A clean-up removes only what has expired, each session once and no more than asked for,
/// and keeps every other record.
pub proof fn law_cleanup_keeps_the_rest(
    records: Map<u64, EntryView>,
    removed: Seq<u64>,
    now_ms: u64,
    limit: nat,
    cid: u64,
)
    requires
        entries::is_cleanup(records, removed, now_ms, limit),
    ensures
        removed.len() <= limit,
        removed.contains(cid) ==> records.contains_key(cid) && records[cid].expires_at_ms
            <= now_ms,
        entries::without(records, removed).contains_key(cid) <==> records.contains_key(cid)
            && !removed.contains(cid),
        records.contains_key(cid) && !removed.contains(cid) ==> entries::without(
            records,
            removed,
        )[cid] == records[cid],
        removed.len() < limit && records.contains_key(cid) && records[cid].expires_at_ms <= now_ms
            ==> removed.contains(cid),
{
    assert(removed.to_set().contains(cid) <==> removed.contains(cid));
    if removed.contains(cid) {
        let i = choose|i: int| 0 <= i < removed.len() && removed[i] == cid;
        assert(entries::is_expired(records, removed[i], now_ms));
    }
    if removed.len() < limit && records.contains_key(cid) && records[cid].expires_at_ms <= now_ms {
        assert(entries::is_expired(records, cid, now_ms));
    }
}

/// What is read of a record by its layout: the current one as it is, one without a version
/// or with version zero as it was before there were versions, no other.
pub proof fn law_layout_decides_how_a_record_is_read(data: DataView)
    requires
        data.schema matches Some(version) ==> version <= u16::MAX,
    ensures
        ({
            let read = disk::migrated(Ok(data));
            let version = match data.schema {
                Some(version) => version,
                None => 0,
            };
            &&& version == 1 && data.current is Ok && data.current->Ok_0.schema_version == 1
                ==> read == Ok::<RecordView, StoreErrorView>(data.current->Ok_0.record)
            &&& version == 1 && data.current is Err ==> read == Err::<RecordView, StoreErrorView>(
                StoreErrorView::Serialization(data.current->Err_0),
            )
            &&& version == 0 && data.legacy is Ok ==> read == Ok::<RecordView, StoreErrorView>(
                data.legacy->Ok_0,
            )
            &&& version == 0 && data.legacy is Err ==> read == Err::<RecordView, StoreErrorView>(
                StoreErrorView::Serialization(data.legacy->Err_0),
            )
            &&& version > 1 ==> read == Err::<RecordView, StoreErrorView>(
                StoreErrorView::UnsupportedSchemaVersion(version as u16),
            )
        }),
{
}

/// What one line of a log does: nothing if it is blank, what it says if it is an entry with
/// its checksum, and else it ends the reading with what is wrong and changes nothing.
pub proof fn law_line_does_what_it_says(
    records: Map<u64, EntryView>,
    line: LineView,
    computed: u64,
)
    ensures
        ({
            let read = disk::line_replayed(records, line, computed);
            &&& line is Blank ==> read.records == records && read.error is None
            &&& read.error is Some ==> read.records == records
            &&& line is Corrupt ==> read.error == Some(StoreErrorView::CorruptLogEntry)
            &&& line matches LineView::Unreadable(e) ==> read.error == Some(StoreErrorView::Io(e))
            &&& line matches LineView::Entry { op, checksum, op_bytes } ==> {
                &&& checksum != computed ==> read.error == Some(StoreErrorView::ChecksumMismatch)
                &&& checksum == computed ==> match op {
                    LoggedView::Delete { cid } => read.error is None && read.records
                        == records.remove(cid),
                    LoggedView::Upsert { cid, version, expires_at_ms, data } => match disk::migrated(
                        data,
                    ) {
                        Ok(record) => {
                            &&& read.error is None
                            &&& read.records == records.insert(
                                cid,
                                EntryView { version, record, expires_at_ms },
                            )
                        },
                        Err(e) => read.error == Some(e),
                    },
                }
            }
        }),
{
}

/// A log is read line by line, each on top of what the lines before came to, up to the
/// first that is wrong; so are the items of a snapshot.
pub proof fn law_logs_are_read_in_turn(
    records: Map<u64, EntryView>,
    lines: Seq<LineView>,
    computed: Seq<u64>,
    line: LineView,
    sum: u64,
    items: Seq<ItemView>,
    item: ItemView,
)
    ensures
        ({
            let before = disk::log_replayed(records, lines, computed);
            let all = disk::log_replayed(records, lines.push(line), computed.push(sum));
            &&& before.error is Some ==> all == before
            &&& before.error is None ==> all == disk::line_replayed(before.records, line, sum)
        }),
        disk::log_replayed(records, Seq::empty(), computed) == (Reading { records, error: None }),
        ({
            let before = disk::items_read(records, items);
            let all = disk::items_read(records, items.push(item));
            &&& before.error is Some ==> all == before
            &&& before.error is None && item.data is Ok && item.data->Ok_0.schema_version == 1
                ==> all.error is None && all.records == before.records.insert(
                item.cid,
                EntryView {
                    version: item.version,
                    record: item.data->Ok_0.record,
                    expires_at_ms: item.expires_at_ms,
                },
            )
            &&& before.error is None && (item.data is Err || item.data->Ok_0.schema_version != 1)
                ==> all.error is Some && all.records == before.records
        }),
        disk::items_read(records, Seq::empty()) == (Reading { records, error: None }),
{
    assert(lines.push(line).drop_last() =~= lines);
    assert(computed.push(sum).drop_last() =~= computed);
    assert(items.push(item).drop_last() =~= items);
}

/// A snapshot of another layout is not read.
pub proof fn law_other_snapshots_are_refused(
    records: Map<u64, EntryView>,
    schema_version: u16,
    items: Seq<ItemView>,
)
    ensures
        schema_version != 1 ==> disk::snapshot_read(records, schema_version, items) == (Reading {
            records,
            error: Some(StoreErrorView::UnsupportedSchemaVersion(schema_version)),
        }),
        schema_version == 1 ==> disk::snapshot_read(records, schema_version, items)
            == disk::items_read(records, items),
        disk::stored(arbitrary()).schema_version == 1,
{
}

/// What a reply of two numbers to a write with an expected version says: that it was made,
/// with the new version, or not, with the one that was found.
pub proof fn law_swap_reply_is_understood(
    reply: Seq<i64>,
    expected: Option<u64>,
    record: RecordView,
    expires_at_ms: u64,
)
    ensures
        ({
            let said = redis_protocol::swap_meaning(reply, expected, record, expires_at_ms);
            &&& reply.len() != 2 ==> said is Err && said->Err_0 is Backend
            &&& reply.len() == 2 && reply[0] == 1 && reply[1] >= 0 ==> {
                &&& said is Ok
                &&& said->Ok_0.version == reply[1]
                &&& said->Ok_0.record == record
                &&& said->Ok_0.expires_at_ms == expires_at_ms
            }
            &&& reply.len() == 2 && reply[0] != 1 && reply[1] < 0 ==> said == Err::<
                EntryView,
                StoreErrorView,
            >(StoreErrorView::CasConflict { expected, actual: None })
            &&& reply.len() == 2 && reply[0] != 1 && reply[1] >= 0 ==> said == Err::<
                EntryView,
                StoreErrorView,
            >(StoreErrorView::CasConflict { expected, actual: Some(reply[1] as u64) })
        }),
{
}

/// The sessions that a clean-up removed are those that the script answered one for, in
/// order.
pub proof fn law_removed_are_those_answered_for(answers: Seq<(u64, i32)>, cid: u64, answer: i32)
    ensures
        redis_protocol::removed_sessions(Seq::empty()) == Seq::<u64>::empty(),
        redis_protocol::removed_sessions(answers.push((cid, answer))) == if answer == 1 {
            redis_protocol::removed_sessions(answers).push(cid)
        } else {
            redis_protocol::removed_sessions(answers)
        },
{
    assert(answers.push((cid, answer)).drop_last() =~= answers);
}

/// A session written in decimal, behind a plus sign or not, is read as that session. A
/// text without a digit, or with a last letter that is none, names no session.
pub proof fn law_member_names_its_session(cid: u64, member: Seq<char>)
    ensures
        redis_protocol::member_session(text::decimal(cid as nat)) == Some(cid),
        redis_protocol::member_session(seq!['+'] + text::decimal(cid as nat)) == Some(cid),
        member.len() == 0 ==> redis_protocol::member_session(member) is None,
        member.len() > 1 && !('0' <= member.last() && member.last() <= '9')
            ==> redis_protocol::member_session(member) is None,
{
    lemma_digits_are_read(cid as nat);
    let digits = text::decimal(cid as nat);
    assert((seq!['+'] + digits).skip(1) =~= digits);
}

proof fn lemma_digits_are_read(n: nat)
    ensures
        text::decimal(n).len() > 0,
        text::decimal(n)[0] != '+',
        redis_protocol::number_of(text::decimal(n)) == Some(n),
    decreases n,
{
    let all = text::decimal(n);
    if n >= 10 {
        lemma_digits_are_read(n / 10);
        assert(all.drop_last() =~= text::decimal(n / 10));
    }
}

/// A reply to a load is read field by field, and what cannot be read is told of the first
/// such field.
pub proof fn law_load_reply_is_understood(reply: LoadReply)
    ensures
        redis_protocol::load_meaning(None) == Ok::<Option<EntryView>, StoreErrorView>(None),
        ({
            let meaning = redis_protocol::load_meaning(Some(reply));
            &&& meaning is Ok ==> {
                &&& reply.version is Ok
                &&& reply.expires_at_ms is Ok
                &&& reply.payload is Ok
                &&& meaning->Ok_0 is Some
                &&& meaning->Ok_0->0.version == reply.version->Ok_0
                &&& meaning->Ok_0->0.expires_at_ms == reply.expires_at_ms->Ok_0
            }
            &&& reply.version matches Err(e) ==> meaning == Err::<
                Option<EntryView>,
                StoreErrorView,
            >(StoreErrorView::Backend("invalid redis "@ + "version"@ + ": "@ + e@))
            &&& reply.version is Ok && reply.expires_at_ms is Err ==> meaning == Err::<
                Option<EntryView>,
                StoreErrorView,
            >(
                StoreErrorView::Backend(
                    "invalid redis "@ + "expiry"@ + ": "@ + reply.expires_at_ms->Err_0@,
                ),
            )
        }),
{
}

} // verus!
