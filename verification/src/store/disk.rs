//! What a store on disk does with its records: the operations it logs, how a
//! log and a snapshot are read back, and which layouts of a record are read.

use vstd::prelude::*;

use crate::hashing;
use crate::hashing::hash64;
use crate::store::entries;
use crate::store::entries::EntryMap;
use crate::store::types;
use crate::store::types::{
    EntryView, RecordView, SessionRecord, StoreError, StoreErrorView, VersionedRecord,
    SESSION_SCHEMA_VERSION,
};

verus! {

/// A record in the layout of its schema version.
#[derive(Debug, PartialEq, Eq)]
pub struct StoredSession {
    pub schema_version: u16,
    pub record: SessionRecord,
}

/// What a [`StoredSession`] says.
#[verifier::ext_equal]
pub struct StoredView {
    pub schema_version: u16,
    pub record: RecordView,
}

impl View for StoredSession {
    type V = StoredView;

    open spec fn view(&self) -> StoredView {
        StoredView { schema_version: self.schema_version, record: self.record@ }
    }
}

/// A record in the current layout.
pub open spec fn stored(record: RecordView) -> StoredView {
    StoredView { schema_version: SESSION_SCHEMA_VERSION, record }
}

/// The record in the current layout, or why the layout is not read.
pub open spec fn read_stored(payload: StoredView) -> Result<RecordView, StoreErrorView> {
    if payload.schema_version != SESSION_SCHEMA_VERSION {
        Err(StoreErrorView::UnsupportedSchemaVersion(payload.schema_version))
    } else {
        Ok(payload.record)
    }
}

/// What was read of a record.
pub open spec fn record_view(read: Result<SessionRecord, StoreError>) -> Result<
    RecordView,
    StoreErrorView,
> {
    match read {
        Ok(record) => Ok(record@),
        Err(e) => Err(e@),
    }
}

pub fn encode_session_record(record: &SessionRecord) -> (payload: StoredSession)
    ensures
        payload@ == stored(record@),
{
    StoredSession { schema_version: SESSION_SCHEMA_VERSION, record: record.clone() }
}

/// Takes a record out of its layout; `payload` is the layout, or why it could
/// not be parsed.
pub fn decode_session_record(payload: Result<StoredSession, String>) -> (read: Result<
    SessionRecord,
    StoreError,
>)
    ensures
        record_view(read) == decoded(payload_view(payload)),
{
    match payload {
        Ok(payload) => {
            if payload.schema_version != SESSION_SCHEMA_VERSION {
                return Err(StoreError::UnsupportedSchemaVersion(payload.schema_version));
            }
            Ok(payload.record)
        },
        Err(e) => Err(StoreError::Serialization(e)),
    }
}

/// A layout, or why it could not be parsed.
pub open spec fn payload_view(payload: Result<StoredSession, String>) -> Result<
    StoredView,
    Seq<char>,
> {
    match payload {
        Ok(p) => Ok(p@),
        Err(e) => Err(e@),
    }
}

/// What decoding gives.
pub open spec fn decoded(payload: Result<StoredView, Seq<char>>) -> Result<
    RecordView,
    StoreErrorView,
> {
    match payload {
        Ok(p) => read_stored(p),
        Err(e) => Err(StoreErrorView::Serialization(e)),
    }
}

/// A record of any age as it was parsed: the schema version where there is one,
/// and the record read in the current layout and in the one that had no version.
#[derive(Debug, PartialEq, Eq)]
pub struct StoredData {
    pub schema: Option<u64>,
    pub current: Result<StoredSession, String>,
    pub legacy: Result<SessionRecord, String>,
}

/// What [`StoredData`] says.
#[verifier::ext_equal]
pub struct DataView {
    pub schema: Option<u64>,
    pub current: Result<StoredView, Seq<char>>,
    pub legacy: Result<RecordView, Seq<char>>,
}

impl View for StoredData {
    type V = DataView;

    open spec fn view(&self) -> DataView {
        DataView {
            schema: self.schema,
            current: payload_view(self.current),
            legacy: match self.legacy {
                Ok(record) => Ok(record@),
                Err(e) => Err(e@),
            },
        }
    }
}

/// The schema version of a record: zero where there is none, and its low sixteen
/// bits where it is larger than they hold.
pub open spec fn schema_of(schema: Option<u64>) -> u16 {
    match schema {
        Some(version) => (version % 0x1_0000) as u16,
        None => 0,
    }
}

/// What decoding a record of any age gives.
pub open spec fn migrated(data: Result<DataView, Seq<char>>) -> Result<RecordView, StoreErrorView> {
    match data {
        Err(e) => Err(StoreErrorView::Serialization(e)),
        Ok(d) => if schema_of(d.schema) == SESSION_SCHEMA_VERSION {
            decoded(d.current)
        } else if schema_of(d.schema) == 0 {
            match d.legacy {
                Ok(record) => Ok(record),
                Err(e) => Err(StoreErrorView::Serialization(e)),
            }
        } else {
            Err(StoreErrorView::UnsupportedSchemaVersion(schema_of(d.schema)))
        },
    }
}

/// A record of any age, or why it could not be parsed.
pub open spec fn data_view(data: Result<StoredData, String>) -> Result<DataView, Seq<char>> {
    match data {
        Ok(d) => Ok(d@),
        Err(e) => Err(e@),
    }
}

/// Takes a record of any age out of its layout.
pub fn decode_session_record_migrating(data: Result<StoredData, String>) -> (read: Result<
    SessionRecord,
    StoreError,
>)
    ensures
        record_view(read) == migrated(data_view(data)),
{
    match data {
        Err(e) => Err(StoreError::Serialization(e)),
        Ok(d) => {
            let version: u64 = match d.schema {
                Some(version) => version,
                None => 0,
            };
            let schema: u16 = (version % 0x1_0000) as u16;
            if schema == SESSION_SCHEMA_VERSION {
                decode_session_record(d.current)
            } else if schema == 0 {
                match d.legacy {
                    Ok(record) => Ok(record),
                    Err(e) => Err(StoreError::Serialization(e)),
                }
            } else {
                Err(StoreError::UnsupportedSchemaVersion(schema))
            }
        },
    }
}

/// An operation as it is logged.
#[derive(Debug, PartialEq, Eq)]
pub enum DiskOp {
    Upsert { cid: u64, version: u64, expires_at_ms: u64, data: StoredSession },
    Delete { cid: u64 },
}

/// What a [`DiskOp`] says.
#[verifier::ext_equal]
pub enum OpView {
    Upsert { cid: u64, version: u64, expires_at_ms: u64, data: StoredView },
    Delete { cid: u64 },
}

impl View for DiskOp {
    type V = OpView;

    open spec fn view(&self) -> OpView {
        match *self {
            DiskOp::Upsert { cid, version, expires_at_ms, data } => OpView::Upsert {
                cid,
                version,
                expires_at_ms,
                data: data@,
            },
            DiskOp::Delete { cid } => OpView::Delete { cid },
        }
    }
}

/// The operation that logs what was written for a session.
pub open spec fn upsert_op(cid: u64, entry: EntryView) -> OpView {
    OpView::Upsert {
        cid,
        version: entry.version,
        expires_at_ms: entry.expires_at_ms,
        data: stored(entry.record),
    }
}

/// The records after a logged operation.
pub open spec fn applied(records: Map<u64, EntryView>, op: OpView) -> Map<u64, EntryView> {
    match op {
        OpView::Upsert { cid, version, expires_at_ms, data } => records.insert(
            cid,
            EntryView { version, record: data.record, expires_at_ms },
        ),
        OpView::Delete { cid } => records.remove(cid),
    }
}

/// The records after some logged operations.
pub open spec fn applied_all(records: Map<u64, EntryView>, ops: Seq<OpView>) -> Map<u64, EntryView>
    decreases ops.len(),
{
    if ops.len() == 0 {
        records
    } else {
        applied(applied_all(records, ops.drop_last()), ops.last())
    }
}

/// An operation with the checksum of its bytes.
#[derive(Debug, PartialEq, Eq)]
pub struct DiskLogEntry {
    pub op: DiskOp,
    pub checksum: u64,
}

impl DiskLogEntry {
    /// The entry for an operation whose bytes are `op_bytes`.
    pub fn new(op: DiskOp, op_bytes: &[u8]) -> (entry: DiskLogEntry)
        ensures
            entry.op@ == op@,
            hashing::is_hash(op_bytes@, entry.checksum),
    {
        DiskLogEntry { op, checksum: hash64(op_bytes) }
    }
}

/// An operation as it is read back from a log: the record may be of any age.
#[derive(Debug, PartialEq, Eq)]
pub enum LoggedOp {
    Upsert { cid: u64, version: u64, expires_at_ms: u64, data: Result<StoredData, String> },
    Delete { cid: u64 },
}

/// What a [`LoggedOp`] says.
#[verifier::ext_equal]
pub enum LoggedView {
    Upsert { cid: u64, version: u64, expires_at_ms: u64, data: Result<DataView, Seq<char>> },
    Delete { cid: u64 },
}

impl View for LoggedOp {
    type V = LoggedView;

    open spec fn view(&self) -> LoggedView {
        match *self {
            LoggedOp::Upsert { cid, version, expires_at_ms, data } => LoggedView::Upsert {
                cid,
                version,
                expires_at_ms,
                data: data_view(data),
            },
            LoggedOp::Delete { cid } => LoggedView::Delete { cid },
        }
    }
}

/// A line of a log as it was parsed. A line that is blank, one that could not be
/// read, one that is no entry, one whose operation could not be written out again,
/// or an entry with the bytes of its operation.
#[derive(Debug, PartialEq, Eq)]
pub enum LogLine {
    Blank,
    Unreadable(String),
    Corrupt,
    Unwritable(String),
    Entry { op: LoggedOp, checksum: u64, op_bytes: Vec<u8> },
}

/// What a [`LogLine`] says.
#[verifier::ext_equal]
pub enum LineView {
    Blank,
    Unreadable(Seq<char>),
    Corrupt,
    Unwritable(Seq<char>),
    Entry { op: LoggedView, checksum: u64, op_bytes: Seq<u8> },
}

impl View for LogLine {
    type V = LineView;

    open spec fn view(&self) -> LineView {
        match *self {
            LogLine::Blank => LineView::Blank,
            LogLine::Unreadable(e) => LineView::Unreadable(e@),
            LogLine::Corrupt => LineView::Corrupt,
            LogLine::Unwritable(e) => LineView::Unwritable(e@),
            LogLine::Entry { op, checksum, op_bytes } => LineView::Entry {
                op: op@,
                checksum,
                op_bytes: op_bytes@,
            },
        }
    }
}

/// What came of reading: the records, and the error that ended it.
#[verifier::ext_equal]
pub struct Reading {
    pub records: Map<u64, EntryView>,
    pub error: Option<StoreErrorView>,
}

/// Reading one entry of a log whose bytes have the checksum `computed`.
pub open spec fn entry_replayed(
    records: Map<u64, EntryView>,
    op: LoggedView,
    checksum: u64,
    computed: u64,
) -> Reading {
    if computed != checksum {
        Reading { records, error: Some(StoreErrorView::ChecksumMismatch) }
    } else {
        match op {
            LoggedView::Upsert { cid, version, expires_at_ms, data } => match migrated(data) {
                Ok(record) => Reading {
                    records: records.insert(cid, EntryView { version, record, expires_at_ms }),
                    error: None,
                },
                Err(e) => Reading { records, error: Some(e) },
            },
            LoggedView::Delete { cid } => Reading { records: records.remove(cid), error: None },
        }
    }
}

/// Reading one line of a log, where the bytes of an entry have the checksum
/// `computed`.
pub open spec fn line_replayed(records: Map<u64, EntryView>, line: LineView, computed: u64) -> Reading {
    match line {
        LineView::Blank => Reading { records, error: None },
        LineView::Unreadable(e) => Reading { records, error: Some(StoreErrorView::Io(e)) },
        LineView::Corrupt => Reading { records, error: Some(StoreErrorView::CorruptLogEntry) },
        LineView::Unwritable(e) => Reading { records, error: Some(StoreErrorView::Serialization(e)) },
        LineView::Entry { op, checksum, op_bytes } => entry_replayed(
            records,
            op,
            checksum,
            computed,
        ),
    }
}

/// That `computed` is the checksum of the line's bytes, where it is an entry.
pub open spec fn line_checksum(line: LineView, computed: u64) -> bool {
    line matches LineView::Entry { op_bytes, .. } ==> hashing::is_hash(op_bytes, computed)
}

/// Reading a log up to its first error; `computed` are the checksums of the
/// entries' bytes, line by line.
pub open spec fn log_replayed(
    records: Map<u64, EntryView>,
    lines: Seq<LineView>,
    computed: Seq<u64>,
) -> Reading
    decreases lines.len(),
{
    if lines.len() == 0 {
        Reading { records, error: None }
    } else {
        let before = log_replayed(records, lines.drop_last(), computed.drop_last());
        if before.error is Some {
            before
        } else {
            line_replayed(before.records, lines.last(), computed.last())
        }
    }
}

/// That `computed` are the checksums of the lines, as far as these are read.
pub open spec fn log_checksums(
    records: Map<u64, EntryView>,
    lines: Seq<LineView>,
    computed: Seq<u64>,
) -> bool {
    &&& computed.len() == lines.len()
    &&& forall|i: int|
        #![trigger computed[i]]
        0 <= i < lines.len() && log_replayed(records, lines.take(i), computed.take(i)).error is None
            ==> line_checksum(lines[i], computed[i])
}

/// A record of a snapshot as it was parsed.
#[derive(Debug, PartialEq, Eq)]
pub struct SnapshotItem {
    pub cid: u64,
    pub version: u64,
    pub expires_at_ms: u64,
    pub data: Result<StoredSession, String>,
}

/// What a [`SnapshotItem`] says.
#[verifier::ext_equal]
pub struct ItemView {
    pub cid: u64,
    pub version: u64,
    pub expires_at_ms: u64,
    pub data: Result<StoredView, Seq<char>>,
}

impl View for SnapshotItem {
    type V = ItemView;

    open spec fn view(&self) -> ItemView {
        ItemView {
            cid: self.cid,
            version: self.version,
            expires_at_ms: self.expires_at_ms,
            data: payload_view(self.data),
        }
    }
}

pub open spec fn item_views(items: Seq<SnapshotItem>) -> Seq<ItemView> {
    items.map_values(|item: SnapshotItem| item@)
}

pub open spec fn line_views(lines: Seq<LogLine>) -> Seq<LineView> {
    lines.map_values(|line: LogLine| line@)
}

pub open spec fn op_views(ops: Seq<DiskOp>) -> Seq<OpView> {
    ops.map_values(|op: DiskOp| op@)
}

/// The item of a snapshot that holds a session's record.
pub open spec fn snapshot_item(cid: u64, entry: EntryView) -> ItemView {
    ItemView {
        cid,
        version: entry.version,
        expires_at_ms: entry.expires_at_ms,
        data: Ok(stored(entry.record)),
    }
}

/// That some items are a snapshot of the records: one item for each.
pub open spec fn is_snapshot(records: Map<u64, EntryView>, items: Seq<ItemView>) -> bool {
    &&& forall|i: int|
        0 <= i < items.len() ==> {
            &&& records.contains_key((#[trigger] items[i]).cid)
            &&& items[i] == snapshot_item(items[i].cid, records[items[i].cid])
        }
    &&& forall|i: int, j: int|
        0 <= i < items.len() && 0 <= j < items.len() && i != j ==> (#[trigger] items[i]).cid != (
        #[trigger] items[j]).cid
    &&& forall|cid: u64| #[trigger]
        records.contains_key(cid) ==> exists|i: int|
            0 <= i < items.len() && (#[trigger] items[i]).cid == cid
}

/// Reading the items of a snapshot up to the first that cannot be decoded.
pub open spec fn items_read(records: Map<u64, EntryView>, items: Seq<ItemView>) -> Reading
    decreases items.len(),
{
    if items.len() == 0 {
        Reading { records, error: None }
    } else {
        let before = items_read(records, items.drop_last());
        let item = items.last();
        if before.error is Some {
            before
        } else {
            match decoded(item.data) {
                Ok(record) => Reading {
                    records: before.records.insert(
                        item.cid,
                        EntryView {
                            version: item.version,
                            record,
                            expires_at_ms: item.expires_at_ms,
                        },
                    ),
                    error: None,
                },
                Err(e) => Reading { records: before.records, error: Some(e) },
            }
        }
    }
}

/// Reading a snapshot.
pub open spec fn snapshot_read(
    records: Map<u64, EntryView>,
    schema_version: u16,
    items: Seq<ItemView>,
) -> Reading {
    if schema_version != SESSION_SCHEMA_VERSION {
        Reading {
            records,
            error: Some(StoreErrorView::UnsupportedSchemaVersion(schema_version)),
        }
    } else {
        items_read(records, items)
    }
}

/// That reading ended with the records `records` and the outcome `outcome`.
pub open spec fn reads_as(
    outcome: Result<(), StoreError>,
    records: Map<u64, EntryView>,
    reading: Reading,
) -> bool {
    &&& records == reading.records
    &&& match (outcome, reading.error) {
        (Ok(_), None) => true,
        (Err(got), Some(expected)) => got@ == expected,
        _ => false,
    }
}

/// What a snapshot holds before it is written.
#[derive(Debug, PartialEq, Eq)]
pub struct DiskSnapshot {
    pub schema_version: u16,
    pub entries: Vec<SnapshotItem>,
}

/// The records of a store on disk. Each change returns the operations to log.
#[derive(Debug)]
pub struct DiskState {
    pub entries: EntryMap,
}

impl View for DiskState {
    type V = Map<u64, EntryView>;

    open spec fn view(&self) -> Map<u64, EntryView> {
        self.entries@
    }
}

impl Default for DiskState {
    fn default() -> (state: DiskState)
        ensures
            state@ == Map::<u64, EntryView>::empty(),
    {
        DiskState { entries: EntryMap::new() }
    }
}

impl DiskState {
    /// The live record of a session. An expired one is dropped, which is logged.
    pub fn load(&mut self, cid: u64, now_ms: u64) -> (reply: (
        Option<VersionedRecord>,
        Option<DiskOp>,
    ))
        ensures
            types::loaded_view(Ok(reply.0)) == Ok::<Option<EntryView>, StoreErrorView>(
                entries::live(old(self)@, cid, now_ms),
            ),
            final(self)@ == entries::purged(old(self)@, cid, now_ms),
            match reply.1 {
                Some(op) => entries::is_expired(old(self)@, cid, now_ms) && op@
                    == (OpView::Delete { cid }),
                None => !entries::is_expired(old(self)@, cid, now_ms),
            },
    {
        match self.entries.live(cid, now_ms) {
            Some(found) => (Some(found), None),
            None => {
                if self.entries.holds(cid) {
                    self.entries.remove(cid);
                    (None, Some(DiskOp::Delete { cid }))
                } else {
                    (None, None)
                }
            },
        }
    }

    /// Writes a record if the version is the expected one; a conflict changes
    /// nothing.
    pub fn compare_and_swap(
        &mut self,
        cid: u64,
        expected_version: Option<u64>,
        new_record: SessionRecord,
        ttl_ms: u64,
        now_ms: u64,
    ) -> (reply: Result<(VersionedRecord, DiskOp), StoreError>)
        ensures
            ({
                let actual = entries::live_version(old(self)@, cid, now_ms);
                let next = entries::next_entry(old(self)@, cid, new_record@, ttl_ms, now_ms);
                match reply {
                    Ok((written, op)) => {
                        &&& actual == expected_version
                        &&& written@ == next
                        &&& op@ == upsert_op(cid, next)
                        &&& final(self)@ == old(self)@.insert(cid, next)
                    },
                    Err(e) => {
                        &&& actual != expected_version
                        &&& e@ == (StoreErrorView::CasConflict {
                            expected: expected_version,
                            actual,
                        })
                        &&& final(self)@ == old(self)@
                    },
                }
            }),
    {
        let current_version: Option<u64> = match self.entries.live(cid, now_ms) {
            Some(current) => Some(current.version),
            None => None,
        };
        if current_version != expected_version {
            return Err(
                StoreError::CasConflict { expected: expected_version, actual: current_version },
            );
        }
        Ok(self.upsert(cid, new_record, ttl_ms, now_ms))
    }

    /// Writes a record, whatever was there.
    pub fn upsert(&mut self, cid: u64, new_record: SessionRecord, ttl_ms: u64, now_ms: u64) -> (reply:
        (VersionedRecord, DiskOp))
        ensures
            ({
                let next = entries::next_entry(old(self)@, cid, new_record@, ttl_ms, now_ms);
                &&& reply.0@ == next
                &&& reply.1@ == upsert_op(cid, next)
                &&& final(self)@ == old(self)@.insert(cid, next)
            }),
    {
        let data = encode_session_record(&new_record);
        let written = self.entries.put_next(cid, new_record, ttl_ms, now_ms);
        let op = DiskOp::Upsert {
            cid,
            version: written.version,
            expires_at_ms: written.expires_at_ms,
            data,
        };
        (written, op)
    }

    pub fn delete(&mut self, cid: u64) -> (op: DiskOp)
        ensures
            op@ == (OpView::Delete { cid }),
            final(self)@ == old(self)@.remove(cid),
    {
        self.entries.remove(cid);
        DiskOp::Delete { cid }
    }

    /// Removes expired records, up to a limit; each removal is logged.
    pub fn scan_expired(&mut self, now_ms: u64, limit: usize) -> (reply: (Vec<u64>, Vec<DiskOp>))
        ensures
            entries::is_cleanup(old(self)@, reply.0@, now_ms, limit as nat),
            final(self)@ == entries::without(old(self)@, reply.0@),
            op_views(reply.1@) == reply.0@.map_values(|cid: u64| OpView::Delete { cid }),
    {
        let expired = self.entries.expired(now_ms, limit);
        self.entries.remove_all(&expired);
        let mut ops: Vec<DiskOp> = Vec::new();
        let mut i: usize = 0;
        while i < expired.len()
            invariant
                i <= expired@.len(),
                ops@.len() == i,
                forall|j: int|
                    0 <= j < i ==> (#[trigger] ops@[j])@ == (OpView::Delete { cid: expired@[j] }),
            decreases expired@.len() - i,
        {
            ops.push(DiskOp::Delete { cid: expired[i] });
            i = i + 1;
        }
        assert(op_views(ops@) =~= expired@.map_values(|cid: u64| OpView::Delete { cid }));
        (expired, ops)
    }

    /// What a snapshot of the records holds.
    pub fn compact(&self) -> (snapshot: DiskSnapshot)
        ensures
            snapshot.schema_version == SESSION_SCHEMA_VERSION,
            is_snapshot(self@, item_views(snapshot.entries@)),
    {
        let cids = self.entries.sessions();
        let mut items: Vec<SnapshotItem> = Vec::new();
        let mut i: usize = 0;
        while i < cids.len()
            invariant
                i <= cids@.len(),
                items@.len() == i,
                forall|j: int| 0 <= j < cids@.len() ==> self@.contains_key(#[trigger] cids@[j]),
                forall|j: int|
                    0 <= j < i ==> (#[trigger] items@[j])@ == snapshot_item(
                        cids@[j],
                        self@[cids@[j]],
                    ),
            decreases cids@.len() - i,
        {
            let cid: u64 = cids[i];
            let entry = self.entries.at(cid);
            items.push(
                SnapshotItem {
                    cid,
                    version: entry.version,
                    expires_at_ms: entry.expires_at_ms,
                    data: Ok(encode_session_record(&entry.record)),
                },
            );
            i = i + 1;
        }
        proof {
            let views = item_views(items@);
            assert forall|k: int| 0 <= k < views.len() implies (#[trigger] views[k]).cid == cids@[k]
                && views[k] == snapshot_item(cids@[k], self@[cids@[k]]) by {
                assert(views[k] == items@[k]@);
            }
            assert forall|cid: u64| #[trigger] self@.contains_key(cid) implies exists|k: int|
                0 <= k < views.len() && (#[trigger] views[k]).cid == cid by {
                let k = choose|k: int| 0 <= k < cids@.len() && cids@[k] == cid;
                assert(views[k].cid == cid);
            }
        }
        DiskSnapshot { schema_version: SESSION_SCHEMA_VERSION, entries: items }
    }

    /// Takes the records of a snapshot, up to the first that cannot be decoded.
    pub fn load_snapshot(&mut self, schema_version: u16, items: Vec<SnapshotItem>) -> (outcome:
        Result<(), StoreError>)
        ensures
            reads_as(
                outcome,
                final(self)@,
                snapshot_read(old(self)@, schema_version, item_views(items@)),
            ),
    {
        if schema_version != SESSION_SCHEMA_VERSION {
            return Err(StoreError::UnsupportedSchemaVersion(schema_version));
        }
        let ghost all = item_views(items@);
        let ghost start = self@;
        for item in it: items.into_iter()
            invariant
                start == old(self)@,
                all == item_views(items@),
                schema_version == SESSION_SCHEMA_VERSION,
                it.seq().len() == all.len(),
                forall|k: int| 0 <= k < all.len() ==> (#[trigger] it.seq()[k])@ == all[k],
                self@ == items_read(start, all.take(it.index())).records,
                items_read(start, all.take(it.index())).error is None,
        {
            let ghost at = it.index();
            let ghost more = all.take(at + 1);
            assert(it.seq()[at]@ == all[at]);
            assert(more.drop_last() =~= all.take(at) && more.last() == item@);
            match decode_session_record(item.data) {
                Ok(record) => {
                    self.entries.insert(
                        item.cid,
                        VersionedRecord {
                            version: item.version,
                            record,
                            expires_at_ms: item.expires_at_ms,
                        },
                    );
                },
                Err(e) => {
                    proof {
                        lemma_items_stop(start, all, at + 1);
                    }
                    return Err(e);
                },
            }
        }
        assert(all.take(all.len() as int) =~= all);
        Ok(())
    }

    /// Takes one entry of a log whose bytes have the checksum `computed`.
    pub fn replay_entry(&mut self, op: LoggedOp, checksum: u64, computed: u64) -> (outcome: Result<
        (),
        StoreError,
    >)
        ensures
            reads_as(outcome, final(self)@, entry_replayed(old(self)@, op@, checksum, computed)),
    {
        if computed != checksum {
            return Err(StoreError::ChecksumMismatch);
        }
        match op {
            LoggedOp::Upsert { cid, version, expires_at_ms, data } => {
                match decode_session_record_migrating(data) {
                    Ok(record) => {
                        self.entries.insert(
                            cid,
                            VersionedRecord { version, record, expires_at_ms },
                        );
                        Ok(())
                    },
                    Err(e) => Err(e),
                }
            },
            LoggedOp::Delete { cid } => {
                self.entries.remove(cid);
                Ok(())
            },
        }
    }

    /// Takes one line of a log.
    pub fn replay_line(&mut self, line: LogLine) -> (outcome: Result<(), StoreError>)
        ensures
            exists|computed: u64|
                line_checksum(line@, computed) && reads_as(
                    outcome,
                    final(self)@,
                    #[trigger] line_replayed(old(self)@, line@, computed),
                ),
    {
        let ghost view = line@;
        let mut computed: u64 = 0;
        let outcome = match line {
            LogLine::Blank => Ok(()),
            LogLine::Unreadable(e) => Err(StoreError::Io(e)),
            LogLine::Corrupt => Err(StoreError::CorruptLogEntry),
            LogLine::Unwritable(e) => Err(StoreError::Serialization(e)),
            LogLine::Entry { op, checksum, op_bytes } => {
                computed = hash64(op_bytes.as_slice());
                self.replay_entry(op, checksum, computed)
            },
        };
        assert(line_checksum(view, computed));
        assert(reads_as(outcome, self@, line_replayed(old(self)@, view, computed)));
        outcome
    }

    /// Takes a log, up to its first error.
    pub fn replay_log(&mut self, lines: Vec<LogLine>) -> (outcome: Result<(), StoreError>)
        ensures
            exists|computed: Seq<u64>|
                log_checksums(old(self)@, line_views(lines@), computed) && reads_as(
                    outcome,
                    final(self)@,
                    #[trigger] log_replayed(old(self)@, line_views(lines@), computed),
                ),
    {
        let ghost all = line_views(lines@);
        let ghost start = self@;
        let ghost mut sums: Seq<u64> = Seq::empty();
        for line in it: lines.into_iter()
            invariant
                start == old(self)@,
                all == line_views(lines@),
                it.seq().len() == all.len(),
                forall|k: int| 0 <= k < all.len() ==> (#[trigger] it.seq()[k])@ == all[k],
                sums.len() == it.index(),
                forall|k: int| 0 <= k < sums.len() ==> line_checksum(all[k], #[trigger] sums[k]),
                self@ == log_replayed(start, all.take(it.index()), sums).records,
                log_replayed(start, all.take(it.index()), sums).error is None,
        {
            let ghost at = it.index();
            let ghost more = all.take(at + 1);
            let ghost before = self@;
            let ghost view = line@;
            assert(it.seq()[at]@ == all[at]);
            assert(more.drop_last() =~= all.take(at) && more.last() == view);
            let outcome = self.replay_line(line);
            proof {
                let computed = choose|computed: u64|
                    line_checksum(view, computed) && reads_as(
                        outcome,
                        self@,
                        #[trigger] line_replayed(before, view, computed),
                    );
                let longer = sums.push(computed);
                assert(longer.drop_last() =~= sums);
                sums = longer;
            }
            if let Err(e) = outcome {
                proof {
                    let padded = lemma_log_stops(start, all, sums);
                    assert forall|i: int|
                        #![trigger padded[i]]
                        0 <= i < all.len() && log_replayed(
                            start,
                            all.take(i),
                            padded.take(i),
                        ).error is None implies line_checksum(all[i], padded[i]) by {
                        assert(i < sums.len());
                        assert(padded.take(sums.len() as int)[i] == sums[i]);
                    }
                    assert(log_checksums(start, all, padded));
                    assert(reads_as(Err(e), self@, log_replayed(start, all, padded)));
                }
                return Err(e);
            }
        }
        assert(all.take(all.len() as int) =~= all);
        assert(log_checksums(start, all, sums));
        Ok(())
    }
}

/// Reading stops at the first item that cannot be decoded.
proof fn lemma_items_stop(records: Map<u64, EntryView>, items: Seq<ItemView>, at: int)
    requires
        0 <= at <= items.len(),
        items_read(records, items.take(at)).error is Some,
    ensures
        items_read(records, items) == items_read(records, items.take(at)),
    decreases items.len() - at,
{
    if at == items.len() {
        assert(items.take(at) =~= items);
    } else {
        let more = items.take(at + 1);
        assert(more.drop_last() =~= items.take(at));
        lemma_items_stop(records, items, at + 1);
    }
}

/// Reading a log stops at its first error, whatever the checksums of the lines
/// behind it.
proof fn lemma_log_stops(records: Map<u64, EntryView>, lines: Seq<LineView>, computed: Seq<u64>) -> (all:
    Seq<u64>)
    requires
        computed.len() <= lines.len(),
        log_replayed(records, lines.take(computed.len() as int), computed).error is Some,
    ensures
        all.len() == lines.len(),
        all.take(computed.len() as int) == computed,
        forall|i: int|
            #![trigger all.take(i)]
            computed.len() <= i <= lines.len() ==> log_replayed(
                records,
                lines.take(i),
                all.take(i),
            ).error is Some,
        log_replayed(records, lines, all) == log_replayed(
            records,
            lines.take(computed.len() as int),
            computed,
        ),
    decreases lines.len() - computed.len(),
{
    let at = computed.len() as int;
    if at == lines.len() {
        assert(lines.take(at) =~= lines);
        assert(computed.take(at) =~= computed);
        computed
    } else {
        let longer = computed.push(0);
        assert(longer.drop_last() =~= computed);
        assert(lines.take(at + 1).drop_last() =~= lines.take(at));
        let all = lemma_log_stops(records, lines, longer);
        assert(all.take(at) =~= all.take(at + 1).take(at));
        assert(longer.take(at) =~= computed);
        all
    }
}

/// A record that was encoded is decoded to itself.
pub proof fn law_record_round_trip(record: RecordView)
    ensures
        decoded(Ok(stored(record))) == Ok::<RecordView, StoreErrorView>(record),
{
}

/// A record is decoded only in the current layout.
pub proof fn law_other_layouts_are_refused(payload: StoredView)
    requires
        payload.schema_version != SESSION_SCHEMA_VERSION,
    ensures
        decoded(Ok(payload)) == Err::<RecordView, StoreErrorView>(
            StoreErrorView::UnsupportedSchemaVersion(payload.schema_version),
        ),
{
}

/// A record that was logged before there were schema versions is read.
pub proof fn law_old_record_is_read(data: DataView, record: RecordView)
    requires
        data.schema is None,
        data.legacy == Ok::<RecordView, Seq<char>>(record),
    ensures
        migrated(Ok(data)) == Ok::<RecordView, StoreErrorView>(record),
{
}

/// The line of a log that holds an operation: its record parses back to what was
/// written, and its checksum is that of its bytes.
pub open spec fn line_holds(line: LineView, computed: u64, op: OpView) -> bool {
    match line {
        LineView::Entry { op: logged, checksum, op_bytes } => {
            &&& checksum == computed
            &&& match (logged, op) {
                (
                    LoggedView::Upsert { cid, version, expires_at_ms, data: Ok(parsed) },
                    OpView::Upsert {
                        cid: wrote_cid,
                        version: wrote_version,
                        expires_at_ms: wrote_expiry,
                        data,
                    },
                ) => {
                    &&& cid == wrote_cid
                    &&& version == wrote_version
                    &&& expires_at_ms == wrote_expiry
                    &&& data.schema_version == SESSION_SCHEMA_VERSION
                    &&& parsed.schema == Some(data.schema_version as u64)
                    &&& parsed.current == Ok::<StoredView, Seq<char>>(data)
                },
                (LoggedView::Delete { cid }, OpView::Delete { cid: wrote_cid }) => cid == wrote_cid,
                _ => false,
            }
        },
        _ => false,
    }
}

/// Reading back a log gives the records after the operations that were logged.
pub proof fn law_log_rebuilds_the_records(
    records: Map<u64, EntryView>,
    ops: Seq<OpView>,
    lines: Seq<LineView>,
    computed: Seq<u64>,
)
    requires
        lines.len() == ops.len() == computed.len(),
        forall|i: int|
            0 <= i < ops.len() ==> line_holds(#[trigger] lines[i], computed[i], ops[i]),
    ensures
        log_replayed(records, lines, computed) == (Reading {
            records: applied_all(records, ops),
            error: None,
        }),
    decreases ops.len(),
{
    if ops.len() > 0 {
        let last = ops.len() - 1;
        assert forall|i: int| 0 <= i < last implies line_holds(
            #[trigger] lines.drop_last()[i],
            computed.drop_last()[i],
            ops.drop_last()[i],
        ) by {
            assert(line_holds(lines[i], computed[i], ops[i]));
        }
        law_log_rebuilds_the_records(
            records,
            ops.drop_last(),
            lines.drop_last(),
            computed.drop_last(),
        );
        assert(line_holds(lines[last], computed[last], ops[last]));
    }
}

/// An entry whose bytes have another checksum is refused.
pub proof fn law_corruption_is_found(
    records: Map<u64, EntryView>,
    op: LoggedView,
    checksum: u64,
    computed: u64,
)
    requires
        computed != checksum,
    ensures
        entry_replayed(records, op, checksum, computed).error == Some(
            StoreErrorView::ChecksumMismatch,
        ),
        entry_replayed(records, op, checksum, computed).records == records,
{
}

/// What is logged for a write gives the records as they are after the write.
pub proof fn law_logged_write_is_the_write(records: Map<u64, EntryView>, cid: u64, entry: EntryView)
    ensures
        applied(records, upsert_op(cid, entry)) == records.insert(cid, entry),
{
}

/// What is logged for a clean-up gives the records as they are after it.
pub proof fn law_logged_cleanup_is_the_cleanup(records: Map<u64, EntryView>, removed: Seq<u64>)
    ensures
        applied_all(records, removed.map_values(|cid: u64| OpView::Delete { cid }))
            == entries::without(records, removed),
    decreases removed.len(),
{
    let ops = removed.map_values(|cid: u64| OpView::Delete { cid });
    if removed.len() == 0 {
        assert(entries::without(records, removed) =~= records);
    } else {
        let last = removed.len() - 1;
        law_logged_cleanup_is_the_cleanup(records, removed.drop_last());
        assert(ops.drop_last() =~= removed.drop_last().map_values(
            |cid: u64| OpView::Delete { cid },
        ));
        entries::lemma_without_one_more(records, removed, last);
        assert(removed.take(last) =~= removed.drop_last());
        assert(removed.take(last + 1) =~= removed);
    }
}

/// Reading a snapshot into an empty store gives the records it was made of.
pub proof fn law_snapshot_keeps_the_records(records: Map<u64, EntryView>, items: Seq<ItemView>)
    requires
        is_snapshot(records, items),
    ensures
        snapshot_read(Map::empty(), SESSION_SCHEMA_VERSION, items) == (Reading {
            records,
            error: None,
        }),
{
    lemma_items_of_snapshot(records, items, items.len() as int);
    assert(items.take(items.len() as int) =~= items);
    let got = items_read(Map::empty(), items).records;
    assert forall|cid: u64| got.contains_key(cid) == records.contains_key(cid) by {
        if records.contains_key(cid) {
            let i = choose|i: int| 0 <= i < items.len() && (#[trigger] items[i]).cid == cid;
            assert(got.contains_key(items[i].cid));
        }
    }
    assert(got =~= records);
}

proof fn lemma_items_of_snapshot(records: Map<u64, EntryView>, items: Seq<ItemView>, count: int)
    requires
        is_snapshot(records, items),
        0 <= count <= items.len(),
    ensures
        ({
            let reading = items_read(Map::empty(), items.take(count));
            &&& reading.error is None
            &&& forall|i: int|
                0 <= i < count ==> reading.records.contains_key((#[trigger] items[i]).cid)
            &&& forall|cid: u64| #[trigger]
                reading.records.contains_key(cid) ==> records.contains_key(cid)
                    && reading.records[cid] == records[cid]
        }),
    decreases count,
{
    if count > 0 {
        lemma_items_of_snapshot(records, items, count - 1);
        assert(items.take(count).drop_last() =~= items.take(count - 1));
        let item = items[count - 1];
        assert(items.take(count).last() == item);
        assert(item == snapshot_item(item.cid, records[item.cid]));
    }
}

} // verus!
