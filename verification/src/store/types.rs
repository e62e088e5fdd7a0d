//! Session records, the errors of stores and the interface behind which stores
//! stand.

use vstd::prelude::*;
use vstd::string::StringExecFns;

use crate::text;
use crate::text::{joined_text, push_digits, text_with_number};

verus! {

pub const SESSION_SCHEMA_VERSION: u16 = 1;

#[derive(Debug, PartialEq, Eq)]
pub struct SessionRecord {
    pub cid: u64,
    pub peer_id: String,
    pub negotiated_msr_interval_ms: u64,
    pub disconnect_window_ms: u64,
    pub last_ordered_rx: u64,
    pub last_ordered_tx: u64,
}

/// What a [`SessionRecord`] says.
#[verifier::ext_equal]
pub struct RecordView {
    pub cid: u64,
    pub peer_id: Seq<char>,
    pub negotiated_msr_interval_ms: u64,
    pub disconnect_window_ms: u64,
    pub last_ordered_rx: u64,
    pub last_ordered_tx: u64,
}

impl View for SessionRecord {
    type V = RecordView;

    open spec fn view(&self) -> RecordView {
        RecordView {
            cid: self.cid,
            peer_id: self.peer_id@,
            negotiated_msr_interval_ms: self.negotiated_msr_interval_ms,
            disconnect_window_ms: self.disconnect_window_ms,
            last_ordered_rx: self.last_ordered_rx,
            last_ordered_tx: self.last_ordered_tx,
        }
    }
}

impl Clone for SessionRecord {
    fn clone(&self) -> (copy: SessionRecord)
        ensures
            copy@ == self@,
    {
        SessionRecord {
            cid: self.cid,
            peer_id: self.peer_id.clone(),
            negotiated_msr_interval_ms: self.negotiated_msr_interval_ms,
            disconnect_window_ms: self.disconnect_window_ms,
            last_ordered_rx: self.last_ordered_rx,
            last_ordered_tx: self.last_ordered_tx,
        }
    }
}

#[derive(Debug, PartialEq, Eq)]
pub struct VersionedRecord {
    pub version: u64,
    pub record: SessionRecord,
    pub expires_at_ms: u64,
}

/// What a [`VersionedRecord`] says; also what a store holds for a session.
#[verifier::ext_equal]
pub struct EntryView {
    pub version: u64,
    pub record: RecordView,
    pub expires_at_ms: u64,
}

impl View for VersionedRecord {
    type V = EntryView;

    open spec fn view(&self) -> EntryView {
        EntryView {
            version: self.version,
            record: self.record@,
            expires_at_ms: self.expires_at_ms,
        }
    }
}

impl Clone for VersionedRecord {
    fn clone(&self) -> (copy: VersionedRecord)
        ensures
            copy@ == self@,
    {
        VersionedRecord {
            version: self.version,
            record: self.record.clone(),
            expires_at_ms: self.expires_at_ms,
        }
    }
}

#[derive(Debug, Clone, PartialEq, Eq)]
pub enum StoreError {
    CasConflict { expected: Option<u64>, actual: Option<u64> },
    InvalidShardCount,
    Serialization(String),
    UnsupportedSchemaVersion(u16),
    Backend(String),
    Io(String),
    CorruptLogEntry,
    ChecksumMismatch,
}

/// What a [`StoreError`] says.
#[verifier::ext_equal]
pub enum StoreErrorView {
    CasConflict { expected: Option<u64>, actual: Option<u64> },
    InvalidShardCount,
    Serialization(Seq<char>),
    UnsupportedSchemaVersion(u16),
    Backend(Seq<char>),
    Io(Seq<char>),
    CorruptLogEntry,
    ChecksumMismatch,
}

impl View for StoreError {
    type V = StoreErrorView;

    open spec fn view(&self) -> StoreErrorView {
        match *self {
            StoreError::CasConflict { expected, actual } => StoreErrorView::CasConflict {
                expected,
                actual,
            },
            StoreError::InvalidShardCount => StoreErrorView::InvalidShardCount,
            StoreError::Serialization(t) => StoreErrorView::Serialization(t@),
            StoreError::UnsupportedSchemaVersion(v) => StoreErrorView::UnsupportedSchemaVersion(v),
            StoreError::Backend(t) => StoreErrorView::Backend(t@),
            StoreError::Io(t) => StoreErrorView::Io(t@),
            StoreError::CorruptLogEntry => StoreErrorView::CorruptLogEntry,
            StoreError::ChecksumMismatch => StoreErrorView::ChecksumMismatch,
        }
    }
}

/// A number that may be missing, as it is shown.
pub open spec fn optional_number(n: Option<u64>) -> Seq<char> {
    match n {
        Some(n) => "Some("@ + text::decimal(n as nat) + ")"@,
        None => "None"@,
    }
}

fn push_optional_number(out: &mut String, n: Option<u64>)
    ensures
        final(out)@ == old(out)@ + optional_number(n),
{
    match n {
        Some(n) => {
            out.append("Some(");
            push_digits(out, n, 10);
            out.append(")");
        },
        None => {
            out.append("None");
        },
    }
    assert(out@ =~= old(out)@ + optional_number(n));
}

impl StoreErrorView {
    /// What the error says to a reader.
    pub open spec fn text(self) -> Seq<char> {
        match self {
            StoreErrorView::CasConflict { expected, actual } => "CAS conflict: expected="@
                + optional_number(expected) + ", actual="@ + optional_number(actual),
            StoreErrorView::InvalidShardCount => "invalid shard count"@,
            StoreErrorView::Serialization(t) => "serialization failed: "@ + t,
            StoreErrorView::UnsupportedSchemaVersion(v) => "unsupported schema version: "@
                + text::decimal(v as nat),
            StoreErrorView::Backend(t) => "backend error: "@ + t,
            StoreErrorView::Io(t) => "io error: "@ + t,
            StoreErrorView::CorruptLogEntry => "corrupt log entry"@,
            StoreErrorView::ChecksumMismatch => "checksum mismatch"@,
        }
    }
}

impl StoreError {
    pub fn message(&self) -> (message: String)
        ensures
            message@ == self@.text(),
    {
        match self {
            StoreError::CasConflict { expected, actual } => {
                let mut out = "CAS conflict: expected=".to_string();
                push_optional_number(&mut out, *expected);
                out.append(", actual=");
                push_optional_number(&mut out, *actual);
                out
            },
            StoreError::InvalidShardCount => "invalid shard count".to_string(),
            StoreError::Serialization(t) => joined_text("serialization failed: ", t.as_str()),
            StoreError::UnsupportedSchemaVersion(v) => text_with_number(
                "unsupported schema version: ",
                *v as u64,
            ),
            StoreError::Backend(t) => joined_text("backend error: ", t.as_str()),
            StoreError::Io(t) => joined_text("io error: ", t.as_str()),
            StoreError::CorruptLogEntry => "corrupt log entry".to_string(),
            StoreError::ChecksumMismatch => "checksum mismatch".to_string(),
        }
    }
}

/// What a store answered when it was asked for a record.
pub open spec fn loaded_view(reply: Result<Option<VersionedRecord>, StoreError>) -> Result<
    Option<EntryView>,
    StoreErrorView,
> {
    match reply {
        Ok(Some(found)) => Ok(Some(found@)),
        Ok(None) => Ok(None),
        Err(e) => Err(e@),
    }
}

/// What a store answered when it was given a record.
pub open spec fn saved_view(reply: Result<VersionedRecord, StoreError>) -> Result<
    EntryView,
    StoreErrorView,
> {
    match reply {
        Ok(written) => Ok(written@),
        Err(e) => Err(e@),
    }
}

pub open spec fn deleted_view(reply: Result<(), StoreError>) -> Result<(), StoreErrorView> {
    match reply {
        Ok(_) => Ok(()),
        Err(e) => Err(e@),
    }
}

pub open spec fn scanned_view(reply: Result<Vec<u64>, StoreError>) -> Result<
    Seq<u64>,
    StoreErrorView,
> {
    match reply {
        Ok(removed) => Ok(removed@),
        Err(e) => Err(e@),
    }
}

/// A call of a store with its answer.
#[verifier::ext_equal]
pub enum StoreCall {
    Load { cid: u64, now_ms: u64, reply: Result<Option<EntryView>, StoreErrorView> },
    CompareAndSwap {
        cid: u64,
        expected_version: Option<u64>,
        record: RecordView,
        ttl_ms: u64,
        now_ms: u64,
        reply: Result<EntryView, StoreErrorView>,
    },
    Upsert {
        cid: u64,
        record: RecordView,
        ttl_ms: u64,
        now_ms: u64,
        reply: Result<EntryView, StoreErrorView>,
    },
    Delete { cid: u64, reply: Result<(), StoreErrorView> },
    ScanExpired { now_ms: u64, limit: usize, reply: Result<Seq<u64>, StoreErrorView> },
}

/// A store of session records. What a store answers is its own affair; its
/// journal is the calls made on it so far, with the answers.
pub trait SessionStore: Send + Sync {
    /// The calls so far. A store that is verified keeps them and says so here. Of any
    /// other the default tells nothing, and what is proved of its users holds with
    /// the calls that were made on it read in its place.
    open spec fn journal(&self) -> Seq<StoreCall> {
        arbitrary()
    }

    /// That the store is in a state it can work from.
    open spec fn wf(&self) -> bool {
        true
    }

    fn load(&mut self, cid: u64, now_ms: u64) -> (reply: Result<
        Option<VersionedRecord>,
        StoreError,
    >)
        requires
            old(self).wf(),
        ensures
            final(self).wf(),
            final(self).journal() == old(self).journal().push(
                StoreCall::Load { cid, now_ms, reply: loaded_view(reply) },
            ),
    ;

    fn compare_and_swap(
        &mut self,
        cid: u64,
        expected_version: Option<u64>,
        new_record: SessionRecord,
        ttl_ms: u64,
        now_ms: u64,
    ) -> (reply: Result<VersionedRecord, StoreError>)
        requires
            old(self).wf(),
        ensures
            final(self).wf(),
            final(self).journal() == old(self).journal().push(
                StoreCall::CompareAndSwap {
                    cid,
                    expected_version,
                    record: new_record@,
                    ttl_ms,
                    now_ms,
                    reply: saved_view(reply),
                },
            ),
    ;

    fn upsert(&mut self, cid: u64, new_record: SessionRecord, ttl_ms: u64, now_ms: u64) -> (reply:
        Result<VersionedRecord, StoreError>)
        requires
            old(self).wf(),
        ensures
            final(self).wf(),
            final(self).journal() == old(self).journal().push(
                StoreCall::Upsert {
                    cid,
                    record: new_record@,
                    ttl_ms,
                    now_ms,
                    reply: saved_view(reply),
                },
            ),
    ;

    fn delete(&mut self, cid: u64) -> (reply: Result<(), StoreError>)
        requires
            old(self).wf(),
        ensures
            final(self).wf(),
            final(self).journal() == old(self).journal().push(
                StoreCall::Delete { cid, reply: deleted_view(reply) },
            ),
    ;

    /// Scans and removes expired records.
    fn scan_expired(&mut self, now_ms: u64, limit: usize) -> (reply: Result<Vec<u64>, StoreError>)
        requires
            old(self).wf(),
        ensures
            final(self).wf(),
            final(self).journal() == old(self).journal().push(
                StoreCall::ScanExpired { now_ms, limit, reply: scanned_view(reply) },
            ),
    ;
}

} // verus!
