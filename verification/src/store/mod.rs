//! Session storage abstractions for Todero V3.

pub mod disk;
pub mod entries;
pub mod journal;
pub mod keeping;
pub mod laws;
pub mod memory;
pub mod recovery;
pub mod redis_protocol;
pub mod types;

pub use disk::{decode_session_record, encode_session_record, DiskState};
pub use memory::InMemorySessionStore;
pub use types::{
    SessionRecord, SessionStore, StoreError, VersionedRecord, SESSION_SCHEMA_VERSION,
};
