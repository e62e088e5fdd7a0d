//! Todero Protocol V3: wire framing, the session state machine, transport
//! security policy, session storage, NAT traversal helpers and the client and
//! server runtimes built on them.
//!
//! Everything here is deterministic: no sockets, no threads and no wall-clock
//! decisions. Sockets, files and the foreign-function surface live around it.

pub mod base64_text;
pub mod big_endian;
pub mod byte_buffer;
pub mod client_laws;
pub mod client_runtime;
pub mod crypto;
pub mod ffi;
pub mod hashing;
pub mod json;
pub mod orchestrator_api;
pub mod server_runtime;
pub mod session;
pub mod store;
pub mod text;
pub mod text_laws;
pub mod timers;
pub mod transport_udp;
pub mod traversal;
pub mod traversal_laws;
pub mod wire;
pub mod wire_laws;
