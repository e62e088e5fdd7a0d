//! Deterministic server runtime adapter: routes inbound datagrams to one session
//! machine per connection, drives their timers and persists what a session is at
//! through a store.

pub mod laws;
pub mod model;
pub mod routing;
pub mod runtime;
pub mod types;

pub use runtime::ServerRuntime;
pub use types::{
    RuntimeEvent, ServerRuntimeError, ServerRuntimeMetrics, ServerRuntimeOutput, SessionRuntime,
};
