//! Engines behind numbers: the functions that stand behind the C interface, over
//! a registry of engine handles.

pub mod calls;
pub mod configure;
pub mod engine;
pub mod events;
pub mod fetch;
pub mod json_text;
pub mod laws;
pub mod packet_log;
pub mod registry;
pub mod shown;
pub mod tls;

pub use calls::{
    v3_ffi_begin_handshake, v3_ffi_clear_output, v3_ffi_close_session, v3_ffi_on_datagram,
    v3_ffi_poll_nat, v3_ffi_poll_timers, v3_ffi_send_message, v3_ffi_server_send_message,
};
pub use configure::{
    v3_ffi_configure_client_tls, v3_ffi_configure_nat, v3_ffi_configure_server_tls,
    v3_ffi_has_room, v3_ffi_has_room_for, v3_ffi_pending_tls,
};
pub use fetch::{
    v3_ffi_last_error_copy, v3_ffi_last_error_len, v3_ffi_out_datagram_copy,
    v3_ffi_out_datagram_count, v3_ffi_out_datagram_len, v3_ffi_out_datagram_path_id,
    v3_ffi_out_event_copy, v3_ffi_out_event_count, v3_ffi_out_event_len,
};
pub use packet_log::PacketLog;
pub use registry::{
    v3_ffi_abi_version, v3_ffi_free, v3_ffi_new_client, v3_ffi_new_server, Registry,
    V3_FFI_ABI_VERSION,
};
