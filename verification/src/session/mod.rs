//! Deterministic protocol state machine for Todero V3.
//! No sockets, no threads, and no wall-clock reads are performed here.

pub mod codec;
pub mod conduct;
pub mod laws;
pub mod life;
pub mod machine;
pub mod model;
pub mod receiving;
pub mod renegotiation;
pub mod serving;
pub mod types;

pub use codec::{
    encode_frame, encode_msr_payload, encode_msr_signal_tlv, TLV_MSR_SIGNAL, TLV_TIMER_ACK,
    TLV_TIMER_PROPOSAL,
};
pub use machine::CoreMachine;
pub use types::{
    CoreConfig, CoreError, CoreOutput, Event, LifecycleState, OutboundDatagram, PathEvent, Role,
    TimerAction, TimerId, TimerProposal,
};
