//! Security primitives and interfaces for V3 transport: deterministic policy
//! and state pieces, and a pluggable DTLS handshake boundary.

use vstd::prelude::*;

pub mod dtls;
pub mod frame_auth;
pub mod laws;
pub mod openssl_dtls;
pub mod openssl_engine;
pub mod policy;
pub mod types;

pub use dtls::{AdapterRole, DtlsBackendAdapter};
pub use frame_auth::HmacSha256FrameAuth;
pub use openssl_dtls::{IdentityFiles, OpenSslDtlsAdapter};
pub use policy::{
    expiry_alarm_level, plan_rotation, AntiAmplificationGate, CertMetadata, ExpiryAlarmLevel,
    MtlsPolicy, ReplayWindow, RevocationList, RotationPlan,
};
pub use types::{
    AuthProfile, CipherPolicy, ClientIdentityRef, CryptoError, DtlsVersion, ExporterBinding,
    FrameAuthHook, HandshakeConfig, HandshakeDatagram, HandshakeOutput, HandshakeProvider,
    PeerIdentity, TrustConfig,
};

verus! {

pub const CRATE_NAME: &'static str = "v3-crypto";

} // verus!
