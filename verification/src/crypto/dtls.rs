//! The DTLS adapter boundary: policy checks and handshake state transitions,
//! with a deterministic stand-in for the handshake itself.

use vstd::prelude::*;
use vstd::string::StrSliceExecFns;

use crate::crypto::types;
use crate::crypto::types::{
    AuthProfile, BindingView, ConfigView, CryptoError, CryptoErrorView, ExporterBinding,
    HandshakeConfig, HandshakeDatagram, HandshakeOutput, HandshakeProvider, HandshakeView,
    PeerIdentity, PeerView,
};
use crate::text;
use crate::text::{same_bytes, text_is_blank};

verus! {

#[derive(Debug, Clone, Copy, PartialEq, Eq, Structural)]
pub enum AdapterRole {
    Client,
    Server,
}

/// Why a configuration is not acceptable, whatever engine would run it.
pub open spec fn config_refusal(cfg: ConfigView) -> Option<CryptoErrorView> {
    if cfg.cipher_policy.allow_weak_suites {
        Some(CryptoErrorView::InvalidConfig("weak cipher suites are not allowed"@))
    } else if cfg.trust.require_hostname_verification && (match cfg.expected_server_name {
        Some(name) => text::is_blank(name),
        None => true,
    }) {
        Some(
            CryptoErrorView::InvalidConfig(
                "expected_server_name required when hostname verification is enabled"@,
            ),
        )
    } else if cfg.profile == AuthProfile::MutualTls && cfg.client_identity is None {
        Some(CryptoErrorView::InvalidConfig("client identity required for mutual TLS profile"@))
    } else {
        None
    }
}

/// The same byte, over and over.
pub open spec fn filled(byte: u8) -> Seq<u8> {
    Seq::new(32, |i: int| byte)
}

pub open spec fn silent(established: bool) -> HandshakeView {
    HandshakeView {
        outbound_datagrams: Seq::empty(),
        established,
        peer_identity: None,
        binding: None,
    }
}

pub open spec fn flight(bytes: Seq<u8>, established: bool) -> HandshakeView {
    HandshakeView { outbound_datagrams: seq![bytes], ..silent(established) }
}

/// The server name that a configuration goes by.
pub open spec fn server_name(cfg: ConfigView) -> Seq<char> {
    match cfg.expected_server_name {
        Some(name) => name,
        None => "peer"@,
    }
}

/// What a client has once the handshake is done.
pub open spec fn established_view(cfg: ConfigView) -> HandshakeView {
    HandshakeView {
        outbound_datagrams: Seq::empty(),
        established: true,
        peer_identity: Some(
            PeerView { subject: server_name(cfg), cert_fingerprint_sha256: filled(7) },
        ),
        binding: Some(BindingView { cid: 0, path_id: 0, context_hash: filled(9) }),
    }
}

/// What a server has once the handshake is done, with its last flight.
pub open spec fn accepted_view(bytes: Seq<u8>) -> HandshakeView {
    HandshakeView {
        outbound_datagrams: seq![bytes],
        established: true,
        peer_identity: Some(
            PeerView { subject: "client"@, cert_fingerprint_sha256: filled(5) },
        ),
        binding: Some(BindingView { cid: 0, path_id: 0, context_hash: filled(11) }),
    }
}

pub(crate) fn silent_output(established: bool) -> (out: HandshakeOutput)
    ensures
        out@ == silent(established),
{
    let out = HandshakeOutput {
        outbound_datagrams: Vec::new(),
        established,
        peer_identity: None,
        binding: None,
    };
    assert(out@ =~= silent(established));
    out
}

pub(crate) fn flight_output(bytes: Vec<u8>, established: bool) -> (out: HandshakeOutput)
    ensures
        out@ == flight(bytes@, established),
{
    let out = HandshakeOutput {
        outbound_datagrams: vec![HandshakeDatagram { bytes }],
        established,
        peer_identity: None,
        binding: None,
    };
    assert(out@ =~= flight(bytes@, established));
    out
}

pub(crate) fn accepted_output(bytes: Vec<u8>) -> (out: HandshakeOutput)
    ensures
        out@ == accepted_view(bytes@),
{
    let out = HandshakeOutput {
        outbound_datagrams: vec![HandshakeDatagram { bytes }],
        established: true,
        peer_identity: Some(
            PeerIdentity { subject: "client".to_string(), cert_fingerprint_sha256: [5u8; 32] },
        ),
        binding: Some(ExporterBinding { cid: 0, path_id: 0, context_hash: [11u8; 32] }),
    };
    assert(out.peer_identity.unwrap()@ =~= accepted_view(bytes@).peer_identity.unwrap());
    assert(out.binding.unwrap()@ =~= accepted_view(bytes@).binding.unwrap());
    assert(out@ =~= accepted_view(bytes@));
    out
}

/// The server name that a configuration goes by.
pub(crate) fn server_name_of(cfg: &HandshakeConfig) -> (name: String)
    ensures
        name@ == server_name(cfg@),
{
    match &cfg.expected_server_name {
        Some(name) => name.clone(),
        None => "peer".to_string(),
    }
}

/// Feature-gated DTLS adapter boundary.
///
/// This deterministic adapter enforces V3 policy checks and handshake state
/// transitions.
pub struct DtlsBackendAdapter {
    pub role: Option<AdapterRole>,
    pub cfg: Option<HandshakeConfig>,
    pub established: bool,
}

/// What a [`DtlsBackendAdapter`] holds.
#[verifier::ext_equal]
pub struct AdapterView {
    pub role: Option<AdapterRole>,
    pub cfg: Option<ConfigView>,
    pub established: bool,
}

pub open spec fn optional_config(cfg: Option<HandshakeConfig>) -> Option<ConfigView> {
    match cfg {
        Some(cfg) => Some(cfg@),
        None => None,
    }
}

impl View for DtlsBackendAdapter {
    type V = AdapterView;

    open spec fn view(&self) -> AdapterView {
        AdapterView {
            role: self.role,
            cfg: optional_config(self.cfg),
            established: self.established,
        }
    }
}

/// An adapter that was started.
pub open spec fn started(role: AdapterRole, cfg: ConfigView) -> AdapterView {
    AdapterView { role: Some(role), cfg: Some(cfg), established: false }
}

/// What a datagram does to an adapter, and how the call comes out.
pub open spec fn adapter_datagram(a: AdapterView, datagram: Seq<u8>) -> (
    AdapterView,
    Result<HandshakeView, CryptoErrorView>,
) {
    if a.role is None {
        (a, Err(CryptoErrorView::Provider("handshake not started"@)))
    } else if a.cfg is None {
        (a, Err(CryptoErrorView::Provider("missing config"@)))
    } else if a.established {
        (a, Ok(established_view(a.cfg.unwrap())))
    } else if a.role == Some(AdapterRole::Client) {
        if datagram == text::utf8("DTLS_SERVER_HELLO"@) {
            (AdapterView { established: true, ..a }, Ok(established_view(a.cfg.unwrap())))
        } else {
            (a, Err(CryptoErrorView::AuthFailed("unexpected handshake response"@)))
        }
    } else {
        if datagram == text::utf8("DTLS_CLIENT_HELLO"@) {
            (
                AdapterView { established: true, ..a },
                Ok(accepted_view(text::utf8("DTLS_SERVER_HELLO"@))),
            )
        } else {
            (a, Err(CryptoErrorView::AuthFailed("unexpected client hello"@)))
        }
    }
}

/// A client and a server that both take the configuration end up established
/// after one flight each way.
pub proof fn law_adapters_establish_each_other(cfg: ConfigView)
    requires
        config_refusal(cfg) is None,
    ensures
        ({
            let s = adapter_datagram(
                started(AdapterRole::Server, cfg),
                text::utf8("DTLS_CLIENT_HELLO"@),
            );
            let c = adapter_datagram(
                started(AdapterRole::Client, cfg),
                s.1->Ok_0.outbound_datagrams[0],
            );
            &&& s.0.established && s.1 is Ok && s.1->Ok_0.established
            &&& c.0.established && c.1 is Ok && c.1->Ok_0.established
            &&& c.1->Ok_0.peer_identity is Some
        }),
{
}

impl DtlsBackendAdapter {
    pub fn new() -> (adapter: DtlsBackendAdapter)
        ensures
            adapter@ == (AdapterView { role: None, cfg: None, established: false }),
    {
        DtlsBackendAdapter { role: None, cfg: None, established: false }
    }

    pub fn validate_cfg(cfg: &HandshakeConfig) -> (result: Result<(), CryptoError>)
        ensures
            match (result, config_refusal(cfg@)) {
                (Ok(_), None) => true,
                (Err(got), Some(expected)) => got@ == expected,
                _ => false,
            },
    {
        if cfg.cipher_policy.allow_weak_suites {
            return Err(
                CryptoError::InvalidConfig("weak cipher suites are not allowed".to_string()),
            );
        }
        let unnamed: bool = match &cfg.expected_server_name {
            Some(name) => text_is_blank(name.as_str()),
            None => true,
        };
        if cfg.trust.require_hostname_verification && unnamed {
            return Err(
                CryptoError::InvalidConfig(
                    "expected_server_name required when hostname verification is enabled".to_string(),
                ),
            );
        }
        if cfg.profile == AuthProfile::MutualTls && cfg.client_identity.is_none() {
            return Err(
                CryptoError::InvalidConfig(
                    "client identity required for mutual TLS profile".to_string(),
                ),
            );
        }
        Ok(())
    }

    pub fn established_output(cfg: &HandshakeConfig) -> (out: HandshakeOutput)
        ensures
            out@ == established_view(cfg@),
    {
        let out = HandshakeOutput {
            outbound_datagrams: Vec::new(),
            established: true,
            peer_identity: Some(
                PeerIdentity {
                    subject: server_name_of(cfg),
                    cert_fingerprint_sha256: [7u8; 32],
                },
            ),
            binding: Some(ExporterBinding { cid: 0, path_id: 0, context_hash: [9u8; 32] }),
        };
        assert(out.peer_identity.unwrap()@ =~= established_view(cfg@).peer_identity.unwrap());
        assert(out.binding.unwrap()@ =~= established_view(cfg@).binding.unwrap());
        assert(out@ =~= established_view(cfg@));
        out
    }
}

impl Default for DtlsBackendAdapter {
    fn default() -> (adapter: DtlsBackendAdapter)
        ensures
            adapter@ == (AdapterView { role: None, cfg: None, established: false }),
    {
        DtlsBackendAdapter::new()
    }
}

impl HandshakeProvider for DtlsBackendAdapter {
    fn start_client(&mut self, cfg: &HandshakeConfig) -> (result: Result<
        HandshakeOutput,
        CryptoError,
    >)
        ensures
            match config_refusal(cfg@) {
                Some(e) => {
                    &&& final(self)@ == old(self)@
                    &&& types::handshake_agrees(result, Err(e))
                },
                None => {
                    &&& final(self)@ == started(AdapterRole::Client, cfg@)
                    &&& types::handshake_agrees(
                        result,
                        Ok(flight(text::utf8("DTLS_CLIENT_HELLO"@), false)),
                    )
                },
            },
    {
        Self::validate_cfg(cfg)?;
        self.role = Some(AdapterRole::Client);
        self.cfg = Some(cfg.clone());
        self.established = false;
        Ok(flight_output("DTLS_CLIENT_HELLO".as_bytes_vec(), false))
    }

    fn start_server(&mut self, cfg: &HandshakeConfig) -> (result: Result<
        HandshakeOutput,
        CryptoError,
    >)
        ensures
            match config_refusal(cfg@) {
                Some(e) => {
                    &&& final(self)@ == old(self)@
                    &&& types::handshake_agrees(result, Err(e))
                },
                None => {
                    &&& final(self)@ == started(AdapterRole::Server, cfg@)
                    &&& types::handshake_agrees(result, Ok(silent(false)))
                },
            },
    {
        Self::validate_cfg(cfg)?;
        self.role = Some(AdapterRole::Server);
        self.cfg = Some(cfg.clone());
        self.established = false;
        Ok(silent_output(false))
    }

    fn on_datagram(&mut self, datagram: &[u8]) -> (result: Result<HandshakeOutput, CryptoError>)
        ensures
            final(self)@ == adapter_datagram(old(self)@, datagram@).0,
            types::handshake_agrees(result, adapter_datagram(old(self)@, datagram@).1),
    {
        let role = match self.role {
            Some(role) => role,
            None => {
                return Err(CryptoError::Provider("handshake not started".to_string()));
            },
        };
        let cfg = match &self.cfg {
            Some(cfg) => cfg.clone(),
            None => {
                return Err(CryptoError::Provider("missing config".to_string()));
            },
        };
        if self.established {
            return Ok(Self::established_output(&cfg));
        }
        match role {
            AdapterRole::Client => {
                if same_bytes(datagram, "DTLS_SERVER_HELLO".as_bytes()) {
                    self.established = true;
                    Ok(Self::established_output(&cfg))
                } else {
                    Err(CryptoError::AuthFailed("unexpected handshake response".to_string()))
                }
            },
            AdapterRole::Server => {
                if same_bytes(datagram, "DTLS_CLIENT_HELLO".as_bytes()) {
                    self.established = true;
                    Ok(accepted_output("DTLS_SERVER_HELLO".as_bytes_vec()))
                } else {
                    Err(CryptoError::AuthFailed("unexpected client hello".to_string()))
                }
            },
        }
    }

    fn on_timeout(&mut self, _now_ms: u64) -> (result: Result<HandshakeOutput, CryptoError>)
        ensures
            final(self)@ == old(self)@,
            types::handshake_agrees(
                result,
                if old(self)@.established {
                    Ok(silent(true))
                } else {
                    Err(CryptoErrorView::Provider("handshake timed out"@))
                },
            ),
    {
        if self.established {
            return Ok(silent_output(true));
        }
        Err(CryptoError::Provider("handshake timed out".to_string()))
    }
}

} // verus!
