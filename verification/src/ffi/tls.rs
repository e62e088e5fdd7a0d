//! How an engine's handshakes are set up.

use std::collections::HashMap;

use openssl::ssl::{Ssl, SslContext, SslContextBuilder};
use vstd::prelude::*;

use crate::crypto::dtls;
use crate::crypto::dtls::AdapterRole;
use crate::crypto::openssl_dtls;
use crate::crypto::openssl_dtls::{OpenSslDtlsAdapter, OpenSslView};
use crate::crypto::openssl_engine as engine;
use crate::crypto::types;
use crate::crypto::types::{
    AuthProfile, CipherPolicy, ClientIdentityRef, ConfigView, CryptoError, CryptoErrorView,
    DtlsVersion, HandshakeConfig, HandshakeView, IdentityView, TrustConfig, TrustView,
};
use crate::text;
use crate::text::{joined_text, text_is_blank, trim_text};

verus! {

broadcast use vstd::std_specs::hash::group_hash_axioms;

/// Whether an engine runs handshakes, and how far they are.
pub enum TlsMode {
    Disabled,
    Client(ClientTlsState),
    Server(ServerTlsState),
}

pub struct ClientTlsState {
    pub adapter: OpenSslDtlsAdapter,
    pub cfg: HandshakeConfig,
    pub established: bool,
    pub core_started: bool,
}

pub struct ServerTlsState {
    pub server_name: String,
    pub cert_path: String,
    pub key_path: String,
    pub sessions_by_path: HashMap<u32, ServerPathTlsState>,
}

pub struct ServerPathTlsState {
    pub adapter: OpenSslDtlsAdapter,
    pub established: bool,
}

/// What a [`TlsMode`] holds.
#[verifier::ext_equal]
pub enum TlsView {
    Disabled,
    Client(ClientTlsView),
    Server(ServerTlsView),
}

#[verifier::ext_equal]
pub struct ClientTlsView {
    pub adapter: OpenSslView,
    pub cfg: ConfigView,
    pub established: bool,
    pub core_started: bool,
}

#[verifier::ext_equal]
pub struct ServerTlsView {
    pub server_name: Seq<char>,
    pub cert_path: Seq<char>,
    pub key_path: Seq<char>,
    pub sessions_by_path: Map<u32, PathTlsView>,
}

#[verifier::ext_equal]
pub struct PathTlsView {
    pub adapter: OpenSslView,
    pub established: bool,
}

impl View for ClientTlsState {
    type V = ClientTlsView;

    open spec fn view(&self) -> ClientTlsView {
        ClientTlsView {
            adapter: self.adapter@,
            cfg: self.cfg@,
            established: self.established,
            core_started: self.core_started,
        }
    }
}

impl View for ServerPathTlsState {
    type V = PathTlsView;

    open spec fn view(&self) -> PathTlsView {
        PathTlsView { adapter: self.adapter@, established: self.established }
    }
}

impl View for ServerTlsState {
    type V = ServerTlsView;

    open spec fn view(&self) -> ServerTlsView {
        ServerTlsView {
            server_name: self.server_name@,
            cert_path: self.cert_path@,
            key_path: self.key_path@,
            sessions_by_path: self.sessions_by_path@.map_values(|s: ServerPathTlsState| s@),
        }
    }
}

impl View for TlsMode {
    type V = TlsView;

    open spec fn view(&self) -> TlsView {
        match *self {
            TlsMode::Disabled => TlsView::Disabled,
            TlsMode::Client(tls) => TlsView::Client(tls@),
            TlsMode::Server(tls) => TlsView::Server(tls@),
        }
    }
}

/// Whether a datagram belongs to a handshake.
pub open spec fn is_handshake(bytes: Seq<u8>) -> bool {
    &&& bytes.len() >= 5
    &&& bytes[0] == 0x44
    &&& bytes[1] == 0x54
    &&& bytes[2] == 0x4c
    &&& bytes[3] == 0x53
    &&& bytes[4] == 0x5f
}

/// Whether a datagram belongs to a handshake: whether it begins with `DTLS_`.
pub fn is_dtls_packet(bytes: &[u8]) -> (is: bool)
    ensures
        is == is_handshake(bytes@),
{
    bytes.len() >= 5 && bytes[0] == 0x44 && bytes[1] == 0x54 && bytes[2] == 0x4c && bytes[3] == 0x53
        && bytes[4] == 0x5f
}

/// The configuration of a client's handshake.
pub open spec fn client_config(expected_server_name: Seq<char>, anchor: Seq<u8>) -> ConfigView {
    ConfigView {
        profile: AuthProfile::ServerAuth,
        cipher_policy: CipherPolicy {
            min_dtls_version: DtlsVersion::Dtls12,
            allow_weak_suites: false,
        },
        trust: TrustView {
            trust_anchor_pems: seq![anchor],
            require_hostname_verification: true,
        },
        client_identity: None,
        expected_server_name: Some(expected_server_name),
    }
}

/// Why a client's handshake is not set up; `there` is whether there is something
/// at the path.
pub open spec fn client_refusal(
    expected_server_name: Seq<char>,
    trust_anchor_path: Seq<char>,
    there: bool,
) -> Option<Seq<char>> {
    if text::is_blank(expected_server_name) {
        Some("expected_server_name is required for TLS"@)
    } else if text::is_blank(trust_anchor_path) {
        Some("trust anchor path is required for V3 TLS mode"@)
    } else if !there {
        Some("trust anchor path does not exist: "@ + text::trimmed(trust_anchor_path))
    } else {
        None
    }
}

/// The configuration of a client's handshake. `anchor` is what is at the path of
/// the trust anchor, if there is something.
pub fn build_client_tls_cfg(
    expected_server_name: &str,
    trust_anchor_path: &str,
    anchor: Option<Vec<u8>>,
) -> (result: Result<HandshakeConfig, String>)
    ensures
        match client_refusal(expected_server_name@, trust_anchor_path@, anchor is Some) {
            Some(reason) => result is Err && result->Err_0@ == reason,
            None => result is Ok && result->Ok_0@ == client_config(
                expected_server_name@,
                anchor->0@,
            ),
        },
{
    if text_is_blank(expected_server_name) {
        return Err("expected_server_name is required for TLS".to_string());
    }
    if text_is_blank(trust_anchor_path) {
        return Err("trust anchor path is required for V3 TLS mode".to_string());
    }
    let pem = match anchor {
        Some(pem) => pem,
        None => {
            let path = trim_text(trust_anchor_path);
            return Err(joined_text("trust anchor path does not exist: ", path.as_str()));
        },
    };
    let ghost held = pem@;
    let mut trust_anchor_pems: Vec<Vec<u8>> = Vec::new();
    trust_anchor_pems.push(pem);
    assert(types::byte_views(trust_anchor_pems@) =~= seq![held]);
    Ok(
        HandshakeConfig {
            profile: AuthProfile::ServerAuth,
            cipher_policy: CipherPolicy::default(),
            trust: TrustConfig { trust_anchor_pems, require_hostname_verification: true },
            client_identity: None,
            expected_server_name: Some(expected_server_name.to_string()),
        },
    )
}

/// The configuration of a server's handshake.
pub open spec fn server_config(
    server_name: Seq<char>,
    cert_path: Seq<char>,
    key_path: Seq<char>,
) -> ConfigView {
    ConfigView {
        profile: AuthProfile::ServerAuth,
        cipher_policy: CipherPolicy {
            min_dtls_version: DtlsVersion::Dtls12,
            allow_weak_suites: false,
        },
        trust: TrustView {
            trust_anchor_pems: Seq::empty(),
            require_hostname_verification: false,
        },
        client_identity: Some(
            IdentityView {
                key_id: text::trimmed(key_path),
                cert_chain_ids: seq![text::trimmed(cert_path)],
            },
        ),
        expected_server_name: Some(server_name),
    }
}

/// Why a server's handshake is not set up.
pub open spec fn server_refusal(
    server_name: Seq<char>,
    cert_path: Seq<char>,
    key_path: Seq<char>,
    cert_there: bool,
    key_there: bool,
) -> Option<Seq<char>> {
    if text::is_blank(server_name) {
        Some("server_name is required for TLS"@)
    } else if text::is_blank(cert_path) || text::is_blank(key_path) {
        Some("server TLS cert/key paths are required"@)
    } else if !cert_there {
        Some("server cert path does not exist: "@ + cert_path)
    } else if !key_there {
        Some("server key path does not exist: "@ + key_path)
    } else {
        None
    }
}

/// The configuration of a server's handshake, from where its certificate and its
/// key are and whether there is something at these paths.
pub fn build_server_tls_cfg(
    server_name: &str,
    cert_path: &str,
    key_path: &str,
    cert_there: bool,
    key_there: bool,
) -> (result: Result<HandshakeConfig, String>)
    ensures
        match server_refusal(server_name@, cert_path@, key_path@, cert_there, key_there) {
            Some(reason) => result is Err && result->Err_0@ == reason,
            None => result is Ok && result->Ok_0@ == server_config(
                server_name@,
                cert_path@,
                key_path@,
            ),
        },
{
    if text_is_blank(server_name) {
        return Err("server_name is required for TLS".to_string());
    }
    if text_is_blank(cert_path) || text_is_blank(key_path) {
        return Err("server TLS cert/key paths are required".to_string());
    }
    if !cert_there {
        return Err(joined_text("server cert path does not exist: ", cert_path));
    }
    if !key_there {
        return Err(joined_text("server key path does not exist: ", key_path));
    }
    let mut cert_chain_ids: Vec<String> = Vec::new();
    cert_chain_ids.push(trim_text(cert_path));
    assert(types::text_views(cert_chain_ids@) =~= seq![text::trimmed(cert_path@)]);
    let trust_anchor_pems: Vec<Vec<u8>> = Vec::new();
    assert(types::byte_views(trust_anchor_pems@) =~= Seq::empty());
    Ok(
        HandshakeConfig {
            profile: AuthProfile::ServerAuth,
            cipher_policy: CipherPolicy::default(),
            trust: TrustConfig { trust_anchor_pems, require_hostname_verification: false },
            client_identity: Some(
                ClientIdentityRef { key_id: trim_text(key_path), cert_chain_ids },
            ),
            expected_server_name: Some(server_name.to_string()),
        },
    )
}

/// An adapter that has not been started.
pub open spec fn idle_adapter() -> OpenSslView {
    OpenSslView {
        role: None,
        cfg: None,
        established: false,
        ctx: None,
        ssl: None,
        last_flight: Seq::empty(),
        next_retransmit_at_ms: None,
        flight_rto_ms: 1_000,
        issued_cookie: None,
    }
}

/// That a client's handshake was started, or why OpenSSL or the configuration did
/// not let it start.
pub open spec fn client_start(
    before: OpenSslView,
    cfg: ConfigView,
    after: OpenSslView,
    started: Result<HandshakeView, CryptoErrorView>,
) -> bool {
    match started {
        Ok(out) => {
            &&& openssl_dtls::context_refusal(cfg) is None
            &&& after.ssl is Some
            &&& exists|builder: SslContextBuilder|
                openssl_dtls::context_as_asked(builder, AdapterRole::Client, cfg) && after
                    == openssl_dtls::client_started(
                    before,
                    cfg,
                    #[trigger] engine::built_context(builder),
                    after.ssl->0,
                )
            &&& out == dtls::flight(
                text::utf8("DTLS_CLIENT_HELLO|sni="@ + dtls::server_name(cfg)),
                false,
            )
        },
        Err(e) => {
            &&& after == before
            &&& openssl_dtls::context_refusal(cfg) is Some ==> e
                == openssl_dtls::context_refusal(cfg)->0
        },
    }
}

/// That the handshake of a new path was started on a context, if there is one and
/// OpenSSL lets it; it waits idle where it was not.
pub open spec fn path_start(
    cfg: ConfigView,
    context: Option<SslContextBuilder>,
    after: OpenSslView,
) -> bool {
    ||| after == idle_adapter()
    ||| {
        &&& context is Some
        &&& after.ssl is Some
        &&& engine::session_context(after.ssl->0) == engine::built_context(context->0)
        &&& after == openssl_dtls::server_started(
            idle_adapter(),
            cfg,
            engine::built_context(context->0),
            after.ssl->0,
        )
    }
}

impl ClientTlsState {
    pub open spec fn wf(&self) -> bool {
        forall|i: int|
            0 <= i < self.cfg.trust.trust_anchor_pems@.len() ==> (
            #[trigger] self.cfg.trust.trust_anchor_pems@[i])@.len() <= engine::MAX_PEM_LEN
    }

    pub fn new(cfg: HandshakeConfig) -> (tls: ClientTlsState)
        ensures
            tls@ == (ClientTlsView {
                adapter: idle_adapter(),
                cfg: cfg@,
                established: false,
                core_started: false,
            }),
            tls.cfg == cfg,
    {
        ClientTlsState {
            adapter: OpenSslDtlsAdapter::new(),
            cfg,
            established: false,
            core_started: false,
        }
    }
}

/// The handshake of a new path once OpenSSL has opened a session for it, or not.
pub open spec fn path_after(
    cfg: ConfigView,
    opened: Result<(SslContext, Ssl), CryptoError>,
) -> PathTlsView {
    PathTlsView {
        adapter: match opened {
            Ok((ctx, ssl)) => openssl_dtls::server_started(idle_adapter(), cfg, ctx, ssl),
            Err(_) => idle_adapter(),
        },
        established: false,
    }
}

/// Takes the session that OpenSSL opened for a new path; the path waits idle where
/// there is none.
pub fn path_opened(
    cfg: &HandshakeConfig,
    opened: Result<(SslContext, Ssl), CryptoError>,
) -> (session: ServerPathTlsState)
    ensures
        session@ == path_after(cfg@, opened),
{
    let mut adapter = OpenSslDtlsAdapter::new();
    let _ = adapter.server_opened(cfg, opened);
    ServerPathTlsState { adapter, established: false }
}

/// Starts the handshake of a new path; nothing comes of a context that is not
/// there or that OpenSSL does not take.
pub fn open_path(cfg: &HandshakeConfig, context: Option<SslContextBuilder>) -> (session:
    ServerPathTlsState)
    ensures
        path_start(cfg@, context, session@.adapter),
        !session@.established,
{
    match context {
        Some(builder) => path_opened(cfg, OpenSslDtlsAdapter::open_session(Ok(builder))),
        None => ServerPathTlsState { adapter: OpenSslDtlsAdapter::new(), established: false },
    }
}

} // verus!
