//! Handshake configuration, results and errors, and the interfaces behind which
//! handshakes and frame authentication stand.

use vstd::prelude::*;

use crate::text::joined_text;

verus! {

#[derive(Debug, Clone, Copy, PartialEq, Eq, Structural)]
pub enum DtlsVersion {
    Dtls12,
    Dtls13,
}

#[derive(Debug, Clone, Copy, PartialEq, Eq, Structural)]
pub enum AuthProfile {
    ServerAuth,
    MutualTls,
}

#[derive(Debug, Clone, Copy, PartialEq, Eq, Structural)]
pub struct CipherPolicy {
    pub min_dtls_version: DtlsVersion,
    pub allow_weak_suites: bool,
}

impl Default for CipherPolicy {
    fn default() -> (policy: CipherPolicy)
        ensures
            policy == (CipherPolicy {
                min_dtls_version: DtlsVersion::Dtls12,
                allow_weak_suites: false,
            }),
    {
        CipherPolicy { min_dtls_version: DtlsVersion::Dtls12, allow_weak_suites: false }
    }
}

/// Byte strings as sequences.
pub open spec fn byte_views(items: Seq<Vec<u8>>) -> Seq<Seq<u8>> {
    items.map_values(|b: Vec<u8>| b@)
}

/// Texts as sequences.
pub open spec fn text_views(items: Seq<String>) -> Seq<Seq<char>> {
    items.map_values(|t: String| t@)
}

pub(crate) fn copy_byte_strings(items: &Vec<Vec<u8>>) -> (copy: Vec<Vec<u8>>)
    ensures
        byte_views(copy@) == byte_views(items@),
{
    let mut copy: Vec<Vec<u8>> = Vec::new();
    let mut i: usize = 0;
    while i < items.len()
        invariant
            i <= items@.len(),
            copy@.len() == i,
            forall|j: int| 0 <= j < i ==> (#[trigger] copy@[j])@ == items@[j]@,
        decreases items@.len() - i,
    {
        copy.push(vstd::slice::slice_to_vec(items[i].as_slice()));
        i = i + 1;
    }
    assert(byte_views(copy@) =~= byte_views(items@));
    copy
}

pub(crate) fn copy_texts(items: &Vec<String>) -> (copy: Vec<String>)
    ensures
        text_views(copy@) == text_views(items@),
{
    let mut copy: Vec<String> = Vec::new();
    let mut i: usize = 0;
    while i < items.len()
        invariant
            i <= items@.len(),
            copy@.len() == i,
            forall|j: int| 0 <= j < i ==> (#[trigger] copy@[j])@ == items@[j]@,
        decreases items@.len() - i,
    {
        copy.push(items[i].clone());
        i = i + 1;
    }
    assert(text_views(copy@) =~= text_views(items@));
    copy
}

#[derive(Debug, PartialEq, Eq)]
pub struct TrustConfig {
    pub trust_anchor_pems: Vec<Vec<u8>>,
    pub require_hostname_verification: bool,
}

#[verifier::ext_equal]
pub struct TrustView {
    pub trust_anchor_pems: Seq<Seq<u8>>,
    pub require_hostname_verification: bool,
}

impl View for TrustConfig {
    type V = TrustView;

    open spec fn view(&self) -> TrustView {
        TrustView {
            trust_anchor_pems: byte_views(self.trust_anchor_pems@),
            require_hostname_verification: self.require_hostname_verification,
        }
    }
}

impl Clone for TrustConfig {
    fn clone(&self) -> (copy: TrustConfig)
        ensures
            copy@ == self@,
    {
        TrustConfig {
            trust_anchor_pems: copy_byte_strings(&self.trust_anchor_pems),
            require_hostname_verification: self.require_hostname_verification,
        }
    }
}

impl Default for TrustConfig {
    fn default() -> (trust: TrustConfig)
        ensures
            trust@ == (TrustView {
                trust_anchor_pems: Seq::empty(),
                require_hostname_verification: true,
            }),
    {
        let trust = TrustConfig {
            trust_anchor_pems: Vec::new(),
            require_hostname_verification: true,
        };
        assert(trust@.trust_anchor_pems =~= Seq::empty());
        trust
    }
}

#[derive(Debug, PartialEq, Eq)]
pub struct ClientIdentityRef {
    pub key_id: String,
    pub cert_chain_ids: Vec<String>,
}

#[verifier::ext_equal]
pub struct IdentityView {
    pub key_id: Seq<char>,
    pub cert_chain_ids: Seq<Seq<char>>,
}

impl View for ClientIdentityRef {
    type V = IdentityView;

    open spec fn view(&self) -> IdentityView {
        IdentityView { key_id: self.key_id@, cert_chain_ids: text_views(self.cert_chain_ids@) }
    }
}

impl Clone for ClientIdentityRef {
    fn clone(&self) -> (copy: ClientIdentityRef)
        ensures
            copy@ == self@,
    {
        ClientIdentityRef {
            key_id: self.key_id.clone(),
            cert_chain_ids: copy_texts(&self.cert_chain_ids),
        }
    }
}

#[derive(Debug, PartialEq, Eq)]
pub struct HandshakeConfig {
    pub profile: AuthProfile,
    pub cipher_policy: CipherPolicy,
    pub trust: TrustConfig,
    pub client_identity: Option<ClientIdentityRef>,
    pub expected_server_name: Option<String>,
}

#[verifier::ext_equal]
pub struct ConfigView {
    pub profile: AuthProfile,
    pub cipher_policy: CipherPolicy,
    pub trust: TrustView,
    pub client_identity: Option<IdentityView>,
    pub expected_server_name: Option<Seq<char>>,
}

/// A text that may be missing.
pub open spec fn optional_text(item: Option<String>) -> Option<Seq<char>> {
    match item {
        Some(t) => Some(t@),
        None => None,
    }
}

impl View for HandshakeConfig {
    type V = ConfigView;

    open spec fn view(&self) -> ConfigView {
        ConfigView {
            profile: self.profile,
            cipher_policy: self.cipher_policy,
            trust: self.trust@,
            client_identity: match self.client_identity {
                Some(identity) => Some(identity@),
                None => None,
            },
            expected_server_name: optional_text(self.expected_server_name),
        }
    }
}

impl Clone for HandshakeConfig {
    fn clone(&self) -> (copy: HandshakeConfig)
        ensures
            copy@ == self@,
    {
        HandshakeConfig {
            profile: self.profile,
            cipher_policy: self.cipher_policy,
            trust: self.trust.clone(),
            client_identity: match &self.client_identity {
                Some(identity) => Some(identity.clone()),
                None => None,
            },
            expected_server_name: match &self.expected_server_name {
                Some(name) => Some(name.clone()),
                None => None,
            },
        }
    }
}

#[derive(Debug, Clone, PartialEq, Eq)]
pub struct PeerIdentity {
    pub subject: String,
    pub cert_fingerprint_sha256: [u8; 32],
}

#[verifier::ext_equal]
pub struct PeerView {
    pub subject: Seq<char>,
    pub cert_fingerprint_sha256: Seq<u8>,
}

impl View for PeerIdentity {
    type V = PeerView;

    open spec fn view(&self) -> PeerView {
        PeerView {
            subject: self.subject@,
            cert_fingerprint_sha256: self.cert_fingerprint_sha256@,
        }
    }
}

#[derive(Debug, Clone, PartialEq, Eq)]
pub struct ExporterBinding {
    pub cid: u64,
    pub path_id: u32,
    pub context_hash: [u8; 32],
}

#[verifier::ext_equal]
pub struct BindingView {
    pub cid: u64,
    pub path_id: u32,
    pub context_hash: Seq<u8>,
}

impl View for ExporterBinding {
    type V = BindingView;

    open spec fn view(&self) -> BindingView {
        BindingView { cid: self.cid, path_id: self.path_id, context_hash: self.context_hash@ }
    }
}

#[derive(Debug, PartialEq, Eq)]
pub struct HandshakeDatagram {
    pub bytes: Vec<u8>,
}

impl Clone for HandshakeDatagram {
    fn clone(&self) -> (copy: HandshakeDatagram)
        ensures
            copy.bytes@ == self.bytes@,
    {
        HandshakeDatagram { bytes: vstd::slice::slice_to_vec(self.bytes.as_slice()) }
    }
}

#[derive(Debug, Clone, PartialEq, Eq)]
pub struct HandshakeOutput {
    pub outbound_datagrams: Vec<HandshakeDatagram>,
    pub established: bool,
    pub peer_identity: Option<PeerIdentity>,
    pub binding: Option<ExporterBinding>,
}

/// What a [`HandshakeOutput`] says.
#[verifier::ext_equal]
pub struct HandshakeView {
    pub outbound_datagrams: Seq<Seq<u8>>,
    pub established: bool,
    pub peer_identity: Option<PeerView>,
    pub binding: Option<BindingView>,
}

pub open spec fn flight_views(datagrams: Seq<HandshakeDatagram>) -> Seq<Seq<u8>> {
    datagrams.map_values(|d: HandshakeDatagram| d.bytes@)
}

impl View for HandshakeOutput {
    type V = HandshakeView;

    open spec fn view(&self) -> HandshakeView {
        HandshakeView {
            outbound_datagrams: flight_views(self.outbound_datagrams@),
            established: self.established,
            peer_identity: match self.peer_identity {
                Some(peer) => Some(peer@),
                None => None,
            },
            binding: match self.binding {
                Some(binding) => Some(binding@),
                None => None,
            },
        }
    }
}

#[derive(Debug, Clone, PartialEq, Eq)]
pub enum CryptoError {
    InvalidConfig(String),
    AuthFailed(String),
    Provider(String),
}

/// What a [`CryptoError`] says.
#[verifier::ext_equal]
pub enum CryptoErrorView {
    InvalidConfig(Seq<char>),
    AuthFailed(Seq<char>),
    Provider(Seq<char>),
}

impl View for CryptoError {
    type V = CryptoErrorView;

    open spec fn view(&self) -> CryptoErrorView {
        match *self {
            CryptoError::InvalidConfig(t) => CryptoErrorView::InvalidConfig(t@),
            CryptoError::AuthFailed(t) => CryptoErrorView::AuthFailed(t@),
            CryptoError::Provider(t) => CryptoErrorView::Provider(t@),
        }
    }
}

impl CryptoErrorView {
    /// What the error says to a reader.
    pub open spec fn text(self) -> Seq<char> {
        match self {
            CryptoErrorView::InvalidConfig(t) => "invalid handshake configuration: "@ + t,
            CryptoErrorView::AuthFailed(t) => "peer authentication failed: "@ + t,
            CryptoErrorView::Provider(t) => "handshake provider failure: "@ + t,
        }
    }
}

impl CryptoError {
    pub fn message(&self) -> (message: String)
        ensures
            message@ == self@.text(),
    {
        match self {
            CryptoError::InvalidConfig(t) => joined_text(
                "invalid handshake configuration: ",
                t.as_str(),
            ),
            CryptoError::AuthFailed(t) => joined_text("peer authentication failed: ", t.as_str()),
            CryptoError::Provider(t) => joined_text("handshake provider failure: ", t.as_str()),
        }
    }
}

/// That a call came out as `expected` says.
pub open spec fn handshake_agrees(
    result: Result<HandshakeOutput, CryptoError>,
    expected: Result<HandshakeView, CryptoErrorView>,
) -> bool {
    match (result, expected) {
        (Ok(got), Ok(view)) => got@ == view,
        (Err(got), Err(view)) => got@ == view,
        _ => false,
    }
}

/// A handshake engine.
pub trait HandshakeProvider: Send {
    fn start_client(&mut self, cfg: &HandshakeConfig) -> Result<HandshakeOutput, CryptoError>;

    fn start_server(&mut self, cfg: &HandshakeConfig) -> Result<HandshakeOutput, CryptoError>;

    fn on_datagram(&mut self, datagram: &[u8]) -> Result<HandshakeOutput, CryptoError>;

    fn on_timeout(&mut self, now_ms: u64) -> Result<HandshakeOutput, CryptoError>;
}

/// Per-frame authentication hook (post-handshake).
pub trait FrameAuthHook: Send {
    /// That the hook is in a state it can work from.
    open spec fn wf(&self) -> bool {
        true
    }

    fn sign(&self, sequence: u64, cid: u64, path_id: u32, payload: &[u8]) -> Result<
        Vec<u8>,
        CryptoError,
    >
        requires
            self.wf(),
    ;

    fn verify(
        &mut self,
        sequence: u64,
        cid: u64,
        path_id: u32,
        payload: &[u8],
        tag: &[u8],
    ) -> Result<(), CryptoError>
        requires
            old(self).wf(),
    ;
}

} // verus!
