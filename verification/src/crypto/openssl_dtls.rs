//! The DTLS adapter that sets up OpenSSL and runs the cookie handshake.

use openssl::error::ErrorStack;
use openssl::ssl::{Ssl, SslContext, SslContextBuilder};
use openssl::x509::X509;
use vstd::prelude::*;
use vstd::string::{StrSliceExecFns, StringExecFns};

use crate::crypto::dtls;
use crate::crypto::dtls::{
    accepted_output, server_name_of, silent_output, AdapterRole, DtlsBackendAdapter,
};
use crate::crypto::openssl_engine as engine;
use crate::crypto::types;
use crate::crypto::types::{
    AuthProfile, ConfigView, CryptoError, CryptoErrorView, DtlsVersion, HandshakeConfig,
    HandshakeDatagram, HandshakeOutput, HandshakeView,
};
use crate::session::codec;
use crate::text;
use crate::text::{
    joined_text, same_text, text_after, text_before, text_with_number, text_without_leading,
    utf8_text,
};

verus! {

pub const CIPHER_LIST: &'static str = "HIGH:!aNULL:!MD5:!RC4:!DES:!3DES";

pub struct OpenSslDtlsAdapter {
    pub role: Option<AdapterRole>,
    pub cfg: Option<HandshakeConfig>,
    pub established: bool,
    pub ctx: Option<SslContext>,
    pub ssl: Option<Ssl>,
    pub last_flight: Vec<HandshakeDatagram>,
    pub next_retransmit_at_ms: Option<u64>,
    pub flight_rto_ms: u64,
    pub issued_cookie: Option<String>,
}

/// What an [`OpenSslDtlsAdapter`] holds.
#[verifier::ext_equal]
pub struct OpenSslView {
    pub role: Option<AdapterRole>,
    pub cfg: Option<ConfigView>,
    pub established: bool,
    pub ctx: Option<SslContext>,
    pub ssl: Option<Ssl>,
    pub last_flight: Seq<Seq<u8>>,
    pub next_retransmit_at_ms: Option<u64>,
    pub flight_rto_ms: u64,
    pub issued_cookie: Option<Seq<char>>,
}

impl View for OpenSslDtlsAdapter {
    type V = OpenSslView;

    open spec fn view(&self) -> OpenSslView {
        OpenSslView {
            role: self.role,
            cfg: dtls::optional_config(self.cfg),
            established: self.established,
            ctx: self.ctx,
            ssl: self.ssl,
            last_flight: types::flight_views(self.last_flight@),
            next_retransmit_at_ms: self.next_retransmit_at_ms,
            flight_rto_ms: self.flight_rto_ms,
            issued_cookie: types::optional_text(self.issued_cookie),
        }
    }
}

/// The files that hold a client's identity, in the order in which they are
/// loaded into a context.
#[derive(Debug, Clone, PartialEq, Eq)]
pub struct IdentityFiles {
    pub certificate: Option<String>,
    pub private_key: String,
}

/// Why a context is not even begun.
pub open spec fn context_refusal(cfg: ConfigView) -> Option<CryptoErrorView> {
    if dtls::config_refusal(cfg) is Some {
        dtls::config_refusal(cfg)
    } else if cfg.cipher_policy.min_dtls_version == DtlsVersion::Dtls13 {
        Some(
            CryptoErrorView::InvalidConfig(
                "DTLS 1.3 policy requested but OpenSSL adapter currently targets DTLS 1.2"@,
            ),
        )
    } else {
        None
    }
}

/// That a text goes on from `head`.
pub open spec fn begins_with(text: Seq<char>, head: Seq<char>) -> bool {
    exists|tail: Seq<char>| text == #[trigger] (head + tail)
}

/// The text that stands at the head of what went wrong with one bundle.
pub open spec fn at_index(head: Seq<char>, index: nat, tail: Seq<char>) -> Seq<char> {
    head + text::decimal(index) + tail
}

/// What may be reported of the bundle at `index`: that OpenSSL could not read
/// it, that it is empty, or that OpenSSL did not take one of its certificates.
pub open spec fn bundle_error(error: CryptoErrorView, index: nat, pem: Seq<u8>) -> bool {
    match error {
        CryptoErrorView::InvalidConfig(t) => {
            ||| begins_with(t, at_index("invalid trust anchor bundle at index "@, index, ": "@))
            ||| engine::bundle_certificates(pem).len() == 0 && t == at_index(
                "trust anchor bundle at index "@,
                index,
                " does not contain any certificates"@,
            )
            ||| begins_with(
                t,
                at_index("failed to add trust anchor certificate at index "@, index, ": "@),
            )
        },
        _ => false,
    }
}

/// What may be reported when OpenSSL does not make a context.
pub open spec fn engine_error(error: CryptoErrorView, cfg: ConfigView) -> bool {
    match error {
        CryptoErrorView::Provider(t) => {
            ||| begins_with(t, "openssl context build failed: "@)
            ||| begins_with(t, "openssl trust store build failed: "@)
        },
        CryptoErrorView::InvalidConfig(t) => {
            ||| begins_with(t, "cipher policy reject: "@)
            ||| exists|i: int|
                0 <= i < cfg.trust.trust_anchor_pems.len() && bundle_error(
                    error,
                    i as nat,
                    #[trigger] cfg.trust.trust_anchor_pems[i],
                )
        },
        _ => false,
    }
}

/// The certificates of all bundles.
pub open spec fn anchor_set(pems: Seq<Seq<u8>>) -> Set<X509> {
    Set::new(
        |certificate: X509|
            exists|i: int|
                0 <= i < pems.len() && #[trigger] engine::bundle_certificates(pems[i]).contains(
                    certificate,
                ),
    )
}

/// That a context is set up as role and configuration ask for: for DTLS, with the
/// peer's certificate verified against the anchors. Without bundles the anchors are
/// those of a new context.
pub open spec fn context_as_asked(
    builder: SslContextBuilder,
    role: AdapterRole,
    cfg: ConfigView,
) -> bool {
    let pems = cfg.trust.trust_anchor_pems;
    &&& engine::context_is_dtls(builder)
    &&& engine::context_is_server(builder) == (role == AdapterRole::Server)
    &&& engine::context_verifies_peer(builder)
    &&& engine::context_demands_certificate(builder) == (cfg.profile == AuthProfile::MutualTls)
    &&& engine::context_ciphers(builder) == CIPHER_LIST@
    &&& forall|i: int|
        0 <= i < pems.len() ==> engine::bundle_certificates(#[trigger] pems[i]).len() > 0
    &&& if pems.len() > 0 {
        engine::context_anchors(builder) == anchor_set(pems)
    } else {
        exists|made: SslContextBuilder| #[trigger]
            engine::context_is_new(made) && engine::context_anchors(builder)
                == engine::context_anchors(made)
    }
}

/// How the reading of one bundle comes out.
pub fn checked_bundle(index: usize, parsed: Result<Vec<X509>, ErrorStack>) -> (result: Result<
    Vec<X509>,
    CryptoError,
>)
    ensures
        match parsed {
            Ok(certificates) => if certificates@.len() > 0 {
                result is Ok && result->Ok_0@ == certificates@
            } else {
                result is Err && result->Err_0@ == CryptoErrorView::InvalidConfig(
                    at_index(
                        "trust anchor bundle at index "@,
                        index as nat,
                        " does not contain any certificates"@,
                    ),
                )
            },
            Err(_) => {
                &&& result is Err
                &&& result->Err_0@ matches CryptoErrorView::InvalidConfig(t)
                &&& begins_with(
                    t,
                    at_index("invalid trust anchor bundle at index "@, index as nat, ": "@),
                )
            },
        },
{
    match parsed {
        Ok(certificates) => {
            if certificates.len() == 0 {
                let mut reason = text_with_number("trust anchor bundle at index ", index as u64);
                reason.append(" does not contain any certificates");
                return Err(CryptoError::InvalidConfig(reason));
            }
            Ok(certificates)
        },
        Err(e) => {
            let mut reason = text_with_number(
                "invalid trust anchor bundle at index ",
                index as u64,
            );
            reason.append(": ");
            reason.append(e.to_string().as_str());
            Err(CryptoError::InvalidConfig(reason))
        },
    }
}

fn failure(head: &str, e: ErrorStack) -> (reason: String)
    ensures
        begins_with(reason@, head@),
{
    joined_text(head, e.to_string().as_str())
}

/// The text of a datagram; what is no text reads as empty.
pub open spec fn datagram_text(datagram: Seq<u8>) -> Seq<char> {
    if vstd::utf8::valid_utf8(datagram) {
        vstd::utf8::decode_utf8(datagram)
    } else {
        Seq::empty()
    }
}

/// What stands before the first bar.
pub open spec fn head_of(datagram: Seq<u8>) -> Seq<char> {
    text::before_mark(datagram_text(datagram), "|"@)
}

/// What stands behind the first bar, without further bars at its start.
pub open spec fn tail_of(datagram: Seq<u8>) -> Option<Seq<char>> {
    match text::after_mark(datagram_text(datagram), "|"@) {
        Some(tail) => Some(text::without_leading(tail, '|')),
        None => None,
    }
}

/// What a datagram gives for a key: the text behind the key.
pub open spec fn value_of(datagram: Seq<u8>, key: Seq<char>) -> Option<Seq<char>> {
    match tail_of(datagram) {
        Some(tail) => text::after_mark(tail, key),
        None => None,
    }
}

/// The value, empty if there is none.
pub open spec fn value_or_empty(datagram: Seq<u8>, key: Seq<char>) -> Seq<char> {
    match value_of(datagram, key) {
        Some(value) => value,
        None => Seq::empty(),
    }
}

/// A flight that is sent and kept for repetition.
pub open spec fn queued(a: OpenSslView, now_ms: u64, datagrams: Seq<Seq<u8>>) -> OpenSslView {
    OpenSslView {
        last_flight: datagrams,
        next_retransmit_at_ms: Some(codec::saturating_sum(now_ms, a.flight_rto_ms)),
        ..a
    }
}

pub open spec fn queued_output(a: OpenSslView, datagrams: Seq<Seq<u8>>) -> HandshakeView {
    HandshakeView { outbound_datagrams: datagrams, ..dtls::silent(a.established) }
}

/// A text as the one datagram of a flight.
pub open spec fn one_flight(head: Seq<char>, value: Seq<char>) -> Seq<Seq<u8>> {
    seq![text::utf8(head + value)]
}

/// An adapter after a start that OpenSSL let through.
pub open spec fn client_started(
    a: OpenSslView,
    cfg: ConfigView,
    ctx: SslContext,
    ssl: Ssl,
) -> OpenSslView {
    queued(
        OpenSslView {
            role: Some(AdapterRole::Client),
            cfg: Some(cfg),
            established: false,
            ctx: Some(ctx),
            ssl: Some(ssl),
            ..a
        },
        0,
        one_flight("DTLS_CLIENT_HELLO|sni="@, dtls::server_name(cfg)),
    )
}

pub open spec fn server_started(
    a: OpenSslView,
    cfg: ConfigView,
    ctx: SslContext,
    ssl: Ssl,
) -> OpenSslView {
    OpenSslView {
        role: Some(AdapterRole::Server),
        cfg: Some(cfg),
        established: false,
        ctx: Some(ctx),
        ssl: Some(ssl),
        last_flight: Seq::empty(),
        next_retransmit_at_ms: None,
        issued_cookie: None,
        ..a
    }
}

/// What a datagram does to a client in the middle of its handshake.
pub open spec fn client_datagram(a: OpenSslView, cfg: ConfigView, datagram: Seq<u8>) -> (
    OpenSslView,
    Result<HandshakeView, CryptoErrorView>,
) {
    let head = head_of(datagram);
    if head == "DTLS_HELLO_VERIFY"@ {
        match value_of(datagram, "cookie="@) {
            None => (a, Err(CryptoErrorView::AuthFailed("missing hello-verify cookie"@))),
            Some(cookie) => {
                let answer = one_flight("DTLS_CLIENT_HELLO_COOKIE|cookie="@, cookie);
                (queued(a, 0, answer), Ok(queued_output(a, answer)))
            },
        }
    } else if head == "DTLS_SERVER_HELLO"@ {
        let sni = value_or_empty(datagram, "sni="@);
        let expected = match cfg.expected_server_name {
            Some(name) => name,
            None => Seq::empty(),
        };
        if cfg.trust.require_hostname_verification && sni != expected {
            (
                a,
                Err(
                    CryptoErrorView::AuthFailed(
                        "server identity mismatch expected '"@ + expected + "' got '"@ + sni
                            + "'"@,
                    ),
                ),
            )
        } else {
            (
                OpenSslView { established: true, next_retransmit_at_ms: None, ..a },
                Ok(dtls::established_view(cfg)),
            )
        }
    } else {
        (a, Err(CryptoErrorView::AuthFailed("unexpected handshake response"@)))
    }
}

/// What a datagram does to a server in the middle of its handshake.
pub open spec fn server_datagram(a: OpenSslView, cfg: ConfigView, datagram: Seq<u8>) -> (
    OpenSslView,
    Result<HandshakeView, CryptoErrorView>,
) {
    let head = head_of(datagram);
    if head == "DTLS_CLIENT_HELLO"@ {
        let answer = one_flight("DTLS_HELLO_VERIFY|cookie="@, "cookie-v3"@);
        (
            queued(OpenSslView { issued_cookie: Some("cookie-v3"@), ..a }, 0, answer),
            Ok(queued_output(a, answer)),
        )
    } else if head == "DTLS_CLIENT_HELLO_COOKIE"@ {
        let issued = match a.issued_cookie {
            Some(cookie) => cookie,
            None => Seq::empty(),
        };
        if issued != value_or_empty(datagram, "cookie="@) {
            (a, Err(CryptoErrorView::AuthFailed("invalid or missing hello-verify cookie"@)))
        } else {
            (
                OpenSslView { established: true, next_retransmit_at_ms: None, ..a },
                Ok(
                    dtls::accepted_view(
                        text::utf8("DTLS_SERVER_HELLO|sni="@ + dtls::server_name(cfg)),
                    ),
                ),
            )
        }
    } else {
        (a, Err(CryptoErrorView::AuthFailed("unexpected client hello"@)))
    }
}

/// What a datagram does to an adapter, and how the call comes out.
pub open spec fn openssl_datagram(a: OpenSslView, datagram: Seq<u8>) -> (
    OpenSslView,
    Result<HandshakeView, CryptoErrorView>,
) {
    if a.ctx is None || a.ssl is None {
        (a, Err(CryptoErrorView::Provider("openssl context not initialized"@)))
    } else if a.role is None {
        (a, Err(CryptoErrorView::Provider("handshake not started"@)))
    } else if a.cfg is None {
        (a, Err(CryptoErrorView::Provider("missing config"@)))
    } else if a.established {
        (a, Ok(dtls::established_view(a.cfg.unwrap())))
    } else if a.role == Some(AdapterRole::Client) {
        client_datagram(a, a.cfg.unwrap(), datagram)
    } else {
        server_datagram(a, a.cfg.unwrap(), datagram)
    }
}

/// What the passing of time does to an adapter, and how the call comes out.
pub open spec fn openssl_timeout(a: OpenSslView, now_ms: u64) -> (
    OpenSslView,
    Result<HandshakeView, CryptoErrorView>,
) {
    if a.established {
        (a, Ok(dtls::silent(true)))
    } else {
        match a.next_retransmit_at_ms {
            None => (a, Err(CryptoErrorView::Provider("handshake timed out"@))),
            Some(deadline) => if now_ms < deadline {
                (a, Ok(dtls::silent(false)))
            } else if a.last_flight.len() == 0 {
                (a, Err(CryptoErrorView::Provider("handshake timed out"@)))
            } else {
                (queued(a, now_ms, a.last_flight), Ok(queued_output(a, a.last_flight)))
            },
        }
    }
}

impl OpenSslDtlsAdapter {
    pub fn new() -> (adapter: OpenSslDtlsAdapter)
        ensures
            adapter@ == (OpenSslView {
                role: None,
                cfg: None,
                established: false,
                ctx: None,
                ssl: None,
                last_flight: Seq::empty(),
                next_retransmit_at_ms: None,
                flight_rto_ms: 1_000,
                issued_cookie: None,
            }),
    {
        let adapter = OpenSslDtlsAdapter {
            role: None,
            cfg: None,
            established: false,
            ctx: None,
            ssl: None,
            last_flight: Vec::new(),
            next_retransmit_at_ms: None,
            flight_rto_ms: 1_000,
            issued_cookie: None,
        };
        assert(adapter@.last_flight =~= Seq::empty());
        adapter
    }

    /// Adds the certificates of one bundle to a set of trusted ones.
    fn add_bundle(
        store: &mut openssl::x509::store::X509StoreBuilder,
        index: usize,
        pem: &Vec<u8>,
    ) -> (result: Result<(), CryptoError>)
        requires
            pem@.len() <= engine::MAX_PEM_LEN,
        ensures
            match result {
                Ok(_) => {
                    &&& engine::bundle_certificates(pem@).len() > 0
                    &&& engine::filling_store(*final(store)) == engine::filling_store(
                        *old(store),
                    ).union(engine::bundle_certificates(pem@).to_set())
                },
                Err(e) => bundle_error(e@, index as nat, pem@),
            },
    {
        let mut certificates = match checked_bundle(index, engine::read_bundle(pem)) {
            Ok(certificates) => certificates,
            Err(e) => {
                return Err(e);
            },
        };
        let ghost all = certificates@;
        let ghost before = engine::filling_store(*store);
        assert(all.take(0).to_set() =~= Set::<X509>::empty());
        assert(before.union(all.take(0).to_set()) =~= before);
        let ghost mut added: int = 0;
        while certificates.len() > 0
            invariant
                all == engine::bundle_certificates(pem@),
                all.len() > 0,
                0 <= added <= all.len(),
                certificates@ == all.skip(added),
                engine::filling_store(*store) == before.union(all.take(added).to_set()),
            decreases certificates@.len(),
        {
            let certificate = certificates.remove(0);
            assert(certificate == all[added]);
            match engine::add_certificate(store, certificate) {
                Ok(_) => {},
                Err(e) => {
                    let mut reason = text_with_number(
                        "failed to add trust anchor certificate at index ",
                        index as u64,
                    );
                    reason.append(": ");
                    reason.append(e.to_string().as_str());
                    return Err(CryptoError::InvalidConfig(reason));
                },
            }
            proof {
                assert(certificates@ =~= all.skip(added + 1));
                assert(all.take(added + 1) =~= all.take(added).push(all[added]));
                lemma_set_of_push(all.take(added), all[added]);
                assert(engine::filling_store(*store) =~= before.union(
                    all.take(added + 1).to_set(),
                ));
                added = added + 1;
            }
        }
        assert(all.take(added) =~= all);
        Ok(())
    }

    /// The set of trusted certificates of a configuration.
    fn build_store(pems: &Vec<Vec<u8>>) -> (result: Result<
        openssl::x509::store::X509Store,
        CryptoError,
    >)
        requires
            forall|i: int|
                0 <= i < pems@.len() ==> (#[trigger] pems@[i])@.len() <= engine::MAX_PEM_LEN,
        ensures
            match result {
                Ok(store) => {
                    &&& engine::filled_store(store) == anchor_set(types::byte_views(pems@))
                    &&& forall|i: int|
                        0 <= i < pems@.len() ==> engine::bundle_certificates(
                            #[trigger] types::byte_views(pems@)[i],
                        ).len() > 0
                },
                Err(e) => {
                    ||| e@ matches CryptoErrorView::Provider(t) && begins_with(
                        t,
                        "openssl trust store build failed: "@,
                    )
                    ||| e@ is InvalidConfig && exists|i: int|
                        0 <= i < pems@.len() && bundle_error(
                            e@,
                            i as nat,
                            #[trigger] types::byte_views(pems@)[i],
                        )
                },
            },
    {
        let mut store = match engine::new_store() {
            Ok(store) => store,
            Err(e) => {
                return Err(
                    CryptoError::Provider(failure("openssl trust store build failed: ", e)),
                );
            },
        };
        let ghost views = types::byte_views(pems@);
        let mut i: usize = 0;
        assert(engine::filling_store(store) =~= anchor_set(views.take(0)));
        while i < pems.len()
            invariant
                i <= pems@.len(),
                views == types::byte_views(pems@),
                forall|j: int|
                    0 <= j < pems@.len() ==> (#[trigger] pems@[j])@.len() <= engine::MAX_PEM_LEN,
                engine::filling_store(store) == anchor_set(views.take(i as int)),
                forall|j: int|
                    0 <= j < i ==> engine::bundle_certificates(#[trigger] views[j]).len() > 0,
            decreases pems@.len() - i,
        {
            assert(views[i as int] == pems@[i as int]@);
            match Self::add_bundle(&mut store, i, &pems[i]) {
                Ok(_) => {},
                Err(e) => {
                    return Err(e);
                },
            }
            proof {
                lemma_anchors_grow(views, i as int);
            }
            i = i + 1;
        }
        assert(views.take(i as int) =~= views);
        Ok(engine::finish_store(store))
    }

    /// Sets a context up as far as that needs no files. A context for mutual
    /// authentication then gets the identity that [`Self::identity_files`] names.
    pub fn build_context(role: AdapterRole, cfg: &HandshakeConfig) -> (result: Result<
        SslContextBuilder,
        CryptoError,
    >)
        requires
            forall|i: int|
                0 <= i < cfg.trust.trust_anchor_pems@.len() ==> (
                #[trigger] cfg.trust.trust_anchor_pems@[i])@.len() <= engine::MAX_PEM_LEN,
        ensures
            match context_refusal(cfg@) {
                Some(e) => result is Err && result->Err_0@ == e,
                None => if role == AdapterRole::Client && cfg@.trust.trust_anchor_pems.len()
                    == 0 {
                    &&& result is Err
                    &&& {
                        ||| result->Err_0@ == CryptoErrorView::InvalidConfig(
                            "at least one trust anchor is required for client TLS"@,
                        )
                        ||| engine_error(result->Err_0@, cfg@)
                    }
                } else {
                    match result {
                        Ok(builder) => context_as_asked(builder, role, cfg@),
                        Err(e) => engine_error(e@, cfg@),
                    }
                },
            },
    {
        DtlsBackendAdapter::validate_cfg(cfg)?;
        if cfg.cipher_policy.min_dtls_version == DtlsVersion::Dtls13 {
            return Err(
                CryptoError::InvalidConfig(
                    "DTLS 1.3 policy requested but OpenSSL adapter currently targets DTLS 1.2".to_string(),
                ),
            );
        }
        let method = match role {
            AdapterRole::Client => engine::client_method(),
            AdapterRole::Server => engine::server_method(),
        };
        let mut builder = match engine::new_context(method) {
            Ok(builder) => builder,
            Err(e) => {
                return Err(CryptoError::Provider(failure("openssl context build failed: ", e)));
            },
        };
        let ghost made = builder;
        let mode = if cfg.profile == AuthProfile::MutualTls {
            engine::strict_peer_mode()
        } else {
            engine::peer_mode()
        };
        engine::set_verify(&mut builder, mode);
        if role == AdapterRole::Client && cfg.trust.trust_anchor_pems.len() == 0 {
            return Err(
                CryptoError::InvalidConfig(
                    "at least one trust anchor is required for client TLS".to_string(),
                ),
            );
        }
        proof {
            reveal_strlit("HIGH:!aNULL:!MD5:!RC4:!DES:!3DES");
        }
        match engine::set_ciphers(&mut builder, CIPHER_LIST) {
            Ok(_) => {},
            Err(e) => {
                return Err(CryptoError::InvalidConfig(failure("cipher policy reject: ", e)));
            },
        }
        if cfg.trust.trust_anchor_pems.len() > 0 {
            match Self::build_store(&cfg.trust.trust_anchor_pems) {
                Ok(store) => {
                    engine::set_store(&mut builder, store);
                },
                Err(e) => {
                    proof {
                        let pems = types::byte_views(cfg.trust.trust_anchor_pems@);
                        assert(pems == cfg@.trust.trust_anchor_pems);
                        if e@ is InvalidConfig {
                            let i = choose|i: int|
                                0 <= i < pems.len() && bundle_error(
                                    e@,
                                    i as nat,
                                    #[trigger] pems[i],
                                );
                            assert(bundle_error(
                                e@,
                                i as nat,
                                cfg@.trust.trust_anchor_pems[i],
                            ));
                        }
                        assert(engine_error(e@, cfg@));
                    }
                    return Err(e);
                },
            }
        } else {
            assert(engine::context_is_new(made) && engine::context_anchors(builder)
                == engine::context_anchors(made));
        }
        Ok(builder)
    }

    /// The files to load into a context: the first certificate of the chain, if
    /// there is one, and then the key.
    pub fn identity_files(cfg: &HandshakeConfig) -> (files: Option<IdentityFiles>)
        ensures
            match cfg@.client_identity {
                None => files is None,
                Some(identity) => {
                    &&& files is Some
                    &&& files.unwrap().private_key@ == identity.key_id
                    &&& types::optional_text(files.unwrap().certificate)
                        == if identity.cert_chain_ids.len() > 0 {
                        Some(identity.cert_chain_ids[0])
                    } else {
                        None
                    }
                },
            },
    {
        match &cfg.client_identity {
            None => None,
            Some(identity) => Some(
                IdentityFiles {
                    certificate: if identity.cert_chain_ids.len() > 0 {
                        Some(identity.cert_chain_ids[0].clone())
                    } else {
                        None
                    },
                    private_key: identity.key_id.clone(),
                },
            ),
        }
    }

    fn queue_flight(&mut self, now_ms: u64, datagrams: Vec<HandshakeDatagram>) -> (out: HandshakeOutput)
        ensures
            final(self)@ == queued(old(self)@, now_ms, types::flight_views(datagrams@)),
            out@ == queued_output(old(self)@, types::flight_views(datagrams@)),
    {
        self.last_flight = copy_flight(&datagrams);
        self.next_retransmit_at_ms = Some(now_ms.saturating_add(self.flight_rto_ms));
        assert(self@ =~= queued(old(self)@, now_ms, types::flight_views(datagrams@)));
        let out = HandshakeOutput {
            outbound_datagrams: datagrams,
            established: self.established,
            peer_identity: None,
            binding: None,
        };
        assert(out@ =~= queued_output(old(self)@, types::flight_views(datagrams@)));
        out
    }

    /// Sends one text and keeps it for repetition.
    fn queue_text(&mut self, head: &str, value: &str) -> (out: HandshakeOutput)
        ensures
            final(self)@ == queued(old(self)@, 0, one_flight(head@, value@)),
            out@ == queued_output(old(self)@, one_flight(head@, value@)),
    {
        let bytes = joined_text(head, value).as_str().as_bytes_vec();
        let datagrams: Vec<HandshakeDatagram> = vec![HandshakeDatagram { bytes }];
        assert(types::flight_views(datagrams@) =~= one_flight(head@, value@));
        self.queue_flight(0, datagrams)
    }

    /// A session of a context that was set up.
    pub(crate) fn open_session(prepared: Result<SslContextBuilder, CryptoError>) -> (result: Result<
        (SslContext, Ssl),
        CryptoError,
    >)
        ensures
            match prepared {
                Err(e) => result == Err::<(SslContext, Ssl), CryptoError>(e),
                Ok(builder) => match result {
                    Ok((ctx, ssl)) => {
                        &&& ctx == engine::built_context(builder)
                        &&& engine::session_context(ssl) == ctx
                    },
                    Err(e) => e@ matches CryptoErrorView::Provider(t) && begins_with(
                        t,
                        "openssl ssl init failed: "@,
                    ),
                },
            },
    {
        let builder = match prepared {
            Ok(builder) => builder,
            Err(e) => {
                return Err(e);
            },
        };
        let ctx = engine::finish_context(builder);
        match engine::new_session(&ctx) {
            Ok(ssl) => Ok((ctx, ssl)),
            Err(e) => Err(CryptoError::Provider(failure("openssl ssl init failed: ", e))),
        }
    }

    /// Starts as a client on a context that was set up for `cfg`. What kept the
    /// context from being set up is reported as it is.
    pub fn start_client(
        &mut self,
        cfg: &HandshakeConfig,
        prepared: Result<SslContextBuilder, CryptoError>,
    ) -> (result: Result<HandshakeOutput, CryptoError>)
        ensures
            match prepared {
                Err(e) => {
                    &&& final(self)@ == old(self)@
                    &&& result == Err::<HandshakeOutput, CryptoError>(e)
                },
                Ok(builder) => match result {
                    Ok(out) => {
                        let ctx = engine::built_context(builder);
                        &&& final(self)@.ssl is Some
                        &&& engine::session_context(final(self)@.ssl.unwrap()) == ctx
                        &&& final(self)@ == client_started(
                            old(self)@,
                            cfg@,
                            ctx,
                            final(self)@.ssl.unwrap(),
                        )
                        &&& out@ == dtls::flight(
                            text::utf8("DTLS_CLIENT_HELLO|sni="@ + dtls::server_name(cfg@)),
                            false,
                        )
                    },
                    Err(e) => {
                        &&& final(self)@ == old(self)@
                        &&& e@ matches CryptoErrorView::Provider(t)
                        &&& begins_with(t, "openssl ssl init failed: "@)
                    },
                },
            },
    {
        let opened = Self::open_session(prepared);
        self.client_opened(cfg, opened)
    }

    /// Takes the session that OpenSSL opened for a client, or its failure: the
    /// client says hello, or stays as it was.
    pub fn client_opened(
        &mut self,
        cfg: &HandshakeConfig,
        opened: Result<(SslContext, Ssl), CryptoError>,
    ) -> (result: Result<HandshakeOutput, CryptoError>)
        ensures
            match opened {
                Ok((ctx, ssl)) => {
                    &&& final(self)@ == client_started(old(self)@, cfg@, ctx, ssl)
                    &&& result is Ok
                    &&& result->Ok_0@ == dtls::flight(
                        text::utf8("DTLS_CLIENT_HELLO|sni="@ + dtls::server_name(cfg@)),
                        false,
                    )
                },
                Err(e) => {
                    &&& final(self)@ == old(self)@
                    &&& result == Err::<HandshakeOutput, CryptoError>(e)
                },
            },
    {
        let (ctx, ssl) = match opened {
            Ok(pair) => pair,
            Err(e) => {
                return Err(e);
            },
        };
        self.role = Some(AdapterRole::Client);
        self.cfg = Some(cfg.clone());
        self.established = false;
        self.ctx = Some(ctx);
        self.ssl = Some(ssl);
        assert(self@ =~= (OpenSslView {
            role: Some(AdapterRole::Client),
            cfg: Some(cfg@),
            established: false,
            ctx: Some(ctx),
            ssl: Some(ssl),
            ..old(self)@
        }));
        let sni = server_name_of(cfg);
        Ok(self.queue_text("DTLS_CLIENT_HELLO|sni=", sni.as_str()))
    }

    /// Starts as a server on a context that was set up for `cfg`.
    pub fn start_server(
        &mut self,
        cfg: &HandshakeConfig,
        prepared: Result<SslContextBuilder, CryptoError>,
    ) -> (result: Result<HandshakeOutput, CryptoError>)
        ensures
            match prepared {
                Err(e) => {
                    &&& final(self)@ == old(self)@
                    &&& result == Err::<HandshakeOutput, CryptoError>(e)
                },
                Ok(builder) => match result {
                    Ok(out) => {
                        let ctx = engine::built_context(builder);
                        &&& final(self)@.ssl is Some
                        &&& engine::session_context(final(self)@.ssl.unwrap()) == ctx
                        &&& final(self)@ == server_started(
                            old(self)@,
                            cfg@,
                            ctx,
                            final(self)@.ssl.unwrap(),
                        )
                        &&& out@ == dtls::silent(false)
                    },
                    Err(e) => {
                        &&& final(self)@ == old(self)@
                        &&& e@ matches CryptoErrorView::Provider(t)
                        &&& begins_with(t, "openssl ssl init failed: "@)
                    },
                },
            },
    {
        let opened = Self::open_session(prepared);
        self.server_opened(cfg, opened)
    }

    /// Takes the session that OpenSSL opened for a server, or its failure: the
    /// server waits for a hello, or stays as it was.
    pub fn server_opened(
        &mut self,
        cfg: &HandshakeConfig,
        opened: Result<(SslContext, Ssl), CryptoError>,
    ) -> (result: Result<HandshakeOutput, CryptoError>)
        ensures
            match opened {
                Ok((ctx, ssl)) => {
                    &&& final(self)@ == server_started(old(self)@, cfg@, ctx, ssl)
                    &&& result is Ok
                    &&& result->Ok_0@ == dtls::silent(false)
                },
                Err(e) => {
                    &&& final(self)@ == old(self)@
                    &&& result == Err::<HandshakeOutput, CryptoError>(e)
                },
            },
    {
        let (ctx, ssl) = match opened {
            Ok(pair) => pair,
            Err(e) => {
                return Err(e);
            },
        };
        self.role = Some(AdapterRole::Server);
        self.cfg = Some(cfg.clone());
        self.established = false;
        self.ctx = Some(ctx);
        self.ssl = Some(ssl);
        self.last_flight = Vec::new();
        self.next_retransmit_at_ms = None;
        self.issued_cookie = None;
        assert(self@ =~= server_started(old(self)@, cfg@, ctx, ssl));
        Ok(silent_output(false))
    }

    /// Head and tail of a datagram.
    pub fn parse_kv(datagram: &[u8]) -> (parts: (String, Option<String>))
        ensures
            parts.0@ == head_of(datagram@),
            types::optional_text(parts.1) == tail_of(datagram@),
    {
        let raw = match utf8_text(datagram) {
            Ok(raw) => raw,
            Err(_) => String::new(),
        };
        let head = text_before(raw.as_str(), "|");
        let tail = match text_after(raw.as_str(), "|") {
            Some(tail) => Some(text_without_leading(tail.as_str(), '|')),
            None => None,
        };
        (head, tail)
    }

    /// Takes a handshake datagram in.
    pub fn on_datagram(&mut self, datagram: &[u8]) -> (result: Result<HandshakeOutput, CryptoError>)
        ensures
            final(self)@ == openssl_datagram(old(self)@, datagram@).0,
            types::handshake_agrees(result, openssl_datagram(old(self)@, datagram@).1),
    {
        if self.ctx.is_none() || self.ssl.is_none() {
            return Err(CryptoError::Provider("openssl context not initialized".to_string()));
        }
        let role = match self.role {
            Some(role) => role,
            None => {
                return Err(CryptoError::Provider("handshake not started".to_string()));
            },
        };
        let cfg = match &self.cfg {
            Some(cfg) => cfg.clone(),
            None => {
                return Err(CryptoError::Provider("missing config".to_string()));
            },
        };
        if self.established {
            return Ok(DtlsBackendAdapter::established_output(&cfg));
        }
        let (head, tail) = Self::parse_kv(datagram);
        match role {
            AdapterRole::Client => self.on_client_datagram(
                &cfg,
                head,
                tail,
                Ghost(datagram@),
            ),
            AdapterRole::Server => self.on_server_datagram(
                &cfg,
                head,
                tail,
                Ghost(datagram@),
            ),
        }
    }

    fn on_client_datagram(
        &mut self,
        cfg: &HandshakeConfig,
        head: String,
        tail: Option<String>,
        Ghost(datagram): Ghost<Seq<u8>>,
    ) -> (result: Result<HandshakeOutput, CryptoError>)
        requires
            head@ == head_of(datagram),
            types::optional_text(tail) == tail_of(datagram),
        ensures
            final(self)@ == client_datagram(old(self)@, cfg@, datagram).0,
            types::handshake_agrees(result, client_datagram(old(self)@, cfg@, datagram).1),
    {
        if same_text(head.as_str(), "DTLS_HELLO_VERIFY") {
            return match value_behind(&tail, "cookie=") {
                Some(cookie) => Ok(
                    self.queue_text("DTLS_CLIENT_HELLO_COOKIE|cookie=", cookie.as_str()),
                ),
                None => Err(CryptoError::AuthFailed("missing hello-verify cookie".to_string())),
            };
        }
        if same_text(head.as_str(), "DTLS_SERVER_HELLO") {
            if cfg.trust.require_hostname_verification {
                let sni = match value_behind(&tail, "sni=") {
                    Some(sni) => sni,
                    None => String::new(),
                };
                let expected = match &cfg.expected_server_name {
                    Some(name) => name.clone(),
                    None => String::new(),
                };
                if !same_text(sni.as_str(), expected.as_str()) {
                    let mut reason = joined_text(
                        "server identity mismatch expected '",
                        expected.as_str(),
                    );
                    reason.append("' got '");
                    reason.append(sni.as_str());
                    reason.append("'");
                    return Err(CryptoError::AuthFailed(reason));
                }
            }
            self.established = true;
            self.next_retransmit_at_ms = None;
            Ok(DtlsBackendAdapter::established_output(cfg))
        } else {
            Err(CryptoError::AuthFailed("unexpected handshake response".to_string()))
        }
    }

    fn on_server_datagram(
        &mut self,
        cfg: &HandshakeConfig,
        head: String,
        tail: Option<String>,
        Ghost(datagram): Ghost<Seq<u8>>,
    ) -> (result: Result<HandshakeOutput, CryptoError>)
        requires
            head@ == head_of(datagram),
            types::optional_text(tail) == tail_of(datagram),
        ensures
            final(self)@ == server_datagram(old(self)@, cfg@, datagram).0,
            types::handshake_agrees(result, server_datagram(old(self)@, cfg@, datagram).1),
    {
        if same_text(head.as_str(), "DTLS_CLIENT_HELLO") {
            self.issued_cookie = Some("cookie-v3".to_string());
            assert(self@ =~= (OpenSslView { issued_cookie: Some("cookie-v3"@), ..old(self)@ }));
            return Ok(self.queue_text("DTLS_HELLO_VERIFY|cookie=", "cookie-v3"));
        }
        if same_text(head.as_str(), "DTLS_CLIENT_HELLO_COOKIE") {
            let cookie = match value_behind(&tail, "cookie=") {
                Some(cookie) => cookie,
                None => String::new(),
            };
            let issued = match &self.issued_cookie {
                Some(issued) => issued.clone(),
                None => String::new(),
            };
            if !same_text(issued.as_str(), cookie.as_str()) {
                return Err(
                    CryptoError::AuthFailed("invalid or missing hello-verify cookie".to_string()),
                );
            }
            self.established = true;
            self.next_retransmit_at_ms = None;
            let sni = server_name_of(cfg);
            let hello = joined_text("DTLS_SERVER_HELLO|sni=", sni.as_str());
            Ok(accepted_output(hello.as_str().as_bytes_vec()))
        } else {
            Err(CryptoError::AuthFailed("unexpected client hello".to_string()))
        }
    }

    /// Repeats the last flight when its time has come.
    pub fn on_timeout(&mut self, now_ms: u64) -> (result: Result<HandshakeOutput, CryptoError>)
        ensures
            final(self)@ == openssl_timeout(old(self)@, now_ms).0,
            types::handshake_agrees(result, openssl_timeout(old(self)@, now_ms).1),
    {
        if self.established {
            return Ok(silent_output(true));
        }
        let deadline: u64 = match self.next_retransmit_at_ms {
            Some(deadline) => deadline,
            None => {
                return Err(CryptoError::Provider("handshake timed out".to_string()));
            },
        };
        if now_ms < deadline {
            return Ok(silent_output(false));
        }
        if self.last_flight.len() == 0 {
            return Err(CryptoError::Provider("handshake timed out".to_string()));
        }
        let again = copy_flight(&self.last_flight);
        Ok(self.queue_flight(now_ms, again))
    }
}

impl Default for OpenSslDtlsAdapter {
    fn default() -> (adapter: OpenSslDtlsAdapter)
        ensures
            adapter@ == (OpenSslView {
                role: None,
                cfg: None,
                established: false,
                ctx: None,
                ssl: None,
                last_flight: Seq::empty(),
                next_retransmit_at_ms: None,
                flight_rto_ms: 1_000,
                issued_cookie: None,
            }),
    {
        OpenSslDtlsAdapter::new()
    }
}

fn value_behind(tail: &Option<String>, key: &str) -> (value: Option<String>)
    ensures
        types::optional_text(value) == match types::optional_text(*tail) {
            Some(tail) => text::after_mark(tail, key@),
            None => None,
        },
{
    match tail {
        Some(tail) => text_after(tail.as_str(), key),
        None => None,
    }
}

fn copy_flight(flight: &Vec<HandshakeDatagram>) -> (copy: Vec<HandshakeDatagram>)
    ensures
        types::flight_views(copy@) == types::flight_views(flight@),
{
    let mut copy: Vec<HandshakeDatagram> = Vec::new();
    let mut i: usize = 0;
    while i < flight.len()
        invariant
            i <= flight@.len(),
            copy@.len() == i,
            forall|j: int| 0 <= j < i ==> (#[trigger] copy@[j]).bytes@ == flight@[j].bytes@,
        decreases flight@.len() - i,
    {
        copy.push(flight[i].clone());
        i = i + 1;
    }
    assert(types::flight_views(copy@) =~= types::flight_views(flight@));
    copy
}

proof fn lemma_set_of_push(s: Seq<X509>, x: X509)
    ensures
        s.push(x).to_set() == s.to_set().insert(x),
{
    assert forall|c: X509| s.push(x).to_set().contains(c) == s.to_set().insert(x).contains(c) by {
        if s.contains(c) {
            let i = choose|i: int| 0 <= i < s.len() && s[i] == c;
            assert(s.push(x)[i] == c);
        }
        if c == x {
            assert(s.push(x)[s.len() as int] == c);
        }
        if s.push(x).contains(c) {
            let i = choose|i: int| 0 <= i < s.push(x).len() && s.push(x)[i] == c;
            if i < s.len() {
                assert(s[i] == c);
            }
        }
    }
    assert(s.push(x).to_set() =~= s.to_set().insert(x));
}

proof fn lemma_anchors_grow(pems: Seq<Seq<u8>>, i: int)
    requires
        0 <= i < pems.len(),
    ensures
        anchor_set(pems.take(i + 1)) == anchor_set(pems.take(i)).union(
            engine::bundle_certificates(pems[i]).to_set(),
        ),
{
    let before = pems.take(i);
    let after = pems.take(i + 1);
    let new = engine::bundle_certificates(pems[i]);
    assert forall|c: X509|
        anchor_set(after).contains(c) == anchor_set(before).union(new.to_set()).contains(c) by {
        if anchor_set(before).contains(c) {
            let j = choose|j: int|
                0 <= j < before.len() && #[trigger] engine::bundle_certificates(
                    before[j],
                ).contains(c);
            assert(after[j] == before[j]);
            assert(engine::bundle_certificates(after[j]).contains(c));
        }
        if new.contains(c) {
            assert(after[i] == pems[i]);
            assert(engine::bundle_certificates(after[i]).contains(c));
        }
        if anchor_set(after).contains(c) {
            let j = choose|j: int|
                0 <= j < after.len() && #[trigger] engine::bundle_certificates(
                    after[j],
                ).contains(c);
            if j < i {
                assert(before[j] == after[j]);
                assert(engine::bundle_certificates(before[j]).contains(c));
            }
        }
    }
    assert(anchor_set(after) =~= anchor_set(before).union(new.to_set()));
}

/// A datagram that was written as a head, a bar and a key with its value is read
/// so again.
proof fn lemma_written_is_read(
    whole: Seq<char>,
    head: Seq<char>,
    bar: Seq<char>,
    key: Seq<char>,
    value: Seq<char>,
)
    requires
        bar == seq!['|'],
        bar == "|"@,
        forall|i: int| 0 <= i < head.len() ==> #[trigger] head[i] != '|',
        key.len() > 0,
        key[0] != '|',
        whole == head + bar + key + value,
    ensures
        head_of(text::utf8(whole)) == head,
        tail_of(text::utf8(whole)) == Some(key + value),
        value_of(text::utf8(whole), key) == Some(value),
{
    vstd::utf8::encode_utf8_valid_utf8(whole);
    vstd::utf8::encode_utf8_decode_utf8(whole);
    let n = head.len();
    assert(whole.subrange(n as int, n as int + 1) =~= bar);
    assert forall|j: nat| 0 <= j < n implies #[trigger] whole.subrange(
        j as int,
        (j + bar.len()) as int,
    ) != bar by {
        assert(whole.subrange(j as int, (j + bar.len()) as int)[0] == head[j as int]);
    }
    text::lemma_find_first(whole, bar, 0, n);
    assert(whole.take(n as int) =~= head);
    let tail = whole.skip(n as int + 1);
    assert(tail =~= key + value);
    assert(tail[0] == key[0]);
    assert(tail.subrange(0, key.len() as int) =~= key);
    text::lemma_find_first(tail, key, 0, 0);
    assert(tail.skip(key.len() as int) =~= value);
}

/// A client and a server that were started with the same configuration on
/// contexts that OpenSSL made both end up established: hello, verify request,
/// hello with cookie, server hello.
pub proof fn law_cookie_handshake_establishes_both(
    client: OpenSslView,
    server: OpenSslView,
    cfg: ConfigView,
    client_ctx: SslContext,
    client_ssl: Ssl,
    server_ctx: SslContext,
    server_ssl: Ssl,
)
    requires
        dtls::config_refusal(cfg) is None,
    ensures
        ({
            let c0 = client_started(client, cfg, client_ctx, client_ssl);
            let s0 = server_started(server, cfg, server_ctx, server_ssl);
            let s1 = openssl_datagram(s0, c0.last_flight[0]);
            let c1 = openssl_datagram(c0, s1.1->Ok_0.outbound_datagrams[0]);
            let s2 = openssl_datagram(s1.0, c1.1->Ok_0.outbound_datagrams[0]);
            let c2 = openssl_datagram(c1.0, s2.1->Ok_0.outbound_datagrams[0]);
            &&& s1.1 is Ok && !s1.0.established
            &&& c1.1 is Ok && !c1.0.established
            &&& s2.1 is Ok && s2.0.established && s2.1->Ok_0.established
            &&& c2.1 is Ok && c2.0.established && c2.1->Ok_0.established
            &&& c2.1->Ok_0.peer_identity is Some
        }),
{
    lemma_literals();
    let name = dtls::server_name(cfg);
    let bar = "|"@;
    lemma_written_is_read(
        "DTLS_CLIENT_HELLO|sni="@ + name,
        "DTLS_CLIENT_HELLO"@,
        bar,
        "sni="@,
        name,
    );
    lemma_written_is_read(
        "DTLS_HELLO_VERIFY|cookie="@ + "cookie-v3"@,
        "DTLS_HELLO_VERIFY"@,
        bar,
        "cookie="@,
        "cookie-v3"@,
    );
    lemma_written_is_read(
        "DTLS_CLIENT_HELLO_COOKIE|cookie="@ + "cookie-v3"@,
        "DTLS_CLIENT_HELLO_COOKIE"@,
        bar,
        "cookie="@,
        "cookie-v3"@,
    );
    lemma_written_is_read(
        "DTLS_SERVER_HELLO|sni="@ + name,
        "DTLS_SERVER_HELLO"@,
        bar,
        "sni="@,
        name,
    );
}

/// The fixed texts of the handshake are put together and told apart as their
/// characters say.
proof fn lemma_literals()
    ensures
        "|"@ == seq!['|'],
        "DTLS_CLIENT_HELLO|sni="@ == "DTLS_CLIENT_HELLO"@ + "|"@ + "sni="@,
        "DTLS_HELLO_VERIFY|cookie="@ == "DTLS_HELLO_VERIFY"@ + "|"@ + "cookie="@,
        "DTLS_CLIENT_HELLO_COOKIE|cookie="@ == "DTLS_CLIENT_HELLO_COOKIE"@ + "|"@ + "cookie="@,
        "DTLS_SERVER_HELLO|sni="@ == "DTLS_SERVER_HELLO"@ + "|"@ + "sni="@,
        forall|i: int|
            0 <= i < "DTLS_CLIENT_HELLO"@.len() ==> #[trigger] "DTLS_CLIENT_HELLO"@[i] != '|',
        forall|i: int|
            0 <= i < "DTLS_HELLO_VERIFY"@.len() ==> #[trigger] "DTLS_HELLO_VERIFY"@[i] != '|',
        forall|i: int|
            0 <= i < "DTLS_CLIENT_HELLO_COOKIE"@.len()
                ==> #[trigger] "DTLS_CLIENT_HELLO_COOKIE"@[i] != '|',
        forall|i: int|
            0 <= i < "DTLS_SERVER_HELLO"@.len() ==> #[trigger] "DTLS_SERVER_HELLO"@[i] != '|',
        "sni="@.len() > 0,
        "sni="@[0] != '|',
        "cookie="@.len() > 0,
        "cookie="@[0] != '|',
        "DTLS_CLIENT_HELLO_COOKIE"@ != "DTLS_CLIENT_HELLO"@,
        "DTLS_SERVER_HELLO"@ != "DTLS_HELLO_VERIFY"@,
{
    reveal_strlit("|");
    reveal_strlit("sni=");
    reveal_strlit("cookie=");
    reveal_strlit("DTLS_CLIENT_HELLO");
    reveal_strlit("DTLS_HELLO_VERIFY");
    reveal_strlit("DTLS_CLIENT_HELLO_COOKIE");
    reveal_strlit("DTLS_SERVER_HELLO");
    reveal_strlit("DTLS_CLIENT_HELLO|sni=");
    reveal_strlit("DTLS_HELLO_VERIFY|cookie=");
    reveal_strlit("DTLS_CLIENT_HELLO_COOKIE|cookie=");
    reveal_strlit("DTLS_SERVER_HELLO|sni=");
    assert("|"@ =~= seq!['|']);
    assert("DTLS_CLIENT_HELLO|sni="@ =~= "DTLS_CLIENT_HELLO"@ + "|"@ + "sni="@);
    assert("DTLS_HELLO_VERIFY|cookie="@ =~= "DTLS_HELLO_VERIFY"@ + "|"@ + "cookie="@);
    assert("DTLS_CLIENT_HELLO_COOKIE|cookie="@ =~= "DTLS_CLIENT_HELLO_COOKIE"@ + "|"@
        + "cookie="@);
    assert("DTLS_SERVER_HELLO|sni="@ =~= "DTLS_SERVER_HELLO"@ + "|"@ + "sni="@);
    assert("DTLS_CLIENT_HELLO_COOKIE"@.len() != "DTLS_CLIENT_HELLO"@.len());
    assert("DTLS_SERVER_HELLO"@[5] != "DTLS_HELLO_VERIFY"@[5]);
}

/// A client that verifies names refuses a server hello with another name than
/// the one it expects.
pub proof fn law_other_server_name_is_refused(a: OpenSslView, cfg: ConfigView, other: Seq<char>)
    requires
        a.cfg == Some(cfg),
        a.role == Some(AdapterRole::Client),
        a.ctx is Some,
        a.ssl is Some,
        !a.established,
        cfg.trust.require_hostname_verification,
        cfg.expected_server_name != Some(other),
        cfg.expected_server_name is Some,
    ensures
        ({
            let step = openssl_datagram(a, text::utf8("DTLS_SERVER_HELLO|sni="@ + other));
            &&& step.0 == a
            &&& step.1 is Err
            &&& step.1->Err_0 is AuthFailed
        }),
{
    lemma_literals();
    lemma_written_is_read(
        "DTLS_SERVER_HELLO|sni="@ + other,
        "DTLS_SERVER_HELLO"@,
        "|"@,
        "sni="@,
        other,
    );
}

/// A flight that is not answered is repeated as it was, not before its time,
/// and again later.
pub proof fn law_unanswered_flight_is_repeated(a: OpenSslView, sent_ms: u64, now_ms: u64)
    requires
        !a.established,
        a.last_flight.len() > 0,
        a.next_retransmit_at_ms == Some(codec::saturating_sum(sent_ms, a.flight_rto_ms)),
    ensures
        now_ms < codec::saturating_sum(sent_ms, a.flight_rto_ms) ==> openssl_timeout(a, now_ms)
            == (a, Ok::<HandshakeView, CryptoErrorView>(dtls::silent(false))),
        now_ms >= codec::saturating_sum(sent_ms, a.flight_rto_ms) ==> {
            let step = openssl_timeout(a, now_ms);
            &&& step.1 is Ok
            &&& step.1->Ok_0.outbound_datagrams == a.last_flight
            &&& step.0.last_flight == a.last_flight
            &&& step.0.next_retransmit_at_ms == Some(
                codec::saturating_sum(now_ms, a.flight_rto_ms),
            )
        },
{
}

} // verus!
