//! The parts of OpenSSL that a DTLS context is put together from.

use openssl::error::ErrorStack;
use openssl::ssl::{Ssl, SslContext, SslContextBuilder, SslMethod, SslVerifyMode};
use openssl::x509::store::{X509Store, X509StoreBuilder};
use openssl::x509::X509;
use vstd::prelude::*;

verus! {

/// `openssl::error::ErrorStack`, the errors of a failed call.
#[verifier::external_type_specification]
#[verifier::external_body]
pub struct ExErrorStack(openssl::error::ErrorStack);

/// `openssl::ssl::SslContextBuilder`, a context that is being set up.
#[verifier::external_type_specification]
#[verifier::external_body]
pub struct ExSslContextBuilder(openssl::ssl::SslContextBuilder);

/// `openssl::ssl::SslContext`, a finished context.
#[verifier::external_type_specification]
#[verifier::external_body]
pub struct ExSslContext(openssl::ssl::SslContext);

/// `openssl::ssl::Ssl`, a session of a context.
#[verifier::external_type_specification]
#[verifier::external_body]
pub struct ExSsl(openssl::ssl::Ssl);

/// `openssl::x509::X509`, a certificate.
#[verifier::external_type_specification]
#[verifier::external_body]
pub struct ExX509(openssl::x509::X509);

/// `openssl::x509::store::X509StoreBuilder`, a set of trusted certificates that
/// is being filled.
#[verifier::external_type_specification]
#[verifier::external_body]
pub struct ExX509StoreBuilder(openssl::x509::store::X509StoreBuilder);

/// `openssl::x509::store::X509Store`, a set of trusted certificates.
#[verifier::external_type_specification]
#[verifier::external_body]
pub struct ExX509Store(openssl::x509::store::X509Store);

/// `openssl::ssl::SslMethod`, a protocol and a side.
#[verifier::external_type_specification]
#[verifier::external_body]
pub struct ExSslMethod(openssl::ssl::SslMethod);

/// `openssl::ssl::SslVerifyMode`, how a peer is verified.
#[verifier::external_type_specification]
#[verifier::external_body]
pub struct ExSslVerifyMode(openssl::ssl::SslVerifyMode);

/// Whether a method is for the server's side.
pub uninterp spec fn method_is_server(method: SslMethod) -> bool;

/// Whether a method is for DTLS.
pub uninterp spec fn method_is_dtls(method: SslMethod) -> bool;

/// Whether a mode verifies the certificate that a peer shows.
pub uninterp spec fn mode_verifies_peer(mode: SslVerifyMode) -> bool;

/// Whether a mode fails a peer that shows no certificate.
pub uninterp spec fn mode_demands_certificate(mode: SslVerifyMode) -> bool;

/// Whether a context is as it was made, with nothing set.
pub uninterp spec fn context_is_new(builder: SslContextBuilder) -> bool;

/// Whether a context is set up for DTLS.
pub uninterp spec fn context_is_dtls(builder: SslContextBuilder) -> bool;

/// Whether a context is set up for the server's side.
pub uninterp spec fn context_is_server(builder: SslContextBuilder) -> bool;

/// Whether a context verifies the certificate that a peer shows.
pub uninterp spec fn context_verifies_peer(builder: SslContextBuilder) -> bool;

/// Whether a context fails a peer that shows no certificate.
pub uninterp spec fn context_demands_certificate(builder: SslContextBuilder) -> bool;

/// The cipher list that a context was given.
pub uninterp spec fn context_ciphers(builder: SslContextBuilder) -> Seq<char>;

/// The trusted certificates that a context was given.
pub uninterp spec fn context_anchors(builder: SslContextBuilder) -> Set<X509>;

/// The certificates in a set that is being filled.
pub uninterp spec fn filling_store(builder: X509StoreBuilder) -> Set<X509>;

/// The certificates in a finished set.
pub uninterp spec fn filled_store(store: X509Store) -> Set<X509>;

/// The certificates in a PEM bundle, in order.
pub uninterp spec fn bundle_certificates(pem: Seq<u8>) -> Seq<X509>;

/// The context that a builder makes.
pub uninterp spec fn built_context(builder: SslContextBuilder) -> SslContext;

/// The context that a session belongs to.
pub uninterp spec fn session_context(ssl: Ssl) -> SslContext;

/// The longest buffer that OpenSSL reads from.
pub const MAX_PEM_LEN: usize = 0x7fff_ffff;

/// `SslMethod::dtls_client`: DTLS as a client.
#[verifier::external_body]
pub(crate) fn client_method() -> (method: SslMethod)
    ensures
        method_is_dtls(method),
        !method_is_server(method),
{
    SslMethod::dtls_client()
}

/// `SslMethod::dtls_server`: DTLS as a server.
#[verifier::external_body]
pub(crate) fn server_method() -> (method: SslMethod)
    ensures
        method_is_dtls(method),
        method_is_server(method),
{
    SslMethod::dtls_server()
}

/// `SslContextBuilder::new`: a context for the method's protocol and side, with
/// nothing set. Whether one can be made is up to OpenSSL.
#[verifier::external_body]
pub(crate) fn new_context(method: SslMethod) -> (result: Result<SslContextBuilder, ErrorStack>)
    ensures
        result matches Ok(builder) ==> context_is_new(builder),
        result matches Ok(builder) ==> context_is_dtls(builder) == method_is_dtls(method),
        result matches Ok(builder) ==> context_is_server(builder) == method_is_server(method),
{
    SslContextBuilder::new(method)
}

/// `SslVerifyMode::PEER`: the peer's certificate is verified if it shows one.
#[verifier::external_body]
pub(crate) fn peer_mode() -> (mode: SslVerifyMode)
    ensures
        mode_verifies_peer(mode),
        !mode_demands_certificate(mode),
{
    SslVerifyMode::PEER
}

/// `SslVerifyMode::PEER` with `SslVerifyMode::FAIL_IF_NO_PEER_CERT`: the peer has
/// to show a certificate, which is verified.
#[verifier::external_body]
pub(crate) fn strict_peer_mode() -> (mode: SslVerifyMode)
    ensures
        mode_verifies_peer(mode),
        mode_demands_certificate(mode),
{
    SslVerifyMode::PEER | SslVerifyMode::FAIL_IF_NO_PEER_CERT
}

/// `SslContextBuilder::set_verify`: sets the mode and nothing else.
#[verifier::external_body]
pub(crate) fn set_verify(builder: &mut SslContextBuilder, mode: SslVerifyMode)
    ensures
        context_verifies_peer(*final(builder)) == mode_verifies_peer(mode),
        context_demands_certificate(*final(builder)) == mode_demands_certificate(mode),
        context_is_dtls(*final(builder)) == context_is_dtls(*old(builder)),
        context_is_server(*final(builder)) == context_is_server(*old(builder)),
        context_ciphers(*final(builder)) == context_ciphers(*old(builder)),
        context_anchors(*final(builder)) == context_anchors(*old(builder)),
{
    builder.set_verify(mode)
}

/// `SslContextBuilder::set_cipher_list`: sets the list, if OpenSSL knows a
/// cipher in it, and nothing else. A list with a zero character is not taken.
#[verifier::external_body]
pub(crate) fn set_ciphers(builder: &mut SslContextBuilder, list: &str) -> (result: Result<
    (),
    ErrorStack,
>)
    requires
        forall|i: int| 0 <= i < list@.len() ==> #[trigger] list@[i] != '\0',
    ensures
        result is Ok ==> context_ciphers(*final(builder)) == list@,
        context_is_dtls(*final(builder)) == context_is_dtls(*old(builder)),
        context_verifies_peer(*final(builder)) == context_verifies_peer(*old(builder)),
        context_is_server(*final(builder)) == context_is_server(*old(builder)),
        context_demands_certificate(*final(builder)) == context_demands_certificate(
            *old(builder),
        ),
        context_anchors(*final(builder)) == context_anchors(*old(builder)),
{
    builder.set_cipher_list(list)
}

/// `X509StoreBuilder::new`: a set with nothing in it, if OpenSSL has one.
#[verifier::external_body]
pub(crate) fn new_store() -> (result: Result<X509StoreBuilder, ErrorStack>)
    ensures
        result matches Ok(builder) ==> filling_store(builder) == Set::<X509>::empty(),
{
    X509StoreBuilder::new()
}

/// `X509::stack_from_pem`: the certificates in a bundle, which may be none.
/// Whether the bundle is readable is up to OpenSSL.
#[verifier::external_body]
pub(crate) fn read_bundle(pem: &[u8]) -> (result: Result<Vec<X509>, ErrorStack>)
    requires
        pem@.len() <= MAX_PEM_LEN,
    ensures
        result matches Ok(certificates) ==> certificates@ == bundle_certificates(pem@),
{
    X509::stack_from_pem(pem)
}

/// `X509StoreBuilderRef::add_cert`: adds the certificate, if OpenSSL takes it.
#[verifier::external_body]
pub(crate) fn add_certificate(builder: &mut X509StoreBuilder, certificate: X509) -> (result: Result<
    (),
    ErrorStack,
>)
    ensures
        result is Ok ==> filling_store(*final(builder)) == filling_store(*old(builder)).insert(
            certificate,
        ),
{
    builder.add_cert(certificate)
}

/// `X509StoreBuilder::build`: the set as it was filled.
#[verifier::external_body]
pub(crate) fn finish_store(builder: X509StoreBuilder) -> (store: X509Store)
    ensures
        filled_store(store) == filling_store(builder),
{
    builder.build()
}

/// `SslContextBuilder::set_cert_store`: sets the trusted certificates and
/// nothing else.
#[verifier::external_body]
pub(crate) fn set_store(builder: &mut SslContextBuilder, store: X509Store)
    ensures
        context_anchors(*final(builder)) == filled_store(store),
        context_is_dtls(*final(builder)) == context_is_dtls(*old(builder)),
        context_verifies_peer(*final(builder)) == context_verifies_peer(*old(builder)),
        context_is_server(*final(builder)) == context_is_server(*old(builder)),
        context_demands_certificate(*final(builder)) == context_demands_certificate(
            *old(builder),
        ),
        context_ciphers(*final(builder)) == context_ciphers(*old(builder)),
{
    builder.set_cert_store(store)
}

/// `SslContextBuilder::build`: the context as it was set up.
#[verifier::external_body]
pub(crate) fn finish_context(builder: SslContextBuilder) -> (context: SslContext)
    ensures
        context == built_context(builder),
{
    builder.build()
}

/// `Ssl::new`: a session of the context, if OpenSSL has one.
#[verifier::external_body]
pub(crate) fn new_session(context: &SslContext) -> (result: Result<Ssl, ErrorStack>)
    ensures
        result matches Ok(ssl) ==> session_context(ssl) == *context,
{
    Ssl::new(context)
}

} // verus!
