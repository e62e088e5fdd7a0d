//! What holds of the security policy and of the handshakes: who is let in, and who is
//! not.

use vstd::prelude::*;

use crate::big_endian;
use crate::crypto::dtls;
use crate::crypto::dtls::{AdapterRole, AdapterView};
use crate::crypto::frame_auth;
use crate::crypto::openssl_dtls;
use crate::crypto::openssl_dtls::OpenSslView;
use crate::crypto::policy;
use crate::crypto::policy::{AntiAmplificationGate, ExpiryAlarmLevel, WindowView};
use crate::crypto::types::{AuthProfile, ConfigView, DtlsVersion};
use crate::text;

verus! {

/// A configuration is taken exactly if it allows no weak suites, names the server where
/// the name is to be verified, and has an identity where both sides authenticate. The
/// OpenSSL adapter takes it only for DTLS 1.2.
pub proof fn law_sound_configurations_are_taken(cfg: ConfigView)
    ensures
        ({
            let named = cfg.expected_server_name is Some && !text::is_blank(
                cfg.expected_server_name->0,
            );
            let sound = {
                &&& !cfg.cipher_policy.allow_weak_suites
                &&& cfg.trust.require_hostname_verification ==> named
                &&& cfg.profile == AuthProfile::MutualTls ==> cfg.client_identity is Some
            };
            &&& dtls::config_refusal(cfg) is None <==> sound
            &&& openssl_dtls::context_refusal(cfg) is None <==> sound
                && cfg.cipher_policy.min_dtls_version != DtlsVersion::Dtls13
            &&& dtls::config_refusal(cfg) matches Some(e) ==> e is InvalidConfig
            &&& openssl_dtls::context_refusal(cfg) matches Some(e) ==> e is InvalidConfig
        }),
{
}

/// An adapter is established by the hello it waits for and by nothing else: a client by
/// the server's, a server by the client's, which it answers. Anything else fails and
/// changes nothing, and what is established stays so.
pub proof fn law_adapter_takes_only_the_awaited_hello(a: AdapterView, datagram: Seq<u8>)
    ensures
        ({
            let (after, result) = dtls::adapter_datagram(a, datagram);
            let awaited = if a.role == Some(AdapterRole::Client) {
                text::utf8("DTLS_SERVER_HELLO"@)
            } else {
                text::utf8("DTLS_CLIENT_HELLO"@)
            };
            let running = a.role is Some && a.cfg is Some;
            &&& result is Ok <==> running && (a.established || datagram == awaited)
            &&& after == (AdapterView {
                established: a.established || (running && datagram == awaited),
                ..a
            })
            &&& result matches Ok(out) ==> out.established
            &&& running && !a.established && datagram == awaited && a.role == Some(
                AdapterRole::Server,
            ) ==> result->Ok_0.outbound_datagrams == seq![text::utf8("DTLS_SERVER_HELLO"@)]
            &&& running && !a.established && a.role == Some(AdapterRole::Client) && datagram
                == awaited ==> result->Ok_0.outbound_datagrams.len() == 0
            &&& running && !a.established && datagram != awaited ==> result->Err_0 is AuthFailed
            &&& !running ==> result->Err_0 is Provider
        }),
{
}

/// That an OpenSSL adapter is in the middle of its handshake.
pub open spec fn is_underway(a: OpenSslView, role: AdapterRole) -> bool {
    &&& a.ctx is Some
    &&& a.ssl is Some
    &&& a.role == Some(role)
    &&& a.cfg is Some
    &&& !a.established
}

/// A server lets a client in exactly with the cookie that it gave out; its first hello is
/// answered with a cookie and lets nobody in, and anything else fails.
pub proof fn law_server_lets_in_by_cookie(a: OpenSslView, datagram: Seq<u8>)
    requires
        is_underway(a, AdapterRole::Server),
        a.issued_cookie is Some,
    ensures
        ({
            let (after, result) = openssl_dtls::openssl_datagram(a, datagram);
            let head = openssl_dtls::head_of(datagram);
            let cookie = openssl_dtls::value_of(datagram, "cookie="@);
            let given = match cookie {
                Some(cookie) => cookie,
                None => Seq::<char>::empty(),
            };
            let greeted = head == "DTLS_CLIENT_HELLO"@;
            let shown = !greeted && head == "DTLS_CLIENT_HELLO_COOKIE"@ && given
                == a.issued_cookie->0;
            &&& after.established <==> shown
            &&& result is Ok <==> greeted || shown
            &&& result is Err ==> after == a && result->Err_0 is AuthFailed
            &&& shown ==> {
                &&& result->Ok_0.established
                &&& result->Ok_0.outbound_datagrams == seq![
                    text::utf8("DTLS_SERVER_HELLO|sni="@ + dtls::server_name(a.cfg->0)),
                ]
            }
            &&& greeted ==> {
                &&& !result->Ok_0.established
                &&& after.issued_cookie is Some
                &&& result->Ok_0.outbound_datagrams == seq![
                    text::utf8("DTLS_HELLO_VERIFY|cookie="@ + after.issued_cookie->0),
                ]
                &&& after.last_flight == result->Ok_0.outbound_datagrams
                &&& after.next_retransmit_at_ms is Some
            }
        }),
{
}

/// A client is let in by the server's hello, and where the name is to be verified only if
/// that names the expected server. It shows the cookie it is given; anything else fails.
pub proof fn law_client_trusts_the_expected_server(a: OpenSslView, datagram: Seq<u8>)
    requires
        is_underway(a, AdapterRole::Client),
    ensures
        ({
            let (after, result) = openssl_dtls::openssl_datagram(a, datagram);
            let cfg = a.cfg->0;
            let head = openssl_dtls::head_of(datagram);
            let cookie = openssl_dtls::value_of(datagram, "cookie="@);
            let sni = openssl_dtls::value_of(datagram, "sni="@);
            let named = match sni {
                Some(name) => name,
                None => Seq::<char>::empty(),
            };
            let expected = match cfg.expected_server_name {
                Some(name) => name,
                None => Seq::<char>::empty(),
            };
            let asked = head == "DTLS_HELLO_VERIFY"@;
            let greeted = !asked && head == "DTLS_SERVER_HELLO"@ && (
            cfg.trust.require_hostname_verification ==> named == expected);
            &&& after.established <==> greeted
            &&& result is Ok <==> greeted || (asked && cookie is Some)
            &&& result is Err ==> after == a && result->Err_0 is AuthFailed
            &&& asked && cookie is Some ==> {
                &&& result->Ok_0.outbound_datagrams == seq![
                    text::utf8("DTLS_CLIENT_HELLO_COOKIE|cookie="@ + cookie->0),
                ]
                &&& !result->Ok_0.established
                &&& after.last_flight == result->Ok_0.outbound_datagrams
                &&& after.next_retransmit_at_ms is Some
            }
            &&& greeted ==> result->Ok_0.established && after.next_retransmit_at_ms is None
        }),
{
}

/// What is established stays so with every datagram and every timeout; what was not
/// started is refused.
pub proof fn law_established_stays_established(a: OpenSslView, datagram: Seq<u8>, now_ms: u64)
    ensures
        a.established ==> openssl_dtls::openssl_datagram(a, datagram).0 == a,
        a.established ==> openssl_dtls::openssl_timeout(a, now_ms).0 == a,
        a.established ==> openssl_dtls::openssl_timeout(a, now_ms).1 is Ok,
        a.established ==> openssl_dtls::openssl_timeout(
            a,
            now_ms,
        ).1->Ok_0.outbound_datagrams.len() == 0,
        a.ctx is None || a.ssl is None || a.role is None || a.cfg is None ==> {
            &&& openssl_dtls::openssl_datagram(a, datagram).0 == a
            &&& openssl_dtls::openssl_datagram(a, datagram).1 is Err
        },
        !a.established && a.next_retransmit_at_ms is None ==> openssl_dtls::openssl_timeout(
            a,
            now_ms,
        ).1 is Err,
        !a.established && a.next_retransmit_at_ms is Some && now_ms < a.next_retransmit_at_ms->0
            ==> openssl_dtls::openssl_timeout(a, now_ms).0 == a && openssl_dtls::openssl_timeout(
            a,
            now_ms,
        ).1 is Ok && openssl_dtls::openssl_timeout(a, now_ms).1->Ok_0.outbound_datagrams.len()
            == 0,
{
}

/// A number is refused only if it was accepted before or lies behind the window. Accepting
/// one number spends no other that the window still reaches.
pub proof fn law_only_seen_or_old_numbers_are_refused(
    window: WindowView,
    sequence: u64,
    other: u64,
)
    ensures
        window.accepts(sequence) <==> sequence > window.max_seen || (sequence > window.max_seen
            - window.window_size && !window.recent.contains(sequence)),
        ({
            let after = window.after(sequence);
            &&& after.window_size == window.window_size
            &&& after.max_seen >= window.max_seen
            &&& after.max_seen >= sequence
            &&& after.max_seen == sequence || after.max_seen == window.max_seen
            &&& other != sequence && window.accepts(other) && other > after.max_seen
                - window.window_size && !window.recent.contains(other) ==> after.accepts(other)
        }),
{
}

/// Of a peer that is not authenticated, just as much may leave as the factor times what
/// came in; of one that is, anything.
pub proof fn law_output_within_the_factor_may_leave(gate: AntiAmplificationGate, bytes: u64)
    requires
        gate.bytes_out + bytes <= u64::MAX,
        gate.bytes_in * gate.amplification_factor <= u64::MAX,
    ensures
        gate.authenticated ==> gate.allows(bytes),
        !gate.authenticated ==> (gate.allows(bytes) <==> gate.bytes_out + bytes <= gate.bytes_in
            * gate.amplification_factor),
{
}

/// The alarm for a certificate: from thirty, fourteen and seven days before its end on,
/// and at its end.
pub proof fn law_alarm_comes_in_time(now_ms: u64, not_after_ms: u64)
    ensures
        ({
            let level = policy::alarm_level(now_ms, not_after_ms);
            let left = not_after_ms - now_ms;
            &&& level == ExpiryAlarmLevel::Expired <==> left <= 0
            &&& level == ExpiryAlarmLevel::Critical7d <==> 0 < left <= 604_800_000
            &&& level == ExpiryAlarmLevel::High14d <==> 604_800_000 < left <= 1_209_600_000
            &&& level == ExpiryAlarmLevel::Warning30d <==> 1_209_600_000 < left <= 2_592_000_000
            &&& level == ExpiryAlarmLevel::NoAlarm <==> left > 2_592_000_000
        }),
{
}

/// The overlap of two certificates begins with the later beginning and ends with the
/// earlier end.
pub proof fn law_overlap_is_when_both_are_valid(a: u64, b: u64, moment: u64)
    ensures
        moment >= policy::later_of(a, b) <==> moment >= a && moment >= b,
        moment <= policy::earlier_of(a, b) <==> moment <= a && moment <= b,
        policy::later_of(a, b) == a || policy::later_of(a, b) == b,
        policy::earlier_of(a, b) == a || policy::earlier_of(a, b) == b,
{
}

/// Revoking one fingerprint revokes no other, and twice is as good as once.
pub proof fn law_only_the_named_is_revoked(
    list: Seq<Seq<char>>,
    fingerprint: Seq<char>,
    other: Seq<char>,
)
    ensures
        policy::with_revoked(list, fingerprint).contains(other) ==> list.contains(other) || other
            == text::lowered(fingerprint),
        list.no_duplicates() ==> policy::with_revoked(list, fingerprint).no_duplicates(),
{
    let after = policy::with_revoked(list, fingerprint);
    if after.contains(other) {
        let i = choose|i: int| 0 <= i < after.len() && after[i] == other;
        if i < list.len() {
            assert(list[i] == other);
        }
    }
}

/// A frame is taken exactly if its number is new and its tag is that of its message under
/// the key. A number that is looked at is used up, and nothing else is.
pub proof fn law_only_the_right_tag_is_taken(
    key: Seq<u8>,
    window: WindowView,
    sequence: u64,
    message: Seq<u8>,
    tag: Seq<u8>,
)
    ensures
        ({
            let (after, outcome) = frame_auth::verify_step(key, window, sequence, message, tag);
            &&& outcome is Ok <==> window.accepts(sequence) && tag == frame_auth::hmac_sha256(
                key,
                message,
            )
            &&& outcome is Err ==> outcome->Err_0 is AuthFailed
            &&& after == if window.accepts(sequence) {
                window.after(sequence)
            } else {
                window
            }
        }),
{
}

/// What a tag is made over: the number, the connection, the path, the payload's length and
/// the payload.
pub proof fn law_tag_covers_the_frame(sequence: u64, cid: u64, path_id: u32, payload: Seq<u8>)
    requires
        payload.len() <= u64::MAX,
    ensures
        ({
            let message = frame_auth::signed_message(sequence, cid, path_id, payload);
            &&& message.len() == 28 + payload.len()
            &&& big_endian::be_value(message.subrange(0, 8)) == sequence
            &&& big_endian::be_value(message.subrange(8, 16)) == cid
            &&& big_endian::be_value(message.subrange(16, 20)) == path_id
            &&& big_endian::be_value(message.subrange(20, 28)) == payload.len()
            &&& message.skip(28) == payload
        }),
{
    let message = frame_auth::signed_message(sequence, cid, path_id, payload);
    big_endian::lemma_be_range_values();
    big_endian::lemma_be_value_of_bytes(sequence as nat, 8);
    big_endian::lemma_be_value_of_bytes(cid as nat, 8);
    big_endian::lemma_be_value_of_bytes(path_id as nat, 4);
    big_endian::lemma_be_value_of_bytes(payload.len(), 8);
    assert(message.subrange(0, 8) =~= big_endian::be_bytes(sequence as nat, 8));
    assert(message.subrange(8, 16) =~= big_endian::be_bytes(cid as nat, 8));
    assert(message.subrange(16, 20) =~= big_endian::be_bytes(path_id as nat, 4));
    assert(message.subrange(20, 28) =~= big_endian::be_bytes(payload.len(), 8));
    assert(message.skip(28) =~= payload);
}

} // verus!
