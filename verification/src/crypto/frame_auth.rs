//! Frame authentication with HMAC-SHA-256 behind a replay window.

use hmac::{Hmac, Mac};
use sha2::Sha256;
use vstd::prelude::*;

use crate::big_endian;
use crate::big_endian::append_be;
use crate::crypto::policy::{ReplayWindow, WindowView};
use crate::crypto::types::{CryptoError, CryptoErrorView, FrameAuthHook};
use crate::text;
use crate::text::text_with_number;

verus! {

/// The HMAC-SHA-256 tag of a message under a key.
pub uninterp spec fn hmac_sha256(key: Seq<u8>, message: Seq<u8>) -> Seq<u8>;

/// `Hmac::<Sha256>`, keyed with `new_from_slice`, fed with `update` and read
/// with `finalize`: the tag of the message. A key of any length is taken, so
/// there always is one.
#[verifier::external_body]
pub(crate) fn hmac_sha256_tag(key: &[u8; 32], message: &[u8]) -> (tag: Option<Vec<u8>>)
    ensures
        tag is Some,
        tag.unwrap()@ == hmac_sha256(key@, message@),
{
    match Hmac::<Sha256>::new_from_slice(key) {
        Ok(mut mac) => {
            mac.update(message);
            Some(mac.finalize().into_bytes().to_vec())
        },
        Err(_) => None,
    }
}

/// `Hmac::<Sha256>`, keyed and fed in the same way and asked with
/// `verify_slice`, which compares in constant time: whether `tag` is all of the
/// message's tag.
#[verifier::external_body]
pub(crate) fn hmac_sha256_matches(key: &[u8; 32], message: &[u8], tag: &[u8]) -> (matches: Option<
    bool,
>)
    ensures
        matches == Some(tag@ == hmac_sha256(key@, message@)),
{
    match Hmac::<Sha256>::new_from_slice(key) {
        Ok(mut mac) => {
            mac.update(message);
            Some(mac.verify_slice(tag).is_ok())
        },
        Err(_) => None,
    }
}

#[derive(Debug, Clone, PartialEq, Eq)]
pub struct HmacSha256FrameAuth {
    pub key: [u8; 32],
    pub replay_window: ReplayWindow,
}

/// What a frame's tag is made over.
pub open spec fn signed_message(sequence: u64, cid: u64, path_id: u32, payload: Seq<u8>) -> Seq<
    u8,
> {
    big_endian::be_bytes(sequence as nat, 8) + big_endian::be_bytes(cid as nat, 8)
        + big_endian::be_bytes(path_id as nat, 4) + big_endian::be_bytes(payload.len(), 8)
        + payload
}

/// Frames that differ in number, connection, path or payload are signed as
/// different messages.
pub proof fn law_signed_messages_differ(
    s1: u64,
    c1: u64,
    p1: u32,
    a: Seq<u8>,
    s2: u64,
    c2: u64,
    p2: u32,
    b: Seq<u8>,
)
    requires
        a.len() <= u64::MAX,
        b.len() <= u64::MAX,
        signed_message(s1, c1, p1, a) == signed_message(s2, c2, p2, b),
    ensures
        s1 == s2,
        c1 == c2,
        p1 == p2,
        a == b,
{
    let m1 = signed_message(s1, c1, p1, a);
    let m2 = signed_message(s2, c2, p2, b);
    big_endian::lemma_be_range_values();
    big_endian::lemma_be_value_of_bytes(s1 as nat, 8);
    big_endian::lemma_be_value_of_bytes(c1 as nat, 8);
    big_endian::lemma_be_value_of_bytes(p1 as nat, 4);
    big_endian::lemma_be_value_of_bytes(a.len(), 8);
    big_endian::lemma_be_value_of_bytes(s2 as nat, 8);
    big_endian::lemma_be_value_of_bytes(c2 as nat, 8);
    big_endian::lemma_be_value_of_bytes(p2 as nat, 4);
    big_endian::lemma_be_value_of_bytes(b.len(), 8);
    assert(m1.subrange(0, 8) =~= big_endian::be_bytes(s1 as nat, 8));
    assert(m2.subrange(0, 8) =~= big_endian::be_bytes(s2 as nat, 8));
    assert(m1.subrange(8, 16) =~= big_endian::be_bytes(c1 as nat, 8));
    assert(m2.subrange(8, 16) =~= big_endian::be_bytes(c2 as nat, 8));
    assert(m1.subrange(16, 20) =~= big_endian::be_bytes(p1 as nat, 4));
    assert(m2.subrange(16, 20) =~= big_endian::be_bytes(p2 as nat, 4));
    assert(m1.skip(28) =~= a);
    assert(m2.skip(28) =~= b);
}

fn message_to_sign(sequence: u64, cid: u64, path_id: u32, payload: &[u8]) -> (message: Vec<u8>)
    ensures
        message@ == signed_message(sequence, cid, path_id, payload@),
{
    let mut message: Vec<u8> = Vec::new();
    append_be(&mut message, sequence, 8);
    append_be(&mut message, cid, 8);
    append_be(&mut message, path_id as u64, 4);
    append_be(&mut message, payload.len() as u64, 8);
    message.extend_from_slice(payload);
    assert(message@ =~= signed_message(sequence, cid, path_id, payload@));
    message
}

/// What verifying a frame does to the window, and how it comes out. The number
/// is used up before the tag is looked at.
pub open spec fn verify_step(
    key: Seq<u8>,
    window: WindowView,
    sequence: u64,
    message: Seq<u8>,
    tag: Seq<u8>,
) -> (WindowView, Result<(), CryptoErrorView>) {
    if !window.accepts(sequence) {
        (
            window,
            Err(
                CryptoErrorView::AuthFailed(
                    "replay rejected for sequence="@ + text::decimal(sequence as nat),
                ),
            ),
        )
    } else if tag != hmac_sha256(key, message) {
        (window.after(sequence), Err(CryptoErrorView::AuthFailed("frame auth tag mismatch"@)))
    } else {
        (window.after(sequence), Ok(()))
    }
}

/// What the signer made is taken by a verifier with the same key, unless the
/// number is spent; and once a number was used, whatever came with it, a frame
/// with that number is refused.
pub proof fn law_signed_frames_verify_once(
    key: Seq<u8>,
    window: WindowView,
    sequence: u64,
    message: Seq<u8>,
    tag: Seq<u8>,
    again: Seq<u8>,
    again_tag: Seq<u8>,
)
    requires
        window.window_size >= 1,
    ensures
        window.accepts(sequence) ==> verify_step(
            key,
            window,
            sequence,
            message,
            hmac_sha256(key, message),
        ).1 == Ok::<(), CryptoErrorView>(()),
        verify_step(
            key,
            verify_step(key, window, sequence, message, tag).0,
            sequence,
            again,
            again_tag,
        ).1 is Err,
{
}

impl HmacSha256FrameAuth {
    pub fn new(key: [u8; 32], replay_window_size: u64) -> (auth: HmacSha256FrameAuth)
        ensures
            auth.wf(),
            auth.key == key,
            auth.replay_window@ == (WindowView {
                max_seen: 0,
                window_size: if replay_window_size < 1 {
                    1
                } else if replay_window_size > 128 {
                    128
                } else {
                    replay_window_size
                },
                recent: Set::empty(),
            }),
    {
        HmacSha256FrameAuth { key, replay_window: ReplayWindow::new(replay_window_size) }
    }

    fn sign_inner(key: &[u8; 32], sequence: u64, cid: u64, path_id: u32, payload: &[u8]) -> (result:
        Result<Vec<u8>, CryptoError>)
        ensures
            result is Ok,
            result->Ok_0@ == hmac_sha256(
                key@,
                signed_message(sequence, cid, path_id, payload@),
            ),
    {
        let message = message_to_sign(sequence, cid, path_id, payload);
        match hmac_sha256_tag(key, &message) {
            Some(tag) => Ok(tag),
            None => Err(CryptoError::Provider("hmac init failed".to_string())),
        }
    }
}

impl FrameAuthHook for HmacSha256FrameAuth {
    open spec fn wf(&self) -> bool {
        self.replay_window.wf()
    }

    fn sign(&self, sequence: u64, cid: u64, path_id: u32, payload: &[u8]) -> (result: Result<
        Vec<u8>,
        CryptoError,
    >)
        ensures
            result is Ok,
            result->Ok_0@ == hmac_sha256(
                self.key@,
                signed_message(sequence, cid, path_id, payload@),
            ),
    {
        Self::sign_inner(&self.key, sequence, cid, path_id, payload)
    }

    fn verify(&mut self, sequence: u64, cid: u64, path_id: u32, payload: &[u8], tag: &[u8]) -> (result:
        Result<(), CryptoError>)
        ensures
            final(self).wf(),
            final(self).key == old(self).key,
            ({
                let step = verify_step(
                    old(self).key@,
                    old(self).replay_window@,
                    sequence,
                    signed_message(sequence, cid, path_id, payload@),
                    tag@,
                );
                &&& final(self).replay_window@ == step.0
                &&& match (result, step.1) {
                    (Ok(_), Ok(_)) => true,
                    (Err(got), Err(expected)) => got@ == expected,
                    _ => false,
                }
            }),
    {
        if !self.replay_window.accept(sequence) {
            return Err(
                CryptoError::AuthFailed(
                    text_with_number("replay rejected for sequence=", sequence),
                ),
            );
        }
        let message = message_to_sign(sequence, cid, path_id, payload);
        match hmac_sha256_matches(&self.key, &message, tag) {
            Some(true) => Ok(()),
            Some(false) => Err(CryptoError::AuthFailed("frame auth tag mismatch".to_string())),
            None => Err(CryptoError::Provider("hmac init failed".to_string())),
        }
    }
}

} // verus!
