//! Bytes as base64 text, by the `base64` crate.

use base64::Engine;
use vstd::prelude::*;
use vstd::slice::slice_subrange;
use vstd::string::StringExecFns;

verus! {

/// The character for six bits.
pub open spec fn base64_char(bits: int) -> char {
    if bits < 26 {
        ('A' as int + bits) as char
    } else if bits < 52 {
        ('a' as int + bits - 26) as char
    } else if bits < 62 {
        ('0' as int + bits - 52) as char
    } else if bits == 62 {
        '+'
    } else {
        '/'
    }
}

/// Bytes in base64 with the standard alphabet and padding: four characters for
/// each three bytes, the last of them filled up with `=`.
pub open spec fn base64_of(bytes: Seq<u8>) -> Seq<char>
    decreases bytes.len(),
{
    if bytes.len() == 0 {
        Seq::empty()
    } else if bytes.len() == 1 {
        seq![
            base64_char(bytes[0] as int / 4),
            base64_char(bytes[0] as int % 4 * 16),
            '=',
            '=',
        ]
    } else if bytes.len() == 2 {
        seq![
            base64_char(bytes[0] as int / 4),
            base64_char(bytes[0] as int % 4 * 16 + bytes[1] as int / 16),
            base64_char(bytes[1] as int % 16 * 4),
            '=',
        ]
    } else {
        seq![
            base64_char(bytes[0] as int / 4),
            base64_char(bytes[0] as int % 4 * 16 + bytes[1] as int / 16),
            base64_char(bytes[1] as int % 16 * 4 + bytes[2] as int / 64),
            base64_char(bytes[2] as int % 64),
        ] + base64_of(bytes.skip(3))
    }
}

/// The longest piece that is encoded at once: a multiple of three whose text is
/// far from the longest that a string can be.
pub const PIECE_LEN: usize = 0x300_0000;

/// `base64::Engine::encode` of `base64::engine::general_purpose::STANDARD`: the
/// bytes in base64 with the standard alphabet and padding. It cannot encode what
/// makes a text longer than a string can be.
#[verifier::external_body]
pub(crate) fn encode_piece(bytes: &[u8]) -> (out: String)
    requires
        bytes@.len() <= PIECE_LEN,
    ensures
        out@ == base64_of(bytes@),
{
    base64::engine::general_purpose::STANDARD.encode(bytes)
}

/// Bytes in base64.
pub fn base64_text(bytes: &[u8]) -> (out: String)
    ensures
        out@ == base64_of(bytes@),
{
    let count: usize = bytes.len();
    let mut out = String::new();
    let mut at: usize = 0;
    assert(bytes@.skip(0) =~= bytes@);
    assert(out@ + base64_of(bytes@) =~= base64_of(bytes@));
    while count - at > PIECE_LEN
        invariant
            at <= count,
            count == bytes@.len(),
            out@ + base64_of(bytes@.skip(at as int)) == base64_of(bytes@),
        decreases count - at,
    {
        let piece = encode_piece(slice_subrange(bytes, at, at + PIECE_LEN));
        let ghost rest = bytes@.skip(at as int);
        let ghost before = out@;
        proof {
            lemma_base64_split(rest, PIECE_LEN as int);
            assert(rest.take(PIECE_LEN as int) =~= bytes@.subrange(
                at as int,
                at + PIECE_LEN as int,
            ));
            assert(rest.skip(PIECE_LEN as int) =~= bytes@.skip(at + PIECE_LEN as int));
        }
        out.append(piece.as_str());
        at = at + PIECE_LEN;
        assert(out@ + base64_of(bytes@.skip(at as int)) =~= before + base64_of(rest));
    }
    let piece = encode_piece(slice_subrange(bytes, at, count));
    assert(bytes@.subrange(at as int, count as int) =~= bytes@.skip(at as int));
    out.append(piece.as_str());
    out
}

/// Bytes can be encoded in pieces whose lengths are multiples of three.
proof fn lemma_base64_split(bytes: Seq<u8>, at: int)
    requires
        0 <= at <= bytes.len(),
        at % 3 == 0,
    ensures
        base64_of(bytes) == base64_of(bytes.take(at)) + base64_of(bytes.skip(at)),
    decreases bytes.len(),
{
    if at == 0 {
        assert(bytes.skip(0) =~= bytes);
        assert(base64_of(bytes.take(0)) =~= Seq::<char>::empty());
        assert(base64_of(bytes) =~= base64_of(bytes.take(0)) + base64_of(bytes.skip(0)));
    } else {
        let rest = bytes.skip(3);
        lemma_base64_split(rest, at - 3);
        assert(bytes.take(at).skip(3) =~= rest.take(at - 3));
        assert(bytes.skip(at) =~= rest.skip(at - 3));
        assert(base64_of(bytes) =~= base64_of(bytes.take(at)) + base64_of(bytes.skip(at)));
    }
}

/// The text has four characters for each three bytes begun.
pub proof fn law_base64_len(bytes: Seq<u8>)
    ensures
        base64_of(bytes).len() == (bytes.len() + 2) / 3 * 4,
    decreases bytes.len(),
{
    if bytes.len() > 2 {
        law_base64_len(bytes.skip(3));
    }
}

} // verus!
