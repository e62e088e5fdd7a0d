//! The hash that tells bytes apart in logs.

use std::hash::{DefaultHasher, Hash, Hasher};

use vstd::prelude::*;

verus! {

/// That handing bytes to a hasher takes it from the writes `before` to the writes
/// `after`. Which writes these are differs between machines: the length goes in as
/// wide as a machine's word.
pub uninterp spec fn feeds(before: Seq<Seq<u8>>, bytes: Seq<u8>, after: Seq<Seq<u8>>) -> bool;

/// That a number is the hash of some bytes, on one machine or another.
pub open spec fn is_hash(bytes: Seq<u8>, hash: u64) -> bool {
    exists|writes: Seq<Seq<u8>>| #[trigger]
        feeds(Seq::empty(), bytes, writes) && hash
            == <DefaultHasher as vstd::std_specs::hash::DefaultHasherAdditionalSpecFns>::spec_finish(
            writes,
        )
}

/// `std::hash::Hash::hash` of a byte slice: hands the bytes to the hasher. That the
/// same bytes lead to the same writes is not claimed, for it holds on one kind of
/// machine only.
#[verifier::external_body]
pub(crate) fn feed(hasher: &mut DefaultHasher, bytes: &[u8])
    ensures
        feeds(old(hasher)@, bytes@, final(hasher)@),
{
    bytes.hash(hasher)
}

/// The hash of some bytes.
pub(crate) fn hash64(bytes: &[u8]) -> (hash: u64)
    ensures
        is_hash(bytes@, hash),
{
    let mut hasher = DefaultHasher::new();
    feed(&mut hasher, bytes);
    hasher.finish()
}

} // verus!
