//! Keyed SipHash-2-4 digests, computed by the `siphasher` crate.

use siphasher::sip::SipHasher;
use std::hash::Hasher;
use vstd::prelude::*;

verus! {

/// `siphasher::sip::SipHasher`, a streaming SipHash-2-4 state.
#[verifier::external_type_specification]
#[verifier::external_body]
pub struct ExSipHasher(SipHasher);

/// The bytes written to a hasher so far, in the order they were written.
pub uninterp spec fn hasher_input(hasher: SipHasher) -> Seq<u8>;

/// The two keys a hasher was made with.
pub uninterp spec fn hasher_keys(hasher: SipHasher) -> (u64, u64);

/// The SipHash-2-4 digest of `input` under the keys `k0` and `k1`.
pub uninterp spec fn sip_digest(k0: u64, k1: u64, input: Seq<u8>) -> u64;

/// `SipHasher::new_with_keys`: a hasher with the given keys that has read
/// nothing yet.
#[verifier::external_body]
pub(crate) fn keyed_hasher(k0: u64, k1: u64) -> (hasher: SipHasher)
    ensures
        hasher_keys(hasher) == (k0, k1),
        hasher_input(hasher) == Seq::<u8>::empty(),
{
    SipHasher::new_with_keys(k0, k1)
}

/// `Hasher::write` on a `SipHasher`: appends `bytes` to what the hasher has
/// read and leaves its keys alone.
#[verifier::external_body]
pub(crate) fn hasher_write(hasher: &mut SipHasher, bytes: &[u8])
    ensures
        hasher_keys(*final(hasher)) == hasher_keys(*old(hasher)),
        hasher_input(*final(hasher)) == hasher_input(*old(hasher)) + bytes@,
{
    hasher.write(bytes)
}

/// `Hasher::finish` on a `SipHasher`: the digest of everything written, under
/// the hasher's keys. The digest depends on nothing else.
#[verifier::external_body]
pub(crate) fn hasher_finish(hasher: &SipHasher) -> (digest: u64)
    ensures
        digest == sip_digest(hasher_keys(*hasher).0, hasher_keys(*hasher).1, hasher_input(*hasher)),
{
    hasher.finish()
}

} // verus!
