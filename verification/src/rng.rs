//! The seeded generator behind a peer's random choices: the `XorShiftRng` of
//! `rand_xorshift`, driven through `rand`, with seeds laid out by `byteorder`.

use crate::peer_id::PeerId;
use byteorder::{ByteOrder, LittleEndian};
use rand::seq::SliceRandom;
use rand::{Rng, SeedableRng};
use rand_xorshift::XorShiftRng;
use vstd::bytes::spec_u64_to_le_bytes;
use vstd::prelude::*;

verus! {

/// `rand_xorshift::XorShiftRng`, the state of a xorshift generator.
#[verifier::external_type_specification]
#[verifier::external_body]
pub struct ExXorShiftRng(XorShiftRng);

/// The state of a generator: what its stream from here on depends on.
pub uninterp spec fn generator_state(rng: XorShiftRng) -> Seq<u32>;

/// The state that `XorShiftRng::from_seed` gives a generator made of the
/// sixteen bytes `seed`.
pub uninterp spec fn seeded_state(seed: Seq<u8>) -> Seq<u32>;

/// The sixteen seed bytes that stand for a 64-bit seed: the seed itself, least
/// significant byte first, then eight zero bytes.
pub open spec fn seed_bytes(seed: u64) -> Seq<u8> {
    spec_u64_to_le_bytes(seed) + Seq::new(8, |i: int| 0u8)
}

/// `LittleEndian::write_u64`: writes `n` into the first eight bytes of `buf`,
/// least significant byte first, and leaves the other eight as they were.
#[verifier::external_body]
pub(crate) fn write_u64_le(buf: &mut [u8; 16], n: u64)
    ensures
        final(buf)@ == spec_u64_to_le_bytes(n) + old(buf)@.subrange(8, 16),
{
    LittleEndian::write_u64(&mut buf[..], n)
}

/// `XorShiftRng::from_seed`: a generator whose state is fixed by the seed
/// bytes and by nothing else.
#[verifier::external_body]
pub(crate) fn rng_from_seed(seed: [u8; 16]) -> (rng: XorShiftRng)
    ensures
        generator_state(rng) == seeded_state(seed@),
{
    XorShiftRng::from_seed(seed)
}

/// `SliceRandom::shuffle`: reorders `ids` in place; the same identifiers are
/// there afterwards, each as often as before.
#[verifier::external_body]
pub(crate) fn shuffle(ids: &mut Vec<PeerId>, rng: &mut XorShiftRng)
    ensures
        final(ids)@.to_multiset() == old(ids)@.to_multiset(),
{
    ids.shuffle(rng)
}

/// `Rng::gen` at `u64`: the next 64 bits of the generator's stream.
#[verifier::external_body]
pub(crate) fn next_u64(rng: &mut XorShiftRng) -> u64 {
    rng.gen()
}

/// `Rng::fill` on a byte slice: overwrites `dest` with the next bytes of the
/// generator's stream.
#[verifier::external_body]
pub(crate) fn fill_bytes<const B: usize>(rng: &mut XorShiftRng, dest: &mut [u8; B]) {
    rng.fill(&mut dest[..])
}

/// A generator seeded with `seed`, laid out little-endian in the first eight
/// of sixteen seed bytes, the rest zero.
pub(crate) fn seeded_rng(seed: u64) -> (rng: XorShiftRng)
    ensures
        generator_state(rng) == seeded_state(seed_bytes(seed)),
{
    let mut bytes: [u8; 16] = [0u8; 16];
    write_u64_le(&mut bytes, seed);
    assert(bytes@ =~= seed_bytes(seed));
    rng_from_seed(bytes)
}

} // verus!
