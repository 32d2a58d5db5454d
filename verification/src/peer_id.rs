//! Peer identifiers and their embedding into `u64`.

use vstd::prelude::*;

verus! {

/// Identifies a peer: publicly reachable peers and private ones are numbered
/// separately.
#[derive(Copy, Clone, Debug, Hash, PartialEq, Eq, Structural)]
pub enum PeerId {
    Public(u32),
    Private(u32),
}

impl PeerId {
    /// The number that stands for this identifier: `i + 1` for `Public(i)` and
    /// `(i + 1) * 2^16` for `Private(i)`.
    pub open spec fn encoding(self) -> int {
        match self {
            PeerId::Public(i) => i + 1,
            PeerId::Private(i) => (i + 1) * 0x1_0000,
        }
    }

    /// The identifier that a number stands for: below `2^16` a public peer,
    /// from there on a private one.
    pub open spec fn decoding(v: int) -> PeerId {
        if v < 0x1_0000 {
            PeerId::Public((v - 1) as u32)
        } else {
            PeerId::Private((v / 0x1_0000 - 1) as u32)
        }
    }

    /// The numbers that `decoding` maps to an identifier without leaving the
    /// range of `u32`.
    pub open spec fn decodable(v: int) -> bool {
        1 <= v && v / 0x1_0000 <= 0x1_0000_0000
    }

    /// Identifiers that `decoding` recovers from their `encoding`: every
    /// private one, and the public ones whose encoding stays below `2^16`.
    pub open spec fn round_trips(self) -> bool {
        match self {
            PeerId::Public(i) => i + 1 < 0x1_0000,
            PeerId::Private(_) => true,
        }
    }

    pub open spec fn is_public(self) -> bool {
        self is Public
    }

    /// Whether this identifies a publicly reachable peer.
    pub fn public(&self) -> (b: bool)
        ensures
            b == self.is_public(),
    {
        match self {
            PeerId::Public(_) => true,
            PeerId::Private(_) => false,
        }
    }

    /// Encodes the identifier as a `u64`.
    pub fn to_u64(self) -> (v: u64)
        ensures
            v == self.encoding(),
            PeerId::decodable(v as int),
    {
        match self {
            PeerId::Public(i) => i as u64 + 1,
            PeerId::Private(i) => {
                let n: u64 = i as u64 + 1;
                assert(n << 16 == n * 0x1_0000) by (bit_vector)
                    requires
                        n <= 0x1_0000_0000,
                ;
                n << 16
            },
        }
    }

    /// Decodes an identifier from a `u64`.
    pub fn from_u64(v: u64) -> (id: PeerId)
        requires
            PeerId::decodable(v as int),
        ensures
            id == PeerId::decoding(v as int),
    {
        if v < 0x1_0000 {
            PeerId::Public((v - 1) as u32)
        } else {
            assert(v >> 16 == v / 0x1_0000) by (bit_vector);
            PeerId::Private(((v >> 16) - 1) as u32)
        }
    }
}

impl From<PeerId> for u64 {
    fn from(id: PeerId) -> (v: u64) {
        id.to_u64()
    }
}

impl vstd::std_specs::convert::FromSpecImpl<PeerId> for u64 {
    open spec fn obeys_from_spec() -> bool {
        true
    }

    open spec fn from_spec(id: PeerId) -> u64 {
        id.encoding() as u64
    }
}

/// Decoding undoes encoding for every private identifier and for the public
/// ones below `2^16 - 1`.
pub proof fn lemma_decoding_inverts_encoding(id: PeerId)
    requires
        id.round_trips(),
    ensures
        PeerId::decodable(id.encoding()),
        PeerId::decoding(id.encoding()) == id,
{
}

/// Two identifiers that both round-trip and have the same encoding are the
/// same identifier.
pub proof fn lemma_encoding_injective(a: PeerId, b: PeerId)
    requires
        a.round_trips(),
        b.round_trips(),
        a.encoding() == b.encoding(),
    ensures
        a == b,
{
    lemma_decoding_inverts_encoding(a);
    lemma_decoding_inverts_encoding(b);
}

} // verus!
