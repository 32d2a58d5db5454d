//! The messages that peers exchange, and what each costs on the wire.

use crate::hashing::{hasher_finish, hasher_write, keyed_hasher, sip_digest};
use crate::peer_id::PeerId;
use crate::recset::ShortId;
use vstd::prelude::*;

verus! {

/// Bytes that an encoded peer identifier takes on the wire.
pub const PEER_ID_BYTES: u64 = 8;

/// Bytes that a short transaction identifier takes on the wire.
pub const SHORT_ID_BYTES: u64 = 8;

/// First key of the short-identifier hash.
pub const SHORT_ID_KEY0: u64 = 0xDE;

/// Second key of the short-identifier hash.
pub const SHORT_ID_KEY1: u64 = 0xAD;

/// A transaction: an opaque payload of `B` bytes.
#[derive(Copy, Clone, Debug)]
pub struct Tx<const B: usize>(pub [u8; B]);

impl<const B: usize> ShortId for Tx<B> {
    /// The SipHash-2-4 digest of the payload under the fixed keys.
    open spec fn id(&self) -> u64 {
        sip_digest(SHORT_ID_KEY0, SHORT_ID_KEY1, self.0@)
    }

    fn short_id(&self) -> (id: u64) {
        let mut hasher = keyed_hasher(SHORT_ID_KEY0, SHORT_ID_KEY1);
        hasher_write(&mut hasher, self.0.as_slice());
        assert(Seq::<u8>::empty() + self.0@ =~= self.0@);
        hasher_finish(&hasher)
    }
}

/// A transaction on its way from one peer to the next.
#[derive(Copy, Clone, Debug)]
pub struct PeerTx<const B: usize> {
    pub from: PeerId,
    pub data: Tx<B>,
}

/// Asks the receiver to take the sender as a neighbour.
#[derive(Copy, Clone, Debug)]
pub struct Connect {
    pub from_id: PeerId,
}

/// Opens a reconciliation round with the sender's sketch.
#[derive(Clone, Debug)]
pub struct ReconcileRequest {
    pub from_id: PeerId,
    pub sketch: Vec<u8>,
}

/// Answers a reconciliation request with the identifiers that differ.
#[derive(Clone, Debug)]
pub struct ReconcileResult {
    pub from_id: PeerId,
    pub missing: Vec<u64>,
}

/// Asks for the transaction with the given short identifier.
#[derive(Copy, Clone, Debug)]
pub struct TxRequest {
    pub from_id: PeerId,
    pub txid: u64,
}

/// A peer's cumulative traffic, as it reports it to the counter.
#[derive(Copy, Clone, Debug)]
pub struct TrafficReport {
    pub from_id: PeerId,
    pub bytes_sent: u64,
    pub bytes_received: u64,
}

/// Messages whose cost on the wire is accounted for.
pub trait Traffic {
    /// The bytes that the message would take on a real wire.
    spec fn wire_size(&self) -> nat;

    /// Computes the wire size.
    fn size_bytes(&self) -> (n: u64)
        requires
            self.wire_size() <= u64::MAX,
        ensures
            n == self.wire_size(),
    ;
}

impl<const B: usize> Traffic for PeerTx<B> {
    open spec fn wire_size(&self) -> nat {
        (B + 8) as nat
    }

    fn size_bytes(&self) -> (n: u64) {
        B as u64 + PEER_ID_BYTES
    }
}

impl Traffic for Connect {
    open spec fn wire_size(&self) -> nat {
        8
    }

    fn size_bytes(&self) -> (n: u64) {
        PEER_ID_BYTES
    }
}

impl Traffic for ReconcileRequest {
    open spec fn wire_size(&self) -> nat {
        8 + self.sketch@.len()
    }

    fn size_bytes(&self) -> (n: u64) {
        PEER_ID_BYTES + self.sketch.len() as u64
    }
}

impl Traffic for ReconcileResult {
    open spec fn wire_size(&self) -> nat {
        8 + 8 * self.missing@.len()
    }

    fn size_bytes(&self) -> (n: u64) {
        PEER_ID_BYTES + self.missing.len() as u64 * SHORT_ID_BYTES
    }
}

impl Traffic for TxRequest {
    open spec fn wire_size(&self) -> nat {
        16
    }

    fn size_bytes(&self) -> (n: u64) {
        PEER_ID_BYTES + SHORT_ID_BYTES
    }
}

/// Any message that one peer sends to another.
#[derive(Clone, Debug)]
pub enum Message<const B: usize> {
    PeerTx(PeerTx<B>),
    Connect(Connect),
    ReconcileRequest(ReconcileRequest),
    ReconcileResult(ReconcileResult),
    TxRequest(TxRequest),
}

impl<const B: usize> Traffic for Message<B> {
    open spec fn wire_size(&self) -> nat {
        match self {
            Message::PeerTx(m) => m.wire_size(),
            Message::Connect(m) => m.wire_size(),
            Message::ReconcileRequest(m) => m.wire_size(),
            Message::ReconcileResult(m) => m.wire_size(),
            Message::TxRequest(m) => m.wire_size(),
        }
    }

    fn size_bytes(&self) -> (n: u64) {
        match self {
            Message::PeerTx(m) => m.size_bytes(),
            Message::Connect(m) => m.size_bytes(),
            Message::ReconcileRequest(m) => m.size_bytes(),
            Message::ReconcileResult(m) => m.size_bytes(),
            Message::TxRequest(m) => m.size_bytes(),
        }
    }
}

/// A message together with the peer it is addressed to.
#[derive(Clone, Debug)]
pub struct Envelope<const B: usize> {
    pub to: PeerId,
    pub message: Message<B>,
}

/// The bytes that a batch of outgoing messages takes on the wire.
pub open spec fn total_wire_size<const B: usize>(batch: Seq<Envelope<B>>) -> nat
    decreases batch.len(),
{
    if batch.len() == 0 {
        0
    } else {
        total_wire_size(batch.drop_last()) + batch.last().message.wire_size()
    }
}

/// A batch whose messages all have one size costs as many times that size.
pub proof fn lemma_total_uniform<const B: usize>(batch: Seq<Envelope<B>>, size: nat)
    requires
        forall|i: int| 0 <= i < batch.len() ==> (#[trigger] batch[i]).message.wire_size() == size,
    ensures
        total_wire_size(batch) == batch.len() * size,
    decreases batch.len(),
{
    if batch.len() > 0 {
        lemma_total_uniform(batch.drop_last(), size);
        assert(batch.last() == batch[batch.len() - 1]);
        assert(batch.len() * size == (batch.len() - 1) * size + size) by (nonlinear_arith);
    } else {
        assert(batch.len() * size == 0) by (nonlinear_arith)
            requires
                batch.len() == 0,
        ;
    }
}

/// Two batches together cost the sum of their costs.
pub proof fn lemma_total_concat<const B: usize>(a: Seq<Envelope<B>>, b: Seq<Envelope<B>>)
    ensures
        total_wire_size(a + b) == total_wire_size(a) + total_wire_size(b),
    decreases b.len(),
{
    if b.len() == 0 {
        assert(a + b =~= a);
    } else {
        lemma_total_concat(a, b.drop_last());
        assert((a + b).drop_last() =~= a + b.drop_last());
        assert((a + b).last() == b.last());
    }
}

/// Taking one message out of a batch takes its cost out of the batch's.
pub proof fn lemma_total_remove<const B: usize>(batch: Seq<Envelope<B>>, i: int)
    requires
        0 <= i < batch.len(),
    ensures
        total_wire_size(batch.remove(i)) + batch[i].message.wire_size() == total_wire_size(batch),
    decreases batch.len(),
{
    if i == batch.len() - 1 {
        assert(batch.remove(i) =~= batch.drop_last());
    } else {
        lemma_total_remove(batch.drop_last(), i);
        assert(batch.remove(i).drop_last() =~= batch.drop_last().remove(i));
        assert(batch.remove(i).last() == batch.last());
    }
}

} // verus!
