//! The peer: an overlay endpoint that keeps a mempool and a reconcilable set,
//! relays transactions and takes part in reconciliation rounds.
//!
//! Every handler takes the peer's state and one event, and gives the next
//! state and the messages to send. Handlers count the bytes they receive and
//! send; their preconditions only ask that the two counters have room for it.

use crate::messages::{
    Connect, Envelope, Message, PeerTx, ReconcileRequest, ReconcileResult, Traffic,
    TrafficReport, Tx, TxRequest,
};
use crate::network::{acted, received};
pub use crate::peer_id::PeerId;
use crate::recset::{recovered, DecodeOutcome, DecodeRequest, RecSet, ShortId};
use crate::rng::{fill_bytes, next_u64, seeded_rng, shuffle};
use crate::sketch::xor_bytes;
use std::collections::HashMap;
use vstd::prelude::*;

verus! {

broadcast use vstd::std_specs::hash::group_hash_axioms;

/// Differences that a peer's sketch can hold.
pub const RECONCILIATION_CAPACITY: usize = 128;

/// Length in bytes of a peer's serialised sketch.
pub const PEER_SKETCH_BYTES: usize = 1024;

/// Neighbours that a public peer relays a transaction to in Erlay mode.
pub const MAX_FANOUT: usize = 8;

/// Seconds after its start at which a private peer sends its transaction.
pub const SEED_TX_DELAY_SEC: u64 = 1;

/// Seconds after its start at which a peer reports its traffic.
pub const REPORT_DELAY_SEC: u64 = 5;

/// Seconds after its start at which a peer opens its reconciliation round.
pub const RECONCIL_TIMEOUT_SEC: u64 = 1;

/// What a peer's state amounts to.
pub struct PeerView<const B: usize> {
    pub id: PeerId,
    /// Outbound neighbours, in the order they were added.
    pub outbound: Seq<PeerId>,
    /// Inbound neighbours, in the order they were added.
    pub inbound: Seq<PeerId>,
    /// The transactions received so far, by short identifier.
    pub mempool: Map<u64, Tx<B>>,
    /// Every accepted transaction's sender and short identifier, in the order
    /// of receipt.
    pub received_txs: Seq<(PeerId, u64)>,
    /// The serialised sketch of the reconciliation set.
    pub sketch: Seq<u8>,
    /// The seed of the next random choice.
    pub seed: u64,
    pub bytes_sent: nat,
    pub bytes_received: nat,
    pub use_reconciliation: bool,
}

impl<const B: usize> PeerView<B> {
    /// A peer is public once it has an inbound neighbour.
    pub open spec fn is_public(self) -> bool {
        self.inbound.len() > 0
    }

    /// The short identifiers received from `from`, in the order of receipt.
    pub open spec fn received_from(self, from: PeerId) -> Seq<u64> {
        ids_from(self.received_txs, from)
    }

    /// The same state with `received` more bytes counted in and `sent` more
    /// counted out.
    pub open spec fn charged(self, received: nat, sent: nat) -> PeerView<B> {
        PeerView {
            bytes_received: self.bytes_received + received,
            bytes_sent: self.bytes_sent + sent,
            ..self
        }
    }

    /// Whether the counters can take `received` and `sent` more bytes.
    pub open spec fn has_room(self, received: nat, sent: nat) -> bool {
        self.bytes_received + received <= u64::MAX && self.bytes_sent + sent <= u64::MAX
    }
}

/// The short identifiers that a receipt log notes for `from`, in order.
pub open spec fn ids_from(log: Seq<(PeerId, u64)>, from: PeerId) -> Seq<u64>
    decreases log.len(),
{
    if log.len() == 0 {
        Seq::empty()
    } else if log.last().0 == from {
        ids_from(log.drop_last(), from).push(log.last().1)
    } else {
        ids_from(log.drop_last(), from)
    }
}

/// The bytes that some messages of one size take, where they fit in `u64`.
pub open spec fn cost(count: nat, each: nat) -> Option<u64> {
    if count * each <= u64::MAX {
        Some((count * each) as u64)
    } else {
        None
    }
}

/// `message` addressed to each of `targets`, in their order.
pub open spec fn addressed<const B: usize>(targets: Seq<PeerId>, message: Message<B>) -> Seq<
    Envelope<B>,
> {
    Seq::new(targets.len(), |i: int| Envelope { to: targets[i], message })
}

/// `ids` without the occurrences of `skip`, order kept.
pub open spec fn except(ids: Seq<PeerId>, skip: PeerId) -> Seq<PeerId>
    decreases ids.len(),
{
    if ids.len() == 0 {
        ids
    } else if ids.last() == skip {
        except(ids.drop_last(), skip)
    } else {
        except(ids.drop_last(), skip).push(ids.last())
    }
}

/// The state of a peer that has just been created: no neighbours, nothing
/// received, an empty sketch, and the encoding of its identifier as its first
/// seed.
pub open spec fn fresh_view<const B: usize>(id: PeerId, use_reconciliation: bool) -> PeerView<B> {
    PeerView {
        id,
        outbound: Seq::empty(),
        inbound: Seq::empty(),
        mempool: Map::empty(),
        received_txs: Seq::empty(),
        sketch: crate::sketch::zero_sketch(PEER_SKETCH_BYTES as nat),
        seed: id.encoding() as u64,
        bytes_sent: 0,
        bytes_received: 0,
        use_reconciliation,
    }
}

/// The state after a `Connect`: the sender becomes an inbound neighbour, and
/// an outbound one too where it is public. A peer's own identifier and one
/// that is already outbound change nothing but the bytes counted.
pub open spec fn after_connect<const B: usize>(pre: PeerView<B>, msg: Connect) -> PeerView<B> {
    let from = msg.from_id;
    if from == pre.id || pre.outbound.contains(from) {
        pre.charged(msg.wire_size(), 0)
    } else {
        let inbound = if pre.inbound.contains(from) {
            pre.inbound
        } else {
            pre.inbound.push(from)
        };
        if from.is_public() {
            PeerView { inbound, outbound: pre.outbound.push(from), ..pre }.charged(
                msg.wire_size(),
                Connect { from_id: pre.id }.wire_size(),
            )
        } else {
            PeerView { inbound, ..pre }.charged(msg.wire_size(), 0)
        }
    }
}

/// The answer to a `Connect`: a new public neighbour is connected back to.
pub open spec fn connect_replies<const B: usize>(pre: PeerView<B>, msg: Connect) -> Seq<
    Envelope<B>,
> {
    let from = msg.from_id;
    if from != pre.id && !pre.outbound.contains(from) && from.is_public() {
        seq![Envelope { to: from, message: Message::Connect(Connect { from_id: pre.id }) }]
    } else {
        Seq::empty()
    }
}

/// The peers that a batch of messages is addressed to, in order.
pub open spec fn recipients<const B: usize>(batch: Seq<Envelope<B>>) -> Seq<PeerId> {
    Seq::new(batch.len(), |i: int| batch[i].to)
}

/// The copy of a received transaction that a peer passes on under its own
/// identifier.
pub open spec fn relay_of<const B: usize>(pre: PeerView<B>, msg: PeerTx<B>) -> Message<B> {
    Message::PeerTx(PeerTx { from: pre.id, data: msg.data })
}

/// Whether a peer takes a transaction in: it is new to the mempool, and the
/// sketch of its identifier has the length of the peer's sketch.
pub open spec fn accepts_tx<const B: usize>(
    pre: PeerView<B>,
    msg: PeerTx<B>,
    element_sketch: Seq<u8>,
) -> bool {
    !pre.mempool.contains_key(msg.data.id()) && element_sketch.len() == PEER_SKETCH_BYTES
}

/// The first neighbours, at most `MAX_FANOUT`, of some reordering of
/// `outbound`.
pub open spec fn is_low_fanout_choice(outbound: Seq<PeerId>, targets: Seq<PeerId>) -> bool {
    exists|order: Seq<PeerId>|
        #![trigger order.to_multiset()]
        order.to_multiset() == outbound.to_multiset() && targets == order.take(
            if order.len() <= MAX_FANOUT {
                order.len() as int
            } else {
                MAX_FANOUT as int
            },
        )
}

/// Whom an accepted transaction is relayed to, and what becomes of the seed.
/// Without reconciliation: every outbound and inbound neighbour but the
/// sender, the seed untouched. With it, a public peer picks a low-fanout
/// choice of its outbound neighbours and moves on to a new seed; a private
/// peer relays to nobody.
pub open spec fn relays_to<const B: usize>(
    pre: PeerView<B>,
    sender: PeerId,
    targets: Seq<PeerId>,
    next_seed: u64,
) -> bool {
    if !pre.use_reconciliation {
        targets == except(pre.outbound + pre.inbound, sender) && next_seed == pre.seed
    } else if pre.is_public() {
        is_low_fanout_choice(pre.outbound, targets)
    } else {
        targets.len() == 0 && next_seed == pre.seed
    }
}

/// What handling a `PeerTx` does. A transaction that is not accepted only
/// counts as received. An accepted one enters the mempool and the sketch, is
/// noted in the receipt log, and is relayed.
pub open spec fn peer_tx_handled<const B: usize>(
    pre: PeerView<B>,
    msg: PeerTx<B>,
    element_sketch: Seq<u8>,
    post: PeerView<B>,
    out: Seq<Envelope<B>>,
) -> bool {
    if !accepts_tx(pre, msg, element_sketch) {
        post == pre.charged(msg.wire_size(), 0) && out.len() == 0
    } else {
        &&& relays_to(pre, msg.from, recipients(out), post.seed)
        &&& out == addressed(recipients(out), relay_of(pre, msg))
        &&& post == (PeerView {
            mempool: pre.mempool.insert(msg.data.id(), msg.data),
            received_txs: pre.received_txs.push((msg.from, msg.data.id())),
            sketch: xor_bytes(pre.sketch, element_sketch),
            seed: post.seed,
            ..pre
        }).charged(msg.wire_size(), out.len() * msg.wire_size())
    }
}

/// The requests that answer a `ReconcileResult`: one for each identifier,
/// sent to the peer that reported them.
pub open spec fn tx_requests<const B: usize>(pre: PeerView<B>, from: PeerId, missing: Seq<u64>) -> Seq<
    Envelope<B>,
> {
    Seq::new(
        missing.len(),
        |i: int|
            Envelope {
                to: from,
                message: Message::TxRequest(TxRequest { from_id: pre.id, txid: missing[i] }),
            },
    )
}

/// The answer to a `TxRequest`: the transaction, where the mempool has it.
pub open spec fn tx_replies<const B: usize>(pre: PeerView<B>, msg: TxRequest) -> Seq<Envelope<B>> {
    if pre.mempool.contains_key(msg.txid) {
        seq![
            Envelope {
                to: msg.from_id,
                message: Message::PeerTx(PeerTx { from: pre.id, data: pre.mempool[msg.txid] }),
            },
        ]
    } else {
        Seq::empty()
    }
}

/// Whether `envelope` carries a reconciliation request from `from` with the
/// sketch `sketch` to `to`.
pub open spec fn is_reconcile_request<const B: usize>(
    envelope: Envelope<B>,
    to: PeerId,
    from: PeerId,
    sketch: Seq<u8>,
) -> bool {
    &&& envelope.to == to
    &&& envelope.message matches Message::ReconcileRequest(request)
    &&& request.from_id == from
    &&& request.sketch@ == sketch
}

/// Whether `envelope` carries the reconciliation result `missing` from `from`
/// to `to`.
pub open spec fn is_reconcile_result<const B: usize>(
    envelope: Envelope<B>,
    to: PeerId,
    from: PeerId,
    missing: Seq<u64>,
) -> bool {
    &&& envelope.to == to
    &&& envelope.message matches Message::ReconcileResult(result)
    &&& result.from_id == from
    &&& result.missing@ == missing
}

/// What taking the decoder's outcome for a request from `requester` does:
/// recovered identifiers are reported back; a failed decoding changes
/// nothing.
pub open spec fn decoded_handled<const B: usize>(
    pre: PeerView<B>,
    requester: PeerId,
    ids: Option<Seq<u64>>,
    post: PeerView<B>,
    out: Seq<Envelope<B>>,
) -> bool {
    match ids {
        Some(ids) => {
            &&& out.len() == 1
            &&& is_reconcile_result(out[0], requester, pre.id, ids)
            &&& post == pre.charged(0, 8 + 8 * ids.len())
        },
        None => out.len() == 0 && post == pre,
    }
}

/// What the seed-transaction timer does: a public peer does nothing; a
/// private one sends one transaction under its own name to its first
/// outbound neighbour, if it has one, and moves on to a new seed.
pub open spec fn seed_transaction_done<const B: usize>(
    pre: PeerView<B>,
    post: PeerView<B>,
    out: Seq<Envelope<B>>,
) -> bool {
    if pre.is_public() {
        out.len() == 0 && post == pre
    } else if pre.outbound.len() > 0 {
        &&& out.len() == 1
        &&& out[0].to == pre.outbound[0]
        &&& out[0].message matches Message::PeerTx(tx)
        &&& tx.from == pre.id
        &&& post == (PeerView { seed: post.seed, ..pre }).charged(0, (B + 8) as nat)
    } else {
        out.len() == 0 && post == (PeerView { seed: post.seed, ..pre })
    }
}

/// What the reconciliation timer does: a peer that reconciles sends its
/// sketch to every outbound neighbour, in their order; another does nothing.
pub open spec fn round_done<const B: usize>(
    pre: PeerView<B>,
    post: PeerView<B>,
    out: Seq<Envelope<B>>,
) -> bool {
    if pre.use_reconciliation {
        &&& out.len() == pre.outbound.len()
        &&& forall|i: int|
            0 <= i < out.len() ==> is_reconcile_request(
                #[trigger] out[i],
                pre.outbound[i],
                pre.id,
                pre.sketch,
            )
        &&& post == pre.charged(0, pre.outbound.len() * (8 + pre.sketch.len()))
    } else {
        out.len() == 0 && post == pre
    }
}

/// One of the timers that a peer sets when it starts.
#[derive(Copy, Clone, Debug, PartialEq, Eq, Structural)]
pub enum TimerKind {
    /// A private peer makes up its transaction and sends it out.
    SeedTransaction,
    /// The peer reports its traffic to the counter.
    TrafficReport,
    /// The peer opens a reconciliation round with its outbound neighbours.
    Reconciliation,
}

/// A timer: what to do, and how long after the peer's start.
#[derive(Copy, Clone, Debug, PartialEq, Eq, Structural)]
pub struct Timer {
    pub after_sec: u64,
    pub kind: TimerKind,
}

/// The timers of a peer: the reconciliation round only where the peer
/// reconciles.
pub open spec fn timers_of(use_reconciliation: bool) -> Seq<Timer> {
    let first = seq![
        Timer { after_sec: SEED_TX_DELAY_SEC, kind: TimerKind::SeedTransaction },
        Timer { after_sec: REPORT_DELAY_SEC, kind: TimerKind::TrafficReport },
    ];
    if use_reconciliation {
        first.push(Timer { after_sec: RECONCIL_TIMEOUT_SEC, kind: TimerKind::Reconciliation })
    } else {
        first
    }
}

/// `except` never lengthens a sequence.
pub proof fn lemma_except_len(ids: Seq<PeerId>, skip: PeerId)
    ensures
        except(ids, skip).len() <= ids.len(),
    decreases ids.len(),
{
    if ids.len() > 0 {
        lemma_except_len(ids.drop_last(), skip);
    }
}

/// The distinct short identifiers among the payloads of some deliveries.
pub open spec fn delivered_ids<const B: usize>(msgs: Seq<PeerTx<B>>) -> Set<u64> {
    Set::new(|id: u64| exists|i: int| 0 <= i < msgs.len() && (#[trigger] msgs[i]).data.id() == id)
}

/// De-duplication: after any sequence of `PeerTx` deliveries to one peer,
/// each with a sketch of the right length, the mempool holds what it held
/// before and the distinct short identifiers of the payloads. Starting from
/// an empty mempool, its size is the number of those identifiers.
pub proof fn lemma_deduplication<const B: usize>(
    states: Seq<PeerView<B>>,
    msgs: Seq<PeerTx<B>>,
    sketches: Seq<Seq<u8>>,
    outs: Seq<Seq<Envelope<B>>>,
)
    requires
        states.len() == msgs.len() + 1,
        sketches.len() == msgs.len(),
        outs.len() == msgs.len(),
        forall|i: int|
            0 <= i < msgs.len() ==> (#[trigger] sketches[i]).len() == PEER_SKETCH_BYTES
                && peer_tx_handled(states[i], msgs[i], sketches[i], states[i + 1], outs[i]),
    ensures
        states.last().mempool.dom() == states[0].mempool.dom().union(delivered_ids(msgs)),
        states[0].mempool.dom() == Set::<u64>::empty() ==> states.last().mempool.dom().len()
            == delivered_ids(msgs).len(),
    decreases msgs.len(),
{
    if msgs.len() == 0 {
        assert(delivered_ids(msgs) =~= Set::<u64>::empty());
        assert(states.last().mempool.dom() =~= states[0].mempool.dom().union(
            delivered_ids(msgs),
        ));
    } else {
        let last = msgs.len() - 1;
        lemma_deduplication(
            states.drop_last(),
            msgs.drop_last(),
            sketches.drop_last(),
            outs.drop_last(),
        );
        let id = msgs[last].data.id();
        assert(sketches[last].len() == PEER_SKETCH_BYTES);
        assert(peer_tx_handled(
            states[last],
            msgs[last],
            sketches[last],
            states[last + 1],
            outs[last],
        ));
        assert(states.drop_last().last() == states[last]);
        assert(states.last().mempool.dom() =~= states[last].mempool.dom().insert(id));
        assert forall|x: u64| delivered_ids(msgs).contains(x) <==> delivered_ids(
            msgs.drop_last(),
        ).contains(x) || x == id by {
            if delivered_ids(msgs).contains(x) {
                let i = choose|i: int| 0 <= i < msgs.len() && (#[trigger] msgs[i]).data.id() == x;
                if i < last {
                    assert(msgs.drop_last()[i].data.id() == x);
                }
            }
            if delivered_ids(msgs.drop_last()).contains(x) {
                let i = choose|i: int|
                    0 <= i < msgs.drop_last().len() && (#[trigger] msgs.drop_last()[i]).data.id()
                        == x;
                assert(msgs[i].data.id() == x);
            }
            if x == id {
                assert(msgs[last].data.id() == x);
            }
        }
        assert(states.last().mempool.dom() =~= states[0].mempool.dom().union(
            delivered_ids(msgs),
        ));
    }
    if states[0].mempool.dom() == Set::<u64>::empty() {
        assert(states.last().mempool.dom() =~= delivered_ids(msgs));
    }
}

/// Appending an identifier that is new, and not the peer's own, keeps a
/// neighbour list free of duplicates and of the peer itself.
proof fn lemma_push_fresh(ids: Seq<PeerId>, id: PeerId, own: PeerId)
    requires
        ids.no_duplicates(),
        !ids.contains(own),
        !ids.contains(id),
        id != own,
    ensures
        ids.push(id).no_duplicates(),
        !ids.push(id).contains(own),
{
    let pushed = ids.push(id);
    assert forall|i: int, j: int| 0 <= i < pushed.len() && 0 <= j < pushed.len() && i
        != j implies pushed[i] != pushed[j] by {
        if i < ids.len() {
            assert(ids.contains(ids[i]));
        }
        if j < ids.len() {
            assert(ids.contains(ids[j]));
        }
    }
    assert forall|k: int| 0 <= k < pushed.len() implies pushed[k] != own by {
        if k < ids.len() {
            assert(ids.contains(ids[k]));
        }
    }
}

/// Describes a single independent peer in the network.
pub struct Peer<const B: usize> {
    id: PeerId,
    outbound: Vec<PeerId>,
    inbound: Vec<PeerId>,
    mempool: HashMap<u64, Tx<B>>,
    received_txs: Vec<(PeerId, u64)>,
    reconciliation_set: RecSet<Tx<B>>,
    seed: u64,
    bytes_sent: u64,
    bytes_received: u64,
    use_reconciliation: bool,
}

impl<const B: usize> View for Peer<B> {
    type V = PeerView<B>;

    closed spec fn view(&self) -> PeerView<B> {
        PeerView {
            id: self.id,
            outbound: self.outbound@,
            inbound: self.inbound@,
            mempool: self.mempool@,
            received_txs: self.received_txs@,
            sketch: self.reconciliation_set.sketch_bytes(),
            seed: self.seed,
            bytes_sent: self.bytes_sent as nat,
            bytes_received: self.bytes_received as nat,
            use_reconciliation: self.use_reconciliation,
        }
    }
}

/// Whether `id` occurs in `ids`.
fn contains_id(ids: &Vec<PeerId>, id: PeerId) -> (found: bool)
    ensures
        found == ids@.contains(id),
{
    let mut i: usize = 0;
    while i < ids.len()
        invariant
            i <= ids.len(),
            forall|k: int| 0 <= k < i ==> ids@[k] != id,
        decreases ids.len() - i,
    {
        if ids[i] == id {
            return true;
        }
        i += 1;
    }
    false
}

/// The identifiers of `a` followed by those of `b`.
fn concat_ids(a: &Vec<PeerId>, b: &Vec<PeerId>) -> (all: Vec<PeerId>)
    ensures
        all@ == a@ + b@,
{
    let mut all: Vec<PeerId> = Vec::new();
    let mut i: usize = 0;
    while i < a.len()
        invariant
            i <= a.len(),
            all@ == a@.take(i as int),
        decreases a.len() - i,
    {
        all.push(a[i]);
        i += 1;
        assert(all@ =~= a@.take(i as int));
    }
    let mut j: usize = 0;
    while j < b.len()
        invariant
            j <= b.len(),
            all@ == a@ + b@.take(j as int),
        decreases b.len() - j,
    {
        all.push(b[j]);
        j += 1;
        assert(all@ =~= a@ + b@.take(j as int));
    }
    assert(all@ =~= a@ + b@);
    all
}

/// The identifiers of `ids` other than `skip`, in their order.
fn ids_except(ids: &Vec<PeerId>, skip: PeerId) -> (kept: Vec<PeerId>)
    ensures
        kept@ == except(ids@, skip),
{
    let mut kept: Vec<PeerId> = Vec::new();
    let mut i: usize = 0;
    while i < ids.len()
        invariant
            i <= ids.len(),
            kept@ == except(ids@.take(i as int), skip),
        decreases ids.len() - i,
    {
        assert(ids@.take(i + 1).drop_last() =~= ids@.take(i as int));
        if ids[i] != skip {
            kept.push(ids[i]);
        }
        i += 1;
    }
    assert(ids@.take(ids.len() as int) =~= ids@);
    kept
}

/// `message` addressed to the first `limit` of `targets`, or to all of them
/// where there are fewer.
pub fn address_tx<const B: usize>(targets: &Vec<PeerId>, limit: usize, message: PeerTx<B>) -> (out:
    Vec<Envelope<B>>)
    ensures
        out@ == addressed(
            targets@.take(
                if targets.len() <= limit {
                    targets.len() as int
                } else {
                    limit as int
                },
            ),
            Message::PeerTx(message),
        ),
{
    let count: usize = if targets.len() <= limit {
        targets.len()
    } else {
        limit
    };
    let mut out: Vec<Envelope<B>> = Vec::new();
    let mut i: usize = 0;
    while i < count
        invariant
            i <= count <= targets.len(),
            out@ == addressed(targets@.take(i as int), Message::PeerTx(message)),
        decreases count - i,
    {
        out.push(Envelope { to: targets[i], message: Message::PeerTx(message) });
        i += 1;
        assert(out@ =~= addressed(targets@.take(i as int), Message::PeerTx(message)));
    }
    out
}

/// `a + b` as a number of neighbours.
fn count_sum(a: usize, b: usize) -> (sum: Option<u128>)
    ensures
        sum == Some((a + b) as u128),
{
    Some(a as u128 + b as u128)
}

/// `a + b` as a size in bytes, where it fits in `u64`.
fn size_sum(a: usize, b: u64) -> (sum: Option<u64>)
    ensures
        sum == if a + b <= u64::MAX {
            Some((a + b) as u64)
        } else {
            None
        },
{
    let wide: u128 = a as u128 + b as u128;
    if wide <= u64::MAX as u128 {
        Some(wide as u64)
    } else {
        None
    }
}

/// `count * each`, where both are numbers and the product fits in `u64`.
fn times(count: Option<u128>, each: Option<u64>) -> (product: Option<u64>)
    ensures
        product == match (count, each) {
            (Some(count), Some(each)) => cost(count as nat, each as nat),
            _ => None,
        },
{
    match (count, each) {
        (Some(count), Some(each)) => match count.checked_mul(each as u128) {
            Some(wide) => if wide <= u64::MAX as u128 {
                Some(wide as u64)
            } else {
                None
            },
            None => None,
        },
        _ => None,
    }
}

/// `a + b`, where `a` is a number and the sum fits in `u64`.
fn plus(a: Option<u64>, b: u64) -> (sum: Option<u64>)
    ensures
        sum == match a {
            Some(a) => if a + b <= u64::MAX {
                Some((a + b) as u64)
            } else {
                None
            },
            None => None,
        },
{
    match a {
        Some(a) => a.checked_add(b),
        None => None,
    }
}

impl<const B: usize> Peer<B> {
    /// The set that the peer reconciles with its neighbours.
    pub closed spec fn reconciliation_set(&self) -> RecSet<Tx<B>> {
        self.reconciliation_set
    }

    /// The peer is not its own neighbour, no neighbour is listed twice, and
    /// the reconciliation set holds exactly the mempool.
    pub closed spec fn wf(&self) -> bool {
        &&& !self.outbound@.contains(self.id)
        &&& !self.inbound@.contains(self.id)
        &&& self.outbound@.no_duplicates()
        &&& self.inbound@.no_duplicates()
        &&& self.reconciliation_set.wf()
        &&& self.reconciliation_set.capacity() == RECONCILIATION_CAPACITY
        &&& self.reconciliation_set.seed() == None::<u64>
        &&& self.reconciliation_set.elements() == self.mempool@
    }

    /// A well-formed peer is not among its own neighbours, lists no
    /// neighbour twice, and holds in its reconciliation set exactly what its
    /// mempool holds, each transaction under its own short identifier.
    pub proof fn lemma_wf_view(&self)
        requires
            self.wf(),
        ensures
            !self@.outbound.contains(self@.id),
            !self@.inbound.contains(self@.id),
            self@.outbound.no_duplicates(),
            self@.inbound.no_duplicates(),
            self@.mempool.dom().finite(),
            self@.mempool == self.reconciliation_set().elements(),
            self@.sketch == self.reconciliation_set().sketch_bytes(),
            self@.sketch.len() == PEER_SKETCH_BYTES,
            self.reconciliation_set().wf(),
            self.reconciliation_set().capacity() == RECONCILIATION_CAPACITY,
            forall|id: u64| #[trigger] self@.mempool.contains_key(id) ==> self@.mempool[id].id() == id,
    {
        self.reconciliation_set.lemma_sketch_matches_elements();
    }

    /// Creates a peer without neighbours or transactions. Its first seed is
    /// the encoding of its identifier.
    pub fn new(id: PeerId, use_reconciliation: bool) -> (peer: Self)
        ensures
            peer.wf(),
            peer@ == fresh_view::<B>(id, use_reconciliation),
    {
        let peer = Peer {
            id,
            outbound: Vec::new(),
            inbound: Vec::new(),
            mempool: HashMap::new(),
            received_txs: Vec::new(),
            reconciliation_set: RecSet::new(RECONCILIATION_CAPACITY),
            seed: id.to_u64(),
            bytes_sent: 0,
            bytes_received: 0,
            use_reconciliation,
        };
        proof {
            peer.reconciliation_set.lemma_sketch_matches_elements();
            assert(peer.reconciliation_set.elements().dom() =~= Set::<u64>::empty());
            assert(peer.mempool@ =~= peer.reconciliation_set.elements());
        }
        peer
    }

    /// Whether `id` is an outbound neighbour.
    pub fn is_connected_to(&self, id: PeerId) -> (connected: bool)
        ensures
            connected == self@.outbound.contains(id),
    {
        contains_id(&self.outbound, id)
    }

    /// Adds an outbound neighbour. The peer itself and a neighbour that is
    /// already there are ignored.
    pub fn add_outbound_peer(&mut self, id: PeerId)
        requires
            old(self).wf(),
        ensures
            final(self).wf(),
            final(self).reconciliation_set() == old(self).reconciliation_set(),
            final(self)@ == (PeerView {
                outbound: if id == old(self)@.id || old(self)@.outbound.contains(id) {
                    old(self)@.outbound
                } else {
                    old(self)@.outbound.push(id)
                },
                ..old(self)@
            }),
    {
        if id != self.id && !contains_id(&self.outbound, id) {
            self.outbound.push(id);
            proof {
                lemma_push_fresh(old(self).outbound@, id, self.id);
            }
        }
    }

    /// Whether the peer is publicly reachable: it has an inbound neighbour.
    pub fn is_public(&self) -> (public: bool)
        ensures
            public == self@.is_public(),
    {
        !self.inbound.is_empty()
    }

    /// The peer's identifier.
    pub fn id(&self) -> (id: PeerId)
        ensures
            id == self@.id,
    {
        self.id
    }

    /// The outbound neighbours, in the order they were added.
    pub fn outbound(&self) -> (ids: &Vec<PeerId>)
        ensures
            ids@ == self@.outbound,
    {
        &self.outbound
    }

    /// The inbound neighbours, in the order they were added.
    pub fn inbound(&self) -> (ids: &Vec<PeerId>)
        ensures
            ids@ == self@.inbound,
    {
        &self.inbound
    }

    /// The number of transactions in the mempool.
    pub fn mempool_size(&self) -> (size: usize)
        ensures
            size == self@.mempool.dom().len(),
    {
        self.mempool.len()
    }

    /// The transaction with the short identifier `txid`, if the mempool has
    /// it.
    pub fn get_tx(&self, txid: u64) -> (found: Option<Tx<B>>)
        ensures
            found == if self@.mempool.contains_key(txid) {
                Some(self@.mempool[txid])
            } else {
                None
            },
    {
        match self.mempool.get(&txid) {
            Some(tx) => Some(*tx),
            None => None,
        }
    }

    /// The short identifiers received from `from`, in the order of receipt.
    pub fn received_from(&self, from: PeerId) -> (ids: Vec<u64>)
        ensures
            ids@ == self@.received_from(from),
    {
        let mut ids: Vec<u64> = Vec::new();
        let mut i: usize = 0;
        while i < self.received_txs.len()
            invariant
                i <= self.received_txs.len(),
                ids@ == ids_from(self.received_txs@.take(i as int), from),
            decreases self.received_txs.len() - i,
        {
            assert(self.received_txs@.take(i + 1).drop_last() =~= self.received_txs@.take(
                i as int,
            ));
            if self.received_txs[i].0 == from {
                ids.push(self.received_txs[i].1);
            }
            i += 1;
        }
        assert(self.received_txs@.take(i as int) =~= self.received_txs@);
        ids
    }

    /// The serialised sketch of the reconciliation set.
    pub fn sketch(&self) -> (bytes: Vec<u8>)
        requires
            self.wf(),
        ensures
            bytes@ == self@.sketch,
            bytes@.len() == PEER_SKETCH_BYTES,
    {
        self.reconciliation_set.sketch()
    }

    /// The seed of the next random choice.
    pub fn seed(&self) -> (seed: u64)
        ensures
            seed == self@.seed,
    {
        self.seed
    }

    /// The bytes counted as sent so far.
    pub fn bytes_sent(&self) -> (bytes: u64)
        ensures
            bytes == self@.bytes_sent,
    {
        self.bytes_sent
    }

    /// The bytes counted as received so far.
    pub fn bytes_received(&self) -> (bytes: u64)
        ensures
            bytes == self@.bytes_received,
    {
        self.bytes_received
    }

    /// Whether the peer reconciles.
    pub fn use_reconciliation(&self) -> (flag: bool)
        ensures
            flag == self@.use_reconciliation,
    {
        self.use_reconciliation
    }

    /// Whether the counters can take `received` more bytes in and, where
    /// `sent` is a number, as many more out.
    fn fits(&self, received: Option<u64>, sent: Option<u64>) -> (ok: bool)
        ensures
            ok == match (received, sent) {
                (Some(received), Some(sent)) => self@.has_room(received as nat, sent as nat),
                _ => false,
            },
    {
        match (received, sent) {
            (Some(received), Some(sent)) => self.bytes_received.checked_add(received).is_some()
                && self.bytes_sent.checked_add(sent).is_some(),
            _ => false,
        }
    }

    /// Whether the counters have room for handling a `Connect`.
    pub fn can_handle_connect(&self) -> (ok: bool)
        ensures
            ok == self@.has_room(8, 8),
    {
        self.fits(Some(8), Some(8))
    }

    /// Whether the counters have room for handling a `PeerTx`, whomever it
    /// is relayed to.
    pub fn can_handle_peer_tx(&self) -> (ok: bool)
        ensures
            ok == self@.has_room(
                (B + 8) as nat,
                (self@.outbound.len() + self@.inbound.len()) * (B + 8) as nat,
            ),
    {
        let neighbours = count_sum(self.outbound.len(), self.inbound.len());
        let each = size_sum(B, 8);
        self.fits(each, times(neighbours, each))
    }

    /// Whether the counters have room for handling `msg`.
    pub fn can_handle_reconcile_request(&self, msg: &ReconcileRequest) -> (ok: bool)
        ensures
            ok == self@.has_room(msg.wire_size(), 0),
    {
        self.fits(size_sum(msg.sketch.len(), 8), Some(0))
    }

    /// Whether the counters have room for reporting what `outcome` holds.
    pub fn can_handle_decoded(&self, outcome: &DecodeOutcome) -> (ok: bool)
        ensures
            ok == (recovered(*outcome) matches Some(ids) ==> self@.has_room(0, 8 + 8 * ids.len())),
    {
        match outcome.count {
            Some(n) => {
                let count = if n <= outcome.buffer.len() {
                    n
                } else {
                    outcome.buffer.len()
                };
                let ids = times(Some(count as u128), Some(8));
                self.fits(Some(0), plus(ids, 8))
            },
            None => true,
        }
    }

    /// Whether the counters have room for handling `msg`.
    pub fn can_handle_reconcile_result(&self, msg: &ReconcileResult) -> (ok: bool)
        ensures
            ok == self@.has_room(msg.wire_size(), 16 * msg.missing@.len()),
    {
        let count = Some(msg.missing.len() as u128);
        self.fits(plus(times(count, Some(8)), 8), times(count, Some(16)))
    }

    /// Whether the counters have room for handling a `TxRequest`.
    pub fn can_handle_tx_request(&self) -> (ok: bool)
        ensures
            ok == self@.has_room(16, (B + 8) as nat),
    {
        self.fits(Some(16), size_sum(B, 8))
    }

    /// Whether the counters have room for the seed transaction.
    pub fn can_seed_transaction(&self) -> (ok: bool)
        ensures
            ok == self@.has_room(0, (B + 8) as nat),
    {
        self.fits(Some(0), size_sum(B, 8))
    }

    /// Whether the counters have room for a reconciliation round.
    pub fn can_reconcile(&self) -> (ok: bool)
        ensures
            ok == self@.has_room(0, self@.outbound.len() * (8 + PEER_SKETCH_BYTES) as nat),
    {
        self.fits(Some(0), times(Some(self.outbound.len() as u128), Some(1032)))
    }

    /// Counts `received` bytes in and `sent` bytes out.
    fn charge(&mut self, received: u64, sent: u64)
        requires
            old(self)@.has_room(received as nat, sent as nat),
        ensures
            final(self)@ == old(self)@.charged(received as nat, sent as nat),
            final(self).reconciliation_set() == old(self).reconciliation_set(),
            old(self).wf() ==> final(self).wf(),
    {
        self.bytes_received = self.bytes_received + received;
        self.bytes_sent = self.bytes_sent + sent;
    }

    /// Handles a `Connect`: takes the sender as an inbound neighbour and,
    /// where the sender is public, as an outbound one too, connecting back.
    /// The peer's own identifier and an outbound neighbour are ignored.
    pub fn handle_connect(&mut self, msg: Connect) -> (out: Vec<Envelope<B>>)
        requires
            old(self).wf(),
            old(self)@.has_room(8, 8),
        ensures
            final(self).wf(),
            final(self).reconciliation_set() == old(self).reconciliation_set(),
            final(self)@ == after_connect(old(self)@, msg),
            out@ == connect_replies(old(self)@, msg),
            received(old(self)@, Message::Connect(msg), final(self)@, out@),
    {
        let mut out: Vec<Envelope<B>> = Vec::new();
        let from = msg.from_id;
        self.charge(msg.size_bytes(), 0);
        if from == self.id || contains_id(&self.outbound, from) {
            return out;
        }
        if !contains_id(&self.inbound, from) {
            proof {
                lemma_push_fresh(self.inbound@, from, self.id);
            }
            self.inbound.push(from);
        }
        if from.public() {
            proof {
                lemma_push_fresh(self.outbound@, from, self.id);
            }
            self.outbound.push(from);
            let connect = Connect { from_id: self.id };
            self.charge(0, connect.size_bytes());
            out.push(Envelope { to: from, message: Message::Connect(connect) });
        }
        assert(out@ =~= connect_replies(old(self)@, msg));
        out
    }

    /// Handles a `PeerTx`. `element_sketch` is the sketch of the set that
    /// holds the transaction's short identifier alone. A transaction that is
    /// already in the mempool, or comes with a sketch of the wrong length, is
    /// dropped. A new one is stored and relayed: to every neighbour but the
    /// sender without reconciliation; with it, from a public peer to at most
    /// `MAX_FANOUT` outbound neighbours picked by the seeded shuffle.
    pub fn handle_peer_tx(&mut self, msg: PeerTx<B>, element_sketch: &[u8]) -> (out: Vec<
        Envelope<B>,
    >)
        requires
            old(self).wf(),
            old(self)@.has_room(
                msg.wire_size(),
                (old(self)@.outbound.len() + old(self)@.inbound.len()) * msg.wire_size(),
            ),
        ensures
            final(self).wf(),
            peer_tx_handled(old(self)@, msg, element_sketch@, final(self)@, out@),
            received(old(self)@, Message::PeerTx(msg), final(self)@, out@),
            final(self).reconciliation_set().parts() == if accepts_tx(
                old(self)@,
                msg,
                element_sketch@,
            ) {
                old(self).reconciliation_set().parts().insert(msg.data.id(), element_sketch@)
            } else {
                old(self).reconciliation_set().parts()
            },
    {
        let ghost pre = self@;
        let size = msg.size_bytes();
        assert((pre.outbound.len() + pre.inbound.len()) * msg.wire_size() >= 0) by (nonlinear_arith)
            requires
                pre.outbound.len() + pre.inbound.len() >= 0,
                msg.wire_size() >= 0,
        ;
        self.charge(size, 0);
        let txid = msg.data.short_id();
        proof {
            self.lemma_wf_view();
        }
        if self.mempool.contains_key(&txid) || element_sketch.len() != PEER_SKETCH_BYTES {
            let out: Vec<Envelope<B>> = Vec::new();
            assert(peer_tx_handled(pre, msg, element_sketch@, self@, out@));
            return out;
        }
        let added = self.reconciliation_set.insert(msg.data, element_sketch);
        assert(added);
        self.mempool.insert(txid, msg.data);
        self.received_txs.push((msg.from, txid));
        assert(self.mempool@ =~= self.reconciliation_set.elements());
        let relay = PeerTx { from: self.id, data: msg.data };
        let out = if self.use_reconciliation {
            if self.is_public() {
                let mut rng = seeded_rng(self.seed);
                let mut peers = vstd::slice::slice_to_vec(self.outbound.as_slice());
                shuffle(&mut peers, &mut rng);
                let out = address_tx(&peers, MAX_FANOUT, relay);
                self.seed = next_u64(&mut rng);
                proof {
                    let targets = peers@.take(
                        if peers@.len() <= MAX_FANOUT {
                            peers@.len() as int
                        } else {
                            MAX_FANOUT as int
                        },
                    );
                    assert(recipients(out@) =~= targets);
                    assert(out@ == addressed(recipients(out@), relay_of(pre, msg)));
                    assert(is_low_fanout_choice(pre.outbound, targets));
                    peers@.to_multiset_ensures();
                    pre.outbound.to_multiset_ensures();
                    assert(peers@.len() == pre.outbound.len());
                }
                out
            } else {
                let out: Vec<Envelope<B>> = Vec::new();
                assert(out@ =~= addressed(recipients(out@), relay_of(pre, msg)));
                out
            }
        } else {
            let all = concat_ids(&self.outbound, &self.inbound);
            let targets = ids_except(&all, msg.from);
            proof {
                lemma_except_len(all@, msg.from);
            }
            let out = address_tx(&targets, targets.len(), relay);
            assert(targets@.take(targets@.len() as int) =~= targets@);
            assert(recipients(out@) =~= targets@);
            assert(out@ == addressed(recipients(out@), relay_of(pre, msg)));
            out
        };
        assert(out@.len() <= pre.outbound.len() + pre.inbound.len());
        assert(out@.len() * msg.wire_size() <= (pre.outbound.len() + pre.inbound.len())
            * msg.wire_size()) by (nonlinear_arith)
            requires
                out@.len() <= pre.outbound.len() + pre.inbound.len(),
                msg.wire_size() >= 0,
        ;
        assert(out@.len() * msg.wire_size() == out@.len() * size) by (nonlinear_arith)
            requires
                msg.wire_size() == size,
        ;
        let sent: u64 = out.len() as u64 * size;
        self.charge(0, sent);
        assert(self@.mempool =~= pre.mempool.insert(msg.data.id(), msg.data));
        assert(peer_tx_handled(pre, msg, element_sketch@, self@, out@));
        out
    }

    /// Handles a `ReconcileRequest`: merges the sender's sketch into the
    /// peer's own and hands back what is to be decoded. A sketch of the wrong
    /// length is dropped.
    pub fn handle_reconcile_request(&mut self, msg: &ReconcileRequest) -> (request: Option<
        DecodeRequest,
    >)
        requires
            old(self).wf(),
            old(self)@.has_room(msg.wire_size(), 0),
        ensures
            final(self).wf(),
            final(self).reconciliation_set() == old(self).reconciliation_set(),
            final(self)@ == old(self)@.charged(msg.wire_size(), 0),
            received(
                old(self)@,
                Message::ReconcileRequest(*msg),
                final(self)@,
                Seq::<Envelope<B>>::empty(),
            ),
            match request {
                Some(request) => {
                    &&& msg.sketch@.len() == PEER_SKETCH_BYTES
                    &&& request.sketch@ == xor_bytes(old(self)@.sketch, msg.sketch@)
                    &&& request.capacity == RECONCILIATION_CAPACITY
                    &&& request.seed == None::<u64>
                },
                None => msg.sketch@.len() != PEER_SKETCH_BYTES,
            },
    {
        self.charge(msg.size_bytes(), 0);
        match self.reconciliation_set.reconcile_with(msg.sketch.as_slice()) {
            Ok(request) => Some(request),
            Err(_) => None,
        }
    }

    /// Takes what the decoder made of a reconciliation request from
    /// `requester`: the differing identifiers are reported back to it; where
    /// decoding failed, nothing is sent.
    pub fn handle_decoded(&mut self, requester: PeerId, outcome: DecodeOutcome) -> (out: Vec<
        Envelope<B>,
    >)
        requires
            old(self).wf(),
            recovered(outcome) matches Some(ids) ==> old(self)@.has_room(0, 8 + 8 * ids.len()),
        ensures
            final(self).wf(),
            final(self).reconciliation_set() == old(self).reconciliation_set(),
            decoded_handled(old(self)@, requester, recovered(outcome), final(self)@, out@),
            recovered(outcome) is Some ==> acted(old(self)@, final(self)@, out@),
    {
        let mut out: Vec<Envelope<B>> = Vec::new();
        match RecSet::<Tx<B>>::differences(outcome) {
            Ok(missing) => {
                let result = ReconcileResult { from_id: self.id, missing };
                self.charge(0, result.size_bytes());
                out.push(Envelope { to: requester, message: Message::ReconcileResult(result) });
            },
            Err(_) => {
                assert(self@ == old(self)@);
            },
        }
        out
    }

    /// Handles a `ReconcileResult`: asks the sender for every identifier it
    /// reported, whether or not the mempool already has it.
    pub fn handle_reconcile_result(&mut self, msg: &ReconcileResult) -> (out: Vec<Envelope<B>>)
        requires
            old(self).wf(),
            old(self)@.has_room(msg.wire_size(), 16 * msg.missing@.len()),
        ensures
            final(self).wf(),
            final(self).reconciliation_set() == old(self).reconciliation_set(),
            final(self)@ == old(self)@.charged(msg.wire_size(), 16 * msg.missing@.len()),
            out@ == tx_requests(old(self)@, msg.from_id, msg.missing@),
            received(old(self)@, Message::ReconcileResult(*msg), final(self)@, out@),
    {
        let count = msg.missing.len();
        self.charge(msg.size_bytes(), 16 * count as u64);
        let mut out: Vec<Envelope<B>> = Vec::new();
        let mut i: usize = 0;
        while i < count
            invariant
                i <= count == msg.missing@.len(),
                self.id == old(self)@.id,
                out@ == tx_requests(old(self)@, msg.from_id, msg.missing@.take(i as int)),
            decreases count - i,
        {
            let request = TxRequest { from_id: self.id, txid: msg.missing[i] };
            out.push(Envelope { to: msg.from_id, message: Message::TxRequest(request) });
            i += 1;
            assert(out@ =~= tx_requests(old(self)@, msg.from_id, msg.missing@.take(i as int)));
        }
        assert(msg.missing@.take(count as int) =~= msg.missing@);
        out
    }

    /// Handles a `TxRequest`: sends the transaction where the mempool has
    /// it, and nothing where it does not.
    pub fn handle_tx_request(&mut self, msg: TxRequest) -> (out: Vec<Envelope<B>>)
        requires
            old(self).wf(),
            old(self)@.has_room(16, (B + 8) as nat),
        ensures
            final(self).wf(),
            final(self).reconciliation_set() == old(self).reconciliation_set(),
            out@ == tx_replies(old(self)@, msg),
            final(self)@ == old(self)@.charged(
                16,
                if old(self)@.mempool.contains_key(msg.txid) {
                    (B + 8) as nat
                } else {
                    0
                },
            ),
            received(old(self)@, Message::TxRequest(msg), final(self)@, out@),
    {
        self.charge(msg.size_bytes(), 0);
        let mut out: Vec<Envelope<B>> = Vec::new();
        let found = match self.mempool.get(&msg.txid) {
            Some(tx) => Some(*tx),
            None => None,
        };
        match found {
            Some(data) => {
                let reply = PeerTx { from: self.id, data };
                self.charge(0, reply.size_bytes());
                out.push(Envelope { to: msg.from_id, message: Message::PeerTx(reply) });
            },
            None => {},
        }
        assert(out@ =~= tx_replies(old(self)@, msg));
        out
    }

    /// The timers that a starting peer sets.
    pub fn started(&self) -> (timers: Vec<Timer>)
        ensures
            timers@ == timers_of(self@.use_reconciliation),
    {
        let mut timers: Vec<Timer> = Vec::new();
        timers.push(Timer { after_sec: SEED_TX_DELAY_SEC, kind: TimerKind::SeedTransaction });
        timers.push(Timer { after_sec: REPORT_DELAY_SEC, kind: TimerKind::TrafficReport });
        if self.use_reconciliation {
            timers.push(Timer { after_sec: RECONCIL_TIMEOUT_SEC, kind: TimerKind::Reconciliation });
        }
        assert(timers@ =~= timers_of(self@.use_reconciliation));
        timers
    }

    /// The seed-transaction timer. A private peer draws a transaction from
    /// its seeded generator, sends it to its first outbound neighbour, if it
    /// has one, and moves on to a new seed. A public peer does nothing.
    pub fn seed_transaction(&mut self) -> (out: Vec<Envelope<B>>)
        requires
            old(self).wf(),
            old(self)@.has_room(0, (B + 8) as nat),
        ensures
            final(self).wf(),
            final(self).reconciliation_set() == old(self).reconciliation_set(),
            seed_transaction_done(old(self)@, final(self)@, out@),
            acted(old(self)@, final(self)@, out@),
    {
        let mut out: Vec<Envelope<B>> = Vec::new();
        if !self.is_public() {
            let mut data: [u8; B] = [0u8; B];
            let mut rng = seeded_rng(self.seed);
            fill_bytes(&mut rng, &mut data);
            if self.outbound.len() > 0 {
                let tx = PeerTx { from: self.id, data: Tx(data) };
                self.charge(0, tx.size_bytes());
                out.push(Envelope { to: self.outbound[0], message: Message::PeerTx(tx) });
            }
            self.seed = next_u64(&mut rng);
        }
        out
    }

    /// The traffic-report timer: the peer's cumulative counters.
    pub fn traffic_report(&self) -> (report: TrafficReport)
        ensures
            report.from_id == self@.id,
            report.bytes_sent == self@.bytes_sent,
            report.bytes_received == self@.bytes_received,
    {
        TrafficReport {
            from_id: self.id,
            bytes_sent: self.bytes_sent,
            bytes_received: self.bytes_received,
        }
    }

    /// The reconciliation timer: where the peer reconciles, it sends its
    /// sketch to every outbound neighbour, in their order.
    pub fn reconciliation_round(&mut self) -> (out: Vec<Envelope<B>>)
        requires
            old(self).wf(),
            old(self)@.has_room(0, old(self)@.outbound.len() * (8 + PEER_SKETCH_BYTES) as nat),
        ensures
            final(self).wf(),
            final(self).reconciliation_set() == old(self).reconciliation_set(),
            round_done(old(self)@, final(self)@, out@),
            acted(old(self)@, final(self)@, out@),
    {
        let mut out: Vec<Envelope<B>> = Vec::new();
        if !self.use_reconciliation {
            return out;
        }
        proof {
            self.lemma_wf_view();
        }
        let count = self.outbound.len();
        let each: u64 = 8 + PEER_SKETCH_BYTES as u64;
        assert(count * each == old(self)@.outbound.len() * (8 + PEER_SKETCH_BYTES) as nat);
        let total: u64 = count as u64 * each;
        let mut i: usize = 0;
        while i < count
            invariant
                i <= count == self.outbound@.len(),
                self.wf(),
                self@ == old(self)@,
                out@.len() == i,
                forall|k: int|
                    0 <= k < i ==> is_reconcile_request(
                        #[trigger] out@[k],
                        self@.outbound[k],
                        self@.id,
                        self@.sketch,
                    ),
            decreases count - i,
        {
            let request = ReconcileRequest {
                from_id: self.id,
                sketch: self.reconciliation_set.sketch(),
            };
            out.push(
                Envelope { to: self.outbound[i], message: Message::ReconcileRequest(request) },
            );
            i += 1;
        }
        self.charge(0, total);
        out
    }
}

} // verus!
