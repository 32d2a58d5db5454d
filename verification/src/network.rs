//! A model of the whole overlay: the states of all peers and the messages on
//! their way, moved on by one peer handling one event at a time, in any order.
//! Over this model the module proves what the handlers' contracts add up to:
//! that traffic is conserved, and that the harness's wiring ends in the
//! overlay it is meant to build.

use crate::harness::{connect, connects_from, private_fan_out, public_ids, public_mesh, wiring};
use crate::messages::{
    lemma_total_concat, lemma_total_remove, lemma_total_uniform, total_wire_size, Connect,
    Envelope, Message, Traffic,
};
use crate::peer::{
    accepts_tx, after_connect, connect_replies, decoded_handled, fresh_view, peer_tx_handled,
    round_done, seed_transaction_done, tx_replies, tx_requests, PeerView,
};
use crate::peer_id::PeerId;
use vstd::prelude::*;

verus! {

/// The overlay at one moment.
pub struct Network<const B: usize> {
    /// Every peer's state.
    pub peers: Seq<PeerView<B>>,
    /// The messages that were sent and not yet handled.
    pub in_flight: Seq<Envelope<B>>,
    /// The bytes of the messages that the harness put in flight; no peer
    /// counted them as sent.
    pub injected: nat,
}

/// A peer in state `pre` handles `message`, ends in `post` and sends `out`:
/// what the peer's handler for that kind of message promises.
pub open spec fn received<const B: usize>(
    pre: PeerView<B>,
    message: Message<B>,
    post: PeerView<B>,
    out: Seq<Envelope<B>>,
) -> bool {
    match message {
        Message::PeerTx(m) => exists|element_sketch: Seq<u8>|
            peer_tx_handled(pre, m, element_sketch, post, out),
        Message::Connect(m) => post == after_connect(pre, m) && out == connect_replies(pre, m),
        Message::ReconcileRequest(m) => post == pre.charged(m.wire_size(), 0) && out.len() == 0,
        Message::ReconcileResult(m) => {
            &&& post == pre.charged(m.wire_size(), 16 * m.missing@.len())
            &&& out == tx_requests(pre, m.from_id, m.missing@)
        },
        Message::TxRequest(m) => {
            &&& out == tx_replies(pre, m)
            &&& post == pre.charged(
                16,
                if pre.mempool.contains_key(m.txid) {
                    (B + 8) as nat
                } else {
                    0
                },
            )
        },
    }
}

/// A peer in state `pre` acts on a timer or on what the decoder gave it,
/// ends in `post` and sends `out`: what the peer's seed-transaction timer, its
/// reconciliation timer, or its handling of decoded differences promises.
pub open spec fn acted<const B: usize>(
    pre: PeerView<B>,
    post: PeerView<B>,
    out: Seq<Envelope<B>>,
) -> bool {
    ||| seed_transaction_done(pre, post, out)
    ||| round_done(pre, post, out)
    ||| exists|requester: PeerId, ids: Seq<u64>|
        decoded_handled(pre, requester, Some(ids), post, out)
}

/// One step of the overlay: peer `k` handles the message at `consumed`, which
/// is addressed to it, or acts on its own, and what it sends goes in flight.
pub open spec fn step<const B: usize>(
    s: Network<B>,
    t: Network<B>,
    k: int,
    consumed: Option<int>,
    out: Seq<Envelope<B>>,
) -> bool {
    &&& 0 <= k < s.peers.len()
    &&& t.peers == s.peers.update(k, t.peers[k])
    &&& t.injected == s.injected
    &&& match consumed {
        Some(i) => {
            &&& 0 <= i < s.in_flight.len()
            &&& s.in_flight[i].to == s.peers[k].id
            &&& received(s.peers[k], s.in_flight[i].message, t.peers[k], out)
            &&& t.in_flight == s.in_flight.remove(i) + out
        },
        None => acted(s.peers[k], t.peers[k], out) && t.in_flight == s.in_flight + out,
    }
}

/// Some peer takes some step.
pub open spec fn next<const B: usize>(s: Network<B>, t: Network<B>) -> bool {
    exists|k: int, consumed: Option<int>, out: Seq<Envelope<B>>| step(s, t, k, consumed, out)
}

/// The bytes that all peers counted as sent.
pub open spec fn total_sent<const B: usize>(peers: Seq<PeerView<B>>) -> nat
    decreases peers.len(),
{
    if peers.len() == 0 {
        0
    } else {
        total_sent(peers.drop_last()) + peers.last().bytes_sent
    }
}

/// The bytes that all peers counted as received.
pub open spec fn total_received<const B: usize>(peers: Seq<PeerView<B>>) -> nat
    decreases peers.len(),
{
    if peers.len() == 0 {
        0
    } else {
        total_received(peers.drop_last()) + peers.last().bytes_received
    }
}

/// Every byte sent or injected is either received or still in flight.
pub open spec fn balanced<const B: usize>(s: Network<B>) -> bool {
    total_sent(s.peers) + s.injected == total_received(s.peers) + total_wire_size(s.in_flight)
}

/// Nothing is in flight.
pub open spec fn quiescent<const B: usize>(s: Network<B>) -> bool {
    s.in_flight.len() == 0
}

/// Changing one peer changes the totals by that peer's change.
pub proof fn lemma_totals_update<const B: usize>(peers: Seq<PeerView<B>>, k: int, post: PeerView<B>)
    requires
        0 <= k < peers.len(),
    ensures
        total_sent(peers.update(k, post)) + peers[k].bytes_sent == total_sent(peers)
            + post.bytes_sent,
        total_received(peers.update(k, post)) + peers[k].bytes_received == total_received(peers)
            + post.bytes_received,
    decreases peers.len(),
{
    let updated = peers.update(k, post);
    if k == peers.len() - 1 {
        assert(updated.drop_last() =~= peers.drop_last());
    } else {
        lemma_totals_update(peers.drop_last(), k, post);
        assert(updated.drop_last() =~= peers.drop_last().update(k, post));
        assert(updated.last() == peers.last());
    }
}

/// A peer that handles a message counts the message as received and what it
/// sends as sent.
pub proof fn lemma_received_accounts<const B: usize>(
    pre: PeerView<B>,
    message: Message<B>,
    post: PeerView<B>,
    out: Seq<Envelope<B>>,
)
    requires
        received(pre, message, post, out),
    ensures
        post.bytes_received == pre.bytes_received + message.wire_size(),
        post.bytes_sent == pre.bytes_sent + total_wire_size(out),
{
    match message {
        Message::PeerTx(m) => {
            let element_sketch = choose|element_sketch: Seq<u8>|
                peer_tx_handled(pre, m, element_sketch, post, out);
            if accepts_tx(pre, m, element_sketch) {
                lemma_total_uniform(out, m.wire_size());
            } else {
                lemma_total_uniform(out, 0);
            }
        },
        Message::Connect(m) => {
            lemma_total_uniform(out, 8);
            assert(out.len() * 8 == if out.len() == 1 {
                8int
            } else {
                0int
            });
        },
        Message::ReconcileRequest(m) => {
            lemma_total_uniform(out, 0);
        },
        Message::ReconcileResult(m) => {
            lemma_total_uniform(out, 16);
        },
        Message::TxRequest(m) => {
            lemma_total_uniform(out, (B + 8) as nat);
            assert(out.len() * (B + 8) == if out.len() == 1 {
                B + 8
            } else {
                0int
            }) by (nonlinear_arith)
                requires
                    out.len() == 0 || out.len() == 1,
            ;
        },
    }
}

/// A peer that acts on its own counts what it sends as sent and nothing as
/// received.
pub proof fn lemma_acted_accounts<const B: usize>(
    pre: PeerView<B>,
    post: PeerView<B>,
    out: Seq<Envelope<B>>,
)
    requires
        acted(pre, post, out),
    ensures
        post.bytes_received == pre.bytes_received,
        post.bytes_sent == pre.bytes_sent + total_wire_size(out),
{
    if seed_transaction_done(pre, post, out) {
        lemma_total_uniform(out, (B + 8) as nat);
        assert(out.len() * (B + 8) == if out.len() == 1 {
            B + 8
        } else {
            0int
        }) by (nonlinear_arith)
            requires
                out.len() == 0 || out.len() == 1,
        ;
    } else if round_done(pre, post, out) {
        if pre.use_reconciliation {
            lemma_total_uniform(out, 8 + pre.sketch.len());
        } else {
            lemma_total_uniform(out, 0);
        }
    } else {
        let (requester, ids) = choose|requester: PeerId, ids: Seq<u64>|
            decoded_handled(pre, requester, Some(ids), post, out);
        lemma_total_uniform(out, 8 + 8 * ids.len());
        assert(out.len() * (8 + 8 * ids.len()) == 8 + 8 * ids.len()) by (nonlinear_arith)
            requires
                out.len() == 1,
        ;
    }
}

/// Conservation, one step at a time: a step keeps the balance.
pub proof fn lemma_step_keeps_balance<const B: usize>(
    s: Network<B>,
    t: Network<B>,
    k: int,
    consumed: Option<int>,
    out: Seq<Envelope<B>>,
)
    requires
        balanced(s),
        step(s, t, k, consumed, out),
    ensures
        balanced(t),
{
    lemma_totals_update(s.peers, k, t.peers[k]);
    match consumed {
        Some(i) => {
            lemma_received_accounts(s.peers[k], s.in_flight[i].message, t.peers[k], out);
            lemma_total_remove(s.in_flight, i);
            lemma_total_concat(s.in_flight.remove(i), out);
        },
        None => {
            lemma_acted_accounts(s.peers[k], t.peers[k], out);
            lemma_total_concat(s.in_flight, out);
        },
    }
}

/// The overlay as the harness leaves it: `n` fresh public peers, then `np`
/// fresh private peers that have every public peer as an outbound neighbour,
/// and the wiring's `Connect`s in flight.
pub open spec fn initial<const B: usize>(n: nat, np: nat, use_reconciliation: bool) -> Network<B> {
    Network {
        peers: Seq::new(
            n + np,
            |k: int|
                if k < n {
                    fresh_view::<B>(PeerId::Public(k as u32), use_reconciliation)
                } else {
                    PeerView {
                        outbound: public_ids(n),
                        ..fresh_view::<B>(PeerId::Private((k - n) as u32), use_reconciliation)
                    }
                },
        ),
        in_flight: wiring::<B>(n, np),
        injected: total_wire_size(wiring::<B>(n, np)),
    }
}

/// The identifier of the peer at position `k`: public peers come first.
pub open spec fn identifier_at(k: int, n: nat) -> PeerId {
    if k < n {
        PeerId::Public(k as u32)
    } else {
        PeerId::Private((k - n) as u32)
    }
}

/// Whether `id` is one of the run's peers.
pub open spec fn is_known(id: PeerId, n: nat, np: nat) -> bool {
    match id {
        PeerId::Public(i) => i < n,
        PeerId::Private(p) => p < np,
    }
}

/// A `Connect` in flight comes from one of the run's peers and goes to a
/// public one other than its sender.
pub open spec fn connect_is_sound<const B: usize>(e: Envelope<B>, n: nat, np: nat) -> bool {
    e.message matches Message::Connect(c) ==> {
        &&& is_known(c.from_id, n, np)
        &&& is_known(e.to, n, np)
        &&& e.to.is_public()
        &&& c.from_id != e.to
    }
}

/// Public peer `j` has public peer `i` as an outbound neighbour, or the
/// `Connect` that will make it one is still in flight.
pub open spec fn linked_or_pending<const B: usize>(s: Network<B>, i: int, j: int) -> bool {
    s.peers[j].outbound.contains(PeerId::Public(i as u32)) || s.in_flight.contains(
        connect(PeerId::Public(i as u32), PeerId::Public(j as u32)),
    )
}

/// What holds of the overlay from the wiring pass on.
pub open spec fn wired<const B: usize>(s: Network<B>, n: nat, np: nat) -> bool {
    &&& s.peers.len() == n + np
    &&& forall|k: int| 0 <= k < n + np ==> (#[trigger] s.peers[k]).id == identifier_at(k, n)
    &&& forall|i: int|
        0 <= i < s.in_flight.len() ==> connect_is_sound(#[trigger] s.in_flight[i], n, np)
    &&& forall|i: int, j: int|
        0 <= i < n && 0 <= j < n && i != j ==> #[trigger] linked_or_pending(s, i, j)
    &&& forall|k: int|
        n <= k < n + np ==> (#[trigger] s.peers[k]).inbound.len() == 0 && s.peers[k].outbound
            == public_ids(n)
    &&& forall|k: int| 0 <= k < n + np ==> no_self_connection(#[trigger] s.peers[k])
}

/// The peer is not among its own neighbours.
pub open spec fn no_self_connection<const B: usize>(peer: PeerView<B>) -> bool {
    !peer.outbound.contains(peer.id) && !peer.inbound.contains(peer.id)
}

/// Public peer `j` has public peer `i` as an outbound neighbour.
pub open spec fn has_outbound<const B: usize>(s: Network<B>, j: int, i: int) -> bool {
    s.peers[j].outbound.contains(PeerId::Public(i as u32))
}

/// Handshake symmetry: any two distinct public peers have each other as
/// outbound neighbours; every private peer has every public peer as an
/// outbound neighbour and no inbound neighbour.
pub open spec fn fully_connected<const B: usize>(s: Network<B>, n: nat, np: nat) -> bool {
    &&& s.peers.len() == n + np
    &&& forall|i: int, j: int|
        0 <= i < n && 0 <= j < n && i != j ==> #[trigger] has_outbound(s, j, i)
    &&& forall|k: int|
        n <= k < n + np ==> (#[trigger] s.peers[k]).inbound.len() == 0 && s.peers[k].outbound
            == public_ids(n)
}

/// A run: it starts from the harness's wiring, and every state follows from
/// the one before by a step.
pub open spec fn is_run<const B: usize>(
    trace: Seq<Network<B>>,
    n: nat,
    np: nat,
    use_reconciliation: bool,
) -> bool {
    &&& trace.len() > 0
    &&& trace[0] == initial::<B>(n, np, use_reconciliation)
    &&& forall|i: int| 0 <= i < trace.len() - 1 ==> next(#[trigger] trace[i], trace[i + 1])
}

/// Only a `Connect` changes who a peer's neighbours are or puts a `Connect`
/// in flight; no message changes a peer's identifier.
pub proof fn lemma_links_change_on_connect_only<const B: usize>(
    pre: PeerView<B>,
    message: Message<B>,
    post: PeerView<B>,
    out: Seq<Envelope<B>>,
)
    requires
        received(pre, message, post, out),
    ensures
        post.id == pre.id,
        message !is Connect ==> {
            &&& post.outbound == pre.outbound
            &&& post.inbound == pre.inbound
            &&& forall|i: int| 0 <= i < out.len() ==> (#[trigger] out[i]).message !is Connect
        },
{
}

/// No message makes a peer its own neighbour.
pub proof fn lemma_connect_keeps_self_out<const B: usize>(
    pre: PeerView<B>,
    message: Message<B>,
    post: PeerView<B>,
    out: Seq<Envelope<B>>,
)
    requires
        received(pre, message, post, out),
        no_self_connection(pre),
    ensures
        no_self_connection(post),
{
    lemma_links_change_on_connect_only(pre, message, post, out);
    if message is Connect {
        assert forall|i: int| 0 <= i < post.outbound.len() implies post.outbound[i] != pre.id by {
            if i < pre.outbound.len() {
                assert(pre.outbound.contains(pre.outbound[i]));
            }
        }
        assert forall|i: int| 0 <= i < post.inbound.len() implies post.inbound[i] != pre.id by {
            if i < pre.inbound.len() {
                assert(pre.inbound.contains(pre.inbound[i]));
            }
        }
    }
}

/// A peer that acts on its own keeps its identifier and its neighbours and
/// puts no `Connect` in flight.
pub proof fn lemma_acting_keeps_links<const B: usize>(
    pre: PeerView<B>,
    post: PeerView<B>,
    out: Seq<Envelope<B>>,
)
    requires
        acted(pre, post, out),
    ensures
        post.id == pre.id,
        post.outbound == pre.outbound,
        post.inbound == pre.inbound,
        forall|i: int| 0 <= i < out.len() ==> (#[trigger] out[i]).message !is Connect,
{
}

/// What `connects_from` holds: a `Connect` to every one of the first `n`
/// public peers but the sender, and nothing else.
pub proof fn lemma_connects_from<const B: usize>(from: PeerId, n: nat)
    requires
        n <= 0x1_0000_0000,
    ensures
        forall|j: int|
            0 <= j < n && PeerId::Public(j as u32) != from ==> connects_from::<B>(
                from,
                n,
            ).contains(#[trigger] connect(from, PeerId::Public(j as u32))),
        forall|i: int|
            0 <= i < connects_from::<B>(from, n).len() ==> {
                let e = #[trigger] connects_from::<B>(from, n)[i];
                &&& e.message == Message::<B>::Connect(Connect { from_id: from })
                &&& e.to.is_public()
                &&& is_known(e.to, n, 0)
                &&& e.to != from
            },
    decreases n,
{
    if n > 0 {
        let before = connects_from::<B>(from, (n - 1) as nat);
        let all = connects_from::<B>(from, n);
        let to = PeerId::Public((n - 1) as u32);
        lemma_connects_from::<B>(from, (n - 1) as nat);
        assert forall|j: int| 0 <= j < n && PeerId::Public(j as u32) != from implies all.contains(
            #[trigger] connect(from, PeerId::Public(j as u32)),
        ) by {
            if j < n - 1 {
                let x = connect::<B>(from, PeerId::Public(j as u32));
                assert(before.contains(x));
                let at = choose|at: int| 0 <= at < before.len() && before[at] == x;
                assert(all[at] == x);
            } else {
                assert(all[all.len() - 1] == connect::<B>(from, to));
            }
        }
        assert forall|i: int| 0 <= i < all.len() implies {
            let e = #[trigger] all[i];
            &&& e.message == Message::<B>::Connect(Connect { from_id: from })
            &&& e.to.is_public()
            &&& is_known(e.to, n, 0)
            &&& e.to != from
        } by {
            if i < before.len() {
                assert(all[i] == before[i]);
            }
        }
    }
}

/// The wiring's `Connect`s are sound, and there is one for every ordered
/// pair of distinct public peers.
pub proof fn lemma_wiring_connects<const B: usize>(n: nat, np: nat)
    requires
        n <= 0x1_0000_0000,
        np <= 0x1_0000_0000,
    ensures
        forall|i: int|
            0 <= i < wiring::<B>(n, np).len() ==> connect_is_sound(
                #[trigger] wiring::<B>(n, np)[i],
                n,
                np,
            ),
        forall|i: int, j: int|
            0 <= i < n && 0 <= j < n && i != j ==> wiring::<B>(n, np).contains(
                #[trigger] connect(PeerId::Public(i as u32), PeerId::Public(j as u32)),
            ),
{
    lemma_mesh_connects::<B>(n, n);
    lemma_fan_out_connects::<B>(np, n, np);
    let mesh = public_mesh::<B>(n, n);
    let fan = private_fan_out::<B>(np, n);
    let all = wiring::<B>(n, np);
    assert forall|i: int| 0 <= i < all.len() implies connect_is_sound(#[trigger] all[i], n, np) by {
        if i < mesh.len() {
            assert(all[i] == mesh[i]);
        } else {
            assert(all[i] == fan[i - mesh.len()]);
        }
    }
    assert forall|i: int, j: int| 0 <= i < n && 0 <= j < n && i != j implies all.contains(
        #[trigger] connect(PeerId::Public(i as u32), PeerId::Public(j as u32)),
    ) by {
        let x = connect::<B>(PeerId::Public(i as u32), PeerId::Public(j as u32));
        assert(mesh.contains(x));
        let at = choose|at: int| 0 <= at < mesh.len() && mesh[at] == x;
        assert(all[at] == x);
    }
}

/// The mesh's `Connect`s, as far as the first `k` senders go.
proof fn lemma_mesh_connects<const B: usize>(k: nat, n: nat)
    requires
        k <= n <= 0x1_0000_0000,
    ensures
        forall|i: int|
            0 <= i < public_mesh::<B>(k, n).len() ==> connect_is_sound(
                #[trigger] public_mesh::<B>(k, n)[i],
                n,
                0,
            ),
        forall|i: int, j: int|
            0 <= i < k && 0 <= j < n && i != j ==> public_mesh::<B>(k, n).contains(
                #[trigger] connect(PeerId::Public(i as u32), PeerId::Public(j as u32)),
            ),
    decreases k,
{
    if k > 0 {
        let from = PeerId::Public((k - 1) as u32);
        let before = public_mesh::<B>((k - 1) as nat, n);
        let row = connects_from::<B>(from, n);
        let all = public_mesh::<B>(k, n);
        lemma_mesh_connects::<B>((k - 1) as nat, n);
        lemma_connects_from::<B>(from, n);
        assert forall|i: int| 0 <= i < all.len() implies connect_is_sound(#[trigger] all[i], n, 0) by {
            if i < before.len() {
                assert(all[i] == before[i]);
            } else {
                assert(all[i] == row[i - before.len()]);
            }
        }
        assert forall|i: int, j: int| 0 <= i < k && 0 <= j < n && i != j implies all.contains(
            #[trigger] connect(PeerId::Public(i as u32), PeerId::Public(j as u32)),
        ) by {
            let x = connect::<B>(PeerId::Public(i as u32), PeerId::Public(j as u32));
            if i < k - 1 {
                assert(before.contains(x));
                let at = choose|at: int| 0 <= at < before.len() && before[at] == x;
                assert(all[at] == x);
            } else {
                assert(row.contains(x));
                let at = choose|at: int| 0 <= at < row.len() && row[at] == x;
                assert(all[before.len() + at] == x);
            }
        }
    }
}

/// The `Connect`s of the first `k` private peers are sound.
proof fn lemma_fan_out_connects<const B: usize>(k: nat, n: nat, np: nat)
    requires
        k <= np <= 0x1_0000_0000,
        n <= 0x1_0000_0000,
    ensures
        forall|i: int|
            0 <= i < private_fan_out::<B>(k, n).len() ==> connect_is_sound(
                #[trigger] private_fan_out::<B>(k, n)[i],
                n,
                np,
            ),
    decreases k,
{
    if k > 0 {
        let from = PeerId::Private((k - 1) as u32);
        let before = private_fan_out::<B>((k - 1) as nat, n);
        let row = connects_from::<B>(from, n);
        let all = private_fan_out::<B>(k, n);
        lemma_fan_out_connects::<B>((k - 1) as nat, n, np);
        lemma_connects_from::<B>(from, n);
        assert forall|i: int| 0 <= i < all.len() implies connect_is_sound(
            #[trigger] all[i],
            n,
            np,
        ) by {
            if i < before.len() {
                assert(all[i] == before[i]);
            } else {
                assert(all[i] == row[i - before.len()]);
            }
        }
    }
}

/// The harness leaves the overlay wired and balanced.
pub proof fn lemma_initial_is_wired<const B: usize>(n: nat, np: nat, use_reconciliation: bool)
    requires
        n <= 0x1_0000_0000,
        np <= 0x1_0000_0000,
    ensures
        wired(initial::<B>(n, np, use_reconciliation), n, np),
        balanced(initial::<B>(n, np, use_reconciliation)),
{
    let s = initial::<B>(n, np, use_reconciliation);
    lemma_wiring_connects::<B>(n, np);
    assert forall|i: int, j: int| 0 <= i < n && 0 <= j < n && i != j implies #[trigger]
        linked_or_pending(s, i, j) by {
        assert(s.in_flight.contains(
            connect(PeerId::Public(i as u32), PeerId::Public(j as u32)),
        ));
    }
    lemma_fresh_totals(s.peers);
}

/// Peers that have counted nothing add up to nothing.
proof fn lemma_fresh_totals<const B: usize>(peers: Seq<PeerView<B>>)
    requires
        forall|k: int|
            0 <= k < peers.len() ==> (#[trigger] peers[k]).bytes_sent == 0 && peers[k].bytes_received
                == 0,
    ensures
        total_sent(peers) == 0,
        total_received(peers) == 0,
    decreases peers.len(),
{
    if peers.len() > 0 {
        lemma_fresh_totals(peers.drop_last());
    }
}

/// A step keeps the overlay wired.
pub proof fn lemma_step_keeps_wired<const B: usize>(
    s: Network<B>,
    t: Network<B>,
    k: int,
    consumed: Option<int>,
    out: Seq<Envelope<B>>,
    n: nat,
    np: nat,
)
    requires
        n <= 0x1_0000_0000,
        np <= 0x1_0000_0000,
        wired(s, n, np),
        step(s, t, k, consumed, out),
    ensures
        wired(t, n, np),
{
    let pre = s.peers[k];
    let post = t.peers[k];
    match consumed {
        Some(at) => {
            let e = s.in_flight[at];
            let kept = s.in_flight.remove(at);
            lemma_links_change_on_connect_only(pre, e.message, post, out);
            assert(connect_is_sound(e, n, np));
            assert forall|i: int| 0 <= i < t.in_flight.len() implies connect_is_sound(
                #[trigger] t.in_flight[i],
                n,
                np,
            ) by {
                if i < kept.len() {
                    if i < at {
                        assert(t.in_flight[i] == s.in_flight[i]);
                    } else {
                        assert(t.in_flight[i] == s.in_flight[i + 1]);
                    }
                } else {
                    assert(t.in_flight[i] == out[i - kept.len()]);
                }
            }
            assert forall|i: int, j: int| 0 <= i < n && 0 <= j < n && i != j implies #[trigger]
                linked_or_pending(t, i, j) by {
                let from = PeerId::Public(i as u32);
                let x = connect::<B>(from, PeerId::Public(j as u32));
                assert(linked_or_pending(s, i, j));
                if s.peers[j].outbound.contains(from) {
                    if j == k {
                        if e.message is Connect {
                            let w = choose|w: int|
                                0 <= w < pre.outbound.len() && pre.outbound[w] == from;
                            assert(post.outbound[w] == from);
                        }
                    }
                } else {
                    let w = choose|w: int| 0 <= w < s.in_flight.len() && s.in_flight[w] == x;
                    if w == at {
                        assert(s.peers[j].id == PeerId::Public(j as u32));
                        assert(s.peers[k].id == identifier_at(k, n));
                        assert(k == j);
                        assert(post.outbound.last() == from);
                    } else if w < at {
                        assert(t.in_flight[w] == x);
                    } else {
                        assert(t.in_flight[w - 1] == x);
                    }
                }
            }
            assert forall|p: int| n <= p < n + np implies (#[trigger] t.peers[p]).inbound.len() == 0
                && t.peers[p].outbound == public_ids(n) by {
                if p == k {
                    assert(s.peers[k].id == identifier_at(k, n));
                }
            }
            assert forall|p: int| 0 <= p < n + np implies no_self_connection(
                #[trigger] t.peers[p],
            ) by {
                assert(no_self_connection(s.peers[p]));
                if p == k {
                    lemma_connect_keeps_self_out(pre, e.message, post, out);
                }
            }
        },
        None => {
            lemma_acting_keeps_links(pre, post, out);
            assert forall|i: int| 0 <= i < t.in_flight.len() implies connect_is_sound(
                #[trigger] t.in_flight[i],
                n,
                np,
            ) by {
                if i < s.in_flight.len() {
                    assert(t.in_flight[i] == s.in_flight[i]);
                } else {
                    assert(t.in_flight[i] == out[i - s.in_flight.len()]);
                }
            }
            assert forall|i: int, j: int| 0 <= i < n && 0 <= j < n && i != j implies #[trigger]
                linked_or_pending(t, i, j) by {
                let from = PeerId::Public(i as u32);
                let x = connect::<B>(from, PeerId::Public(j as u32));
                assert(linked_or_pending(s, i, j));
                if !s.peers[j].outbound.contains(from) {
                    let w = choose|w: int| 0 <= w < s.in_flight.len() && s.in_flight[w] == x;
                    assert(t.in_flight[w] == x);
                }
            }
        },
    }
}

/// Every state of a run is wired and balanced.
pub proof fn lemma_run_is_wired_and_balanced<const B: usize>(
    trace: Seq<Network<B>>,
    n: nat,
    np: nat,
    use_reconciliation: bool,
)
    requires
        n <= 0x1_0000_0000,
        np <= 0x1_0000_0000,
        is_run(trace, n, np, use_reconciliation),
    ensures
        wired(trace.last(), n, np),
        balanced(trace.last()),
    decreases trace.len(),
{
    if trace.len() == 1 {
        lemma_initial_is_wired::<B>(n, np, use_reconciliation);
    } else {
        let shorter = trace.drop_last();
        assert forall|i: int| 0 <= i < shorter.len() - 1 implies next(
            #[trigger] shorter[i],
            shorter[i + 1],
        ) by {
            assert(next(trace[i], trace[i + 1]));
        }
        lemma_run_is_wired_and_balanced(shorter, n, np, use_reconciliation);
        let s = trace[trace.len() - 2];
        let t = trace.last();
        assert(next(s, t));
        let (k, consumed, out) = choose|k: int, consumed: Option<int>, out: Seq<Envelope<B>>|
            step(s, t, k, consumed, out);
        lemma_step_keeps_wired(s, t, k, consumed, out, n, np);
        lemma_step_keeps_balance(s, t, k, consumed, out);
    }
}

/// Handshake symmetry: once a run that started from the harness's wiring
/// has nothing left in flight, any two distinct public peers have each other
/// as outbound neighbours, and every private peer has every public peer as an
/// outbound neighbour and no inbound one.
pub proof fn theorem_handshake_symmetry<const B: usize>(
    trace: Seq<Network<B>>,
    n: nat,
    np: nat,
    use_reconciliation: bool,
)
    requires
        n <= 0x1_0000_0000,
        np <= 0x1_0000_0000,
        is_run(trace, n, np, use_reconciliation),
        quiescent(trace.last()),
    ensures
        fully_connected(trace.last(), n, np),
{
    lemma_run_is_wired_and_balanced(trace, n, np, use_reconciliation);
    let s = trace.last();
    assert forall|i: int, j: int| 0 <= i < n && 0 <= j < n && i != j implies #[trigger]
        has_outbound(s, j, i) by {
        assert(linked_or_pending(s, i, j));
    }
}

/// No self-connection: at every moment of a run, no peer is among its own
/// inbound or outbound neighbours.
pub proof fn theorem_no_self_connection<const B: usize>(
    trace: Seq<Network<B>>,
    n: nat,
    np: nat,
    use_reconciliation: bool,
)
    requires
        n <= 0x1_0000_0000,
        np <= 0x1_0000_0000,
        is_run(trace, n, np, use_reconciliation),
    ensures
        forall|k: int|
            0 <= k < trace.last().peers.len() ==> no_self_connection(
                #[trigger] trace.last().peers[k],
            ),
{
    lemma_run_is_wired_and_balanced(trace, n, np, use_reconciliation);
}

/// Conservation: at every moment of a run, the bytes that the peers sent,
/// with those that the harness injected, are the bytes that the peers
/// received, with those still in flight. Once nothing is in flight, all that
/// was sent or injected has been received.
pub proof fn theorem_conservation<const B: usize>(
    trace: Seq<Network<B>>,
    n: nat,
    np: nat,
    use_reconciliation: bool,
)
    requires
        n <= 0x1_0000_0000,
        np <= 0x1_0000_0000,
        is_run(trace, n, np, use_reconciliation),
    ensures
        total_sent(trace.last().peers) + trace.last().injected == total_received(
            trace.last().peers,
        ) + total_wire_size(trace.last().in_flight),
        trace.last().injected == total_wire_size(wiring::<B>(n, np)),
        quiescent(trace.last()) ==> total_received(trace.last().peers) == total_sent(
            trace.last().peers,
        ) + total_wire_size(wiring::<B>(n, np)),
{
    lemma_run_is_wired_and_balanced(trace, n, np, use_reconciliation);
    lemma_injected_stays(trace, n, np, use_reconciliation);
}

/// No step injects anything.
proof fn lemma_injected_stays<const B: usize>(
    trace: Seq<Network<B>>,
    n: nat,
    np: nat,
    use_reconciliation: bool,
)
    requires
        is_run(trace, n, np, use_reconciliation),
    ensures
        trace.last().injected == total_wire_size(wiring::<B>(n, np)),
    decreases trace.len(),
{
    if trace.len() > 1 {
        let shorter = trace.drop_last();
        assert forall|i: int| 0 <= i < shorter.len() - 1 implies next(
            #[trigger] shorter[i],
            shorter[i + 1],
        ) by {
            assert(next(trace[i], trace[i + 1]));
        }
        lemma_injected_stays(shorter, n, np, use_reconciliation);
        assert(next(trace[trace.len() - 2], trace.last()));
    }
}

} // verus!
