//! The simulation harness: the parameters of a run, the peers it starts with
//! and the `Connect` messages that wire them up.

use crate::messages::{Connect, Envelope, Message};
use crate::peer::{fresh_view, Peer, PeerView, REPORT_DELAY_SEC};
use crate::peer_id::PeerId;
use vstd::prelude::*;

verus! {

/// The shortest run: the deadline comes after the peers' traffic reports.
pub const MIN_TRAFFIC_TIMEOUT_SEC: u64 = REPORT_DELAY_SEC + 1;

/// The parameters of a simulation run.
#[derive(Copy, Clone, Debug)]
pub struct SimulatorParameters {
    /// Whether peers reconcile (Erlay) or flood.
    pub use_reconciliation: bool,
    /// Number of private peers, which have no inbound connections.
    pub num_private_nodes: u32,
    /// Number of public peers, which have inbound connections.
    pub num_public_nodes: u32,
    /// Seed for a random number generator.
    pub seed: Option<u64>,
}

/// The run's deadline in seconds: 0.57 for each private peer and 1 for each
/// public one, rounded up, and at least `MIN_TRAFFIC_TIMEOUT_SEC`.
pub open spec fn traffic_timeout(num_private: nat, num_public: nat) -> nat {
    let hundredths = 57 * num_private + 100 * num_public;
    let rounded_up = (hundredths + 99) / 100;
    if rounded_up < MIN_TRAFFIC_TIMEOUT_SEC {
        MIN_TRAFFIC_TIMEOUT_SEC as nat
    } else {
        rounded_up
    }
}

/// Seconds after which all relay and reconciliation rounds of a run with
/// these parameters are taken to be over.
pub fn estimate_traffic_timeout_sec(parameters: &SimulatorParameters) -> (seconds: u64)
    ensures
        seconds == traffic_timeout(
            parameters.num_private_nodes as nat,
            parameters.num_public_nodes as nat,
        ),
{
    let hundredths: u64 = 57 * (parameters.num_private_nodes as u64) + 100 * (
    parameters.num_public_nodes as u64);
    let rounded_up: u64 = (hundredths + 99) / 100;
    if rounded_up < MIN_TRAFFIC_TIMEOUT_SEC {
        MIN_TRAFFIC_TIMEOUT_SEC
    } else {
        rounded_up
    }
}

/// The identifiers of the first `n` public peers, in order.
pub open spec fn public_ids(n: nat) -> Seq<PeerId> {
    Seq::new(n, |i: int| PeerId::Public(i as u32))
}

/// A `Connect` from `from` on its way to `to`.
pub open spec fn connect<const B: usize>(from: PeerId, to: PeerId) -> Envelope<B> {
    Envelope { to, message: Message::Connect(Connect { from_id: from }) }
}

/// The `Connect`s from `from` to the first `n` public peers, in their order,
/// leaving `from` itself out.
pub open spec fn connects_from<const B: usize>(from: PeerId, n: nat) -> Seq<Envelope<B>>
    decreases n,
{
    if n == 0 {
        Seq::empty()
    } else {
        let to = PeerId::Public((n - 1) as u32);
        let before = connects_from::<B>(from, (n - 1) as nat);
        if to == from {
            before
        } else {
            before.push(connect(from, to))
        }
    }
}

/// The full mesh among `n` public peers, as far as the first `k` senders go.
pub open spec fn public_mesh<const B: usize>(k: nat, n: nat) -> Seq<Envelope<B>>
    decreases k,
{
    if k == 0 {
        Seq::empty()
    } else {
        public_mesh::<B>((k - 1) as nat, n) + connects_from::<B>(
            PeerId::Public((k - 1) as u32),
            n,
        )
    }
}

/// The connections of the first `k` private peers to all `n` public ones.
pub open spec fn private_fan_out<const B: usize>(k: nat, n: nat) -> Seq<Envelope<B>>
    decreases k,
{
    if k == 0 {
        Seq::empty()
    } else {
        private_fan_out::<B>((k - 1) as nat, n) + connects_from::<B>(
            PeerId::Private((k - 1) as u32),
            n,
        )
    }
}

/// The wiring pass: every public peer connects to every other one, then
/// every private peer to every public one.
pub open spec fn wiring<const B: usize>(num_public: nat, num_private: nat) -> Seq<Envelope<B>> {
    public_mesh::<B>(num_public, num_public) + private_fan_out::<B>(num_private, num_public)
}

/// The public peers of a run, `Public(0)` first, each freshly created.
pub fn public_peers<const B: usize>(parameters: &SimulatorParameters) -> (peers: Vec<Peer<B>>)
    ensures
        peers@.len() == parameters.num_public_nodes,
        forall|i: int|
            0 <= i < peers@.len() ==> (#[trigger] peers@[i]).wf() && peers@[i]@ == fresh_view::<B>(
                PeerId::Public(i as u32),
                parameters.use_reconciliation,
            ),
{
    let mut peers: Vec<Peer<B>> = Vec::new();
    let mut id: u32 = 0;
    while id < parameters.num_public_nodes
        invariant
            id <= parameters.num_public_nodes,
            peers@.len() == id,
            forall|i: int|
                0 <= i < peers@.len() ==> (#[trigger] peers@[i]).wf() && peers@[i]@
                    == fresh_view::<B>(PeerId::Public(i as u32), parameters.use_reconciliation),
        decreases parameters.num_public_nodes - id,
    {
        peers.push(Peer::new(PeerId::Public(id), parameters.use_reconciliation));
        id += 1;
    }
    peers
}

/// The private peers of a run, `Private(0)` first, each with every public
/// peer as an outbound neighbour.
pub fn private_peers<const B: usize>(parameters: &SimulatorParameters) -> (peers: Vec<Peer<B>>)
    ensures
        peers@.len() == parameters.num_private_nodes,
        forall|i: int|
            0 <= i < peers@.len() ==> (#[trigger] peers@[i]).wf() && peers@[i]@ == (PeerView {
                outbound: public_ids(parameters.num_public_nodes as nat),
                ..fresh_view::<B>(PeerId::Private(i as u32), parameters.use_reconciliation)
            }),
{
    let mut peers: Vec<Peer<B>> = Vec::new();
    let mut id: u32 = 0;
    while id < parameters.num_private_nodes
        invariant
            id <= parameters.num_private_nodes,
            peers@.len() == id,
            forall|i: int|
                0 <= i < peers@.len() ==> (#[trigger] peers@[i]).wf() && peers@[i]@ == (PeerView {
                    outbound: public_ids(parameters.num_public_nodes as nat),
                    ..fresh_view::<B>(PeerId::Private(i as u32), parameters.use_reconciliation)
                }),
        decreases parameters.num_private_nodes - id,
    {
        let mut peer: Peer<B> = Peer::new(PeerId::Private(id), parameters.use_reconciliation);
        let mut public: u32 = 0;
        assert(public_ids(0) =~= Seq::<PeerId>::empty());
        while public < parameters.num_public_nodes
            invariant
                public <= parameters.num_public_nodes,
                peer.wf(),
                peer@ == (PeerView {
                    outbound: public_ids(public as nat),
                    ..fresh_view::<B>(PeerId::Private(id), parameters.use_reconciliation)
                }),
            decreases parameters.num_public_nodes - public,
        {
            assert(!public_ids(public as nat).contains(PeerId::Public(public)));
            peer.add_outbound_peer(PeerId::Public(public));
            assert(public_ids(public as nat).push(PeerId::Public(public)) =~= public_ids(
                (public + 1) as nat,
            ));
            public += 1;
        }
        peers.push(peer);
        id += 1;
    }
    peers
}

/// Appends the `Connect`s from `from` to the first `n` public peers.
fn push_connects<const B: usize>(out: &mut Vec<Envelope<B>>, from: PeerId, n: u32)
    ensures
        final(out)@ == old(out)@ + connects_from::<B>(from, n as nat),
{
    let mut to: u32 = 0;
    assert(out@ =~= old(out)@ + connects_from::<B>(from, 0));
    while to < n
        invariant
            to <= n,
            out@ == old(out)@ + connects_from::<B>(from, to as nat),
        decreases n - to,
    {
        let target = PeerId::Public(to);
        if target != from {
            out.push(Envelope { to: target, message: Message::Connect(Connect { from_id: from }) });
        }
        to += 1;
        assert(out@ =~= old(out)@ + connects_from::<B>(from, to as nat));
    }
}

/// The `Connect` messages of the wiring pass, in the order they are sent.
pub fn initial_connects<const B: usize>(parameters: &SimulatorParameters) -> (out: Vec<
    Envelope<B>,
>)
    ensures
        out@ == wiring::<B>(
            parameters.num_public_nodes as nat,
            parameters.num_private_nodes as nat,
        ),
{
    let n = parameters.num_public_nodes;
    let mut out: Vec<Envelope<B>> = Vec::new();
    let mut public: u32 = 0;
    assert(out@ =~= public_mesh::<B>(0, n as nat));
    while public < n
        invariant
            public <= n,
            out@ == public_mesh::<B>(public as nat, n as nat),
        decreases n - public,
    {
        push_connects(&mut out, PeerId::Public(public), n);
        public += 1;
    }
    let mut private: u32 = 0;
    assert(out@ =~= public_mesh::<B>(n as nat, n as nat) + private_fan_out::<B>(0, n as nat));
    while private < parameters.num_private_nodes
        invariant
            private <= parameters.num_private_nodes,
            out@ == public_mesh::<B>(n as nat, n as nat) + private_fan_out::<B>(
                private as nat,
                n as nat,
            ),
        decreases parameters.num_private_nodes - private,
    {
        push_connects(&mut out, PeerId::Private(private), n);
        private += 1;
        assert(out@ =~= public_mesh::<B>(n as nat, n as nat) + private_fan_out::<B>(
            private as nat,
            n as nat,
        ));
    }
    out
}

} // verus!
