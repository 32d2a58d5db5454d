use erlay_sim::harness::{initial_connects, private_peers, public_peers, SimulatorParameters};
use erlay_sim::messages::{Envelope, Message, Traffic};
use erlay_sim::peer::Peer;
use erlay_sim::peer_id::PeerId;
use erlay_sim::recset::{DecodeOutcome, DecodeRequest, ShortId};
use erlay_sim::traffic_counter::TrafficCounter;
use std::collections::VecDeque;

// The field arithmetic behind a real sketch is not linked into the tests. A
// bitmap stands in for it: each identifier gets a bit of its own the first
// time it is seen, so sketches still merge by exclusive-or, and decoding reads
// the set bits and fails where there are more of them than the capacity.
struct Bitmap {
    known: Vec<u64>,
}

impl Bitmap {
    fn element_sketch(&mut self, id: u64, len: usize) -> Vec<u8> {
        let position = match self.known.iter().position(|k| *k == id) {
            Some(position) => position,
            None => {
                self.known.push(id);
                self.known.len() - 1
            }
        };
        let mut bytes = vec![0u8; len];
        bytes[position / 8] |= 1 << (position % 8);
        bytes
    }

    fn decode(&self, request: &DecodeRequest) -> DecodeOutcome {
        let mut found = Vec::new();
        for (position, id) in self.known.iter().enumerate() {
            if request.sketch[position / 8] & (1 << (position % 8)) != 0 {
                found.push(*id);
            }
        }
        let mut buffer = vec![0u64; request.capacity];
        if found.len() > request.capacity {
            return DecodeOutcome { buffer, count: None };
        }
        for (i, id) in found.iter().enumerate() {
            buffer[i] = *id;
        }
        DecodeOutcome { buffer, count: Some(found.len()) }
    }
}

struct Network<const B: usize> {
    num_public: usize,
    peers: Vec<Peer<B>>,
    in_flight: VecDeque<Envelope<B>>,
    injected: u64,
    codec: Bitmap,
}

impl<const B: usize> Network<B> {
    fn wired(num_public: u32, num_private: u32, use_reconciliation: bool) -> Network<B> {
        let parameters = SimulatorParameters {
            use_reconciliation,
            num_private_nodes: num_private,
            num_public_nodes: num_public,
            seed: None,
        };
        let mut peers = public_peers::<B>(&parameters);
        peers.extend(private_peers::<B>(&parameters));
        let wiring = initial_connects::<B>(&parameters);
        let injected = wiring.iter().map(|e| e.message.size_bytes()).sum();
        let mut network = Network {
            num_public: num_public as usize,
            peers,
            in_flight: wiring.into_iter().collect(),
            injected,
            codec: Bitmap { known: vec![] },
        };
        network.run();
        network
    }

    fn position(&self, id: PeerId) -> usize {
        match id {
            PeerId::Public(i) => i as usize,
            PeerId::Private(i) => self.num_public + i as usize,
        }
    }

    fn run(&mut self) {
        while let Some(envelope) = self.in_flight.pop_front() {
            let at = self.position(envelope.to);
            let peer = &mut self.peers[at];
            let out = match envelope.message {
                Message::PeerTx(msg) => {
                    assert!(peer.can_handle_peer_tx());
                    let sketch = self.codec.element_sketch(msg.data.short_id(), 1024);
                    peer.handle_peer_tx(msg, &sketch)
                }
                Message::Connect(msg) => {
                    assert!(peer.can_handle_connect());
                    peer.handle_connect(msg)
                }
                Message::ReconcileRequest(msg) => {
                    assert!(peer.can_handle_reconcile_request(&msg));
                    match peer.handle_reconcile_request(&msg) {
                        Some(request) => {
                            let outcome = self.codec.decode(&request);
                            assert!(peer.can_handle_decoded(&outcome));
                            peer.handle_decoded(msg.from_id, outcome)
                        }
                        None => vec![],
                    }
                }
                Message::ReconcileResult(msg) => {
                    assert!(peer.can_handle_reconcile_result(&msg));
                    peer.handle_reconcile_result(&msg)
                }
                Message::TxRequest(msg) => {
                    assert!(peer.can_handle_tx_request());
                    peer.handle_tx_request(msg)
                }
            };
            self.in_flight.extend(out);
        }
    }

    fn seed_transactions(&mut self) {
        for at in 0..self.peers.len() {
            assert!(self.peers[at].can_seed_transaction());
            let out = self.peers[at].seed_transaction();
            self.in_flight.extend(out);
        }
        self.run();
    }

    fn reconcile(&mut self) {
        for at in 0..self.peers.len() {
            assert!(self.peers[at].can_reconcile());
            let out = self.peers[at].reconciliation_round();
            self.in_flight.extend(out);
        }
        self.run();
    }

    fn total_sent(&self) -> u64 {
        self.peers.iter().map(|p| p.bytes_sent()).sum()
    }

    fn total_received(&self) -> u64 {
        self.peers.iter().map(|p| p.bytes_received()).sum()
    }

    fn grand_total(&self) -> u64 {
        let mut counter = TrafficCounter::new(7);
        for peer in self.peers.iter() {
            counter.handle(peer.traffic_report());
        }
        counter.grand_total().unwrap()
    }
}

fn plain_run<const B: usize>() -> Network<B> {
    let mut network = Network::<B>::wired(2, 8, false);
    network.seed_transactions();
    network.reconcile();
    network
}

fn erlay_run<const B: usize>() -> Network<B> {
    let mut network = Network::<B>::wired(2, 8, true);
    network.seed_transactions();
    network.reconcile();
    network
}

#[test]
fn wiring_ends_in_the_intended_overlay() {
    let network = Network::<32>::wired(3, 4, false);
    for i in 0..3u32 {
        let peer = &network.peers[i as usize];
        for j in 0..3u32 {
            assert_eq!(peer.outbound().contains(&PeerId::Public(j)), i != j);
            assert_eq!(peer.inbound().contains(&PeerId::Public(j)), i != j);
        }
        for p in 0..4u32 {
            assert!(peer.inbound().contains(&PeerId::Private(p)));
            assert!(!peer.outbound().contains(&PeerId::Private(p)));
        }
        assert_eq!(peer.outbound().len(), 2);
        assert_eq!(peer.inbound().len(), 6);
    }
    for p in 0..4usize {
        let peer = &network.peers[3 + p];
        assert_eq!(
            peer.outbound(),
            &vec![PeerId::Public(0), PeerId::Public(1), PeerId::Public(2)]
        );
        assert!(peer.inbound().is_empty());
    }
}

#[test]
fn no_peer_is_its_own_neighbour() {
    for network in [plain_run::<32>(), erlay_run::<32>()] {
        for peer in network.peers.iter() {
            assert!(!peer.outbound().contains(&peer.id()));
            assert!(!peer.inbound().contains(&peer.id()));
        }
    }
}

#[test]
fn plain_flooding_delivers_every_transaction_to_every_peer() {
    let network = plain_run::<32>();
    for peer in network.peers.iter() {
        assert_eq!(peer.mempool_size(), 8);
    }
}

#[test]
fn erlay_delivers_every_transaction_to_every_peer() {
    let network = erlay_run::<32>();
    for peer in network.peers.iter() {
        assert_eq!(peer.mempool_size(), 8);
    }
}

#[test]
fn erlay_costs_less_than_plain_flooding() {
    let plain = plain_run::<1024>();
    let erlay = erlay_run::<1024>();
    for peer in plain.peers.iter().chain(erlay.peers.iter()) {
        assert_eq!(peer.mempool_size(), 8);
    }
    assert!(erlay.grand_total() < plain.grand_total());
}

#[test]
fn traffic_is_conserved() {
    for network in [plain_run::<32>(), erlay_run::<32>()] {
        assert_eq!(network.injected, 18 * 8);
        assert_eq!(network.total_received(), network.total_sent() + network.injected);
        assert_eq!(network.grand_total(), network.total_sent() + network.total_received());
    }
}

#[test]
fn equal_parameters_give_equal_totals() {
    assert_eq!(plain_run::<32>().grand_total(), plain_run::<32>().grand_total());
    assert_eq!(erlay_run::<32>().grand_total(), erlay_run::<32>().grand_total());
    let first = erlay_run::<32>();
    let second = erlay_run::<32>();
    for (a, b) in first.peers.iter().zip(second.peers.iter()) {
        assert_eq!(a.bytes_sent(), b.bytes_sent());
        assert_eq!(a.bytes_received(), b.bytes_received());
        assert_eq!(a.seed(), b.seed());
    }
}
