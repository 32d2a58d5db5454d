use erlay_sim::harness::{
    estimate_traffic_timeout_sec, initial_connects, private_peers, public_peers,
    SimulatorParameters, MIN_TRAFFIC_TIMEOUT_SEC,
};
use erlay_sim::messages::{
    Connect, Envelope, Message, PeerTx, ReconcileRequest, ReconcileResult, Traffic, TrafficReport,
    Tx, TxRequest,
};
use erlay_sim::peer_id::PeerId;
use erlay_sim::recset::ShortId;
use erlay_sim::traffic_counter::{TrafficCounter, TrafficData};
use siphasher::sip::SipHasher;
use std::hash::Hasher;

fn parameters(public: u32, private: u32) -> SimulatorParameters {
    SimulatorParameters {
        use_reconciliation: false,
        num_private_nodes: private,
        num_public_nodes: public,
        seed: None,
    }
}

#[test]
fn peer_id_encoding() {
    assert_eq!(PeerId::Public(0).to_u64(), 1);
    assert_eq!(PeerId::Public(6).to_u64(), 7);
    assert_eq!(PeerId::Private(0).to_u64(), 1 << 16);
    assert_eq!(PeerId::Private(2).to_u64(), 3 << 16);
    assert_eq!(PeerId::Public(u32::MAX).to_u64(), 1 << 32);
    assert_eq!(PeerId::Private(u32::MAX).to_u64(), 1 << 48);
    let v: u64 = PeerId::Private(9).into();
    assert_eq!(v, 10 << 16);
    assert_eq!(u64::from(PeerId::Public(9)), 10);
}

#[test]
fn peer_id_decoding() {
    assert_eq!(PeerId::from_u64(1), PeerId::Public(0));
    assert_eq!(PeerId::from_u64(0xffff), PeerId::Public(0xfffe));
    assert_eq!(PeerId::from_u64(0x1_0000), PeerId::Private(0));
    assert_eq!(PeerId::from_u64(0x1_ffff), PeerId::Private(0));
    assert_eq!(PeerId::from_u64(5 << 16), PeerId::Private(4));
    assert_eq!(PeerId::from_u64(1 << 48), PeerId::Private(u32::MAX));
}

#[test]
fn peer_id_round_trip() {
    for i in [0u32, 1, 7, 0xfffe] {
        assert_eq!(PeerId::from_u64(PeerId::Public(i).to_u64()), PeerId::Public(i));
    }
    for i in [0u32, 1, 7, 0xffff, 0x1_0000, u32::MAX] {
        assert_eq!(PeerId::from_u64(PeerId::Private(i).to_u64()), PeerId::Private(i));
    }
    // Beyond 2^16 - 2 a public identifier's encoding reads as a private one.
    assert_eq!(PeerId::from_u64(PeerId::Public(0xffff).to_u64()), PeerId::Private(0));
}

#[test]
fn peer_id_kind() {
    assert!(PeerId::Public(3).public());
    assert!(!PeerId::Private(3).public());
}

#[test]
fn short_id_is_siphash_2_4_with_the_fixed_keys() {
    for b in [0u8, 1, 2, 255] {
        let mut hasher = SipHasher::new_with_keys(0xDE, 0xAD);
        hasher.write(&[b; 32]);
        assert_eq!(Tx([b; 32]).short_id(), hasher.finish());
    }
    let mut long = SipHasher::new_with_keys(0xDE, 0xAD);
    long.write(&[7u8; 1024]);
    assert_eq!(Tx([7u8; 1024]).short_id(), long.finish());
    assert_ne!(Tx([1u8; 32]).short_id(), Tx([2u8; 32]).short_id());
    assert_ne!(Tx([1u8; 32]).short_id(), u64::from_le_bytes([1u8; 8]));
    assert_eq!(Tx([1u8; 32]).short_id(), Tx([1u8; 32]).short_id());
}

#[test]
fn message_sizes() {
    let id = PeerId::Public(0);
    assert_eq!(PeerTx { from: id, data: Tx([0u8; 1024]) }.size_bytes(), 1032);
    assert_eq!(PeerTx { from: id, data: Tx([0u8; 32]) }.size_bytes(), 40);
    assert_eq!(Connect { from_id: id }.size_bytes(), 8);
    assert_eq!(ReconcileRequest { from_id: id, sketch: vec![0u8; 1024] }.size_bytes(), 1032);
    assert_eq!(ReconcileRequest { from_id: id, sketch: vec![] }.size_bytes(), 8);
    assert_eq!(ReconcileResult { from_id: id, missing: vec![1, 2, 3] }.size_bytes(), 32);
    assert_eq!(ReconcileResult { from_id: id, missing: vec![] }.size_bytes(), 8);
    assert_eq!(TxRequest { from_id: id, txid: 9 }.size_bytes(), 16);
    let wrapped: Message<32> = Message::ReconcileResult(ReconcileResult { from_id: id, missing: vec![1] });
    assert_eq!(wrapped.size_bytes(), 16);
    let wrapped: Message<32> = Message::PeerTx(PeerTx { from: id, data: Tx([0u8; 32]) });
    assert_eq!(wrapped.size_bytes(), 40);
    let wrapped: Message<32> = Message::Connect(Connect { from_id: id });
    assert_eq!(wrapped.size_bytes(), 8);
    let wrapped: Message<32> = Message::TxRequest(TxRequest { from_id: id, txid: 1 });
    assert_eq!(wrapped.size_bytes(), 16);
    let wrapped: Message<32> =
        Message::ReconcileRequest(ReconcileRequest { from_id: id, sketch: vec![0u8; 10] });
    assert_eq!(wrapped.size_bytes(), 18);
}

#[test]
fn traffic_counter_keeps_the_latest_report() {
    let mut counter = TrafficCounter::new(31);
    assert_eq!(counter.started(), 31);
    assert_eq!(counter.grand_total(), Some(0));
    counter.handle(TrafficReport { from_id: PeerId::Public(0), bytes_sent: 10, bytes_received: 20 });
    counter.handle(TrafficReport { from_id: PeerId::Private(0), bytes_sent: 1, bytes_received: 2 });
    assert_eq!(counter.grand_total(), Some(33));
    counter.handle(TrafficReport { from_id: PeerId::Public(0), bytes_sent: 100, bytes_received: 200 });
    assert_eq!(counter.grand_total(), Some(303));
    counter.handle(TrafficReport { from_id: PeerId::Private(0), bytes_sent: 0, bytes_received: 0 });
    assert_eq!(counter.grand_total(), Some(300));
}

#[test]
fn traffic_counter_total_that_does_not_fit() {
    let mut counter = TrafficCounter::new(1);
    counter.handle(TrafficReport {
        from_id: PeerId::Public(0),
        bytes_sent: u64::MAX,
        bytes_received: 0,
    });
    assert_eq!(counter.grand_total(), Some(u64::MAX));
    counter.handle(TrafficReport { from_id: PeerId::Public(1), bytes_sent: 0, bytes_received: 1 });
    assert_eq!(counter.grand_total(), None);
    counter.handle(TrafficReport { from_id: PeerId::Public(1), bytes_sent: 0, bytes_received: 0 });
    assert_eq!(counter.grand_total(), Some(u64::MAX));
    counter.handle(TrafficReport {
        from_id: PeerId::Public(0),
        bytes_sent: u64::MAX,
        bytes_received: 1,
    });
    assert_eq!(counter.grand_total(), None);
}

#[test]
fn traffic_data_default_is_zero() {
    let data = TrafficData::default();
    assert_eq!(data.bytes_sent, 0);
    assert_eq!(data.bytes_received, 0);
}

#[test]
fn traffic_timeout_formula() {
    assert_eq!(MIN_TRAFFIC_TIMEOUT_SEC, 6);
    // 0.57 * 8 + 2 = 6.56
    assert_eq!(estimate_traffic_timeout_sec(&parameters(2, 8)), 7);
    // 0.57 * 100 + 10 = 67
    assert_eq!(estimate_traffic_timeout_sec(&parameters(10, 100)), 67);
    // 0.57 * 1 + 10 = 10.57
    assert_eq!(estimate_traffic_timeout_sec(&parameters(10, 1)), 11);
    assert_eq!(estimate_traffic_timeout_sec(&parameters(0, 0)), 6);
    assert_eq!(estimate_traffic_timeout_sec(&parameters(1, 1)), 6);
    assert_eq!(estimate_traffic_timeout_sec(&parameters(6, 0)), 6);
    assert_eq!(estimate_traffic_timeout_sec(&parameters(7, 0)), 7);
    assert_eq!(
        estimate_traffic_timeout_sec(&parameters(u32::MAX, u32::MAX)),
        (157 * (u32::MAX as u64) + 99) / 100
    );
}

#[test]
fn harness_creates_the_peers() {
    let mut p = parameters(2, 3);
    p.use_reconciliation = true;
    let public = public_peers::<32>(&p);
    let private = private_peers::<32>(&p);
    assert_eq!(public.len(), 2);
    assert_eq!(private.len(), 3);
    for (i, peer) in public.iter().enumerate() {
        assert_eq!(peer.id(), PeerId::Public(i as u32));
        assert!(peer.outbound().is_empty());
        assert!(peer.inbound().is_empty());
        assert!(peer.use_reconciliation());
    }
    for (i, peer) in private.iter().enumerate() {
        assert_eq!(peer.id(), PeerId::Private(i as u32));
        assert_eq!(peer.outbound(), &vec![PeerId::Public(0), PeerId::Public(1)]);
        assert!(peer.inbound().is_empty());
        assert_eq!(peer.seed(), ((i as u64) + 1) << 16);
    }
}

fn connect(from: PeerId, to: PeerId) -> (PeerId, PeerId) {
    (from, to)
}

fn as_pairs(out: &[Envelope<32>]) -> Vec<(PeerId, PeerId)> {
    out.iter()
        .map(|e| match &e.message {
            Message::Connect(c) => (c.from_id, e.to),
            _ => panic!("not a connect"),
        })
        .collect()
}

#[test]
fn harness_wiring() {
    let out = initial_connects::<32>(&parameters(3, 2));
    let public = PeerId::Public;
    let private = PeerId::Private;
    assert_eq!(
        as_pairs(&out),
        vec![
            connect(public(0), public(1)),
            connect(public(0), public(2)),
            connect(public(1), public(0)),
            connect(public(1), public(2)),
            connect(public(2), public(0)),
            connect(public(2), public(1)),
            connect(private(0), public(0)),
            connect(private(0), public(1)),
            connect(private(0), public(2)),
            connect(private(1), public(0)),
            connect(private(1), public(1)),
            connect(private(1), public(2)),
        ]
    );
    assert!(initial_connects::<32>(&parameters(0, 5)).is_empty());
    assert!(initial_connects::<32>(&parameters(1, 0)).is_empty());
    assert_eq!(initial_connects::<32>(&parameters(2, 8)).len(), 2 + 16);
}
