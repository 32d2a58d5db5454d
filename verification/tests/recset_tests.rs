use erlay_sim::messages::Tx;
use erlay_sim::recset::{DecodeOutcome, DecodeRequest, RecSet, ReconcileError, ShortId};
use erlay_sim::sketch::{empty_sketch, merge, serialized_size};

// The field arithmetic behind a real sketch is not linked into the tests. A
// bitmap stands in for it: each known identifier owns one bit of the sketch,
// so sketches still merge by exclusive-or, and decoding reads the set bits and
// fails where there are more of them than the capacity.
struct Bitmap {
    known: Vec<u64>,
}

impl Bitmap {
    fn of(txs: &[Tx<32>]) -> Bitmap {
        let mut known = Vec::new();
        for tx in txs {
            let id = tx.short_id();
            if !known.contains(&id) {
                known.push(id);
            }
        }
        Bitmap { known }
    }

    fn element_sketch(&self, id: u64, capacity: usize) -> Vec<u8> {
        let position = self.known.iter().position(|k| *k == id).unwrap();
        let mut bytes = vec![0u8; 8 * capacity];
        bytes[position / 8] |= 1 << (position % 8);
        bytes
    }

    fn decode(&self, request: &DecodeRequest) -> DecodeOutcome {
        let mut found = Vec::new();
        for (position, id) in self.known.iter().enumerate() {
            if request.sketch[position / 8] & (1 << (position % 8)) != 0 {
                found.push(*id);
            }
        }
        let mut buffer = vec![0u64; request.capacity];
        if found.len() > request.capacity {
            return DecodeOutcome { buffer, count: None };
        }
        for (i, id) in found.iter().enumerate() {
            buffer[i] = *id;
        }
        DecodeOutcome { buffer, count: Some(found.len()) }
    }
}

fn set_from_range(range: Vec<u8>, capacity: usize, codec: &Bitmap) -> RecSet<Tx<32>> {
    let mut set = RecSet::<Tx<32>>::new(capacity);
    for b in range {
        let tx = Tx([b; 32]);
        let sketch = codec.element_sketch(tx.short_id(), capacity);
        set.insert(tx, &sketch);
    }
    set
}

fn even_indexed(range: &[u8]) -> Vec<u8> {
    range.iter().enumerate().filter(|(i, _)| *i % 2 == 0).map(|(_, n)| *n).collect()
}

#[test]
fn test_reconciliation() {
    let txs_alice = vec![Tx([1u8; 32]), Tx([2u8; 32]), Tx([3u8; 32]), Tx([4u8; 32])];
    let txs_bob = vec![Tx([1u8; 32]), Tx([2u8; 32])];
    let codec = Bitmap::of(&txs_alice);

    let mut rec_set_alice = RecSet::<Tx<32>>::with_seed(16, 42u64);
    for tx in txs_alice.iter() {
        rec_set_alice.insert(tx.clone(), &codec.element_sketch(tx.short_id(), 16));
    }

    let mut rec_set_bob = RecSet::<Tx<32>>::with_seed(16, 42u64);
    for tx in txs_bob {
        rec_set_bob.insert(tx, &codec.element_sketch(tx.short_id(), 16));
    }

    let bob_sketch = rec_set_bob.sketch();
    let request = rec_set_alice.reconcile_with(&bob_sketch).expect("Reconcile with Alice");
    assert_eq!(request.capacity, 16);
    assert_eq!(request.seed, Some(42));
    let missing = RecSet::<Tx<32>>::differences(codec.decode(&request)).expect("Reconcile with Alice");

    assert_eq!(missing.len(), 2);

    for id in missing {
        assert!(rec_set_alice.get(&id).is_some());
        assert!(rec_set_bob.get(&id).is_none());
    }
}

#[test]
fn test_bisect_reconciliation() {
    let d = 16;

    // There are exactly 24 differences, but since d = 16, simple reconciliation fails
    let a: Vec<u8> = (0..32).collect();
    let b: Vec<u8> = (0..8).collect();
    let codec = Bitmap::of(&a.iter().map(|n| Tx([*n; 32])).collect::<Vec<_>>());

    let b_half = even_indexed(&b);
    let a_half = even_indexed(&a);

    let alice_set_full = set_from_range(a.clone(), d, &codec);
    let a_whole = alice_set_full.sketch();
    let a_half = set_from_range(a_half, d, &codec).sketch();

    let bob_set_full = set_from_range(b.clone(), d, &codec);
    let b_whole = bob_set_full.sketch();
    let b_half = set_from_range(b_half, d, &codec).sketch();

    let request = RecSet::<Tx<32>>::reconcile(&a_whole, &b_whole, d, None).unwrap();
    let first_try = RecSet::<Tx<32>>::differences(codec.decode(&request));
    assert_eq!(first_try, Err(ReconcileError::DecodeFailed));

    let (halves, rests) =
        RecSet::<Tx<32>>::bisect_with(&a_whole, &a_half, &b_whole, &b_half, d, None).unwrap();
    let res =
        RecSet::<Tx<32>>::bisect_differences(codec.decode(&halves), codec.decode(&rests));
    match res {
        Ok(mut diffs) => {
            println!("Success: {} diffs {:?}", diffs.len(), diffs);
            assert_eq!(diffs.len(), 24);
            let mut expected: Vec<u64> = (8u8..32).map(|n| Tx([n; 32]).short_id()).collect();
            expected.sort();
            diffs.sort();
            assert_eq!(diffs, expected);
        }
        Err(_) => panic!("Bisection failed"),
    }
}

#[test]
fn reconcile_without_bisect_when_capacity_suffices() {
    let d = 24;
    let a: Vec<u8> = (0..32).collect();
    let b: Vec<u8> = (0..8).collect();
    let codec = Bitmap::of(&a.iter().map(|n| Tx([*n; 32])).collect::<Vec<_>>());
    let a_whole = set_from_range(a, d, &codec).sketch();
    let b_whole = set_from_range(b, d, &codec).sketch();
    let request = RecSet::<Tx<32>>::reconcile(&a_whole, &b_whole, d, None).unwrap();
    let mut diffs = RecSet::<Tx<32>>::differences(codec.decode(&request)).unwrap();
    diffs.sort();
    assert_eq!(diffs.len(), 24);
}

#[test]
fn empty_sets_reconcile_to_nothing() {
    let codec = Bitmap { known: vec![] };
    let alice = RecSet::<Tx<32>>::with_seed(16, 7);
    let bob = RecSet::<Tx<32>>::with_seed(16, 7);
    let request = alice.reconcile_with(&bob.sketch()).unwrap();
    assert_eq!(request.sketch, vec![0u8; 128]);
    let missing = RecSet::<Tx<32>>::differences(codec.decode(&request)).unwrap();
    assert_eq!(missing, Vec::<u64>::new());
}

#[test]
fn reconcile_with_zero_sketch_returns_every_local_id() {
    let txs = vec![Tx([9u8; 32]), Tx([8u8; 32]), Tx([7u8; 32])];
    let codec = Bitmap::of(&txs);
    let mut set = RecSet::<Tx<32>>::new(16);
    for tx in txs.iter() {
        assert!(set.insert(*tx, &codec.element_sketch(tx.short_id(), 16)));
    }
    let request = set.reconcile_with(&vec![0u8; 128]).unwrap();
    let mut ids = RecSet::<Tx<32>>::differences(codec.decode(&request)).unwrap();
    ids.sort();
    let mut expected: Vec<u64> = txs.iter().map(|tx| tx.short_id()).collect();
    expected.sort();
    assert_eq!(ids, expected);
}

#[test]
fn repeated_insert_is_a_no_op() {
    let tx = Tx([5u8; 32]);
    let codec = Bitmap::of(&[tx]);
    let part = codec.element_sketch(tx.short_id(), 4);
    let mut set = RecSet::<Tx<32>>::new(4);
    assert!(set.insert(tx, &part));
    let once = set.sketch();
    assert!(!set.insert(tx, &part));
    assert_eq!(set.sketch(), once);
    assert_eq!(once, part);
    assert_eq!(set.len(), 1);
    assert!(set.contains(&tx.short_id()));
    assert!(!set.contains(&(tx.short_id() ^ 1)));
}

#[test]
fn insert_refuses_a_sketch_of_the_wrong_length() {
    let tx = Tx([5u8; 32]);
    let mut set = RecSet::<Tx<32>>::new(4);
    assert!(!set.insert(tx, &vec![0u8; 31]));
    assert_eq!(set.len(), 0);
    assert_eq!(set.sketch(), vec![0u8; 32]);
}

#[test]
fn sketch_does_not_depend_on_insertion_order() {
    let txs: Vec<Tx<32>> = (0u8..10).map(|n| Tx([n; 32])).collect();
    let codec = Bitmap::of(&txs);
    let mut forward = RecSet::<Tx<32>>::new(8);
    for tx in txs.iter() {
        forward.insert(*tx, &codec.element_sketch(tx.short_id(), 8));
    }
    let mut backward = RecSet::<Tx<32>>::new(8);
    for tx in txs.iter().rev() {
        backward.insert(*tx, &codec.element_sketch(tx.short_id(), 8));
    }
    assert_eq!(forward.sketch(), backward.sketch());
    assert_eq!(forward.sketch().len(), 64);
}

#[test]
fn reconcile_is_symmetric() {
    let txs: Vec<Tx<32>> = (0u8..6).map(|n| Tx([n; 32])).collect();
    let codec = Bitmap::of(&txs);
    let a = set_from_range(vec![0, 1, 2, 3], 8, &codec).sketch();
    let b = set_from_range(vec![2, 3, 4, 5], 8, &codec).sketch();
    let ab = RecSet::<Tx<32>>::reconcile(&a, &b, 8, None).unwrap();
    let ba = RecSet::<Tx<32>>::reconcile(&b, &a, 8, None).unwrap();
    assert_eq!(ab.sketch, ba.sketch);
    let mut ids = RecSet::<Tx<32>>::differences(codec.decode(&ab)).unwrap();
    ids.sort();
    let mut expected: Vec<u64> = [0u8, 1, 4, 5].iter().map(|n| Tx([*n; 32]).short_id()).collect();
    expected.sort();
    assert_eq!(ids, expected);
}

#[test]
fn malformed_sketches_are_refused() {
    let good = vec![0u8; 128];
    let short = vec![0u8; 127];
    assert_eq!(
        RecSet::<Tx<32>>::reconcile(&good, &short, 16, None).err(),
        Some(ReconcileError::Malformed)
    );
    assert_eq!(
        RecSet::<Tx<32>>::reconcile(&short, &good, 16, None).err(),
        Some(ReconcileError::Malformed)
    );
    assert_eq!(
        RecSet::<Tx<32>>::bisect_with(&good, &good, &good, &short, 16, None).err(),
        Some(ReconcileError::Malformed)
    );
    assert_eq!(
        RecSet::<Tx<32>>::sub_sketches(&good, &short, 16).err(),
        Some(ReconcileError::Malformed)
    );
    assert_eq!(
        RecSet::<Tx<32>>::reconcile(&good, &good, usize::MAX, None).err(),
        Some(ReconcileError::Malformed)
    );
    let set = RecSet::<Tx<32>>::new(16);
    assert_eq!(set.reconcile_with(&short).err(), Some(ReconcileError::Malformed));
}

#[test]
fn differences_takes_the_first_count_of_the_buffer() {
    let outcome = DecodeOutcome { buffer: vec![11, 22, 33, 0, 0], count: Some(3) };
    assert_eq!(RecSet::<Tx<32>>::differences(outcome), Ok(vec![11, 22, 33]));
    let all = DecodeOutcome { buffer: vec![11, 22], count: Some(9) };
    assert_eq!(RecSet::<Tx<32>>::differences(all), Ok(vec![11, 22]));
    let failed = DecodeOutcome { buffer: vec![11, 22], count: None };
    assert_eq!(RecSet::<Tx<32>>::differences(failed), Err(ReconcileError::DecodeFailed));
}

#[test]
fn bisect_differences_joins_both_halves_or_fails() {
    let halves = DecodeOutcome { buffer: vec![1, 2, 0], count: Some(2) };
    let rests = DecodeOutcome { buffer: vec![3, 0, 0], count: Some(1) };
    assert_eq!(RecSet::<Tx<32>>::bisect_differences(halves, rests), Ok(vec![1, 2, 3]));
    let halves = DecodeOutcome { buffer: vec![1, 2, 0], count: None };
    let rests = DecodeOutcome { buffer: vec![3, 0, 0], count: Some(1) };
    assert_eq!(
        RecSet::<Tx<32>>::bisect_differences(halves, rests),
        Err(ReconcileError::DecodeFailed)
    );
    let halves = DecodeOutcome { buffer: vec![1, 2, 0], count: Some(2) };
    let rests = DecodeOutcome { buffer: vec![3, 0, 0], count: None };
    assert_eq!(
        RecSet::<Tx<32>>::bisect_differences(halves, rests),
        Err(ReconcileError::DecodeFailed)
    );
}

#[test]
fn sub_sketches_takes_a_part_out_of_a_whole() {
    let txs: Vec<Tx<32>> = (0u8..4).map(|n| Tx([n; 32])).collect();
    let codec = Bitmap::of(&txs);
    let whole = set_from_range(vec![0, 1, 2, 3], 4, &codec).sketch();
    let part = set_from_range(vec![0, 2], 4, &codec).sketch();
    let rest = set_from_range(vec![1, 3], 4, &codec).sketch();
    assert_eq!(RecSet::<Tx<32>>::sub_sketches(&whole, &part, 4), Ok(rest));
}

#[test]
fn sketch_bytes_merge_by_exclusive_or() {
    assert_eq!(serialized_size(16), Some(128));
    assert_eq!(serialized_size(0), Some(0));
    assert_eq!(serialized_size(usize::MAX), None);
    assert_eq!(empty_sketch(3), vec![0u8, 0, 0]);
    assert_eq!(merge(&[0b1100, 0xff, 0], &[0b1010, 0x0f, 7]), vec![0b0110, 0xf0, 7]);
}

#[test]
fn bisect_needs_both_sets_split_by_one_rule() {
    // Halves by position split {1, 2, 3} and {2, 3, 4} differently: 3 is in
    // the first set's half but not in the second's, so it is reported although
    // both sets hold it.
    let txs: Vec<Tx<32>> = (1u8..5).map(|n| Tx([n; 32])).collect();
    let codec = Bitmap::of(&txs);
    let id = |n: u8| Tx([n; 32]).short_id();
    let a_whole = set_from_range(vec![1, 2, 3], 8, &codec).sketch();
    let a_half = set_from_range(vec![1, 3], 8, &codec).sketch();
    let b_whole = set_from_range(vec![2, 3, 4], 8, &codec).sketch();
    let b_half = set_from_range(vec![2, 4], 8, &codec).sketch();
    let (halves, rests) =
        RecSet::<Tx<32>>::bisect_with(&a_whole, &a_half, &b_whole, &b_half, 8, None).unwrap();
    let mut diffs =
        RecSet::<Tx<32>>::bisect_differences(codec.decode(&halves), codec.decode(&rests)).unwrap();
    diffs.sort();
    let mut expected = vec![id(1), id(2), id(3), id(4), id(2), id(3)];
    expected.sort();
    assert_eq!(diffs, expected);

    // Split by value instead, the same sets give exactly their difference.
    let a_half = set_from_range(vec![2], 8, &codec).sketch();
    let (halves, rests) =
        RecSet::<Tx<32>>::bisect_with(&a_whole, &a_half, &b_whole, &b_half, 8, None).unwrap();
    let mut diffs =
        RecSet::<Tx<32>>::bisect_differences(codec.decode(&halves), codec.decode(&rests)).unwrap();
    diffs.sort();
    let mut expected = vec![id(1), id(4)];
    expected.sort();
    assert_eq!(diffs, expected);
}
