//! A set that can be reconciled with a remote set through sketches.

use crate::sketch::{
    empty_sketch, lemma_insertions_give_set_sketch, lemma_merge_is_symmetric_difference,
    lemma_set_sketch_depends_on_members, lemma_set_sketch_insert, lemma_set_sketch_len,
    lemma_xor_commutes, lemma_xor_zero, merge, serialized_size, set_sketch, sketch_after,
    sketch_len, symmetric_difference, xor_bytes, zero_sketch, ELEMENT_BYTES,
};
use std::collections::HashMap;
use vstd::prelude::*;

verus! {

broadcast use vstd::std_specs::hash::group_hash_axioms;

/// A value that can be reduced to a 64-bit short identifier.
pub trait ShortId {
    /// The short identifier of this value.
    spec fn id(&self) -> u64;

    /// Computes the short identifier.
    fn short_id(&self) -> (id: u64)
        ensures
            id == self.id(),
    ;
}

/// Why two sketches could not be reconciled.
#[derive(Copy, Clone, Debug, PartialEq, Eq, Structural)]
pub enum ReconcileError {
    /// A sketch does not have the length that the capacity calls for.
    Malformed,
    /// The sketch holds more differences than its capacity can recover.
    DecodeFailed,
}

/// A merged sketch that is ready to be decoded.
#[derive(Debug)]
pub struct DecodeRequest {
    /// The serialised sketch of the symmetric difference.
    pub sketch: Vec<u8>,
    /// The capacity the sketch was made with.
    pub capacity: usize,
    /// The seed to decode under, if one was fixed.
    pub seed: Option<u64>,
}

/// What decoding a sketch gave.
#[derive(Debug)]
pub struct DecodeOutcome {
    /// The buffer the decoder wrote the recovered elements into.
    pub buffer: Vec<u64>,
    /// How many elements it recovered, or `None` where it failed.
    pub count: Option<usize>,
}

/// The merged sketch of `a` and `b`, where both have the length that
/// `capacity` calls for.
pub open spec fn merged_sketch(a: Seq<u8>, b: Seq<u8>, capacity: nat) -> Option<Seq<u8>> {
    if a.len() == sketch_len(capacity) && b.len() == sketch_len(capacity) {
        Some(xor_bytes(a, b))
    } else {
        None
    }
}

/// The two merged sketches that a bisection decodes: that of the halves, and
/// that of what is left of each whole once its half is taken out.
pub open spec fn bisected_sketches(
    a_whole: Seq<u8>,
    a_half: Seq<u8>,
    b_whole: Seq<u8>,
    b_half: Seq<u8>,
    capacity: nat,
) -> Option<(Seq<u8>, Seq<u8>)> {
    let len = sketch_len(capacity);
    if a_whole.len() == len && a_half.len() == len && b_whole.len() == len && b_half.len() == len {
        Some(
            (
                xor_bytes(a_half, b_half),
                xor_bytes(xor_bytes(a_whole, a_half), xor_bytes(b_whole, b_half)),
            ),
        )
    } else {
        None
    }
}

/// The elements that a decoder recovered: the first `count` of its buffer, as
/// far as the buffer goes.
pub open spec fn recovered(outcome: DecodeOutcome) -> Option<Seq<u64>> {
    match outcome.count {
        Some(n) => Some(
            outcome.buffer@.take(
                if n <= outcome.buffer@.len() {
                    n as int
                } else {
                    outcome.buffer@.len() as int
                },
            ),
        ),
        None => None,
    }
}

/// A set of elements, found by their short identifiers, with a sketch of the
/// identifiers that is kept up to date on every insertion.
pub struct RecSet<V: ShortId + Clone> {
    capacity: usize,
    seed: Option<u64>,
    sketch: Vec<u8>,
    map: HashMap<u64, V>,
    parts: Ghost<Map<u64, Seq<u8>>>,
}

impl<V: ShortId + Clone> RecSet<V> {
    /// The elements of the set, by short identifier.
    pub closed spec fn elements(&self) -> Map<u64, V> {
        self.map@
    }

    /// The sketch that each identifier of the set was inserted with.
    pub closed spec fn parts(&self) -> Map<u64, Seq<u8>> {
        self.parts@
    }

    /// The largest symmetric difference that the sketch can hold.
    pub closed spec fn capacity(&self) -> usize {
        self.capacity
    }

    /// The seed that sketches of this set are decoded under.
    pub closed spec fn seed(&self) -> Option<u64> {
        self.seed
    }

    /// The serialised sketch of the set.
    pub closed spec fn sketch_bytes(&self) -> Seq<u8> {
        self.sketch@
    }

    /// The sketch is that of the set's identifiers, and every element is
    /// stored under its own short identifier.
    pub closed spec fn wf(&self) -> bool {
        &&& 0 < self.capacity
        &&& sketch_len(self.capacity as nat) <= usize::MAX
        &&& self.map@.dom().finite()
        &&& self.parts@.dom() == self.map@.dom()
        &&& self.sketch@ == set_sketch(
            self.parts@,
            self.map@.dom(),
            sketch_len(self.capacity as nat),
        )
        &&& forall|id: u64| #[trigger]
            self.map@.contains_key(id) ==> self.map@[id].id() == id && self.parts@[id].len()
                == sketch_len(self.capacity as nat)
    }

    /// A well-formed set's sketch is the exclusive-or of the sketches that
    /// its identifiers were inserted with, whatever the order of insertion.
    pub proof fn lemma_sketch_matches_elements(&self)
        requires
            self.wf(),
        ensures
            self.elements().dom().finite(),
            self.parts().dom() == self.elements().dom(),
            self.sketch_bytes() == set_sketch(
                self.parts(),
                self.elements().dom(),
                sketch_len(self.capacity() as nat),
            ),
            self.sketch_bytes().len() == sketch_len(self.capacity() as nat),
            forall|id: u64| #[trigger]
                self.elements().contains_key(id) ==> self.elements()[id].id() == id,
    {
        lemma_set_sketch_len(
            self.parts@,
            self.map@.dom(),
            sketch_len(self.capacity as nat),
        );
    }

    /// Sketch and elements agree: adding the identifiers of the set to a
    /// fresh sketch of the same capacity, each once and in any order, gives
    /// the set's sketch.
    pub proof fn lemma_sketch_is_that_of_the_keys(&self, order: Seq<u64>)
        requires
            self.wf(),
            order.no_duplicates(),
            order.to_set() == self.elements().dom(),
        ensures
            self.sketch_bytes() == sketch_after(
                self.parts(),
                order,
                sketch_len(self.capacity() as nat),
            ),
    {
        self.lemma_sketch_matches_elements();
        lemma_insertions_give_set_sketch(
            self.parts(),
            order,
            sketch_len(self.capacity() as nat),
        );
    }

    /// Creates an empty set whose sketch can hold `capacity` differences.
    pub fn new(capacity: usize) -> (set: Self)
        requires
            0 < capacity,
            sketch_len(capacity as nat) <= usize::MAX,
        ensures
            set.wf(),
            set.capacity() == capacity,
            set.seed() == None::<u64>,
            set.elements() == Map::<u64, V>::empty(),
            set.parts() == Map::<u64, Seq<u8>>::empty(),
            set.sketch_bytes() == zero_sketch(sketch_len(capacity as nat)),
    {
        Self::create(capacity, None)
    }

    /// Creates an empty set whose sketches are decoded under `seed`.
    pub fn with_seed(capacity: usize, seed: u64) -> (set: Self)
        requires
            0 < capacity,
            sketch_len(capacity as nat) <= usize::MAX,
        ensures
            set.wf(),
            set.capacity() == capacity,
            set.seed() == Some(seed),
            set.elements() == Map::<u64, V>::empty(),
            set.parts() == Map::<u64, Seq<u8>>::empty(),
            set.sketch_bytes() == zero_sketch(sketch_len(capacity as nat)),
    {
        Self::create(capacity, Some(seed))
    }

    fn create(capacity: usize, seed: Option<u64>) -> (set: Self)
        requires
            0 < capacity,
            sketch_len(capacity as nat) <= usize::MAX,
        ensures
            set.wf(),
            set.capacity() == capacity,
            set.seed() == seed,
            set.elements() == Map::<u64, V>::empty(),
            set.parts() == Map::<u64, Seq<u8>>::empty(),
            set.sketch_bytes() == zero_sketch(sketch_len(capacity as nat)),
    {
        let len = capacity * ELEMENT_BYTES;
        let set = RecSet {
            capacity,
            seed,
            sketch: empty_sketch(len),
            map: HashMap::with_capacity(capacity),
            parts: Ghost(Map::empty()),
        };
        assert(set.map@.dom() =~= Set::<u64>::empty());
        assert(set.parts@.dom() =~= set.map@.dom());
        set
    }

    /// Adds `v` to the set and its sketch, unless an element with the same
    /// short identifier is already there. `element_sketch` is the sketch of
    /// the set that holds the identifier of `v` alone; one of the wrong length
    /// is refused. Returns whether `v` was added.
    pub fn insert(&mut self, v: V, element_sketch: &[u8]) -> (added: bool)
        requires
            old(self).wf(),
        ensures
            final(self).wf(),
            final(self).capacity() == old(self).capacity(),
            final(self).seed() == old(self).seed(),
            added == (!old(self).elements().contains_key(v.id()) && element_sketch@.len()
                == sketch_len(old(self).capacity() as nat)),
            added ==> final(self).elements() == old(self).elements().insert(v.id(), v)
                && final(self).parts() == old(self).parts().insert(v.id(), element_sketch@)
                && final(self).sketch_bytes() == xor_bytes(
                old(self).sketch_bytes(),
                element_sketch@,
            ),
            !added ==> final(self).elements() == old(self).elements() && final(self).parts()
                == old(self).parts() && final(self).sketch_bytes() == old(self).sketch_bytes(),
    {
        let id = v.short_id();
        if self.map.contains_key(&id) || element_sketch.len() != self.sketch.len() {
            proof {
                lemma_set_sketch_len(
                    self.parts@,
                    self.map@.dom(),
                    sketch_len(self.capacity as nat),
                );
            }
            return false;
        }
        let ghost before = *self;
        proof {
            lemma_set_sketch_len(
                before.parts@,
                before.map@.dom(),
                sketch_len(before.capacity as nat),
            );
        }
        let merged = merge(self.sketch.as_slice(), element_sketch);
        self.sketch = merged;
        self.map.insert(id, v);
        proof {
            self.parts@ = before.parts@.insert(id, element_sketch@);
            let len = sketch_len(before.capacity as nat);
            let ids = before.map@.dom();
            assert(self.map@.dom() =~= ids.insert(id));
            assert(self.parts@.dom() =~= self.map@.dom());
            lemma_set_sketch_depends_on_members(
                before.parts@,
                self.parts@,
                ids,
                len,
            );
            lemma_set_sketch_insert(self.parts@, ids, len, id);
        }
        true
    }

    /// The number of elements in the set.
    pub fn len(&self) -> (n: usize)
        ensures
            n == self.elements().dom().len(),
    {
        self.map.len()
    }

    /// Whether an element with the short identifier `id` is in the set.
    pub fn contains(&self, id: &u64) -> (found: bool)
        ensures
            found == self.elements().contains_key(*id),
    {
        self.map.contains_key(id)
    }

    /// Looks up the element with the short identifier `id`.
    pub fn get(&self, id: &u64) -> (found: Option<V>)
        ensures
            found is Some == self.elements().contains_key(*id),
            found matches Some(v) ==> cloned(self.elements()[*id], v),
    {
        match self.map.get(id) {
            Some(v) => Some(v.clone()),
            None => None,
        }
    }

    /// The serialised sketch of the set: that of exactly the identifiers it
    /// holds.
    pub fn sketch(&self) -> (bytes: Vec<u8>)
        requires
            self.wf(),
        ensures
            bytes@ == self.sketch_bytes(),
            bytes@ == set_sketch(
                self.parts(),
                self.elements().dom(),
                sketch_len(self.capacity() as nat),
            ),
            bytes@.len() == sketch_len(self.capacity() as nat),
    {
        proof {
            self.lemma_sketch_matches_elements();
        }
        vstd::slice::slice_to_vec(self.sketch.as_slice())
    }

    /// Merges two serialised sketches of the given capacity into the sketch of
    /// their symmetric difference, ready for decoding. Sketches of another
    /// length are refused.
    pub fn reconcile(sketch_a: &[u8], sketch_b: &[u8], capacity: usize, seed: Option<u64>) -> (r:
        Result<DecodeRequest, ReconcileError>)
        ensures
            match r {
                Ok(request) => {
                    &&& merged_sketch(sketch_a@, sketch_b@, capacity as nat) == Some(
                        request.sketch@,
                    )
                    &&& request.capacity == capacity
                    &&& request.seed == seed
                },
                Err(e) => {
                    &&& e == ReconcileError::Malformed
                    &&& merged_sketch(sketch_a@, sketch_b@, capacity as nat) is None
                },
            },
    {
        let len_a: usize = sketch_a.len();
        let len_b: usize = sketch_b.len();
        match serialized_size(capacity) {
            Some(len) => {
                if len_a == len && len_b == len {
                    Ok(DecodeRequest { sketch: merge(sketch_a, sketch_b), capacity, seed })
                } else {
                    Err(ReconcileError::Malformed)
                }
            },
            None => Err(ReconcileError::Malformed),
        }
    }

    /// Merges this set's sketch with the sketch of a remote set.
    pub fn reconcile_with(&self, sketch_b: &[u8]) -> (r: Result<DecodeRequest, ReconcileError>)
        requires
            self.wf(),
        ensures
            match r {
                Ok(request) => {
                    &&& sketch_b@.len() == sketch_len(self.capacity() as nat)
                    &&& request.sketch@ == xor_bytes(self.sketch_bytes(), sketch_b@)
                    &&& request.capacity == self.capacity()
                    &&& request.seed == self.seed()
                },
                Err(e) => {
                    &&& e == ReconcileError::Malformed
                    &&& sketch_b@.len() != sketch_len(self.capacity() as nat)
                },
            },
    {
        proof {
            self.lemma_sketch_matches_elements();
        }
        Self::reconcile(self.sketch.as_slice(), sketch_b, self.capacity, self.seed)
    }

    /// Takes the sketch `s2` of a part out of the sketch `s1` of a whole, which
    /// leaves the sketch of the rest.
    pub fn sub_sketches(s1: &[u8], s2: &[u8], capacity: usize) -> (r: Result<
        Vec<u8>,
        ReconcileError,
    >)
        ensures
            match r {
                Ok(rest) => merged_sketch(s1@, s2@, capacity as nat) == Some(rest@),
                Err(e) => {
                    &&& e == ReconcileError::Malformed
                    &&& merged_sketch(s1@, s2@, capacity as nat) is None
                },
            },
    {
        match Self::reconcile(s1, s2, capacity, None) {
            Ok(request) => Ok(request.sketch),
            Err(e) => Err(e),
        }
    }

    /// Plans a bisection, for when the whole sets differ by more than the
    /// capacity: one decoding for the halves, one for what is left of the
    /// wholes without their halves.
    pub fn bisect_with(
        a_whole: &[u8],
        a_half: &[u8],
        b_whole: &[u8],
        b_half: &[u8],
        capacity: usize,
        seed: Option<u64>,
    ) -> (r: Result<(DecodeRequest, DecodeRequest), ReconcileError>)
        ensures
            match r {
                Ok((halves, rests)) => {
                    &&& bisected_sketches(
                        a_whole@,
                        a_half@,
                        b_whole@,
                        b_half@,
                        capacity as nat,
                    ) == Some((halves.sketch@, rests.sketch@))
                    &&& halves.capacity == capacity
                    &&& rests.capacity == capacity
                    &&& halves.seed == seed
                    &&& rests.seed == seed
                },
                Err(e) => {
                    &&& e == ReconcileError::Malformed
                    &&& bisected_sketches(
                        a_whole@,
                        a_half@,
                        b_whole@,
                        b_half@,
                        capacity as nat,
                    ) is None
                },
            },
    {
        let a_rest = match Self::sub_sketches(a_whole, a_half, capacity) {
            Ok(rest) => rest,
            Err(e) => {
                return Err(e);
            },
        };
        let b_rest = match Self::sub_sketches(b_whole, b_half, capacity) {
            Ok(rest) => rest,
            Err(e) => {
                return Err(e);
            },
        };
        let halves = match Self::reconcile(a_half, b_half, capacity, seed) {
            Ok(request) => request,
            Err(e) => {
                return Err(e);
            },
        };
        match Self::reconcile(a_rest.as_slice(), b_rest.as_slice(), capacity, seed) {
            Ok(rests) => Ok((halves, rests)),
            Err(e) => Err(e),
        }
    }

    /// Joins what the two decodings of a bisection gave: the differences of
    /// the halves, then those of the rests. Fails where either decoding did.
    pub fn bisect_differences(halves: DecodeOutcome, rests: DecodeOutcome) -> (r: Result<
        Vec<u64>,
        ReconcileError,
    >)
        ensures
            match r {
                Ok(ids) => {
                    &&& recovered(halves) is Some
                    &&& recovered(rests) is Some
                    &&& ids@ == recovered(halves).unwrap() + recovered(rests).unwrap()
                },
                Err(e) => {
                    &&& e == ReconcileError::DecodeFailed
                    &&& (recovered(halves) is None || recovered(rests) is None)
                },
            },
    {
        match Self::differences(halves) {
            Ok(mut first) => match Self::differences(rests) {
                Ok(mut second) => {
                    first.append(&mut second);
                    Ok(first)
                },
                Err(e) => Err(e),
            },
            Err(e) => Err(e),
        }
    }

    /// Reads the differing identifiers out of what the decoder gave.
    pub fn differences(outcome: DecodeOutcome) -> (r: Result<Vec<u64>, ReconcileError>)
        ensures
            match r {
                Ok(ids) => recovered(outcome) == Some(ids@),
                Err(e) => e == ReconcileError::DecodeFailed && recovered(outcome) is None,
            },
    {
        match outcome.count {
            Some(n) => {
                let mut ids = outcome.buffer;
                if n < ids.len() {
                    ids.truncate(n);
                }
                assert(ids@ =~= recovered(outcome).unwrap());
                Ok(ids)
            },
            None => Err(ReconcileError::DecodeFailed),
        }
    }
}

/// Reconciling is symmetric: whichever side merges, the same sketch goes to
/// the decoder, and the same sketches are refused.
pub proof fn lemma_reconcile_symmetric(a: Seq<u8>, b: Seq<u8>, capacity: nat)
    ensures
        merged_sketch(a, b, capacity) == merged_sketch(b, a, capacity),
{
    if a.len() == b.len() {
        lemma_xor_commutes(a, b);
    }
}

/// Reconciling with the sketch of an empty set hands the decoder the other
/// sketch as it is: all that the other set holds is a difference.
pub proof fn lemma_reconcile_with_empty(a: Seq<u8>, capacity: nat)
    requires
        a.len() == sketch_len(capacity),
    ensures
        merged_sketch(a, zero_sketch(sketch_len(capacity)), capacity) == Some(a),
{
    lemma_xor_zero(a);
}

/// Reconciling the sketches of two sets hands the decoder the sketch of
/// their symmetric difference.
pub proof fn lemma_reconcile_yields_difference(
    parts: Map<u64, Seq<u8>>,
    a: Set<u64>,
    b: Set<u64>,
    capacity: nat,
)
    requires
        a.finite(),
        b.finite(),
    ensures
        symmetric_difference(a, b).finite(),
        merged_sketch(
            set_sketch(parts, a, sketch_len(capacity)),
            set_sketch(parts, b, sketch_len(capacity)),
            capacity,
        ) == Some(set_sketch(parts, symmetric_difference(a, b), sketch_len(capacity))),
{
    let len = sketch_len(capacity);
    lemma_set_sketch_len(parts, a, len);
    lemma_set_sketch_len(parts, b, len);
    lemma_merge_is_symmetric_difference(parts, a, b, len);
}

/// One rule splits both sets into a half and a rest: an element of the
/// half of one set that the other set holds is in the other set's half too.
pub open spec fn split_alike(a: Set<u64>, a_half: Set<u64>, b: Set<u64>, b_half: Set<u64>) -> bool {
    &&& a_half.subset_of(a)
    &&& b_half.subset_of(b)
    &&& forall|id: u64| a_half.contains(id) && b.contains(id) ==> b_half.contains(id)
    &&& forall|id: u64| b_half.contains(id) && a.contains(id) ==> a_half.contains(id)
}

/// Where both sets are split alike, the differences of the halves and the
/// differences of the rests have nothing in common and together are the
/// differences of the wholes.
pub proof fn lemma_bisection_partitions_difference(
    a: Set<u64>,
    a_half: Set<u64>,
    b: Set<u64>,
    b_half: Set<u64>,
)
    requires
        split_alike(a, a_half, b, b_half),
    ensures
        symmetric_difference(a_half, b_half).disjoint(
            symmetric_difference(a.difference(a_half), b.difference(b_half)),
        ),
        symmetric_difference(a_half, b_half).union(
            symmetric_difference(a.difference(a_half), b.difference(b_half)),
        ) == symmetric_difference(a, b),
{
    let halves = symmetric_difference(a_half, b_half);
    let rests = symmetric_difference(a.difference(a_half), b.difference(b_half));
    assert(halves.union(rests) =~= symmetric_difference(a, b));
}

/// A bisection hands the decoder the sketch of the halves' differences and
/// the sketch of the rests' differences.
pub proof fn lemma_bisection_yields_differences(
    parts: Map<u64, Seq<u8>>,
    a: Set<u64>,
    a_half: Set<u64>,
    b: Set<u64>,
    b_half: Set<u64>,
    capacity: nat,
)
    requires
        a.finite(),
        b.finite(),
        a_half.subset_of(a),
        b_half.subset_of(b),
    ensures
        symmetric_difference(a_half, b_half).finite(),
        symmetric_difference(a.difference(a_half), b.difference(b_half)).finite(),
        bisected_sketches(
            set_sketch(parts, a, sketch_len(capacity)),
            set_sketch(parts, a_half, sketch_len(capacity)),
            set_sketch(parts, b, sketch_len(capacity)),
            set_sketch(parts, b_half, sketch_len(capacity)),
            capacity,
        ) == Some(
            (
                set_sketch(parts, symmetric_difference(a_half, b_half), sketch_len(capacity)),
                set_sketch(
                    parts,
                    symmetric_difference(a.difference(a_half), b.difference(b_half)),
                    sketch_len(capacity),
                ),
            ),
        ),
{
    let len = sketch_len(capacity);
    vstd::set_lib::lemma_len_subset(a_half, a);
    vstd::set_lib::lemma_len_subset(b_half, b);
    let a_rest = a.difference(a_half);
    let b_rest = b.difference(b_half);
    lemma_set_sketch_len(parts, a, len);
    lemma_set_sketch_len(parts, a_half, len);
    lemma_set_sketch_len(parts, b, len);
    lemma_set_sketch_len(parts, b_half, len);
    lemma_merge_is_symmetric_difference(parts, a, a_half, len);
    assert(symmetric_difference(a, a_half) =~= a_rest);
    lemma_merge_is_symmetric_difference(parts, b, b_half, len);
    assert(symmetric_difference(b, b_half) =~= b_rest);
    lemma_merge_is_symmetric_difference(parts, a_half, b_half, len);
    lemma_merge_is_symmetric_difference(parts, a_rest, b_rest, len);
}

/// Two sets that were made with the same capacity and hold the same
/// identifiers, inserted with the same sketches, have the same sketch: the
/// order of insertion leaves no trace.
pub proof fn lemma_sketch_ignores_order<V: ShortId + Clone>(x: &RecSet<V>, y: &RecSet<V>)
    requires
        x.wf(),
        y.wf(),
        x.capacity() == y.capacity(),
        x.parts() == y.parts(),
    ensures
        x.sketch_bytes() == y.sketch_bytes(),
{
    x.lemma_sketch_matches_elements();
    y.lemma_sketch_matches_elements();
}

} // verus!
