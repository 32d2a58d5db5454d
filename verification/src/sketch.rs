//! Serialised set sketches and their algebra.
//!
//! A sketch of capacity `c` over 64-bit elements is `8 * c` bytes long. The
//! sketch of a set is the bytewise exclusive-or of the sketches of its
//! elements, so merging two sketches gives the sketch of the symmetric
//! difference of the two sets. Turning one element into its sketch, and a
//! sketch back into elements, needs arithmetic in GF(2^64) and is done outside
//! this library.

use vstd::prelude::*;

verus! {

/// Bytes that one unit of capacity takes in a serialised sketch.
pub const ELEMENT_BYTES: usize = 8;

/// Length in bytes of a serialised sketch of the given capacity.
pub open spec fn sketch_len(capacity: nat) -> nat {
    8 * capacity
}

/// The sketch of the empty set: all bytes zero.
pub open spec fn zero_sketch(len: nat) -> Seq<u8> {
    Seq::new(len, |i: int| 0u8)
}

/// Bytewise exclusive-or; the result is as long as `a`.
pub open spec fn xor_bytes(a: Seq<u8>, b: Seq<u8>) -> Seq<u8> {
    Seq::new(a.len(), |i: int| a[i] ^ b[i])
}

/// The sketch of the set `ids`, where `parts` gives the sketch of each single
/// element: the exclusive-or of the elements' sketches.
pub open spec fn set_sketch(parts: Map<u64, Seq<u8>>, ids: Set<u64>, len: nat) -> Seq<u8>
    decreases ids.len(),
    when ids.finite()
{
    if ids.len() == 0 {
        zero_sketch(len)
    } else {
        let id = ids.choose();
        xor_bytes(set_sketch(parts, ids.remove(id), len), parts[id])
    }
}

/// The sketch that a fresh sketch becomes when the elements of `order` are
/// added to it one after the other.
pub open spec fn sketch_after(parts: Map<u64, Seq<u8>>, order: Seq<u64>, len: nat) -> Seq<u8>
    decreases order.len(),
{
    if order.len() == 0 {
        zero_sketch(len)
    } else {
        xor_bytes(sketch_after(parts, order.drop_last(), len), parts[order.last()])
    }
}

/// The elements that are in exactly one of the two sets.
pub open spec fn symmetric_difference(a: Set<u64>, b: Set<u64>) -> Set<u64> {
    a.difference(b).union(b.difference(a))
}

pub proof fn lemma_xor_commutes(a: Seq<u8>, b: Seq<u8>)
    requires
        a.len() == b.len(),
    ensures
        xor_bytes(a, b) == xor_bytes(b, a),
{
    assert forall|i: int| 0 <= i < a.len() implies a[i] ^ b[i] == b[i] ^ a[i] by {
        let x = a[i];
        let y = b[i];
        assert(x ^ y == y ^ x) by (bit_vector);
    }
    assert(xor_bytes(a, b) =~= xor_bytes(b, a));
}

pub proof fn lemma_xor_associates(a: Seq<u8>, b: Seq<u8>, c: Seq<u8>)
    requires
        a.len() == b.len(),
    ensures
        xor_bytes(xor_bytes(a, b), c) == xor_bytes(a, xor_bytes(b, c)),
{
    assert forall|i: int| 0 <= i < a.len() implies (a[i] ^ b[i]) ^ c[i] == a[i] ^ (b[i] ^ c[i]) by {
        let x = a[i];
        let y = b[i];
        let z = c[i];
        assert((x ^ y) ^ z == x ^ (y ^ z)) by (bit_vector);
    }
    assert(xor_bytes(xor_bytes(a, b), c) =~= xor_bytes(a, xor_bytes(b, c)));
}

/// Absorbing two element sketches gives the same bytes in either order.
pub proof fn lemma_xor_swaps(acc: Seq<u8>, p: Seq<u8>, q: Seq<u8>)
    ensures
        xor_bytes(xor_bytes(acc, p), q) == xor_bytes(xor_bytes(acc, q), p),
{
    assert forall|i: int| 0 <= i < acc.len() implies (acc[i] ^ p[i]) ^ q[i] == (acc[i] ^ q[i])
        ^ p[i] by {
        let x = acc[i];
        let y = p[i];
        let z = q[i];
        assert((x ^ y) ^ z == (x ^ z) ^ y) by (bit_vector);
    }
    assert(xor_bytes(xor_bytes(acc, p), q) =~= xor_bytes(xor_bytes(acc, q), p));
}

/// Absorbing the same element sketch twice changes nothing.
pub proof fn lemma_xor_cancels(acc: Seq<u8>, p: Seq<u8>)
    ensures
        xor_bytes(xor_bytes(acc, p), p) == acc,
{
    assert forall|i: int| 0 <= i < acc.len() implies (acc[i] ^ p[i]) ^ p[i] == acc[i] by {
        let x = acc[i];
        let y = p[i];
        assert((x ^ y) ^ y == x) by (bit_vector);
    }
    assert(xor_bytes(xor_bytes(acc, p), p) =~= acc);
}

/// The zero sketch is neutral.
pub proof fn lemma_xor_zero(a: Seq<u8>)
    ensures
        xor_bytes(a, zero_sketch(a.len())) == a,
        xor_bytes(zero_sketch(a.len()), a) == a,
{
    assert forall|i: int| 0 <= i < a.len() implies a[i] ^ 0u8 == a[i] && 0u8 ^ a[i] == a[i] by {
        let x = a[i];
        assert(x ^ 0u8 == x && 0u8 ^ x == x) by (bit_vector);
    }
    assert(xor_bytes(a, zero_sketch(a.len())) =~= a);
    assert(xor_bytes(zero_sketch(a.len()), a) =~= a);
}

/// A set's sketch has the length it was asked for.
pub proof fn lemma_set_sketch_len(parts: Map<u64, Seq<u8>>, ids: Set<u64>, len: nat)
    requires
        ids.finite(),
    ensures
        set_sketch(parts, ids, len).len() == len,
    decreases ids.len(),
{
    if ids.len() != 0 {
        lemma_set_sketch_len(parts, ids.remove(ids.choose()), len);
    }
}

/// Taking any one element out of a set takes its sketch out of the set's.
pub proof fn lemma_set_sketch_remove(
    parts: Map<u64, Seq<u8>>,
    ids: Set<u64>,
    len: nat,
    id: u64,
)
    requires
        ids.finite(),
        ids.contains(id),
    ensures
        set_sketch(parts, ids, len) == xor_bytes(
            set_sketch(parts, ids.remove(id), len),
            parts[id],
        ),
    decreases ids.len(),
{
    let first = ids.choose();
    if first != id {
        let rest = ids.remove(first).remove(id);
        assert(ids.remove(id).remove(first) =~= rest);
        lemma_set_sketch_remove(parts, ids.remove(first), len, id);
        lemma_set_sketch_remove(parts, ids.remove(id), len, first);
        lemma_xor_swaps(set_sketch(parts, rest, len), parts[id], parts[first]);
    }
}

/// Adding a new element to a set adds its sketch to the set's.
pub proof fn lemma_set_sketch_insert(
    parts: Map<u64, Seq<u8>>,
    ids: Set<u64>,
    len: nat,
    id: u64,
)
    requires
        ids.finite(),
        !ids.contains(id),
    ensures
        set_sketch(parts, ids.insert(id), len) == xor_bytes(
            set_sketch(parts, ids, len),
            parts[id],
        ),
{
    assert(ids.insert(id).remove(id) =~= ids);
    lemma_set_sketch_remove(parts, ids.insert(id), len, id);
}

/// Adding the elements of a set to a fresh sketch, each once and in any
/// order, gives the set's sketch.
pub proof fn lemma_insertions_give_set_sketch(
    parts: Map<u64, Seq<u8>>,
    order: Seq<u64>,
    len: nat,
)
    requires
        order.no_duplicates(),
    ensures
        order.to_set().finite(),
        sketch_after(parts, order, len) == set_sketch(parts, order.to_set(), len),
    decreases order.len(),
{
    vstd::seq_lib::seq_to_set_is_finite(order);
    if order.len() == 0 {
        assert(order.to_set() =~= Set::<u64>::empty());
    } else {
        let front = order.drop_last();
        let id = order.last();
        lemma_insertions_give_set_sketch(parts, front, len);
        assert(!front.to_set().contains(id)) by {
            if front.to_set().contains(id) {
                let i = choose|i: int| 0 <= i < front.len() && front[i] == id;
                assert(order[i] == order[order.len() - 1]);
            }
        }
        assert(order.to_set() =~= front.to_set().insert(id)) by {
            assert forall|x: u64| order.to_set().contains(x) <==> front.to_set().insert(id).contains(
                x,
            ) by {
                if order.to_set().contains(x) {
                    let i = choose|i: int| 0 <= i < order.len() && order[i] == x;
                    if i < front.len() {
                        assert(front[i] == x);
                    }
                }
                if front.to_set().contains(x) {
                    let i = choose|i: int| 0 <= i < front.len() && front[i] == x;
                    assert(order[i] == x);
                }
                if x == id {
                    assert(order[order.len() - 1] == x);
                }
            }
        }
        lemma_set_sketch_insert(parts, front.to_set(), len, id);
    }
}

/// A set's sketch reads `parts` only at the set's elements.
pub proof fn lemma_set_sketch_depends_on_members(
    p: Map<u64, Seq<u8>>,
    q: Map<u64, Seq<u8>>,
    ids: Set<u64>,
    len: nat,
)
    requires
        ids.finite(),
        forall|id: u64| ids.contains(id) ==> p[id] == q[id],
    ensures
        set_sketch(p, ids, len) == set_sketch(q, ids, len),
    decreases ids.len(),
{
    if ids.len() != 0 {
        lemma_set_sketch_depends_on_members(p, q, ids.remove(ids.choose()), len);
    }
}

/// Merging the sketches of two sets gives the sketch of their symmetric
/// difference.
pub proof fn lemma_merge_is_symmetric_difference(
    parts: Map<u64, Seq<u8>>,
    a: Set<u64>,
    b: Set<u64>,
    len: nat,
)
    requires
        a.finite(),
        b.finite(),
    ensures
        symmetric_difference(a, b).finite(),
        xor_bytes(set_sketch(parts, a, len), set_sketch(parts, b, len)) == set_sketch(
            parts,
            symmetric_difference(a, b),
            len,
        ),
    decreases b.len(),
{
    let sa = set_sketch(parts, a, len);
    lemma_set_sketch_len(parts, a, len);
    if b.len() == 0 {
        assert(symmetric_difference(a, b) =~= a);
        lemma_xor_zero(sa);
    } else {
        let id = b.choose();
        let rest = b.remove(id);
        let d = symmetric_difference(a, rest);
        lemma_merge_is_symmetric_difference(parts, a, rest, len);
        lemma_set_sketch_len(parts, rest, len);
        lemma_xor_associates(sa, set_sketch(parts, rest, len), parts[id]);
        if a.contains(id) {
            assert(symmetric_difference(a, b) =~= d.remove(id));
            lemma_set_sketch_remove(parts, d, len, id);
            lemma_xor_cancels(set_sketch(parts, d.remove(id), len), parts[id]);
        } else {
            assert(symmetric_difference(a, b) =~= d.insert(id));
            lemma_set_sketch_insert(parts, d, len, id);
        }
    }
}

/// Length in bytes of a serialised sketch, where it fits in `usize`.
pub fn serialized_size(capacity: usize) -> (size: Option<usize>)
    ensures
        size == if sketch_len(capacity as nat) <= usize::MAX {
            Some(sketch_len(capacity as nat) as usize)
        } else {
            None
        },
{
    capacity.checked_mul(ELEMENT_BYTES)
}

/// A sketch of the empty set, `len` bytes long.
pub fn empty_sketch(len: usize) -> (sketch: Vec<u8>)
    ensures
        sketch@ == zero_sketch(len as nat),
{
    let mut sketch: Vec<u8> = Vec::new();
    while sketch.len() < len
        invariant
            sketch.len() <= len,
            sketch@ == zero_sketch(sketch.len() as nat),
        decreases len - sketch.len(),
    {
        sketch.push(0u8);
        assert(sketch@ =~= zero_sketch(sketch.len() as nat));
    }
    sketch
}

/// Merges two sketches of the same length.
pub fn merge(a: &[u8], b: &[u8]) -> (merged: Vec<u8>)
    requires
        a@.len() == b@.len(),
    ensures
        merged@ == xor_bytes(a@, b@),
{
    let mut merged: Vec<u8> = Vec::new();
    let mut i: usize = 0;
    while i < a.len()
        invariant
            i <= a@.len(),
            a@.len() == b@.len(),
            merged@.len() == i,
            forall|k: int| 0 <= k < i ==> merged@[k] == a@[k] ^ b@[k],
        decreases a@.len() - i,
    {
        merged.push(a[i] ^ b[i]);
        i += 1;
    }
    assert(merged@ =~= xor_bytes(a@, b@));
    merged
}

} // verus!
