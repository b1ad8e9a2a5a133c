//! 32-byte identifiers (message ids, public keys): equality and the
//! byte-wise lexicographic order that `[u8; 32]` has in Rust.

use vstd::prelude::*;

verus! {

/// `a` and `b` agree before position `i`, where `a` has the smaller byte.
pub open spec fn lt_at(a: [u8; 32], b: [u8; 32], i: int) -> bool {
    &&& 0 <= i < 32
    &&& a[i] < b[i]
    &&& forall|j: int| 0 <= j < i ==> a[j] == b[j]
}

/// `a` sorts strictly before `b`: at the first byte where they differ, `a`'s
/// byte is the smaller.
pub open spec fn id_lt(a: [u8; 32], b: [u8; 32]) -> bool {
    exists|i: int| lt_at(a, b, i)
}

/// No identifier sorts before itself.
pub proof fn lemma_id_lt_irreflexive(a: [u8; 32])
    ensures
        !id_lt(a, a),
{
}

/// The order is transitive.
pub proof fn lemma_id_lt_transitive(a: [u8; 32], b: [u8; 32], c: [u8; 32])
    requires
        id_lt(a, b),
        id_lt(b, c),
    ensures
        id_lt(a, c),
{
    let i = choose|i: int| lt_at(a, b, i);
    let j = choose|j: int| lt_at(b, c, j);
    if i <= j {
        assert(lt_at(a, c, i));
    } else {
        assert(lt_at(a, c, j));
    }
}

/// The order is asymmetric.
pub proof fn lemma_id_lt_asymmetric(a: [u8; 32], b: [u8; 32])
    requires
        id_lt(a, b),
    ensures
        !id_lt(b, a),
{
    if id_lt(b, a) {
        lemma_id_lt_transitive(a, b, a);
    }
}

proof fn lemma_id_lt_total_from(a: [u8; 32], b: [u8; 32], n: int)
    requires
        0 <= n <= 32,
        forall|j: int| 0 <= j < n ==> a[j] == b[j],
    ensures
        a == b || id_lt(a, b) || id_lt(b, a),
    decreases 32 - n,
{
    if n == 32 {
        broadcast use vstd::array::axiom_array_ext_equal;
        assert(a =~= b);
    } else if a[n] < b[n] {
        assert(lt_at(a, b, n));
    } else if b[n] < a[n] {
        assert(lt_at(b, a, n));
    } else {
        lemma_id_lt_total_from(a, b, n + 1);
    }
}

/// Of two different identifiers, one sorts before the other.
pub proof fn lemma_id_lt_total(a: [u8; 32], b: [u8; 32])
    ensures
        a == b || id_lt(a, b) || id_lt(b, a),
{
    lemma_id_lt_total_from(a, b, 0);
}

/// Whether two identifiers are the same.
pub fn ids_equal(a: &[u8; 32], b: &[u8; 32]) -> (same: bool)
    ensures
        same == (*a == *b),
{
    let mut i: usize = 0;
    while i < 32
        invariant
            i <= 32,
            forall|j: int| 0 <= j < i ==> a[j] == b[j],
        decreases 32 - i,
    {
        if a[i] != b[i] {
            return false;
        }
        i = i + 1;
    }
    proof {
        broadcast use vstd::array::axiom_array_ext_equal;
        assert(*a =~= *b);
    }
    true
}

/// Whether `a` sorts strictly before `b`.
pub fn id_less(a: &[u8; 32], b: &[u8; 32]) -> (less: bool)
    ensures
        less == id_lt(*a, *b),
{
    let mut i: usize = 0;
    while i < 32 && a[i] == b[i]
        invariant
            i <= 32,
            forall|j: int| 0 <= j < i ==> a[j] == b[j],
        decreases 32 - i,
    {
        i = i + 1;
    }
    if i == 32 {
        proof {
            broadcast use vstd::array::axiom_array_ext_equal;
            assert(*a =~= *b);
            lemma_id_lt_irreflexive(*a);
        }
        false
    } else if a[i] < b[i] {
        assert(lt_at(*a, *b, i as int));
        true
    } else {
        assert(lt_at(*b, *a, i as int));
        proof {
            lemma_id_lt_asymmetric(*b, *a);
        }
        false
    }
}

} // verus!
