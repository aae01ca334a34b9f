//! Bit utilities over the 8-bit child masks of octree nodes.
use vstd::prelude::*;

verus! {

/// Whether bit `i` of `mask` is set.
pub open spec fn bit_set(mask: u8, i: int) -> bool {
    0 <= i < 8 && (mask >> (i as u8)) & 1u8 == 1u8
}

/// The indices below `n` whose bit is set in `mask`, in increasing order.
pub open spec fn set_bits_below(mask: u8, n: nat) -> Seq<usize>
    decreases n,
{
    if n == 0 {
        Seq::empty()
    } else {
        let prev = set_bits_below(mask, (n - 1) as nat);
        if bit_set(mask, n - 1) {
            prev.push((n - 1) as usize)
        } else {
            prev
        }
    }
}

/// The indices of all set bits of `mask`, in increasing order.
pub open spec fn set_bits(mask: u8) -> Seq<usize> {
    set_bits_below(mask, 8)
}

/// The empty mask has no bit set.
pub proof fn lemma_empty_mask()
    ensures
        forall|i: int| !bit_set(0u8, i),
{
    assert forall|i: int| !bit_set(0u8, i) by {
        if 0 <= i < 8 {
            let ii = i as u8;
            assert((0u8 >> ii) & 1u8 == 0u8) by (bit_vector);
        }
    }
}

proof fn lemma_bit_test(mask: u8, i: usize)
    requires
        i < 8,
    ensures
        ((mask & (1u8 << i)) != 0u8) == bit_set(mask, i as int),
{
    let ii = i as u8;
    assert(((mask & (1u8 << ii)) != 0u8) == ((mask >> ii) & 1u8 == 1u8)) by (bit_vector)
        requires
            ii < 8u8,
    ;
    assert((1u8 << i) == (1u8 << ii)) by (bit_vector)
        requires
            i < 8usize,
            ii == i as u8,
    ;
}

/// Tests bit `i` of `mask`.
pub fn has_bit(mask: u8, i: usize) -> (b: bool)
    requires
        i < 8,
    ensures
        b == bit_set(mask, i as int),
{
    proof {
        lemma_bit_test(mask, i);
    }
    (mask & (1u8 << i)) != 0
}

/// Returns `mask` with bit `i` set.
pub fn with_bit(mask: u8, i: usize) -> (r: u8)
    requires
        i < 8,
    ensures
        r == (mask | (1u8 << (i as u8))),
        bit_set(r, i as int),
        forall|j: int| 0 <= j < 8 && j != i ==> bit_set(r, j) == bit_set(mask, j),
{
    let r = mask | (1u8 << i);
    let ii = i as u8;
    assert((1u8 << i) == (1u8 << ii)) by (bit_vector)
        requires
            i < 8usize,
            ii == i as u8,
    ;
    assert((((mask | (1u8 << ii)) >> ii) & 1u8) == 1u8) by (bit_vector)
        requires
            ii < 8u8,
    ;
    assert forall|j: int| 0 <= j < 8 && j != i implies bit_set(r, j) == bit_set(mask, j) by {
        let jj = j as u8;
        assert((((mask | (1u8 << ii)) >> jj) & 1u8) == ((mask >> jj) & 1u8)) by (bit_vector)
            requires
                ii < 8u8,
                jj < 8u8,
                ii != jj,
        ;
    }
    r
}

/// A bit of the complement of `mask` is set exactly when that bit of `mask` is not.
pub proof fn lemma_inverted_bit(mask: u8, i: usize)
    requires
        i < 8,
    ensures
        bit_set(!mask, i as int) == !bit_set(mask, i as int),
{
    let ii = i as u8;
    assert((((!mask) >> ii) & 1u8 == 1u8) == !((mask >> ii) & 1u8 == 1u8)) by (bit_vector)
        requires
            ii < 8u8,
    ;
}

/// The listed set bits below `n` are exactly the set bits below `n`, in increasing order.
pub proof fn lemma_set_bits_below_members(mask: u8, n: nat)
    requires
        n <= 8,
    ensures
        forall|j: int| 0 <= j < set_bits_below(mask, n).len() ==> set_bits_below(mask, n)[j] < n
            && bit_set(mask, #[trigger] set_bits_below(mask, n)[j] as int),
        forall|a: int, b: int| 0 <= a < b < set_bits_below(mask, n).len() ==> set_bits_below(mask, n)[a]
            < set_bits_below(mask, n)[b],
        forall|i: int| 0 <= i < n && bit_set(mask, i) ==> exists|j: int| 0 <= j < set_bits_below(mask, n).len()
            && set_bits_below(mask, n)[j] == i,
    decreases n,
{
    if n > 0 {
        lemma_set_bits_below_members(mask, (n - 1) as nat);
        let prev = set_bits_below(mask, (n - 1) as nat);
        if bit_set(mask, n - 1) {
            let cur = prev.push((n - 1) as usize);
            assert(set_bits_below(mask, n) == cur);
            assert(cur[prev.len() as int] == n - 1);
            assert forall|i: int| 0 <= i < n && bit_set(mask, i) implies exists|j: int| 0 <= j < cur.len() && cur[j] == i by {
                if i < n - 1 {
                    let j = choose|j: int| 0 <= j < prev.len() && prev[j] == i;
                    assert(cur[j] == i);
                } else {
                    assert(cur[prev.len() as int] == i);
                }
            }
        } else {
            assert(set_bits_below(mask, n) == prev);
        }
    }
}

/// Entry `j` of the set bits of `mask` is a set bit below 8.
pub proof fn lemma_set_bits_members(mask: u8, j: int)
    requires
        0 <= j < set_bits(mask).len(),
    ensures
        set_bits(mask)[j] < 8,
        bit_set(mask, set_bits(mask)[j] as int),
{
    lemma_set_bits_below_members(mask, 8);
}

/// Setting bit `ci` of `mask` sets that bit and keeps the others.
pub proof fn lemma_or_bit(mask: u8, ci: int, c: int)
    requires
        0 <= ci < 8,
    ensures
        bit_set(((mask | (1u8 << (ci as u8))) as u8), c) == (bit_set(mask, c) || c == ci),
{
    let cc = ci as u8;
    if 0 <= c < 8 {
        let d = c as u8;
        assert((((mask | (1u8 << cc)) >> d) & 1u8 == 1u8) == (((mask >> d) & 1u8 == 1u8) || d == cc)) by (bit_vector)
            requires
                cc < 8u8,
                d < 8u8,
        ;
    }
}

} // verus!
