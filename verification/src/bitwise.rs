//! Bit-index utilities: conversions between bit masks, lists of bit
//! indices, and lists of single-bit basis vectors, together with the
//! spec-level model of those conversions that the rest of the crate
//! builds on.

use vstd::prelude::*;

verus! {

/// Bit `i` of `m` is set.
pub open spec fn bit_set(m: u64, i: usize) -> bool {
    m & (1u64 << i) != 0
}

/// The mask with bits `0..n` set (all bits when `n >= 64`).
pub open spec fn low_mask(n: usize) -> u64 {
    if n >= 64 {
        !0u64
    } else {
        ((1u64 << n) - 1) as u64
    }
}

/// The ascending list of set-bit positions of `mask` that lie below `n`.
pub open spec fn indices_of_mask(mask: u64, n: nat) -> Seq<usize>
    decreases n,
{
    if n == 0 {
        Seq::empty()
    } else {
        let prev = indices_of_mask(mask, (n - 1) as nat);
        if bit_set(mask, (n - 1) as usize) {
            prev.push((n - 1) as usize)
        } else {
            prev
        }
    }
}

/// The union of the single-bit masks named by `indices`.
pub open spec fn mask_of_indices(indices: Seq<usize>) -> u64
    decreases indices.len(),
{
    if indices.len() == 0 {
        0u64
    } else {
        mask_of_indices(indices.drop_last()) | (1u64 << indices.last())
    }
}

/// The ascending list of single-bit masks of the set bits of `mask`
/// below `n`.
pub open spec fn vectors_of_mask(mask: u64, n: nat) -> Seq<u64> {
    indices_of_mask(mask, n).map_values(|i: usize| 1u64 << i)
}

/// The union of a list of masks.
pub open spec fn or_of(vs: Seq<u64>) -> u64
    decreases vs.len(),
{
    if vs.len() == 0 {
        0u64
    } else {
        or_of(vs.drop_last()) | vs.last()
    }
}

/// `v` is a single-bit mask whose bit lies below `max_dim`.
pub open spec fn is_basis_vector(v: u64, max_dim: usize) -> bool {
    exists|b: usize| b < max_dim && v == (1u64 << b)
}

/// Every index named in `indices` lies below `n`.
pub open spec fn indices_below(indices: Seq<usize>, n: usize) -> bool {
    forall|i: int| 0 <= i < indices.len() ==> indices[i] < n
}

/// The single mask whose bits are exactly the indices listed.
pub fn generate_mask(indices: &Vec<usize>) -> (mask: u64)
    requires
        indices_below(indices@, 64),
    ensures
        mask == mask_of_indices(indices@),
{
    let mut mask: u64 = 0;
    let mut i: usize = 0;
    while i < indices.len()
        invariant
            i <= indices.len(),
            indices_below(indices@, 64),
            mask == mask_of_indices(indices@.take(i as int)),
        decreases indices.len() - i,
    {
        mask = mask | (1u64 << indices[i]);
        proof {
            assert(indices@.take(i + 1).drop_last() =~= indices@.take(i as int));
        }
        i = i + 1;
    }
    proof {
        assert(indices@.take(indices@.len() as int) =~= indices@);
    }
    mask
}

/// The ascending list of set-bit positions of `mask`.
pub fn generate_indices(mask: u64) -> (indices: Vec<usize>)
    ensures
        indices@ == indices_of_mask(mask, 64),
        indices_below(indices@, 64),
{
    let mut indices = Vec::<usize>::new();
    let mut i: usize = 0;
    while i < 64
        invariant
            i <= 64,
            indices@ == indices_of_mask(mask, i as nat),
            indices_below(indices@, i),
        decreases 64 - i,
    {
        if mask & (1u64 << i) != 0 {
            indices.push(i);
        }
        i = i + 1;
    }
    indices
}

/// Maps each index to its single-bit mask.
pub fn generate_vectors_from_indices(indices: &Vec<usize>) -> (vectors: Vec<u64>)
    requires
        indices_below(indices@, 64),
    ensures
        vectors@ == indices@.map_values(|i: usize| 1u64 << i),
{
    let mut vectors = Vec::<u64>::new();
    let mut i: usize = 0;
    while i < indices.len()
        invariant
            i <= indices.len(),
            indices_below(indices@, 64),
            vectors@ == indices@.take(i as int).map_values(|j: usize| 1u64 << j),
        decreases indices.len() - i,
    {
        vectors.push(1u64 << indices[i]);
        proof {
            assert(indices@.take(i + 1).map_values(|j: usize| 1u64 << j)
                =~= indices@.take(i as int).map_values(|j: usize| 1u64 << j).push(
                    1u64 << indices@[i as int]));
        }
        i = i + 1;
    }
    proof {
        assert(indices@.take(indices@.len() as int) =~= indices@);
    }
    vectors
}

/// The ascending list of single-bit masks of the set bits of `mask`.
pub fn generate_vectors_from_mask(mask: u64) -> (vectors: Vec<u64>)
    ensures
        vectors@ == vectors_of_mask(mask, 64),
{
    let indices = generate_indices(mask);
    generate_vectors_from_indices(&indices)
}

} // verus!

verus! {

/// A single-bit mask is never zero.
pub proof fn lemma_single_bit_nonzero(b: usize)
    requires
        b < 64,
    ensures
        (1u64 << b) != 0,
{
    let bb = b as u64;
    assert((1u64 << bb) != 0) by (bit_vector)
        requires
            bb < 64,
    ;
}

/// Two single-bit masks agree exactly when their bit positions do, and
/// masks of different positions share no bit.
pub proof fn lemma_single_bits_distinct(a: usize, b: usize)
    requires
        a < 64,
        b < 64,
        a != b,
    ensures
        (1u64 << a) != (1u64 << b),
        (1u64 << a) & (1u64 << b) == 0,
{
    let aa = a as u64;
    let bb = b as u64;
    assert((1u64 << aa) != (1u64 << bb) && (1u64 << aa) & (1u64 << bb) == 0) by (bit_vector)
        requires
            aa < 64,
            bb < 64,
            aa != bb,
    ;
}

/// A bit of a union is a bit of one of its parts.
pub proof fn lemma_bit_or(x: u64, y: u64, b: usize)
    requires
        b < 64,
    ensures
        bit_set(x | y, b) == (bit_set(x, b) || bit_set(y, b)),
{
    let bb = b as u64;
    assert(((x | y) & (1u64 << bb) != 0) == ((x & (1u64 << bb) != 0) || (y & (1u64 << bb) != 0)))
        by (bit_vector);
}

/// The zero mask has no bits, and a single-bit mask has exactly its own.
pub proof fn lemma_bit_zero_single(v: usize, b: usize)
    requires
        v < 64,
        b < 64,
    ensures
        !bit_set(0u64, b),
        bit_set(1u64 << v, b) == (v == b),
{
    let vv = v as u64;
    let bb = b as u64;
    assert(0u64 & (1u64 << bb) == 0) by (bit_vector);
    assert(((1u64 << vv) & (1u64 << bb) != 0) == (vv == bb)) by (bit_vector)
        requires
            vv < 64,
            bb < 64,
    ;
}

/// Conjunction with the empty mask yields the empty mask.
pub proof fn lemma_and_zero(x: u64)
    ensures
        x & 0u64 == 0,
        0u64 & x == 0,
        x | 0u64 == x,
        0u64 | x == x,
{
    assert(x & 0u64 == 0 && 0u64 & x == 0 && (x | 0u64) == x && (0u64 | x) == x) by (bit_vector);
}

/// Conjunction distributes over a union.
pub proof fn lemma_and_or_distrib(s: u64, x: u64, y: u64)
    ensures
        (s & x) | (s & y) == s & (x | y),
{
    assert((s & x) | (s & y) == s & (x | y)) by (bit_vector);
}

/// Unions with a common part that is disjoint from both remainders can
/// be cancelled.
pub proof fn lemma_or_disjoint_cancel(a1: u64, a2: u64, c: u64)
    requires
        a1 & c == 0,
        a2 & c == 0,
        a1 | c == a2 | c,
    ensures
        a1 == a2,
{
    assert(a1 == a2) by (bit_vector)
        requires
            a1 & c == 0,
            a2 & c == 0,
            a1 | c == a2 | c,
    ;
}

/// Disjointness from a mask extends over unions.
pub proof fn lemma_or_preserves_disjoint(x: u64, y: u64, m: u64)
    requires
        x & m == 0,
        y & m == 0,
    ensures
        (x | y) & m == 0,
{
    assert((x | y) & m == 0) by (bit_vector)
        requires
            x & m == 0,
            y & m == 0,
    ;
}

/// Bits of the complement of a mask are exactly the unset bits.
pub proof fn lemma_bit_not(u: u64, b: usize)
    requires
        b < 64,
    ensures
        bit_set(!u, b) == !bit_set(u, b),
{
    let bb = b as u64;
    assert(((!u) & (1u64 << bb) != 0) == (u & (1u64 << bb) == 0)) by (bit_vector)
        requires
            bb < 64,
    ;
}

/// A mask lies below `1 << d` exactly when it has no bit at or above `d`.
pub proof fn lemma_high_bits_zero(c: u64, d: usize)
    requires
        d < 64,
    ensures
        (c & (!0u64 << d) == 0) == (c < (1u64 << d)),
{
    let dd = d as u64;
    assert((c & (!0u64 << dd) == 0) == (c < (1u64 << dd))) by (bit_vector)
        requires
            dd < 64,
    ;
}

/// A bit below `n` reads the same through a `low_mask(n)` filter.
pub proof fn lemma_bit_low_mask(m: u64, n: usize, b: usize)
    requires
        b < n,
        b < 64,
    ensures
        bit_set(m & low_mask(n), b) == bit_set(m, b),
{
    let bb = b as u64;
    if n >= 64 {
        assert(((m & !0u64) & (1u64 << bb) != 0) == (m & (1u64 << bb) != 0)) by (bit_vector);
    } else {
        let nn = n as u64;
        assert(((m & (((1u64 << nn) - 1) as u64)) & (1u64 << bb) != 0) == (m & (1u64 << bb)
            != 0)) by (bit_vector)
            requires
                bb < nn < 64,
        ;
    }
}

/// Union of masks is associative.
pub proof fn lemma_or_assoc(x: u64, y: u64, z: u64)
    ensures
        (x | y) | z == x | (y | z),
{
    assert((x | y) | z == x | (y | z)) by (bit_vector);
}

/// A part of a union that is disjoint from the rest can be read back
/// from the union, and a full mask filter changes nothing.
pub proof fn lemma_or_and_self(a: u64, v: u64)
    requires
        a & v == 0,
    ensures
        (a | v) & v == v,
        v & !0u64 == v,
{
    assert((a | v) & v == v && v & !0u64 == v) by (bit_vector)
        requires
            a & v == 0,
    ;
}

/// A value below `1 << d` passes a `low_mask(d)` filter unchanged.
pub proof fn lemma_low_mask_id(c: u64, d: usize)
    requires
        d < 64,
        c < (1u64 << d),
    ensures
        c & low_mask(d) == c,
{
    let dd = d as u64;
    assert(c & (((1u64 << dd) - 1) as u64) == c) by (bit_vector)
        requires
            dd < 64,
            c < (1u64 << dd),
    ;
}

/// A `low_mask(i + 1)` filter splits into the filter below `i` and
/// bit `i` itself, and a single-bit filter gives the bit or nothing.
pub proof fn lemma_low_mask_split(m: u64, i: usize)
    requires
        i < 64,
    ensures
        m & low_mask((i + 1) as usize) == (m & low_mask(i)) | (m & (1u64 << i)),
        bit_set(m, i) ==> m & (1u64 << i) == (1u64 << i),
        !bit_set(m, i) ==> m & (1u64 << i) == 0,
{
    let ii = i as u64;
    if i == 63 {
        assert((m & !0u64) == (m & (((1u64 << 63u64) - 1) as u64)) | (m & (1u64 << 63u64))
            && (m & (1u64 << 63u64) != 0 ==> m & (1u64 << 63u64) == (1u64 << 63u64)))
            by (bit_vector);
    } else {
        assert((m & (((1u64 << (ii + 1)) - 1) as u64)) == (m & (((1u64 << ii) - 1) as u64)) | (m
            & (1u64 << ii)) && (m & (1u64 << ii) != 0 ==> m & (1u64 << ii) == (1u64 << ii)))
            by (bit_vector)
            requires
                ii < 63,
        ;
    }
}

/// A value below `1 << d` has no bit at or above `d`.
pub proof fn lemma_bit_above_bound(c: u64, d: usize, j: usize)
    requires
        d <= j < 64,
        c < (1u64 << d),
    ensures
        !bit_set(c, j),
{
    let dd = d as u64;
    let jj = j as u64;
    assert(c & (1u64 << jj) == 0) by (bit_vector)
        requires
            dd <= jj < 64,
            c < (1u64 << dd),
    ;
}

/// Disjointness from the complement of a union persists when the union
/// grows, and an element of a union is inside it.
pub proof fn lemma_subset_union(x: u64, a: u64, b: u64)
    ensures
        x & !a == 0 ==> x & !(a | b) == 0,
        b & !(a | b) == 0,
{
    assert((x & !a == 0 ==> x & !(a | b) == 0) && b & !(a | b) == 0) by (bit_vector);
}

/// The bits of `low_mask(k)` are exactly the positions below `k`.
pub proof fn lemma_bit_low_mask_self(k: usize, b: usize)
    requires
        k <= 64,
        b < 64,
    ensures
        bit_set(low_mask(k), b) == (b < k),
{
    let bb = b as u64;
    if k >= 64 {
        assert(!0u64 & (1u64 << bb) != 0) by (bit_vector)
            requires
                bb < 64,
        ;
    } else {
        let kk = k as u64;
        assert(((((1u64 << kk) - 1) as u64) & (1u64 << bb) != 0) == (bb < kk)) by (bit_vector)
            requires
                kk < 64,
                bb < 64,
        ;
    }
}

/// A single bit below `d` avoids the mask of bits at and above `d`.
pub proof fn lemma_single_bit_below_bound(b: usize, d: usize)
    requires
        b < d,
        d < 64,
    ensures
        (1u64 << b) & (!0u64 << d) == 0,
{
    let bb = b as u64;
    let dd = d as u64;
    assert((1u64 << bb) & (!0u64 << dd) == 0) by (bit_vector)
        requires
            bb < dd,
            dd < 64,
    ;
}

/// A mask with nothing outside `m` is absorbed by `m`.
pub proof fn lemma_mask_absorb(x: u64, m: u64)
    requires
        x & !m == 0,
    ensures
        x & m == x,
{
    assert(x & m == x) by (bit_vector)
        requires
            x & !m == 0,
    ;
}

/// Single-bit masks are ordered as their bit positions are.
pub proof fn lemma_single_bit_lt(a: usize, b: usize)
    requires
        a < 64,
        b < 64,
    ensures
        ((1u64 << a) < (1u64 << b)) == (a < b),
{
    let aa = a as u64;
    let bb = b as u64;
    assert(((1u64 << aa) < (1u64 << bb)) == (aa < bb)) by (bit_vector)
        requires
            aa < 64,
            bb < 64,
    ;
}

/// Adding one more bit position to a `low_mask` filter keeps the bits
/// below it and admits exactly the new one.
pub proof fn lemma_low_mask_step(m: u64, k: usize)
    requires
        k < 64,
    ensures
        bit_set(m, k) ==> ((m & low_mask(k)) | (1u64 << k)) == m & low_mask((k + 1) as usize),
        !bit_set(m, k) ==> m & low_mask(k) == m & low_mask((k + 1) as usize),
{
    let kk = k as u64;
    if k == 63 {
        assert((m & (1u64 << 63u64) != 0) ==> ((m & (((1u64 << 63u64) - 1) as u64)) | (1u64
            << 63u64)) == (m & !0u64)) by (bit_vector);
        assert((m & (1u64 << 63u64) == 0) ==> (m & (((1u64 << 63u64) - 1) as u64)) == (m & !0u64))
            by (bit_vector);
    } else {
        assert((m & (1u64 << kk) != 0) ==> ((m & (((1u64 << kk) - 1) as u64)) | (1u64 << kk)) == (m
            & (((1u64 << (kk + 1)) - 1) as u64))) by (bit_vector)
            requires
                kk < 63,
        ;
        assert((m & (1u64 << kk) == 0) ==> (m & (((1u64 << kk) - 1) as u64)) == (m & (((1u64 << (kk
            + 1)) - 1) as u64))) by (bit_vector)
            requires
                kk < 63,
        ;
    }
}

/// The bits of `or_of(vs)` are exactly the bits of the elements of `vs`.
pub proof fn lemma_or_of_bit(vs: Seq<u64>, b: usize)
    requires
        b < 64,
    ensures
        bit_set(or_of(vs), b) == (exists|i: int| 0 <= i < vs.len() && bit_set(#[trigger] vs[i], b)),
    decreases vs.len(),
{
    if vs.len() == 0 {
        lemma_bit_zero_single(0, b);
    } else {
        lemma_or_of_bit(vs.drop_last(), b);
        lemma_bit_or(or_of(vs.drop_last()), vs.last(), b);
        if bit_set(or_of(vs), b) {
            if bit_set(vs.last(), b) {
                assert(bit_set(vs[vs.len() - 1], b));
            } else {
                let i = choose|i: int| 0 <= i < vs.drop_last().len()
                    && bit_set(#[trigger] vs.drop_last()[i], b);
                assert(bit_set(vs[i], b));
            }
        } else {
            assert forall|i: int| 0 <= i < vs.len() implies !bit_set(#[trigger] vs[i], b) by {
                if i < vs.len() - 1 {
                    assert(vs.drop_last()[i] == vs[i]);
                }
            }
        }
    }
}

/// The bit positions listed for a mask are its set bits below `n`, in
/// strictly increasing order.
pub proof fn lemma_indices_of_mask_props(mask: u64, n: nat)
    requires
        n <= 64,
    ensures
        indices_below(indices_of_mask(mask, n), n as usize),
        forall|i: int, j: int| 0 <= i < j < indices_of_mask(mask, n).len()
            ==> indices_of_mask(mask, n)[i] < indices_of_mask(mask, n)[j],
        forall|i: int| 0 <= i < indices_of_mask(mask, n).len()
            ==> bit_set(mask, #[trigger] indices_of_mask(mask, n)[i]),
        forall|b: usize| b < n && bit_set(mask, b) ==> indices_of_mask(mask, n).contains(b),
        indices_of_mask(mask, n).len() <= n,
    decreases n,
{
    if n != 0 {
        lemma_indices_of_mask_props(mask, (n - 1) as nat);
        let prev = indices_of_mask(mask, (n - 1) as nat);
        let cur = indices_of_mask(mask, n);
        assert forall|b: usize| b < n && bit_set(mask, b) implies cur.contains(b) by {
            if b < n - 1 {
                let i = choose|i: int| 0 <= i < prev.len() && prev[i] == b;
                assert(cur[i] == b);
            } else {
                assert(cur[cur.len() - 1] == b);
            }
        }
    }
}

/// Every mask splits the positions below `n` between itself and its
/// complement.
pub proof fn lemma_indices_count_split(mask: u64, n: nat)
    requires
        n <= 64,
    ensures
        indices_of_mask(mask, n).len() + indices_of_mask(!mask, n).len() == n,
    decreases n,
{
    if n != 0 {
        lemma_indices_count_split(mask, (n - 1) as nat);
        lemma_bit_not(mask, (n - 1) as usize);
    }
}

/// Rebuilding a mask from its listed vectors recovers its bits below `n`.
pub proof fn lemma_or_of_vectors_of_mask(mask: u64, n: nat)
    requires
        n <= 64,
    ensures
        or_of(vectors_of_mask(mask, n)) == mask & low_mask(n as usize),
    decreases n,
{
    if n == 0 {
        assert((((1u64 << 0u64) - 1) as u64) == 0) by (bit_vector);
        lemma_and_zero(mask);
        assert(vectors_of_mask(mask, 0) =~= Seq::<u64>::empty());
    } else {
        lemma_or_of_vectors_of_mask(mask, (n - 1) as nat);
        let k = (n - 1) as usize;
        lemma_low_mask_step(mask, k);
        let prev = indices_of_mask(mask, (n - 1) as nat);
        if bit_set(mask, k) {
            assert(vectors_of_mask(mask, n)
                =~= vectors_of_mask(mask, (n - 1) as nat).push(1u64 << k));
            assert(vectors_of_mask(mask, n).drop_last() =~= vectors_of_mask(mask, (n - 1) as nat));
        } else {
            assert(vectors_of_mask(mask, n) =~= vectors_of_mask(mask, (n - 1) as nat));
        }
    }
}

/// Masks that agree on every bit below `n` list the same positions
/// below `n`.
pub proof fn lemma_indices_stability(m1: u64, m2: u64, n: nat)
    requires
        n <= 64,
        forall|b: usize| b < n ==> bit_set(m1, b) == bit_set(m2, b),
    ensures
        indices_of_mask(m1, n) == indices_of_mask(m2, n),
    decreases n,
{
    if n != 0 {
        lemma_indices_stability(m1, m2, (n - 1) as nat);
        assert(bit_set(m1, (n - 1) as usize) == bit_set(m2, (n - 1) as usize));
    }
}

/// Positions at or above every set bit contribute nothing to the list.
pub proof fn lemma_indices_no_bits_above(mask: u64, k: nat, n: nat)
    requires
        k <= n <= 64,
        forall|b: usize| k <= b < n ==> !bit_set(mask, b),
    ensures
        indices_of_mask(mask, n) == indices_of_mask(mask, k),
    decreases n - k,
{
    if k < n {
        lemma_indices_no_bits_above(mask, k, (n - 1) as nat);
        assert(!bit_set(mask, (n - 1) as usize));
    }
}

/// Adding a bit above every bit of a mask appends its position to the
/// list.
pub proof fn lemma_indices_add_top_bit(mask: u64, b: usize, n: nat)
    requires
        b < n <= 64,
        forall|j: usize| b <= j < 64 ==> !bit_set(mask, j),
    ensures
        indices_of_mask(mask | (1u64 << b), n) == indices_of_mask(mask, n).push(b),
{
    let joined = mask | (1u64 << b);
    assert forall|j: usize| j < 64 implies bit_set(joined, j) == (bit_set(mask, j) || j == b) by {
        lemma_bit_or(mask, 1u64 << b, j);
        lemma_bit_zero_single(b, j);
    }
    assert forall|j: usize| b + 1 <= j < n implies !bit_set(joined, j) by {}
    lemma_indices_no_bits_above(joined, (b + 1) as nat, n);
    assert(indices_of_mask(joined, (b + 1) as nat)
        == indices_of_mask(joined, b as nat).push(b));
    assert forall|j: usize| j < b implies bit_set(joined, j) == bit_set(mask, j) by {}
    lemma_indices_stability(joined, mask, b as nat);
    lemma_indices_no_bits_above(mask, b as nat, n);
}

/// Setting one unset bit lengthens the list by exactly one.
pub proof fn lemma_indices_count_or_single(mask: u64, b: usize, n: nat)
    requires
        b < 64,
        n <= 64,
        !bit_set(mask, b),
    ensures
        indices_of_mask(mask | (1u64 << b), n).len() == indices_of_mask(mask, n).len()
            + if b < n { 1int } else { 0int },
    decreases n,
{
    if n != 0 {
        lemma_indices_count_or_single(mask, b, (n - 1) as nat);
        let j = (n - 1) as usize;
        lemma_bit_or(mask, 1u64 << b, j);
        lemma_bit_zero_single(b, j);
    }
}

/// The union of pairwise-distinct single-bit vectors has exactly one set
/// bit per vector.
pub proof fn lemma_popcount_or_of(vs: Seq<u64>)
    requires
        forall|i: int| 0 <= i < vs.len() ==> is_basis_vector(#[trigger] vs[i], 64),
        forall|i: int, j: int| 0 <= i < j < vs.len() ==> vs[i] != vs[j],
    ensures
        indices_of_mask(or_of(vs), 64).len() == vs.len(),
    decreases vs.len(),
{
    if vs.len() == 0 {
        assert forall|b: usize| b < 64 implies !bit_set(0u64, b) by {
            lemma_bit_zero_single(0, b);
        }
        lemma_indices_no_bits_above(0u64, 0, 64);
    } else {
        let rest = vs.drop_last();
        lemma_popcount_or_of(rest);
        let b = choose|b: usize| b < 64 && vs.last() == (1u64 << b);
        assert forall|i: int| 0 <= i < rest.len()
            implies #[trigger] rest[i] & (1u64 << b) == 0 by {
            let bi = choose|bi: usize| bi < 64 && rest[i] == (1u64 << bi);
            assert(vs[i] != vs.last());
            if bi == b {
                assert(rest[i] == vs.last());
            } else {
                lemma_single_bits_distinct(bi, b);
            }
        }
        lemma_or_of_disjoint(rest, 1u64 << b);
        assert(!bit_set(or_of(rest), b));
        lemma_indices_count_or_single(or_of(rest), b, 64);
    }
}

/// Rebuilding from the union of an ascending list of single-bit vectors
/// recovers the list itself.
pub proof fn lemma_sorted_vectors_reconstruct(vs: Seq<u64>, n: nat)
    requires
        n <= 64,
        forall|i: int| 0 <= i < vs.len()
            ==> is_basis_vector(#[trigger] vs[i], n as usize),
        forall|i: int, j: int| 0 <= i < j < vs.len() ==> vs[i] < vs[j],
    ensures
        vectors_of_mask(or_of(vs), n) == vs,
    decreases vs.len(),
{
    if vs.len() == 0 {
        assert forall|b: usize| b < 64 implies !bit_set(0u64, b) by {
            lemma_bit_zero_single(0, b);
        }
        lemma_indices_no_bits_above(0u64, 0, n);
        assert(indices_of_mask(0u64, 0) =~= Seq::<usize>::empty());
        assert(vectors_of_mask(0u64, n) =~= Seq::<u64>::empty());
    } else {
        let rest = vs.drop_last();
        let b = choose|b: usize| b < n && vs.last() == (1u64 << b);
        assert forall|j: usize| b <= j < 64 implies !bit_set(or_of(rest), j) by {
            lemma_or_of_bit(rest, j);
            if bit_set(or_of(rest), j) {
                let i = choose|i: int| 0 <= i < rest.len() && bit_set(#[trigger] rest[i], j);
                let bi = choose|bi: usize| bi < n && rest[i] == (1u64 << bi);
                lemma_bit_zero_single(bi, j);
                assert(bi == j);
                assert(vs[i] < vs.last());
                lemma_single_bit_lt(bi, b);
            }
        }
        lemma_sorted_vectors_reconstruct(rest, n);
        lemma_indices_add_top_bit(or_of(rest), b, n);
        assert(indices_of_mask(or_of(vs), n) == indices_of_mask(or_of(rest), n).push(b));
        assert(vectors_of_mask(or_of(vs), n)
            =~= vectors_of_mask(or_of(rest), n).push(1u64 << b));
        assert(vectors_of_mask(or_of(vs), n) =~= vs);
    }
}

/// A mask disjoint from every element of `vs` is disjoint from their union.
pub proof fn lemma_or_of_disjoint(vs: Seq<u64>, m: u64)
    requires
        forall|i: int| 0 <= i < vs.len() ==> #[trigger] vs[i] & m == 0,
    ensures
        or_of(vs) & m == 0,
    decreases vs.len(),
{
    if vs.len() == 0 {
        assert(0u64 & m == 0) by (bit_vector);
    } else {
        assert(forall|i: int| 0 <= i < vs.drop_last().len()
            ==> #[trigger] vs.drop_last()[i] & m == 0);
        lemma_or_of_disjoint(vs.drop_last(), m);
        lemma_or_preserves_disjoint(or_of(vs.drop_last()), vs.last(), m);
    }
}

} // verus!

verus! {

/// Counts the set bits of a mask.
pub fn count_set_bits(mask: u64) -> (count: usize)
    ensures
        count == indices_of_mask(mask, 64).len(),
{
    let mut count: usize = 0;
    let mut i: usize = 0;
    while i < 64
        invariant
            i <= 64,
            count == indices_of_mask(mask, i as nat).len(),
            count <= i,
        decreases 64 - i,
    {
        if mask & (1u64 << i) != 0 {
            count = count + 1;
        }
        i = i + 1;
    }
    count
}

} // verus!

verus! {

/// Filtering by a mask keeps disjointness from another mask.
pub proof fn lemma_and_preserves_disjoint(s: u64, x: u64, m: u64)
    requires
        x & m == 0,
    ensures
        (s & x) & m == 0,
{
    assert((s & x) & m == 0) by (bit_vector)
        requires
            x & m == 0,
    ;
}

} // verus!
