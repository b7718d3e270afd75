//! An ordered list of single-bit basis vectors drawn from a universe of
//! `max_dim` bits: the subspace of joint network states spanned by a
//! subset of the elements. Provides the complement subspace, projection
//! of a full state onto the subspace, and enumeration of the `2^dim`
//! states the subspace spans.

use vstd::prelude::*;
use vstd::arithmetic::power2::pow2;
use vstd::arithmetic::power2::lemma_pow2_strictly_increases;
use vstd::bits::lemma_usize_shl_is_mul;
use vstd::layout::unsigned_int_max_values;
use vstd::set_lib::lemma_len_subset;
use vstd::set_lib::lemma_int_range;
use vstd::set_lib::set_int_range;
use crate::bitwise::bit_set;
use crate::bitwise::indices_below;
use crate::bitwise::is_basis_vector;
use crate::bitwise::lemma_and_or_distrib;
use crate::bitwise::lemma_and_zero;
use crate::bitwise::or_of;

verus! {

/// A subspace of the `2^max_dim` joint states: `dim` pairwise-disjoint
/// single-bit vectors, in a fixed order.
#[derive(Debug, Clone)]
pub struct BitBasis {
    pub dim: usize,
    pub codim: usize,
    pub max_dim: usize,
    pub unused_mask: u64,
    pub vectors: Vec<u64>,
}

/// Raises 2 to the power `n` as a machine size.
pub fn pow2_usize(n: usize) -> (r: usize)
    requires
        n < usize::BITS,
    ensures
        r == pow2(n as nat),
{
    proof {
        unsigned_int_max_values();
        lemma_pow2_strictly_increases(n as nat, usize::BITS as nat);
        lemma_usize_shl_is_mul(1usize, n);
    }
    1usize << n
}

impl BitBasis {
    /// The invariant every constructed basis satisfies: the dimensions
    /// are consistent, and the vectors are pairwise-distinct single-bit
    /// masks below `max_dim`.
    pub open spec fn wf(&self) -> bool {
        &&& self.max_dim < 64
        &&& self.dim == self.vectors@.len()
        &&& self.dim <= self.max_dim
        &&& self.codim == self.max_dim - self.dim
        &&& self.unused_mask == !0u64 << self.dim
        &&& (forall|i: int| 0 <= i < self.vectors@.len()
            ==> is_basis_vector(#[trigger] self.vectors@[i], self.max_dim))
        &&& (forall|i: int, j: int| 0 <= i < j < self.vectors@.len()
            ==> self.vectors@[i] != self.vectors@[j])
    }

    /// The union of the basis vectors: the bits the subspace spans.
    pub open spec fn spec_mask(&self) -> u64 {
        or_of(self.vectors@)
    }

    /// Copies the given single-bit vectors into a basis over `max_dim`
    /// bits.
    pub fn construct_from_vectors(vectors: &[u64], max_dim: usize) -> (r: BitBasis)
        requires
            max_dim < 64,
            vectors@.len() <= max_dim,
            forall|i: int| 0 <= i < vectors@.len()
                ==> is_basis_vector(#[trigger] vectors@[i], max_dim),
            forall|i: int, j: int| 0 <= i < j < vectors@.len() ==> vectors@[i] != vectors@[j],
        ensures
            r.wf(),
            r.vectors@ == vectors@,
            r.dim == vectors@.len(),
            r.max_dim == max_dim,
    {
        let basis_dim = vectors.len();
        let mut cloned_vectors = Vec::<u64>::new();
        let mut i: usize = 0;
        while i < vectors.len()
            invariant
                i <= vectors@.len(),
                cloned_vectors@ == vectors@.take(i as int),
            decreases vectors@.len() - i,
        {
            cloned_vectors.push(vectors[i]);
            proof {
                assert(vectors@.take(i + 1) =~= vectors@.take(i as int).push(vectors@[i as int]));
            }
            i = i + 1;
        }
        proof {
            assert(vectors@.take(vectors@.len() as int) =~= vectors@);
        }
        BitBasis {
            dim: basis_dim,
            codim: max_dim - basis_dim,
            max_dim: max_dim,
            unused_mask: !0u64 << basis_dim,
            vectors: cloned_vectors,
        }
    }

    /// The empty subspace over `max_dim` bits.
    pub fn null_basis(max_dim: usize) -> (r: BitBasis)
        requires
            max_dim < 64,
        ensures
            r.wf(),
            r.dim == 0,
            r.max_dim == max_dim,
            r.vectors@ == Seq::<u64>::empty(),
    {
        let r = BitBasis {
            dim: 0,
            codim: max_dim,
            max_dim: max_dim,
            unused_mask: !0u64 << 0usize,
            vectors: Vec::new(),
        };
        proof {
            assert(r.vectors@ =~= Seq::<u64>::empty());
        }
        r
    }

    /// The union of the basis vectors: the set of bit positions the
    /// subspace covers, as a mask.
    pub fn to_mask(&self) -> (mask: u64)
        ensures
            mask == self.spec_mask(),
    {
        let mut mask: u64 = 0;
        let mut i: usize = 0;
        while i < self.vectors.len()
            invariant
                i <= self.vectors@.len(),
                mask == or_of(self.vectors@.take(i as int)),
            decreases self.vectors@.len() - i,
        {
            mask = mask | self.vectors[i];
            proof {
                assert(self.vectors@.take(i + 1).drop_last() =~= self.vectors@.take(i as int));
            }
            i = i + 1;
        }
        proof {
            assert(self.vectors@.take(self.vectors@.len() as int) =~= self.vectors@);
        }
        mask
    }

    /// The number of states the subspace spans.
    pub fn image_size(&self) -> (r: usize)
        requires
            self.dim < usize::BITS,
        ensures
            r == pow2(self.dim as nat),
    {
        pow2_usize(self.dim)
    }

    /// The number of states the complement subspace spans.
    pub fn codim_image_size(&self) -> (r: usize)
        requires
            self.codim < usize::BITS,
        ensures
            r == pow2(self.codim as nat),
    {
        pow2_usize(self.codim)
    }

    /// The number of joint states of the whole universe.
    pub fn max_image_size(&self) -> (r: usize)
        requires
            self.max_dim < usize::BITS,
        ensures
            r == pow2(self.max_dim as nat),
    {
        pow2_usize(self.max_dim)
    }

    /// Projects a full state onto the subspace: keeps exactly the bits
    /// the subspace covers.
    pub fn fixed_state(&self, state: u64) -> (r: u64)
        ensures
            r == state & self.spec_mask(),
    {
        let mut r: u64 = 0;
        let mut i: usize = 0;
        proof {
            lemma_and_zero(state);
        }
        while i < self.vectors.len()
            invariant
                i <= self.vectors@.len(),
                r == state & or_of(self.vectors@.take(i as int)),
            decreases self.vectors@.len() - i,
        {
            r = r | (state & self.vectors[i]);
            proof {
                assert(self.vectors@.take(i + 1).drop_last() =~= self.vectors@.take(i as int));
                lemma_and_or_distrib(
                    state,
                    or_of(self.vectors@.take(i as int)),
                    self.vectors@[i as int],
                );
            }
            i = i + 1;
        }
        proof {
            assert(self.vectors@.take(self.vectors@.len() as int) =~= self.vectors@);
        }
        r
    }

    /// The basis holding `vectors[index[j]]` for each listed position, in
    /// the listed order; the universe is unchanged.
    pub fn sub_basis(&self, index: &[usize]) -> (r: BitBasis)
        requires
            self.wf(),
            indices_below(index@, self.dim),
            index@.no_duplicates(),
        ensures
            r.wf(),
            r.max_dim == self.max_dim,
            r.dim == index@.len(),
            r.vectors@ == index@.map_values(|j: usize| self.vectors@[j as int]),
    {
        proof {
            lemma_distinct_indices_bounded(index@, self.dim);
        }
        let dim = index.len();
        let mut vectors = Vec::<u64>::new();
        let mut i: usize = 0;
        while i < index.len()
            invariant
                i <= index@.len(),
                indices_below(index@, self.vectors@.len() as usize),
                self.dim == self.vectors@.len(),
                vectors@ == index@.take(i as int).map_values(|j: usize| self.vectors@[j as int]),
            decreases index@.len() - i,
        {
            vectors.push(self.vectors[index[i]]);
            proof {
                assert(index@.take(i + 1).map_values(|j: usize| self.vectors@[j as int])
                    =~= index@.take(i as int).map_values(|j: usize| self.vectors@[j as int]).push(
                        self.vectors@[index@[i as int] as int]));
            }
            i = i + 1;
        }
        proof {
            assert(index@.take(index@.len() as int) =~= index@);
        }
        let r = BitBasis {
            dim: dim,
            codim: self.max_dim - dim,
            max_dim: self.max_dim,
            unused_mask: !0u64 << dim,
            vectors: vectors,
        };
        proof {
            assert forall|i: int, j: int| 0 <= i < j < r.vectors@.len()
                implies r.vectors@[i] != r.vectors@[j] by {
                assert(index@[i] != index@[j]);
            }
        }
        r
    }
}

/// A list of distinct indices that all lie below `n` has at most `n`
/// entries.
proof fn lemma_distinct_indices_bounded(index: Seq<usize>, n: usize)
    requires
        indices_below(index, n),
        index.no_duplicates(),
    ensures
        index.len() <= n,
{
    let mapped = index.map_values(|u: usize| u as int);
    assert(mapped.no_duplicates());
    mapped.unique_seq_to_set();
    let range = set_int_range(0, n as int);
    lemma_int_range(0, n as int);
    assert forall|x: int| mapped.to_set().contains(x) implies range.contains(x) by {
        let i = choose|i: int| 0 <= i < mapped.len() && mapped[i] == x;
        assert(index[i] < n);
    }
    lemma_len_subset(mapped.to_set(), range);
}

} // verus!

use crate::bitwise::indices_of_mask;
use crate::bitwise::lemma_bit_above_bound;
use crate::bitwise::lemma_bit_low_mask;
use crate::bitwise::lemma_bit_low_mask_self;
use crate::bitwise::lemma_bit_not;
use crate::bitwise::lemma_bit_zero_single;
use crate::bitwise::lemma_high_bits_zero;
use crate::bitwise::lemma_indices_count_split;
use crate::bitwise::lemma_indices_no_bits_above;
use crate::bitwise::lemma_indices_of_mask_props;
use crate::bitwise::lemma_indices_stability;
use crate::bitwise::lemma_low_mask_id;
use crate::bitwise::lemma_low_mask_split;
use crate::bitwise::lemma_mask_absorb;
use crate::bitwise::lemma_or_and_self;
use crate::bitwise::lemma_or_assoc;
use crate::bitwise::lemma_or_disjoint_cancel;
use crate::bitwise::lemma_or_of_bit;
use crate::bitwise::lemma_or_of_disjoint;
use crate::bitwise::lemma_or_of_vectors_of_mask;
use crate::bitwise::lemma_or_preserves_disjoint;
use crate::bitwise::lemma_popcount_or_of;
use crate::bitwise::lemma_single_bit_below_bound;
use crate::bitwise::lemma_single_bit_lt;
use crate::bitwise::lemma_single_bit_nonzero;
use crate::bitwise::lemma_single_bits_distinct;
use crate::bitwise::lemma_sorted_vectors_reconstruct;
use crate::bitwise::lemma_subset_union;
use crate::bitwise::low_mask;
use crate::bitwise::vectors_of_mask;
use crate::bitwise::generate_vectors_from_mask;

verus! {

/// The union of `vs[i]` over the indices `i` whose bit is set in the
/// counter `k`: one point of the subspace spanned by `vs`.
pub open spec fn or_selected(vs: Seq<u64>, k: u64) -> u64
    decreases vs.len(),
{
    if vs.len() == 0 {
        0u64
    } else {
        or_selected(vs.drop_last(), k) | (if k & (1u64 << ((vs.len() - 1) as usize)) != 0 {
            vs.last()
        } else {
            0u64
        })
    }
}

/// The state the span of `vs` reaches at counter `k`, starting from the
/// bits of `initial`.
pub open spec fn span_value(initial: u64, vs: Seq<u64>, k: u64) -> u64 {
    initial | or_selected(vs, k)
}

/// All the bits of a well-formed basis lie below its universe.
pub proof fn lemma_mask_below(s: &BitBasis)
    requires
        s.wf(),
    ensures
        s.spec_mask() < (1u64 << s.max_dim),
        s.spec_mask() & (!0u64 << s.max_dim) == 0,
        forall|b: usize| s.max_dim <= b < 64 ==> !bit_set(s.spec_mask(), b),
{
    assert forall|i: int| 0 <= i < s.vectors@.len()
        implies #[trigger] s.vectors@[i] & (!0u64 << s.max_dim) == 0 by {
        let b = choose|b: usize| b < s.max_dim && s.vectors@[i] == (1u64 << b);
        lemma_single_bit_below_bound(b, s.max_dim);
    }
    lemma_or_of_disjoint(s.vectors@, !0u64 << s.max_dim);
    lemma_high_bits_zero(s.spec_mask(), s.max_dim);
    assert forall|b: usize| s.max_dim <= b < 64 implies !bit_set(s.spec_mask(), b) by {
        lemma_bit_above_bound(s.spec_mask(), s.max_dim, b);
    }
}

impl BitBasis {
    /// Extracts the single-bit vectors of `mask` in ascending bit order
    /// into a basis over `max_dim` bits.
    pub fn construct_from_mask(mask: u64, max_dim: usize) -> (r: BitBasis)
        requires
            max_dim < 64,
            mask < (1u64 << max_dim),
        ensures
            r.wf(),
            r.max_dim == max_dim,
            r.vectors@ == vectors_of_mask(mask, 64),
            r.spec_mask() == mask,
            r.dim == indices_of_mask(mask, 64).len(),
            forall|i: int, j: int| 0 <= i < j < r.vectors@.len()
                ==> r.vectors@[i] < r.vectors@[j],
    {
        let vectors = generate_vectors_from_mask(mask);
        proof {
            lemma_indices_of_mask_props(mask, 64);
            let idx = indices_of_mask(mask, 64);
            assert forall|i: int| 0 <= i < idx.len() implies #[trigger] idx[i] < max_dim by {
                if idx[i] >= max_dim {
                    lemma_bit_above_bound(mask, max_dim, idx[i]);
                }
            }
            assert(idx.no_duplicates());
            lemma_distinct_indices_bounded(idx, max_dim);
            assert forall|i: int| 0 <= i < vectors@.len()
                implies is_basis_vector(#[trigger] vectors@[i], max_dim) by {
                assert(vectors@[i] == 1u64 << idx[i]);
            }
            assert forall|i: int, j: int| 0 <= i < j < vectors@.len()
                implies vectors@[i] < vectors@[j] by {
                lemma_single_bit_lt(idx[i], idx[j]);
            }
        }
        let r = BitBasis::construct_from_vectors(vectors.as_slice(), max_dim);
        proof {
            lemma_or_of_vectors_of_mask(mask, 64);
            lemma_and_zero(mask);
            lemma_or_and_self(0, mask);
            assert(low_mask(64) == !0u64);
            assert(r.spec_mask() == mask & !0u64);
        }
        r
    }

    /// The full subspace of a state space of the given size: fails
    /// unless the size is a power of two, and then spans all its bits.
    pub fn construct_from_max_image_size(max_image_size: usize) -> (r: Option<BitBasis>)
        ensures
            (r is Some) == (exists|k: usize| k < 64 && pow2(k as nat) == max_image_size),
            r matches Some(s) ==> s.wf(),
            r matches Some(s) ==> s.dim == s.max_dim,
            r matches Some(s) ==> pow2(s.max_dim as nat) == max_image_size,
            r matches Some(s) ==> s.vectors@ == vectors_of_mask(low_mask(s.max_dim), 64),
            r matches Some(s) ==> s.spec_mask() == low_mask(s.max_dim),
    {
        let target: u64 = max_image_size as u64;
        let mut k: usize = 0;
        while k < 64
            invariant
                k <= 64,
                target == max_image_size as u64,
                forall|j: usize| j < k ==> pow2(j as nat) != max_image_size,
            decreases 64 - k,
        {
            proof {
                lemma_pow2_u64(k);
            }
            if (1u64 << k) == target {
                let mask = target - 1;
                proof {
                    assert(mask == (1u64 << k) - 1);
                    assert(mask < (1u64 << k));
                    assert(mask as u64 == low_mask(k));
                    lemma_indices_low_mask_full(k);
                }
                let basis = BitBasis::construct_from_mask(mask, k);
                return Some(basis);
            }
            k = k + 1;
        }
        proof {
            assert forall|j: usize| j < 64 implies pow2(j as nat) != max_image_size by {}
        }
        None
    }

    /// The basis of exactly the single-bit vectors of the universe that
    /// are absent from this one, in ascending bit order.
    pub fn generate_complement_basis(&self) -> (r: BitBasis)
        requires
            self.wf(),
        ensures
            r.wf(),
            r.max_dim == self.max_dim,
            r.dim == self.codim,
            r.codim == self.dim,
            r.vectors@ == vectors_of_mask(!self.spec_mask(), self.max_dim as nat),
            r.spec_mask() == !self.spec_mask() & low_mask(self.max_dim),
            forall|i: int, j: int| 0 <= i < j < r.vectors@.len()
                ==> r.vectors@[i] < r.vectors@[j],
    {
        let union = self.to_mask();
        let mut complement = Vec::<u64>::new();
        let mut i: usize = 0;
        proof {
            assert(vectors_of_mask(!union, 0) =~= Seq::<u64>::empty());
        }
        while i < self.max_dim
            invariant
                i <= self.max_dim < 64,
                union == self.spec_mask(),
                complement@ == vectors_of_mask(!union, i as nat),
            decreases self.max_dim - i,
        {
            proof {
                lemma_bit_not(union, i);
            }
            if union & (1u64 << i) == 0 {
                complement.push(1u64 << i);
                proof {
                    assert(vectors_of_mask(!union, (i + 1) as nat)
                        =~= vectors_of_mask(!union, i as nat).push(1u64 << i));
                }
            } else {
                proof {
                    assert(vectors_of_mask(!union, (i + 1) as nat)
                        =~= vectors_of_mask(!union, i as nat));
                }
            }
            i = i + 1;
        }
        proof {
            let d = self.max_dim as nat;
            lemma_indices_of_mask_props(!union, d);
            let idx = indices_of_mask(!union, d);
            assert forall|a: int| 0 <= a < complement@.len()
                implies is_basis_vector(#[trigger] complement@[a], self.max_dim) by {
                assert(complement@[a] == 1u64 << idx[a]);
                assert(idx[a] < self.max_dim);
            }
            assert forall|a: int, b: int| 0 <= a < b < complement@.len()
                implies complement@[a] < complement@[b] by {
                lemma_single_bit_lt(idx[a], idx[b]);
            }
            lemma_indices_count_split(union, d);
            assert forall|a: int| 0 <= a < self.vectors@.len()
                implies is_basis_vector(#[trigger] self.vectors@[a], 64) by {
                let b = choose|b: usize| b < self.max_dim && self.vectors@[a] == (1u64 << b);
                assert(b < 64 && self.vectors@[a] == (1u64 << b));
            }
            lemma_popcount_or_of(self.vectors@);
            lemma_mask_below(self);
            lemma_indices_no_bits_above(union, d, 64);
            assert(idx.len() == self.codim);
            lemma_or_of_vectors_of_mask(!union, d);
        }
        BitBasis {
            dim: self.codim,
            codim: self.dim,
            max_dim: self.max_dim,
            unused_mask: !0u64 << self.codim,
            vectors: complement,
        }
    }

    /// Begins the enumeration of the `2^dim` states the subspace spans,
    /// each of them laid over the bits of `initial`.
    pub fn span<'a>(&'a self, initial: u64) -> (it: CombinationIterator<'a>)
        ensures
            it.parent_spec() == *self,
            it.initial_spec() == initial,
            it.current_spec() == 0,
    {
        CombinationIterator { initial: initial, current: 0, parent: self }
    }
}

/// Raising 2 to a power below the width of a 64-bit word neither
/// overflows nor vanishes, and agrees with the machine shift.
proof fn lemma_pow2_u64(k: usize)
    requires
        k < 64,
    ensures
        (1u64 << k) == pow2(k as nat),
        pow2(k as nat) >= 1,
{
    unsigned_int_max_values();
    lemma_pow2_strictly_increases(k as nat, 64);
    vstd::bits::lemma_u64_shl_is_mul(1u64, k as u64);
    vstd::arithmetic::power2::lemma_pow2_pos(k as nat);
}

/// The set bits of `low_mask(k)` below any `n >= k` are `0, 1, ..., k-1`
/// in order.
proof fn lemma_indices_low_mask_full(k: usize)
    requires
        k < 64,
    ensures
        indices_of_mask(low_mask(k), 64).len() == k,
{
    lemma_indices_low_mask_aux(k, 64);
}

/// Counting the set bits of `low_mask(k)` below `n` gives the smaller of
/// `k` and `n`.
proof fn lemma_indices_low_mask_aux(k: usize, n: nat)
    requires
        k <= 64,
        n <= 64,
    ensures
        indices_of_mask(low_mask(k), n).len() == if n <= k {
            n
        } else {
            k as nat
        },
    decreases n,
{
    if n != 0 {
        lemma_indices_low_mask_aux(k, (n - 1) as nat);
        lemma_bit_low_mask_self(k, (n - 1) as usize);
    }
}

} // verus!

verus! {

/// Enumerates, in counter order, the `2^dim` states of a subspace's
/// span, each laid over the bits the enumeration started from.
pub struct CombinationIterator<'a> {
    initial: u64,
    current: u64,
    parent: &'a BitBasis,
}

impl<'a> CombinationIterator<'a> {
    /// The basis whose span is being enumerated.
    pub closed spec fn parent_spec(&self) -> BitBasis {
        *self.parent
    }

    /// The bits every enumerated state is laid over.
    pub closed spec fn initial_spec(&self) -> u64 {
        self.initial
    }

    /// The counter of the next state to produce.
    pub closed spec fn current_spec(&self) -> u64 {
        self.current
    }

    /// Produces the next state of the span, or nothing once all `2^dim`
    /// counters are spent.
    pub fn next(&mut self) -> (r: Option<u64>)
        requires
            old(self).parent_spec().wf(),
        ensures
            final(self).parent_spec() == old(self).parent_spec(),
            final(self).initial_spec() == old(self).initial_spec(),
            old(self).current_spec() < (1u64 << old(self).parent_spec().dim) ==> {
                &&& r == Some(span_value(
                    old(self).initial_spec(),
                    old(self).parent_spec().vectors@,
                    old(self).current_spec(),
                ))
                &&& final(self).current_spec() == old(self).current_spec() + 1
            },
            old(self).current_spec() >= (1u64 << old(self).parent_spec().dim) ==> {
                &&& r is None
                &&& final(self).current_spec() == old(self).current_spec()
            },
    {
        proof {
            lemma_high_bits_zero(self.current, self.parent.dim);
        }
        if self.current & self.parent.unused_mask != 0 {
            return None;
        }
        let mut union: u64 = self.initial;
        let mut i: usize = 0;
        proof {
            lemma_and_zero(self.initial);
            assert(self.parent.vectors@.take(0) =~= Seq::<u64>::empty());
        }
        while i < self.parent.dim
            invariant
                i <= self.parent.dim,
                self.parent.wf(),
                union == span_value(self.initial, self.parent.vectors@.take(i as int), self.current),
            decreases self.parent.dim - i,
        {
            let taken: Ghost<Seq<u64>> = Ghost(self.parent.vectors@.take(i as int));
            if self.current & (1u64 << i) != 0 {
                union = union | self.parent.vectors[i];
            }
            proof {
                let next_taken = self.parent.vectors@.take(i + 1);
                assert(next_taken.drop_last() =~= taken@);
                assert(next_taken.last() == self.parent.vectors@[i as int]);
                if self.current & (1u64 << i) != 0 {
                    lemma_or_assoc(self.initial, or_selected(taken@, self.current),
                        self.parent.vectors@[i as int]);
                } else {
                    lemma_and_zero(or_selected(taken@, self.current));
                }
            }
            i = i + 1;
        }
        proof {
            assert(self.parent.vectors@.take(self.parent.vectors@.len() as int)
                =~= self.parent.vectors@);
        }
        self.current = self.current + 1;
        Some(union)
    }
}

} // verus!

verus! {

/// A mask disjoint from every vector is disjoint from any point of the
/// span.
pub proof fn lemma_or_selected_disjoint(vs: Seq<u64>, k: u64, m: u64)
    requires
        forall|i: int| 0 <= i < vs.len() ==> #[trigger] vs[i] & m == 0,
    ensures
        or_selected(vs, k) & m == 0,
    decreases vs.len(),
{
    if vs.len() == 0 {
        lemma_and_zero(m);
        assert(0u64 & m == 0);
    } else {
        let rest = vs.drop_last();
        assert(forall|i: int| 0 <= i < rest.len() ==> #[trigger] rest[i] & m == 0);
        lemma_or_selected_disjoint(rest, k, m);
        if k & (1u64 << ((vs.len() - 1) as usize)) != 0 {
            lemma_or_preserves_disjoint(or_selected(rest, k), vs.last(), m);
        } else {
            lemma_and_zero(or_selected(rest, k));
        }
    }
}

/// Distinct pairwise-disjoint vectors make the span injective in the
/// low bits of the counter.
proof fn lemma_or_selected_inj(vs: Seq<u64>, k1: u64, k2: u64)
    requires
        vs.len() <= 64,
        forall|i: int| 0 <= i < vs.len() ==> is_basis_vector(#[trigger] vs[i], 64),
        forall|i: int, j: int| 0 <= i < j < vs.len() ==> vs[i] != vs[j],
        or_selected(vs, k1) == or_selected(vs, k2),
    ensures
        k1 & low_mask(vs.len() as usize) == k2 & low_mask(vs.len() as usize),
    decreases vs.len(),
{
    if vs.len() == 0 {
        assert((((1u64 << 0u64) - 1) as u64) == 0) by (bit_vector);
        lemma_and_zero(k1);
        lemma_and_zero(k2);
    } else {
        let n = (vs.len() - 1) as usize;
        let rest = vs.drop_last();
        let c = vs.last();
        let b = choose|b: usize| b < 64 && c == (1u64 << b);
        assert forall|j: int| 0 <= j < rest.len() implies #[trigger] rest[j] & c == 0 by {
            let bj = choose|bj: usize| bj < 64 && rest[j] == (1u64 << bj);
            assert(vs[j] != vs.last());
            if bj == b {
                assert(rest[j] == c);
            } else {
                lemma_single_bits_distinct(bj, b);
            }
        }
        lemma_or_selected_disjoint(rest, k1, c);
        lemma_or_selected_disjoint(rest, k2, c);
        let a1 = or_selected(rest, k1);
        let a2 = or_selected(rest, k2);
        let b1 = k1 & (1u64 << n) != 0;
        let b2 = k2 & (1u64 << n) != 0;
        lemma_and_zero(a1);
        lemma_and_zero(a2);
        if b1 != b2 {
            lemma_single_bit_nonzero(b);
            lemma_or_and_self(a1, c);
            lemma_or_and_self(a2, c);
            assert(false);
        }
        if b1 {
            lemma_or_disjoint_cancel(a1, a2, c);
        }
        lemma_or_selected_inj(rest, k1, k2);
        lemma_low_mask_split(k1, n);
        lemma_low_mask_split(k2, n);
    }
}

/// Every point of the span stays inside the union of the vectors.
proof fn lemma_or_selected_subset(vs: Seq<u64>, k: u64)
    ensures
        or_selected(vs, k) & !or_of(vs) == 0,
    decreases vs.len(),
{
    if vs.len() == 0 {
        lemma_and_zero(!or_of(vs));
    } else {
        let rest = vs.drop_last();
        let c = vs.last();
        lemma_or_selected_subset(rest, k);
        lemma_subset_union(or_selected(rest, k), or_of(rest), c);
        if k & (1u64 << ((vs.len() - 1) as usize)) != 0 {
            lemma_or_preserves_disjoint(or_selected(rest, k), c, !or_of(vs));
        } else {
            lemma_and_zero(or_selected(rest, k));
        }
    }
}

/// Rebuilding a basis from its own mask and universe recovers the basis
/// itself, provided its vectors are listed in ascending order, as every
/// mask-built basis lists them. Together with the contract of
/// `construct_from_mask`, whose result is determined by the mask and the
/// universe alone, this says the round trip through `to_mask` is the
/// identity on such bases.
pub proof fn lemma_construct_from_mask_round_trip(s: &BitBasis)
    requires
        s.wf(),
        forall|i: int, j: int| 0 <= i < j < s.vectors@.len()
            ==> s.vectors@[i] < s.vectors@[j],
    ensures
        s.spec_mask() < (1u64 << s.max_dim),
        vectors_of_mask(s.spec_mask(), 64) == s.vectors@,
{
    lemma_mask_below(s);
    assert forall|i: int| 0 <= i < s.vectors@.len()
        implies is_basis_vector(#[trigger] s.vectors@[i], 64) by {
        let b = choose|b: usize| b < s.max_dim && s.vectors@[i] == (1u64 << b);
        assert(b < 64 && s.vectors@[i] == (1u64 << b));
    }
    lemma_sorted_vectors_reconstruct(s.vectors@, 64);
}

/// Taking the complement twice gives back the original vectors as a
/// set: together with the contract of `generate_complement_basis`, whose
/// result lists `vectors_of_mask(!spec_mask(), max_dim)`, this says a
/// double complement has exactly the original basis vectors.
pub proof fn lemma_complement_involution(s: &BitBasis)
    requires
        s.wf(),
    ensures
        vectors_of_mask(
            !or_of(vectors_of_mask(!s.spec_mask(), s.max_dim as nat)),
            s.max_dim as nat,
        ).to_set() == s.vectors@.to_set(),
{
    let d = s.max_dim;
    let u = s.spec_mask();
    lemma_or_of_vectors_of_mask(!u, d as nat);
    let x = !(!u & low_mask(d));
    assert forall|b: usize| b < d implies bit_set(x, b) == bit_set(u, b) by {
        lemma_bit_not(!u & low_mask(d), b);
        lemma_bit_low_mask(!u, d, b);
        lemma_bit_not(u, b);
    }
    lemma_indices_stability(x, u, d as nat);
    let back = vectors_of_mask(u, d as nat);
    lemma_indices_of_mask_props(u, d as nat);
    let idx = indices_of_mask(u, d as nat);
    assert forall|v: u64| back.to_set().contains(v) implies s.vectors@.to_set().contains(v) by {
        let a = choose|a: int| 0 <= a < back.len() && back[a] == v;
        let b = idx[a];
        assert(bit_set(u, b));
        lemma_or_of_bit(s.vectors@, b);
        let i = choose|i: int| 0 <= i < s.vectors@.len() && bit_set(#[trigger] s.vectors@[i], b);
        let bi = choose|bi: usize| bi < s.max_dim && s.vectors@[i] == (1u64 << bi);
        lemma_bit_zero_single(bi, b);
        assert(s.vectors@[i] == v);
    }
    assert forall|v: u64| s.vectors@.to_set().contains(v) implies back.to_set().contains(v) by {
        let i = choose|i: int| 0 <= i < s.vectors@.len() && s.vectors@[i] == v;
        let bi = choose|bi: usize| bi < s.max_dim && s.vectors@[i] == (1u64 << bi);
        assert(bit_set(s.vectors@[i], bi)) by {
            lemma_bit_zero_single(bi, bi);
        }
        assert(bit_set(u, bi)) by {
            lemma_or_of_bit(s.vectors@, bi);
        }
        lemma_indices_of_mask_props(u, d as nat);
        assert(idx.contains(bi));
        let a = choose|a: int| 0 <= a < idx.len() && idx[a] == bi;
        assert(back[a] == v);
    }
    assert(back.to_set() =~= s.vectors@.to_set());
}

/// Spanning from zero is injective: distinct counters below `2^dim`
/// reach distinct states, so `span(0)` enumerates exactly `2^dim`
/// distinct values.
pub proof fn lemma_span_injective(s: &BitBasis, k1: u64, k2: u64)
    requires
        s.wf(),
        k1 < (1u64 << s.dim),
        k2 < (1u64 << s.dim),
        k1 != k2,
    ensures
        span_value(0, s.vectors@, k1) != span_value(0, s.vectors@, k2),
{
    if span_value(0, s.vectors@, k1) == span_value(0, s.vectors@, k2) {
        lemma_and_zero(or_selected(s.vectors@, k1));
        lemma_and_zero(or_selected(s.vectors@, k2));
        assert forall|i: int| 0 <= i < s.vectors@.len()
            implies is_basis_vector(#[trigger] s.vectors@[i], 64) by {
            let b = choose|b: usize| b < s.max_dim && s.vectors@[i] == (1u64 << b);
            assert(b < 64 && s.vectors@[i] == (1u64 << b));
        }
        lemma_or_selected_inj(s.vectors@, k1, k2);
        lemma_low_mask_id(k1, s.dim);
        lemma_low_mask_id(k2, s.dim);
        assert(false);
    }
}

/// Every state that `span(0)` reaches is a subset of the subspace's
/// mask.
pub proof fn lemma_span_subset(s: &BitBasis, k: u64)
    requires
        s.wf(),
    ensures
        span_value(0, s.vectors@, k) & s.spec_mask() == span_value(0, s.vectors@, k),
{
    lemma_or_selected_subset(s.vectors@, k);
    lemma_and_zero(or_selected(s.vectors@, k));
    lemma_mask_absorb(or_selected(s.vectors@, k), s.spec_mask());
}

} // verus!

verus! {

/// A state filtered onto a subspace's bits stays below the universe.
pub proof fn lemma_masked_below(s: &BitBasis, state: u64)
    requires
        s.wf(),
    ensures
        state & s.spec_mask() < (1u64 << s.max_dim),
{
    lemma_mask_below(s);
    crate::bitwise::lemma_and_preserves_disjoint(state, s.spec_mask(), !0u64 << s.max_dim);
    lemma_high_bits_zero(state & s.spec_mask(), s.max_dim);
}

/// Every spanned state stays below the universe when its starting bits
/// do.
pub proof fn lemma_span_value_bound(s: &BitBasis, base: u64, k: u64)
    requires
        s.wf(),
        base < (1u64 << s.max_dim),
    ensures
        span_value(base, s.vectors@, k) < (1u64 << s.max_dim),
{
    lemma_span_value_bound_seq(s.vectors@, s.max_dim, base, k);
}

/// The same bound over a bare list of basis vectors.
pub proof fn lemma_span_value_bound_seq(vs: Seq<u64>, max_dim: usize, base: u64, k: u64)
    requires
        max_dim < 64,
        forall|i: int| 0 <= i < vs.len() ==> is_basis_vector(#[trigger] vs[i], max_dim),
        base < (1u64 << max_dim),
    ensures
        span_value(base, vs, k) < (1u64 << max_dim),
{
    let unused = !0u64 << max_dim;
    assert forall|i: int| 0 <= i < vs.len() implies #[trigger] vs[i] & unused == 0 by {
        let b = choose|b: usize| b < max_dim && vs[i] == (1u64 << b);
        lemma_single_bit_below_bound(b, max_dim);
    }
    lemma_or_selected_disjoint(vs, k, unused);
    lemma_high_bits_zero(base, max_dim);
    lemma_or_preserves_disjoint(base, or_selected(vs, k), unused);
    lemma_high_bits_zero(span_value(base, vs, k), max_dim);
}

} // verus!

verus! {

impl BitBasis {
    /// The vectors of the complement subspace, in ascending order: what
    /// `generate_complement_basis` lists.
    pub open spec fn spec_complement_vectors(&self) -> Seq<u64> {
        vectors_of_mask(!self.spec_mask(), self.max_dim as nat)
    }

    /// The projection of a state onto the complement subspace's bits:
    /// what the complement's `fixed_state` keeps.
    pub open spec fn spec_complement_fixed(&self, state: u64) -> u64 {
        state & (!self.spec_mask() & low_mask(self.max_dim))
    }
}

} // verus!

verus! {

/// The whole enumeration `span(0)` produces, as one sequence: entry
/// `k` is the state at counter `k`.
pub open spec fn spec_span_seq(s: &BitBasis, initial: u64) -> Seq<u64> {
    Seq::new(pow2(s.dim as nat), |k: int| span_value(initial, s.vectors@, k as u64))
}

/// `span(0)` yields exactly `2^dim` distinct values, each a subset of
/// `to_mask`: the sequence of all spanned states has no duplicates and
/// every entry stays inside the subspace's mask.
pub proof fn lemma_span_seq_distinct_subsets(s: &BitBasis)
    requires
        s.wf(),
    ensures
        spec_span_seq(s, 0).len() == pow2(s.dim as nat),
        spec_span_seq(s, 0).no_duplicates(),
        forall|k: int| 0 <= k < spec_span_seq(s, 0).len()
            ==> #[trigger] spec_span_seq(s, 0)[k] & s.spec_mask() == spec_span_seq(s, 0)[k],
{
    let sq = spec_span_seq(s, 0);
    crate::tpm::lemma_pow2_shift_u64(s.dim);
    assert forall|k1: int, k2: int| 0 <= k1 < sq.len() && 0 <= k2 < sq.len() && k1 != k2
        implies sq[k1] != sq[k2] by {
        lemma_span_injective(s, k1 as u64, k2 as u64);
    }
    assert forall|k: int| 0 <= k < sq.len() implies #[trigger] sq[k] & s.spec_mask()
        == sq[k] by {
        lemma_span_subset(s, k as u64);
    }
}

} // verus!
