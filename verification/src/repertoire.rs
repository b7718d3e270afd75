//! Cause and effect repertoires over a purview given a mechanism, held
//! exactly: the matrix entries are integer numerators over a common
//! denominator `den`, and each repertoire is returned as the vector of
//! its unnormalised class sums (and, for several mechanism or purview
//! elements, their componentwise products). The true conditional
//! distribution is this vector divided by its own total and scaled to
//! the normalisation the caller needs; no entry here is ever divided,
//! so the values are exact.

use vstd::prelude::*;
use vstd::arithmetic::power::pow;
use vstd::arithmetic::power2::pow2;
use vstd::arithmetic::power2::lemma_pow2_adds;
use vstd::arithmetic::mul::lemma_mul_inequality;
use vstd::arithmetic::mul::lemma_mul_is_commutative;
use vstd::arithmetic::mul::lemma_mul_is_distributive_add;
use vstd::arithmetic::mul::lemma_mul_upper_bound;
use vstd::pervasive::unreached;
use crate::basis::BitBasis;
use crate::basis::span_value;
use crate::bitwise::or_of;
use crate::bitwise::vectors_of_mask;
use crate::tpm::col_span_sum;
use crate::tpm::lemma_pow2_shift_u64;
use crate::tpm::span_sum;

verus! {

/// The accumulated column sum for one matrix row `r`: the entries of
/// row `r` summed over every column that agrees with `state` on the
/// bits of the mechanism vectors `mech_vs`. This is `den` times the
/// chance that the mechanism's elements take their bits of `state`
/// when the past state is `r`.
pub open spec fn spec_cause_accumulated(
    t: Seq<Vec<u64>>,
    mech_vs: Seq<u64>,
    max_dim: usize,
    state: u64,
    r: int,
) -> nat {
    span_sum(
        t[r]@,
        vectors_of_mask(!or_of(mech_vs), max_dim as nat),
        state & or_of(mech_vs),
        pow2((max_dim - mech_vs.len()) as nat),
    )
}

/// The accumulated sums of the first `count` rows of the purview class
/// that starts at `base`.
pub open spec fn spec_cause_class_sum(
    t: Seq<Vec<u64>>,
    pur_vs: Seq<u64>,
    mech_vs: Seq<u64>,
    max_dim: usize,
    state: u64,
    base: u64,
    count: nat,
) -> nat
    decreases count,
{
    if count == 0 {
        0
    } else {
        spec_cause_class_sum(t, pur_vs, mech_vs, max_dim, state, base, (count - 1) as nat)
            + spec_cause_accumulated(
            t,
            mech_vs,
            max_dim,
            state,
            span_value(
                base,
                vectors_of_mask(!or_of(pur_vs), max_dim as nat),
                (count - 1) as u64,
            ) as int,
        )
    }
}

/// The elementary cause value at output index `row`: the class sum of
/// the accumulated column sums over all rows that agree with `row` on
/// the purview bits.
pub open spec fn spec_elementary_cause_at(
    t: Seq<Vec<u64>>,
    pur_vs: Seq<u64>,
    mech_vs: Seq<u64>,
    max_dim: usize,
    state: u64,
    row: u64,
) -> nat {
    spec_cause_class_sum(
        t,
        pur_vs,
        mech_vs,
        max_dim,
        state,
        row & or_of(pur_vs),
        pow2((max_dim - pur_vs.len()) as nat),
    )
}

/// The componentwise product of the elementary causes of the first `k`
/// mechanism vectors, at output index `row`: the virtual factorisation
/// of the cause repertoire over the mechanism's elements.
pub open spec fn spec_cause_joint_at(
    t: Seq<Vec<u64>>,
    pur_vs: Seq<u64>,
    mech_vs: Seq<u64>,
    max_dim: usize,
    state: u64,
    row: u64,
    k: int,
) -> nat
    decreases k,
{
    if k <= 0 {
        1
    } else {
        spec_cause_joint_at(t, pur_vs, mech_vs, max_dim, state, row, k - 1)
            * spec_elementary_cause_at(t, pur_vs, seq![mech_vs[k - 1]], max_dim, state, row)
    }
}

/// The matrix is square of the universe's size with entries bounded by
/// the common denominator.
pub open spec fn tpm_wf(t: Seq<Vec<u64>>, max_dim: usize, den: u64) -> bool {
    &&& t.len() == pow2(max_dim as nat)
    &&& (forall|r: int| 0 <= r < t.len() ==> #[trigger] t[r].len() == pow2(max_dim as nat))
    &&& (forall|r: int, c: int| 0 <= r < t.len() && 0 <= c < t[r].len()
        ==> #[trigger] t[r][c] <= den)
}

/// The largest value an elementary class sum can take: one full class
/// of accumulated sums, each of at most one universe of entries.
pub open spec fn elementary_bound(max_dim: usize, den: u64) -> nat {
    pow2(max_dim as nat) * pow2(max_dim as nat) * (den as nat)
}

/// Computes the elementary cause repertoire of a single-element (or
/// any one) mechanism: entry `row` is the sum, over the rows agreeing
/// with `row` on the purview, of the row's column sum over the
/// mechanism's class of `current_state`. Entries are exact numerators;
/// each is at most `elementary_bound(max_dim, den)`.
pub fn calc_elementary_cause(
    purview: &BitBasis,
    mechanism: &BitBasis,
    current_state: u64,
    tpm: &Vec<Vec<u64>>,
    den: u64,
) -> (marginal: Vec<u128>)
    requires
        purview.wf(),
        mechanism.wf(),
        purview.max_dim == mechanism.max_dim,
        purview.max_dim <= 31,
        tpm_wf(tpm@, purview.max_dim, den),
    ensures
        marginal@.len() == pow2(purview.max_dim as nat),
        forall|row: int| 0 <= row < marginal@.len() ==> #[trigger] marginal@[row]
            == spec_elementary_cause_at(
            tpm@,
            purview.vectors@,
            mechanism.vectors@,
            purview.max_dim,
            current_state,
            row as u64,
        ),
        forall|row: int| 0 <= row < marginal@.len() ==> #[trigger] marginal@[row]
            <= elementary_bound(purview.max_dim, den),
{
    let max_dim = purview.max_dim;
    let m = purview.max_image_size();
    let c_mechanism = mechanism.generate_complement_basis();
    let c_purview = purview.generate_complement_basis();
    let mfixed = mechanism.fixed_state(current_state);
    let acc_count = c_mechanism.image_size();
    let class_count = c_purview.image_size();
    proof {
        lemma_pow2_shift_u64(max_dim);
        crate::basis::lemma_masked_below(mechanism, current_state);
    }

    let mut accumulated: Vec<u128> = Vec::new();
    let mut r: usize = 0;
    while r < m
        invariant
            r <= m,
            purview.wf(),
            mechanism.wf(),
            c_mechanism.wf(),
            c_mechanism.max_dim == max_dim,
            c_mechanism.dim == mechanism.codim,
            c_mechanism.vectors@ == vectors_of_mask(
                !or_of(mechanism.vectors@),
                max_dim as nat,
            ),
            purview.max_dim == mechanism.max_dim == max_dim <= 31,
            m == pow2(max_dim as nat),
            acc_count == pow2(mechanism.codim as nat),
            mfixed == current_state & or_of(mechanism.vectors@),
            mfixed < (1u64 << max_dim),
            tpm_wf(tpm@, max_dim, den),
            accumulated@.len() == r,
            forall|q: int| 0 <= q < accumulated@.len() ==> #[trigger] accumulated@[q]
                == spec_cause_accumulated(
                tpm@,
                mechanism.vectors@,
                max_dim,
                current_state,
                q,
            ),
            forall|q: int| 0 <= q < accumulated@.len() ==> #[trigger] accumulated@[q] <= pow2(
                mechanism.codim as nat,
            ) * den,
        decreases m - r,
    {
        let mut acc: u128 = 0;
        let mut sum_it = c_mechanism.span(mfixed);
        let mut j: usize = 0;
        while j < acc_count
            invariant
                j <= acc_count,
                purview.wf(),
                mechanism.wf(),
                c_mechanism.wf(),
                c_mechanism.max_dim == max_dim,
                c_mechanism.dim == mechanism.codim,
                c_mechanism.vectors@ == vectors_of_mask(
                    !or_of(mechanism.vectors@),
                    max_dim as nat,
                ),
                mechanism.max_dim == max_dim <= 31,
                r < m == pow2(max_dim as nat),
                acc_count == pow2(mechanism.codim as nat),
                mfixed == current_state & or_of(mechanism.vectors@),
                mfixed < (1u64 << max_dim),
                tpm_wf(tpm@, max_dim, den),
                sum_it.parent_spec() == c_mechanism,
                sum_it.initial_spec() == mfixed,
                sum_it.current_spec() == j,
                acc == span_sum(tpm@[r as int]@, c_mechanism.vectors@, mfixed, j as nat),
                acc <= (j as nat) * den,
            decreases acc_count - j,
        {
            proof {
                lemma_pow2_shift_u64(c_mechanism.dim);
            }
            let col: u64 = match sum_it.next() {
                Some(v) => v,
                None => unreached(),
            };
            proof {
                crate::basis::lemma_span_value_bound(&c_mechanism, mfixed, j as u64);
                crate::tpm::lemma_u64_fits_usize(col, max_dim);
                assert((j as nat) * den + den == ((j + 1) as nat) * den) by {
                    lemma_mul_is_distributive_add(den as int, j as int, 1int);
                    lemma_mul_is_commutative(den as int, j as int);
                    lemma_mul_is_commutative(den as int, (j + 1) as int);
                }
                assert(((j + 1) as nat) * den <= pow2(mechanism.codim as nat) * den) by {
                    lemma_mul_inequality((j + 1) as int, acc_count as int, den as int);
                }
                lemma_u128_sum_bound(mechanism.codim, den, max_dim);
            }
            acc = acc + (tpm[r][col as usize] as u128);
            j = j + 1;
        }
        accumulated.push(acc);
        r = r + 1;
    }

    let mut marginal: Vec<u128> = Vec::new();
    let mut row: usize = 0;
    while row < m
        invariant
            row <= m,
            purview.wf(),
            mechanism.wf(),
            c_purview.wf(),
            c_purview.max_dim == max_dim,
            c_purview.dim == purview.codim,
            c_purview.vectors@ == vectors_of_mask(!or_of(purview.vectors@), max_dim as nat),
            purview.max_dim == mechanism.max_dim == max_dim <= 31,
            m == pow2(max_dim as nat),
            class_count == pow2(purview.codim as nat),
            accumulated@.len() == m,
            forall|q: int| 0 <= q < accumulated@.len() ==> #[trigger] accumulated@[q]
                == spec_cause_accumulated(
                tpm@,
                mechanism.vectors@,
                max_dim,
                current_state,
                q,
            ),
            forall|q: int| 0 <= q < accumulated@.len() ==> #[trigger] accumulated@[q] <= pow2(
                mechanism.codim as nat,
            ) * den,
            marginal@.len() == row,
            forall|q: int| 0 <= q < marginal@.len() ==> #[trigger] marginal@[q]
                == spec_elementary_cause_at(
                tpm@,
                purview.vectors@,
                mechanism.vectors@,
                max_dim,
                current_state,
                q as u64,
            ),
            forall|q: int| 0 <= q < marginal@.len() ==> #[trigger] marginal@[q]
                <= elementary_bound(max_dim, den),
        decreases m - row,
    {
        let base = purview.fixed_state(row as u64);
        let mut class_sum: u128 = 0;
        let mut class_it = c_purview.span(base);
        let mut j: usize = 0;
        proof {
            lemma_pow2_shift_u64(max_dim);
            crate::basis::lemma_masked_below(purview, row as u64);
        }
        while j < class_count
            invariant
                j <= class_count,
                purview.wf(),
                mechanism.wf(),
                c_purview.wf(),
                c_purview.max_dim == max_dim,
                c_purview.dim == purview.codim,
                c_purview.vectors@ == vectors_of_mask(
                    !or_of(purview.vectors@),
                    max_dim as nat,
                ),
                purview.max_dim == mechanism.max_dim == max_dim <= 31,
                row < m == pow2(max_dim as nat),
                class_count == pow2(purview.codim as nat),
                base == (row as u64) & or_of(purview.vectors@),
                base < (1u64 << max_dim),
                accumulated@.len() == m,
                forall|q: int| 0 <= q < accumulated@.len() ==> #[trigger] accumulated@[q]
                    == spec_cause_accumulated(
                    tpm@,
                    mechanism.vectors@,
                    max_dim,
                    current_state,
                    q,
                ),
                forall|q: int| 0 <= q < accumulated@.len() ==> #[trigger] accumulated@[q]
                    <= pow2(mechanism.codim as nat) * den,
                class_it.parent_spec() == c_purview,
                class_it.initial_spec() == base,
                class_it.current_spec() == j,
                class_sum == spec_cause_class_sum(
                    tpm@,
                    purview.vectors@,
                    mechanism.vectors@,
                    max_dim,
                    current_state,
                    base,
                    j as nat,
                ),
                class_sum <= (j as nat) * (pow2(mechanism.codim as nat) * den),
            decreases class_count - j,
        {
            proof {
                lemma_pow2_shift_u64(c_purview.dim);
            }
            let class_row: u64 = match class_it.next() {
                Some(v) => v,
                None => unreached(),
            };
            proof {
                crate::basis::lemma_span_value_bound(&c_purview, base, j as u64);
                crate::tpm::lemma_u64_fits_usize(class_row, max_dim);
                let b = pow2(mechanism.codim as nat) * den;
                assert((j as nat) * b + b == ((j + 1) as nat) * b) by {
                    lemma_mul_is_distributive_add(b as int, j as int, 1int);
                    lemma_mul_is_commutative(b as int, j as int);
                    lemma_mul_is_commutative(b as int, (j + 1) as int);
                }
                assert(((j + 1) as nat) * b <= pow2(purview.codim as nat) * b) by {
                    lemma_mul_inequality((j + 1) as int, class_count as int, b as int);
                }
                lemma_u128_class_bound(purview.codim, mechanism.codim, den, max_dim);
            }
            class_sum = class_sum + accumulated[class_row as usize];
            j = j + 1;
        }
        proof {
            lemma_u128_class_bound(purview.codim, mechanism.codim, den, max_dim);
        }
        marginal.push(class_sum);
        row = row + 1;
    }
    marginal
}

/// One class of accumulated sums stays within the word: both spans lie
/// inside a 31-bit universe.
proof fn lemma_u128_class_bound(p_codim: usize, m_codim: usize, den: u64, max_dim: usize)
    requires
        p_codim <= max_dim <= 31,
        m_codim <= max_dim,
    ensures
        pow2(p_codim as nat) * (pow2(m_codim as nat) * den) <= elementary_bound(max_dim, den),
        elementary_bound(max_dim, den) <= u128::MAX,
{
    let pd = pow2(p_codim as nat);
    let md = pow2(m_codim as nat);
    let pm = pow2(max_dim as nat);
    vstd::arithmetic::power2::lemma_pow2_pos(p_codim as nat);
    vstd::arithmetic::power2::lemma_pow2_pos(m_codim as nat);
    vstd::arithmetic::power2::lemma_pow2_pos(max_dim as nat);
    if p_codim < max_dim {
        vstd::arithmetic::power2::lemma_pow2_strictly_increases(p_codim as nat, max_dim as nat);
    }
    if m_codim < max_dim {
        vstd::arithmetic::power2::lemma_pow2_strictly_increases(m_codim as nat, max_dim as nat);
    }
    assert(md * den <= pm * den) by {
        lemma_mul_inequality(md as int, pm as int, den as int);
    }
    assert(pd * (md * den) <= pm * (pm * den)) by {
        lemma_mul_upper_bound(pd as int, pm as int, (md * den) as int, (pm * den) as int);
    }
    assert(pm * (pm * den) == pm * pm * den) by {
        vstd::arithmetic::mul::lemma_mul_is_associative(pm as int, pm as int, den as int);
    }
    assert(pm * pm * den <= u128::MAX) by {
        lemma_pow2_adds(max_dim as nat, max_dim as nat);
        assert(pm * pm == pow2((max_dim + max_dim) as nat));
        vstd::arithmetic::power2::lemma_pow2_strictly_increases(
            (max_dim + max_dim) as nat,
            64,
        );
        vstd::layout::unsigned_int_max_values();
        assert(pm * pm <= u64::MAX);
        lemma_mul_upper_bound((pm * pm) as int, u64::MAX as int, den as int, u64::MAX as int);
        lemma_u64_squared_le_u128_max();
    }
}

/// One accumulated column sum stays within the word.
proof fn lemma_u128_sum_bound(codim: usize, den: u64, max_dim: usize)
    requires
        codim <= max_dim <= 31,
    ensures
        pow2(codim as nat) * den <= u128::MAX,
{
    let count = pow2(codim as nat);
    let pm = pow2(max_dim as nat);
    if codim < max_dim {
        vstd::arithmetic::power2::lemma_pow2_strictly_increases(codim as nat, max_dim as nat);
    }
    assert(count * den <= pm * den) by {
        lemma_mul_inequality(count as int, pm as int, den as int);
    }
    vstd::arithmetic::power2::lemma_pow2_strictly_increases(max_dim as nat, 64);
    vstd::layout::unsigned_int_max_values();
    lemma_mul_upper_bound(pm as int, u64::MAX as int, den as int, u64::MAX as int);
    lemma_u64_squared_le_u128_max();
}

/// The product of two word-sized values fits in a double word.
proof fn lemma_u64_squared_le_u128_max()
    ensures
        (u64::MAX as int) * (u64::MAX as int) <= u128::MAX,
{
    vstd::layout::unsigned_int_max_values();
    vstd::arithmetic::power2::lemma_pow2_adds(64, 64);
    assert((pow2(64) - 1) * (pow2(64) - 1) <= pow2(128) - 1) by {
        vstd::arithmetic::power2::lemma_pow2_pos(64);
        assert((pow2(64) - 1) * (pow2(64) - 1) == pow2(64) * pow2(64) - 2 * pow2(64) + 1) by {
            lemma_mul_is_distributive_add(
                (pow2(64) - 1) as int,
                pow2(64) as int,
                -1,
            );
            lemma_mul_is_commutative((pow2(64) - 1) as int, pow2(64) as int);
            lemma_mul_is_distributive_add(pow2(64) as int, pow2(64) as int, -1);
        }
    }
}

} // verus!

verus! {

use vstd::arithmetic::power::lemma_pow1;
use vstd::arithmetic::power::lemma_pow_adds;
use vstd::arithmetic::power::lemma_pow_increases;
use vstd::arithmetic::power::lemma_pow_positive;

/// The bound an elementary repertoire obeys, raised to the number of
/// factors a joint repertoire multiplies.
pub open spec fn joint_bound(max_dim: usize, den: u64, k: nat) -> int {
    pow(elementary_bound(max_dim, den) as int, k)
}

/// The elementary bound is positive whenever the denominator is.
pub proof fn lemma_elementary_bound_pos(max_dim: usize, den: u64)
    requires
        den >= 1,
    ensures
        elementary_bound(max_dim, den) >= 1,
{
    vstd::arithmetic::power2::lemma_pow2_pos(max_dim as nat);
    let pm = pow2(max_dim as nat);
    vstd::arithmetic::mul::lemma_mul_strictly_positive(pm as int, pm as int);
    vstd::arithmetic::mul::lemma_mul_strictly_positive((pm * pm) as int, den as int);
}

/// A partial joint product can take one more elementary factor without
/// leaving its bound.
proof fn lemma_joint_step_bound(max_dim: usize, den: u64, k: nat, dim: nat)
    requires
        den >= 1,
        k < dim,
        joint_bound(max_dim, den, dim) <= u128::MAX,
    ensures
        joint_bound(max_dim, den, k) * (elementary_bound(max_dim, den) as int)
            == joint_bound(max_dim, den, (k + 1) as nat),
        joint_bound(max_dim, den, (k + 1) as nat) <= joint_bound(max_dim, den, dim),
        joint_bound(max_dim, den, k) >= 1,
{
    let e = elementary_bound(max_dim, den) as int;
    lemma_elementary_bound_pos(max_dim, den);
    lemma_pow_adds(e, k, 1);
    lemma_pow1(e);
    lemma_pow_increases(e as nat, (k + 1) as nat, dim);
    lemma_pow_positive(e, k);
}

/// The cause repertoire of a purview given a mechanism at a state, as
/// exact unnormalised numerators: all ones when there is nothing to
/// constrain (an empty purview, or an empty mechanism, whose true
/// repertoire is uniform), the elementary class sums for one mechanism
/// element, and the componentwise product of the elementary causes of
/// each mechanism element otherwise. The true distribution is this
/// vector scaled to the caller's normalisation.
pub fn calc_cause_repertoire(
    purview: &BitBasis,
    mechanism: &BitBasis,
    current_state: u64,
    tpm: &Vec<Vec<u64>>,
    den: u64,
) -> (rep: Vec<u128>)
    requires
        purview.wf(),
        mechanism.wf(),
        purview.max_dim == mechanism.max_dim,
        purview.max_dim <= 31,
        den >= 1,
        tpm_wf(tpm@, purview.max_dim, den),
        joint_bound(purview.max_dim, den, mechanism.dim as nat) <= u128::MAX,
    ensures
        rep@.len() == pow2(purview.max_dim as nat),
        purview.dim == 0 || mechanism.dim == 0 ==> forall|q: int| 0 <= q < rep@.len()
            ==> #[trigger] rep@[q] == 1,
        purview.dim > 0 && mechanism.dim > 0 ==> forall|q: int| 0 <= q < rep@.len()
            ==> #[trigger] rep@[q] == spec_cause_joint_at(
            tpm@,
            purview.vectors@,
            mechanism.vectors@,
            purview.max_dim,
            current_state,
            q as u64,
            mechanism.dim as int,
        ),
{
    let max_dim = purview.max_dim;
    let m = purview.max_image_size();
    if purview.dim == 0 || mechanism.dim == 0 {
        let mut rep: Vec<u128> = Vec::new();
        let mut q: usize = 0;
        while q < m
            invariant
                q <= m,
                rep@.len() == q,
                forall|i: int| 0 <= i < rep@.len() ==> #[trigger] rep@[i] == 1,
            decreases m - q,
        {
            rep.push(1);
            q = q + 1;
        }
        return rep;
    }
    if mechanism.dim == 1 {
        let rep = calc_elementary_cause(purview, mechanism, current_state, tpm, den);
        proof {
            assert(seq![mechanism.vectors@[0]] =~= mechanism.vectors@);
            assert forall|q: int| 0 <= q < rep@.len() implies #[trigger] rep@[q]
                == spec_cause_joint_at(
                tpm@,
                purview.vectors@,
                mechanism.vectors@,
                max_dim,
                current_state,
                q as u64,
                1,
            ) by {
                reveal_with_fuel(spec_cause_joint_at, 2);
            }
        }
        return rep;
    }

    let mut index: Vec<usize> = Vec::new();
    index.push(0);
    proof {
        assert(index@ =~= seq![0usize]);
        lemma_elementary_bound_pos(max_dim, den);
        lemma_pow1(elementary_bound(max_dim, den) as int);
        lemma_pow_increases(elementary_bound(max_dim, den) as nat, 1, mechanism.dim as nat);
    }
    let first = mechanism.sub_basis(index.as_slice());
    let mut joint = calc_elementary_cause(purview, &first, current_state, tpm, den);
    proof {
        assert(first.vectors@ =~= seq![mechanism.vectors@[0]]);
        assert forall|q: int| 0 <= q < joint@.len() implies #[trigger] joint@[q]
            == spec_cause_joint_at(
            tpm@,
            purview.vectors@,
            mechanism.vectors@,
            max_dim,
            current_state,
            q as u64,
            1,
        ) by {
            reveal_with_fuel(spec_cause_joint_at, 2);
        }
    }
    let mut i: usize = 1;
    while i < mechanism.dim
        invariant
            1 <= i <= mechanism.dim,
            purview.wf(),
            mechanism.wf(),
            purview.max_dim == mechanism.max_dim == max_dim <= 31,
            den >= 1,
            m == pow2(max_dim as nat),
            tpm_wf(tpm@, max_dim, den),
            joint_bound(max_dim, den, mechanism.dim as nat) <= u128::MAX,
            joint@.len() == m,
            forall|q: int| 0 <= q < joint@.len() ==> #[trigger] joint@[q]
                == spec_cause_joint_at(
                tpm@,
                purview.vectors@,
                mechanism.vectors@,
                max_dim,
                current_state,
                q as u64,
                i as int,
            ),
            forall|q: int| 0 <= q < joint@.len() ==> #[trigger] joint@[q] <= joint_bound(
                max_dim,
                den,
                i as nat,
            ),
        decreases mechanism.dim - i,
    {
        let mut idx: Vec<usize> = Vec::new();
        idx.push(i);
        proof {
            assert(idx@ =~= seq![i]);
        }
        let sub = mechanism.sub_basis(idx.as_slice());
        let elem = calc_elementary_cause(purview, &sub, current_state, tpm, den);
        proof {
            assert(sub.vectors@ =~= seq![mechanism.vectors@[i as int]]);
        }
        let mut q: usize = 0;
        while q < m
            invariant
                q <= m,
                purview.wf(),
                mechanism.wf(),
                purview.max_dim == mechanism.max_dim == max_dim <= 31,
                den >= 1,
                1 <= i < mechanism.dim,
                m == pow2(max_dim as nat),
                tpm_wf(tpm@, max_dim, den),
                joint_bound(max_dim, den, mechanism.dim as nat) <= u128::MAX,
                joint@.len() == m,
                elem@.len() == m,
                sub.vectors@ == seq![mechanism.vectors@[i as int]],
                forall|p: int| 0 <= p < elem@.len() ==> #[trigger] elem@[p]
                    == spec_elementary_cause_at(
                    tpm@,
                    purview.vectors@,
                    seq![mechanism.vectors@[i as int]],
                    max_dim,
                    current_state,
                    p as u64,
                ),
                forall|p: int| 0 <= p < elem@.len() ==> #[trigger] elem@[p]
                    <= elementary_bound(max_dim, den),
                forall|p: int| q <= p < joint@.len() ==> #[trigger] joint@[p]
                    == spec_cause_joint_at(
                    tpm@,
                    purview.vectors@,
                    mechanism.vectors@,
                    max_dim,
                    current_state,
                    p as u64,
                    i as int,
                ),
                forall|p: int| q <= p < joint@.len() ==> #[trigger] joint@[p] <= joint_bound(
                    max_dim,
                    den,
                    i as nat,
                ),
                forall|p: int| 0 <= p < q ==> #[trigger] joint@[p] == spec_cause_joint_at(
                    tpm@,
                    purview.vectors@,
                    mechanism.vectors@,
                    max_dim,
                    current_state,
                    p as u64,
                    i + 1,
                ),
                forall|p: int| 0 <= p < q ==> #[trigger] joint@[p] <= joint_bound(
                    max_dim,
                    den,
                    (i + 1) as nat,
                ),
            decreases m - q,
        {
            proof {
                lemma_joint_step_bound(max_dim, den, i as nat, mechanism.dim as nat);
                lemma_mul_upper_bound(
                    joint@[q as int] as int,
                    joint_bound(max_dim, den, i as nat),
                    elem@[q as int] as int,
                    elementary_bound(max_dim, den) as int,
                );
                vstd::arithmetic::mul::lemma_mul_nonnegative(
                    joint@[q as int] as int,
                    elem@[q as int] as int,
                );
            }
            let product = joint[q] * elem[q];
            joint.set(q, product);
            q = q + 1;
        }
        i = i + 1;
    }
    joint
}

} // verus!

verus! {

/// The accumulated row sum for one matrix column `col`: the entries of
/// column `col` summed over every row that agrees with `state` on the
/// mechanism's bits. This is `den` times the chance of landing on
/// `col`, averaged over the mechanism's current class.
pub open spec fn spec_effect_accumulated(
    t: Seq<Vec<u64>>,
    mech_vs: Seq<u64>,
    max_dim: usize,
    state: u64,
    col: int,
) -> nat {
    col_span_sum(
        t,
        vectors_of_mask(!or_of(mech_vs), max_dim as nat),
        state & or_of(mech_vs),
        col,
        pow2((max_dim - mech_vs.len()) as nat),
    )
}

/// The accumulated sums of the first `count` columns of the purview
/// class that starts at `base`.
pub open spec fn spec_effect_class_sum(
    t: Seq<Vec<u64>>,
    pur_vs: Seq<u64>,
    mech_vs: Seq<u64>,
    max_dim: usize,
    state: u64,
    base: u64,
    count: nat,
) -> nat
    decreases count,
{
    if count == 0 {
        0
    } else {
        spec_effect_class_sum(t, pur_vs, mech_vs, max_dim, state, base, (count - 1) as nat)
            + spec_effect_accumulated(
            t,
            mech_vs,
            max_dim,
            state,
            span_value(
                base,
                vectors_of_mask(!or_of(pur_vs), max_dim as nat),
                (count - 1) as u64,
            ) as int,
        )
    }
}

/// The elementary effect value at output index `col`: the class sum of
/// the accumulated row sums over all columns that agree with `col` on
/// the purview bits.
pub open spec fn spec_elementary_effect_at(
    t: Seq<Vec<u64>>,
    pur_vs: Seq<u64>,
    mech_vs: Seq<u64>,
    max_dim: usize,
    state: u64,
    col: u64,
) -> nat {
    spec_effect_class_sum(
        t,
        pur_vs,
        mech_vs,
        max_dim,
        state,
        col & or_of(pur_vs),
        pow2((max_dim - pur_vs.len()) as nat),
    )
}

/// The componentwise product of the elementary effects of the first
/// `k` purview vectors, at output index `col`: the factorisation of
/// the effect repertoire over the purview's elements.
pub open spec fn spec_effect_joint_at(
    t: Seq<Vec<u64>>,
    pur_vs: Seq<u64>,
    mech_vs: Seq<u64>,
    max_dim: usize,
    state: u64,
    col: u64,
    k: int,
) -> nat
    decreases k,
{
    if k <= 0 {
        1
    } else {
        spec_effect_joint_at(t, pur_vs, mech_vs, max_dim, state, col, k - 1)
            * spec_elementary_effect_at(t, seq![pur_vs[k - 1]], mech_vs, max_dim, state, col)
    }
}

/// Computes the elementary effect repertoire of a single-element (or
/// any one) purview: entry `col` is the sum, over the columns agreeing
/// with `col` on the purview, of the column's row sum over the
/// mechanism's class of `current_state`. Entries are exact numerators;
/// each is at most `elementary_bound(max_dim, den)`.
pub fn calc_elementary_effect(
    purview: &BitBasis,
    mechanism: &BitBasis,
    current_state: u64,
    tpm: &Vec<Vec<u64>>,
    den: u64,
) -> (marginal: Vec<u128>)
    requires
        purview.wf(),
        mechanism.wf(),
        purview.max_dim == mechanism.max_dim,
        purview.max_dim <= 31,
        tpm_wf(tpm@, purview.max_dim, den),
    ensures
        marginal@.len() == pow2(purview.max_dim as nat),
        forall|col: int| 0 <= col < marginal@.len() ==> #[trigger] marginal@[col]
            == spec_elementary_effect_at(
            tpm@,
            purview.vectors@,
            mechanism.vectors@,
            purview.max_dim,
            current_state,
            col as u64,
        ),
        forall|col: int| 0 <= col < marginal@.len() ==> #[trigger] marginal@[col]
            <= elementary_bound(purview.max_dim, den),
{
    let max_dim = purview.max_dim;
    let m = purview.max_image_size();
    let c_mechanism = mechanism.generate_complement_basis();
    let c_purview = purview.generate_complement_basis();
    let mfixed = mechanism.fixed_state(current_state);
    let acc_count = c_mechanism.image_size();
    let class_count = c_purview.image_size();
    proof {
        lemma_pow2_shift_u64(max_dim);
        crate::basis::lemma_masked_below(mechanism, current_state);
    }

    let mut accumulated: Vec<u128> = Vec::new();
    let mut col: usize = 0;
    while col < m
        invariant
            col <= m,
            purview.wf(),
            mechanism.wf(),
            c_mechanism.wf(),
            c_mechanism.max_dim == max_dim,
            c_mechanism.dim == mechanism.codim,
            c_mechanism.vectors@ == vectors_of_mask(
                !or_of(mechanism.vectors@),
                max_dim as nat,
            ),
            purview.max_dim == mechanism.max_dim == max_dim <= 31,
            m == pow2(max_dim as nat),
            acc_count == pow2(mechanism.codim as nat),
            mfixed == current_state & or_of(mechanism.vectors@),
            mfixed < (1u64 << max_dim),
            tpm_wf(tpm@, max_dim, den),
            accumulated@.len() == col,
            forall|q: int| 0 <= q < accumulated@.len() ==> #[trigger] accumulated@[q]
                == spec_effect_accumulated(
                tpm@,
                mechanism.vectors@,
                max_dim,
                current_state,
                q,
            ),
            forall|q: int| 0 <= q < accumulated@.len() ==> #[trigger] accumulated@[q] <= pow2(
                mechanism.codim as nat,
            ) * den,
        decreases m - col,
    {
        let mut acc: u128 = 0;
        let mut sum_it = c_mechanism.span(mfixed);
        let mut j: usize = 0;
        while j < acc_count
            invariant
                j <= acc_count,
                purview.wf(),
                mechanism.wf(),
                c_mechanism.wf(),
                c_mechanism.max_dim == max_dim,
                c_mechanism.dim == mechanism.codim,
                c_mechanism.vectors@ == vectors_of_mask(
                    !or_of(mechanism.vectors@),
                    max_dim as nat,
                ),
                mechanism.max_dim == max_dim <= 31,
                col < m == pow2(max_dim as nat),
                acc_count == pow2(mechanism.codim as nat),
                mfixed == current_state & or_of(mechanism.vectors@),
                mfixed < (1u64 << max_dim),
                tpm_wf(tpm@, max_dim, den),
                sum_it.parent_spec() == c_mechanism,
                sum_it.initial_spec() == mfixed,
                sum_it.current_spec() == j,
                acc == col_span_sum(tpm@, c_mechanism.vectors@, mfixed, col as int, j as nat),
                acc <= (j as nat) * den,
            decreases acc_count - j,
        {
            proof {
                lemma_pow2_shift_u64(c_mechanism.dim);
            }
            let row: u64 = match sum_it.next() {
                Some(v) => v,
                None => unreached(),
            };
            proof {
                crate::basis::lemma_span_value_bound(&c_mechanism, mfixed, j as u64);
                crate::tpm::lemma_u64_fits_usize(row, max_dim);
                assert((j as nat) * den + den == ((j + 1) as nat) * den) by {
                    lemma_mul_is_distributive_add(den as int, j as int, 1int);
                    lemma_mul_is_commutative(den as int, j as int);
                    lemma_mul_is_commutative(den as int, (j + 1) as int);
                }
                assert(((j + 1) as nat) * den <= pow2(mechanism.codim as nat) * den) by {
                    lemma_mul_inequality((j + 1) as int, acc_count as int, den as int);
                }
                lemma_u128_sum_bound(mechanism.codim, den, max_dim);
                assert((row as usize) < tpm@.len());
                assert(col < tpm@[row as usize as int].len());
            }
            acc = acc + (tpm[row as usize][col] as u128);
            j = j + 1;
        }
        accumulated.push(acc);
        col = col + 1;
    }

    let mut marginal: Vec<u128> = Vec::new();
    let mut out_col: usize = 0;
    while out_col < m
        invariant
            out_col <= m,
            purview.wf(),
            mechanism.wf(),
            c_purview.wf(),
            c_purview.max_dim == max_dim,
            c_purview.dim == purview.codim,
            c_purview.vectors@ == vectors_of_mask(!or_of(purview.vectors@), max_dim as nat),
            purview.max_dim == mechanism.max_dim == max_dim <= 31,
            m == pow2(max_dim as nat),
            class_count == pow2(purview.codim as nat),
            accumulated@.len() == m,
            forall|q: int| 0 <= q < accumulated@.len() ==> #[trigger] accumulated@[q]
                == spec_effect_accumulated(
                tpm@,
                mechanism.vectors@,
                max_dim,
                current_state,
                q,
            ),
            forall|q: int| 0 <= q < accumulated@.len() ==> #[trigger] accumulated@[q] <= pow2(
                mechanism.codim as nat,
            ) * den,
            marginal@.len() == out_col,
            forall|q: int| 0 <= q < marginal@.len() ==> #[trigger] marginal@[q]
                == spec_elementary_effect_at(
                tpm@,
                purview.vectors@,
                mechanism.vectors@,
                max_dim,
                current_state,
                q as u64,
            ),
            forall|q: int| 0 <= q < marginal@.len() ==> #[trigger] marginal@[q]
                <= elementary_bound(max_dim, den),
        decreases m - out_col,
    {
        let base = purview.fixed_state(out_col as u64);
        let mut class_sum: u128 = 0;
        let mut class_it = c_purview.span(base);
        let mut j: usize = 0;
        proof {
            lemma_pow2_shift_u64(max_dim);
            crate::basis::lemma_masked_below(purview, out_col as u64);
        }
        while j < class_count
            invariant
                j <= class_count,
                purview.wf(),
                mechanism.wf(),
                c_purview.wf(),
                c_purview.max_dim == max_dim,
                c_purview.dim == purview.codim,
                c_purview.vectors@ == vectors_of_mask(
                    !or_of(purview.vectors@),
                    max_dim as nat,
                ),
                purview.max_dim == mechanism.max_dim == max_dim <= 31,
                out_col < m == pow2(max_dim as nat),
                class_count == pow2(purview.codim as nat),
                base == (out_col as u64) & or_of(purview.vectors@),
                base < (1u64 << max_dim),
                accumulated@.len() == m,
                forall|q: int| 0 <= q < accumulated@.len() ==> #[trigger] accumulated@[q]
                    == spec_effect_accumulated(
                    tpm@,
                    mechanism.vectors@,
                    max_dim,
                    current_state,
                    q,
                ),
                forall|q: int| 0 <= q < accumulated@.len() ==> #[trigger] accumulated@[q]
                    <= pow2(mechanism.codim as nat) * den,
                class_it.parent_spec() == c_purview,
                class_it.initial_spec() == base,
                class_it.current_spec() == j,
                class_sum == spec_effect_class_sum(
                    tpm@,
                    purview.vectors@,
                    mechanism.vectors@,
                    max_dim,
                    current_state,
                    base,
                    j as nat,
                ),
                class_sum <= (j as nat) * (pow2(mechanism.codim as nat) * den),
            decreases class_count - j,
        {
            proof {
                lemma_pow2_shift_u64(c_purview.dim);
            }
            let class_col: u64 = match class_it.next() {
                Some(v) => v,
                None => unreached(),
            };
            proof {
                crate::basis::lemma_span_value_bound(&c_purview, base, j as u64);
                crate::tpm::lemma_u64_fits_usize(class_col, max_dim);
                let b = pow2(mechanism.codim as nat) * den;
                assert((j as nat) * b + b == ((j + 1) as nat) * b) by {
                    lemma_mul_is_distributive_add(b as int, j as int, 1int);
                    lemma_mul_is_commutative(b as int, j as int);
                    lemma_mul_is_commutative(b as int, (j + 1) as int);
                }
                assert(((j + 1) as nat) * b <= pow2(purview.codim as nat) * b) by {
                    lemma_mul_inequality((j + 1) as int, class_count as int, b as int);
                }
                lemma_u128_class_bound(purview.codim, mechanism.codim, den, max_dim);
            }
            class_sum = class_sum + accumulated[class_col as usize];
            j = j + 1;
        }
        proof {
            lemma_u128_class_bound(purview.codim, mechanism.codim, den, max_dim);
        }
        marginal.push(class_sum);
        out_col = out_col + 1;
    }
    marginal
}

/// The effect repertoire of a purview given a mechanism at a state, as
/// exact unnormalised numerators: all ones when the purview is empty,
/// the elementary class sums for one purview element, and the
/// componentwise product of each purview element's elementary effect
/// otherwise. The true distribution is this vector scaled to the
/// caller's normalisation.
pub fn calc_effect_repertoire(
    purview: &BitBasis,
    mechanism: &BitBasis,
    current_state: u64,
    tpm: &Vec<Vec<u64>>,
    den: u64,
) -> (rep: Vec<u128>)
    requires
        purview.wf(),
        mechanism.wf(),
        purview.max_dim == mechanism.max_dim,
        purview.max_dim <= 31,
        den >= 1,
        tpm_wf(tpm@, purview.max_dim, den),
        joint_bound(purview.max_dim, den, purview.dim as nat) <= u128::MAX,
    ensures
        rep@.len() == pow2(purview.max_dim as nat),
        purview.dim == 0 ==> forall|q: int| 0 <= q < rep@.len() ==> #[trigger] rep@[q] == 1,
        purview.dim > 0 ==> forall|q: int| 0 <= q < rep@.len() ==> #[trigger] rep@[q]
            == spec_effect_joint_at(
            tpm@,
            purview.vectors@,
            mechanism.vectors@,
            purview.max_dim,
            current_state,
            q as u64,
            purview.dim as int,
        ),
{
    let max_dim = purview.max_dim;
    let m = purview.max_image_size();
    if purview.dim == 0 {
        let mut rep: Vec<u128> = Vec::new();
        let mut q: usize = 0;
        while q < m
            invariant
                q <= m,
                rep@.len() == q,
                forall|i: int| 0 <= i < rep@.len() ==> #[trigger] rep@[i] == 1,
            decreases m - q,
        {
            rep.push(1);
            q = q + 1;
        }
        return rep;
    }
    if purview.dim == 1 {
        let rep = calc_elementary_effect(purview, mechanism, current_state, tpm, den);
        proof {
            assert(seq![purview.vectors@[0]] =~= purview.vectors@);
            assert forall|q: int| 0 <= q < rep@.len() implies #[trigger] rep@[q]
                == spec_effect_joint_at(
                tpm@,
                purview.vectors@,
                mechanism.vectors@,
                max_dim,
                current_state,
                q as u64,
                1,
            ) by {
                reveal_with_fuel(spec_effect_joint_at, 2);
            }
        }
        return rep;
    }

    let mut index: Vec<usize> = Vec::new();
    index.push(0);
    proof {
        assert(index@ =~= seq![0usize]);
        lemma_elementary_bound_pos(max_dim, den);
        lemma_pow1(elementary_bound(max_dim, den) as int);
        lemma_pow_increases(elementary_bound(max_dim, den) as nat, 1, purview.dim as nat);
    }
    let first = purview.sub_basis(index.as_slice());
    let mut joint = calc_elementary_effect(&first, mechanism, current_state, tpm, den);
    proof {
        assert(first.vectors@ =~= seq![purview.vectors@[0]]);
        assert forall|q: int| 0 <= q < joint@.len() implies #[trigger] joint@[q]
            == spec_effect_joint_at(
            tpm@,
            purview.vectors@,
            mechanism.vectors@,
            max_dim,
            current_state,
            q as u64,
            1,
        ) by {
            reveal_with_fuel(spec_effect_joint_at, 2);
        }
    }
    let mut i: usize = 1;
    while i < purview.dim
        invariant
            1 <= i <= purview.dim,
            purview.wf(),
            mechanism.wf(),
            purview.max_dim == mechanism.max_dim == max_dim <= 31,
            den >= 1,
            m == pow2(max_dim as nat),
            tpm_wf(tpm@, max_dim, den),
            joint_bound(max_dim, den, purview.dim as nat) <= u128::MAX,
            joint@.len() == m,
            forall|q: int| 0 <= q < joint@.len() ==> #[trigger] joint@[q]
                == spec_effect_joint_at(
                tpm@,
                purview.vectors@,
                mechanism.vectors@,
                max_dim,
                current_state,
                q as u64,
                i as int,
            ),
            forall|q: int| 0 <= q < joint@.len() ==> #[trigger] joint@[q] <= joint_bound(
                max_dim,
                den,
                i as nat,
            ),
        decreases purview.dim - i,
    {
        let mut idx: Vec<usize> = Vec::new();
        idx.push(i);
        proof {
            assert(idx@ =~= seq![i]);
        }
        let sub = purview.sub_basis(idx.as_slice());
        let elem = calc_elementary_effect(&sub, mechanism, current_state, tpm, den);
        proof {
            assert(sub.vectors@ =~= seq![purview.vectors@[i as int]]);
        }
        let mut q: usize = 0;
        while q < m
            invariant
                q <= m,
                purview.wf(),
                mechanism.wf(),
                purview.max_dim == mechanism.max_dim == max_dim <= 31,
                den >= 1,
                1 <= i < purview.dim,
                m == pow2(max_dim as nat),
                tpm_wf(tpm@, max_dim, den),
                joint_bound(max_dim, den, purview.dim as nat) <= u128::MAX,
                joint@.len() == m,
                elem@.len() == m,
                sub.vectors@ == seq![purview.vectors@[i as int]],
                forall|p: int| 0 <= p < elem@.len() ==> #[trigger] elem@[p]
                    == spec_elementary_effect_at(
                    tpm@,
                    seq![purview.vectors@[i as int]],
                    mechanism.vectors@,
                    max_dim,
                    current_state,
                    p as u64,
                ),
                forall|p: int| 0 <= p < elem@.len() ==> #[trigger] elem@[p]
                    <= elementary_bound(max_dim, den),
                forall|p: int| q <= p < joint@.len() ==> #[trigger] joint@[p]
                    == spec_effect_joint_at(
                    tpm@,
                    purview.vectors@,
                    mechanism.vectors@,
                    max_dim,
                    current_state,
                    p as u64,
                    i as int,
                ),
                forall|p: int| q <= p < joint@.len() ==> #[trigger] joint@[p] <= joint_bound(
                    max_dim,
                    den,
                    i as nat,
                ),
                forall|p: int| 0 <= p < q ==> #[trigger] joint@[p] == spec_effect_joint_at(
                    tpm@,
                    purview.vectors@,
                    mechanism.vectors@,
                    max_dim,
                    current_state,
                    p as u64,
                    i + 1,
                ),
                forall|p: int| 0 <= p < q ==> #[trigger] joint@[p] <= joint_bound(
                    max_dim,
                    den,
                    (i + 1) as nat,
                ),
            decreases m - q,
        {
            proof {
                lemma_joint_step_bound(max_dim, den, i as nat, purview.dim as nat);
                lemma_mul_upper_bound(
                    joint@[q as int] as int,
                    joint_bound(max_dim, den, i as nat),
                    elem@[q as int] as int,
                    elementary_bound(max_dim, den) as int,
                );
                vstd::arithmetic::mul::lemma_mul_nonnegative(
                    joint@[q as int] as int,
                    elem@[q as int] as int,
                );
            }
            let product = joint[q] * elem[q];
            joint.set(q, product);
            q = q + 1;
        }
        i = i + 1;
    }
    joint
}

} // verus!
