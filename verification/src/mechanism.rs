//! The repertoire parts table: every cause (or effect) repertoire for
//! all pairs of a purview mask and a mechanism mask over one matrix,
//! computed once per subsystem. Row `(p << max_dim) | m` of the table
//! holds the repertoire for purview mask `p` and mechanism mask `m`,
//! so the nested searches over mechanisms, candidate purviews and
//! partitions never recompute one.

use vstd::prelude::*;
use vstd::arithmetic::power::lemma_pow_increases;
use vstd::arithmetic::power2::pow2;
use vstd::arithmetic::power2::lemma_pow2_strictly_increases;
use vstd::pervasive::unreached;
use crate::basis::BitBasis;
use crate::bitwise::indices_of_mask;
use crate::bitwise::lemma_indices_of_mask_props;
use crate::bitwise::vectors_of_mask;
use crate::repertoire::calc_cause_repertoire;
use crate::repertoire::calc_effect_repertoire;
use crate::repertoire::elementary_bound;
use crate::repertoire::joint_bound;
use crate::repertoire::spec_cause_joint_at;
use crate::repertoire::spec_effect_joint_at;
use crate::repertoire::tpm_wf;
use crate::tpm::lemma_pow2_shift_u64;

verus! {

/// Which conditional distribution a parts table holds.
pub enum RepertoireType {
    CAUSE,
    EFFECT,
}

/// The value at output index `q` of the cause repertoire for purview
/// mask `p` and mechanism mask `m`: all ones when either mask is
/// empty, else the factorisation over the mechanism's elements.
pub open spec fn spec_cause_part(
    t: Seq<Vec<u64>>,
    max_dim: usize,
    state: u64,
    p: u64,
    m: u64,
    q: u64,
) -> nat {
    let pur_vs = vectors_of_mask(p, 64);
    let mech_vs = vectors_of_mask(m, 64);
    if pur_vs.len() == 0 || mech_vs.len() == 0 {
        1
    } else {
        spec_cause_joint_at(t, pur_vs, mech_vs, max_dim, state, q, mech_vs.len() as int)
    }
}

/// The value at output index `q` of the effect repertoire for purview
/// mask `p` and mechanism mask `m`: all ones when the purview is
/// empty, else the factorisation over the purview's elements.
pub open spec fn spec_effect_part(
    t: Seq<Vec<u64>>,
    max_dim: usize,
    state: u64,
    p: u64,
    m: u64,
    q: u64,
) -> nat {
    let pur_vs = vectors_of_mask(p, 64);
    let mech_vs = vectors_of_mask(m, 64);
    if pur_vs.len() == 0 {
        1
    } else {
        spec_effect_joint_at(t, pur_vs, mech_vs, max_dim, state, q, pur_vs.len() as int)
    }
}

/// The value the parts table of the given kind holds at row
/// `(p << max_dim) | m`, output index `q`.
pub open spec fn spec_repertoire_part(
    kind: RepertoireType,
    t: Seq<Vec<u64>>,
    max_dim: usize,
    state: u64,
    p: u64,
    m: u64,
    q: u64,
) -> nat {
    match kind {
        RepertoireType::CAUSE => spec_cause_part(t, max_dim, state, p, m, q),
        RepertoireType::EFFECT => spec_effect_part(t, max_dim, state, p, m, q),
    }
}

/// Builds the whole parts table of one kind for one matrix: row
/// `p * 2^max_dim + m` holds the repertoire numerators for purview
/// mask `p` and mechanism mask `m`, each of the `2^max_dim` output
/// indices. The matrix's size must be a power of two small enough
/// that every repertoire product fits.
pub fn generate_all_repertoire_parts(
    repertoire_type: RepertoireType,
    current_state: u64,
    tpm: &Vec<Vec<u64>>,
    den: u64,
) -> (parts: Vec<Vec<u128>>)
    requires
        exists|k: usize| k <= 31 && pow2(k as nat) == tpm@.len(),
        den >= 1,
        forall|k: usize| k <= 31 && pow2(k as nat) == tpm@.len() ==> #[trigger] tpm_wf(
            tpm@,
            k,
            den,
        ),
        forall|k: usize| #![trigger tpm_wf(tpm@, k, den)] k <= 31 && pow2(k as nat)
            == tpm@.len() ==> joint_bound(k, den, k as nat) <= u128::MAX,
        tpm@.len() * tpm@.len() <= usize::MAX,
    ensures
        parts@.len() == tpm@.len() * tpm@.len(),
        forall|i: int| 0 <= i < parts@.len() ==> #[trigger] parts@[i].len() == tpm@.len(),
        forall|k: usize, p: u64, m: u64, q: u64| k <= 31 && pow2(k as nat) == tpm@.len() && p
            < tpm@.len() && m < tpm@.len() && q < tpm@.len() ==> parts@[p as int * tpm@.len()
            + m as int][q as int] == #[trigger] spec_repertoire_part(
            repertoire_type,
            tpm@,
            k,
            current_state,
            p,
            m,
            q,
        ),
{
    let ndim = tpm.len();
    let system = match BitBasis::construct_from_max_image_size(ndim) {
        Some(s) => s,
        None => unreached(),
    };
    let max_dim = system.max_dim;
    proof {
        let k = choose|k: usize| k <= 31 && pow2(k as nat) == tpm@.len();
        if max_dim != k {
            if max_dim < k {
                lemma_pow2_strictly_increases(max_dim as nat, k as nat);
            } else {
                lemma_pow2_strictly_increases(k as nat, max_dim as nat);
            }
        }
        assert(max_dim == k);
        assert(tpm_wf(tpm@, k, den) && joint_bound(k, den, k as nat) <= u128::MAX);
        lemma_pow2_shift_u64(max_dim);
    }
    let mut parts: Vec<Vec<u128>> = Vec::new();
    let mut p: usize = 0;
    while p < ndim
        invariant
            p <= ndim == tpm@.len(),
            system.wf(),
            system.max_dim == max_dim <= 31,
            pow2(system.max_dim as nat) == ndim,
            den >= 1,
            tpm_wf(tpm@, system.max_dim, den),
            joint_bound(system.max_dim, den, system.max_dim as nat) <= u128::MAX,
            ndim * ndim <= usize::MAX,
            parts@.len() == p * ndim,
            forall|i: int| 0 <= i < parts@.len() ==> #[trigger] parts@[i].len() == ndim,
            forall|a: u64, b: u64, q: u64| a < p && b < ndim && q < ndim ==> parts@[a as int
                * ndim + b as int][q as int] == #[trigger] spec_repertoire_part(
                repertoire_type,
                tpm@,
                system.max_dim,
                current_state,
                a,
                b,
                q,
            ),
        decreases ndim - p,
    {
        proof {
            lemma_pow2_shift_u64(system.max_dim);
            vstd::arithmetic::mul::lemma_mul_is_distributive_add(
                ndim as int,
                p as int,
                1int,
            );
            vstd::arithmetic::mul::lemma_mul_is_commutative(ndim as int, p as int);
            vstd::arithmetic::mul::lemma_mul_is_commutative(ndim as int, (p + 1) as int);
            vstd::arithmetic::mul::lemma_mul_inequality(
                (p + 1) as int,
                ndim as int,
                ndim as int,
            );
        }
        let purview = BitBasis::construct_from_mask(p as u64, max_dim);
        let mut m: usize = 0;
        while m < ndim
            invariant
                m <= ndim == tpm@.len(),
                p < ndim,
                system.wf(),
                system.max_dim == max_dim <= 31,
                pow2(max_dim as nat) == ndim,
                den >= 1,
                tpm_wf(tpm@, max_dim, den),
                joint_bound(max_dim, den, max_dim as nat) <= u128::MAX,
                ndim * ndim <= usize::MAX,
                p * ndim + ndim <= ndim * ndim,
                purview.wf(),
                purview.max_dim == max_dim,
                purview.spec_mask() == p as u64,
                purview.vectors@ == vectors_of_mask(p as u64, 64),
                parts@.len() == p * ndim + m,
                forall|i: int| 0 <= i < parts@.len() ==> #[trigger] parts@[i].len() == ndim,
                forall|a: u64, b: u64, q: u64| a < p && b < ndim && q < ndim ==> parts@[a as int
                    * ndim + b as int][q as int] == #[trigger] spec_repertoire_part(
                    repertoire_type,
                    tpm@,
                    max_dim,
                    current_state,
                    a,
                    b,
                    q,
                ),
                forall|b: u64, q: u64| b < m && q < ndim ==> parts@[p * ndim + b as int][
                    q as int] == #[trigger] spec_repertoire_part(
                    repertoire_type,
                    tpm@,
                    max_dim,
                    current_state,
                    p as u64,
                    b,
                    q,
                ),
            decreases ndim - m,
        {
            proof {
                lemma_pow2_shift_u64(max_dim);
                let pv = vectors_of_mask(p as u64, 64);
                let mv = vectors_of_mask(m as u64, 64);
                lemma_indices_of_mask_props(p as u64, 64);
                lemma_indices_of_mask_props(m as u64, 64);
            }
            let mechanism = BitBasis::construct_from_mask(m as u64, max_dim);
            proof {
                lemma_joint_bound_mono(max_dim, den, purview.dim);
                lemma_joint_bound_mono(max_dim, den, mechanism.dim);
            }
            let repertoire = match &repertoire_type {
                RepertoireType::CAUSE => calc_cause_repertoire(
                    &purview,
                    &mechanism,
                    current_state,
                    tpm,
                    den,
                ),
                RepertoireType::EFFECT => calc_effect_repertoire(
                    &purview,
                    &mechanism,
                    current_state,
                    tpm,
                    den,
                ),
            };
            parts.push(repertoire);
            proof {
                assert forall|a: u64, b: u64, q: u64| a < p && b < ndim && q < ndim
                    implies parts@[a as int * ndim + b as int][q as int]
                    == #[trigger] spec_repertoire_part(
                    repertoire_type,
                    tpm@,
                    max_dim,
                    current_state,
                    a,
                    b,
                    q,
                ) by {
                    assert(((a as int) * ndim + (b as int)) < p * ndim) by {
                        vstd::arithmetic::mul::lemma_mul_inequality(
                            a as int + 1,
                            p as int,
                            ndim as int,
                        );
                        vstd::arithmetic::mul::lemma_mul_is_distributive_add(
                            ndim as int,
                            a as int,
                            1int,
                        );
                        vstd::arithmetic::mul::lemma_mul_is_commutative(
                            ndim as int,
                            a as int,
                        );
                        vstd::arithmetic::mul::lemma_mul_is_commutative(
                            ndim as int,
                            a as int + 1,
                        );
                        vstd::arithmetic::mul::lemma_mul_is_commutative(
                            ndim as int,
                            p as int,
                        );
                    }
                }
                assert forall|q: u64| q < ndim implies parts@[p * ndim + m as int][
                    q as int] == #[trigger] spec_repertoire_part(
                    repertoire_type,
                    tpm@,
                    max_dim,
                    current_state,
                    p as u64,
                    m as u64,
                    q,
                ) by {
                    assert(parts@[p * ndim + m as int] == repertoire);
                    assert(purview.vectors@ == vectors_of_mask(p as u64, 64));
                    assert(mechanism.vectors@ == vectors_of_mask(m as u64, 64));
                    assert(purview.dim == vectors_of_mask(p as u64, 64).len());
                    assert(mechanism.dim == vectors_of_mask(m as u64, 64).len());
                }
            }
            m = m + 1;
        }
        p = p + 1;
    }
    proof {
        vstd::arithmetic::mul::lemma_mul_is_commutative(ndim as int, ndim as int);
        assert forall|k: usize, p2: u64, m2: u64, q2: u64| k <= 31 && pow2(k as nat)
            == tpm@.len() && p2 < tpm@.len() && m2 < tpm@.len() && q2 < tpm@.len()
            implies parts@[p2 as int * tpm@.len() + m2 as int][q2 as int]
            == #[trigger] spec_repertoire_part(
            repertoire_type,
            tpm@,
            k,
            current_state,
            p2,
            m2,
            q2,
        ) by {
            if k != max_dim {
                if k < max_dim {
                    lemma_pow2_strictly_increases(k as nat, max_dim as nat);
                } else {
                    lemma_pow2_strictly_increases(max_dim as nat, k as nat);
                }
            }
            assert(parts@[p2 as int * ndim + m2 as int][q2 as int] == spec_repertoire_part(
                repertoire_type,
                tpm@,
                max_dim,
                current_state,
                p2,
                m2,
                q2,
            ));
        }
    }
    parts
}

/// A joint product of no more factors than the universe's dimensions
/// stays within the table's cap.
proof fn lemma_joint_bound_mono(max_dim: usize, den: u64, dim: usize)
    requires
        den >= 1,
        dim <= max_dim,
        joint_bound(max_dim, den, max_dim as nat) <= u128::MAX,
    ensures
        joint_bound(max_dim, den, dim as nat) <= u128::MAX,
{
    crate::repertoire::lemma_elementary_bound_pos(max_dim, den);
    lemma_pow_increases(elementary_bound(max_dim, den), dim as nat, max_dim as nat);
}

} // verus!
