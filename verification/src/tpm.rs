//! The transition probability matrix of a network, held exactly: every
//! link function returns a probability in {0, 1/2, 1}, so every entry
//! of the 2^n x 2^n matrix is an integer numerator over the common
//! denominator 2^n. Row `r` is the current joint state, column `c` the
//! next one, and the entry is the product over the elements of each
//! element's chance of taking its bit of `c`.

use vstd::prelude::*;
use vstd::arithmetic::power2::pow2;
use vstd::arithmetic::power2::lemma2_to64;
use vstd::arithmetic::power2::lemma_pow2_adds;
use vstd::arithmetic::power2::lemma_pow2_strictly_increases;
use vstd::arithmetic::mul::lemma_mul_upper_bound;
use vstd::arithmetic::mul::lemma_mul_is_distributive_add;
use vstd::arithmetic::mul::lemma_mul_is_commutative;
use vstd::layout::unsigned_int_max_values;
use crate::basis::pow2_usize;
use crate::bitwise::bit_set;
use crate::link_fn::spec_link_on_num;
use crate::link_fn::link_on_num;
use crate::sif::LinkType;

verus! {

/// The chance, over the denominator 2, that element `i` takes the value
/// that bit `i` of `state` prescribes, when the current joint state is
/// `env`.
pub open spec fn spec_state_factor(
    link: LinkType,
    mask: u64,
    env: u64,
    state: u64,
    i: usize,
) -> nat {
    if bit_set(state, i) {
        spec_link_on_num(link, env, mask) as nat
    } else {
        (2 - spec_link_on_num(link, env, mask)) as nat
    }
}

/// The product of the first `k` elements' factors: the numerator, over
/// the denominator 2^k, of the joint chance that those elements take
/// the values `state` prescribes.
pub open spec fn joint_num_prefix(
    links: Seq<(LinkType, u64)>,
    env: u64,
    state: u64,
    k: int,
) -> nat
    decreases k,
{
    if k <= 0 {
        1
    } else {
        joint_num_prefix(links, env, state, k - 1) * spec_state_factor(
            links[k - 1].0,
            links[k - 1].1,
            env,
            state,
            (k - 1) as usize,
        )
    }
}

/// The numerator, over the denominator 2^n, of the full transition
/// probability from `env` to `state`.
pub open spec fn spec_joint_num(links: Seq<(LinkType, u64)>, env: u64, state: u64) -> nat {
    joint_num_prefix(links, env, state, links.len() as int)
}

/// The sum of the `k`-element numerators over the `count` next states
/// starting at `lo`.
pub open spec fn row_num_sum(
    links: Seq<(LinkType, u64)>,
    env: u64,
    k: int,
    lo: int,
    count: nat,
) -> nat
    decreases count,
{
    if count == 0 {
        0
    } else {
        row_num_sum(links, env, k, lo, (count - 1) as nat) + joint_num_prefix(
            links,
            env,
            (lo + count - 1) as u64,
            k,
        )
    }
}

/// Every link numerator stays within its denominator.
proof fn lemma_on_num_le_2(link: LinkType, env: u64, mask: u64)
    ensures
        spec_link_on_num(link, env, mask) <= 2,
{
}

/// A `k`-element numerator reads only the low `k` bits of the next
/// state.
proof fn lemma_prefix_state_bits(
    links: Seq<(LinkType, u64)>,
    env: u64,
    s1: u64,
    s2: u64,
    k: int,
)
    requires
        0 <= k <= 64,
        forall|j: usize| j < k ==> bit_set(s1, j) == bit_set(s2, j),
    ensures
        joint_num_prefix(links, env, s1, k) == joint_num_prefix(links, env, s2, k),
    decreases k,
{
    if k > 0 {
        lemma_prefix_state_bits(links, env, s1, s2, k - 1);
        assert(bit_set(s1, (k - 1) as usize) == bit_set(s2, (k - 1) as usize));
    }
}

/// Adding the single bit `k` on top of a state below `2^k` sets exactly
/// that bit.
proof fn lemma_add_high_bit(c: u64, k: usize, j: usize)
    requires
        j < k < 64,
        c < (1u64 << k),
    ensures
        bit_set((c + (1u64 << k)) as u64, k),
        !bit_set(c, k),
        bit_set((c + (1u64 << k)) as u64, j) == bit_set(c, j),
{
    let kk = k as u64;
    let jj = j as u64;
    assert((((c + (1u64 << kk)) as u64) & (1u64 << kk) != 0) && c & (1u64 << kk) == 0 && ((((c
        + (1u64 << kk)) as u64) & (1u64 << jj) != 0) == (c & (1u64 << jj) != 0))) by (bit_vector)
        requires
            jj < kk < 64,
            c < (1u64 << kk),
    ;
}

/// The two next states that differ only in element `k`'s bit have
/// `k+1`-element numerators that pair up to twice the `k`-element one.
proof fn lemma_joint_pair(links: Seq<(LinkType, u64)>, env: u64, c: u64, k: usize)
    requires
        k < links.len(),
        links.len() <= 63,
        c < (1u64 << k),
    ensures
        joint_num_prefix(links, env, c, k + 1) + joint_num_prefix(
            links,
            env,
            (c + (1u64 << k)) as u64,
            k + 1,
        ) == 2 * joint_num_prefix(links, env, c, k as int),
{
    let hi = (c + (1u64 << k)) as u64;
    assert forall|j: usize| j < k implies bit_set(hi, j) == bit_set(c, j) by {
        lemma_add_high_bit(c, k, j);
    }
    if k > 0 {
        lemma_add_high_bit(c, k, 0);
    } else {
        let kk = k as u64;
        assert((((c + (1u64 << kk)) as u64) & (1u64 << kk) != 0) && c & (1u64 << kk) == 0)
            by (bit_vector)
            requires
                kk < 64,
                c < (1u64 << kk),
        ;
    }
    lemma_prefix_state_bits(links, env, hi, c, k as int);
    let p = joint_num_prefix(links, env, c, k as int);
    let a = spec_link_on_num(links[k as int].0, env, links[k as int].1);
    lemma_on_num_le_2(links[k as int].0, env, links[k as int].1);
    assert(joint_num_prefix(links, env, c, k + 1) == p * ((2 - a) as nat));
    assert(joint_num_prefix(links, env, hi, k + 1) == p * (a as nat));
    assert(p * ((2 - a) as nat) + p * (a as nat) == p * 2) by {
        lemma_mul_is_distributive_add(p as int, (2 - a) as int, a as int);
    }
    assert(p * 2 == 2 * p) by {
        lemma_mul_is_commutative(p as int, 2int);
    }
}

/// Summing the paired `k+1`-element numerators over any range doubles
/// the `k`-element sum.
proof fn lemma_sum_double(links: Seq<(LinkType, u64)>, env: u64, k: usize, j: nat)
    requires
        k < links.len(),
        links.len() <= 63,
        j <= pow2(k as nat),
    ensures
        row_num_sum(links, env, k + 1, 0, j) + row_num_sum(
            links,
            env,
            k + 1,
            pow2(k as nat) as int,
            j,
        ) == 2 * row_num_sum(links, env, k as int, 0, j),
    decreases j,
{
    lemma_pow2_shift_u64(k);
    if j > 0 {
        lemma_sum_double(links, env, k, (j - 1) as nat);
        let c = (j - 1) as u64;
        assert(c < (1u64 << k));
        lemma_joint_pair(links, env, c, k);
        assert((pow2(k as nat) + j - 1) as u64 == (c + (1u64 << k)) as u64);
    }
}

/// Sums over adjacent ranges concatenate.
proof fn lemma_sum_concat(
    links: Seq<(LinkType, u64)>,
    env: u64,
    k: int,
    lo: int,
    a: nat,
    b: nat,
)
    ensures
        row_num_sum(links, env, k, lo, (a + b) as nat) == row_num_sum(links, env, k, lo, a)
            + row_num_sum(links, env, k, lo + a, b),
    decreases b,
{
    if b > 0 {
        lemma_sum_concat(links, env, k, lo, a, (b - 1) as nat);
    }
}

/// The shift form of a power of two below the word width.
pub proof fn lemma_pow2_shift_u64(k: usize)
    requires
        k < 64,
    ensures
        (1u64 << k) == pow2(k as nat),
        pow2(k as nat) >= 1,
{
    unsigned_int_max_values();
    lemma_pow2_strictly_increases(k as nat, 64);
    vstd::bits::lemma_u64_shl_is_mul(1u64, k as u64);
    vstd::arithmetic::power2::lemma_pow2_pos(k as nat);
}

/// Every row of numerators built from `k` elements sums to `2^k`: the
/// probabilities of a row of the matrix sum to one.
pub proof fn lemma_row_total(links: Seq<(LinkType, u64)>, env: u64, k: usize)
    requires
        k <= links.len(),
        links.len() <= 63,
    ensures
        row_num_sum(links, env, k as int, 0, pow2(k as nat)) == pow2(k as nat),
    decreases k,
{
    if k == 0 {
        lemma2_to64();
        assert(row_num_sum(links, env, 0, 0, 0) == 0);
        assert(row_num_sum(links, env, 0, 0, 1) == joint_num_prefix(links, env, 0u64, 0));
    } else {
        lemma_row_total(links, env, (k - 1) as usize);
        let km1 = (k - 1) as usize;
        lemma_pow2_adds((k - 1) as nat, 1);
        lemma2_to64();
        assert(pow2(k as nat) == pow2((k - 1) as nat) + pow2((k - 1) as nat));
        lemma_sum_concat(
            links,
            env,
            k as int,
            0,
            pow2((k - 1) as nat),
            pow2((k - 1) as nat),
        );
        lemma_sum_double(links, env, km1, pow2((k - 1) as nat));
    }
}

} // verus!

verus! {

/// Computes the numerator of the transition probability into `state`
/// from the per-element ON numerators already evaluated for one row.
fn calc_joint_num(
    state: u64,
    on_nums: &Vec<u64>,
    links: Ghost<Seq<(LinkType, u64)>>,
    env: Ghost<u64>,
) -> (r: u64)
    requires
        on_nums@.len() == links@.len(),
        links@.len() <= 63,
        forall|j: int| 0 <= j < on_nums@.len()
            ==> #[trigger] on_nums@[j] == spec_link_on_num(links@[j].0, env@, links@[j].1),
    ensures
        r == spec_joint_num(links@, env@, state),
        r <= pow2(links@.len()),
{
    let mut prob: u64 = 1;
    let mut i: usize = 0;
    proof {
        lemma2_to64();
    }
    while i < on_nums.len()
        invariant
            i <= on_nums@.len() == links@.len() <= 63,
            forall|j: int| 0 <= j < on_nums@.len()
                ==> #[trigger] on_nums@[j] == spec_link_on_num(links@[j].0, env@, links@[j].1),
            prob == joint_num_prefix(links@, env@, state, i as int),
            prob <= pow2(i as nat),
        decreases on_nums@.len() - i,
    {
        proof {
            lemma_on_num_le_2(links@[i as int].0, env@, links@[i as int].1);
        }
        let factor: u64 = if state & (1u64 << i) != 0 {
            on_nums[i]
        } else {
            2 - on_nums[i]
        };
        proof {
            assert(factor as nat == spec_state_factor(
                links@[i as int].0,
                links@[i as int].1,
                env@,
                state,
                i,
            ));
            lemma_mul_upper_bound(prob as int, pow2(i as nat) as int, factor as int, 2);
            lemma_pow2_adds(i as nat, 1);
            lemma2_to64();
            unsigned_int_max_values();
            if i + 1 < 64 {
                lemma_pow2_strictly_increases((i + 1) as nat, 64);
            }
        }
        prob = prob * factor;
        i = i + 1;
    }
    prob
}

/// Builds the full transition matrix of the network, as numerators over
/// the denominator `2^n`: entry `[r][c]` is `2^n` times the probability
/// that the next joint state is `c` when the current one is `r`. Every
/// row sums to exactly `2^n` and every entry is at most `2^n`: the rows
/// are probability distributions.
pub fn calc_tpm(links: &Vec<(LinkType, u64)>) -> (t: Vec<Vec<u64>>)
    requires
        links@.len() <= 63,
        links@.len() < usize::BITS,
    ensures
        t@.len() == pow2(links@.len()),
        forall|r: int| 0 <= r < t@.len() ==> #[trigger] t@[r].len() == pow2(links@.len()),
        forall|r: int, c: int| 0 <= r < t@.len() && 0 <= c < t@[r].len()
            ==> #[trigger] t@[r][c] == spec_joint_num(links@, r as u64, c as u64),
        forall|r: int, c: int| 0 <= r < t@.len() && 0 <= c < t@[r].len()
            ==> #[trigger] t@[r][c] <= pow2(links@.len()),
        forall|r: u64| r < t@.len() ==> #[trigger] row_num_sum(
            links@,
            r,
            links@.len() as int,
            0,
            pow2(links@.len()),
        ) == pow2(links@.len()),
{
    let n = links.len();
    let m = pow2_usize(n);
    let mut t: Vec<Vec<u64>> = Vec::new();
    let mut env: usize = 0;
    while env < m
        invariant
            env <= m,
            m == pow2(n as nat),
            n == links@.len() <= 63,
            t@.len() == env,
            forall|r: int| 0 <= r < t@.len() ==> #[trigger] t@[r].len() == pow2(links@.len()),
            forall|r: int, c: int| 0 <= r < t@.len() && 0 <= c < t@[r].len()
                ==> #[trigger] t@[r][c] == spec_joint_num(links@, r as u64, c as u64),
            forall|r: int, c: int| 0 <= r < t@.len() && 0 <= c < t@[r].len()
                ==> #[trigger] t@[r][c] <= pow2(links@.len()),
        decreases m - env,
    {
        let mut on_nums: Vec<u64> = Vec::new();
        let mut i: usize = 0;
        while i < n
            invariant
                i <= n == links@.len(),
                on_nums@.len() == i,
                forall|j: int| 0 <= j < i ==> #[trigger] on_nums@[j] == spec_link_on_num(
                    links@[j].0,
                    env as u64,
                    links@[j].1,
                ),
            decreases n - i,
        {
            let pair = &links[i];
            let num = link_on_num(&pair.0, env as u64, pair.1);
            on_nums.push(num);
            i = i + 1;
        }

        let mut row: Vec<u64> = Vec::new();
        let mut state: usize = 0;
        while state < m
            invariant
                state <= m,
                m == pow2(n as nat),
                n == links@.len() <= 63,
                on_nums@.len() == links@.len(),
                forall|j: int| 0 <= j < on_nums@.len() ==> #[trigger] on_nums@[j]
                    == spec_link_on_num(links@[j].0, env as u64, links@[j].1),
                row@.len() == state,
                forall|c: int| 0 <= c < row@.len() ==> #[trigger] row@[c] == spec_joint_num(
                    links@,
                    env as u64,
                    c as u64,
                ),
                forall|c: int| 0 <= c < row@.len() ==> #[trigger] row@[c] <= pow2(links@.len()),
            decreases m - state,
        {
            let entry = calc_joint_num(
                state as u64,
                &on_nums,
                Ghost(links@),
                Ghost(env as u64),
            );
            row.push(entry);
            state = state + 1;
        }
        t.push(row);
        env = env + 1;
    }
    proof {
        assert forall|r: u64| r < t@.len() implies #[trigger] row_num_sum(
            links@,
            r,
            links@.len() as int,
            0,
            pow2(links@.len()),
        ) == pow2(links@.len()) by {
            lemma_row_total(links@, r, links.len());
        }
    }
    t
}

/// Hands out the row indices of the matrix one at a time, in order.
pub struct RowCounter {
    current: usize,
    size: usize,
}

impl RowCounter {
    /// The next row index to hand out.
    pub closed spec fn current_spec(&self) -> usize {
        self.current
    }

    /// The number of rows to hand out.
    pub closed spec fn size_spec(&self) -> usize {
        self.size
    }

    /// A counter over the first `size` row indices.
    pub fn construct(size: usize) -> (r: RowCounter)
        ensures
            r.current_spec() == 0,
            r.size_spec() == size,
    {
        RowCounter { current: 0, size: size }
    }

    /// The next row index, or nothing once all have been handed out.
    pub fn get_nrow(&mut self) -> (r: Option<usize>)
        ensures
            final(self).size_spec() == old(self).size_spec(),
            old(self).current_spec() < old(self).size_spec() ==> {
                &&& r == Some(old(self).current_spec())
                &&& final(self).current_spec() == old(self).current_spec() + 1
            },
            old(self).current_spec() >= old(self).size_spec() ==> {
                &&& r is None
                &&& final(self).current_spec() == old(self).current_spec()
            },
    {
        if self.current >= self.size {
            return None;
        }
        let nrow = self.current;
        self.current = self.current + 1;
        Some(nrow)
    }
}

} // verus!

verus! {

use crate::basis::BitBasis;
use crate::basis::span_value;
use crate::bitwise::low_mask;
use vstd::arithmetic::mul::lemma_mul_inequality;
use vstd::pervasive::unreached;

/// A state below a universe of at most 31 bits fits in a machine size.
pub proof fn lemma_u64_fits_usize(x: u64, d: usize)
    requires
        d <= 31,
        x < (1u64 << d),
    ensures
        (x as usize) as u64 == x,
        x < pow2(d as nat),
        pow2(d as nat) <= usize::MAX,
{
    lemma_pow2_shift_u64(d);
    if d < 31 {
        lemma_pow2_strictly_increases(d as nat, 31);
    }
    lemma2_to64();
    unsigned_int_max_values();
    lemma_pow2_strictly_increases(31, usize::BITS as nat);
}

/// The sum of the entries of `row` at the states the span of `vs`
/// reaches from `base`, over the first `count` counters.
pub open spec fn span_sum(row: Seq<u64>, vs: Seq<u64>, base: u64, count: nat) -> nat
    decreases count,
{
    if count == 0 {
        0
    } else {
        span_sum(row, vs, base, (count - 1) as nat) + row[span_value(
            base,
            vs,
            (count - 1) as u64,
        ) as int] as nat
    }
}

/// One cell of the fixed marginal: the entries of the full matrix's row
/// picked out by `mr`, summed over the column class that `mc` stands
/// for.
pub open spec fn spec_fixed_marginal_cell(
    s: &BitBasis,
    state: u64,
    t: Seq<Vec<u64>>,
    mr: u64,
    mc: u64,
) -> nat {
    span_sum(
        t[span_value(s.spec_complement_fixed(state), s.vectors@, mr) as int]@,
        s.spec_complement_vectors(),
        span_value(0, s.vectors@, mc),
        pow2(s.codim as nat),
    )
}

/// Marginalises the full matrix onto the surviving subspace, holding
/// the complement's elements fixed at their bits of `state`: cell
/// `[mr][mc]` sums the full row chosen by `mr` over all next states
/// that agree with `mc` on the surviving bits. The numerators keep the
/// full matrix's denominator. The universe is capped so that every such
/// sum fits in the word.
pub fn calc_fixed_marginal_tpm(
    surviving_basis: &BitBasis,
    state: u64,
    tpm: &Vec<Vec<u64>>,
) -> (marginal: Vec<Vec<u64>>)
    requires
        surviving_basis.wf(),
        surviving_basis.max_dim <= 31,
        tpm@.len() == pow2(surviving_basis.max_dim as nat),
        forall|r: int| 0 <= r < tpm@.len() ==> #[trigger] tpm@[r].len() == pow2(
            surviving_basis.max_dim as nat,
        ),
        forall|r: int, c: int| 0 <= r < tpm@.len() && 0 <= c < tpm@[r].len()
            ==> #[trigger] tpm@[r][c] <= pow2(surviving_basis.max_dim as nat),
    ensures
        marginal@.len() == pow2(surviving_basis.dim as nat),
        forall|mr: int| 0 <= mr < marginal@.len() ==> #[trigger] marginal@[mr].len() == pow2(
            surviving_basis.dim as nat,
        ),
        forall|mr: int, mc: int| 0 <= mr < marginal@.len() && 0 <= mc < marginal@[mr].len()
            ==> #[trigger] marginal@[mr][mc] == spec_fixed_marginal_cell(
                surviving_basis,
                state,
                tpm@,
                mr as u64,
                mc as u64,
            ),
{
    let c_basis = surviving_basis.generate_complement_basis();
    let m_dim = surviving_basis.image_size();
    let inner_dim = surviving_basis.codim_image_size();
    let cfixed = c_basis.fixed_state(state);
    let max_dim = surviving_basis.max_dim;
    proof {
        lemma_pow2_shift_u64(surviving_basis.dim);
        lemma_pow2_shift_u64(surviving_basis.codim);
        lemma_pow2_shift_u64(max_dim);
        crate::basis::lemma_masked_below(&c_basis, state);
    }
    let mut marginal: Vec<Vec<u64>> = Vec::new();
    let mut row_it = surviving_basis.span(cfixed);
    let mut mr: usize = 0;
    while mr < m_dim
        invariant
            mr <= m_dim,
            surviving_basis.wf(),
            c_basis.wf(),
            c_basis.max_dim == surviving_basis.max_dim,
            c_basis.dim == surviving_basis.codim,
            c_basis.vectors@ == surviving_basis.spec_complement_vectors(),
            c_basis.spec_mask() == !surviving_basis.spec_mask() & low_mask(
                surviving_basis.max_dim,
            ),
            max_dim == surviving_basis.max_dim <= 31,
            m_dim == pow2(surviving_basis.dim as nat),
            inner_dim == pow2(surviving_basis.codim as nat),
            cfixed == surviving_basis.spec_complement_fixed(state),
            cfixed < (1u64 << surviving_basis.max_dim),
            tpm@.len() == pow2(max_dim as nat),
            forall|r: int| 0 <= r < tpm@.len() ==> #[trigger] tpm@[r].len() == pow2(
                max_dim as nat,
            ),
            forall|r: int, c: int| 0 <= r < tpm@.len() && 0 <= c < tpm@[r].len()
                ==> #[trigger] tpm@[r][c] <= pow2(max_dim as nat),
            row_it.parent_spec() == *surviving_basis,
            row_it.initial_spec() == cfixed,
            row_it.current_spec() == mr,
            marginal@.len() == mr,
            forall|r: int| 0 <= r < marginal@.len() ==> #[trigger] marginal@[r].len() == pow2(
                surviving_basis.dim as nat,
            ),
            forall|r: int, c: int| 0 <= r < marginal@.len() && 0 <= c < marginal@[r].len()
                ==> #[trigger] marginal@[r][c] == spec_fixed_marginal_cell(
                    surviving_basis,
                    state,
                    tpm@,
                    r as u64,
                    c as u64,
                ),
        decreases m_dim - mr,
    {
        proof {
            lemma_pow2_shift_u64(surviving_basis.dim);
        }
        let original_row: u64 = match row_it.next() {
            Some(v) => v,
            None => unreached(),
        };
        proof {
            crate::basis::lemma_span_value_bound(surviving_basis, cfixed, mr as u64);
            lemma_u64_fits_usize(original_row, max_dim);
        }
        let orow = original_row as usize;

        let mut row: Vec<u64> = Vec::new();
        let mut col_it = surviving_basis.span(0);
        let mut mc: usize = 0;
        while mc < m_dim
            invariant
                mc <= m_dim,
                surviving_basis.wf(),
                c_basis.wf(),
                c_basis.max_dim == surviving_basis.max_dim,
                c_basis.dim == surviving_basis.codim,
                c_basis.vectors@ == surviving_basis.spec_complement_vectors(),
                max_dim == surviving_basis.max_dim <= 31,
                m_dim == pow2(surviving_basis.dim as nat),
                inner_dim == pow2(surviving_basis.codim as nat),
                tpm@.len() == pow2(max_dim as nat),
                forall|r: int| 0 <= r < tpm@.len() ==> #[trigger] tpm@[r].len() == pow2(
                    max_dim as nat,
                ),
                forall|r: int, c: int| 0 <= r < tpm@.len() && 0 <= c < tpm@[r].len()
                    ==> #[trigger] tpm@[r][c] <= pow2(max_dim as nat),
                col_it.parent_spec() == *surviving_basis,
                col_it.initial_spec() == 0u64,
                col_it.current_spec() == mc,
                orow == span_value(
                    surviving_basis.spec_complement_fixed(state),
                    surviving_basis.vectors@,
                    mr as u64,
                ),
                orow < tpm@.len(),
                row@.len() == mc,
                forall|c: int| 0 <= c < row@.len() ==> #[trigger] row@[c] == span_sum(
                    tpm@[orow as int]@,
                    surviving_basis.spec_complement_vectors(),
                    span_value(0, surviving_basis.vectors@, c as u64),
                    pow2(surviving_basis.codim as nat),
                ),
            decreases m_dim - mc,
        {
            proof {
                lemma_pow2_shift_u64(surviving_basis.dim);
            }
            let eq_class: u64 = match col_it.next() {
                Some(v) => v,
                None => unreached(),
            };
            proof {
                lemma_pow2_shift_u64(max_dim);
                crate::basis::lemma_span_value_bound(surviving_basis, 0, mc as u64);
            }

            let mut acc: u64 = 0;
            let mut sum_it = c_basis.span(eq_class);
            let mut j: usize = 0;
            while j < inner_dim
                invariant
                    j <= inner_dim,
                    surviving_basis.wf(),
                    c_basis.wf(),
                    c_basis.max_dim == surviving_basis.max_dim,
                    c_basis.dim == surviving_basis.codim,
                    c_basis.vectors@ == surviving_basis.spec_complement_vectors(),
                    max_dim == surviving_basis.max_dim <= 31,
                    inner_dim == pow2(surviving_basis.codim as nat),
                    tpm@.len() == pow2(max_dim as nat),
                    forall|r: int| 0 <= r < tpm@.len() ==> #[trigger] tpm@[r].len() == pow2(
                        max_dim as nat,
                    ),
                    forall|r: int, c: int| 0 <= r < tpm@.len() && 0 <= c < tpm@[r].len()
                        ==> #[trigger] tpm@[r][c] <= pow2(max_dim as nat),
                    sum_it.parent_spec() == c_basis,
                    sum_it.initial_spec() == eq_class,
                    sum_it.current_spec() == j,
                    eq_class < (1u64 << surviving_basis.max_dim),
                    orow < tpm@.len(),
                    acc == span_sum(
                        tpm@[orow as int]@,
                        surviving_basis.spec_complement_vectors(),
                        eq_class,
                        j as nat,
                    ),
                    acc <= pow2(max_dim as nat) * (j as nat),
                decreases inner_dim - j,
            {
                proof {
                    lemma_pow2_shift_u64(surviving_basis.codim);
                }
                let original_col: u64 = match sum_it.next() {
                    Some(v) => v,
                    None => unreached(),
                };
                proof {
                    crate::basis::lemma_span_value_bound(&c_basis, eq_class, j as u64);
                    lemma_u64_fits_usize(original_col, max_dim);
                    let b = pow2(max_dim as nat);
                    assert(b * (j as nat) + b == b * ((j + 1) as nat)) by {
                        lemma_mul_is_distributive_add(b as int, j as int, 1int);
                    }
                    assert(b * ((j + 1) as nat) <= b * pow2(surviving_basis.codim as nat)) by {
                        lemma_mul_inequality((j + 1) as int, inner_dim as int, b as int);
                        lemma_mul_is_commutative(b as int, (j + 1) as int);
                        lemma_mul_is_commutative(b as int, inner_dim as int);
                    }
                    lemma_pow2_adds(max_dim as nat, surviving_basis.codim as nat);
                    lemma_pow2_strictly_increases(
                        (max_dim + surviving_basis.codim) as nat,
                        64,
                    );
                    unsigned_int_max_values();
                }
                let ocol = original_col as usize;
                acc = acc + tpm[orow][ocol];
                j = j + 1;
            }
            row.push(acc);
            mc = mc + 1;
        }
        marginal.push(row);
        mr = mr + 1;
    }
    marginal
}

} // verus!

verus! {

use vstd::arithmetic::mul::lemma_mul_nonnegative;
use crate::bitwise::or_of;
use crate::bitwise::vectors_of_mask;

/// The sum of one column's entries over the rows the span of `vs`
/// reaches from `base`: the row-class analogue of `span_sum`.
pub open spec fn col_span_sum(
    t: Seq<Vec<u64>>,
    vs: Seq<u64>,
    base: u64,
    col: int,
    count: nat,
) -> nat
    decreases count,
{
    if count == 0 {
        0
    } else {
        col_span_sum(t, vs, base, col, (count - 1) as nat) + t[span_value(
            base,
            vs,
            (count - 1) as u64,
        ) as int][col] as nat
    }
}

/// A transition matrix of exact rationals with one denominator per
/// row: entry `[r][c]` is `num[r][c] / den[r]`.
pub struct RationalTpm {
    pub num: Vec<Vec<u128>>,
    pub den: Vec<u128>,
}

/// The class sum behind one cell of the elementary marginal: the
/// entries of column `col` summed over the rows that agree with `base`
/// on the surviving subspace's bits.
pub open spec fn spec_elem_acc(
    t: Seq<Vec<u64>>,
    surv_vs: Seq<u64>,
    max_dim: usize,
    base: u64,
    col: int,
) -> nat {
    col_span_sum(
        t,
        vectors_of_mask(!or_of(surv_vs), max_dim as nat),
        base,
        col,
        pow2((max_dim - surv_vs.len()) as nat),
    )
}

/// The mass that row-class `base` sends to the target element's side
/// selected by `start`: the class sums of the columns that agree with
/// `start` on the target's bit, over the first `count` of them.
pub open spec fn spec_elem_p(
    t: Seq<Vec<u64>>,
    surv_vs: Seq<u64>,
    target_vs: Seq<u64>,
    max_dim: usize,
    base: u64,
    start: u64,
    count: nat,
) -> nat
    decreases count,
{
    if count == 0 {
        0
    } else {
        spec_elem_p(t, surv_vs, target_vs, max_dim, base, start, (count - 1) as nat)
            + spec_elem_acc(
            t,
            surv_vs,
            max_dim,
            base,
            span_value(
                start,
                vectors_of_mask(!or_of(target_vs), max_dim as nat),
                (count - 1) as u64,
            ) as int,
        )
    }
}

/// The numerator of one cell of the elementary marginal: the mass the
/// row's class sends to the side of the target element that the column
/// lies on.
pub open spec fn spec_elem_cell(
    t: Seq<Vec<u64>>,
    surv_vs: Seq<u64>,
    target_vs: Seq<u64>,
    max_dim: usize,
    r: u64,
    c: u64,
) -> nat {
    let base = r & or_of(surv_vs);
    let count = pow2((max_dim - target_vs.len()) as nat);
    if c & or_of(target_vs) != 0 {
        spec_elem_p(t, surv_vs, target_vs, max_dim, base, or_of(target_vs), count)
    } else {
        spec_elem_p(t, surv_vs, target_vs, max_dim, base, 0, count)
    }
}

/// The denominator of one row of the elementary marginal: all the mass
/// its class sends to either side of the target element.
pub open spec fn spec_elem_den(
    t: Seq<Vec<u64>>,
    surv_vs: Seq<u64>,
    target_vs: Seq<u64>,
    max_dim: usize,
    r: u64,
) -> nat {
    let base = r & or_of(surv_vs);
    let count = pow2((max_dim - target_vs.len()) as nat);
    spec_elem_p(t, surv_vs, target_vs, max_dim, base, 0, count) + spec_elem_p(
        t,
        surv_vs,
        target_vs,
        max_dim,
        base,
        or_of(target_vs),
        count,
    )
}

/// Columns that agree on the target element's bit hold the same
/// numerator in every row of the elementary marginal: the next state
/// of the target element is independent of everything else.
pub proof fn lemma_elementary_marginal_columns(
    t: Seq<Vec<u64>>,
    surv_vs: Seq<u64>,
    target_vs: Seq<u64>,
    max_dim: usize,
    r: u64,
    c1: u64,
    c2: u64,
)
    requires
        (c1 & or_of(target_vs) != 0) == (c2 & or_of(target_vs) != 0),
    ensures
        spec_elem_cell(t, surv_vs, target_vs, max_dim, r, c1) == spec_elem_cell(
            t,
            surv_vs,
            target_vs,
            max_dim,
            r,
            c2,
        ),
{
}

/// One span of accumulated class sums stays within the double word.
proof fn lemma_elem_bounds(tc: usize, sc: usize, den: u64, max_dim: usize)
    requires
        tc <= max_dim <= 31,
        sc <= max_dim,
    ensures
        pow2(sc as nat) * den <= u128::MAX,
        pow2(tc as nat) * (pow2(sc as nat) * den) <= pow2(max_dim as nat) * (pow2(
            max_dim as nat,
        ) * den),
        pow2(max_dim as nat) * (pow2(max_dim as nat) * den) <= u128::MAX / 2,
{
    let pt = pow2(tc as nat);
    let ps = pow2(sc as nat);
    let pm = pow2(max_dim as nat);
    vstd::arithmetic::power2::lemma_pow2_pos(tc as nat);
    vstd::arithmetic::power2::lemma_pow2_pos(sc as nat);
    vstd::arithmetic::power2::lemma_pow2_pos(max_dim as nat);
    if tc < max_dim {
        lemma_pow2_strictly_increases(tc as nat, max_dim as nat);
    }
    if sc < max_dim {
        lemma_pow2_strictly_increases(sc as nat, max_dim as nat);
    }
    assert(ps * den <= pm * den) by {
        vstd::arithmetic::mul::lemma_mul_inequality(ps as int, pm as int, den as int);
    }
    assert(pt * (ps * den) <= pm * (pm * den)) by {
        lemma_mul_upper_bound(pt as int, pm as int, (ps * den) as int, (pm * den) as int);
    }
    assert(pm * (pm * den) <= u128::MAX / 2) by {
        lemma_pow2_adds(max_dim as nat, max_dim as nat);
        vstd::arithmetic::mul::lemma_mul_is_associative(pm as int, pm as int, den as int);
        if max_dim + max_dim < 62 {
            lemma_pow2_strictly_increases((max_dim + max_dim) as nat, 62);
        }
        unsigned_int_max_values();
        assert(pm * pm == pow2((max_dim + max_dim) as nat));
        assert(pm * pm <= pow2(62));
        lemma_mul_upper_bound((pm * pm) as int, pow2(62) as int, den as int, u64::MAX as int);
        assert(pow2(62) * (u64::MAX as int) <= pow2(62) * pow2(64)) by {
            vstd::arithmetic::mul::lemma_mul_inequality(
                u64::MAX as int,
                pow2(64) as int,
                pow2(62) as int,
            );
            lemma_mul_is_commutative(pow2(62) as int, u64::MAX as int);
            lemma_mul_is_commutative(pow2(62) as int, pow2(64) as int);
        }
        lemma_pow2_adds(62, 64);
        lemma_pow2_strictly_increases(126, 127);
        lemma_pow2_adds(127, 1);
        vstd::arithmetic::power2::lemma2_to64();
        assert(pow2(128) == pow2(127) * 2);
        assert(u128::MAX / 2 == pow2(127) - 1);
    }
    assert(ps * den <= pm * (pm * den)) by {
        vstd::arithmetic::mul::lemma_mul_strictly_positive(pm as int, pm as int);
        assert(ps <= pm * pm) by {
            vstd::arithmetic::mul::lemma_mul_inequality(1int, pm as int, pm as int);
            lemma_mul_is_commutative(pm as int, 1int);
        }
        vstd::arithmetic::mul::lemma_mul_inequality(ps as int, (pm * pm) as int, den as int);
        lemma_mul_is_commutative(ps as int, den as int);
        lemma_mul_is_commutative((pm * pm) as int, den as int);
        vstd::arithmetic::mul::lemma_mul_is_associative(pm as int, pm as int, den as int);
    }
}

} // verus!

verus! {

/// Sums, for one side of the target element, the class sums of every
/// column on that side: the mass that the row class `base` sends to
/// the target value selected by `start`.
fn calc_elem_p(
    surviving_basis: &BitBasis,
    c_surviving: &BitBasis,
    c_target: &BitBasis,
    base: u64,
    start: u64,
    tpm: &Vec<Vec<u64>>,
    den: u64,
    target_vs: Ghost<Seq<u64>>,
) -> (p: u128)
    requires
        surviving_basis.wf(),
        c_surviving.wf(),
        c_target.wf(),
        c_surviving.max_dim == surviving_basis.max_dim,
        c_target.max_dim == surviving_basis.max_dim,
        surviving_basis.max_dim <= 31,
        c_surviving.vectors@ == vectors_of_mask(
            !or_of(surviving_basis.vectors@),
            surviving_basis.max_dim as nat,
        ),
        c_surviving.dim == surviving_basis.codim,
        c_target.vectors@ == vectors_of_mask(
            !or_of(target_vs@),
            surviving_basis.max_dim as nat,
        ),
        c_target.dim + target_vs@.len() == surviving_basis.max_dim,
        base < (1u64 << surviving_basis.max_dim),
        start < (1u64 << surviving_basis.max_dim),
        tpm@.len() == pow2(surviving_basis.max_dim as nat),
        forall|r: int| 0 <= r < tpm@.len() ==> #[trigger] tpm@[r].len() == pow2(
            surviving_basis.max_dim as nat,
        ),
        forall|r: int, c: int| 0 <= r < tpm@.len() && 0 <= c < tpm@[r].len()
            ==> #[trigger] tpm@[r][c] <= den,
    ensures
        p == spec_elem_p(
            tpm@,
            surviving_basis.vectors@,
            target_vs@,
            surviving_basis.max_dim,
            base,
            start,
            pow2(c_target.dim as nat),
        ),
        p <= pow2(surviving_basis.max_dim as nat) * (pow2(surviving_basis.max_dim as nat)
            * den),
{
    let max_dim = surviving_basis.max_dim;
    let t_count = c_target.image_size();
    let s_count = c_surviving.image_size();
    let mut p: u128 = 0;
    let mut col_it = c_target.span(start);
    let mut j: usize = 0;
    while j < t_count
        invariant
            j <= t_count,
            surviving_basis.wf(),
            c_surviving.wf(),
            c_target.wf(),
            c_surviving.max_dim == c_target.max_dim == surviving_basis.max_dim == max_dim
                <= 31,
            c_surviving.vectors@ == vectors_of_mask(
                !or_of(surviving_basis.vectors@),
                max_dim as nat,
            ),
            c_surviving.dim == surviving_basis.codim,
            c_target.vectors@ == vectors_of_mask(!or_of(target_vs@), max_dim as nat),
            c_target.dim + target_vs@.len() == max_dim,
            base < (1u64 << max_dim),
            start < (1u64 << max_dim),
            t_count == pow2(c_target.dim as nat),
            s_count == pow2(c_surviving.dim as nat),
            tpm@.len() == pow2(max_dim as nat),
            forall|r: int| 0 <= r < tpm@.len() ==> #[trigger] tpm@[r].len() == pow2(
                max_dim as nat,
            ),
            forall|r: int, c: int| 0 <= r < tpm@.len() && 0 <= c < tpm@[r].len()
                ==> #[trigger] tpm@[r][c] <= den,
            col_it.parent_spec() == *c_target,
            col_it.initial_spec() == start,
            col_it.current_spec() == j,
            p == spec_elem_p(
                tpm@,
                surviving_basis.vectors@,
                target_vs@,
                max_dim,
                base,
                start,
                j as nat,
            ),
            p <= (j as nat) * (pow2(c_surviving.dim as nat) * den),
        decreases t_count - j,
    {
        proof {
            lemma_pow2_shift_u64(c_target.dim);
        }
        let col: u64 = match col_it.next() {
            Some(v) => v,
            None => unreached(),
        };
        proof {
            crate::basis::lemma_span_value_bound(c_target, start, j as u64);
            lemma_u64_fits_usize(col, max_dim);
        }
        let colu = col as usize;

        let mut acc: u128 = 0;
        let mut row_it = c_surviving.span(base);
        let mut js: usize = 0;
        while js < s_count
            invariant
                js <= s_count,
                c_surviving.wf(),
                c_surviving.max_dim == max_dim <= 31,
                base < (1u64 << max_dim),
                s_count == pow2(c_surviving.dim as nat),
                tpm@.len() == pow2(max_dim as nat),
                forall|r: int| 0 <= r < tpm@.len() ==> #[trigger] tpm@[r].len() == pow2(
                    max_dim as nat,
                ),
                forall|r: int, c: int| 0 <= r < tpm@.len() && 0 <= c < tpm@[r].len()
                    ==> #[trigger] tpm@[r][c] <= den,
                colu == col,
                colu < pow2(max_dim as nat),
                row_it.parent_spec() == *c_surviving,
                row_it.initial_spec() == base,
                row_it.current_spec() == js,
                acc == col_span_sum(
                    tpm@,
                    c_surviving.vectors@,
                    base,
                    colu as int,
                    js as nat,
                ),
                acc <= (js as nat) * den,
            decreases s_count - js,
        {
            proof {
                lemma_pow2_shift_u64(c_surviving.dim);
            }
            let row: u64 = match row_it.next() {
                Some(v) => v,
                None => unreached(),
            };
            proof {
                crate::basis::lemma_span_value_bound(c_surviving, base, js as u64);
                lemma_u64_fits_usize(row, max_dim);
                assert((row as usize) < tpm@.len());
                assert(colu < tpm@[row as usize as int].len());
                assert((js as nat) * den + den == ((js + 1) as nat) * den) by {
                    lemma_mul_is_distributive_add(den as int, js as int, 1int);
                    lemma_mul_is_commutative(den as int, js as int);
                    lemma_mul_is_commutative(den as int, (js + 1) as int);
                }
                assert(((js + 1) as nat) * den <= pow2(c_surviving.dim as nat) * den) by {
                    vstd::arithmetic::mul::lemma_mul_inequality(
                        (js + 1) as int,
                        s_count as int,
                        den as int,
                    );
                }
                lemma_elem_bounds(0, c_surviving.dim, den, max_dim);
            }
            acc = acc + (tpm[row as usize][colu] as u128);
            js = js + 1;
        }

        proof {
            let b = pow2(c_surviving.dim as nat) * den;
            assert((j as nat) * b + b == ((j + 1) as nat) * b) by {
                lemma_mul_is_distributive_add(b as int, j as int, 1int);
                lemma_mul_is_commutative(b as int, j as int);
                lemma_mul_is_commutative(b as int, (j + 1) as int);
            }
            assert(((j + 1) as nat) * b <= pow2(c_target.dim as nat) * b) by {
                vstd::arithmetic::mul::lemma_mul_inequality(
                    (j + 1) as int,
                    t_count as int,
                    b as int,
                );
            }
            lemma_elem_bounds(c_target.dim, c_surviving.dim, den, max_dim);
        }
        p = p + acc;
        j = j + 1;
    }
    proof {
        lemma_elem_bounds(c_target.dim, c_surviving.dim, den, max_dim);
    }
    p
}

/// Marginalises the matrix onto one target element, averaging the
/// source state over the surviving subspace's classes: the result is
/// the full-size matrix of the factor "the target element's next state
/// is independent, with this marginal, of everything else". Cell
/// `[r][c]` is `num[r][c] / den[r]`, where the numerator is the mass
/// the class of `r` sends to the side of the target that `c` lies on,
/// and the denominator is the class's whole mass.
pub fn calc_elementary_marginal_tpm(
    target_basis: &BitBasis,
    surviving_basis: &BitBasis,
    tpm: &Vec<Vec<u64>>,
    den: u64,
) -> (marginal: RationalTpm)
    requires
        target_basis.wf(),
        surviving_basis.wf(),
        target_basis.dim == 1,
        target_basis.max_dim == surviving_basis.max_dim,
        surviving_basis.max_dim <= 31,
        tpm@.len() == pow2(surviving_basis.max_dim as nat),
        forall|r: int| 0 <= r < tpm@.len() ==> #[trigger] tpm@[r].len() == pow2(
            surviving_basis.max_dim as nat,
        ),
        forall|r: int, c: int| 0 <= r < tpm@.len() && 0 <= c < tpm@[r].len()
            ==> #[trigger] tpm@[r][c] <= den,
    ensures
        marginal.num@.len() == pow2(surviving_basis.max_dim as nat),
        marginal.den@.len() == pow2(surviving_basis.max_dim as nat),
        forall|r: int| 0 <= r < marginal.num@.len() ==> #[trigger] marginal.num@[r].len()
            == pow2(surviving_basis.max_dim as nat),
        forall|r: int| 0 <= r < marginal.den@.len() ==> #[trigger] marginal.den@[r]
            == spec_elem_den(
            tpm@,
            surviving_basis.vectors@,
            target_basis.vectors@,
            surviving_basis.max_dim,
            r as u64,
        ),
        forall|r: int, c: int| 0 <= r < marginal.num@.len() && 0 <= c < marginal.num@[r].len()
            ==> #[trigger] marginal.num@[r][c] == spec_elem_cell(
            tpm@,
            surviving_basis.vectors@,
            target_basis.vectors@,
            surviving_basis.max_dim,
            r as u64,
            c as u64,
        ),
{
    let max_dim = surviving_basis.max_dim;
    let m = surviving_basis.max_image_size();
    let target_vector = target_basis.vectors[0];
    let c_target = target_basis.generate_complement_basis();
    let c_surviving = surviving_basis.generate_complement_basis();
    proof {
        lemma_pow2_shift_u64(max_dim);
        assert(or_of(target_basis.vectors@) == target_vector) by {
            reveal_with_fuel(crate::bitwise::or_of, 2);
            assert(target_basis.vectors@.drop_last() =~= Seq::<u64>::empty());
            crate::bitwise::lemma_and_zero(target_vector);
        }
        crate::basis::lemma_mask_below(target_basis);
    }
    let mut nums: Vec<Vec<u128>> = Vec::new();
    let mut dens: Vec<u128> = Vec::new();
    let mut r: usize = 0;
    while r < m
        invariant
            r <= m,
            target_basis.wf(),
            surviving_basis.wf(),
            c_surviving.wf(),
            c_target.wf(),
            target_basis.dim == 1,
            c_surviving.max_dim == c_target.max_dim == target_basis.max_dim
                == surviving_basis.max_dim == max_dim <= 31,
            c_surviving.vectors@ == vectors_of_mask(
                !or_of(surviving_basis.vectors@),
                max_dim as nat,
            ),
            c_surviving.dim == surviving_basis.codim,
            c_target.vectors@ == vectors_of_mask(
                !or_of(target_basis.vectors@),
                max_dim as nat,
            ),
            c_target.dim == target_basis.codim,
            c_target.dim + target_basis.vectors@.len() == max_dim,
            target_vector == or_of(target_basis.vectors@),
            target_vector < (1u64 << max_dim),
            m == pow2(max_dim as nat),
            tpm@.len() == pow2(max_dim as nat),
            forall|q: int| 0 <= q < tpm@.len() ==> #[trigger] tpm@[q].len() == pow2(
                max_dim as nat,
            ),
            forall|q: int, c: int| 0 <= q < tpm@.len() && 0 <= c < tpm@[q].len()
                ==> #[trigger] tpm@[q][c] <= den,
            nums@.len() == r,
            dens@.len() == r,
            forall|q: int| 0 <= q < nums@.len() ==> #[trigger] nums@[q].len() == pow2(
                max_dim as nat,
            ),
            forall|q: int| 0 <= q < dens@.len() ==> #[trigger] dens@[q] == spec_elem_den(
                tpm@,
                surviving_basis.vectors@,
                target_basis.vectors@,
                max_dim,
                q as u64,
            ),
            forall|q: int, c: int| 0 <= q < nums@.len() && 0 <= c < nums@[q].len()
                ==> #[trigger] nums@[q][c] == spec_elem_cell(
                tpm@,
                surviving_basis.vectors@,
                target_basis.vectors@,
                max_dim,
                q as u64,
                c as u64,
            ),
        decreases m - r,
    {
        let base = surviving_basis.fixed_state(r as u64);
        proof {
            crate::basis::lemma_masked_below(surviving_basis, r as u64);
            crate::bitwise::lemma_and_zero(0u64);
            crate::basis::lemma_masked_below(target_basis, 0u64);
        }
        let p0 = calc_elem_p(
            surviving_basis,
            &c_surviving,
            &c_target,
            base,
            0,
            tpm,
            den,
            Ghost(target_basis.vectors@),
        );
        let p1 = calc_elem_p(
            surviving_basis,
            &c_surviving,
            &c_target,
            base,
            target_vector,
            tpm,
            den,
            Ghost(target_basis.vectors@),
        );
        proof {
            lemma_elem_bounds(c_target.dim, c_surviving.dim, den, max_dim);
        }
        dens.push(p0 + p1);
        let mut row: Vec<u128> = Vec::new();
        let mut c: usize = 0;
        while c < m
            invariant
                c <= m,
                m == pow2(max_dim as nat),
                row@.len() == c,
                target_vector == or_of(target_basis.vectors@),
                base == (r as u64) & or_of(surviving_basis.vectors@),
                p0 == spec_elem_p(
                    tpm@,
                    surviving_basis.vectors@,
                    target_basis.vectors@,
                    max_dim,
                    base,
                    0,
                    pow2(c_target.dim as nat),
                ),
                p1 == spec_elem_p(
                    tpm@,
                    surviving_basis.vectors@,
                    target_basis.vectors@,
                    max_dim,
                    base,
                    target_vector,
                    pow2(c_target.dim as nat),
                ),
                c_target.dim + target_basis.vectors@.len() == max_dim,
                forall|q: int| 0 <= q < row@.len() ==> #[trigger] row@[q] == spec_elem_cell(
                    tpm@,
                    surviving_basis.vectors@,
                    target_basis.vectors@,
                    max_dim,
                    r as u64,
                    q as u64,
                ),
            decreases m - c,
        {
            if (c as u64) & target_vector != 0 {
                row.push(p1);
            } else {
                row.push(p0);
            }
            c = c + 1;
        }
        nums.push(row);
        r = r + 1;
    }
    RationalTpm { num: nums, den: dens }
}

} // verus!

verus! {

use crate::basis::lemma_span_value_bound_seq;
use crate::bitwise::indices_of_mask;
use crate::bitwise::is_basis_vector;
use crate::bitwise::lemma_indices_of_mask_props;

/// A network whose every link is NOISY has the uniform matrix: each
/// element's factor is one whichever way its bit falls, so every
/// numerator of every row is exactly one.
pub proof fn lemma_noisy_tpm_uniform(links: Seq<(LinkType, u64)>, env: u64, state: u64)
    requires
        forall|i: int| 0 <= i < links.len() ==> (#[trigger] links[i]).0 == LinkType::NOISY,
    ensures
        spec_joint_num(links, env, state) == 1,
{
    lemma_noisy_prefix_uniform(links, env, state, links.len() as int);
}

/// Every prefix of an all-NOISY product of factors is one.
proof fn lemma_noisy_prefix_uniform(links: Seq<(LinkType, u64)>, env: u64, state: u64, k: int)
    requires
        0 <= k <= links.len(),
        forall|i: int| 0 <= i < links.len() ==> (#[trigger] links[i]).0 == LinkType::NOISY,
    ensures
        joint_num_prefix(links, env, state, k) == 1,
    decreases k,
{
    if k > 0 {
        lemma_noisy_prefix_uniform(links, env, state, k - 1);
        assert(links[k - 1].0 == LinkType::NOISY);
        assert(spec_state_factor(links[k - 1].0, links[k - 1].1, env, state, (k - 1) as usize)
            == 1);
    }
}

/// Over a matrix whose every entry is one, a column class sum counts
/// its rows, whatever the column.
proof fn lemma_uniform_col_span_sum(
    t: Seq<Vec<u64>>,
    vs: Seq<u64>,
    max_dim: usize,
    base: u64,
    col: int,
    count: nat,
)
    requires
        max_dim < 64,
        t.len() == (1u64 << max_dim),
        forall|r: int| 0 <= r < t.len() ==> #[trigger] t[r].len() == t.len(),
        forall|r: int, c: int| 0 <= r < t.len() && 0 <= c < t[r].len() ==> #[trigger] t[r][c]
            == 1,
        forall|i: int| 0 <= i < vs.len() ==> is_basis_vector(#[trigger] vs[i], max_dim),
        base < (1u64 << max_dim),
        0 <= col < t.len(),
    ensures
        col_span_sum(t, vs, base, col, count) == count,
    decreases count,
{
    if count > 0 {
        lemma_uniform_col_span_sum(t, vs, max_dim, base, col, (count - 1) as nat);
        lemma_span_value_bound_seq(vs, max_dim, base, (count - 1) as u64);
    }
}

/// Over a matrix whose every entry is one, the mass a row class sends
/// to either side of the target element is the same: a fully noisy
/// network's elementary marginals are unbiased coins, so every cut
/// reproduces the intact factors exactly. (The remaining step, that
/// big phi is then zero, runs through the floating-point transport
/// solver outside the verified core.)
pub proof fn lemma_uniform_marginal_balanced(
    t: Seq<Vec<u64>>,
    surv_vs: Seq<u64>,
    target_vs: Seq<u64>,
    max_dim: usize,
    base: u64,
    start1: u64,
    start2: u64,
    count: nat,
)
    requires
        max_dim < 64,
        t.len() == (1u64 << max_dim),
        forall|r: int| 0 <= r < t.len() ==> #[trigger] t[r].len() == t.len(),
        forall|r: int, c: int| 0 <= r < t.len() && 0 <= c < t[r].len() ==> #[trigger] t[r][c]
            == 1,
        forall|i: int| 0 <= i < surv_vs.len() ==> is_basis_vector(#[trigger] surv_vs[i], max_dim),
        surv_vs.len() <= max_dim,
        base < (1u64 << max_dim),
        start1 < (1u64 << max_dim),
        start2 < (1u64 << max_dim),
    ensures
        spec_elem_p(t, surv_vs, target_vs, max_dim, base, start1, count) == spec_elem_p(
            t,
            surv_vs,
            target_vs,
            max_dim,
            base,
            start2,
            count,
        ),
    decreases count,
{
    if count > 0 {
        lemma_uniform_marginal_balanced(
            t,
            surv_vs,
            target_vs,
            max_dim,
            base,
            start1,
            start2,
            (count - 1) as nat,
        );
        let ct_vs = vectors_of_mask(!or_of(target_vs), max_dim as nat);
        assert forall|i: int| 0 <= i < ct_vs.len()
            implies is_basis_vector(#[trigger] ct_vs[i], max_dim) by {
            lemma_indices_of_mask_props(!or_of(target_vs), max_dim as nat);
            let idx = indices_of_mask(!or_of(target_vs), max_dim as nat);
            assert(ct_vs[i] == 1u64 << idx[i]);
            assert(idx[i] < max_dim);
        }
        let col1 = span_value(start1, ct_vs, (count - 1) as u64);
        let col2 = span_value(start2, ct_vs, (count - 1) as u64);
        lemma_span_value_bound_seq(ct_vs, max_dim, start1, (count - 1) as u64);
        lemma_span_value_bound_seq(ct_vs, max_dim, start2, (count - 1) as u64);
        let cs_vs = vectors_of_mask(!or_of(surv_vs), max_dim as nat);
        assert forall|i: int| 0 <= i < cs_vs.len()
            implies is_basis_vector(#[trigger] cs_vs[i], max_dim) by {
            lemma_indices_of_mask_props(!or_of(surv_vs), max_dim as nat);
            let idx = indices_of_mask(!or_of(surv_vs), max_dim as nat);
            assert(cs_vs[i] == 1u64 << idx[i]);
            assert(idx[i] < max_dim);
        }
        let cnt = pow2((max_dim - surv_vs.len()) as nat);
        lemma_uniform_col_span_sum(t, cs_vs, max_dim, base, col1 as int, cnt);
        lemma_uniform_col_span_sum(t, cs_vs, max_dim, base, col2 as int, cnt);
    }
}

} // verus!
