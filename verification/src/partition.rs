//! Lazy enumerators over the bipartitions that the two searches walk:
//! mechanism partitions (a purview side and a mechanism side split in
//! two, the trivial split excluded, one orientation per pair) and
//! system cuts (every ordered bipartition of the elements other than
//! the empty and the full one).

use vstd::prelude::*;
use crate::bitwise::indices_of_mask;
use crate::bitwise::lemma_bit_not;
use crate::bitwise::lemma_high_bits_zero;
use crate::bitwise::low_mask;

verus! {

/// A bipartition of the candidate purview indices and the mechanism
/// indices into a left and a right side.
#[derive(Debug)]
pub struct MechanismPartition {
    pub left_purview: Vec<usize>,
    pub left_mechanism: Vec<usize>,
    pub right_purview: Vec<usize>,
    pub right_mechanism: Vec<usize>,
}

impl MechanismPartition {
    /// The partition with all four sides empty: the placeholder used
    /// before any real partition has been examined.
    pub fn null_partition() -> (r: MechanismPartition)
        ensures
            r.left_purview@ == Seq::<usize>::empty(),
            r.left_mechanism@ == Seq::<usize>::empty(),
            r.right_purview@ == Seq::<usize>::empty(),
            r.right_mechanism@ == Seq::<usize>::empty(),
    {
        let r = MechanismPartition {
            left_purview: Vec::new(),
            left_mechanism: Vec::new(),
            right_purview: Vec::new(),
            right_mechanism: Vec::new(),
        };
        proof {
            assert(r.left_purview@ =~= Seq::<usize>::empty());
            assert(r.left_mechanism@ =~= Seq::<usize>::empty());
            assert(r.right_purview@ =~= Seq::<usize>::empty());
            assert(r.right_mechanism@ =~= Seq::<usize>::empty());
        }
        r
    }
}

/// Walks the counters `1 .. 2^(purview_size + mechanism_size - 1)`;
/// each counter bit sends one index right (set) or left (clear), the
/// mechanism indices on the low bits and the purview indices above
/// them. Keeping the top index's bit clear visits one orientation of
/// each unordered pair of sides.
pub struct MechanismPartitionIterator {
    current: u64,
    purview_size: usize,
    mechanism_size: usize,
    mask_size: usize,
    unused_mask: u64,
}

impl MechanismPartitionIterator {
    /// The counter of the next partition to produce.
    pub closed spec fn current_spec(&self) -> u64 {
        self.current
    }

    /// The number of candidate purview indices being split.
    pub closed spec fn purview_size_spec(&self) -> usize {
        self.purview_size
    }

    /// The number of mechanism indices being split.
    pub closed spec fn mechanism_size_spec(&self) -> usize {
        self.mechanism_size
    }

    /// The iterator is over consistent sizes and its counter began at 1.
    pub closed spec fn wf(&self) -> bool {
        &&& self.purview_size < 64
        &&& self.mechanism_size < 64
        &&& 1 <= self.mask_size <= 64
        &&& self.mask_size == self.purview_size + self.mechanism_size
        &&& self.unused_mask == !0u64 << ((self.mask_size - 1) as usize)
    }

    /// Starts the enumeration of the non-trivial partitions of
    /// `purview_size + mechanism_size` indices.
    pub fn construct(purview_size: usize, mechanism_size: usize) -> (r: MechanismPartitionIterator)
        requires
            purview_size < 64,
            mechanism_size < 64,
            1 <= purview_size + mechanism_size <= 64,
        ensures
            r.wf(),
            r.current_spec() == 1,
            r.purview_size_spec() == purview_size,
            r.mechanism_size_spec() == mechanism_size,
    {
        let mask_size = purview_size + mechanism_size;
        let unused_mask = !0u64 << (mask_size - 1);
        MechanismPartitionIterator {
            current: 1,
            purview_size: purview_size,
            mechanism_size: mechanism_size,
            mask_size: mask_size,
            unused_mask: unused_mask,
        }
    }

    /// Produces the partition of the next counter: mechanism index `i`
    /// goes right when bit `i` of the counter is set, and purview index
    /// `i` goes right when bit `mechanism_size + i` is set. Ends once
    /// the counter reaches `2^(mask_size - 1)`.
    pub fn next(&mut self) -> (r: Option<MechanismPartition>)
        requires
            old(self).wf(),
        ensures
            final(self).wf(),
            final(self).purview_size_spec() == old(self).purview_size_spec(),
            final(self).mechanism_size_spec() == old(self).mechanism_size_spec(),
            old(self).current_spec() < (1u64 << ((old(self).purview_size_spec()
                + old(self).mechanism_size_spec() - 1) as usize)) ==> {
                &&& final(self).current_spec() == old(self).current_spec() + 1
                &&& r matches Some(p) && p.left_mechanism@ == indices_of_mask(
                    !old(self).current_spec(),
                    old(self).mechanism_size_spec() as nat,
                ) && p.right_mechanism@ == indices_of_mask(
                    old(self).current_spec(),
                    old(self).mechanism_size_spec() as nat,
                ) && p.left_purview@ == indices_of_mask(
                    !(old(self).current_spec() >> old(self).mechanism_size_spec()),
                    old(self).purview_size_spec() as nat,
                ) && p.right_purview@ == indices_of_mask(
                    old(self).current_spec() >> old(self).mechanism_size_spec(),
                    old(self).purview_size_spec() as nat,
                )
            },
            old(self).current_spec() >= (1u64 << ((old(self).purview_size_spec()
                + old(self).mechanism_size_spec() - 1) as usize)) ==> {
                &&& r is None
                &&& final(self).current_spec() == old(self).current_spec()
            },
    {
        proof {
            lemma_high_bits_zero(self.current, (self.mask_size - 1) as usize);
        }
        if self.current & self.unused_mask != 0 {
            return None;
        }
        let mut left_purview = Vec::<usize>::new();
        let mut left_mechanism = Vec::<usize>::new();
        let mut right_purview = Vec::<usize>::new();
        let mut right_mechanism = Vec::<usize>::new();

        let mut i: usize = 0;
        while i < self.mechanism_size
            invariant
                i <= self.mechanism_size < 64,
                left_mechanism@ == indices_of_mask(!self.current, i as nat),
                right_mechanism@ == indices_of_mask(self.current, i as nat),
            decreases self.mechanism_size - i,
        {
            proof {
                lemma_bit_not(self.current, i);
            }
            if self.current & (1u64 << i) == 0 {
                left_mechanism.push(i);
            } else {
                right_mechanism.push(i);
            }
            i = i + 1;
        }

        let shifted = self.current >> self.mechanism_size;
        let mut j: usize = 0;
        while j < self.purview_size
            invariant
                j <= self.purview_size < 64,
                shifted == self.current >> self.mechanism_size,
                left_purview@ == indices_of_mask(!shifted, j as nat),
                right_purview@ == indices_of_mask(shifted, j as nat),
            decreases self.purview_size - j,
        {
            proof {
                lemma_bit_not(shifted, j);
            }
            if shifted & (1u64 << j) == 0 {
                left_purview.push(j);
            } else {
                right_purview.push(j);
            }
            j = j + 1;
        }

        self.current = self.current + 1;

        Some(MechanismPartition {
            left_purview: left_purview,
            left_mechanism: left_mechanism,
            right_purview: right_purview,
            right_mechanism: right_mechanism,
        })
    }
}

/// A bipartition of the subsystem's element indices: the next state of
/// `cut_from` is noised, and `cut_to` is conditioned on itself alone.
#[derive(Debug)]
pub struct SystemPartition {
    pub cut_from: Vec<usize>,
    pub cut_to: Vec<usize>,
}

impl SystemPartition {
    /// The partition with both sides empty: the placeholder used before
    /// any real cut has been examined.
    pub fn null_partition() -> (r: SystemPartition)
        ensures
            r.cut_from@ == Seq::<usize>::empty(),
            r.cut_to@ == Seq::<usize>::empty(),
    {
        let r = SystemPartition { cut_from: Vec::new(), cut_to: Vec::new() };
        proof {
            assert(r.cut_from@ =~= Seq::<usize>::empty());
            assert(r.cut_to@ =~= Seq::<usize>::empty());
        }
        r
    }
}

/// Walks the counters `1 .. 2^system_size - 2`: every bipartition of
/// the elements other than the empty and the full one, in both
/// orientations.
pub struct SystemPartitionIterator {
    current: u64,
    mask_size: usize,
    stop: u64,
}

impl SystemPartitionIterator {
    /// The counter of the next cut to produce.
    pub closed spec fn current_spec(&self) -> u64 {
        self.current
    }

    /// The number of elements being cut.
    pub closed spec fn mask_size_spec(&self) -> usize {
        self.mask_size
    }

    /// The iterator's bound is the all-ones counter of its size.
    pub closed spec fn wf(&self) -> bool {
        &&& self.mask_size < 64
        &&& self.stop == low_mask(self.mask_size)
    }

    /// Starts the enumeration of the proper, non-empty cuts of
    /// `system_size` elements.
    pub fn construct(system_size: usize) -> (r: SystemPartitionIterator)
        requires
            system_size < 64,
        ensures
            r.wf(),
            r.current_spec() == 1,
            r.mask_size_spec() == system_size,
    {
        proof {
            lemma_not_unused_is_low(system_size);
        }
        let stop = !(!0u64 << system_size);
        SystemPartitionIterator { current: 1, mask_size: system_size, stop: stop }
    }

    /// Produces the cut of the next counter: element `i` joins `cut_to`
    /// when bit `i` of the counter is set, else `cut_from`. Ends once
    /// the counter reaches `2^mask_size - 1`, so the all-in-`cut_to`
    /// pattern is never produced.
    pub fn next(&mut self) -> (r: Option<SystemPartition>)
        requires
            old(self).wf(),
        ensures
            final(self).wf(),
            final(self).mask_size_spec() == old(self).mask_size_spec(),
            old(self).current_spec() < low_mask(old(self).mask_size_spec()) ==> {
                &&& final(self).current_spec() == old(self).current_spec() + 1
                &&& r matches Some(p) && p.cut_from@ == indices_of_mask(
                    !old(self).current_spec(),
                    old(self).mask_size_spec() as nat,
                ) && p.cut_to@ == indices_of_mask(
                    old(self).current_spec(),
                    old(self).mask_size_spec() as nat,
                )
            },
            old(self).current_spec() >= low_mask(old(self).mask_size_spec()) ==> {
                &&& r is None
                &&& final(self).current_spec() == old(self).current_spec()
            },
    {
        if self.current >= self.stop {
            return None;
        }
        let mut cut_from = Vec::<usize>::new();
        let mut cut_to = Vec::<usize>::new();

        let mut i: usize = 0;
        while i < self.mask_size
            invariant
                i <= self.mask_size < 64,
                cut_from@ == indices_of_mask(!self.current, i as nat),
                cut_to@ == indices_of_mask(self.current, i as nat),
            decreases self.mask_size - i,
        {
            proof {
                lemma_bit_not(self.current, i);
            }
            if self.current & (1u64 << i) == 0 {
                cut_from.push(i);
            } else {
                cut_to.push(i);
            }
            i = i + 1;
        }

        self.current = self.current + 1;

        Some(SystemPartition { cut_from: cut_from, cut_to: cut_to })
    }
}

/// The counters not cut off by the unused-bit mask of `n` are exactly
/// those below the all-ones pattern of `n` bits.
proof fn lemma_not_unused_is_low(n: usize)
    requires
        n < 64,
    ensures
        !(!0u64 << n) == low_mask(n),
{
    let nn = n as u64;
    assert(!(!0u64 << nn) == (((1u64 << nn) - 1) as u64)) by (bit_vector)
        requires
            nn < 64,
    ;
}

} // verus!
