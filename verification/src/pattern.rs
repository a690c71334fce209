//! Patterns: dense identifiers, sets of patterns, the weight table used
//! for sampling, the support counters, and the compatibility relation
//! between patterns at each neighborhood offset.

use crate::bitset::{
    bit_set_add, bit_set_contains, bit_set_elems, bit_set_remove, bit_set_with_capacity,
};
use crate::entropy::{
    lemma_set_weight_sum_member, lemma_set_weight_sum_nonneg, lemma_set_weight_sum_subset,
    set_count_below, set_weight_sum, spec_log2_fixed,
};
use crate::lattice::{div_ceil_point, Extent, Lattice, Point};
use crate::offset::{OffsetGroup, OffsetId, OffsetMap};
use crate::rng::{sample_weighted_index, u32_seq_sum};
use crate::static_vec::{Id, StaticVec};
use vstd::prelude::*;

verus! {

/// Identifier of one of the patterns found in the input.
#[derive(Clone, Copy, Debug, PartialEq, Eq, Structural)]
pub struct PatternId(pub u16);

/// Limited by the support counts, which use `i16`.
pub const MAX_PATTERNS: u16 = 0x7fff;

impl Id for PatternId {
    open spec fn spec_index(self) -> int {
        self.0 as int
    }

    open spec fn spec_in_range(i: int) -> bool {
        0 <= i <= 0xffff
    }

    fn to_index(self) -> usize {
        self.0 as usize
    }

    fn from_index(i: usize) -> Self {
        PatternId(i as u16)
    }
}

/// A table indexed by `PatternId`.
pub type PatternMap<T> = StaticVec<PatternId, T>;

/// The members of `[0, n)`, as a set of pattern indices.
pub open spec fn all_patterns_below(n: int) -> Set<u32> {
    Set::new(|x: u32| (x as int) < n)
}

/// The shape of the patterns to extract: their size in tiles, and the
/// offsets along which adjacent patterns constrain each other.
pub struct PatternShape {
    pub size: Point,
    pub offset_group: OffsetGroup,
}

/// A set of patterns with constant-time membership, backed by a bit set;
/// the size is tracked separately so it costs nothing to read.
pub struct PatternSet {
    bits: hibitset::BitSet,
    size: u16,
    universe: u16,
}

impl PatternSet {
    /// The members of the set.
    pub closed spec fn view(&self) -> Set<u32> {
        bit_set_elems(self.bits)
    }

    /// Every member is below this bound.
    pub closed spec fn spec_universe(&self) -> int {
        self.universe as int
    }

    pub open spec fn wf(&self) -> bool {
        &&& self.view().finite()
        &&& self.view().len() == self.spec_len()
        &&& self.spec_universe() <= MAX_PATTERNS
        &&& forall|x: u32| self.view().contains(x) ==> (x as int) < self.spec_universe()
    }

    pub closed spec fn spec_len(&self) -> int {
        self.size as int
    }

    /// The set of all patterns below `num_patterns`.
    pub fn all(num_patterns: u16) -> (r: PatternSet)
        requires
            1 <= num_patterns <= MAX_PATTERNS,
        ensures
            r.wf(),
            r.view() == all_patterns_below(num_patterns as int),
            r.spec_len() == num_patterns,
            r.spec_universe() == num_patterns,
    {
        let mut bits = bit_set_with_capacity(num_patterns as u32);
        let mut i: u16 = 0;
        while i < num_patterns
            invariant
                i <= num_patterns,
                num_patterns <= MAX_PATTERNS,
                bit_set_elems(bits).finite(),
                bit_set_elems(bits).len() == i,
                forall|x: u32| bit_set_elems(bits).contains(x) <==> (x as int) < i as int,
            decreases num_patterns - i,
        {
            let _already = bit_set_add(&mut bits, i as u32);
            i = i + 1;
        }
        proof {
            assert(bit_set_elems(bits) =~= all_patterns_below(num_patterns as int));
        }
        PatternSet { bits, size: num_patterns, universe: num_patterns }
    }

    /// Number of patterns in the set.
    pub fn len(&self) -> (r: u16)
        requires
            self.wf(),
        ensures
            r == self.spec_len(),
            r == self.view().len(),
    {
        self.size
    }

    pub fn is_empty(&self) -> (r: bool)
        requires
            self.wf(),
        ensures
            r == (self.view().len() == 0),
    {
        self.size == 0
    }

    /// Membership test.
    pub fn contains(&self, pattern: PatternId) -> (r: bool)
        ensures
            r == self.view().contains(pattern.0 as u32),
    {
        bit_set_contains(&self.bits, pattern.0 as u32)
    }

    /// Remove a pattern that is known to be in the set.
    pub fn remove(&mut self, pattern: PatternId)
        requires
            old(self).wf(),
            old(self).view().contains(pattern.0 as u32),
        ensures
            final(self).wf(),
            final(self).view() == old(self).view().remove(pattern.0 as u32),
            final(self).spec_len() == old(self).spec_len() - 1,
            final(self).spec_universe() == old(self).spec_universe(),
    {
        let _removed = bit_set_remove(&mut self.bits, pattern.0 as u32);
        self.size = self.size - 1;
    }

    /// The members in ascending order.
    pub fn iter(&self) -> (r: Vec<PatternId>)
        requires
            self.wf(),
        ensures
            r@.len() == self.view().len(),
            forall|i: int, j: int| 0 <= i < j < r@.len() ==> r@[i].0 < r@[j].0,
            forall|i: int| 0 <= i < r@.len() ==> self.view().contains((#[trigger] r@[i]).0 as u32),
            forall|x: u32|
                self.view().contains(x) ==> exists|i: int|
                    0 <= i < r@.len() && (#[trigger] r@[i]).0 as u32 == x,
    {
        let mut out: Vec<PatternId> = Vec::new();
        let mut p: u16 = 0;
        let n = self.universe;
        while p < n
            invariant
                p <= n,
                n == self.spec_universe(),
                self.wf(),
                out@.len() == set_count_below(self.view(), p as int),
                forall|i: int, j: int| 0 <= i < j < out@.len() ==> out@[i].0 < out@[j].0,
                forall|i: int|
                    0 <= i < out@.len() ==> self.view().contains((#[trigger] out@[i]).0 as u32)
                        && (out@[i].0 as int) < p as int,
                forall|x: u32|
                    self.view().contains(x) && (x as int) < p as int ==> exists|i: int|
                        0 <= i < out@.len() && (#[trigger] out@[i]).0 as u32 == x,
            decreases n - p,
        {
            let ghost out0 = out@;
            if self.contains(PatternId(p)) {
                out.push(PatternId(p));
            }
            proof {
                assert forall|x: u32| self.view().contains(x) && (x as int) < p as int + 1 implies
                    exists|i: int| 0 <= i < out@.len() && (#[trigger] out@[i]).0 as u32 == x by {
                    if (x as int) < p as int {
                        let i = choose|i: int| 0 <= i < out0.len() && (#[trigger] out0[i]).0 as u32
                            == x;
                        assert(out@[i].0 as u32 == x);
                    } else {
                        assert(out@[out@.len() - 1].0 as u32 == x);
                    }
                }
            }
            p = p + 1;
        }
        proof {
            crate::entropy::lemma_set_count_is_len(self.view(), n as int);
        }
        out
    }

    /// The least member; the one remaining pattern once a cell has
    /// collapsed.
    pub fn first(&self) -> (r: PatternId)
        requires
            self.wf(),
            self.view().len() > 0,
        ensures
            self.view().contains(r.0 as u32),
            forall|x: u32| self.view().contains(x) ==> r.0 as u32 <= x,
    {
        let n = self.universe;
        let mut p: u16 = 0;
        while p < n
            invariant
                p <= n,
                n == self.spec_universe(),
                self.wf(),
                self.view().len() > 0,
                forall|x: u32| self.view().contains(x) ==> (x as int) >= p as int,
            decreases n - p,
        {
            if self.contains(PatternId(p)) {
                return PatternId(p);
            }
            p = p + 1;
        }
        proof {
            let witness = self.view().choose();
            assert(self.view().contains(witness));
            assert(false);
        }
        PatternId(0)
    }
}

/// The per-pattern weights: how often each pattern occurs in the input.
/// Equivalently, a prior distribution over patterns.  Also caches each
/// weight's `w * log2(w)` in fixed point for the entropy bookkeeping.
pub struct PatternSampler {
    weights: PatternMap<u32>,
    wlw_table: PatternMap<u64>,
    total_weight: u32,
}

impl PatternSampler {
    pub closed spec fn spec_weights(&self) -> Seq<u32> {
        self.weights.view()
    }

    pub closed spec fn spec_wlw(&self) -> Seq<u64> {
        self.wlw_table.view()
    }

    pub closed spec fn spec_total(&self) -> int {
        self.total_weight as int
    }

    pub open spec fn spec_num_patterns(&self) -> int {
        self.spec_weights().len() as int
    }

    pub open spec fn wf(&self) -> bool {
        &&& 1 <= self.spec_num_patterns() <= MAX_PATTERNS
        &&& self.spec_wlw().len() == self.spec_weights().len()
        &&& forall|p: int| 0 <= p < self.spec_num_patterns() ==> 1 <= #[trigger] self.spec_weights()[p]
        &&& forall|p: int|
            0 <= p < self.spec_num_patterns() ==> #[trigger] self.spec_wlw()[p] <= self.spec_weights()[p]
                * 0x20000000
        &&& forall|p: int|
            0 <= p < self.spec_num_patterns() ==> (#[trigger] self.spec_wlw()[p]) as int
                == self.spec_weights()[p] * spec_log2_fixed(self.spec_weights()[p] as u64)
        &&& self.spec_total() == set_weight_sum(
            all_patterns_below(self.spec_num_patterns()),
            self.spec_weights(),
            self.spec_num_patterns(),
        )
        &&& self.spec_total() <= 0x40000000
    }

    /// Build the sampler from the weight table, caching `w * log2(w)` for
    /// each pattern.
    pub fn new(weights: PatternMap<u32>) -> (r: PatternSampler)
        requires
            1 <= weights.view().len() <= MAX_PATTERNS,
            forall|p: int| 0 <= p < weights.view().len() ==> 1 <= #[trigger] weights.view()[p],
            set_weight_sum(
                all_patterns_below(weights.view().len() as int),
                weights.view(),
                weights.view().len() as int,
            ) <= 0x40000000,
        ensures
            r.wf(),
            r.spec_weights() == weights.view(),
    {
        let n = weights.num_elements();
        let ghost all = all_patterns_below(n as int);
        let mut wlw: PatternMap<u64> = StaticVec::new(Vec::new());
        let mut total: u32 = 0;
        let mut p: usize = 0;
        while p < n
            invariant
                p <= n,
                n == weights.view().len(),
                1 <= n <= MAX_PATTERNS,
                forall|q: int| 0 <= q < n ==> 1 <= #[trigger] weights.view()[q],
                set_weight_sum(all, weights.view(), n as int) <= 0x40000000,
                all == all_patterns_below(n as int),
                wlw.view().len() == p,
                forall|q: int|
                    0 <= q < p ==> #[trigger] wlw.view()[q] <= weights.view()[q] * 0x20000000,
                forall|q: int|
                    0 <= q < p ==> (#[trigger] wlw.view()[q]) as int == weights.view()[q]
                        * spec_log2_fixed(weights.view()[q] as u64),
                total == set_weight_sum(all, weights.view(), p as int),
            decreases n - p,
        {
            let w = *weights.get(PatternId(p as u16));
            proof {
                lemma_prefix_le_sum(all, weights.view(), p as int + 1, n as int);
                lemma_set_weight_sum_nonneg(all, weights.view(), p as int);
                lemma_set_weight_sum_member(all, weights.view(), n as int, p as u32);
            }
            total = total + w;
            let l = crate::entropy::log2_fixed(w as u64);
            proof {
                assert((w as u64) * l <= (w as u64) * (32 * 0x1000000)) by (nonlinear_arith)
                    requires
                        l < 32 * 0x1000000u64,
                        w >= 1,
                ;
                assert((w as u64) * (32 * 0x1000000) <= 0x40000000u64 * 0x20000000)
                    by (nonlinear_arith)
                    requires
                        w <= 0x40000000u64,
                ;
            }
            let contribution: u64 = (w as u64) * l;
            wlw.push(contribution);
            p = p + 1;
        }
        PatternSampler { weights, wlw_table: wlw, total_weight: total }
    }

    /// The number of occurrences of `pattern` in the input.
    pub fn get_weight(&self, pattern: PatternId) -> (r: u32)
        requires
            (pattern.0 as int) < self.spec_num_patterns(),
        ensures
            r == self.spec_weights()[pattern.0 as int],
    {
        *self.weights.get(pattern)
    }

    /// The cached `w * log2(w)` of `pattern`, in fixed point.
    pub fn get_weight_log_weight(&self, pattern: PatternId) -> (r: u64)
        requires
            (pattern.0 as int) < self.spec_num_patterns(),
            self.wf(),
        ensures
            r == self.spec_wlw()[pattern.0 as int],
    {
        *self.wlw_table.get(pattern)
    }

    pub fn num_patterns(&self) -> (r: u16)
        requires
            self.wf(),
        ensures
            r == self.spec_num_patterns(),
    {
        self.weights.num_elements() as u16
    }

    /// Sample one of the possible patterns, with probability proportional
    /// to its weight.
    pub fn sample_pattern(
        &self,
        possible_patterns: &PatternSet,
        rng: &mut rand::rngs::SmallRng,
    ) -> (r: PatternId)
        requires
            self.wf(),
            possible_patterns.wf(),
            possible_patterns.view().len() > 0,
            possible_patterns.spec_universe() <= self.spec_num_patterns(),
        ensures
            possible_patterns.view().contains(r.0 as u32),
    {
        let ghost s = possible_patterns.view();
        let ghost w = self.spec_weights();
        let n = self.weights.num_elements() as u16;
        let mut possible_weights: Vec<u32> = Vec::new();
        let mut possible_patterns_vec: Vec<PatternId> = Vec::new();
        let mut p: u16 = 0;
        while p < n
            invariant
                p <= n,
                n == self.spec_num_patterns(),
                self.wf(),
                possible_patterns.wf(),
                possible_patterns.spec_universe() <= n as int,
                s == possible_patterns.view(),
                w == self.spec_weights(),
                possible_weights@.len() == possible_patterns_vec@.len(),
                forall|i: int|
                    0 <= i < possible_patterns_vec@.len() ==> s.contains(
                        (#[trigger] possible_patterns_vec@[i]).0 as u32,
                    ) && (possible_patterns_vec@[i].0 as int) < p as int,
                forall|i: int|
                    0 <= i < possible_weights@.len() ==> #[trigger] possible_weights@[i] == w[
                        possible_patterns_vec@[i].0 as int
                    ] && possible_weights@[i] >= 1,
                forall|x: u32|
                    s.contains(x) && (x as int) < p as int ==> exists|i: int|
                        0 <= i < possible_patterns_vec@.len() && (
                        #[trigger] possible_patterns_vec@[i]).0 as u32 == x,
                u32_seq_sum(possible_weights@) == set_weight_sum(s, w, p as int),
            decreases n - p,
        {
            let ghost ppv0 = possible_patterns_vec@;
            if possible_patterns.contains(PatternId(p)) {
                let weight = *self.weights.get(PatternId(p));
                proof {
                    assert(possible_weights@.push(weight).drop_last() =~= possible_weights@);
                }
                possible_weights.push(weight);
                possible_patterns_vec.push(PatternId(p));
            }
            proof {
                assert forall|x: u32| s.contains(x) && (x as int) < p as int + 1 implies
                    exists|i: int|
                        0 <= i < possible_patterns_vec@.len() && (
                        #[trigger] possible_patterns_vec@[i]).0 as u32 == x by {
                    if (x as int) < p as int {
                        let i = choose|i: int|
                            0 <= i < ppv0.len() && (#[trigger] ppv0[i]).0 as u32 == x;
                        assert(possible_patterns_vec@[i].0 as u32 == x);
                    } else {
                        assert(possible_patterns_vec@[possible_patterns_vec@.len() - 1].0 as u32
                            == x);
                    }
                }
            }
            p = p + 1;
        }
        proof {
            // the set has a member, so the vectors are not empty
            let witness = s.choose();
            assert(s.contains(witness));
            // the subset sum is within the total, so within u32
            lemma_set_weight_sum_subset(s, all_patterns_below(n as int), w, n as int);
        }
        let choice = sample_weighted_index(&possible_weights, rng);
        possible_patterns_vec[choice]
    }
}

/// The prefix of a set sum is no larger than the whole (weights are
/// nonnegative).
proof fn lemma_prefix_le_sum(s: Set<u32>, w: Seq<u32>, k: int, n: int)
    requires
        k <= n,
    ensures
        set_weight_sum(s, w, k) <= set_weight_sum(s, w, n),
    decreases n - k,
{
    if k < n {
        lemma_prefix_le_sum(s, w, k, n - 1);
    }
}

/// Tracks, for one pattern in one cell, how many patterns in the
/// neighboring cell at each offset are compatible with it.  Once some
/// offset runs out of supporters, the pattern is no longer possible.
pub struct PatternSupport {
    counts: OffsetMap<i16>,
}

impl PatternSupport {
    pub closed spec fn view(&self) -> Seq<i16> {
        self.counts.view()
    }

    pub fn from_counts(counts: OffsetMap<i16>) -> (r: PatternSupport)
        ensures
            r.view() == counts.view(),
    {
        PatternSupport { counts }
    }

    pub fn count_at(&self, offset: OffsetId) -> (r: i16)
        requires
            (offset.0 as int) < self.view().len(),
        ensures
            r == self.view()[offset.0 as int],
    {
        *self.counts.get(offset)
    }

    /// Remove one unit of support at `offset`; returns `true` iff the
    /// pattern has just lost its last support there.  The count
    /// saturates at `i16::MIN` instead of wrapping.
    pub fn remove(&mut self, offset: OffsetId) -> (r: bool)
        requires
            (offset.0 as int) < old(self).view().len(),
        ensures
            final(self).view() == old(self).view().update(
                offset.0 as int,
                if old(self).view()[offset.0 as int] > i16::MIN {
                    (old(self).view()[offset.0 as int] - 1) as i16
                } else {
                    i16::MIN
                },
            ),
            r == (final(self).view()[offset.0 as int] == 0),
    {
        let count = self.counts.get_mut(offset);
        if *count > i16::MIN {
            *count = *count - 1;
        }
        *count == 0
    }

    /// Zero every count, so that this pattern's removal can never be
    /// triggered again.
    pub fn clear(&mut self)
        ensures
            final(self).view().len() == old(self).view().len(),
            forall|o: int| 0 <= o < final(self).view().len() ==> final(self).view()[o] == 0,
    {
        let n = self.counts.num_elements();
        let mut o: usize = 0;
        while o < n
            invariant
                o <= n,
                n == self.view().len(),
                forall|j: int| 0 <= j < o ==> self.view()[j] == 0,
                self.view().len() == n,
            decreases n - o,
        {
            self.counts.set(OffsetId(o), 0);
            o = o + 1;
        }
    }
}

/// The compatibility relation: for every pattern and every offset, the
/// set of patterns that may legally stand at that offset.  Pairs are
/// always added in both directions, so the relation is symmetric by
/// construction.
pub struct PatternConstraints {
    constraints: PatternMap<OffsetMap<hibitset::BitSet>>,
    offset_group: OffsetGroup,
}

impl PatternConstraints {
    /// The compatibility row of pattern `p` at offset `o`.
    pub closed spec fn spec_row(&self, p: int, o: int) -> Set<u32> {
        bit_set_elems(self.constraints.view()[p].view()[o])
    }

    pub closed spec fn spec_num(&self) -> int {
        self.constraints.view().len() as int
    }

    /// Number of offset rows stored for pattern `p`.
    pub closed spec fn spec_row_count(&self, p: int) -> int {
        self.constraints.view()[p].view().len() as int
    }

    pub closed spec fn spec_offset_group(&self) -> OffsetGroup {
        self.offset_group
    }

    pub open spec fn spec_num_offsets(&self) -> int {
        self.spec_offset_group().view().len() as int
    }

    /// Index of the opposite offset.
    pub open spec fn spec_opp(&self, o: int) -> int {
        self.spec_num_offsets() - 1 - o
    }

    pub open spec fn wf(&self) -> bool {
        &&& self.spec_offset_group().wf()
        &&& 0 <= self.spec_num() <= MAX_PATTERNS
        &&& forall|p: int|
            0 <= p < self.spec_num() ==> #[trigger] self.spec_row_count(p)
                == self.spec_num_offsets()
        &&& forall|p: int, o: int|
            0 <= p < self.spec_num() && 0 <= o < self.spec_num_offsets() ==> (
            #[trigger] self.spec_row(p, o)).finite()
        &&& forall|p: int, o: int, q: u32|
            0 <= p < self.spec_num() && 0 <= o < self.spec_num_offsets() && #[trigger] self.spec_row(
                p,
                o,
            ).contains(q) ==> (q as int) < self.spec_num()
    }

    /// Compatibility is symmetric: `q` fits at offset `o` from `p` if and
    /// only if `p` fits at the opposite offset from `q`.
    pub open spec fn spec_symmetric(&self) -> bool {
        forall|p: int, o: int, q: u32|
            0 <= p < self.spec_num() && 0 <= o < self.spec_num_offsets() && 0 <= q
                < self.spec_num() ==> (#[trigger] self.spec_row(p, o).contains(q)
                <==> self.spec_row(q as int, self.spec_opp(o)).contains(p as u32))
    }

    /// Every row has at least one member.
    pub open spec fn spec_nonempty_rows(&self) -> bool {
        forall|p: int, o: int|
            0 <= p < self.spec_num() && 0 <= o < self.spec_num_offsets() ==> (
            #[trigger] self.spec_row(p, o)).len() > 0
    }

    pub fn new(offset_group: OffsetGroup) -> (r: PatternConstraints)
        requires
            offset_group.wf(),
        ensures
            r.wf(),
            r.spec_num() == 0,
            r.spec_offset_group() == offset_group,
            r.spec_symmetric(),
    {
        PatternConstraints { constraints: StaticVec::new(Vec::new()), offset_group }
    }

    /// Add a fresh pattern with empty rows at every offset.
    pub fn add_pattern(&mut self)
        requires
            old(self).wf(),
            old(self).spec_num() < MAX_PATTERNS,
        ensures
            final(self).wf(),
            final(self).spec_num() == old(self).spec_num() + 1,
            final(self).spec_offset_group() == old(self).spec_offset_group(),
            forall|p: int, o: int|
                0 <= p < old(self).spec_num() && 0 <= o < old(self).spec_num_offsets()
                    ==> final(self).spec_row(p, o) == old(self).spec_row(p, o),
            forall|o: int|
                0 <= o < old(self).spec_num_offsets() ==> final(self).spec_row(
                    old(self).spec_num(),
                    o,
                ) == Set::<u32>::empty(),
            old(self).spec_symmetric() ==> final(self).spec_symmetric(),
    {
        let num_offsets = self.offset_group.num_offsets();
        let mut row: OffsetMap<hibitset::BitSet> = StaticVec::new(Vec::new());
        let mut o: usize = 0;
        while o < num_offsets
            invariant
                o <= num_offsets,
                row.view().len() == o,
                forall|j: int|
                    0 <= j < o ==> bit_set_elems(#[trigger] row.view()[j]) == Set::<u32>::empty(),
            decreases num_offsets - o,
        {
            row.push(bit_set_with_capacity(0));
            o = o + 1;
        }
        let ghost pre = *self;
        self.constraints.push(row);
        proof {
            assert forall|p: int|
                0 <= p < self.spec_num() implies #[trigger] self.spec_row_count(p)
                == self.spec_num_offsets() by {
                if p < pre.spec_num() {
                    assert(pre.spec_row_count(p) == pre.spec_num_offsets());
                }
            }
            assert forall|p: int, o2: int|
                0 <= p < pre.spec_num() && 0 <= o2 < pre.spec_num_offsets() implies self.spec_row(
                p,
                o2,
            ) == pre.spec_row(p, o2) by {
                assert(self.constraints.view()[p] == pre.constraints.view()[p]);
            }
            assert forall|o2: int|
                0 <= o2 < pre.spec_num_offsets() implies self.spec_row(pre.spec_num(), o2)
                == Set::<u32>::empty() by {
                assert(self.constraints.view()[pre.spec_num()] == row);
            }
            assert forall|p: int, o2: int|
                0 <= p < self.spec_num() && 0 <= o2 < self.spec_num_offsets() implies (
            #[trigger] self.spec_row(p, o2)).finite() by {
                if p < pre.spec_num() {
                    assert(pre.spec_row(p, o2).finite());
                } else {
                    assert(self.spec_row(p, o2) == Set::<u32>::empty());
                }
            }
            assert forall|p: int, o2: int, q: u32|
                0 <= p < self.spec_num() && 0 <= o2 < self.spec_num_offsets()
                    && #[trigger] self.spec_row(p, o2).contains(q) implies (q as int)
                < self.spec_num() by {
                if p < pre.spec_num() {
                    assert(pre.spec_row(p, o2).contains(q));
                } else {
                    assert(self.spec_row(p, o2) == Set::<u32>::empty());
                }
            }
            if pre.spec_symmetric() {
                assert forall|p: int, o2: int, q: u32|
                    0 <= p < self.spec_num() && 0 <= o2 < self.spec_num_offsets() && 0 <= q
                        < self.spec_num() implies (#[trigger] self.spec_row(p, o2).contains(q)
                    <==> self.spec_row(q as int, self.spec_opp(o2)).contains(p as u32)) by {
                    let m = pre.spec_num();
                    if p < m && (q as int) < m {
                        assert(pre.spec_row(p, o2).contains(q) <==> pre.spec_row(
                            q as int,
                            pre.spec_opp(o2),
                        ).contains(p as u32));
                    } else if p == m && (q as int) == m {
                        assert(!self.spec_row(p, o2).contains(q));
                        assert(!self.spec_row(q as int, self.spec_opp(o2)).contains(p as u32));
                    } else if p == m {
                        assert(!self.spec_row(p, o2).contains(q));
                        assert(!pre.spec_row(q as int, pre.spec_opp(o2)).contains(p as u32));
                    } else {
                        assert(!self.spec_row(q as int, self.spec_opp(o2)).contains(p as u32));
                        assert(!pre.spec_row(p, o2).contains(q));
                    }
                }
            }
        }
    }

    pub fn get_offset_group(&self) -> (r: &OffsetGroup)
        ensures
            *r == self.spec_offset_group(),
    {
        &self.offset_group
    }

    pub fn num_patterns(&self) -> (r: u16)
        requires
            self.wf(),
        ensures
            r == self.spec_num(),
    {
        self.constraints.num_elements() as u16
    }

    /// May `offset_pattern` stand at `offset` from `pattern`?
    pub fn are_compatible(
        &self,
        pattern: PatternId,
        offset_pattern: PatternId,
        offset: OffsetId,
    ) -> (r: bool)
        requires
            self.wf(),
            (pattern.0 as int) < self.spec_num(),
            (offset.0 as int) < self.spec_num_offsets(),
        ensures
            r == self.spec_row(pattern.0 as int, offset.0 as int).contains(
                offset_pattern.0 as u32,
            ),
    {
        proof {
            assert(self.spec_row_count(pattern.0 as int) == self.spec_num_offsets());
        }
        bit_set_contains(
            self.constraints.get(pattern).get(offset),
            offset_pattern.0 as u32,
        )
    }

    /// The patterns compatible with `pattern` at `offset`, ascending.
    pub fn iter_compatible(&self, pattern: PatternId, offset: OffsetId) -> (r: Vec<PatternId>)
        requires
            self.wf(),
            (pattern.0 as int) < self.spec_num(),
            (offset.0 as int) < self.spec_num_offsets(),
        ensures
            r@.len() == self.spec_row(pattern.0 as int, offset.0 as int).len(),
            forall|i: int, j: int| 0 <= i < j < r@.len() ==> r@[i].0 < r@[j].0,
            forall|i: int|
                0 <= i < r@.len() ==> self.spec_row(pattern.0 as int, offset.0 as int).contains(
                    (#[trigger] r@[i]).0 as u32,
                ),
            forall|q: u32|
                self.spec_row(pattern.0 as int, offset.0 as int).contains(q) ==> exists|i: int|
                    0 <= i < r@.len() && (#[trigger] r@[i]).0 as u32 == q,
    {
        let ghost s = self.spec_row(pattern.0 as int, offset.0 as int);
        let n = self.constraints.num_elements() as u16;
        proof {
            assert(self.spec_row_count(pattern.0 as int) == self.spec_num_offsets());
        }
        let row = self.constraints.get(pattern).get(offset);
        let mut out: Vec<PatternId> = Vec::new();
        let mut p: u16 = 0;
        while p < n
            invariant
                p <= n,
                n == self.spec_num(),
                self.wf(),
                (pattern.0 as int) < self.spec_num(),
                (offset.0 as int) < self.spec_num_offsets(),
                s == self.spec_row(pattern.0 as int, offset.0 as int),
                bit_set_elems(*row) == s,
                out@.len() == set_count_below(s, p as int),
                forall|i: int, j: int| 0 <= i < j < out@.len() ==> out@[i].0 < out@[j].0,
                forall|i: int|
                    0 <= i < out@.len() ==> s.contains((#[trigger] out@[i]).0 as u32) && (
                    out@[i].0 as int) < p as int,
                forall|q: u32|
                    s.contains(q) && (q as int) < p as int ==> exists|i: int|
                        0 <= i < out@.len() && (#[trigger] out@[i]).0 as u32 == q,
            decreases n - p,
        {
            let ghost out0 = out@;
            if bit_set_contains(row, p as u32) {
                out.push(PatternId(p));
            }
            proof {
                assert forall|q: u32| s.contains(q) && (q as int) < p as int + 1 implies exists|
                    i: int,
                |
                    0 <= i < out@.len() && (#[trigger] out@[i]).0 as u32 == q by {
                    if (q as int) < p as int {
                        let i = choose|i: int|
                            0 <= i < out0.len() && (#[trigger] out0[i]).0 as u32 == q;
                        assert(out@[i].0 as u32 == q);
                    } else {
                        assert(out@[out@.len() - 1].0 as u32 == q);
                    }
                }
            }
            p = p + 1;
        }
        proof {
            crate::entropy::lemma_set_count_is_len(s, n as int);
        }
        out
    }

    /// How many patterns are compatible with `pattern` at `offset`.
    pub fn num_compatible(&self, pattern: PatternId, offset: OffsetId) -> (r: u16)
        requires
            self.wf(),
            (pattern.0 as int) < self.spec_num(),
            (offset.0 as int) < self.spec_num_offsets(),
        ensures
            r == self.spec_row(pattern.0 as int, offset.0 as int).len(),
            r <= self.spec_num(),
    {
        let ghost s = self.spec_row(pattern.0 as int, offset.0 as int);
        let n = self.constraints.num_elements() as u16;
        proof {
            assert(self.spec_row_count(pattern.0 as int) == self.spec_num_offsets());
        }
        let row = self.constraints.get(pattern).get(offset);
        let mut count: u16 = 0;
        let mut p: u16 = 0;
        while p < n
            invariant
                p <= n,
                n == self.spec_num(),
                self.wf(),
                (pattern.0 as int) < self.spec_num(),
                (offset.0 as int) < self.spec_num_offsets(),
                s == self.spec_row(pattern.0 as int, offset.0 as int),
                bit_set_elems(*row) == s,
                count == set_count_below(s, p as int),
                count <= p,
            decreases n - p,
        {
            if bit_set_contains(row, p as u32) {
                count = count + 1;
            }
            p = p + 1;
        }
        proof {
            crate::entropy::lemma_set_count_is_len(s, n as int);
        }
        count
    }

    /// Record that `offset_pattern` was seen at `offset` from `pattern`,
    /// and by symmetry that `pattern` was seen at the opposite offset
    /// from `offset_pattern`.
    pub fn add_compatible_patterns(
        &mut self,
        offset: &Point,
        pattern: PatternId,
        offset_pattern: PatternId,
    )
        requires
            old(self).wf(),
            (pattern.0 as int) < old(self).spec_num(),
            (offset_pattern.0 as int) < old(self).spec_num(),
            exists|k: int|
                0 <= k < old(self).spec_num_offsets() && old(self).spec_offset_group().view()[k]
                    == *offset,
        ensures
            final(self).wf(),
            final(self).spec_num() == old(self).spec_num(),
            final(self).spec_offset_group() == old(self).spec_offset_group(),
            exists|oid: int|
                {
                    &&& 0 <= oid < old(self).spec_num_offsets()
                    &&& old(self).spec_offset_group().view()[oid] == *offset
                    &&& final(self).spec_row(pattern.0 as int, oid) == old(self).spec_row(
                        pattern.0 as int,
                        oid,
                    ).insert(offset_pattern.0 as u32).union(
                        if pattern.0 == offset_pattern.0 && oid == old(self).spec_opp(oid) {
                            Set::<u32>::empty().insert(pattern.0 as u32)
                        } else {
                            Set::<u32>::empty()
                        },
                    )
                    &&& final(self).spec_row(offset_pattern.0 as int, old(self).spec_opp(oid))
                        == old(self).spec_row(offset_pattern.0 as int, old(self).spec_opp(oid))
                        .insert(pattern.0 as u32).union(
                        if pattern.0 == offset_pattern.0 && oid == old(self).spec_opp(oid) {
                            Set::<u32>::empty().insert(offset_pattern.0 as u32)
                        } else {
                            Set::<u32>::empty()
                        },
                    )
                    &&& final(self).spec_row(pattern.0 as int, oid).contains(
                        offset_pattern.0 as u32,
                    )
                    &&& final(self).spec_row(
                        offset_pattern.0 as int,
                        old(self).spec_opp(oid),
                    ).contains(pattern.0 as u32)
                    &&& forall|p2: int, o2: int|
                        0 <= p2 < old(self).spec_num() && 0 <= o2 < old(self).spec_num_offsets()
                            && !(p2 == pattern.0 as int && o2 == oid) && !(p2
                            == offset_pattern.0 as int && o2 == old(self).spec_opp(oid))
                            ==> final(self).spec_row(p2, o2) == old(self).spec_row(p2, o2)
                },
            forall|p2: int, o2: int|
                0 <= p2 < old(self).spec_num() && 0 <= o2 < old(self).spec_num_offsets()
                    ==> (#[trigger] old(self).spec_row(p2, o2)).subset_of(
                    final(self).spec_row(p2, o2),
                ),
            old(self).spec_symmetric() ==> final(self).spec_symmetric(),
    {
        let ghost pre = *self;
        let offset_id = self.offset_group.offset_id(offset);
        let ghost oid = offset_id.0 as int;
        let opposite_id = self.offset_group.opposite(offset_id);
        proof {
            assert(pre.spec_row_count(pattern.0 as int) == pre.spec_num_offsets());
            assert(pre.spec_row_count(offset_pattern.0 as int) == pre.spec_num_offsets());
        }
        let row = self.constraints.get_mut(pattern).get_mut(offset_id);
        let _already = bit_set_add(row, offset_pattern.0 as u32);
        let ghost mid = *self;
        proof {
            assert(mid.spec_row_count(offset_pattern.0 as int) == pre.spec_row_count(
                offset_pattern.0 as int,
            ));
        }
        let opp_row = self.constraints.get_mut(offset_pattern).get_mut(opposite_id);
        let _already2 = bit_set_add(opp_row, pattern.0 as u32);
        proof {
            let p = pattern.0 as int;
            let q = offset_pattern.0 as int;
            let od = pre.spec_opp(oid);
            assert(mid.spec_row(p, oid) == pre.spec_row(p, oid).insert(offset_pattern.0 as u32));
            assert forall|p2: int, o2: int|
                0 <= p2 < pre.spec_num() && 0 <= o2 < pre.spec_num_offsets() && !(p2 == p && o2
                    == oid) implies mid.spec_row(p2, o2) == pre.spec_row(p2, o2) by {}
            assert(self.spec_row(q, od) == mid.spec_row(q, od).insert(pattern.0 as u32));
            assert forall|p2: int, o2: int|
                0 <= p2 < pre.spec_num() && 0 <= o2 < pre.spec_num_offsets() && !(p2 == q && o2
                    == od) implies self.spec_row(p2, o2) == mid.spec_row(p2, o2) by {}
            if p == q && oid == od {
                assert(self.spec_row(p, oid) =~= pre.spec_row(p, oid).insert(
                    offset_pattern.0 as u32,
                ).union(Set::<u32>::empty().insert(pattern.0 as u32)));
            } else {
                assert(self.spec_row(p, oid) =~= pre.spec_row(p, oid).insert(
                    offset_pattern.0 as u32,
                ).union(Set::<u32>::empty()));
                assert(self.spec_row(q, od) =~= pre.spec_row(q, od).insert(
                    pattern.0 as u32,
                ).union(Set::<u32>::empty()));
            }
            assert forall|p2: int|
                0 <= p2 < self.spec_num() implies #[trigger] self.spec_row_count(p2)
                == self.spec_num_offsets() by {
                assert(pre.spec_row_count(p2) == pre.spec_num_offsets());
            }
            assert forall|p2: int, o2: int|
                0 <= p2 < self.spec_num() && 0 <= o2 < self.spec_num_offsets() implies (
            #[trigger] self.spec_row(p2, o2)).finite() by {
                assert(pre.spec_row(p2, o2).finite());
                if p2 == p && o2 == oid {
                } else if p2 == q && o2 == od {
                } else {
                    assert(self.spec_row(p2, o2) == pre.spec_row(p2, o2));
                }
            }
            assert forall|p2: int, o2: int, q2: u32|
                0 <= p2 < self.spec_num() && 0 <= o2 < self.spec_num_offsets()
                    && #[trigger] self.spec_row(p2, o2).contains(q2) implies (q2 as int)
                < self.spec_num() by {
                if p2 == p && o2 == oid {
                } else if p2 == q && o2 == od {
                } else {
                    assert(self.spec_row(p2, o2) == pre.spec_row(p2, o2));
                }
                if pre.spec_row(p2, o2).contains(q2) {
                }
            }
            assert forall|p2: int, o2: int|
                0 <= p2 < pre.spec_num() && 0 <= o2 < pre.spec_num_offsets() implies (
            #[trigger] pre.spec_row(p2, o2)).subset_of(self.spec_row(p2, o2)) by {
                if p2 == p && o2 == oid {
                } else if p2 == q && o2 == od {
                } else {
                    assert(self.spec_row(p2, o2) == pre.spec_row(p2, o2));
                }
            }
            if pre.spec_symmetric() {
                assert forall|p2: int, o2: int, q2: u32|
                    0 <= p2 < self.spec_num() && 0 <= o2 < self.spec_num_offsets() && 0 <= q2
                        < self.spec_num() implies (#[trigger] self.spec_row(p2, o2).contains(q2)
                    <==> self.spec_row(q2 as int, self.spec_opp(o2)).contains(p2 as u32)) by {
                    let oo = pre.spec_opp(o2);
                    assert(pre.spec_opp(oo) == o2);
                    // membership on each side changed only for the two added pairs
                    let lhs_new = (p2 == p && o2 == oid && q2 == offset_pattern.0) || (p2 == q
                        && o2 == od && q2 == pattern.0);
                    let rhs_new = ((q2 as int) == p && oo == oid && p2 == offset_pattern.0 as int)
                        || ((q2 as int) == q && oo == od && p2 == pattern.0 as int);
                    assert(self.spec_row(p2, o2).contains(q2) <==> pre.spec_row(p2, o2).contains(
                        q2,
                    ) || lhs_new);
                    assert(self.spec_row(q2 as int, oo).contains(p2 as u32) <==> pre.spec_row(
                        q2 as int,
                        oo,
                    ).contains(p2 as u32) || rhs_new);
                    assert(lhs_new <==> rhs_new);
                }
            }
        }
    }

    /// The initial support of every pattern at every offset, for a cell
    /// where everything is still possible: the number of patterns
    /// compatible at the opposite offset.
    pub fn get_initial_support(&self) -> (r: PatternMap<PatternSupport>)
        requires
            self.wf(),
        ensures
            r.view().len() == self.spec_num(),
            forall|p: int|
                0 <= p < self.spec_num() ==> (#[trigger] r.view()[p]).view().len()
                    == self.spec_num_offsets(),
            forall|p: int, o: int|
                0 <= p < self.spec_num() && 0 <= o < self.spec_num_offsets() ==> (
                #[trigger] r.view()[p].view()[o]) as int == self.spec_row(
                    p,
                    self.spec_opp(o),
                ).len(),
    {
        let num = self.constraints.num_elements() as u16;
        let num_offsets = self.offset_group.num_offsets();
        let mut supports: PatternMap<PatternSupport> = StaticVec::new(Vec::new());
        let mut p: u16 = 0;
        while p < num
            invariant
                p <= num,
                num == self.spec_num(),
                self.wf(),
                num_offsets == self.spec_num_offsets(),
                supports.view().len() == p,
                forall|p2: int|
                    0 <= p2 < p ==> (#[trigger] supports.view()[p2]).view().len()
                        == self.spec_num_offsets(),
                forall|p2: int, o: int|
                    0 <= p2 < p && 0 <= o < self.spec_num_offsets() ==> (
                    #[trigger] supports.view()[p2].view()[o]) as int == self.spec_row(
                        p2,
                        self.spec_opp(o),
                    ).len(),
            decreases num - p,
        {
            let mut counts: OffsetMap<i16> = StaticVec::new(Vec::new());
            let mut o: usize = 0;
            while o < num_offsets
                invariant
                    o <= num_offsets,
                    num == self.spec_num(),
                    self.wf(),
                    num_offsets == self.spec_num_offsets(),
                    (p as int) < self.spec_num(),
                    counts.view().len() == o,
                    forall|j: int|
                        0 <= j < o ==> (#[trigger] counts.view()[j]) as int == self.spec_row(
                            p as int,
                            self.spec_opp(j),
                        ).len(),
                decreases num_offsets - o,
            {
                let opp = self.offset_group.opposite(OffsetId(o));
                let c = self.num_compatible(PatternId(p), opp);
                counts.push(c as i16);
                o = o + 1;
            }
            supports.push(PatternSupport::from_counts(counts));
            p = p + 1;
        }
        supports
    }

    /// Is a fully determined output grid consistent: does every in-extent
    /// neighbor pair satisfy the relation?
    pub open spec fn spec_assignment_valid(&self, assignment: &Lattice<PatternId>) -> bool {
        forall|i: int, o: int|
            0 <= i < assignment.view().len() && 0 <= o < self.spec_num_offsets()
                && assignment.spec_extent().spec_contains_local(
                #[trigger] assignment.spec_extent().spec_point_of(i).plus_spec(
                    self.spec_offset_group().view()[o],
                ),
            ) ==> self.spec_row(assignment.view()[i].0 as int, o).contains(
                assignment.view()[assignment.spec_extent().spec_index_of(
                    assignment.spec_extent().spec_point_of(i).plus_spec(
                        self.spec_offset_group().view()[o],
                    ),
                )].0 as u32,
            )
    }

    /// Check assignment validity, cell by cell.
    pub fn assignment_is_valid(&self, assignment: &Lattice<PatternId>) -> (r: bool)
        requires
            self.wf(),
            assignment.wf(),
            forall|i: int|
                0 <= i < assignment.view().len() ==> ((#[trigger] assignment.view()[i]).0 as int)
                    < self.spec_num(),
        ensures
            r == self.spec_assignment_valid(assignment),
    {
        let extent = assignment.get_extent();
        let n = assignment.num_cells();
        let num_offsets = self.offset_group.num_offsets();
        let mut i: usize = 0;
        while i < n
            invariant
                i <= n,
                n == assignment.view().len(),
                self.wf(),
                assignment.wf(),
                extent == assignment.spec_extent(),
                num_offsets == self.spec_num_offsets(),
                forall|j: int|
                    0 <= j < assignment.view().len() ==> ((
                    #[trigger] assignment.view()[j]).0 as int) < self.spec_num(),
                forall|i2: int, o: int|
                    0 <= i2 < i && 0 <= o < self.spec_num_offsets()
                        && extent.spec_contains_local(
                        #[trigger] extent.spec_point_of(i2).plus_spec(
                            self.spec_offset_group().view()[o],
                        ),
                    ) ==> self.spec_row(assignment.view()[i2].0 as int, o).contains(
                        assignment.view()[extent.spec_index_of(
                            extent.spec_point_of(i2).plus_spec(
                                self.spec_offset_group().view()[o],
                            ),
                        )].0 as u32,
                    ),
            decreases n - i,
        {
            let p = extent.local_point_from_index(i);
            let pattern = *assignment.get_linear(i);
            let mut o: usize = 0;
            while o < num_offsets
                invariant
                    o <= num_offsets,
                    i < n,
                    n == assignment.view().len(),
                    self.wf(),
                    assignment.wf(),
                    extent == assignment.spec_extent(),
                    num_offsets == self.spec_num_offsets(),
                    p == extent.spec_point_of(i as int),
                    extent.spec_contains_local(p),
                    pattern == assignment.view()[i as int],
                    forall|j: int|
                        0 <= j < assignment.view().len() ==> ((
                        #[trigger] assignment.view()[j]).0 as int) < self.spec_num(),
                    forall|o2: int|
                        0 <= o2 < o && extent.spec_contains_local(
                            #[trigger] extent.spec_point_of(i as int).plus_spec(
                                self.spec_offset_group().view()[o2],
                            ),
                        ) ==> self.spec_row(assignment.view()[i as int].0 as int, o2).contains(
                            assignment.view()[extent.spec_index_of(
                                extent.spec_point_of(i as int).plus_spec(
                                    self.spec_offset_group().view()[o2],
                                ),
                            )].0 as u32,
                        ),
                decreases num_offsets - o,
            {
                let off = self.offset_group.offset_of(OffsetId(o));
                let neighbor = p.plus(off);
                if extent.contains_local(&neighbor) {
                    let neighbor_pattern = *assignment.get_local(&neighbor);
                    if !self.are_compatible(pattern, neighbor_pattern, OffsetId(o)) {
                        proof {
                            let off_spec = self.spec_offset_group().view()[o as int];
                            assert(neighbor == extent.spec_point_of(i as int).plus_spec(off_spec));
                            assert(!self.spec_assignment_valid(assignment));
                        }
                        return false;
                    }
                }
                o = o + 1;
            }
            i = i + 1;
        }
        true
    }
}

/// The grid of pattern anchors covering the input: one anchor per tile.
pub open spec fn spec_pattern_grid_extent(input_extent: Extent, tile_size: Point) -> Extent {
    Extent {
        min: Point { x: 0, y: 0, z: 0 },
        lsup: Point {
            x: ((input_extent.lsup.x + tile_size.x - 1) as int / tile_size.x as int) as i32,
            y: ((input_extent.lsup.y + tile_size.y - 1) as int / tile_size.y as int) as i32,
            z: ((input_extent.lsup.z + tile_size.z - 1) as int / tile_size.z as int) as i32,
        },
    }
}

/// The cells of the sub-grid of size `csize` anchored at `base`, read
/// toroidally and serialised in canonical order.
pub open spec fn spec_subgrid_cells(input: &Lattice<u32>, base: Point, csize: Point) -> Seq<u32> {
    let pext = Extent { min: Point { x: 0, y: 0, z: 0 }, lsup: csize };
    Seq::new(
        pext.spec_volume() as nat,
        |i: int|
            input.cell_at(
                input.spec_extent().spec_wrap(base.plus_spec(pext.spec_point_of(i))),
            ),
    )
}

/// The serialised cells of the pattern anchored at anchor index `i` of
/// the pattern grid.
pub open spec fn spec_anchor_cells(
    input: &Lattice<u32>,
    pgrid: Extent,
    i: int,
    tile_size: Point,
    pattern_cell_size: Point,
) -> Seq<u32> {
    spec_subgrid_cells(
        input,
        pgrid.spec_point_of(i).times_spec(tile_size),
        pattern_cell_size,
    )
}

/// How many anchors below `k` are assigned pattern `id`.
pub open spec fn count_assigned(pa: Seq<PatternId>, id: int, k: int) -> int
    decreases k,
{
    if k <= 0 {
        0
    } else {
        count_assigned(pa, id, k - 1) + if pa[k - 1].0 == id {
            1int
        } else {
            0int
        }
    }
}

/// The anchor index of the toroidal neighbor of anchor `i` at offset `o`.
pub open spec fn spec_neighbor_anchor(pgrid: Extent, i: int, og_offsets: Seq<Point>, o: int) -> int {
    pgrid.spec_index_of(pgrid.spec_wrap(pgrid.spec_point_of(i).plus_spec(og_offsets[o])))
}

/// An unrecoverable configuration failure of pattern extraction.
#[derive(Clone, Copy, Debug, PartialEq, Eq, Structural)]
pub enum ConfigError {
    /// The input holds more distinct patterns than a `PatternId` (and the
    /// `i16` support counters) can carry.
    TooManyPatterns,
}

/// The representative contents of each pattern: the tile at the
/// pattern's first anchor, used by the glue that renders pattern
/// identifiers back into cells.
pub struct PatternTileSet {
    pub tiles: PatternMap<Lattice<u32>>,
    pub tile_size: Point,
}

/// The assignment of pattern identifiers to anchors that ties an
/// extraction result to its input: identifiers agree exactly on anchors
/// with equal serialised contents, every identifier occurs, weights
/// count occurrences, every adjacent anchor pair is recorded as
/// compatible, and each tile is the representative of its pattern.
pub open spec fn spec_extraction_assignment(
    input: &Lattice<u32>,
    pgrid: Extent,
    tile_size: Point,
    pattern_cell_size: Point,
    og_offsets: Seq<Point>,
    pa: Seq<PatternId>,
    rep: Seq<int>,
    sampler: &PatternSampler,
    constraints: &PatternConstraints,
    tiles: &PatternTileSet,
) -> bool {
    let num = constraints.spec_num();
    &&& pa.len() == pgrid.spec_volume()
    &&& forall|i: int| 0 <= i < pa.len() ==> ((#[trigger] pa[i]).0 as int) < num
    &&& forall|i1: int, i2: int|
        0 <= i1 < pa.len() && 0 <= i2 < pa.len() ==> ((#[trigger] pa[i1]) == (#[trigger] pa[i2])
            <==> spec_anchor_cells(input, pgrid, i1, tile_size, pattern_cell_size)
            == spec_anchor_cells(input, pgrid, i2, tile_size, pattern_cell_size))
    &&& forall|id: int|
        0 <= id < num ==> #[trigger] sampler.spec_weights()[id] == count_assigned(
            pa,
            id,
            pa.len() as int,
        )
    &&& forall|i: int, o: int|
        0 <= i < pa.len() && 0 <= o < og_offsets.len() ==> #[trigger] constraints.spec_row(
            pa[i].0 as int,
            o,
        ).contains(pa[spec_neighbor_anchor(pgrid, i, og_offsets, o)].0 as u32)
    &&& rep.len() == num
    &&& forall|id: int|
        0 <= id < num ==> 0 <= #[trigger] rep[id] < pa.len() && pa[rep[id]].0 as int == id
    &&& forall|id: int|
        0 <= id < num ==> (#[trigger] tiles.tiles.view()[id]).wf()
            && tiles.tiles.view()[id].spec_extent() == (Extent {
            min: Point { x: 0, y: 0, z: 0 },
            lsup: tile_size,
        }) && tiles.tiles.view()[id].view() == spec_subgrid_cells(
            input,
            pgrid.spec_point_of(rep[id]).times_spec(tile_size),
            tile_size,
        )
}

/// Element-wise comparison of two cell sequences.
fn u32_vec_eq(a: &Vec<u32>, b: &Vec<u32>) -> (r: bool)
    ensures
        r == (a@ == b@),
{
    if a.len() != b.len() {
        proof {
            assert(a@ != b@);
        }
        return false;
    }
    let n = a.len();
    let mut i: usize = 0;
    while i < n
        invariant
            i <= n,
            n == a@.len(),
            n == b@.len(),
            forall|j: int| 0 <= j < i ==> a@[j] == b@[j],
        decreases n - i,
    {
        if a[i] != b[i] {
            proof {
                assert(a@ != b@);
            }
            return false;
        }
        i = i + 1;
    }
    proof {
        assert(a@ =~= b@);
    }
    true
}

/// Serialise the sub-grid of size `csize` anchored at `base` (toroidal).
fn subgrid_cells(input: &Lattice<u32>, base: Point, csize: Point) -> (r: Vec<u32>)
    requires
        input.wf(),
        csize.is_size(),
        -0x200000 <= base.x <= 0x200000,
        -0x200000 <= base.y <= 0x200000,
        -0x200000 <= base.z <= 0x200000,
    ensures
        r@ == spec_subgrid_cells(input, base, csize),
{
    let pext = Extent::from_min_and_local_supremum(Point { x: 0, y: 0, z: 0 }, csize);
    let vol = pext.volume();
    let ghost target = spec_subgrid_cells(input, base, csize);
    let mut r: Vec<u32> = Vec::new();
    let mut i: usize = 0;
    while i < vol
        invariant
            i <= vol,
            input.wf(),
            csize.is_size(),
            -0x200000 <= base.x <= 0x200000,
            -0x200000 <= base.y <= 0x200000,
            -0x200000 <= base.z <= 0x200000,
            pext == (Extent { min: Point { x: 0, y: 0, z: 0 }, lsup: csize }),
            vol == pext.spec_volume(),
            target == spec_subgrid_cells(input, base, csize),
            target.len() == vol,
            r@.len() == i,
            forall|j: int| 0 <= j < i ==> r@[j] == target[j],
        decreases vol - i,
    {
        let q = pext.local_point_from_index(i);
        let cell = *input.get_toroidal(&base.plus(q));
        r.push(cell);
        i = i + 1;
    }
    proof {
        assert(r@ =~= target);
    }
    r
}

/// Scan the input, deduplicate the patterns it holds (up to translation,
/// toroidally), count each pattern's occurrences, and record which
/// patterns were seen adjacent at every offset.  Fails exactly when the
/// input holds more than `MAX_PATTERNS` distinct patterns.
#[verifier::rlimit(100)]
pub fn process_patterns_in_lattice(
    input: &Lattice<u32>,
    tile_size: &Point,
    pattern_shape: &PatternShape,
) -> (r: Result<(PatternSampler, PatternConstraints, PatternTileSet), ConfigError>)
    requires
        input.wf(),
        tile_size.is_size(),
        pattern_shape.size.is_size(),
        pattern_shape.size.x * tile_size.x <= 1024,
        pattern_shape.size.y * tile_size.y <= 1024,
        pattern_shape.size.z * tile_size.z <= 1024,
        pattern_shape.offset_group.wf(),
    ensures
        match r {
            Ok((sampler, constraints, tiles)) => {
                let pgrid = spec_pattern_grid_extent(input.spec_extent(), *tile_size);
                let num = constraints.spec_num();
                let psize = pattern_shape.size.times_spec(*tile_size);
                &&& sampler.wf()
                &&& constraints.wf()
                &&& constraints.spec_symmetric()
                &&& constraints.spec_nonempty_rows()
                &&& constraints.spec_offset_group().view() == pattern_shape.offset_group.view()
                &&& sampler.spec_num_patterns() == num
                &&& 1 <= num <= MAX_PATTERNS
                &&& sampler.spec_total() == pgrid.spec_volume()
                &&& tiles.tiles.view().len() == num
                &&& tiles.tile_size == *tile_size
                &&& exists|pa: Seq<PatternId>, rep: Seq<int>|
                    pa.len() == pgrid.spec_volume()
                        && #[trigger] spec_extraction_assignment(
                        input,
                        pgrid,
                        *tile_size,
                        psize,
                        pattern_shape.offset_group.view(),
                        pa,
                        rep,
                        &sampler,
                        &constraints,
                        &tiles,
                    )
            },
            Err(e) => {
                let pgrid = spec_pattern_grid_extent(input.spec_extent(), *tile_size);
                let psize = pattern_shape.size.times_spec(*tile_size);
                &&& e == ConfigError::TooManyPatterns
                &&& exists|anchors: Seq<int>|
                    #[trigger] anchors.len() == MAX_PATTERNS + 1 && (forall|i: int|
                        0 <= i < anchors.len() ==> 0 <= #[trigger] anchors[i]
                            < pgrid.spec_volume()) && (forall|i: int, j: int|
                        0 <= i < j < anchors.len() ==> spec_anchor_cells(
                            input,
                            pgrid,
                            anchors[i],
                            *tile_size,
                            psize,
                        ) != spec_anchor_cells(input, pgrid, anchors[j], *tile_size, psize))
            },
        },
{
    let input_extent = input.get_extent();
    let pattern_lattice_size = div_ceil_point(input_extent.get_local_supremum(), *tile_size);
    proof {
        assert(1 <= (input_extent.lsup.x + tile_size.x - 1) as int / tile_size.x as int
            <= input_extent.lsup.x) by (nonlinear_arith)
            requires
                1 <= input_extent.lsup.x <= 1024,
                1 <= tile_size.x <= 1024,
        ;
        assert(1 <= (input_extent.lsup.y + tile_size.y - 1) as int / tile_size.y as int
            <= input_extent.lsup.y) by (nonlinear_arith)
            requires
                1 <= input_extent.lsup.y <= 1024,
                1 <= tile_size.y <= 1024,
        ;
        assert(1 <= (input_extent.lsup.z + tile_size.z - 1) as int / tile_size.z as int
            <= input_extent.lsup.z) by (nonlinear_arith)
            requires
                1 <= input_extent.lsup.z <= 1024,
                1 <= tile_size.z <= 1024,
        ;
    }
    let pattern_lattice_extent = Extent::from_min_and_local_supremum(
        Point { x: 0, y: 0, z: 0 },
        pattern_lattice_size,
    );
    let ghost pgrid = pattern_lattice_extent;
    proof {
        assert(pgrid == spec_pattern_grid_extent(input.spec_extent(), *tile_size));
    }
    let pvol = pattern_lattice_extent.volume();
    proof {
        assert(1 <= pattern_shape.size.x * tile_size.x && 1 <= pattern_shape.size.y * tile_size.y
            && 1 <= pattern_shape.size.z * tile_size.z) by (nonlinear_arith)
            requires
                pattern_shape.size.is_size(),
                tile_size.is_size(),
        ;
    }
    let psize = pattern_shape.size.times(*tile_size);
    proof {
        assert(psize == pattern_shape.size.times_spec(*tile_size));
        assert(psize.is_size());
    }

    // First pass: assign a dense identifier to each distinct pattern.
    let mut keys: Vec<Vec<u32>> = Vec::new();
    let mut tiles_vec: Vec<Lattice<u32>> = Vec::new();
    let mut pattern_ids: Vec<PatternId> = Vec::new();
    let mut constraints = PatternConstraints::new(pattern_shape.offset_group.clone_group());
    let ghost mut rep_anchor: Seq<int> = Seq::empty();
    let mut a: usize = 0;
    while a < pvol
        invariant
            a <= pvol,
            input.wf(),
            tile_size.is_size(),
            pattern_shape.size.is_size(),
            psize.is_size(),
            psize == pattern_shape.size.times_spec(*tile_size),
            pattern_shape.offset_group.wf(),
            pattern_lattice_extent == pgrid,
            pgrid == spec_pattern_grid_extent(input.spec_extent(), *tile_size),
            pgrid.wf(),
            pvol == pgrid.spec_volume(),
            keys@.len() == tiles_vec@.len(),
            keys@.len() == rep_anchor.len(),
            keys@.len() <= MAX_PATTERNS,
            constraints.wf(),
            constraints.spec_symmetric(),
            constraints.spec_num() == keys@.len(),
            constraints.spec_offset_group().view() == pattern_shape.offset_group.view(),
            forall|p: int, o: int|
                0 <= p < constraints.spec_num() && 0 <= o < constraints.spec_num_offsets()
                    ==> #[trigger] constraints.spec_row(p, o) == Set::<u32>::empty(),
            pattern_ids@.len() == a,
            forall|i: int|
                0 <= i < a ==> ((#[trigger] pattern_ids@[i]).0 as int) < keys@.len(),
            forall|i: int|
                0 <= i < a ==> keys@[(#[trigger] pattern_ids@[i]).0 as int]@ == spec_anchor_cells(
                    input,
                    pgrid,
                    i,
                    *tile_size,
                    psize,
                ),
            forall|j: int|
                0 <= j < keys@.len() ==> 0 <= #[trigger] rep_anchor[j] < a,
            forall|j1: int, j2: int|
                0 <= j1 < j2 < keys@.len() ==> rep_anchor[j1] < rep_anchor[j2],
            forall|j: int|
                0 <= j < keys@.len() ==> (#[trigger] keys@[j])@ == spec_anchor_cells(
                    input,
                    pgrid,
                    rep_anchor[j],
                    *tile_size,
                    psize,
                ),
            forall|j: int|
                0 <= j < keys@.len() ==> (#[trigger] pattern_ids@[rep_anchor[j]]).0 as int == j,
            forall|j1: int, j2: int|
                0 <= j1 < j2 < keys@.len() ==> (#[trigger] keys@[j1])@ != (#[trigger] keys@[j2])@,
            forall|j: int|
                0 <= j < tiles_vec@.len() ==> (#[trigger] tiles_vec@[j]).wf()
                    && tiles_vec@[j].spec_extent() == (Extent {
                    min: Point { x: 0, y: 0, z: 0 },
                    lsup: *tile_size,
                }) && tiles_vec@[j].view() == spec_subgrid_cells(
                    input,
                    pgrid.spec_point_of(rep_anchor[j]).times_spec(*tile_size),
                    *tile_size,
                ),
        decreases pvol - a,
    {
        let anchor = pattern_lattice_extent.local_point_from_index(a);
        proof {
            assert(0 <= anchor.x * tile_size.x <= 0x100000 && 0 <= anchor.y * tile_size.y
                <= 0x100000 && 0 <= anchor.z * tile_size.z <= 0x100000) by (nonlinear_arith)
                requires
                    0 <= anchor.x <= 1024,
                    0 <= anchor.y <= 1024,
                    0 <= anchor.z <= 1024,
                    tile_size.is_size(),
            ;
        }
        let base = anchor.times(*tile_size);
        let cells = subgrid_cells(input, base, psize);
        proof {
            assert(base == pgrid.spec_point_of(a as int).times_spec(*tile_size));
            assert(cells@ == spec_anchor_cells(input, pgrid, a as int, *tile_size, psize));
        }
        let nkeys = keys.len();
        let mut found: usize = nkeys;
        let mut j: usize = 0;
        while j < nkeys && found == nkeys
            invariant
                j <= nkeys,
                nkeys == keys@.len(),
                found == nkeys || (found < nkeys && keys@[found as int]@ == cells@),
                found == nkeys ==> forall|j2: int| 0 <= j2 < j ==> (#[trigger] keys@[j2])@
                    != cells@,
            decreases found, nkeys - j,
        {
            if u32_vec_eq(&keys[j], &cells) {
                found = j;
            } else {
                j = j + 1;
            }
        }
        if found < nkeys {
            pattern_ids.push(PatternId(found as u16));
        } else {
            if keys.len() >= MAX_PATTERNS as usize {
                // one more distinct pattern than the identifiers allow
                proof {
                    let witness = rep_anchor.push(a as int);
                    assert(witness.len() == MAX_PATTERNS + 1);
                    assert forall|i1: int, i2: int|
                        0 <= i1 < i2 < witness.len() implies spec_anchor_cells(
                        input,
                        pgrid,
                        witness[i1],
                        *tile_size,
                        psize,
                    ) != spec_anchor_cells(input, pgrid, witness[i2], *tile_size, psize) by {
                        if i2 < witness.len() - 1 {
                            assert(keys@[i1]@ != keys@[i2]@);
                        } else {
                            assert(keys@[i1]@ != cells@);
                        }
                    }
                }
                return Err(ConfigError::TooManyPatterns);
            }
            let new_id = keys.len() as u16;
            keys.push(cells);
            let tile_cells = subgrid_cells(input, base, *tile_size);
            let tile_extent = Extent::from_min_and_local_supremum(
                Point { x: 0, y: 0, z: 0 },
                *tile_size,
            );
            tiles_vec.push(Lattice::from_vec(tile_extent, tile_cells));
            constraints.add_pattern();
            proof {
                rep_anchor = rep_anchor.push(a as int);
            }
            pattern_ids.push(PatternId(new_id));
        }
        a = a + 1;
    }

    let num_patterns = keys.len() as u16;
    let ghost pa = pattern_ids@;
    proof {
        assert(((pattern_ids@[0]).0 as int) < keys@.len());
    }

    // Second pass: count occurrences and record adjacent pairs.
    let mut weights_vec: Vec<u32> = Vec::new();
    let mut k: usize = 0;
    while k < num_patterns as usize
        invariant
            k <= num_patterns as usize,
            weights_vec@.len() == k,
            forall|i: int| 0 <= i < k ==> weights_vec@[i] == 0,
        decreases num_patterns as usize - k,
    {
        weights_vec.push(0);
        k = k + 1;
    }
    let mut weights: PatternMap<u32> = StaticVec::new(weights_vec);
    let offset_pairs = pattern_shape.offset_group.iter();
    let num_offsets = offset_pairs.len();
    let mut a2: usize = 0;
    while a2 < pvol
        invariant
            a2 <= pvol,
            input.wf(),
            pattern_shape.offset_group.wf(),
            pattern_lattice_extent == pgrid,
            pattern_lattice_size == pgrid.lsup,
            pgrid.wf(),
            pvol == pgrid.spec_volume(),
            pvol <= 0x40000000,
            pa == pattern_ids@,
            pa.len() == pvol,
            1 <= num_patterns <= MAX_PATTERNS,
            forall|i: int| 0 <= i < pvol ==> ((#[trigger] pa[i]).0 as int) < num_patterns,
            offset_pairs@.len() == num_offsets,
            num_offsets == pattern_shape.offset_group.view().len(),
            forall|i: int|
                0 <= i < num_offsets ==> (#[trigger] offset_pairs@[i]).0.0 == i
                    && offset_pairs@[i].1 == pattern_shape.offset_group.view()[i],
            weights.view().len() == num_patterns,
            forall|id: int|
                0 <= id < num_patterns ==> #[trigger] weights.view()[id] == count_assigned(
                    pa,
                    id,
                    a2 as int,
                ),
            forall|id: int| 0 <= id < num_patterns ==> #[trigger] weights.view()[id] <= a2,
            constraints.wf(),
            constraints.spec_symmetric(),
            constraints.spec_num() == num_patterns,
            constraints.spec_offset_group().view() == pattern_shape.offset_group.view(),
            forall|i: int, o: int|
                0 <= i < a2 && 0 <= o < num_offsets ==> #[trigger] constraints.spec_row(
                    pa[i].0 as int,
                    o,
                ).contains(
                    pa[spec_neighbor_anchor(
                        pgrid,
                        i,
                        pattern_shape.offset_group.view(),
                        o,
                    )].0 as u32,
                ),
        decreases pvol - a2,
    {
        let anchor = pattern_lattice_extent.local_point_from_index(a2);
        let pid = pattern_ids[a2];
        proof {
            lemma_count_assigned_le(pa, pid.0 as int, a2 as int);
        }
        let w = weights.get_mut(pid);
        *w = *w + 1;
        let mut o: usize = 0;
        while o < num_offsets
            invariant
                o <= num_offsets,
                a2 < pvol,
                input.wf(),
                pattern_shape.offset_group.wf(),
                pattern_lattice_extent == pgrid,
                pattern_lattice_size == pgrid.lsup,
                pgrid.wf(),
                pvol == pgrid.spec_volume(),
                pa == pattern_ids@,
                pa.len() == pvol,
                1 <= num_patterns <= MAX_PATTERNS,
                forall|i: int| 0 <= i < pvol ==> ((#[trigger] pa[i]).0 as int) < num_patterns,
                offset_pairs@.len() == num_offsets,
                num_offsets == pattern_shape.offset_group.view().len(),
                forall|i: int|
                    0 <= i < num_offsets ==> (#[trigger] offset_pairs@[i]).0.0 == i
                        && offset_pairs@[i].1 == pattern_shape.offset_group.view()[i],
                anchor == pgrid.spec_point_of(a2 as int),
                pgrid.spec_contains_local(anchor),
                pid == pa[a2 as int],
                constraints.wf(),
                constraints.spec_symmetric(),
                constraints.spec_num() == num_patterns,
                constraints.spec_offset_group().view() == pattern_shape.offset_group.view(),
                forall|i: int, o2: int|
                    0 <= i < a2 && 0 <= o2 < num_offsets ==> #[trigger] constraints.spec_row(
                        pa[i].0 as int,
                        o2,
                    ).contains(
                        pa[spec_neighbor_anchor(
                            pgrid,
                            i,
                            pattern_shape.offset_group.view(),
                            o2,
                        )].0 as u32,
                    ),
                forall|o2: int|
                    0 <= o2 < o ==> #[trigger] constraints.spec_row(
                        pa[a2 as int].0 as int,
                        o2,
                    ).contains(
                        pa[spec_neighbor_anchor(
                            pgrid,
                            a2 as int,
                            pattern_shape.offset_group.view(),
                            o2,
                        )].0 as u32,
                    ),
            decreases num_offsets - o,
        {
            let pair = offset_pairs[o];
            let offset = pair.1;
            let shifted = anchor.plus(offset);
            let wrapped = Point {
                x: crate::lattice::wrap_coord(shifted.x, pattern_lattice_size.x),
                y: crate::lattice::wrap_coord(shifted.y, pattern_lattice_size.y),
                z: crate::lattice::wrap_coord(shifted.z, pattern_lattice_size.z),
            };
            let nb = pattern_lattice_extent.index_from_local_point(&wrapped);
            let offset_pattern = pattern_ids[nb];
            proof {
                assert(wrapped == pgrid.spec_wrap(
                    anchor.plus_spec(pattern_shape.offset_group.view()[o as int]),
                ));
                assert(nb == spec_neighbor_anchor(
                    pgrid,
                    a2 as int,
                    pattern_shape.offset_group.view(),
                    o as int,
                ));
            }
            let ghost cpre = constraints;
            constraints.add_compatible_patterns(&offset, pid, offset_pattern);
            proof {
                let ogv = cpre.spec_offset_group().view();
                let oidw = choose|oidw: int|
                    {
                        &&& 0 <= oidw < cpre.spec_num_offsets()
                        &&& ogv[oidw] == offset
                        &&& constraints.spec_row(pid.0 as int, oidw) == cpre.spec_row(
                            pid.0 as int,
                            oidw,
                        ).insert(offset_pattern.0 as u32).union(
                            if pid.0 == offset_pattern.0 && oidw == cpre.spec_opp(oidw) {
                                Set::<u32>::empty().insert(pid.0 as u32)
                            } else {
                                Set::<u32>::empty()
                            },
                        )
                        &&& constraints.spec_row(pid.0 as int, oidw).contains(
                            offset_pattern.0 as u32,
                        )
                        &&& constraints.spec_row(
                            offset_pattern.0 as int,
                            cpre.spec_opp(oidw),
                        ).contains(pid.0 as u32)
                    };
                // offsets are pairwise distinct, so the looked-up index is `o`
                if oidw < o as int {
                    assert(ogv[oidw] != ogv[o as int]);
                    assert(false);
                }
                if oidw > o as int {
                    assert(ogv[o as int] != ogv[oidw]);
                    assert(false);
                }
                assert(constraints.spec_row(pid.0 as int, o as int).contains(
                    offset_pattern.0 as u32,
                ));
                assert forall|i: int, o2: int|
                    0 <= i < a2 && 0 <= o2 < num_offsets implies #[trigger] constraints.spec_row(
                    pa[i].0 as int,
                    o2,
                ).contains(
                    pa[spec_neighbor_anchor(
                        pgrid,
                        i,
                        pattern_shape.offset_group.view(),
                        o2,
                    )].0 as u32,
                ) by {
                    assert(cpre.spec_row(pa[i].0 as int, o2).contains(
                        pa[spec_neighbor_anchor(
                            pgrid,
                            i,
                            pattern_shape.offset_group.view(),
                            o2,
                        )].0 as u32,
                    ));
                    assert(cpre.spec_row(pa[i].0 as int, o2).subset_of(
                        constraints.spec_row(pa[i].0 as int, o2),
                    ));
                }
                assert forall|o2: int|
                    0 <= o2 < o + 1 implies #[trigger] constraints.spec_row(
                    pa[a2 as int].0 as int,
                    o2,
                ).contains(
                    pa[spec_neighbor_anchor(
                        pgrid,
                        a2 as int,
                        pattern_shape.offset_group.view(),
                        o2,
                    )].0 as u32,
                ) by {
                    if o2 < o {
                        assert(cpre.spec_row(pa[a2 as int].0 as int, o2).contains(
                            pa[spec_neighbor_anchor(
                                pgrid,
                                a2 as int,
                                pattern_shape.offset_group.view(),
                                o2,
                            )].0 as u32,
                        ));
                        assert(cpre.spec_row(pa[a2 as int].0 as int, o2).subset_of(
                            constraints.spec_row(pa[a2 as int].0 as int, o2),
                        ));
                    }
                }
            }
            o = o + 1;
        }
        a2 = a2 + 1;
    }

    proof {
        lemma_total_weight(pa, weights.view(), num_patterns as int, pvol as int);
        assert forall|id: int| 0 <= id < num_patterns implies 1 <= #[trigger] weights.view()[id]
            by {
            let rep = rep_anchor[id];
            assert(pa[rep].0 as int == id);
            lemma_count_assigned_pos(pa, id, pvol as int, rep);
        }
    }
    let sampler = PatternSampler::new(weights);
    let ghost tiles_snap = tiles_vec@;
    let tiles = PatternTileSet { tiles: StaticVec::new(tiles_vec), tile_size: *tile_size };
    proof {
        assert(tiles.tiles.view() == tiles_snap);
    }
    proof {
        lemma_extraction_finish(
            input,
            pgrid,
            *tile_size,
            psize,
            pattern_shape.offset_group.view(),
            pa,
            rep_anchor,
            keys@,
            &sampler,
            &constraints,
            &tiles,
        );
        assert(pgrid == spec_pattern_grid_extent(input.spec_extent(), *tile_size));
        assert(spec_extraction_assignment(
            input,
            spec_pattern_grid_extent(input.spec_extent(), *tile_size),
            *tile_size,
            pattern_shape.size.times_spec(*tile_size),
            pattern_shape.offset_group.view(),
            pa,
            rep_anchor,
            &sampler,
            &constraints,
            &tiles,
        ));
    }
    Ok((sampler, constraints, tiles))
}

/// Compatibility is symmetric: `q` may stand at offset `o` from `p`
/// exactly when `p` may stand at the opposite offset from `q`.
pub proof fn lemma_compatibility_symmetry(
    constraints: &PatternConstraints,
    p: int,
    q: int,
    o: int,
)
    requires
        constraints.wf(),
        constraints.spec_symmetric(),
        0 <= p < constraints.spec_num(),
        0 <= q < constraints.spec_num(),
        0 <= o < constraints.spec_num_offsets(),
    ensures
        constraints.spec_row(p, o).contains(q as u32) <==> constraints.spec_row(
            q,
            constraints.spec_opp(o),
        ).contains(p as u32),
{
}

/// The count of anchors assigned to one pattern never exceeds the number
/// of anchors considered.
proof fn lemma_count_assigned_le(pa: Seq<PatternId>, id: int, k: int)
    requires
        k >= 0,
    ensures
        0 <= count_assigned(pa, id, k) <= k,
    decreases k,
{
    if k > 0 {
        lemma_count_assigned_le(pa, id, k - 1);
    }
}

/// A pattern assigned to some anchor below `k` is counted at least once.
proof fn lemma_count_assigned_pos(pa: Seq<PatternId>, id: int, k: int, at: int)
    requires
        0 <= at < k,
        pa[at].0 as int == id,
    ensures
        count_assigned(pa, id, k) >= 1,
    decreases k,
{
    lemma_count_assigned_le(pa, id, k - 1);
    if at < k - 1 {
        lemma_count_assigned_pos(pa, id, k - 1, at);
    }
}

/// Summing the per-pattern counts over all patterns gives the number of
/// anchors.
proof fn lemma_total_weight(pa: Seq<PatternId>, w: Seq<u32>, num: int, vol: int)
    requires
        0 <= num <= MAX_PATTERNS,
        0 <= vol <= 0x40000000,
        vol <= pa.len(),
        w.len() == num,
        forall|i: int| 0 <= i < vol ==> ((#[trigger] pa[i]).0 as int) < num,
        forall|id: int| 0 <= id < num ==> #[trigger] w[id] == count_assigned(pa, id, vol),
    ensures
        set_weight_sum(all_patterns_below(num), w, num) == vol,
    decreases vol,
{
    if vol == 0 {
        lemma_weight_sum_zero_counts(pa, w, num, num);
    } else {
        let w0 = Seq::new(w.len() as nat, |id: int| (count_assigned(pa, id, vol - 1)) as u32);
        assert forall|id: int| 0 <= id < num implies #[trigger] w0[id] == count_assigned(
            pa,
            id,
            vol - 1,
        ) by {
            lemma_count_assigned_le(pa, id, vol - 1);
            lemma_count_assigned_le(pa, id, vol);
        }
        lemma_total_weight(pa, w0, num, vol - 1);
        let last = pa[vol - 1].0 as int;
        lemma_weight_sum_one_step(w0, w, num, num, last);
    }
}

/// Two weight tables that differ by one at a single index have sums that
/// differ by one.
proof fn lemma_weight_sum_one_step(w0: Seq<u32>, w1: Seq<u32>, num: int, n: int, at: int)
    requires
        0 <= at < num,
        0 <= n <= num,
        forall|id: int| 0 <= id < num && id != at ==> #[trigger] w1[id] == w0[id],
        w1[at] == w0[at] + 1,
    ensures
        set_weight_sum(all_patterns_below(num), w1, n) == set_weight_sum(
            all_patterns_below(num),
            w0,
            n,
        ) + if at < n {
            1int
        } else {
            0int
        },
    decreases n,
{
    if n > 0 {
        lemma_weight_sum_one_step(w0, w1, num, n - 1, at);
    }
}

/// A table of all-zero counts sums to zero.
proof fn lemma_weight_sum_zero_counts(pa: Seq<PatternId>, w: Seq<u32>, num: int, n: int)
    requires
        0 <= n <= num,
        forall|id: int| 0 <= id < num ==> #[trigger] w[id] == count_assigned(pa, id, 0),
    ensures
        set_weight_sum(all_patterns_below(num), w, n) == 0,
    decreases n,
{
    if n > 0 {
        lemma_weight_sum_zero_counts(pa, w, num, n - 1);
    }
}

/// Assemble the extraction contract from the facts the two passes
/// establish: rows are never empty, and the identifier assignment is
/// faithful to the serialised pattern contents.
proof fn lemma_extraction_finish(
    input: &Lattice<u32>,
    pgrid: Extent,
    tile_size: Point,
    psize: Point,
    ogv: Seq<Point>,
    pa: Seq<PatternId>,
    rep: Seq<int>,
    keys: Seq<Vec<u32>>,
    sampler: &PatternSampler,
    constraints: &PatternConstraints,
    tiles: &PatternTileSet,
)
    requires
        constraints.wf(),
        pa.len() == pgrid.spec_volume(),
        keys.len() == constraints.spec_num(),
        rep.len() == constraints.spec_num(),
        constraints.spec_num_offsets() == ogv.len(),
        forall|i: int| 0 <= i < pa.len() ==> ((#[trigger] pa[i]).0 as int) < constraints.spec_num(),
        forall|i: int|
            0 <= i < pa.len() ==> keys[(#[trigger] pa[i]).0 as int]@ == spec_anchor_cells(
                input,
                pgrid,
                i,
                tile_size,
                psize,
            ),
        forall|j1: int, j2: int|
            0 <= j1 < j2 < keys.len() ==> (#[trigger] keys[j1])@ != (#[trigger] keys[j2])@,
        forall|id: int|
            0 <= id < constraints.spec_num() ==> 0 <= #[trigger] rep[id] < pa.len()
                && pa[rep[id]].0 as int == id,
        forall|i: int, o: int|
            0 <= i < pa.len() && 0 <= o < ogv.len() ==> #[trigger] constraints.spec_row(
                pa[i].0 as int,
                o,
            ).contains(pa[spec_neighbor_anchor(pgrid, i, ogv, o)].0 as u32),
        forall|id: int|
            0 <= id < constraints.spec_num() ==> #[trigger] sampler.spec_weights()[id]
                == count_assigned(pa, id, pa.len() as int),
        forall|id: int|
            0 <= id < constraints.spec_num() ==> (#[trigger] tiles.tiles.view()[id]).wf()
                && tiles.tiles.view()[id].spec_extent() == (Extent {
                min: Point { x: 0, y: 0, z: 0 },
                lsup: tile_size,
            }) && tiles.tiles.view()[id].view() == spec_subgrid_cells(
                input,
                pgrid.spec_point_of(rep[id]).times_spec(tile_size),
                tile_size,
            ),
    ensures
        constraints.spec_nonempty_rows(),
        spec_extraction_assignment(
            input,
            pgrid,
            tile_size,
            psize,
            ogv,
            pa,
            rep,
            sampler,
            constraints,
            tiles,
        ),
{
    assert forall|p: int, o: int|
        0 <= p < constraints.spec_num() && 0 <= o < constraints.spec_num_offsets() implies
        #[trigger] constraints.spec_row(p, o).contains(
        pa[spec_neighbor_anchor(pgrid, rep[p], ogv, o)].0 as u32,
    ) by {
        let r = rep[p];
        assert(pa[r].0 as int == p);
        assert(constraints.spec_row(pa[r].0 as int, o).contains(
            pa[spec_neighbor_anchor(pgrid, r, ogv, o)].0 as u32,
        ));
    }
    assert forall|p: int, o: int|
        0 <= p < constraints.spec_num() && 0 <= o < constraints.spec_num_offsets() implies (
    #[trigger] constraints.spec_row(p, o)).len() > 0 by {
        let s = constraints.spec_row(p, o);
        if s.len() == 0 {
            s.lemma_len0_is_empty();
            assert(!s.contains(pa[spec_neighbor_anchor(pgrid, rep[p], ogv, o)].0 as u32));
        }
    }
    assert(constraints.spec_nonempty_rows());
    assert forall|i1: int, i2: int|
        0 <= i1 < pa.len() && 0 <= i2 < pa.len() implies ((#[trigger] pa[i1]) == (
    #[trigger] pa[i2]) <==> spec_anchor_cells(input, pgrid, i1, tile_size, psize)
        == spec_anchor_cells(input, pgrid, i2, tile_size, psize)) by {
        let id1 = pa[i1].0 as int;
        let id2 = pa[i2].0 as int;
        assert(keys[id1]@ == spec_anchor_cells(input, pgrid, i1, tile_size, psize));
        assert(keys[id2]@ == spec_anchor_cells(input, pgrid, i2, tile_size, psize));
        if id1 != id2 {
            if id1 < id2 {
                assert(keys[id1]@ != keys[id2]@);
            } else {
                assert(keys[id2]@ != keys[id1]@);
            }
        }
    }
}

} // verus!
