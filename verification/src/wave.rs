//! The wave: per-cell sets of still-possible patterns, the cached entropy
//! of each cell, and the support counters that make the detection of
//! newly impossible patterns constant-time.

use crate::entropy::{
    entropy_from, lemma_set_table_sum_nonneg, lemma_set_table_sum_remove,
    lemma_set_weight_sum_member, lemma_set_weight_sum_nonneg, lemma_set_weight_sum_remove,
    lemma_set_weight_sum_subset, set_table_sum, set_weight_sum, spec_entropy_from,
    SlotEntropyCache, ENTROPY_INF, LOG2_SCALE,
};
use crate::lattice::{Extent, Lattice, Point};
use crate::offset::OffsetId;
use crate::pattern::{
    all_patterns_below, PatternConstraints, PatternId, PatternMap, PatternSampler, PatternSet,
    PatternSupport,
};
use crate::rng::rng_next_u32;
use crate::static_vec::StaticVec;
use vstd::prelude::*;

verus! {

/// Linear index of a cell in the wave.
#[derive(Clone, Copy, Debug, PartialEq, Eq, Structural)]
pub struct SlotId(pub usize);

/// A cell is collapsed once its cached entropy is the sentinel.
pub open spec fn spec_marked(cache: SlotEntropyCache) -> bool {
    cache.entropy == ENTROPY_INF
}

/// Number of collapsed cells below `k`.
pub open spec fn spec_marked_count(s: Seq<SlotEntropyCache>, k: int) -> int
    decreases k,
{
    if k <= 0 {
        0
    } else {
        spec_marked_count(s, k - 1) + if spec_marked(s[k - 1]) {
            1int
        } else {
            0int
        }
    }
}

pub proof fn lemma_marked_count_bounds(s: Seq<SlotEntropyCache>, k: int)
    ensures
        0 <= spec_marked_count(s, k) <= if k <= 0 {
            0int
        } else {
            k
        },
    decreases k,
{
    if k > 0 {
        lemma_marked_count_bounds(s, k - 1);
    }
}

/// Updating one cell changes the count by the difference at that cell.
pub proof fn lemma_marked_count_update(
    s: Seq<SlotEntropyCache>,
    i: int,
    v: SlotEntropyCache,
    k: int,
)
    requires
        0 <= i < s.len(),
        k <= s.len(),
    ensures
        spec_marked_count(s.update(i, v), k) == spec_marked_count(s, k) + if i < k {
            (if spec_marked(v) {
                1int
            } else {
                0int
            }) - (if spec_marked(s[i]) {
                1int
            } else {
                0int
            })
        } else {
            0int
        },
    decreases k,
{
    if k > 0 {
        lemma_marked_count_update(s, i, v, k - 1);
    }
}

/// If fewer cells are collapsed than exist, some cell is uncollapsed.
pub proof fn lemma_find_unmarked(s: Seq<SlotEntropyCache>, k: int) -> (i: int)
    requires
        spec_marked_count(s, k) < k,
    ensures
        0 <= i < k,
        !spec_marked(s[i]),
    decreases k,
{
    lemma_marked_count_bounds(s, k - 1);
    if spec_marked(s[k - 1]) {
        lemma_find_unmarked(s, k - 1)
    } else {
        k - 1
    }
}

/// If as many cells are collapsed as exist, every cell is collapsed.
pub proof fn lemma_all_marked(s: Seq<SlotEntropyCache>, k: int, i: int)
    requires
        spec_marked_count(s, k) == k,
        0 <= i < k,
    ensures
        spec_marked(s[i]),
    decreases k,
{
    lemma_marked_count_bounds(s, k - 1);
    if i < k - 1 {
        lemma_all_marked(s, k - 1, i);
    }
}

/// Total number of possible patterns over the cells below `k`.
pub open spec fn spec_sizes_sum(s: Seq<PatternSet>, k: int) -> int
    decreases k,
{
    if k <= 0 {
        0
    } else {
        spec_sizes_sum(s, k - 1) + s[k - 1].spec_len()
    }
}

pub proof fn lemma_sizes_sum_update(s: Seq<PatternSet>, i: int, v: PatternSet, k: int)
    requires
        0 <= i < s.len(),
        k <= s.len(),
    ensures
        spec_sizes_sum(s.update(i, v), k) == spec_sizes_sum(s, k) + if i < k {
            v.spec_len() - s[i].spec_len()
        } else {
            0int
        },
    decreases k,
{
    if k > 0 {
        lemma_sizes_sum_update(s, i, v, k - 1);
    }
}

pub proof fn lemma_sizes_sum_nonneg(s: Seq<PatternSet>, k: int)
    requires
        forall|i: int| 0 <= i < k ==> (#[trigger] s[i]).spec_len() >= 0,
    ensures
        spec_sizes_sum(s, k) >= 0,
    decreases k,
{
    if k > 0 {
        lemma_sizes_sum_nonneg(s, k - 1);
    }
}

/// The colloquial "wave function" to be collapsed: for each output cell,
/// the set of patterns that may still stand there, with the caches that
/// make the collapse loop fast.
pub struct Wave {
    /// Number of cells that have collapsed to at most one pattern.
    collapsed_count: usize,
    /// The set of possible patterns at each cell.
    slots: Lattice<PatternSet>,
    /// The cached entropy of each cell.
    entropy_cache: Lattice<SlotEntropyCache>,
    /// For each cell, pattern and offset: how many patterns in the
    /// neighboring cell still support the pattern here.
    pattern_supports: Lattice<PatternMap<PatternSupport>>,
    /// Cell/pattern pairs whose removal has not been propagated yet.
    removal_stack: Vec<(SlotId, PatternId)>,
}

impl Wave {
    pub closed spec fn spec_slots(&self) -> Seq<PatternSet> {
        self.slots.view()
    }

    pub closed spec fn spec_extent(&self) -> Extent {
        self.slots.spec_extent()
    }

    pub closed spec fn spec_caches(&self) -> Seq<SlotEntropyCache> {
        self.entropy_cache.view()
    }

    pub closed spec fn spec_supports(&self) -> Seq<PatternMap<PatternSupport>> {
        self.pattern_supports.view()
    }

    pub closed spec fn spec_stack(&self) -> Seq<(SlotId, PatternId)> {
        self.removal_stack@
    }

    pub closed spec fn spec_collapsed(&self) -> int {
        self.collapsed_count as int
    }

    /// The grids are well formed and share one extent.
    pub closed spec fn spec_grids_wf(&self) -> bool {
        &&& self.slots.wf()
        &&& self.entropy_cache.wf()
        &&& self.pattern_supports.wf()
        &&& self.entropy_cache.spec_extent() == self.slots.spec_extent()
        &&& self.pattern_supports.spec_extent() == self.slots.spec_extent()
    }

    /// The support count of `pattern` at `offset` in cell `c`.
    pub open spec fn spec_support_at(&self, c: int, p: int, o: int) -> int {
        self.spec_supports()[c].view()[p].view()[o] as int
    }

    /// The whole invariant of the wave, relative to the immutable tables.
    pub open spec fn wf(&self, sampler: &PatternSampler, constraints: &PatternConstraints) -> bool {
        &&& self.wf_base(sampler, constraints)
        &&& self.spec_supports_ok(constraints.spec_num(), constraints.spec_num_offsets())
    }

    /// The initial entropy cache of a cell where `possible_patterns` are
    /// all still possible.
    fn slot_entropy(sampler: &PatternSampler, possible_patterns: &PatternSet) -> (r:
        SlotEntropyCache)
        requires
            sampler.wf(),
            possible_patterns.wf(),
            possible_patterns.spec_universe() <= sampler.spec_num_patterns(),
            possible_patterns.view().len() >= 1,
        ensures
            r.sum_weights == set_weight_sum(
                possible_patterns.view(),
                sampler.spec_weights(),
                sampler.spec_num_patterns(),
            ),
            r.sum_weights_log_weights == set_table_sum(
                possible_patterns.view(),
                sampler.spec_wlw(),
                sampler.spec_num_patterns(),
            ),
            r.entropy < 32 * LOG2_SCALE,
            (r.entropy as int) == spec_entropy_from(r.sum_weights, r.sum_weights_log_weights),
    {
        let ghost s = possible_patterns.view();
        let ghost w = sampler.spec_weights();
        let ghost t = sampler.spec_wlw();
        let n = sampler.num_patterns();
        let mut sum_weights: u64 = 0;
        let mut sum_weights_log_weights: u64 = 0;
        let mut p: u16 = 0;
        while p < n
            invariant
                p <= n,
                sampler.wf(),
                possible_patterns.wf(),
                possible_patterns.spec_universe() <= n as int,
                n == sampler.spec_num_patterns(),
                s == possible_patterns.view(),
                w == sampler.spec_weights(),
                t == sampler.spec_wlw(),
                sum_weights == set_weight_sum(s, w, p as int),
                sum_weights_log_weights == set_table_sum(s, t, p as int),
            decreases n - p,
        {
            if possible_patterns.contains(PatternId(p)) {
                let weight = sampler.get_weight(PatternId(p));
                let wlw = sampler.get_weight_log_weight(PatternId(p));
                proof {
                    lemma_cell_sums_bounded(s, w, t, sampler, p as int + 1);
                }
                sum_weights = sum_weights + weight as u64;
                sum_weights_log_weights = sum_weights_log_weights + wlw;
            }
            p = p + 1;
        }
        proof {
            let witness = s.choose();
            assert(s.contains(witness));
            lemma_set_weight_sum_member(s, w, n as int, witness);
            lemma_cell_sums_bounded(s, w, t, sampler, n as int);
        }
        let entropy = entropy_from(sum_weights, sum_weights_log_weights);
        SlotEntropyCache { sum_weights, sum_weights_log_weights, entropy }
    }

    pub fn new(
        pattern_sampler: &PatternSampler,
        pattern_constraints: &PatternConstraints,
        output_size: Point,
    ) -> (r: Wave)
        requires
            pattern_sampler.wf(),
            pattern_constraints.wf(),
            pattern_constraints.spec_nonempty_rows(),
            pattern_sampler.spec_num_patterns() == pattern_constraints.spec_num(),
            pattern_constraints.spec_num() >= 1,
            output_size.is_size(),
        ensures
            r.wf(pattern_sampler, pattern_constraints),
            r.spec_collapsed() == 0,
            r.spec_stack().len() == 0,
            r.spec_extent() == (Extent { min: Point { x: 0, y: 0, z: 0 }, lsup: output_size }),
            forall|c: int|
                0 <= c < r.spec_extent().spec_volume() ==> (#[trigger] r.spec_slots()[c]).view()
                    == all_patterns_below(pattern_constraints.spec_num()),
            forall|c: int, p: int, o: int|
                0 <= c < r.spec_extent().spec_volume() && 0 <= p < pattern_constraints.spec_num()
                    && 0 <= o < pattern_constraints.spec_num_offsets()
                    ==> #[trigger] r.spec_support_at(c, p, o) == pattern_constraints.spec_row(
                    p,
                    pattern_constraints.spec_opp(o),
                ).len(),
            forall|c: int|
                0 <= c < r.spec_extent().spec_volume() ==> !spec_marked(
                    #[trigger] r.spec_caches()[c],
                ) && r.spec_caches()[c].sum_weights == set_weight_sum(
                    all_patterns_below(pattern_constraints.spec_num()),
                    pattern_sampler.spec_weights(),
                    pattern_constraints.spec_num(),
                ) && r.spec_caches()[c].sum_weights_log_weights == set_table_sum(
                    all_patterns_below(pattern_constraints.spec_num()),
                    pattern_sampler.spec_wlw(),
                    pattern_constraints.spec_num(),
                ),
    {
        let num_patterns = pattern_constraints.num_patterns();
        let extent = Extent::from_min_and_local_supremum(Point { x: 0, y: 0, z: 0 }, output_size);
        let volume = extent.volume();

        // Every cell starts with every pattern possible.
        let mut slot_cells: Vec<PatternSet> = Vec::new();
        let mut k: usize = 0;
        while k < volume
            invariant
                k <= volume,
                1 <= num_patterns <= 0x7fff,
                num_patterns == pattern_constraints.spec_num(),
                slot_cells@.len() == k,
                forall|c: int|
                    0 <= c < k ==> (#[trigger] slot_cells@[c]).wf() && slot_cells@[c].view()
                        == all_patterns_below(num_patterns as int) && slot_cells@[
                        c
                    ].spec_universe() == num_patterns && slot_cells@[c].spec_len() == num_patterns,
            decreases volume - k,
        {
            slot_cells.push(PatternSet::all(num_patterns));
            k = k + 1;
        }
        let slots = Lattice::from_vec(extent, slot_cells);

        // All cells share the same initial entropy.
        let all_possible = PatternSet::all(num_patterns);
        let initial_entropy = Wave::slot_entropy(pattern_sampler, &all_possible);
        let entropy_cache = Lattice::fill(extent, initial_entropy);

        // All cells share the same initial support counts.
        let mut support_cells: Vec<PatternMap<PatternSupport>> = Vec::new();
        let mut k2: usize = 0;
        while k2 < volume
            invariant
                k2 <= volume,
                pattern_constraints.wf(),
                num_patterns == pattern_constraints.spec_num(),
                support_cells@.len() == k2,
                forall|c: int|
                    0 <= c < k2 ==> (#[trigger] support_cells@[c]).view().len()
                        == pattern_constraints.spec_num(),
                forall|c: int, p: int|
                    0 <= c < k2 && 0 <= p < pattern_constraints.spec_num() ==> (
                    #[trigger] support_cells@[c].view()[p]).view().len()
                        == pattern_constraints.spec_num_offsets(),
                forall|c: int, p: int, o: int|
                    0 <= c < k2 && 0 <= p < pattern_constraints.spec_num() && 0 <= o
                        < pattern_constraints.spec_num_offsets() ==> (
                    #[trigger] support_cells@[c].view()[p].view()[o]) as int
                        == pattern_constraints.spec_row(
                        p,
                        pattern_constraints.spec_opp(o),
                    ).len(),
            decreases volume - k2,
        {
            support_cells.push(pattern_constraints.get_initial_support());
            k2 = k2 + 1;
        }
        let pattern_supports = Lattice::from_vec(extent, support_cells);

        let r = Wave {
            slots,
            collapsed_count: 0,
            entropy_cache,
            pattern_supports,
            removal_stack: Vec::new(),
        };
        proof {
            lemma_marked_count_all_unmarked(r.spec_caches(), volume as int);
        }
        r
    }

    pub fn num_slots(&self) -> (r: usize)
        requires
            self.spec_grids_wf(),
        ensures
            r == self.spec_extent().spec_volume(),
    {
        self.slots.get_extent().volume()
    }

    pub fn num_collapsed(&self) -> (r: usize)
        ensures
            r == self.spec_collapsed(),
    {
        self.collapsed_count
    }

    /// Is every cell collapsed?
    pub fn determined(&self) -> (r: bool)
        requires
            self.spec_grids_wf(),
        ensures
            r == (self.spec_collapsed() == self.spec_extent().spec_volume()),
    {
        self.collapsed_count == self.num_slots()
    }

    pub fn get_slots(&self) -> (r: &Lattice<PatternSet>)
        ensures
            r.view() == self.spec_slots(),
            r.spec_extent() == self.spec_extent(),
            self.spec_grids_wf() ==> r.wf(),
    {
        &self.slots
    }

    fn get_slot(&self, slot: &Point) -> (r: &PatternSet)
        requires
            self.spec_grids_wf(),
            self.spec_extent().spec_contains_local(*slot),
        ensures
            *r == self.spec_slots()[self.spec_extent().spec_index_of(*slot)],
    {
        self.slots.get_local(slot)
    }

    /// The support count of `pattern` at `offset` in the cell at `slot`.
    pub fn support_count(&self, slot: &Point, pattern: PatternId, offset: OffsetId) -> (r: i16)
        requires
            self.spec_grids_wf(),
            self.spec_extent().spec_contains_local(*slot),
            (pattern.0 as int) < self.spec_supports()[self.spec_extent().spec_index_of(
                *slot,
            )].view().len(),
            (offset.0 as int) < self.spec_supports()[self.spec_extent().spec_index_of(
                *slot,
            )].view()[pattern.0 as int].view().len(),
        ensures
            r as int == self.spec_support_at(
                self.spec_extent().spec_index_of(*slot),
                pattern.0 as int,
                offset.0 as int,
            ),
    {
        proof {
            self.spec_extent().lemma_index_bounds(*slot);
        }
        self.pattern_supports.get_local(slot).get(pattern).count_at(offset)
    }

    /// Mark a cell as collapsed so the selection heuristic never picks
    /// it again.
    fn set_max_entropy(&mut self, slot: &Point)
        requires
            old(self).spec_grids_wf(),
            old(self).spec_extent().spec_contains_local(*slot),
        ensures
            final(self).spec_slots() == old(self).spec_slots(),
            final(self).spec_extent() == old(self).spec_extent(),
            final(self).spec_supports() == old(self).spec_supports(),
            final(self).spec_stack() == old(self).spec_stack(),
            final(self).spec_collapsed() == old(self).spec_collapsed(),
            final(self).spec_grids_wf(),
            final(self).spec_caches() == old(self).spec_caches().update(
                old(self).spec_extent().spec_index_of(*slot),
                (SlotEntropyCache {
                    sum_weights: ENTROPY_INF,
                    sum_weights_log_weights: ENTROPY_INF,
                    entropy: ENTROPY_INF,
                }),
            ),
    {
        let inf = SlotEntropyCache {
            sum_weights: ENTROPY_INF,
            sum_weights_log_weights: ENTROPY_INF,
            entropy: ENTROPY_INF,
        };
        self.entropy_cache.set_local(slot, inf);
    }
}

impl Wave {
    /// The support invariants: a possible pattern is supported at every
    /// offset, an impossible one supports nothing.
    pub open spec fn spec_supports_ok(&self, n: int, no: int) -> bool {
        let vol = self.spec_extent().spec_volume();
        &&& forall|c: int, p: int, o: int|
            0 <= c < vol && 0 <= p < n && 0 <= o < no && self.spec_slots()[c].view().contains(
                p as u32,
            ) ==> #[trigger] self.spec_support_at(c, p, o) >= 1
        &&& forall|c: int, p: int, o: int|
            0 <= c < vol && 0 <= p < n && 0 <= o < no && !self.spec_slots()[c].view().contains(
                p as u32,
            ) ==> #[trigger] self.spec_support_at(c, p, o) <= 0
    }

    /// The support invariants everywhere except for one cell/pattern
    /// pair, whose counts may be stale while its removal is in progress.
    pub open spec fn spec_supports_ok_except(&self, n: int, no: int, ce: int, pe: int) -> bool {
        let vol = self.spec_extent().spec_volume();
        &&& forall|c: int, p: int, o: int|
            0 <= c < vol && 0 <= p < n && 0 <= o < no && !(c == ce && p == pe)
                && self.spec_slots()[c].view().contains(p as u32)
                ==> #[trigger] self.spec_support_at(c, p, o) >= 1
        &&& forall|c: int, p: int, o: int|
            0 <= c < vol && 0 <= p < n && 0 <= o < no && !(c == ce && p == pe)
                && !self.spec_slots()[c].view().contains(p as u32)
                ==> #[trigger] self.spec_support_at(c, p, o) <= 0
    }

    /// Everything `wf` states apart from the support invariants.
    pub open spec fn wf_base(
        &self,
        sampler: &PatternSampler,
        constraints: &PatternConstraints,
    ) -> bool {
        let n = constraints.spec_num();
        let no = constraints.spec_num_offsets();
        let vol = self.spec_extent().spec_volume();
        &&& sampler.wf()
        &&& constraints.wf()
        &&& sampler.spec_num_patterns() == n
        &&& 1 <= n
        &&& self.spec_grids_wf()
        &&& 0 <= self.spec_collapsed() <= vol
        &&& self.spec_collapsed() == spec_marked_count(self.spec_caches(), vol)
        &&& forall|k: int|
            0 <= k < self.spec_stack().len() ==> ((#[trigger] self.spec_stack()[k]).0.0 as int)
                < vol && (self.spec_stack()[k].1.0 as int) < n
        &&& forall|c: int|
            0 <= c < vol ==> (#[trigger] self.spec_slots()[c]).wf() && self.spec_slots()[
                c
            ].spec_universe() == n && self.spec_slots()[c].spec_len() >= 1
        &&& forall|c: int|
            0 <= c < vol ==> (#[trigger] self.spec_supports()[c]).view().len() == n
        &&& forall|c: int, p: int|
            0 <= c < vol && 0 <= p < n ==> (#[trigger] self.spec_supports()[c].view()[
                p
            ]).view().len() == no
        &&& forall|c: int|
            0 <= c < vol && spec_marked(#[trigger] self.spec_caches()[c]) ==> self.spec_slots()[
                c
            ].spec_len() <= 1
        &&& forall|c: int|
            0 <= c < vol && n >= 2 && !spec_marked(#[trigger] self.spec_caches()[c])
                ==> self.spec_slots()[c].spec_len() >= 2
        &&& forall|c: int|
            0 <= c < vol && !spec_marked(#[trigger] self.spec_caches()[c]) ==> {
                &&& self.spec_caches()[c].sum_weights == set_weight_sum(
                    self.spec_slots()[c].view(),
                    sampler.spec_weights(),
                    n,
                )
                &&& self.spec_caches()[c].sum_weights_log_weights == set_table_sum(
                    self.spec_slots()[c].view(),
                    sampler.spec_wlw(),
                    n,
                )
                &&& self.spec_caches()[c].entropy < 32 * LOG2_SCALE
                &&& (self.spec_caches()[c].entropy as int) == spec_entropy_from(
                    self.spec_caches()[c].sum_weights,
                    self.spec_caches()[c].sum_weights_log_weights,
                )
            }
    }

    /// Incrementally update the entropy cache of a cell that has just
    /// lost `remove_pattern`, whose weight is still included in the
    /// cached sums.
    fn reduce_entropy(&mut self, pattern_sampler: &PatternSampler, slot: &Point, remove_pattern:
        PatternId)
        requires
            old(self).spec_grids_wf(),
            pattern_sampler.wf(),
            old(self).spec_extent().spec_contains_local(*slot),
            ({
                let c = old(self).spec_extent().spec_index_of(*slot);
                let s = old(self).spec_slots()[c].view();
                let n = pattern_sampler.spec_num_patterns();
                &&& s.finite()
                &&& s.len() >= 1
                &&& (forall|x: u32| s.contains(x) ==> (x as int) < n)
                &&& (remove_pattern.0 as int) < n
                &&& old(self).spec_caches()[c].sum_weights == set_weight_sum(
                    s,
                    pattern_sampler.spec_weights(),
                    n,
                ) + pattern_sampler.spec_weights()[remove_pattern.0 as int]
                &&& old(self).spec_caches()[c].sum_weights_log_weights == set_table_sum(
                    s,
                    pattern_sampler.spec_wlw(),
                    n,
                ) + pattern_sampler.spec_wlw()[remove_pattern.0 as int]
            }),
        ensures
            final(self).spec_grids_wf(),
            final(self).spec_extent() == old(self).spec_extent(),
            final(self).spec_slots() == old(self).spec_slots(),
            final(self).spec_supports() == old(self).spec_supports(),
            final(self).spec_stack() == old(self).spec_stack(),
            final(self).spec_collapsed() == old(self).spec_collapsed(),
            ({
                let c = old(self).spec_extent().spec_index_of(*slot);
                let s = old(self).spec_slots()[c].view();
                let n = pattern_sampler.spec_num_patterns();
                &&& final(self).spec_caches() == old(self).spec_caches().update(
                    c,
                    final(self).spec_caches()[c],
                )
                &&& final(self).spec_caches()[c].sum_weights == set_weight_sum(
                    s,
                    pattern_sampler.spec_weights(),
                    n,
                )
                &&& final(self).spec_caches()[c].sum_weights_log_weights == set_table_sum(
                    s,
                    pattern_sampler.spec_wlw(),
                    n,
                )
                &&& final(self).spec_caches()[c].entropy < 32 * LOG2_SCALE
                &&& (final(self).spec_caches()[c].entropy as int) == spec_entropy_from(
                    final(self).spec_caches()[c].sum_weights,
                    final(self).spec_caches()[c].sum_weights_log_weights,
                )
            }),
    {
        let ghost c = self.spec_extent().spec_index_of(*slot);
        let ghost s = self.spec_slots()[c].view();
        let ghost n = pattern_sampler.spec_num_patterns();
        proof {
            self.spec_extent().lemma_index_bounds(*slot);
        }
        let weight = pattern_sampler.get_weight(remove_pattern);
        let wlw = pattern_sampler.get_weight_log_weight(remove_pattern);
        proof {
            lemma_set_weight_sum_nonneg(s, pattern_sampler.spec_weights(), n);
            lemma_set_table_sum_nonneg(s, pattern_sampler.spec_wlw(), n);
            let witness = s.choose();
            assert(s.contains(witness));
            lemma_set_weight_sum_member(s, pattern_sampler.spec_weights(), n, witness);
            lemma_cell_sums_bounded(
                s,
                pattern_sampler.spec_weights(),
                pattern_sampler.spec_wlw(),
                pattern_sampler,
                n,
            );
        }
        let old_cache = *self.entropy_cache.get_local(slot);
        let new_sum_weights = old_cache.sum_weights - weight as u64;
        let new_sum_wlw = old_cache.sum_weights_log_weights - wlw;
        let new_entropy = entropy_from(new_sum_weights, new_sum_wlw);
        self.entropy_cache.set_local(
            slot,
            SlotEntropyCache {
                sum_weights: new_sum_weights,
                sum_weights_log_weights: new_sum_wlw,
                entropy: new_entropy,
            },
        );
    }

    /// Drop one unit of support; `true` means the pattern has just run
    /// out of support at this offset and must be removed from the cell.
    fn remove_support(&mut self, slot: &Point, pattern: PatternId, offset: OffsetId) -> (r: bool)
        requires
            old(self).spec_grids_wf(),
            old(self).spec_extent().spec_contains_local(*slot),
            ({
                let c = old(self).spec_extent().spec_index_of(*slot);
                &&& (pattern.0 as int) < old(self).spec_supports()[c].view().len()
                &&& (offset.0 as int) < old(self).spec_supports()[c].view()[
                    pattern.0 as int
                ].view().len()
            }),
        ensures
            final(self).spec_grids_wf(),
            final(self).spec_extent() == old(self).spec_extent(),
            final(self).spec_slots() == old(self).spec_slots(),
            final(self).spec_caches() == old(self).spec_caches(),
            final(self).spec_stack() == old(self).spec_stack(),
            final(self).spec_collapsed() == old(self).spec_collapsed(),
            ({
                let c = old(self).spec_extent().spec_index_of(*slot);
                let p = pattern.0 as int;
                let o = offset.0 as int;
                let prev = old(self).spec_support_at(c, p, o);
                &&& final(self).spec_supports() == old(self).spec_supports().update(
                    c,
                    final(self).spec_supports()[c],
                )
                &&& final(self).spec_supports()[c].view() == old(self).spec_supports()[
                    c
                ].view().update(p, final(self).spec_supports()[c].view()[p])
                &&& final(self).spec_supports()[c].view()[p].view() == old(
                    self,
                ).spec_supports()[c].view()[p].view().update(
                    o,
                    final(self).spec_supports()[c].view()[p].view()[o],
                )
                &&& final(self).spec_support_at(c, p, o) == (if prev > i16::MIN {
                    prev - 1
                } else {
                    prev
                })
                &&& r == (final(self).spec_support_at(c, p, o) == 0)
            }),
    {
        proof {
            self.spec_extent().lemma_index_bounds(*slot);
        }
        let cell = self.pattern_supports.get_mut_local(slot);
        let support = cell.get_mut(pattern);
        support.remove(offset)
    }
}

impl Wave {
    /// Remove `pattern` from the possibilities of `slot`, keep the
    /// entropy cache and the collapsed count in step, zero the pattern's
    /// own support, and log the removal for propagation.  Returns `true`
    /// iff the cell has just become empty — a contradiction, after which
    /// the wave must not be used further.
    fn remove_pattern(
        &mut self,
        pattern_sampler: &PatternSampler,
        pattern_constraints: &PatternConstraints,
        slot: &Point,
        pattern: PatternId,
    ) -> (empty: bool)
        requires
            old(self).wf_base(pattern_sampler, pattern_constraints),
            old(self).spec_supports_ok_except(
                pattern_constraints.spec_num(),
                pattern_constraints.spec_num_offsets(),
                old(self).spec_extent().spec_index_of(*slot),
                pattern.0 as int,
            ),
            old(self).spec_extent().spec_contains_local(*slot),
            (pattern.0 as int) < pattern_constraints.spec_num(),
            old(self).spec_slots()[old(self).spec_extent().spec_index_of(*slot)].view().contains(
                pattern.0 as u32,
            ),
        ensures
            ({
                let c = old(self).spec_extent().spec_index_of(*slot);
                let oldset = old(self).spec_slots()[c];
                &&& final(self).spec_extent() == old(self).spec_extent()
                &&& final(self).spec_slots() == old(self).spec_slots().update(
                    c,
                    final(self).spec_slots()[c],
                )
                &&& final(self).spec_slots()[c].view() == oldset.view().remove(pattern.0 as u32)
                &&& final(self).spec_slots()[c].spec_len() == oldset.spec_len() - 1
                &&& empty == (oldset.spec_len() == 1)
                &&& final(self).spec_collapsed() >= old(self).spec_collapsed()
                &&& (forall|c2: int|
                    0 <= c2 < old(self).spec_extent().spec_volume() && spec_marked(
                        #[trigger] old(self).spec_caches()[c2],
                    ) ==> spec_marked(final(self).spec_caches()[c2]))
                &&& !empty ==> {
                    &&& final(self).wf(pattern_sampler, pattern_constraints)
                    &&& final(self).spec_stack() == old(self).spec_stack().push(
                        (SlotId(c as usize), pattern),
                    )
                    &&& final(self).spec_collapsed() == old(self).spec_collapsed() + (if final(
                        self
                    ).spec_slots()[c].spec_len() == 1 {
                        1int
                    } else {
                        0int
                    })
                    &&& (final(self).spec_slots()[c].spec_len() == 1 ==> spec_marked(
                        final(self).spec_caches()[c],
                    ))
                    &&& (forall|c2: int|
                        0 <= c2 < old(self).spec_extent().spec_volume() && c2 != c
                            ==> final(self).spec_caches()[c2] == old(self).spec_caches()[c2])
                }
            }),
    {
        let ghost c = self.spec_extent().spec_index_of(*slot);
        let ghost pre = *self;
        let ghost n = pattern_constraints.spec_num();
        let ghost no = pattern_constraints.spec_num_offsets();
        let ghost vol = self.spec_extent().spec_volume();
        proof {
            self.spec_extent().lemma_index_bounds(*slot);
        }
        let possible_slot_patterns = self.slots.get_mut_local(slot);
        possible_slot_patterns.remove(pattern);
        let num_remaining_patterns_in_slot = possible_slot_patterns.len();
        let ghost mid = *self;
        proof {
            assert(mid.spec_caches() == pre.spec_caches());
            assert(mid.spec_slots()[c].view() == pre.spec_slots()[c].view().remove(
                pattern.0 as u32,
            ));
        }
        if num_remaining_patterns_in_slot == 0 {
            return true;
        }
        if num_remaining_patterns_in_slot == 1 {
            // Don't want to choose this slot again.
            self.set_max_entropy(slot);
            proof {
                lemma_marked_count_update(
                    mid.spec_caches(),
                    c,
                    self.spec_caches()[c],
                    vol,
                );
                lemma_marked_count_bounds(mid.spec_caches(), vol);
                pre.spec_extent().lemma_volume_bounds();
            }
            self.collapsed_count = self.collapsed_count + 1;
        } else {
            proof {
                let s = mid.spec_slots()[c].view();
                let w = pattern_sampler.spec_weights();
                let t = pattern_sampler.spec_wlw();
                // the cell was not collapsed, so its cache held the sums
                // of the set before removal
                assert(pre.spec_slots()[c].spec_len() >= 2);
                assert(!spec_marked(pre.spec_caches()[c]));
                lemma_set_weight_sum_remove(pre.spec_slots()[c].view(), w, n, pattern.0 as u32);
                lemma_set_table_sum_remove(pre.spec_slots()[c].view(), t, n, pattern.0 as u32);
            }
            self.reduce_entropy(pattern_sampler, slot, pattern);
            proof {
                lemma_marked_count_update(mid.spec_caches(), c, self.spec_caches()[c], vol);
                assert(!spec_marked(self.spec_caches()[c]));
                assert(self.spec_collapsed() == spec_marked_count(self.spec_caches(), vol));
            }
        }
        // Even though this pattern is being removed, it may still have
        // support at some offsets.  Clear it now so the removal cannot be
        // triggered a second time.
        proof {
            assert(self.spec_supports() == pre.spec_supports());
            assert(pre.spec_supports()[c].view().len() == n);
        }
        let supports_cell = self.pattern_supports.get_mut_local(slot);
        let support = supports_cell.get_mut(pattern);
        support.clear();
        proof {
            assert(self.spec_supports()[c].view()[pattern.0 as int].view().len() == no);
        }
        let extent = self.slots.get_extent();
        let index = extent.index_from_local_point(slot);
        self.removal_stack.push((SlotId(index), pattern));
        proof {
            lemma_marked_count_bounds(self.spec_caches(), vol);
            let fin = *self;
            assert(fin.spec_stack() == pre.spec_stack().push((SlotId(index), pattern)));
            assert forall|k: int|
                0 <= k < fin.spec_stack().len() implies ((#[trigger] fin.spec_stack()[k]).0.0 as int)
                < vol && (fin.spec_stack()[k].1.0 as int) < n by {
                if k < pre.spec_stack().len() {
                    assert(fin.spec_stack()[k] == pre.spec_stack()[k]);
                } else {
                    assert(fin.spec_stack()[k] == (SlotId(index), pattern));
                }
            }
            assert forall|c2: int, p2: int, o2: int|
                0 <= c2 < vol && 0 <= p2 < n && 0 <= o2 < no && fin.spec_slots()[
                    c2
                ].view().contains(p2 as u32) implies #[trigger] fin.spec_support_at(c2, p2, o2)
                >= 1 by {
                assert(pre.spec_slots()[c2].view().contains(p2 as u32) || (c2 == c && p2
                    != pattern.0 as int));
                if !(c2 == c && p2 == pattern.0 as int) {
                    assert(fin.spec_support_at(c2, p2, o2) == pre.spec_support_at(c2, p2, o2));
                }
            }
            assert forall|c2: int, p2: int, o2: int|
                0 <= c2 < vol && 0 <= p2 < n && 0 <= o2 < no && !fin.spec_slots()[
                    c2
                ].view().contains(p2 as u32) implies #[trigger] fin.spec_support_at(c2, p2, o2)
                <= 0 by {
                if c2 == c && p2 == pattern.0 as int {
                    assert(fin.spec_support_at(c2, p2, o2) == 0);
                } else {
                    assert(!pre.spec_slots()[c2].view().contains(p2 as u32));
                    assert(fin.spec_support_at(c2, p2, o2) == pre.spec_support_at(c2, p2, o2));
                }
            }
        }
        false
    }
}

impl Wave {
    /// Force `slot` to hold only `assign_pattern`, removing every other
    /// possibility one by one.
    fn collapse_slot(
        &mut self,
        pattern_sampler: &PatternSampler,
        pattern_constraints: &PatternConstraints,
        slot: &Point,
        assign_pattern: PatternId,
    )
        requires
            old(self).wf(pattern_sampler, pattern_constraints),
            old(self).spec_extent().spec_contains_local(*slot),
            (assign_pattern.0 as int) < pattern_constraints.spec_num(),
            old(self).spec_slots()[old(self).spec_extent().spec_index_of(*slot)].view().contains(
                assign_pattern.0 as u32,
            ),
        ensures
            final(self).wf(pattern_sampler, pattern_constraints),
            final(self).spec_extent() == old(self).spec_extent(),
            ({
                let c = old(self).spec_extent().spec_index_of(*slot);
                let olen = old(self).spec_slots()[c].spec_len();
                &&& final(self).spec_slots()[c].view() == Set::<u32>::empty().insert(
                    assign_pattern.0 as u32,
                )
                &&& (forall|c2: int|
                    0 <= c2 < old(self).spec_extent().spec_volume() && c2 != c ==> final(
                        self
                    ).spec_slots()[c2] == old(self).spec_slots()[c2])
                &&& final(self).spec_collapsed() == old(self).spec_collapsed() + (if olen >= 2 {
                    1int
                } else {
                    0int
                })
                &&& (spec_marked(final(self).spec_caches()[c]) <==> (spec_marked(
                    old(self).spec_caches()[c],
                ) || olen >= 2))
                &&& (forall|c2: int|
                    0 <= c2 < old(self).spec_extent().spec_volume() && c2 != c ==> final(
                        self
                    ).spec_caches()[c2] == old(self).spec_caches()[c2])
                &&& (olen == 1 ==> *final(self) == *old(self))
            }),
    {
        let ghost c = self.spec_extent().spec_index_of(*slot);
        let ghost pre = *self;
        let ghost n = pattern_constraints.spec_num();
        let ghost vol = self.spec_extent().spec_volume();
        let ghost origview = self.spec_slots()[c].view();
        let ghost olen = self.spec_slots()[c].spec_len();
        proof {
            self.spec_extent().lemma_index_bounds(*slot);
        }
        let remove_patterns: Vec<PatternId> = self.slots.get_local(slot).iter();
        let total = remove_patterns.len();
        let mut k: usize = 0;
        while k < total
            invariant
                k <= total,
                self.wf(pattern_sampler, pattern_constraints),
                self.spec_extent() == pre.spec_extent(),
                pre.spec_extent().spec_contains_local(*slot),
                c == pre.spec_extent().spec_index_of(*slot),
                0 <= c < vol,
                vol == pre.spec_extent().spec_volume(),
                n == pattern_constraints.spec_num(),
                (assign_pattern.0 as int) < n,
                origview == pre.spec_slots()[c].view(),
                olen == pre.spec_slots()[c].spec_len(),
                origview.finite(),
                olen == origview.len(),
                origview.contains(assign_pattern.0 as u32),
                spec_marked(pre.spec_caches()[c]) ==> olen <= 1,
                total == remove_patterns@.len(),
                total == origview.len(),
                forall|i: int, j: int|
                    0 <= i < j < total ==> remove_patterns@[i].0 < remove_patterns@[j].0,
                forall|i: int|
                    0 <= i < total ==> origview.contains((#[trigger] remove_patterns@[i]).0 as u32),
                forall|x: u32|
                    origview.contains(x) ==> exists|i: int|
                        0 <= i < total && (#[trigger] remove_patterns@[i]).0 as u32 == x,
                self.spec_slots()[c].view().contains(assign_pattern.0 as u32),
                forall|x: u32|
                    self.spec_slots()[c].view().contains(x) ==> origview.contains(x),
                forall|j: int|
                    0 <= j < k && (#[trigger] remove_patterns@[j]).0 != assign_pattern.0
                        ==> !self.spec_slots()[c].view().contains(remove_patterns@[j].0 as u32),
                forall|j: int|
                    k <= j < total ==> self.spec_slots()[c].view().contains(
                        (#[trigger] remove_patterns@[j]).0 as u32,
                    ),
                forall|c2: int|
                    0 <= c2 < vol && c2 != c ==> self.spec_slots()[c2] == pre.spec_slots()[c2],
                forall|c2: int|
                    0 <= c2 < vol && c2 != c ==> self.spec_caches()[c2] == pre.spec_caches()[c2],
                self.spec_collapsed() == pre.spec_collapsed() + (if self.spec_slots()[
                    c
                ].spec_len() == 1 && olen >= 2 {
                    1int
                } else {
                    0int
                }),
                (spec_marked(self.spec_caches()[c]) <==> (spec_marked(pre.spec_caches()[c]) || (
                self.spec_slots()[c].spec_len() == 1 && olen >= 2))),
                olen == 1 ==> *self == pre,
            decreases total - k,
        {
            let pid = remove_patterns[k];
            if pid.0 != assign_pattern.0 {
                proof {
                    // both `pid` and the assigned pattern are still in the
                    // set, so this removal cannot empty it
                    let cur = self.spec_slots()[c].view();
                    assert(cur.contains(pid.0 as u32));
                    assert(cur.remove(pid.0 as u32).contains(assign_pattern.0 as u32));
                    if cur.remove(pid.0 as u32).len() == 0 {
                        cur.remove(pid.0 as u32).lemma_len0_is_empty();
                        assert(false);
                    }
                    assert(self.spec_slots()[c].spec_len() >= 2);
                    // the original set held at least these two patterns
                    assert(origview.remove(pid.0 as u32).contains(assign_pattern.0 as u32));
                    if origview.remove(pid.0 as u32).len() == 0 {
                        origview.remove(pid.0 as u32).lemma_len0_is_empty();
                        assert(false);
                    }
                    assert(olen >= 2);
                    // a cell with two possibilities is not collapsed
                    assert(!spec_marked(self.spec_caches()[c]));
                }
                let ghost before_removal = *self;
                let slot_empty = self.remove_pattern(
                    pattern_sampler,
                    pattern_constraints,
                    slot,
                    pid,
                );
                proof {
                    assert(!slot_empty);
                    if self.spec_slots()[c].spec_len() >= 2 {
                        assert(!spec_marked(self.spec_caches()[c]));
                    }
                }
            }
            k = k + 1;
        }
        proof {
            assert forall|x: u32|
                self.spec_slots()[c].view().contains(x) implies x == assign_pattern.0 as u32 by {
                assert(origview.contains(x));
                let i = choose|i: int|
                    0 <= i < total && (#[trigger] remove_patterns@[i]).0 as u32 == x;
                if remove_patterns@[i].0 != assign_pattern.0 {
                    assert(!self.spec_slots()[c].view().contains(
                        remove_patterns@[i].0 as u32,
                    ));
                    assert(false);
                }
            }
            assert(self.spec_slots()[c].view() =~= Set::<u32>::empty().insert(
                assign_pattern.0 as u32,
            ));
            assert(Set::<u32>::empty().insert(assign_pattern.0 as u32).len() == 1);
        }
    }

    /// Propagate the logged removals until quiescence.  Returns `false`
    /// iff some cell runs out of possible patterns.
    fn propagate_constraints(
        &mut self,
        pattern_sampler: &PatternSampler,
        pattern_constraints: &PatternConstraints,
    ) -> (r: bool)
        requires
            old(self).wf(pattern_sampler, pattern_constraints),
        ensures
            final(self).spec_extent() == old(self).spec_extent(),
            final(self).spec_collapsed() >= old(self).spec_collapsed(),
            r ==> final(self).wf(pattern_sampler, pattern_constraints) && final(
                self
            ).spec_stack().len() == 0,
            r ==> forall|c: int|
                0 <= c < old(self).spec_extent().spec_volume() ==> (#[trigger] final(
                    self
                ).spec_slots()[c]).view().subset_of(old(self).spec_slots()[c].view()),
            old(self).spec_stack().len() == 0 ==> r && *final(self) == *old(self),
            old(self).spec_extent().spec_volume() == 1 ==> r,
            !r ==> exists|c: int|
                0 <= c < old(self).spec_extent().spec_volume() && (#[trigger] final(
                    self
                ).spec_slots()[c]).view().len() == 0,
    {
        let ghost n = pattern_constraints.spec_num();
        let ghost no = pattern_constraints.spec_num_offsets();
        let ghost vol = self.spec_extent().spec_volume();
        let extent = self.slots.get_extent();
        let num_offsets = pattern_constraints.get_offset_group().num_offsets();
        while self.removal_stack.len() != 0
            invariant
                self.wf(pattern_sampler, pattern_constraints),
                self.spec_extent() == extent,
                extent == old(self).spec_extent(),
                extent.wf(),
                vol == extent.spec_volume(),
                n == pattern_constraints.spec_num(),
                no == pattern_constraints.spec_num_offsets(),
                num_offsets == no,
                self.spec_collapsed() >= old(self).spec_collapsed(),
                forall|c: int|
                    0 <= c < vol ==> (#[trigger] self.spec_slots()[c]).view().subset_of(
                        old(self).spec_slots()[c].view(),
                    ),
                old(self).spec_stack().len() != 0 || *self == *old(self),
            decreases spec_sizes_sum(self.spec_slots(), vol), self.spec_stack().len(),
        {
            proof {
                assert(old(self).spec_stack().len() != 0);
            }
            let ghost iter_sum = spec_sizes_sum(self.spec_slots(), vol);
            let ghost iter_stack = self.spec_stack().len();
            let ghost pre_pop = *self;
            let popped = self.removal_stack.pop();
            let pair = popped.unwrap();
            let visit_slot = pair.0;
            let impossible_at_visit_slot = pair.1;
            proof {
                assert(self.spec_stack() == pre_pop.spec_stack().drop_last());
                assert(pair == pre_pop.spec_stack().last());
                assert((visit_slot.0 as int) < vol && (impossible_at_visit_slot.0 as int) < n);
                assert forall|k: int|
                    0 <= k < self.spec_stack().len() implies ((
                #[trigger] self.spec_stack()[k]).0.0 as int) < vol && (
                self.spec_stack()[k].1.0 as int) < n by {
                    assert(self.spec_stack()[k] == pre_pop.spec_stack()[k]);
                }
                lemma_supports_ok_frame(pre_pop, *self, n, no);
                assert(self.spec_supports_ok(n, no));
                assert(self.spec_grids_wf());
                assert(self.spec_collapsed() == spec_marked_count(self.spec_caches(), vol));
                assert(self.wf_base(pattern_sampler, pattern_constraints));
                assert(self.wf(pattern_sampler, pattern_constraints));
            }
            let visit_point = extent.local_point_from_index(visit_slot.0);
            let mut o: usize = 0;
            while o < num_offsets
                invariant
                    o <= num_offsets,
                    self.wf(pattern_sampler, pattern_constraints),
                    self.spec_extent() == extent,
                    extent == old(self).spec_extent(),
                    extent.wf(),
                    vol == extent.spec_volume(),
                    n == pattern_constraints.spec_num(),
                    no == pattern_constraints.spec_num_offsets(),
                    num_offsets == no,
                    (impossible_at_visit_slot.0 as int) < n,
                    extent.spec_contains_local(visit_point),
                    self.spec_collapsed() >= old(self).spec_collapsed(),
                    forall|c: int|
                        0 <= c < vol ==> (#[trigger] self.spec_slots()[c]).view().subset_of(
                            old(self).spec_slots()[c].view(),
                        ),
                    old(self).spec_stack().len() != 0,
                    spec_sizes_sum(self.spec_slots(), vol) < iter_sum || (spec_sizes_sum(
                        self.spec_slots(),
                        vol,
                    ) == iter_sum && self.spec_stack().len() == iter_stack - 1),
                decreases num_offsets - o,
            {
                let offset = pattern_constraints.get_offset_group().offset_of(OffsetId(o));
                let offset_slot = visit_point.plus(offset);
                if extent.contains_local(&offset_slot) {
                    let ghost cn = extent.spec_index_of(offset_slot);
                    proof {
                        extent.lemma_index_bounds(offset_slot);
                        // with a single cell there is no in-extent
                        // neighbor: every offset is nonzero
                        if vol == 1 {
                            assert(extent.lsup.x == 1 && extent.lsup.y == 1 && extent.lsup.z
                                == 1) by (nonlinear_arith)
                                requires
                                    extent.lsup.x * extent.lsup.y * extent.lsup.z == 1,
                                    extent.lsup.x >= 1,
                                    extent.lsup.y >= 1,
                                    extent.lsup.z >= 1,
                            ;
                            let off = pattern_constraints.spec_offset_group().view()[o as int];
                            assert(off != (Point { x: 0, y: 0, z: 0 }));
                            assert(visit_point == (Point { x: 0, y: 0, z: 0 }));
                            assert(false);
                        }
                    }
                    let compatible = pattern_constraints.iter_compatible(
                        impossible_at_visit_slot,
                        OffsetId(o),
                    );
                    let num_compatible = compatible.len();
                    let mut qi: usize = 0;
                    while qi < num_compatible
                        invariant
                            qi <= num_compatible,
                            self.wf(pattern_sampler, pattern_constraints),
                            self.spec_extent() == extent,
                            extent == old(self).spec_extent(),
                            extent.wf(),
                            vol == extent.spec_volume(),
                            n == pattern_constraints.spec_num(),
                            no == pattern_constraints.spec_num_offsets(),
                            (o as int) < no,
                            extent.spec_contains_local(offset_slot),
                            cn == extent.spec_index_of(offset_slot),
                            0 <= cn < vol,
                            num_compatible == compatible@.len(),
                            forall|i: int|
                                0 <= i < num_compatible ==> ((#[trigger] compatible@[i]).0 as int)
                                    < n,
                            self.spec_collapsed() >= old(self).spec_collapsed(),
                            forall|c: int|
                                0 <= c < vol ==> (#[trigger] self.spec_slots()[c]).view()
                                    .subset_of(old(self).spec_slots()[c].view()),
                            old(self).spec_stack().len() != 0,
                            vol != 1,
                            spec_sizes_sum(self.spec_slots(), vol) < iter_sum || (spec_sizes_sum(
                                self.spec_slots(),
                                vol,
                            ) == iter_sum && self.spec_stack().len() == iter_stack - 1),
                        decreases num_compatible - qi,
                    {
                        let offset_pattern = compatible[qi];
                        let ghost before = *self;
                        let no_support = self.remove_support(
                            &offset_slot,
                            offset_pattern,
                            OffsetId(o),
                        );
                        let ghost q = offset_pattern.0 as int;
                        let ghost prev = before.spec_support_at(cn, q, o as int);
                        if no_support {
                            proof {
                                // the count hit zero exactly, so it was 1,
                                // so the pattern was still possible
                                assert(prev == 1);
                                assert(self.spec_slots()[cn].view().contains(
                                    offset_pattern.0 as u32,
                                ));
                                // every other support is untouched
                                assert forall|c2: int, p2: int, o2: int|
                                    0 <= c2 < vol && 0 <= p2 < n && 0 <= o2 < no && !(c2 == cn
                                        && p2 == q) && self.spec_slots()[c2].view().contains(
                                        p2 as u32,
                                    ) implies #[trigger] self.spec_support_at(c2, p2, o2)
                                    >= 1 by {
                                    assert(self.spec_support_at(c2, p2, o2) == before
                                        .spec_support_at(c2, p2, o2));
                                }
                                assert forall|c2: int, p2: int, o2: int|
                                    0 <= c2 < vol && 0 <= p2 < n && 0 <= o2 < no && !(c2 == cn
                                        && p2 == q) && !self.spec_slots()[c2].view().contains(
                                        p2 as u32,
                                    ) implies #[trigger] self.spec_support_at(c2, p2, o2)
                                    <= 0 by {
                                    assert(self.spec_support_at(c2, p2, o2) == before
                                        .spec_support_at(c2, p2, o2));
                                }
                            }
                            let ghost mid = *self;
                            let slot_empty = self.remove_pattern(
                                pattern_sampler,
                                pattern_constraints,
                                &offset_slot,
                                offset_pattern,
                            );
                            if slot_empty {
                                proof {
                                    assert(self.spec_slots()[cn].view().len() == 0);
                                }
                                return false;
                            }
                            proof {
                                lemma_sizes_sum_update(
                                    mid.spec_slots(),
                                    cn,
                                    self.spec_slots()[cn],
                                    vol,
                                );
                                assert forall|c2: int|
                                    0 <= c2 < vol implies (#[trigger] self.spec_slots()[
                                    c2
                                ]).view().subset_of(old(self).spec_slots()[c2].view()) by {
                                    if c2 != cn {
                                        assert(self.spec_slots()[c2] == mid.spec_slots()[c2]);
                                    }
                                }
                            }
                        } else {
                            proof {
                                // support stayed consistent: a supported
                                // pattern keeps at least one supporter
                                assert forall|c2: int, p2: int, o2: int|
                                    0 <= c2 < vol && 0 <= p2 < n && 0 <= o2 < no
                                        && self.spec_slots()[c2].view().contains(p2 as u32)
                                        implies #[trigger] self.spec_support_at(c2, p2, o2)
                                    >= 1 by {
                                    if c2 == cn && p2 == q && o2 == o as int {
                                        assert(prev >= 1);
                                    } else {
                                        assert(self.spec_support_at(c2, p2, o2) == before
                                            .spec_support_at(c2, p2, o2));
                                    }
                                }
                                assert forall|c2: int, p2: int, o2: int|
                                    0 <= c2 < vol && 0 <= p2 < n && 0 <= o2 < no
                                        && !self.spec_slots()[c2].view().contains(p2 as u32)
                                        implies #[trigger] self.spec_support_at(c2, p2, o2)
                                    <= 0 by {
                                    if c2 == cn && p2 == q && o2 == o as int {
                                        assert(prev <= 0);
                                    } else {
                                        assert(self.spec_support_at(c2, p2, o2) == before
                                            .spec_support_at(c2, p2, o2));
                                    }
                                }
                            }
                        }
                        qi = qi + 1;
                    }
                }
                o = o + 1;
            }
            proof {
                assert forall|i: int|
                    0 <= i < vol implies (#[trigger] self.spec_slots()[i]).spec_len() >= 0 by {}
                lemma_sizes_sum_nonneg(self.spec_slots(), vol);
            }
        }
        true
    }

    /// Collapse `slot`: sample one of its possible patterns from the
    /// prior distribution, remove all others, and propagate.  Returns
    /// `false` iff propagation found a contradiction.
    pub fn observe_slot(
        &mut self,
        rng: &mut rand::rngs::SmallRng,
        pattern_sampler: &PatternSampler,
        pattern_constraints: &PatternConstraints,
        slot: &Point,
    ) -> (r: bool)
        requires
            old(self).wf(pattern_sampler, pattern_constraints),
            old(self).spec_stack().len() == 0,
            old(self).spec_extent().spec_contains_local(*slot),
            !spec_marked(
                old(self).spec_caches()[old(self).spec_extent().spec_index_of(*slot)],
            ),
        ensures
            final(self).spec_extent() == old(self).spec_extent(),
            r ==> final(self).wf(pattern_sampler, pattern_constraints) && final(
                self
            ).spec_collapsed() > old(self).spec_collapsed(),
            r ==> final(self).spec_stack().len() == 0,
            r ==> exists|q: u32|
                old(self).spec_slots()[old(self).spec_extent().spec_index_of(*slot)]
                    .view().contains(q) && (#[trigger] final(self).spec_slots()[old(
                    self
                ).spec_extent().spec_index_of(*slot)]).view() == Set::<u32>::empty().insert(q),
            pattern_constraints.spec_num() == 1 ==> r,
            old(self).spec_extent().spec_volume() == 1 ==> r,
            pattern_constraints.spec_num() == 1 && r ==> final(self).spec_collapsed() == old(
                self
            ).spec_collapsed() + 1,
    {
        let ghost c = self.spec_extent().spec_index_of(*slot);
        let ghost pre = *self;
        let ghost vol = self.spec_extent().spec_volume();
        proof {
            self.spec_extent().lemma_index_bounds(*slot);
        }
        let pattern = pattern_sampler.sample_pattern(self.get_slot(slot), rng);
        self.collapse_slot(pattern_sampler, pattern_constraints, slot, pattern);
        // If the cell was already down to one pattern, no removal marked
        // it; mark it now so it counts as collapsed.
        let cache_entropy = self.entropy_cache.get_local(slot).entropy;
        if cache_entropy != ENTROPY_INF {
            let ghost mid = *self;
            proof {
                // the cell is not yet counted, so the count is below the
                // volume
                pre.spec_extent().lemma_volume_bounds();
                lemma_marked_count_bounds(mid.spec_caches(), vol);
                if mid.spec_collapsed() == vol {
                    lemma_all_marked(mid.spec_caches(), vol, c);
                    assert(false);
                }
            }
            self.set_max_entropy(slot);
            proof {
                lemma_marked_count_update(mid.spec_caches(), c, self.spec_caches()[c], vol);
                lemma_marked_count_bounds(self.spec_caches(), vol);
            }
            self.collapsed_count = self.collapsed_count + 1;
            proof {
                assert(Set::<u32>::empty().insert(pattern.0 as u32).len() == 1);
                assert(self.spec_slots()[c].spec_len() == 1);
                lemma_supports_ok_frame(
                    mid,
                    *self,
                    pattern_constraints.spec_num(),
                    pattern_constraints.spec_num_offsets(),
                );
                assert(self.wf(pattern_sampler, pattern_constraints));
            }
        }
        proof {
            assert(self.spec_collapsed() > pre.spec_collapsed());
            if pattern_constraints.spec_num() == 1 {
                // with one pattern the cell was already a singleton, so
                // nothing was removed and nothing is on the stack
                let s0 = pre.spec_slots()[c].view();
                assert forall|x: u32| s0.contains(x) implies x == 0u32 by {}
                assert(s0.contains(pattern.0 as u32));
                if s0.len() >= 2 {
                    let m = s0.choose();
                    assert(s0.contains(m));
                    let s1 = s0.remove(m);
                    if s1.len() >= 1 {
                        let m2 = s1.choose();
                        assert(s1.contains(m2));
                        assert(m2 == m);
                        assert(false);
                    }
                }
                assert(pre.spec_slots()[c].spec_len() == 1);
            }
        }
        let ghost observed = *self;
        let r = self.propagate_constraints(pattern_sampler, pattern_constraints);
        proof {
            if r {
                // the observed cell ends as the singleton of the sampled
                // pattern: propagation only shrinks sets, and no cell is
                // left empty
                let fview = self.spec_slots()[c].view();
                let aview = observed.spec_slots()[c].view();
                assert(aview == Set::<u32>::empty().insert(pattern.0 as u32));
                assert(fview.subset_of(aview));
                assert(self.spec_slots()[c].spec_len() >= 1);
                assert(fview.len() >= 1);
                let m = fview.choose();
                assert(fview.contains(m));
                assert(m == pattern.0 as u32);
                assert(fview =~= Set::<u32>::empty().insert(pattern.0 as u32));
                assert(pre.spec_slots()[c].view().contains(pattern.0 as u32));
            }
        }
        r
    }

    /// The cell the next observation should collapse: the one whose
    /// entropy, after a small random tie-breaking perturbation, is
    /// least.  The returned key is the perturbed fixed-point entropy.
    pub fn choose_least_entropy_slot(&self, rng: &mut rand::rngs::SmallRng) -> (r: (Point, u64))
        requires
            self.spec_grids_wf(),
            self.spec_collapsed() < self.spec_extent().spec_volume(),
            self.spec_collapsed() == spec_marked_count(
                self.spec_caches(),
                self.spec_extent().spec_volume(),
            ),
            forall|c: int|
                0 <= c < self.spec_extent().spec_volume() && !spec_marked(
                    #[trigger] self.spec_caches()[c],
                ) ==> self.spec_caches()[c].entropy < 32 * LOG2_SCALE,
            forall|c: int|
                0 <= c < self.spec_extent().spec_volume() && !spec_marked(
                    #[trigger] self.spec_caches()[c],
                ) ==> self.spec_slots()[c].spec_len() >= 2 || self.spec_slots()[
                    c
                ].spec_universe() <= 1,
        ensures
            self.spec_extent().spec_contains_local(r.0),
            !spec_marked(self.spec_caches()[self.spec_extent().spec_index_of(r.0)]),
            self.spec_slots()[self.spec_extent().spec_index_of(r.0)].spec_len() >= 2
                || self.spec_slots()[self.spec_extent().spec_index_of(r.0)].spec_universe() <= 1,
            forall|c: int|
                0 <= c < self.spec_extent().spec_volume() && !spec_marked(
                    #[trigger] self.spec_caches()[c],
                ) ==> self.spec_caches()[self.spec_extent().spec_index_of(r.0)].entropy
                    <= self.spec_caches()[c].entropy,
            self.spec_caches()[self.spec_extent().spec_index_of(r.0)].entropy * LOG2_SCALE <= r.1
                < (self.spec_caches()[self.spec_extent().spec_index_of(r.0)].entropy + 1)
                * LOG2_SCALE,
    {
        let ghost vol = self.spec_extent().spec_volume();
        let total = self.num_slots();
        let mut best_index: usize = 0;
        let mut best_key: u64 = u64::MAX;
        let mut i: usize = 0;
        while i < total
            invariant
                i <= total,
                total == vol,
                vol == self.spec_extent().spec_volume(),
                self.spec_grids_wf(),
                forall|c: int|
                    0 <= c < vol && !spec_marked(#[trigger] self.spec_caches()[c]) ==> self
                        .spec_caches()[c].entropy < 32 * LOG2_SCALE,
                best_key == u64::MAX ==> forall|c: int|
                    0 <= c < i ==> spec_marked(#[trigger] self.spec_caches()[c]),
                best_key < u64::MAX ==> best_index < i && !spec_marked(
                    self.spec_caches()[best_index as int],
                ) && best_key >= self.spec_caches()[best_index as int].entropy * LOG2_SCALE,
                forall|c: int|
                    0 <= c < i && !spec_marked(#[trigger] self.spec_caches()[c]) ==> best_key < (
                    self.spec_caches()[c].entropy + 1) * LOG2_SCALE,
            decreases total - i,
        {
            let noise = rng_next_u32(rng);
            let cache = *self.entropy_cache.get_linear(i);
            let key: u64 = if cache.entropy >= 32 * LOG2_SCALE {
                u64::MAX
            } else {
                cache.entropy * LOG2_SCALE + (noise as u64 % LOG2_SCALE as u64)
            };
            proof {
                if !spec_marked(self.spec_caches()[i as int]) {
                    assert(cache.entropy < 32 * LOG2_SCALE);
                    assert(key < u64::MAX);
                } else {
                    assert(cache.entropy == ENTROPY_INF);
                    assert(key == u64::MAX);
                }
            }
            proof {
                if !spec_marked(self.spec_caches()[i as int]) {
                    assert((cache.entropy + 1) * LOG2_SCALE == cache.entropy * LOG2_SCALE
                        + LOG2_SCALE) by (nonlinear_arith);
                    assert(key < (cache.entropy + 1) * LOG2_SCALE);
                }
            }
            if key < best_key {
                best_index = i;
                best_key = key;
            }
            i = i + 1;
        }
        proof {
            if best_key == u64::MAX {
                let witness = lemma_find_unmarked(self.spec_caches(), vol);
                assert(spec_marked(self.spec_caches()[witness]));
                assert(false);
            }
            // the winner's entropy is least among uncollapsed cells: the
            // tie-breaking noise is smaller than one entropy unit
            assert forall|c: int|
                0 <= c < vol && !spec_marked(#[trigger] self.spec_caches()[c]) implies self
                .spec_caches()[best_index as int].entropy <= self.spec_caches()[c].entropy by {
                let eb = self.spec_caches()[best_index as int].entropy;
                let ec = self.spec_caches()[c].entropy;
                assert(eb * LOG2_SCALE <= best_key);
                assert(best_key < (ec + 1) * LOG2_SCALE);
                assert(eb <= ec) by (nonlinear_arith)
                    requires
                        eb * 0x1000000 < (ec + 1) * 0x1000000,
                        eb >= 0,
                        ec >= 0,
                ;
            }
        }
        let point = self.slots.get_extent().local_point_from_index(best_index);
        (point, best_key)
    }
}

/// The cell sums stay within their `u64` headroom: the weight sum is at
/// most the sampler's total, and the log-weight sum at most its scaled
/// total.
proof fn lemma_cell_sums_bounded(
    s: Set<u32>,
    w: Seq<u32>,
    t: Seq<u64>,
    sampler: &PatternSampler,
    k: int,
)
    requires
        sampler.wf(),
        w == sampler.spec_weights(),
        t == sampler.spec_wlw(),
        k <= sampler.spec_num_patterns(),
        forall|x: u32| s.contains(x) ==> (x as int) < sampler.spec_num_patterns(),
    ensures
        set_weight_sum(s, w, k) <= 0x40000000,
        0 <= set_weight_sum(s, w, k),
        set_table_sum(s, t, k) <= 0x800000000000000,
        0 <= set_table_sum(s, t, k),
    decreases k,
{
    let n = sampler.spec_num_patterns();
    lemma_set_weight_sum_nonneg(s, w, k);
    lemma_set_table_sum_nonneg(s, t, k);
    lemma_prefix_le(s, w, t, k, n);
    lemma_set_weight_sum_subset(s, all_patterns_below(n), w, n);
    lemma_scaled_table_bound(s, w, t, n);
    lemma_set_weight_sum_nonneg(s, w, n);
    assert(set_weight_sum(s, w, n) * 0x20000000 <= 0x40000000 * 0x20000000) by (nonlinear_arith)
        requires
            set_weight_sum(s, w, n) <= 0x40000000,
            set_weight_sum(s, w, n) >= 0,
    ;
}

/// Prefix sums are no larger than full sums.
proof fn lemma_prefix_le(s: Set<u32>, w: Seq<u32>, t: Seq<u64>, k: int, n: int)
    requires
        k <= n,
    ensures
        set_weight_sum(s, w, k) <= set_weight_sum(s, w, n),
        set_table_sum(s, t, k) <= set_table_sum(s, t, n),
    decreases n - k,
{
    if k < n {
        lemma_prefix_le(s, w, t, k, n - 1);
    }
}

/// With each table entry at most `2^29` times its weight, the table sum
/// is at most `2^29` times the weight sum.
proof fn lemma_scaled_table_bound(s: Set<u32>, w: Seq<u32>, t: Seq<u64>, n: int)
    requires
        forall|p: int| 0 <= p < n ==> #[trigger] t[p] <= w[p] * 0x20000000,
    ensures
        set_table_sum(s, t, n) <= set_weight_sum(s, w, n) * 0x20000000,
    decreases n,
{
    if n > 0 {
        lemma_scaled_table_bound(s, w, t, n - 1);
        assert((set_weight_sum(s, w, n - 1) + if s.contains((n - 1) as u32) {
            w[n - 1] as int
        } else {
            0int
        }) * 0x20000000 == set_weight_sum(s, w, n - 1) * 0x20000000 + (if s.contains(
            (n - 1) as u32,
        ) {
            w[n - 1] as int
        } else {
            0int
        }) * 0x20000000) by (nonlinear_arith);
    }
}

/// The support invariants only depend on the support table, the cells
/// and the extent.
proof fn lemma_supports_ok_frame(pre: Wave, post: Wave, n: int, no: int)
    requires
        post.spec_supports() == pre.spec_supports(),
        post.spec_slots() == pre.spec_slots(),
        post.spec_extent() == pre.spec_extent(),
        pre.spec_supports_ok(n, no),
    ensures
        post.spec_supports_ok(n, no),
{
    let vol = post.spec_extent().spec_volume();
    assert forall|c: int, p: int, o: int|
        0 <= c < vol && 0 <= p < n && 0 <= o < no && post.spec_slots()[c].view().contains(
            p as u32,
        ) implies #[trigger] post.spec_support_at(c, p, o) >= 1 by {
        assert(post.spec_support_at(c, p, o) == pre.spec_support_at(c, p, o));
        assert(pre.spec_support_at(c, p, o) >= 1);
    }
    assert forall|c: int, p: int, o: int|
        0 <= c < vol && 0 <= p < n && 0 <= o < no && !post.spec_slots()[c].view().contains(
            p as u32,
        ) implies #[trigger] post.spec_support_at(c, p, o) <= 0 by {
        assert(post.spec_support_at(c, p, o) == pre.spec_support_at(c, p, o));
        assert(pre.spec_support_at(c, p, o) <= 0);
    }
}

/// A cache where no cell is the sentinel counts zero collapsed cells.
proof fn lemma_marked_count_all_unmarked(s: Seq<SlotEntropyCache>, k: int)
    requires
        forall|i: int| 0 <= i < k ==> !spec_marked(#[trigger] s[i]),
    ensures
        spec_marked_count(s, k) == 0,
    decreases k,
{
    if k > 0 {
        lemma_marked_count_all_unmarked(s, k - 1);
    }
}

} // verus!
