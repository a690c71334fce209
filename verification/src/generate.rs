//! The collapse loop's state machine: repeatedly observe the
//! least-entropy cell and propagate, until the grid is fully determined
//! or a contradiction is reached.  The driver loop itself lives outside
//! the core so that it can be interrupted.

use crate::lattice::{Lattice, Point};
use crate::pattern::{PatternConstraints, PatternId, PatternSampler, PatternSet};
use crate::rng::small_rng_from_seed;
use crate::wave::{lemma_all_marked, spec_marked, Wave};
use vstd::prelude::*;

verus! {

/// Length of the random seed.
pub const NUM_SEED_BYTES: usize = 16;

/// Outcome of one `update` step.
#[derive(Clone, Copy, Debug, PartialEq, Eq, Structural)]
pub enum UpdateResult {
    /// The output grid is fully assigned.
    Success,
    /// Further calls to `update` are required.
    Continue,
    /// The currently assigned patterns cannot satisfy the constraints.
    Failure,
}

/// Generates a grid of pattern identifiers with the overlapping
/// wave-function-collapse algorithm.
pub struct Generator {
    rng: rand::rngs::SmallRng,
    wave: Wave,
}

impl Generator {
    pub closed spec fn spec_wave(&self) -> Wave {
        self.wave
    }

    pub open spec fn wf(&self, sampler: &PatternSampler, constraints: &PatternConstraints) -> bool {
        &&& self.spec_wave().wf(sampler, constraints)
        &&& self.spec_wave().spec_stack().len() == 0
    }

    pub fn new(
        seed: [u8; 16],
        output_size: Point,
        sampler: &PatternSampler,
        constraints: &PatternConstraints,
    ) -> (r: Generator)
        requires
            sampler.wf(),
            constraints.wf(),
            constraints.spec_nonempty_rows(),
            sampler.spec_num_patterns() == constraints.spec_num(),
            constraints.spec_num() >= 1,
            output_size.is_size(),
        ensures
            r.wf(sampler, constraints),
            r.spec_wave().spec_collapsed() == 0,
            r.spec_wave().spec_extent().lsup == output_size,
    {
        Generator {
            wave: Wave::new(sampler, constraints, output_size),
            rng: small_rng_from_seed(seed),
        }
    }

    /// The current per-cell possibility sets, for visualisation.
    pub fn get_wave_lattice(&self) -> (r: &Lattice<PatternSet>)
        ensures
            r.view() == self.spec_wave().spec_slots(),
            r.spec_extent() == self.spec_wave().spec_extent(),
    {
        self.wave.get_slots()
    }

    pub fn num_collapsed(&self) -> (r: usize)
        ensures
            r == self.spec_wave().spec_collapsed(),
    {
        self.wave.num_collapsed()
    }

    /// The fully determined output: the one remaining pattern of every
    /// cell.  Call only after `update` has returned `Success`.
    pub fn result(&self) -> (r: Lattice<PatternId>)
        requires
            self.spec_wave().spec_grids_wf(),
            forall|c: int|
                0 <= c < self.spec_wave().spec_extent().spec_volume() ==> (
                #[trigger] self.spec_wave().spec_slots()[c]).wf() && self.spec_wave().spec_slots()[
                    c
                ].spec_len() == 1,
        ensures
            r.wf(),
            r.spec_extent() == self.spec_wave().spec_extent(),
            forall|c: int|
                0 <= c < r.view().len() ==> self.spec_wave().spec_slots()[c].view() == Set::<
                    u32,
                >::empty().insert((#[trigger] r.view()[c]).0 as u32),
    {
        let slots = self.wave.get_slots();
        let extent = slots.get_extent();
        let n = slots.num_cells();
        let mut cells: Vec<PatternId> = Vec::new();
        let mut i: usize = 0;
        while i < n
            invariant
                i <= n,
                slots.wf(),
                slots.view() == self.spec_wave().spec_slots(),
                slots.spec_extent() == self.spec_wave().spec_extent(),
                extent == slots.spec_extent(),
                n == slots.view().len(),
                n == extent.spec_volume(),
                forall|c: int|
                    0 <= c < n ==> (#[trigger] self.spec_wave().spec_slots()[c]).wf() && self
                        .spec_wave().spec_slots()[c].spec_len() == 1,
                cells@.len() == i,
                forall|c: int|
                    0 <= c < i ==> self.spec_wave().spec_slots()[c].view() == Set::<
                        u32,
                    >::empty().insert((#[trigger] cells@[c]).0 as u32),
            decreases n - i,
        {
            let pattern = slots.get_linear(i).first();
            proof {
                let s = self.spec_wave().spec_slots()[i as int].view();
                assert forall|x: u32| s.contains(x) implies x == pattern.0 as u32 by {
                    if x != pattern.0 as u32 {
                        let s2 = s.remove(pattern.0 as u32);
                        assert(s2.contains(x));
                        vstd::set_lib::lemma_len_subset(
                            Set::<u32>::empty().insert(x),
                            s2,
                        );
                        assert(Set::<u32>::empty().insert(x).len() == 1);
                        assert(s2.len() == 0);
                        assert(false);
                    }
                }
                assert(s =~= Set::<u32>::empty().insert(pattern.0 as u32));
            }
            cells.push(pattern);
            i = i + 1;
        }
        Lattice::from_vec(extent, cells)
    }

    /// One step of the collapse loop: pick the least-entropy cell,
    /// observe it, and report whether the run has finished.  Every step
    /// that does not end the run strictly increases the number of
    /// collapsed cells, so at most as many steps as there are cells ever
    /// return `Continue`.
    pub fn update(
        &mut self,
        sampler: &PatternSampler,
        constraints: &PatternConstraints,
    ) -> (r: UpdateResult)
        requires
            old(self).wf(sampler, constraints),
            old(self).spec_wave().spec_collapsed() < old(
                self
            ).spec_wave().spec_extent().spec_volume(),
        ensures
            final(self).spec_wave().spec_extent() == old(self).spec_wave().spec_extent(),
            r != UpdateResult::Failure ==> final(self).wf(sampler, constraints) && final(
                self
            ).spec_wave().spec_collapsed() > old(self).spec_wave().spec_collapsed(),
            (r == UpdateResult::Success) == (r != UpdateResult::Failure && final(
                self
            ).spec_wave().spec_collapsed() == final(self).spec_wave().spec_extent().spec_volume()),
            (r == UpdateResult::Continue) == (r != UpdateResult::Failure && final(
                self
            ).spec_wave().spec_collapsed() < final(self).spec_wave().spec_extent().spec_volume()),
            constraints.spec_num() == 1 ==> r != UpdateResult::Failure,
            old(self).spec_wave().spec_extent().spec_volume() == 1 ==> r != UpdateResult::Failure,
            constraints.spec_num() == 1 && r != UpdateResult::Failure ==> final(
                self
            ).spec_wave().spec_collapsed() == old(self).spec_wave().spec_collapsed() + 1,
    {
        proof {
            // every uncollapsed cell still offers a real choice, unless
            // only one pattern exists at all
            assert forall|c: int|
                0 <= c < self.spec_wave().spec_extent().spec_volume() && !crate::wave::spec_marked(
                    #[trigger] self.spec_wave().spec_caches()[c],
                ) implies self.spec_wave().spec_slots()[c].spec_len() >= 2 || self.spec_wave()
                .spec_slots()[c].spec_universe() <= 1 by {
                assert(self.spec_wave().spec_slots()[c].spec_universe()
                    == constraints.spec_num());
            }
        }
        let chosen = self.wave.choose_least_entropy_slot(&mut self.rng);
        let slot = chosen.0;
        if !self.wave.observe_slot(&mut self.rng, sampler, constraints, &slot) {
            UpdateResult::Failure
        } else if self.wave.determined() {
            UpdateResult::Success
        } else {
            UpdateResult::Continue
        }
    }
}

/// Once every cell is counted as collapsed, every cell holds exactly
/// one pattern, which is what `result` asks for.
pub proof fn lemma_success_leaves_singletons(
    generator: &Generator,
    sampler: &PatternSampler,
    constraints: &PatternConstraints,
)
    requires
        generator.wf(sampler, constraints),
        generator.spec_wave().spec_collapsed() == generator.spec_wave().spec_extent().spec_volume(),
    ensures
        generator.spec_wave().spec_grids_wf(),
        forall|c: int|
            0 <= c < generator.spec_wave().spec_extent().spec_volume() ==> (
            #[trigger] generator.spec_wave().spec_slots()[c]).wf() && generator.spec_wave()
                .spec_slots()[c].spec_len() == 1,
{
    let wave = generator.spec_wave();
    let vol = wave.spec_extent().spec_volume();
    assert forall|c: int|
        0 <= c < vol implies (#[trigger] wave.spec_slots()[c]).wf() && wave.spec_slots()[
        c
    ].spec_len() == 1 by {
        lemma_all_marked(wave.spec_caches(), vol, c);
        assert(spec_marked(wave.spec_caches()[c]));
    }
}

} // verus!
