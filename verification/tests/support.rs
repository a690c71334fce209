//! A concrete look at the support counters: after observations and
//! propagation, every still-possible pattern keeps at least one
//! supporter at every offset, and a removed pattern supports nothing.

use wfc_core::pattern::{PatternId, PatternShape};
use wfc_core::rng::small_rng_from_seed;
use wfc_core::wave::Wave;
use wfc_core::{
    edge_2d_offsets, process_patterns_in_lattice, Extent, Lattice, OffsetGroup, OffsetId, Point,
};

fn pt(x: i32, y: i32, z: i32) -> Point {
    Point { x, y, z }
}

#[test]
fn possible_patterns_stay_supported_during_collapse() {
    let mut cells = Vec::new();
    for y in 0..4 {
        for x in 0..4 {
            cells.push(if (x + y) % 2 == 0 { 1u32 } else { 2 });
        }
    }
    let extent = Extent::from_min_and_local_supremum(pt(0, 0, 0), pt(4, 4, 1));
    let input = Lattice::from_vec(extent, cells);
    let shape = PatternShape {
        size: pt(2, 2, 1),
        offset_group: OffsetGroup::new(&edge_2d_offsets()),
    };
    let (sampler, constraints, _tiles) =
        process_patterns_in_lattice(&input, &pt(1, 1, 1), &shape).unwrap();

    let mut rng = small_rng_from_seed([3; 16]);
    let mut wave = Wave::new(&sampler, &constraints, pt(4, 4, 1));
    let num_offsets = constraints.get_offset_group().num_offsets();
    let num_patterns = constraints.num_patterns();
    let out_extent = Extent::from_min_and_local_supremum(pt(0, 0, 0), pt(4, 4, 1));

    // observe a few cells, checking the support bound after each one
    for _ in 0..3 {
        if wave.determined() {
            break;
        }
        let (slot, _key) = wave.choose_least_entropy_slot(&mut rng);
        assert!(wave.observe_slot(&mut rng, &sampler, &constraints, &slot));
        for i in 0..wave.num_slots() {
            let p = out_extent.local_point_from_index(i);
            for pattern in 0..num_patterns {
                for o in 0..num_offsets {
                    let support = wave.support_count(&p, PatternId(pattern), OffsetId(o));
                    let possible = wave.get_slots().get_linear(i).contains(PatternId(pattern));
                    if possible {
                        assert!(support >= 1);
                    } else {
                        assert!(support <= 0);
                    }
                }
            }
        }
    }
}
