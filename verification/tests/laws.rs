//! Concrete checks of the library's stated laws: the opposite
//! involution, compatibility symmetry, non-empty rows, and the entropy
//! formula.

use wfc_core::{
    edge_2d_offsets, face_3d_offsets, process_patterns_in_lattice, Extent, Lattice, OffsetGroup,
    OffsetId, PatternConstraints, PatternId, PatternSampler, PatternShape, Point,
};

fn pt(x: i32, y: i32, z: i32) -> Point {
    Point { x, y, z }
}

fn grid(w: i32, h: i32, d: i32, cells: Vec<u32>) -> Lattice<u32> {
    assert_eq!(cells.len(), (w * h * d) as usize);
    let extent = Extent::from_min_and_local_supremum(pt(0, 0, 0), pt(w, h, d));
    Lattice::from_vec(extent, cells)
}

fn extract(
    input: &Lattice<u32>,
    pattern_size: Point,
    offsets: Vec<Point>,
) -> (PatternSampler, PatternConstraints, wfc_core::PatternTileSet) {
    let shape = PatternShape { size: pattern_size, offset_group: OffsetGroup::new(&offsets) };
    process_patterns_in_lattice(input, &pt(1, 1, 1), &shape).unwrap()
}

#[test]
fn opposite_is_an_involution_for_both_groups() {
    for offsets in [edge_2d_offsets(), face_3d_offsets()] {
        let group = OffsetGroup::new(&offsets);
        let n = group.num_offsets();
        for k in 0..n {
            let opp = group.opposite(OffsetId(k));
            // applying opposite twice gives back the identifier
            assert_eq!(group.opposite(opp).0, k);
            // the offset of the opposite is the negated offset
            let fwd = group.offset_of(OffsetId(k));
            let back = group.offset_of(opp);
            assert_eq!(back.x, -fwd.x);
            assert_eq!(back.y, -fwd.y);
            assert_eq!(back.z, -fwd.z);
        }
    }
}

#[test]
fn offset_id_finds_each_offset() {
    let offsets = face_3d_offsets();
    let group = OffsetGroup::new(&offsets);
    for (k, o) in offsets.iter().enumerate() {
        assert_eq!(group.offset_id(o).0, k);
    }
}

#[test]
fn compatibility_is_symmetric_on_a_concrete_input() {
    let input = grid(
        4,
        4,
        1,
        vec![
            0, 0, 1, 1,
            0, 2, 2, 1,
            0, 2, 3, 1,
            0, 0, 1, 1,
        ],
    );
    let (_sampler, constraints, _tiles) = extract(&input, pt(2, 2, 1), edge_2d_offsets());
    let group = OffsetGroup::new(&edge_2d_offsets());
    let n = constraints.num_patterns();
    for p in 0..n {
        for q in 0..n {
            for o in 0..group.num_offsets() {
                let forward =
                    constraints.are_compatible(PatternId(p), PatternId(q), OffsetId(o));
                let backward = constraints.are_compatible(
                    PatternId(q),
                    PatternId(p),
                    group.opposite(OffsetId(o)),
                );
                assert_eq!(forward, backward);
            }
        }
    }
}

#[test]
fn every_row_is_nonempty_after_extraction() {
    let input = grid(3, 3, 1, vec![5, 6, 7, 8, 9, 10, 11, 12, 13]);
    let (_sampler, constraints, _tiles) = extract(&input, pt(2, 2, 1), edge_2d_offsets());
    let group = OffsetGroup::new(&edge_2d_offsets());
    let n = constraints.num_patterns();
    assert!(n >= 1);
    for p in 0..n {
        for o in 0..group.num_offsets() {
            assert!(constraints.num_compatible(PatternId(p), OffsetId(o)) >= 1);
        }
    }
}

#[test]
fn weights_count_occurrences() {
    // 2x2 toroidal input with a repeated color: 1x1 patterns weighted by
    // multiplicity
    let input = grid(2, 2, 1, vec![4, 4, 4, 9]);
    let (sampler, _constraints, _tiles) = extract(&input, pt(1, 1, 1), edge_2d_offsets());
    assert_eq!(sampler.num_patterns(), 2);
    let mut total = 0;
    for p in 0..sampler.num_patterns() {
        total += sampler.get_weight(PatternId(p));
    }
    assert_eq!(total, 4);
    assert_eq!(sampler.get_weight(PatternId(0)), 3);
    assert_eq!(sampler.get_weight(PatternId(1)), 1);
}

#[test]
fn too_many_patterns_is_reported() {
    // 182x182 distinct cells give more 1x1 patterns than identifiers
    let side = 182i32;
    let mut cells = Vec::new();
    for i in 0..(side * side) {
        cells.push(i as u32);
    }
    let input = grid(side, side, 1, cells);
    let shape = PatternShape {
        size: pt(1, 1, 1),
        offset_group: OffsetGroup::new(&edge_2d_offsets()),
    };
    let r = process_patterns_in_lattice(&input, &pt(1, 1, 1), &shape);
    assert!(matches!(r, Err(wfc_core::ConfigError::TooManyPatterns)));
}

#[test]
fn entropy_matches_the_shannon_formula() {
    // cached fixed-point entropy vs the exact Shannon entropy of the
    // normalised distribution, for several weight sets of size >= 2
    let weight_sets: [&[u32]; 4] = [&[1, 1], &[3, 5, 7], &[1, 2, 3, 4, 5], &[10, 90, 900]];
    for weights in weight_sets {
        let mut sum_w: u64 = 0;
        let mut sum_wlw: u64 = 0;
        for &w in weights {
            sum_w += w as u64;
            sum_wlw += (w as u64) * wfc_core::entropy::log2_fixed(w as u64);
        }
        let cached = wfc_core::entropy::entropy_from(sum_w, sum_wlw);
        let cached_h = cached as f64 / wfc_core::entropy::LOG2_SCALE as f64;
        let total: f64 = weights.iter().map(|&w| w as f64).sum();
        let exact_h: f64 = -weights
            .iter()
            .map(|&w| {
                let p = w as f64 / total;
                p * p.log2()
            })
            .sum::<f64>();
        let relative = if exact_h == 0.0 {
            (cached_h - exact_h).abs()
        } else {
            ((cached_h - exact_h) / exact_h).abs()
        };
        assert!(
            relative < 1e-5,
            "cached {} vs exact {} for {:?}",
            cached_h,
            exact_h,
            weights
        );
    }
}

#[test]
fn log2_fixed_is_exact_on_powers_of_two() {
    assert_eq!(wfc_core::entropy::log2_fixed(1), 0);
    for k in 0..=40u64 {
        let v = wfc_core::entropy::log2_fixed(1u64 << k);
        assert_eq!(v, k * wfc_core::entropy::LOG2_SCALE);
    }
}

#[test]
fn log2_fixed_approximates_the_real_logarithm() {
    for w in [2u64, 3, 5, 7, 10, 100, 12345, 1 << 20] {
        let fixed = wfc_core::entropy::log2_fixed(w) as f64
            / wfc_core::entropy::LOG2_SCALE as f64;
        let exact = (w as f64).log2();
        assert!((fixed - exact).abs() < 1e-6, "log2({}): {} vs {}", w, fixed, exact);
    }
}
