//! End-to-end runs of the collapse loop on small inputs.

use wfc_core::{
    process_patterns_in_lattice, Extent, Generator, Lattice, OffsetGroup, PatternConstraints,
    PatternSampler, PatternShape, PatternTileSet, Point, UpdateResult,
};

fn pt(x: i32, y: i32, z: i32) -> Point {
    Point { x, y, z }
}

fn grid(w: i32, h: i32, d: i32, cells: Vec<u32>) -> Lattice<u32> {
    assert_eq!(cells.len(), (w * h * d) as usize);
    let extent = Extent::from_min_and_local_supremum(pt(0, 0, 0), pt(w, h, d));
    Lattice::from_vec(extent, cells)
}

fn extract(
    input: &Lattice<u32>,
    pattern_size: Point,
    offsets: Vec<Point>,
) -> (PatternSampler, PatternConstraints, PatternTileSet) {
    let shape = PatternShape { size: pattern_size, offset_group: OffsetGroup::new(&offsets) };
    process_patterns_in_lattice(input, &pt(1, 1, 1), &shape).unwrap()
}

/// Runs the collapse loop to completion; returns the final state and the
/// number of steps taken.
fn run(
    seed: [u8; 16],
    output_size: Point,
    sampler: &PatternSampler,
    constraints: &PatternConstraints,
) -> (Generator, UpdateResult, usize) {
    let mut generator = Generator::new(seed, output_size, sampler, constraints);
    let mut steps: usize = 0;
    loop {
        let state = generator.update(sampler, constraints);
        steps += 1;
        match state {
            UpdateResult::Continue => {}
            _ => {
                return (generator, state, steps);
            }
        }
    }
}

fn seed_starting(bytes: &[u8]) -> [u8; 16] {
    let mut seed = [0u8; 16];
    for (i, b) in bytes.iter().enumerate() {
        seed[i] = *b;
    }
    seed
}

#[test]
fn single_cell_output() {
    // 2x2 input of four distinct colors, 1x1 patterns, 1-cell output
    let input = grid(2, 2, 1, vec![10, 20, 30, 40]);
    let (sampler, constraints, _tiles) =
        extract(&input, pt(1, 1, 1), wfc_core::edge_2d_offsets());
    assert_eq!(sampler.num_patterns(), 4);
    let (generator, state, _steps) =
        run(seed_starting(&[1]), pt(1, 1, 1), &sampler, &constraints);
    assert!(state == UpdateResult::Success);
    let result = generator.result();
    let the_pattern = result.get_linear(0).0;
    assert!(the_pattern <= 3);
    assert!(constraints.assignment_is_valid(&result));
}

#[test]
fn uniform_input_collapses_in_exactly_total_cells_steps() {
    // 4x4 uniform input, 2x2 patterns: one pattern, success after one
    // step per output cell
    let input = grid(4, 4, 1, vec![7; 16]);
    let (sampler, constraints, tiles) =
        extract(&input, pt(2, 2, 1), wfc_core::edge_2d_offsets());
    assert_eq!(sampler.num_patterns(), 1);
    let (generator, state, steps) =
        run(seed_starting(&[42]), pt(8, 8, 1), &sampler, &constraints);
    assert!(state == UpdateResult::Success);
    assert_eq!(steps, 64);
    let result = generator.result();
    assert!(constraints.assignment_is_valid(&result));
    let colors = wfc_core::color_final_patterns_rgba(&result, &tiles);
    for i in 0..colors.num_cells() {
        assert_eq!(*colors.get_linear(i), 7);
    }
}

/// A strictly increasing collapsed count on every step that continues.
#[test]
fn every_step_collapses_at_least_one_cell() {
    let input = grid(4, 4, 1, vec![7; 16]);
    let (sampler, constraints, _tiles) =
        extract(&input, pt(2, 2, 1), wfc_core::edge_2d_offsets());
    let mut generator = Generator::new(seed_starting(&[9]), pt(4, 4, 1), &sampler, &constraints);
    let mut last = generator.num_collapsed();
    assert_eq!(last, 0);
    loop {
        let state = generator.update(&sampler, &constraints);
        let now = generator.num_collapsed();
        assert!(now > last);
        last = now;
        match state {
            UpdateResult::Continue => {}
            UpdateResult::Success => break,
            UpdateResult::Failure => panic!("unexpected contradiction"),
        }
    }
    assert_eq!(last, 16);
}

fn checkerboard_input() -> Lattice<u32> {
    let mut cells = Vec::new();
    for y in 0..4 {
        for x in 0..4 {
            cells.push(if (x + y) % 2 == 0 { 1 } else { 2 });
        }
    }
    grid(4, 4, 1, cells)
}

#[test]
fn checkerboard_reproduces_checkerboard() {
    let input = checkerboard_input();
    let (sampler, constraints, tiles) =
        extract(&input, pt(2, 2, 1), wfc_core::edge_2d_offsets());
    assert_eq!(sampler.num_patterns(), 2);
    let (generator, state, _steps) =
        run(seed_starting(&[1]), pt(4, 4, 1), &sampler, &constraints);
    assert!(state == UpdateResult::Success);
    let result = generator.result();
    assert!(constraints.assignment_is_valid(&result));
    let colors = wfc_core::color_final_patterns_rgba(&result, &tiles);
    // a checkerboard of the same two colors, in one of two phases
    let c00 = *colors.get_local(&pt(0, 0, 0));
    assert!(c00 == 1 || c00 == 2);
    for y in 0..4i32 {
        for x in 0..4i32 {
            let expected = if (x + y) % 2 == 0 { c00 } else { 3 - c00 };
            assert_eq!(*colors.get_local(&pt(x, y, 0)), expected);
        }
    }
}

#[test]
fn identical_runs_give_identical_outputs() {
    // the checkerboard scenario twice with the same seed
    let input = checkerboard_input();
    let (sampler, constraints, _tiles) =
        extract(&input, pt(2, 2, 1), wfc_core::edge_2d_offsets());
    let seed = seed_starting(&[1]);
    let (g1, s1, steps1) = run(seed, pt(4, 4, 1), &sampler, &constraints);
    let (g2, s2, steps2) = run(seed, pt(4, 4, 1), &sampler, &constraints);
    assert!(s1 == UpdateResult::Success && s2 == UpdateResult::Success);
    assert_eq!(steps1, steps2);
    let r1 = g1.result();
    let r2 = g2.result();
    assert_eq!(r1.num_cells(), r2.num_cells());
    for i in 0..r1.num_cells() {
        assert_eq!(r1.get_linear(i).0, r2.get_linear(i).0);
    }
}

/// Noisy inputs give many patterns with sparse, idiosyncratic
/// compatibility rows; some seed then runs into a contradiction, and the
/// same seed fails identically on a second run.
#[test]
fn contradiction_is_deterministic() {
    let mut found = None;
    // a 10x10 field holding a hollow ring and a solid block: their
    // corner and edge windows are interchangeable locally but must close
    // globally
    let mut field = vec![0u32; 100];
    for y in 1..6 {
        for x in 1..6 {
            field[y * 10 + x] = 1;
        }
    }
    for y in 2..5 {
        for x in 2..5 {
            field[y * 10 + x] = 0;
        }
    }
    for y in 6..9 {
        for x in 6..9 {
            field[y * 10 + x] = 1;
        }
    }
    let input = grid(10, 10, 1, field);
    let (sampler, constraints, _tiles) =
        extract(&input, pt(2, 2, 1), wfc_core::edge_2d_offsets());
    'search: for s in 0..=255u8 {
        let (_, state2, steps) =
            run(seed_starting(&[s]), pt(24, 24, 1), &sampler, &constraints);
        if state2 == UpdateResult::Failure {
            assert!(steps < 576);
            let (_, state_again, steps_again) =
                run(seed_starting(&[s]), pt(24, 24, 1), &sampler, &constraints);
            assert!(state_again == UpdateResult::Failure);
            assert_eq!(steps, steps_again);
            found = Some(s);
            break 'search;
        }
    }
    assert!(found.is_some(), "no seed led to a contradiction");
}

#[test]
fn facewise_3d_layers() {
    // 8x8x8 input: three solid horizontal bands (y-layers) of one color
    // each
    let mut cells = Vec::new();
    for y in 0..8 {
        for _z in 0..8 {
            for _x in 0..8 {
                let color: u32 = if y < 3 {
                    1
                } else if y < 6 {
                    2
                } else {
                    3
                };
                cells.push(color);
            }
        }
    }
    let input = grid(8, 8, 8, cells);
    let (sampler, constraints, tiles) =
        extract(&input, pt(2, 2, 2), wfc_core::face_3d_offsets());
    let mut chosen = None;
    for s in 0..=63u8 {
        let (generator, state, _steps) =
            run(seed_starting(&[1, s]), pt(8, 8, 8), &sampler, &constraints);
        if state == UpdateResult::Success {
            let result = generator.result();
            assert!(constraints.assignment_is_valid(&result));
            let colors = wfc_core::color_final_patterns_vox(&result, &tiles);
            let mut vertically_consistent = true;
            for y in 0..8i32 {
                let expected = *input.get_local(&pt(0, y, 0));
                for z in 0..8i32 {
                    for x in 0..8i32 {
                        if *colors.get_local(&pt(x, y, z)) != expected {
                            vertically_consistent = false;
                        }
                    }
                }
            }
            if vertically_consistent {
                chosen = Some(s);
                break;
            }
        }
    }
    assert!(chosen.is_some(), "no seed rebuilt the input's layers");
}

#[test]
fn tiled_input_renders_whole_tiles() {
    // a 4x4 input of four solid 2x2 blocks; tiles of size 2x2, patterns
    // of one tile
    let cells = vec![
        1, 1, 2, 2,
        1, 1, 2, 2,
        3, 3, 4, 4,
        3, 3, 4, 4,
    ];
    let input = grid(4, 4, 1, cells);
    let shape = PatternShape {
        size: pt(1, 1, 1),
        offset_group: OffsetGroup::new(&wfc_core::edge_2d_offsets()),
    };
    let (sampler, constraints, tiles) =
        process_patterns_in_lattice(&input, &pt(2, 2, 1), &shape).unwrap();
    assert_eq!(sampler.num_patterns(), 4);
    assert_eq!(tiles.tile_size, pt(2, 2, 1));
    let (generator, state, _steps) =
        run(seed_starting(&[5]), pt(3, 3, 1), &sampler, &constraints);
    assert!(state == UpdateResult::Success);
    let result = generator.result();
    assert!(constraints.assignment_is_valid(&result));
    let colors = wfc_core::color_final_patterns_vox(&result, &tiles);
    // the rendered grid is 6x6 cells of whole 2x2 blocks
    assert_eq!(colors.num_cells(), 36);
    for by in 0..3i32 {
        for bx in 0..3i32 {
            let c = *colors.get_local(&pt(2 * bx, 2 * by, 0));
            assert!(1 <= c && c <= 4);
            for dy in 0..2i32 {
                for dx in 0..2i32 {
                    assert_eq!(*colors.get_local(&pt(2 * bx + dx, 2 * by + dy, 0)), c);
                }
            }
        }
    }
}
