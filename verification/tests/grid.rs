//! Unit checks of the grid primitives, the identifier-indexed vector,
//! the pattern set, and the renderers.

use wfc_core::pattern::{PatternId, PatternMap, PatternSet};
use wfc_core::static_vec::StaticVec;
use wfc_core::{Extent, Lattice, Point};

fn pt(x: i32, y: i32, z: i32) -> Point {
    Point { x, y, z }
}

#[test]
fn point_index_round_trip() {
    let extent = Extent::from_min_and_local_supremum(pt(0, 0, 0), pt(3, 4, 5));
    assert_eq!(extent.volume(), 60);
    for i in 0..extent.volume() {
        let p = extent.local_point_from_index(i);
        assert!(extent.contains_local(&p));
        assert_eq!(extent.index_from_local_point(&p), i);
    }
}

#[test]
fn canonical_order_is_y_then_z_then_x() {
    let extent = Extent::from_min_and_local_supremum(pt(2, 2, 2), pt(3, 4, 5));
    // index = (y * sz + z) * sx + x
    assert_eq!(extent.index_from_local_point(&pt(1, 0, 0)), 1);
    assert_eq!(extent.index_from_local_point(&pt(0, 0, 1)), 3);
    assert_eq!(extent.index_from_local_point(&pt(0, 1, 0)), 15);
}

#[test]
fn toroidal_reads_wrap_on_every_axis() {
    let extent = Extent::from_min_and_local_supremum(pt(0, 0, 0), pt(2, 2, 1));
    let lattice = Lattice::from_vec(extent, vec![1, 2, 3, 4]);
    assert_eq!(*lattice.get_toroidal(&pt(0, 0, 0)), 1);
    assert_eq!(*lattice.get_toroidal(&pt(2, 0, 0)), 1);
    assert_eq!(*lattice.get_toroidal(&pt(-1, 0, 0)), 2);
    assert_eq!(*lattice.get_toroidal(&pt(0, -1, 0)), 3);
    assert_eq!(*lattice.get_toroidal(&pt(3, 3, 2)), 4);
}

#[test]
fn world_access_subtracts_the_minimum() {
    let extent = Extent::from_min_and_local_supremum(pt(10, 20, 30), pt(2, 2, 2));
    let mut lattice = Lattice::fill(extent, 0u32);
    lattice.set_world(&pt(11, 20, 30), 9);
    assert_eq!(*lattice.get_world(&pt(11, 20, 30)), 9);
    assert_eq!(*lattice.get_local(&pt(1, 0, 0)), 9);
}

#[test]
fn static_vec_basics() {
    let mut v: PatternMap<u32> = StaticVec::new(vec![5, 6]);
    assert_eq!(v.num_elements(), 2);
    v.push(7);
    assert_eq!(*v.get(PatternId(2)), 7);
    v.set(PatternId(0), 50);
    assert_eq!(*v.get(PatternId(0)), 50);
    *v.get_mut(PatternId(1)) = 60;
    assert_eq!(*v.get(PatternId(1)), 60);
    let doubled = v.map(|x: &u32| x + x);
    assert_eq!(*doubled.get(PatternId(0)), 100);
    let ids = v.iter();
    assert_eq!(ids.len(), 3);
    assert_eq!(ids[2].0, 2);
    let filled: PatternMap<i16> = StaticVec::fill(3, 4);
    assert_eq!(filled.num_elements(), 4);
    assert_eq!(*filled.get(PatternId(3)), 3);
}

#[test]
fn pattern_set_tracks_membership_and_size() {
    let mut s = PatternSet::all(5);
    assert_eq!(s.len(), 5);
    assert!(!s.is_empty());
    assert!(s.contains(PatternId(3)));
    s.remove(PatternId(3));
    assert!(!s.contains(PatternId(3)));
    assert_eq!(s.len(), 4);
    let members = s.iter();
    assert_eq!(members.len(), 4);
    assert_eq!(
        members.iter().map(|p| p.0).collect::<Vec<u16>>(),
        vec![0, 1, 2, 4]
    );
    assert_eq!(s.first().0, 0);
    s.remove(PatternId(0));
    s.remove(PatternId(1));
    assert_eq!(s.first().0, 2);
}

#[test]
fn superposition_averages_channels() {
    // two patterns, tiles of one cell each holding packed channel values
    let tile_extent = Extent::from_min_and_local_supremum(pt(0, 0, 0), pt(1, 1, 1));
    let tiles = wfc_core::TileSet {
        tiles: vec![
            Lattice::from_vec(tile_extent, vec![0x0000_0064]),
            Lattice::from_vec(tile_extent, vec![0x0000_00c8]),
        ],
        tile_size: pt(1, 1, 1),
    }
    .into_pattern_tile_set();
    let pattern_extent = Extent::from_min_and_local_supremum(pt(0, 0, 0), pt(1, 1, 1));
    let both = Lattice::from_vec(pattern_extent, vec![PatternSet::all(2)]);
    let blended = wfc_core::color_superposition(&both, &tiles);
    // mean of 0x64 and 0xc8 in the lowest channel
    assert_eq!(*blended.get_linear(0), (0x64 + 0xc8) / 2);
}

#[test]
fn palette_lays_tiles_out_in_rows() {
    let tile_extent = Extent::from_min_and_local_supremum(pt(0, 0, 0), pt(1, 1, 1));
    let tiles = wfc_core::TileSet {
        tiles: vec![
            Lattice::from_vec(tile_extent, vec![11]),
            Lattice::from_vec(tile_extent, vec![22]),
        ],
        tile_size: pt(1, 1, 1),
    };
    let palette = wfc_core::make_palette_lattice(&tiles, 0, 8);
    assert_eq!(*palette.get_local(&pt(0, 0, 0)), 11);
    assert_eq!(*palette.get_local(&pt(2, 0, 0)), 22);
    assert_eq!(*palette.get_local(&pt(4, 0, 0)), 0);
}
