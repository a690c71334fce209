//! Rendering of pattern grids back into cell grids.  Cells are plain
//! `u32` values; for images they pack four 8-bit channels, for voxel maps
//! they hold a palette index.  All arithmetic is integral: the mean used
//! for superposition images floors, exactly as a float mean floored
//! would.

use crate::entropy::set_weight_sum;
use crate::lattice::{Extent, Lattice, Point};
use crate::pattern::{PatternId, PatternSet, PatternTileSet};
use vstd::prelude::*;

verus! {

/// The palette index that marks an empty voxel.
pub const EMPTY_VOX_COLOR: u32 = 255;

/// A plain list of tiles with their common size.
pub struct TileSet {
    pub tiles: Vec<Lattice<u32>>,
    pub tile_size: Point,
}

impl TileSet {
    /// Reindex the tiles by pattern identifier.
    pub fn into_pattern_tile_set(self) -> (r: PatternTileSet)
        ensures
            r.tiles.view() == self.tiles@,
            r.tile_size == self.tile_size,
    {
        PatternTileSet {
            tiles: crate::static_vec::StaticVec::new(self.tiles),
            tile_size: self.tile_size,
        }
    }
}

/// The componentwise quotient and remainder of an output cell position
/// by the tile size: which tile the cell falls in, and where.
pub open spec fn spec_tile_of(x: Point, tile_size: Point) -> Point {
    Point {
        x: (x.x as int / tile_size.x as int) as i32,
        y: (x.y as int / tile_size.y as int) as i32,
        z: (x.z as int / tile_size.z as int) as i32,
    }
}

pub open spec fn spec_within_tile(x: Point, tile_size: Point) -> Point {
    Point {
        x: (x.x as int % tile_size.x as int) as i32,
        y: (x.y as int % tile_size.y as int) as i32,
        z: (x.z as int % tile_size.z as int) as i32,
    }
}

/// The cell a fully determined pattern grid renders at position `x`: the
/// corresponding cell of the representative tile of the pattern assigned
/// to the tile position `x` falls in.
pub open spec fn spec_rendered_cell(
    pattern_lattice: &Lattice<PatternId>,
    tiles: Seq<Lattice<u32>>,
    tile_size: Point,
    x: Point,
) -> u32 {
    let p = spec_tile_of(x, tile_size);
    let q = spec_within_tile(x, tile_size);
    tiles[pattern_lattice.cell_at(p).0 as int].cell_at(q)
}

/// Render a fully determined pattern grid into cells, tile by tile.
fn color_final_patterns(pattern_lattice: &Lattice<PatternId>, tiles: &PatternTileSet) -> (r:
    Lattice<u32>)
    requires
        pattern_lattice.wf(),
        tiles.tile_size.is_size(),
        pattern_lattice.spec_extent().lsup.x * tiles.tile_size.x <= 1024,
        pattern_lattice.spec_extent().lsup.y * tiles.tile_size.y <= 1024,
        pattern_lattice.spec_extent().lsup.z * tiles.tile_size.z <= 1024,
        pattern_lattice.spec_extent().min == (Point { x: 0, y: 0, z: 0 }),
        forall|i: int|
            0 <= i < pattern_lattice.view().len() ==> ((
            #[trigger] pattern_lattice.view()[i]).0 as int) < tiles.tiles.view().len(),
        forall|t: int|
            0 <= t < tiles.tiles.view().len() ==> (#[trigger] tiles.tiles.view()[t]).wf()
                && tiles.tiles.view()[t].spec_extent() == (Extent {
                min: Point { x: 0, y: 0, z: 0 },
                lsup: tiles.tile_size,
            }),
    ensures
        r.wf(),
        r.spec_extent().min == (Point { x: 0, y: 0, z: 0 }),
        r.spec_extent().lsup == pattern_lattice.spec_extent().lsup.times_spec(tiles.tile_size),
        forall|x: Point|
            r.spec_extent().spec_contains_local(x) ==> #[trigger] r.cell_at(x)
                == spec_rendered_cell(pattern_lattice, tiles.tiles.view(), tiles.tile_size, x),
{
    let pattern_extent = pattern_lattice.get_extent();
    let tile_size = tiles.tile_size;
    proof {
        assert(1 <= pattern_extent.lsup.x * tile_size.x && 1 <= pattern_extent.lsup.y * tile_size.y
            && 1 <= pattern_extent.lsup.z * tile_size.z) by (nonlinear_arith)
            requires
                pattern_extent.lsup.is_size(),
                tile_size.is_size(),
        ;
    }
    let full_size = pattern_extent.get_local_supremum().times(tile_size);
    let full_extent = Extent::from_min_and_local_supremum(Point { x: 0, y: 0, z: 0 }, full_size);
    let vol = full_extent.volume();
    let mut cells: Vec<u32> = Vec::new();
    let mut k: usize = 0;
    while k < vol
        invariant
            k <= vol,
            pattern_lattice.wf(),
            tiles.tile_size.is_size(),
            tile_size == tiles.tile_size,
            pattern_extent == pattern_lattice.spec_extent(),
            pattern_extent.min == (Point { x: 0, y: 0, z: 0 }),
            full_extent.wf(),
            full_extent.min == (Point { x: 0, y: 0, z: 0 }),
            full_extent.lsup == pattern_extent.lsup.times_spec(tile_size),
            vol == full_extent.spec_volume(),
            forall|i: int|
                0 <= i < pattern_lattice.view().len() ==> ((
                #[trigger] pattern_lattice.view()[i]).0 as int) < tiles.tiles.view().len(),
            forall|t: int|
                0 <= t < tiles.tiles.view().len() ==> (#[trigger] tiles.tiles.view()[t]).wf()
                    && tiles.tiles.view()[t].spec_extent() == (Extent {
                    min: Point { x: 0, y: 0, z: 0 },
                    lsup: tile_size,
                }),
            cells@.len() == k,
            forall|j: int|
                0 <= j < k ==> #[trigger] cells@[j] == spec_rendered_cell(
                    pattern_lattice,
                    tiles.tiles.view(),
                    tile_size,
                    full_extent.spec_point_of(j),
                ),
        decreases vol - k,
    {
        let x = full_extent.local_point_from_index(k);
        let p = Point { x: x.x / tile_size.x, y: x.y / tile_size.y, z: x.z / tile_size.z };
        let q = Point { x: x.x % tile_size.x, y: x.y % tile_size.y, z: x.z % tile_size.z };
        proof {
            assert(0 <= (x.x as int) / (tile_size.x as int) && (x.x as int) / (tile_size.x as int)
                < pattern_extent.lsup.x && 0 <= (x.y as int) / (tile_size.y as int) && (
            x.y as int) / (tile_size.y as int) < pattern_extent.lsup.y && 0 <= (x.z as int) / (
            tile_size.z as int) && (x.z as int) / (tile_size.z as int) < pattern_extent.lsup.z)
                by (nonlinear_arith)
                requires
                    0 <= x.x < pattern_extent.lsup.x * tile_size.x,
                    0 <= x.y < pattern_extent.lsup.y * tile_size.y,
                    0 <= x.z < pattern_extent.lsup.z * tile_size.z,
                    tile_size.is_size(),
                    pattern_extent.lsup.is_size(),
            ;
            assert(p == spec_tile_of(x, tile_size));
            assert(q == spec_within_tile(x, tile_size));
        }
        let pattern = *pattern_lattice.get_local(&p);
        proof {
            pattern_lattice.spec_extent().lemma_index_bounds(p);
        }
        let tile = tiles.tiles.get(pattern);
        let cell = *tile.get_local(&q);
        cells.push(cell);
        k = k + 1;
    }
    let r = Lattice::from_vec(full_extent, cells);
    proof {
        assert forall|x: Point| r.spec_extent().spec_contains_local(x) implies #[trigger] r.cell_at(
            x,
        ) == spec_rendered_cell(pattern_lattice, tiles.tiles.view(), tiles.tile_size, x) by {
            full_extent.lemma_index_bounds(x);
            full_extent.lemma_point_of_own_index(x);
        }
    }
    r
}

/// One 8-bit channel of a packed cell: `divisor` selects it (1, 0x100,
/// 0x10000 or 0x1000000).
pub open spec fn spec_channel(v: u32, divisor: int) -> int {
    ((v as int) / divisor) % 256
}

/// The channel values of cell `j` of every tile.
pub open spec fn spec_channel_seq(tiles: Seq<Lattice<u32>>, j: int, divisor: int) -> Seq<u32> {
    Seq::new(tiles.len(), |p: int| spec_channel(tiles[p].view()[j], divisor) as u32)
}

/// The floored mean of one channel of tile cell `j` over the patterns
/// still possible in `s`.
pub open spec fn spec_mean_channel(
    s: Set<u32>,
    tiles: Seq<Lattice<u32>>,
    j: int,
    divisor: int,
) -> int {
    set_weight_sum(s, spec_channel_seq(tiles, j, divisor), tiles.len() as int) / s.len() as int
}

/// Render an undetermined wave as the per-channel mean of the tiles of
/// all still-possible patterns — a fog that sharpens as cells collapse.
pub fn color_superposition(pattern_lattice: &Lattice<PatternSet>, tiles: &PatternTileSet) -> (r:
    Lattice<u32>)
    requires
        pattern_lattice.wf(),
        tiles.tile_size.is_size(),
        pattern_lattice.spec_extent().lsup.x * tiles.tile_size.x <= 1024,
        pattern_lattice.spec_extent().lsup.y * tiles.tile_size.y <= 1024,
        pattern_lattice.spec_extent().lsup.z * tiles.tile_size.z <= 1024,
        pattern_lattice.spec_extent().min == (Point { x: 0, y: 0, z: 0 }),
        tiles.tiles.view().len() <= 0x7fff,
        forall|i: int|
            0 <= i < pattern_lattice.view().len() ==> (#[trigger] pattern_lattice.view()[i]).wf()
                && pattern_lattice.view()[i].spec_len() >= 1 && pattern_lattice.view()[
                i
            ].spec_universe() <= tiles.tiles.view().len(),
        forall|t: int|
            0 <= t < tiles.tiles.view().len() ==> (#[trigger] tiles.tiles.view()[t]).wf()
                && tiles.tiles.view()[t].spec_extent() == (Extent {
                min: Point { x: 0, y: 0, z: 0 },
                lsup: tiles.tile_size,
            }),
    ensures
        r.wf(),
        r.spec_extent().min == (Point { x: 0, y: 0, z: 0 }),
        r.spec_extent().lsup == pattern_lattice.spec_extent().lsup.times_spec(tiles.tile_size),
        forall|x: Point|
            r.spec_extent().spec_contains_local(x) ==> #[trigger] r.cell_at(x) as int == {
                let s = pattern_lattice.cell_at(spec_tile_of(x, tiles.tile_size)).view();
                let tile_extent = Extent {
                    min: Point { x: 0, y: 0, z: 0 },
                    lsup: tiles.tile_size,
                };
                let j = tile_extent.spec_index_of(spec_within_tile(x, tiles.tile_size));
                spec_mean_channel(s, tiles.tiles.view(), j, 1) + 0x100 * spec_mean_channel(
                    s,
                    tiles.tiles.view(),
                    j,
                    0x100,
                ) + 0x10000 * spec_mean_channel(s, tiles.tiles.view(), j, 0x10000) + 0x1000000
                    * spec_mean_channel(s, tiles.tiles.view(), j, 0x1000000)
            },
{
    let pattern_extent = pattern_lattice.get_extent();
    let tile_size = tiles.tile_size;
    proof {
        assert(1 <= pattern_extent.lsup.x * tile_size.x && 1 <= pattern_extent.lsup.y * tile_size.y
            && 1 <= pattern_extent.lsup.z * tile_size.z) by (nonlinear_arith)
            requires
                pattern_extent.lsup.is_size(),
                tile_size.is_size(),
        ;
    }
    let full_size = pattern_extent.get_local_supremum().times(tile_size);
    let full_extent = Extent::from_min_and_local_supremum(Point { x: 0, y: 0, z: 0 }, full_size);
    let tile_extent = Extent::from_min_and_local_supremum(Point { x: 0, y: 0, z: 0 }, tile_size);
    let num = tiles.tiles.num_elements() as u16;
    let vol = full_extent.volume();
    let mut cells: Vec<u32> = Vec::new();
    let mut k: usize = 0;
    while k < vol
        invariant
            k <= vol,
            pattern_lattice.wf(),
            tiles.tile_size.is_size(),
            tile_size == tiles.tile_size,
            pattern_extent == pattern_lattice.spec_extent(),
            pattern_extent.min == (Point { x: 0, y: 0, z: 0 }),
            full_extent.wf(),
            full_extent.min == (Point { x: 0, y: 0, z: 0 }),
            full_extent.lsup == pattern_extent.lsup.times_spec(tile_size),
            tile_extent == (Extent { min: Point { x: 0, y: 0, z: 0 }, lsup: tile_size }),
            vol == full_extent.spec_volume(),
            num == tiles.tiles.view().len(),
            num <= 0x7fff,
            forall|i: int|
                0 <= i < pattern_lattice.view().len() ==> (
                #[trigger] pattern_lattice.view()[i]).wf() && pattern_lattice.view()[
                    i
                ].spec_len() >= 1 && pattern_lattice.view()[i].spec_universe()
                    <= tiles.tiles.view().len(),
            forall|t: int|
                0 <= t < tiles.tiles.view().len() ==> (#[trigger] tiles.tiles.view()[t]).wf()
                    && tiles.tiles.view()[t].spec_extent() == (Extent {
                    min: Point { x: 0, y: 0, z: 0 },
                    lsup: tile_size,
                }),
            cells@.len() == k,
            forall|i: int|
                0 <= i < k ==> #[trigger] cells@[i] as int == {
                    let x = full_extent.spec_point_of(i);
                    let s = pattern_lattice.cell_at(spec_tile_of(x, tile_size)).view();
                    let j = tile_extent.spec_index_of(spec_within_tile(x, tile_size));
                    spec_mean_channel(s, tiles.tiles.view(), j, 1) + 0x100 * spec_mean_channel(
                        s,
                        tiles.tiles.view(),
                        j,
                        0x100,
                    ) + 0x10000 * spec_mean_channel(s, tiles.tiles.view(), j, 0x10000) + 0x1000000
                        * spec_mean_channel(s, tiles.tiles.view(), j, 0x1000000)
                },
        decreases vol - k,
    {
        let x = full_extent.local_point_from_index(k);
        let p = Point { x: x.x / tile_size.x, y: x.y / tile_size.y, z: x.z / tile_size.z };
        let q = Point { x: x.x % tile_size.x, y: x.y % tile_size.y, z: x.z % tile_size.z };
        proof {
            assert(0 <= (x.x as int) / (tile_size.x as int) && (x.x as int) / (tile_size.x as int)
                < pattern_extent.lsup.x && 0 <= (x.y as int) / (tile_size.y as int) && (
            x.y as int) / (tile_size.y as int) < pattern_extent.lsup.y && 0 <= (x.z as int) / (
            tile_size.z as int) && (x.z as int) / (tile_size.z as int) < pattern_extent.lsup.z)
                by (nonlinear_arith)
                requires
                    0 <= x.x < pattern_extent.lsup.x * tile_size.x,
                    0 <= x.y < pattern_extent.lsup.y * tile_size.y,
                    0 <= x.z < pattern_extent.lsup.z * tile_size.z,
                    tile_size.is_size(),
                    pattern_extent.lsup.is_size(),
            ;
            assert(p == spec_tile_of(x, tile_size));
            assert(q == spec_within_tile(x, tile_size));
            pattern_lattice.spec_extent().lemma_index_bounds(p);
        }
        let patterns = pattern_lattice.get_local(&p);
        let j = tile_extent.index_from_local_point(&q);
        let ghost s = patterns.view();
        let ghost tv = tiles.tiles.view();
        let ghost jj = j as int;
        let mut count: u32 = 0;
        let mut sum0: u32 = 0;
        let mut sum1: u32 = 0;
        let mut sum2: u32 = 0;
        let mut sum3: u32 = 0;
        let mut pat: u16 = 0;
        while pat < num
            invariant
                pat <= num,
                num == tv.len(),
                num <= 0x7fff,
                tv == tiles.tiles.view(),
                s == patterns.view(),
                patterns.wf(),
                patterns.spec_universe() <= tv.len(),
                0 <= jj < tile_extent.spec_volume(),
                jj == j as int,
                jj == tile_extent.spec_index_of(spec_within_tile(x, tile_size)),
                tile_extent == (Extent { min: Point { x: 0, y: 0, z: 0 }, lsup: tile_size }),
                tile_size.is_size(),
                forall|t: int|
                    0 <= t < tv.len() ==> (#[trigger] tv[t]).wf() && tv[t].spec_extent() == (
                    Extent { min: Point { x: 0, y: 0, z: 0 }, lsup: tile_size }),
                count == crate::entropy::set_count_below(s, pat as int),
                count <= pat,
                sum0 == set_weight_sum(s, spec_channel_seq(tv, jj, 1), pat as int),
                sum1 == set_weight_sum(s, spec_channel_seq(tv, jj, 0x100), pat as int),
                sum2 == set_weight_sum(s, spec_channel_seq(tv, jj, 0x10000), pat as int),
                sum3 == set_weight_sum(s, spec_channel_seq(tv, jj, 0x1000000), pat as int),
                sum0 <= 255 * count,
                sum1 <= 255 * count,
                sum2 <= 255 * count,
                sum3 <= 255 * count,
            decreases num - pat,
        {
            if patterns.contains(PatternId(pat)) {
                proof {
                    assert(tv[pat as int].wf());
                    assert(tv[pat as int].spec_extent().spec_volume()
                        == tile_extent.spec_volume());
                }
                let tile = tiles.tiles.get(PatternId(pat));
                proof {
                    assert(*tile == tv[pat as int]);
                    assert(tile.wf());
                    assert(tile.spec_extent() == tile_extent);
                    assert(tile.view().len() == tile_extent.spec_volume());
                    assert((j as int) < tile.view().len());
                }
                let cell = *tile.get_linear(j);
                proof {
                    assert(cell == tv[pat as int].view()[jj]);
                    assert(spec_channel_seq(tv, jj, 1)[pat as int] == spec_channel(cell, 1) as u32);
                    assert(spec_channel_seq(tv, jj, 0x100)[pat as int] == spec_channel(
                        cell,
                        0x100,
                    ) as u32);
                    assert(spec_channel_seq(tv, jj, 0x10000)[pat as int] == spec_channel(
                        cell,
                        0x10000,
                    ) as u32);
                    assert(spec_channel_seq(tv, jj, 0x1000000)[pat as int] == spec_channel(
                        cell,
                        0x1000000,
                    ) as u32);
                }
                count = count + 1;
                sum0 = sum0 + cell % 0x100;
                sum1 = sum1 + (cell / 0x100) % 0x100;
                sum2 = sum2 + (cell / 0x10000) % 0x100;
                sum3 = sum3 + (cell / 0x1000000) % 0x100;
            }
            pat = pat + 1;
        }
        proof {
            crate::entropy::lemma_set_count_is_len(s, num as int);
            assert(count == s.len());
            assert(count >= 1);
        }
        let mean0 = sum0 / count;
        let mean1 = sum1 / count;
        let mean2 = sum2 / count;
        let mean3 = sum3 / count;
        proof {
            crate::entropy::lemma_set_weight_sum_nonneg(s, spec_channel_seq(tv, jj, 1), num as int);
            crate::entropy::lemma_set_weight_sum_nonneg(
                s,
                spec_channel_seq(tv, jj, 0x100),
                num as int,
            );
            crate::entropy::lemma_set_weight_sum_nonneg(
                s,
                spec_channel_seq(tv, jj, 0x10000),
                num as int,
            );
            crate::entropy::lemma_set_weight_sum_nonneg(
                s,
                spec_channel_seq(tv, jj, 0x1000000),
                num as int,
            );
            assert(sum0 / count <= 255 && sum1 / count <= 255 && sum2 / count <= 255 && sum3
                / count <= 255) by (nonlinear_arith)
                requires
                    count >= 1,
                    sum0 <= 255 * count,
                    sum1 <= 255 * count,
                    sum2 <= 255 * count,
                    sum3 <= 255 * count,
            ;
        }
        let packed = mean0 + 0x100 * mean1 + 0x10000 * mean2 + 0x1000000 * mean3;
        cells.push(packed);
        k = k + 1;
    }
    let r = Lattice::from_vec(full_extent, cells);
    proof {
        assert forall|x: Point| r.spec_extent().spec_contains_local(x) implies #[trigger] r.cell_at(
            x,
        ) as int == {
            let s = pattern_lattice.cell_at(spec_tile_of(x, tiles.tile_size)).view();
            let tile_extent2 = Extent { min: Point { x: 0, y: 0, z: 0 }, lsup: tiles.tile_size };
            let j = tile_extent2.spec_index_of(spec_within_tile(x, tiles.tile_size));
            spec_mean_channel(s, tiles.tiles.view(), j, 1) + 0x100 * spec_mean_channel(
                s,
                tiles.tiles.view(),
                j,
                0x100,
            ) + 0x10000 * spec_mean_channel(s, tiles.tiles.view(), j, 0x10000) + 0x1000000
                * spec_mean_channel(s, tiles.tiles.view(), j, 0x1000000)
        } by {
            full_extent.lemma_index_bounds(x);
            full_extent.lemma_point_of_own_index(x);
        }
    }
    r
}

/// Render a determined pattern grid into packed RGBA cells.
pub fn color_final_patterns_rgba(pattern_lattice: &Lattice<PatternId>, tiles: &PatternTileSet) -> (
    r: Lattice<u32>)
    requires
        pattern_lattice.wf(),
        tiles.tile_size.is_size(),
        pattern_lattice.spec_extent().lsup.x * tiles.tile_size.x <= 1024,
        pattern_lattice.spec_extent().lsup.y * tiles.tile_size.y <= 1024,
        pattern_lattice.spec_extent().lsup.z * tiles.tile_size.z <= 1024,
        pattern_lattice.spec_extent().min == (Point { x: 0, y: 0, z: 0 }),
        forall|i: int|
            0 <= i < pattern_lattice.view().len() ==> ((
            #[trigger] pattern_lattice.view()[i]).0 as int) < tiles.tiles.view().len(),
        forall|t: int|
            0 <= t < tiles.tiles.view().len() ==> (#[trigger] tiles.tiles.view()[t]).wf()
                && tiles.tiles.view()[t].spec_extent() == (Extent {
                min: Point { x: 0, y: 0, z: 0 },
                lsup: tiles.tile_size,
            }),
    ensures
        r.wf(),
        r.spec_extent().lsup == pattern_lattice.spec_extent().lsup.times_spec(tiles.tile_size),
        forall|x: Point|
            r.spec_extent().spec_contains_local(x) ==> #[trigger] r.cell_at(x)
                == spec_rendered_cell(pattern_lattice, tiles.tiles.view(), tiles.tile_size, x),
{
    color_final_patterns(pattern_lattice, tiles)
}

/// Render a determined pattern grid into voxel palette indices.
pub fn color_final_patterns_vox(pattern_lattice: &Lattice<PatternId>, tiles: &PatternTileSet) -> (
    r: Lattice<u32>)
    requires
        pattern_lattice.wf(),
        tiles.tile_size.is_size(),
        pattern_lattice.spec_extent().lsup.x * tiles.tile_size.x <= 1024,
        pattern_lattice.spec_extent().lsup.y * tiles.tile_size.y <= 1024,
        pattern_lattice.spec_extent().lsup.z * tiles.tile_size.z <= 1024,
        pattern_lattice.spec_extent().min == (Point { x: 0, y: 0, z: 0 }),
        forall|i: int|
            0 <= i < pattern_lattice.view().len() ==> ((
            #[trigger] pattern_lattice.view()[i]).0 as int) < tiles.tiles.view().len(),
        forall|t: int|
            0 <= t < tiles.tiles.view().len() ==> (#[trigger] tiles.tiles.view()[t]).wf()
                && tiles.tiles.view()[t].spec_extent() == (Extent {
                min: Point { x: 0, y: 0, z: 0 },
                lsup: tiles.tile_size,
            }),
    ensures
        r.wf(),
        r.spec_extent().lsup == pattern_lattice.spec_extent().lsup.times_spec(tiles.tile_size),
        forall|x: Point|
            r.spec_extent().spec_contains_local(x) ==> #[trigger] r.cell_at(x)
                == spec_rendered_cell(pattern_lattice, tiles.tiles.view(), tiles.tile_size, x),
{
    color_final_patterns(pattern_lattice, tiles)
}

/// One bookkeeping coordinate advanced by a tile edge plus a separating
/// gap, frozen once it leaves the bounded range so it cannot overflow.
pub open spec fn spec_palette_bump(v: int, edge: int) -> int {
    if v <= 0x100000 {
        v + edge + 1
    } else {
        v
    }
}

/// Where the tile offered at bookkeeping position `pos` is placed: the
/// position wrapped to the next row when the row is full, and to the
/// next slab when the slab is full.
pub open spec fn spec_palette_place(pos: Point, ts: Point, md: int) -> Point {
    let p1 = if pos.x + ts.x > md {
        Point { x: 0, y: spec_palette_bump(pos.y as int, ts.y as int) as i32, z: pos.z }
    } else {
        pos
    };
    if p1.y + ts.y > md {
        Point { x: p1.x, y: 0, z: spec_palette_bump(p1.z as int, ts.z as int) as i32 }
    } else {
        p1
    }
}

/// The bookkeeping position before tile `t` is considered.
pub open spec fn spec_palette_state(ts: Point, md: int, t: nat) -> Point
    decreases t,
{
    if t == 0 {
        Point { x: 0, y: 0, z: 0 }
    } else {
        let q = spec_palette_place(spec_palette_state(ts, md, (t - 1) as nat), ts, md);
        Point { x: spec_palette_bump(q.x as int, ts.x as int) as i32, y: q.y, z: q.z }
    }
}

/// Where tile `t` lands in the palette.
pub open spec fn spec_palette_slot(ts: Point, md: int, t: nat) -> Point {
    spec_palette_place(spec_palette_state(ts, md, t), ts, md)
}

/// Does a tile placed at `q` lie wholly inside the palette bounds?
pub open spec fn spec_palette_fits(q: Point, ts: Point, md: int) -> bool {
    &&& q.x + ts.x <= md
    &&& q.y + ts.y <= md
    &&& q.z + ts.z <= md
}

/// The box of the tile at `q` lies strictly before position `pos` in the
/// palette's row-by-row order, with the separating gap in between.
pub open spec fn spec_box_before(pos: Point, q: Point, ts: Point) -> bool {
    ||| q.z + ts.z < pos.z
    ||| (q.z == pos.z && q.y + ts.y < pos.y)
    ||| (q.z == pos.z && q.y == pos.y && q.x + ts.x < pos.x)
}

/// Every bookkeeping position and slot of the layout has nonnegative,
/// bounded coordinates.
pub proof fn lemma_palette_state_bounds(ts: Point, md: int, t: nat)
    requires
        ts.is_size(),
        2 <= md <= 1024,
    ensures
        ({
            let pos = spec_palette_state(ts, md, t);
            0 <= pos.x <= 0x110000 && 0 <= pos.y <= 0x110000 && 0 <= pos.z <= 0x110000
        }),
        ({
            let q = spec_palette_slot(ts, md, t);
            0 <= q.x <= 0x110000 && 0 <= q.y <= 0x110000 && 0 <= q.z <= 0x110000
        }),
    decreases t,
{
    if t > 0 {
        lemma_palette_state_bounds(ts, md, (t - 1) as nat);
    }
}

/// Lay the tiles out in a row-by-row palette grid, for inspection: tile
/// `t` occupies the box at `spec_palette_slot`, one tile edge plus a gap
/// apart from its neighbors.  A tile whose box would run past the
/// palette bounds is skipped.
pub fn make_palette_lattice(tiles: &TileSet, default_cell: u32, max_dim: usize) -> (r: Lattice<
    u32,
>)
    requires
        tiles.tile_size.is_size(),
        2 <= max_dim <= 1024,
        tiles.tile_size.x < max_dim,
        tiles.tile_size.y < max_dim,
        tiles.tile_size.z < max_dim,
        forall|t: int|
            0 <= t < tiles.tiles@.len() ==> (#[trigger] tiles.tiles@[t]).wf()
                && tiles.tiles@[t].spec_extent() == (Extent {
                min: Point { x: 0, y: 0, z: 0 },
                lsup: tiles.tile_size,
            }),
    ensures
        r.wf(),
        r.spec_extent() == (Extent {
            min: Point { x: 0, y: 0, z: 0 },
            lsup: Point { x: max_dim as i32, y: max_dim as i32, z: max_dim as i32 },
        }),
        forall|t: int, j: int|
            0 <= t < tiles.tiles@.len() && 0 <= j < (Extent {
                min: Point { x: 0, y: 0, z: 0 },
                lsup: tiles.tile_size,
            }).spec_volume() && spec_palette_fits(
                spec_palette_slot(tiles.tile_size, max_dim as int, t as nat),
                tiles.tile_size,
                max_dim as int,
            ) ==> #[trigger] r.cell_at(
                spec_palette_slot(tiles.tile_size, max_dim as int, t as nat).plus_spec(
                    (Extent { min: Point { x: 0, y: 0, z: 0 }, lsup: tiles.tile_size })
                        .spec_point_of(j),
                ),
            ) == tiles.tiles@[t].view()[j],
{
    let md = max_dim as i32;
    let ghost mdi = max_dim as int;
    let tile_size = tiles.tile_size;
    let ghost tpext = Extent { min: Point { x: 0, y: 0, z: 0 }, lsup: tile_size };
    let palette_extent = Extent::from_min_and_local_supremum(
        Point { x: 0, y: 0, z: 0 },
        Point { x: md, y: md, z: md },
    );
    let mut palette = Lattice::fill(palette_extent, default_cell);
    let mut next_min = Point { x: 0, y: 0, z: 0 };
    let num_tiles = tiles.tiles.len();
    let mut t: usize = 0;
    while t < num_tiles
        invariant
            t <= num_tiles,
            num_tiles == tiles.tiles@.len(),
            tiles.tile_size.is_size(),
            tile_size == tiles.tile_size,
            tpext == (Extent { min: Point { x: 0, y: 0, z: 0 }, lsup: tile_size }),
            2 <= md <= 1024,
            mdi == md,
            tile_size.x < md,
            tile_size.y < md,
            tile_size.z < md,
            palette_extent == (Extent {
                min: Point { x: 0, y: 0, z: 0 },
                lsup: Point { x: md, y: md, z: md },
            }),
            palette.wf(),
            palette.spec_extent() == palette_extent,
            0 <= next_min.x <= 0x110000,
            0 <= next_min.y <= 0x110000,
            0 <= next_min.z <= 0x110000,
            next_min == spec_palette_state(tile_size, mdi, t as nat),
            forall|i: int|
                0 <= i < tiles.tiles@.len() ==> (#[trigger] tiles.tiles@[i]).wf()
                    && tiles.tiles@[i].spec_extent() == (Extent {
                    min: Point { x: 0, y: 0, z: 0 },
                    lsup: tile_size,
                }),
            forall|t2: int|
                0 <= t2 < t && spec_palette_fits(
                    spec_palette_slot(tile_size, mdi, t2 as nat),
                    tile_size,
                    mdi,
                ) ==> spec_box_before(
                    next_min,
                    #[trigger] spec_palette_slot(tile_size, mdi, t2 as nat),
                    tile_size,
                ),
            forall|t2: int, j: int|
                0 <= t2 < t && 0 <= j < tpext.spec_volume() && spec_palette_fits(
                    spec_palette_slot(tile_size, mdi, t2 as nat),
                    tile_size,
                    mdi,
                ) ==> #[trigger] palette.cell_at(
                    spec_palette_slot(tile_size, mdi, t2 as nat).plus_spec(
                        tpext.spec_point_of(j),
                    ),
                ) == tiles.tiles@[t2].view()[j],
        decreases num_tiles - t,
    {
        let ghost pos0 = next_min;
        if next_min.x + tile_size.x > md {
            let bumped_y = if next_min.y <= 0x100000 {
                next_min.y + tile_size.y + 1
            } else {
                next_min.y
            };
            next_min = Point { x: 0, y: bumped_y, z: next_min.z };
        }
        if next_min.y + tile_size.y > md {
            let bumped_z = if next_min.z <= 0x100000 {
                next_min.z + tile_size.z + 1
            } else {
                next_min.z
            };
            next_min = Point { x: next_min.x, y: 0, z: bumped_z };
        }
        proof {
            assert(next_min == spec_palette_place(pos0, tile_size, mdi));
            assert(next_min == spec_palette_slot(tile_size, mdi, t as nat));
            // wrapping keeps every already placed box strictly before
            assert forall|t2: int|
                0 <= t2 < t && spec_palette_fits(
                    spec_palette_slot(tile_size, mdi, t2 as nat),
                    tile_size,
                    mdi,
                ) implies spec_box_before(
                next_min,
                #[trigger] spec_palette_slot(tile_size, mdi, t2 as nat),
                tile_size,
            ) by {
                let q = spec_palette_slot(tile_size, mdi, t2 as nat);
                assert(spec_box_before(pos0, q, tile_size));
            }
        }
        if next_min.z + tile_size.z <= md && next_min.x + tile_size.x <= md && next_min.y
            + tile_size.y <= md {
            // copy the tile into place
            let ghost slot_point = next_min;
            let tile = &tiles.tiles[t];
            let tile_extent = Extent::from_min_and_local_supremum(
                Point { x: 0, y: 0, z: 0 },
                tile_size,
            );
            let tvol = tile_extent.volume();
            let mut j: usize = 0;
            while j < tvol
                invariant
                    j <= tvol,
                    t < num_tiles,
                    num_tiles == tiles.tiles@.len(),
                    tile_size.is_size(),
                    tile_extent == tpext,
                    tpext == (Extent { min: Point { x: 0, y: 0, z: 0 }, lsup: tile_size }),
                    tvol == tile_extent.spec_volume(),
                    tile.wf(),
                    *tile == tiles.tiles@[t as int],
                    tile.spec_extent() == tile_extent,
                    2 <= md <= 1024,
                    mdi == md,
                    palette.wf(),
                    palette.spec_extent() == palette_extent,
                    palette_extent == (Extent {
                        min: Point { x: 0, y: 0, z: 0 },
                        lsup: Point { x: md, y: md, z: md },
                    }),
                    0 <= next_min.x,
                    0 <= next_min.y,
                    0 <= next_min.z,
                    next_min.x + tile_size.x <= md,
                    next_min.y + tile_size.y <= md,
                    next_min.z + tile_size.z <= md,
                    next_min == slot_point,
                    slot_point == spec_palette_slot(tile_size, mdi, t as nat),
                    forall|t2: int|
                        0 <= t2 < t && spec_palette_fits(
                            spec_palette_slot(tile_size, mdi, t2 as nat),
                            tile_size,
                            mdi,
                        ) ==> spec_box_before(
                            slot_point,
                            #[trigger] spec_palette_slot(tile_size, mdi, t2 as nat),
                            tile_size,
                        ),
                    forall|t2: int, j2: int|
                        0 <= t2 < t && 0 <= j2 < tpext.spec_volume() && spec_palette_fits(
                            spec_palette_slot(tile_size, mdi, t2 as nat),
                            tile_size,
                            mdi,
                        ) ==> #[trigger] palette.cell_at(
                            spec_palette_slot(tile_size, mdi, t2 as nat).plus_spec(
                                tpext.spec_point_of(j2),
                            ),
                        ) == tiles.tiles@[t2].view()[j2],
                    forall|j2: int|
                        0 <= j2 < j ==> #[trigger] palette.cell_at(
                            slot_point.plus_spec(tpext.spec_point_of(j2)),
                        ) == tiles.tiles@[t as int].view()[j2],
                decreases tvol - j,
            {
                let q = tile_extent.local_point_from_index(j);
                let dst = next_min.plus(q);
                let ghost before_write = palette;
                palette.set_local(&dst, *tile.get_linear(j));
                proof {
                    let written = palette_extent.spec_index_of(dst);
                    palette_extent.lemma_index_bounds(dst);
                    // earlier tiles sit in boxes strictly before this
                    // one, so their cells are untouched
                    assert forall|t2: int, j2: int|
                        0 <= t2 < t && 0 <= j2 < tpext.spec_volume() && spec_palette_fits(
                            spec_palette_slot(tile_size, mdi, t2 as nat),
                            tile_size,
                            mdi,
                        ) implies #[trigger] palette.cell_at(
                        spec_palette_slot(tile_size, mdi, t2 as nat).plus_spec(
                            tpext.spec_point_of(j2),
                        ),
                    ) == tiles.tiles@[t2].view()[j2] by {
                        let q2 = spec_palette_slot(tile_size, mdi, t2 as nat);
                        lemma_palette_state_bounds(tile_size, mdi, t2 as nat);
                        let v = tpext.spec_point_of(j2);
                        tpext.lemma_index_of_own_point(j2);
                        let cell = q2.plus_spec(v);
                        palette_extent.lemma_index_bounds(cell);
                        assert(spec_box_before(slot_point, q2, tile_size));
                        assert(cell != dst);
                        if palette_extent.spec_index_of(cell) == written {
                            palette_extent.lemma_point_of_own_index(cell);
                            palette_extent.lemma_point_of_own_index(dst);
                            assert(false);
                        }
                        assert(palette.cell_at(cell) == before_write.cell_at(cell));
                    }
                    // cells of this tile written so far keep their values
                    assert forall|j2: int| 0 <= j2 < j + 1 implies #[trigger] palette.cell_at(
                        slot_point.plus_spec(tpext.spec_point_of(j2)),
                    ) == tiles.tiles@[t as int].view()[j2] by {
                        let v = tpext.spec_point_of(j2);
                        tpext.lemma_index_of_own_point(j2);
                        let cell = slot_point.plus_spec(v);
                        palette_extent.lemma_index_bounds(cell);
                        if j2 < j {
                            assert(cell != dst || j2 == j as int) by {
                                if cell == dst {
                                    assert(v == q);
                                    assert(tpext.spec_index_of(v) == j2);
                                }
                            }
                            if palette_extent.spec_index_of(cell) == written {
                                palette_extent.lemma_point_of_own_index(cell);
                                palette_extent.lemma_point_of_own_index(dst);
                                assert(v == q);
                                assert(tpext.spec_index_of(v) == j2);
                                assert(false);
                            }
                            assert(palette.cell_at(cell) == before_write.cell_at(cell));
                        } else {
                            assert(cell == dst);
                            assert(palette.cell_at(cell) == tiles.tiles@[t as int].view()[j2]);
                        }
                    }
                }
                j = j + 1;
            }
        }
        let ghost placed = next_min;
        let bumped_x = if next_min.x <= 0x100000 {
            next_min.x + tile_size.x + 1
        } else {
            next_min.x
        };
        next_min = Point { x: bumped_x, y: next_min.y, z: next_min.z };
        proof {
            assert(next_min == spec_palette_state(tile_size, mdi, (t + 1) as nat));
            assert forall|t2: int|
                0 <= t2 < t + 1 && spec_palette_fits(
                    spec_palette_slot(tile_size, mdi, t2 as nat),
                    tile_size,
                    mdi,
                ) implies spec_box_before(
                next_min,
                #[trigger] spec_palette_slot(tile_size, mdi, t2 as nat),
                tile_size,
            ) by {
                let q = spec_palette_slot(tile_size, mdi, t2 as nat);
                if t2 < t {
                    assert(spec_box_before(placed, q, tile_size));
                } else {
                    assert(q == placed);
                    assert(q.x + tile_size.x <= mdi);
                }
            }
        }
        t = t + 1;
    }
    palette
}

} // verus!