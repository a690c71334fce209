//! Grid primitives: integer points, axis-aligned extents, and grids stored
//! as one flat vector in a fixed row-major order (`y` slowest, then `z`,
//! then `x`).  The point/index conversion is a pure function of the extent,
//! so linear indices stored by the collapse loop can always be turned back
//! into points.

use vstd::prelude::*;

verus! {

/// Largest size of a grid on any one axis.  Keeps every volume within
/// `u32` and every index computation free of overflow.
pub const AXIS_BOUND: i32 = 1024;

/// Bound on the magnitude of a minimum coordinate of an extent.
pub const COORD_BOUND: i32 = 0x100000;

/// An integer position (or displacement) in three dimensions.
#[derive(Clone, Copy, Debug, PartialEq, Eq, Structural)]
pub struct Point {
    pub x: i32,
    pub y: i32,
    pub z: i32,
}

impl Point {
    pub fn new(x: i32, y: i32, z: i32) -> (r: Point)
        ensures
            r == (Point { x, y, z }),
    {
        Point { x, y, z }
    }

    /// Componentwise sum.
    pub fn plus(self, other: Point) -> (r: Point)
        requires
            -0x40000000 <= self.x + other.x <= 0x40000000,
            -0x40000000 <= self.y + other.y <= 0x40000000,
            -0x40000000 <= self.z + other.z <= 0x40000000,
        ensures
            r.x == self.x + other.x,
            r.y == self.y + other.y,
            r.z == self.z + other.z,
    {
        Point { x: self.x + other.x, y: self.y + other.y, z: self.z + other.z }
    }

    /// Componentwise difference.
    pub fn minus(self, other: Point) -> (r: Point)
        requires
            -0x40000000 <= self.x - other.x <= 0x40000000,
            -0x40000000 <= self.y - other.y <= 0x40000000,
            -0x40000000 <= self.z - other.z <= 0x40000000,
        ensures
            r.x == self.x - other.x,
            r.y == self.y - other.y,
            r.z == self.z - other.z,
    {
        Point { x: self.x - other.x, y: self.y - other.y, z: self.z - other.z }
    }

    /// Componentwise product.
    pub fn times(self, other: Point) -> (r: Point)
        requires
            -0x40000000 <= self.x * other.x <= 0x40000000,
            -0x40000000 <= self.y * other.y <= 0x40000000,
            -0x40000000 <= self.z * other.z <= 0x40000000,
        ensures
            r.x == self.x * other.x,
            r.y == self.y * other.y,
            r.z == self.z * other.z,
    {
        Point { x: self.x * other.x, y: self.y * other.y, z: self.z * other.z }
    }

    /// Componentwise negation.
    pub fn negate(self) -> (r: Point)
        requires
            self.x > i32::MIN,
            self.y > i32::MIN,
            self.z > i32::MIN,
        ensures
            r.x == -self.x,
            r.y == -self.y,
            r.z == -self.z,
    {
        Point { x: -self.x, y: -self.y, z: -self.z }
    }

    /// All components positive and within the per-axis bound, as required
    /// of a grid size.
    pub open spec fn is_size(self) -> bool {
        &&& 1 <= self.x <= AXIS_BOUND
        &&& 1 <= self.y <= AXIS_BOUND
        &&& 1 <= self.z <= AXIS_BOUND
    }

    /// Runtime check for `is_size`.
    pub fn check_size(&self) -> (r: bool)
        ensures
            r == self.is_size(),
    {
        1 <= self.x && self.x <= AXIS_BOUND && 1 <= self.y && self.y <= AXIS_BOUND && 1 <= self.z
            && self.z <= AXIS_BOUND
    }
}

/// Ceiling division of each component, used to size the grid of pattern
/// anchors when the input is covered by tiles.
pub fn div_ceil_point(a: Point, b: Point) -> (r: Point)
    requires
        0 <= a.x <= AXIS_BOUND && 0 <= a.y <= AXIS_BOUND && 0 <= a.z <= AXIS_BOUND,
        b.is_size(),
    ensures
        r.x == (a.x + b.x - 1) as int / b.x as int,
        r.y == (a.y + b.y - 1) as int / b.y as int,
        r.z == (a.z + b.z - 1) as int / b.z as int,
{
    Point {
        x: (a.x + b.x - 1) / b.x,
        y: (a.y + b.y - 1) / b.y,
        z: (a.z + b.z - 1) / b.z,
    }
}

/// An axis-aligned box of grid cells: a minimum point plus a size (the
/// local supremum).
#[derive(Clone, Copy, Debug, PartialEq, Eq, Structural)]
pub struct Extent {
    pub min: Point,
    pub lsup: Point,
}

impl Extent {
    pub open spec fn wf(self) -> bool {
        &&& self.lsup.is_size()
        &&& -COORD_BOUND <= self.min.x <= COORD_BOUND
        &&& -COORD_BOUND <= self.min.y <= COORD_BOUND
        &&& -COORD_BOUND <= self.min.z <= COORD_BOUND
    }

    pub open spec fn spec_volume(self) -> int {
        self.lsup.x * self.lsup.y * self.lsup.z
    }

    pub fn from_min_and_local_supremum(min: Point, lsup: Point) -> (r: Extent)
        requires
            (Extent { min, lsup }).wf(),
        ensures
            r == (Extent { min, lsup }),
    {
        Extent { min, lsup }
    }

    pub fn get_local_supremum(&self) -> (r: Point)
        ensures
            r == self.lsup,
    {
        self.lsup
    }

    pub fn get_minimum(&self) -> (r: Point)
        ensures
            r == self.min,
    {
        self.min
    }

    pub proof fn lemma_volume_bounds(self)
        requires
            self.wf(),
        ensures
            1 <= self.spec_volume() <= 0x40000000,
    {
        assert(1 <= self.lsup.x * self.lsup.y * self.lsup.z <= 0x40000000) by (nonlinear_arith)
            requires
                1 <= self.lsup.x <= AXIS_BOUND,
                1 <= self.lsup.y <= AXIS_BOUND,
                1 <= self.lsup.z <= AXIS_BOUND,
        ;
    }

    /// Number of cells in the extent.
    pub fn volume(&self) -> (r: usize)
        requires
            self.wf(),
        ensures
            r == self.spec_volume(),
            1 <= r <= 0x40000000,
    {
        proof {
            self.lemma_volume_bounds();
        }
        let vx = self.lsup.x as usize;
        let vy = self.lsup.y as usize;
        let vz = self.lsup.z as usize;
        assert(vx * vy * vz == self.spec_volume() && vx * vy <= 0x100000) by (nonlinear_arith)
            requires
                vx == self.lsup.x,
                vy == self.lsup.y,
                vz == self.lsup.z,
                1 <= self.lsup.x <= AXIS_BOUND,
                1 <= self.lsup.y <= AXIS_BOUND,
                1 <= self.lsup.z <= AXIS_BOUND,
        ;
        vx * vy * vz
    }

    /// Does the point lie in the extent, in local coordinates
    /// (`0 <= p < lsup`)?
    pub open spec fn spec_contains_local(self, p: Point) -> bool {
        &&& 0 <= p.x < self.lsup.x
        &&& 0 <= p.y < self.lsup.y
        &&& 0 <= p.z < self.lsup.z
    }

    pub fn contains_local(&self, p: &Point) -> (r: bool)
        ensures
            r == self.spec_contains_local(*p),
    {
        0 <= p.x && p.x < self.lsup.x && 0 <= p.y && p.y < self.lsup.y && 0 <= p.z && p.z
            < self.lsup.z
    }

    /// Does the point lie in the extent, in world coordinates?
    pub open spec fn spec_contains_world(self, p: Point) -> bool {
        &&& self.min.x <= p.x < self.min.x + self.lsup.x
        &&& self.min.y <= p.y < self.min.y + self.lsup.y
        &&& self.min.z <= p.z < self.min.z + self.lsup.z
    }

    pub fn contains_world(&self, p: &Point) -> (r: bool)
        requires
            self.wf(),
        ensures
            r == self.spec_contains_world(*p),
    {
        self.min.x <= p.x && p.x < self.min.x + self.lsup.x && self.min.y <= p.y && p.y
            < self.min.y + self.lsup.y && self.min.z <= p.z && p.z < self.min.z + self.lsup.z
    }

    /// Linear index of a local point: row-major with `y` slowest, then
    /// `z`, then `x`.
    pub open spec fn spec_index_of(self, p: Point) -> int {
        (p.y * self.lsup.z + p.z) * self.lsup.x + p.x
    }

    /// Local point of a linear index (inverse of `spec_index_of`).
    pub open spec fn spec_point_of(self, i: int) -> Point {
        Point {
            x: (i % self.lsup.x as int) as i32,
            y: (i / (self.lsup.x as int * self.lsup.z as int)) as i32,
            z: ((i / self.lsup.x as int) % self.lsup.z as int) as i32,
        }
    }

    pub proof fn lemma_index_bounds(self, p: Point)
        requires
            self.wf(),
            self.spec_contains_local(p),
        ensures
            0 <= self.spec_index_of(p) < self.spec_volume(),
    {
        assert(0 <= (p.y * self.lsup.z + p.z) * self.lsup.x + p.x < self.lsup.x * self.lsup.y
            * self.lsup.z) by (nonlinear_arith)
            requires
                0 <= p.x < self.lsup.x,
                0 <= p.y < self.lsup.y,
                0 <= p.z < self.lsup.z,
                self.lsup.is_size(),
        ;
    }

    pub proof fn lemma_point_of_own_index(self, p: Point)
        requires
            self.wf(),
            self.spec_contains_local(p),
        ensures
            self.spec_point_of(self.spec_index_of(p)) == p,
    {
        let sx = self.lsup.x as int;
        let sz = self.lsup.z as int;
        let i = self.spec_index_of(p);
        assert(i == (p.y * sz + p.z) * sx + p.x);
        assert(i % sx == p.x && i / sx == p.y * sz + p.z) by (nonlinear_arith)
            requires
                i == (p.y * sz + p.z) * sx + p.x,
                0 <= p.x < sx,
                0 <= p.z < sz,
                0 <= p.y,
                1 <= sx,
                1 <= sz,
        ;
        assert((p.y * sz + p.z) % sz == p.z && (p.y * sz + p.z) / sz == p.y) by (nonlinear_arith)
            requires
                0 <= p.z < sz,
                0 <= p.y,
                1 <= sz,
        ;
        assert(i / (sx * sz) == (i / sx) / sz) by (nonlinear_arith)
            requires
                0 <= i,
                1 <= sx,
                1 <= sz,
        ;
    }

    pub proof fn lemma_index_of_own_point(self, i: int)
        requires
            self.wf(),
            0 <= i < self.spec_volume(),
        ensures
            self.spec_contains_local(self.spec_point_of(i)),
            self.spec_index_of(self.spec_point_of(i)) == i,
    {
        let sx = self.lsup.x as int;
        let sy = self.lsup.y as int;
        let sz = self.lsup.z as int;
        let x = i % sx;
        let yz = i / sx;
        let z = yz % sz;
        let y = yz / sz;
        assert(0 <= x < sx && 0 <= z < sz && 0 <= y < sy && i == (y * sz + z) * sx + x && y == i / (
        sx * sz)) by (nonlinear_arith)
            requires
                x == i % sx,
                yz == i / sx,
                z == yz % sz,
                y == yz / sz,
                0 <= i < sx * sy * sz,
                1 <= sx <= AXIS_BOUND,
                1 <= sy <= AXIS_BOUND,
                1 <= sz <= AXIS_BOUND,
        ;
    }

    /// Linear index of a local point.
    pub fn index_from_local_point(&self, p: &Point) -> (r: usize)
        requires
            self.wf(),
            self.spec_contains_local(*p),
        ensures
            r == self.spec_index_of(*p),
            r < self.spec_volume(),
    {
        proof {
            self.lemma_index_bounds(*p);
            self.lemma_volume_bounds();
        }
        let sx = self.lsup.x as usize;
        let sz = self.lsup.z as usize;
        let px = p.x as usize;
        let py = p.y as usize;
        let pz = p.z as usize;
        assert(py * sz <= 0x100000 && py * sz + pz <= 0x100400 && (py * sz + pz) * sx
            <= 0x40100000 + 0x40000000 && (py * sz + pz) * sx + px == self.spec_index_of(*p) && (py
            * sz + pz) * sx + px < 0x40000000) by (nonlinear_arith)
            requires
                px == p.x,
                py == p.y,
                pz == p.z,
                sx == self.lsup.x,
                sz == self.lsup.z,
                0 <= p.x < self.lsup.x,
                0 <= p.y < self.lsup.y,
                0 <= p.z < self.lsup.z,
                self.lsup.is_size(),
        ;
        (py * sz + pz) * sx + px
    }

    /// Local point of a linear index.
    pub fn local_point_from_index(&self, i: usize) -> (r: Point)
        requires
            self.wf(),
            i < self.spec_volume(),
        ensures
            r == self.spec_point_of(i as int),
            self.spec_contains_local(r),
            self.spec_index_of(r) == i,
    {
        proof {
            self.lemma_index_of_own_point(i as int);
            self.lemma_volume_bounds();
        }
        let sx = self.lsup.x as usize;
        let sz = self.lsup.z as usize;
        let x = i % sx;
        let yz = i / sx;
        let z = yz % sz;
        let y = yz / sz;
        assert(yz / sz == i as int / (sx as int * sz as int)) by (nonlinear_arith)
            requires
                yz == i as int / sx as int,
                0 <= i,
                1 <= sx,
                1 <= sz,
        ;
        assert(x < 0x80000000 && y < 0x80000000 && z < 0x80000000) by {
            self.lemma_index_of_own_point(i as int);
        }
        Point { x: x as i32, y: y as i32, z: z as i32 }
    }
}

/// Euclidean remainder: the representative of `v` modulo `m` in `[0, m)`.
pub fn wrap_coord(v: i32, m: i32) -> (r: i32)
    requires
        1 <= m <= AXIS_BOUND,
        -0x40000000 <= v <= 0x40000000,
    ensures
        r == v as int % m as int,
        0 <= r < m,
{
    if v >= 0 {
        v % m
    } else {
        let u = -1 - v;
        let r = m - 1 - (u % m);
        proof {
            let ui = u as int;
            let mi = m as int;
            let q = ui / mi;
            let w = ui % mi;
            vstd::arithmetic::div_mod::lemma_fundamental_div_mod(ui, mi);
            assert(v == mi * (0 - q - 1) + r) by (nonlinear_arith)
                requires
                    ui == mi * q + w,
                    r == mi - 1 - w,
                    v == -1 - ui,
            ;
            vstd::arithmetic::div_mod::lemma_mod_multiples_vanish(0 - q - 1, r as int, mi);
            vstd::arithmetic::div_mod::lemma_small_mod(r as nat, m as nat);
        }
        r
    }
}

/// A grid: an extent plus one cell of type `T` for every point of the
/// extent, stored in the canonical row-major order.
#[derive(Clone, Debug)]
pub struct Lattice<T> {
    extent: Extent,
    data: Vec<T>,
}

impl<T> Lattice<T> {
    /// Cells in canonical order.
    pub closed spec fn view(&self) -> Seq<T> {
        self.data@
    }

    pub closed spec fn spec_extent(&self) -> Extent {
        self.extent
    }

    pub open spec fn wf(&self) -> bool {
        &&& self.spec_extent().wf()
        &&& self.view().len() == self.spec_extent().spec_volume()
    }

    /// The cell at a local point, as a spec value.
    pub open spec fn cell_at(&self, p: Point) -> T {
        self.view()[self.spec_extent().spec_index_of(p)]
    }

    pub fn from_vec(extent: Extent, data: Vec<T>) -> (r: Lattice<T>)
        requires
            extent.wf(),
            data@.len() == extent.spec_volume(),
        ensures
            r.wf(),
            r.spec_extent() == extent,
            r.view() == data@,
    {
        Lattice { extent, data }
    }

    pub fn get_extent(&self) -> (r: Extent)
        ensures
            r == self.spec_extent(),
    {
        self.extent
    }

    pub fn num_cells(&self) -> (r: usize)
        requires
            self.wf(),
        ensures
            r == self.view().len(),
    {
        self.data.len()
    }

    /// Read a cell by precomputed linear index.
    pub fn get_linear(&self, i: usize) -> (r: &T)
        requires
            self.wf(),
            i < self.view().len(),
        ensures
            *r == self.view()[i as int],
    {
        &self.data[i]
    }

    /// Write a cell by precomputed linear index.
    pub fn set_linear(&mut self, i: usize, value: T)
        requires
            old(self).wf(),
            i < old(self).view().len(),
        ensures
            final(self).wf(),
            final(self).spec_extent() == old(self).spec_extent(),
            final(self).view() == old(self).view().update(i as int, value),
    {
        self.data[i] = value;
    }

    /// Borrow a cell mutably by precomputed linear index.
    pub fn get_mut_linear(&mut self, i: usize) -> (r: &mut T)
        requires
            old(self).wf(),
            i < old(self).view().len(),
        ensures
            *r == old(self).view()[i as int],
            final(self).view() == old(self).view().update(i as int, *final(r)),
            final(self).spec_extent() == old(self).spec_extent(),
            final(self).wf(),
    {
        &mut self.data[i]
    }

    /// Borrow a cell mutably by local point.
    pub fn get_mut_local(&mut self, p: &Point) -> (r: &mut T)
        requires
            old(self).wf(),
            old(self).spec_extent().spec_contains_local(*p),
        ensures
            *r == old(self).cell_at(*p),
            final(self).view() == old(self).view().update(
                old(self).spec_extent().spec_index_of(*p),
                *final(r),
            ),
            final(self).spec_extent() == old(self).spec_extent(),
            final(self).wf(),
    {
        let i = self.extent.index_from_local_point(p);
        &mut self.data[i]
    }

    /// Read a cell by local point.
    pub fn get_local(&self, p: &Point) -> (r: &T)
        requires
            self.wf(),
            self.spec_extent().spec_contains_local(*p),
        ensures
            *r == self.cell_at(*p),
    {
        let i = self.extent.index_from_local_point(p);
        &self.data[i]
    }

    /// Write a cell by local point.
    pub fn set_local(&mut self, p: &Point, value: T)
        requires
            old(self).wf(),
            old(self).spec_extent().spec_contains_local(*p),
        ensures
            final(self).wf(),
            final(self).spec_extent() == old(self).spec_extent(),
            final(self).view() == old(self).view().update(
                old(self).spec_extent().spec_index_of(*p),
                value,
            ),
    {
        let i = self.extent.index_from_local_point(p);
        self.data[i] = value;
    }

    /// Read a cell by world point.
    pub fn get_world(&self, p: &Point) -> (r: &T)
        requires
            self.wf(),
            self.spec_extent().spec_contains_world(*p),
        ensures
            *r == self.cell_at(p.minus_spec(self.spec_extent().min)),
    {
        let local = p.minus(self.extent.min);
        self.get_local(&local)
    }

    /// Write a cell by world point.
    pub fn set_world(&mut self, p: &Point, value: T)
        requires
            old(self).wf(),
            old(self).spec_extent().spec_contains_world(*p),
        ensures
            final(self).wf(),
            final(self).spec_extent() == old(self).spec_extent(),
            final(self).view() == old(self).view().update(
                old(self).spec_extent().spec_index_of(
                    p.minus_spec(old(self).spec_extent().min),
                ),
                value,
            ),
    {
        let local = p.minus(self.extent.min);
        self.set_local(&local, value);
    }

    /// Read a cell by local point with toroidal wrap on every axis.
    pub fn get_toroidal(&self, p: &Point) -> (r: &T)
        requires
            self.wf(),
            -0x40000000 <= p.x <= 0x40000000,
            -0x40000000 <= p.y <= 0x40000000,
            -0x40000000 <= p.z <= 0x40000000,
        ensures
            *r == self.cell_at(self.spec_extent().spec_wrap(*p)),
    {
        let wrapped = Point {
            x: wrap_coord(p.x, self.extent.lsup.x),
            y: wrap_coord(p.y, self.extent.lsup.y),
            z: wrap_coord(p.z, self.extent.lsup.z),
        };
        self.get_local(&wrapped)
    }
}

impl<T: Copy> Lattice<T> {
    /// A grid with every cell equal to `value`.
    pub fn fill(extent: Extent, value: T) -> (r: Lattice<T>)
        requires
            extent.wf(),
        ensures
            r.wf(),
            r.spec_extent() == extent,
            forall|i: int| 0 <= i < r.view().len() ==> r.view()[i] == value,
    {
        let n = extent.volume();
        let mut data: Vec<T> = Vec::new();
        let mut k: usize = 0;
        while k < n
            invariant
                data@.len() == k,
                k <= n,
                forall|i: int| 0 <= i < k ==> data@[i] == value,
            decreases n - k,
        {
            data.push(value);
            k = k + 1;
        }
        Lattice { extent, data }
    }
}

impl Point {
    /// Spec-level componentwise sum.
    pub open spec fn plus_spec(self, other: Point) -> Point {
        Point { x: (self.x + other.x) as i32, y: (self.y + other.y) as i32, z: (self.z
            + other.z) as i32 }
    }

    /// Spec-level componentwise product.
    pub open spec fn times_spec(self, other: Point) -> Point {
        Point { x: (self.x * other.x) as i32, y: (self.y * other.y) as i32, z: (self.z
            * other.z) as i32 }
    }

    /// Spec-level componentwise difference.
    pub open spec fn minus_spec(self, other: Point) -> Point {
        Point { x: (self.x - other.x) as i32, y: (self.y - other.y) as i32, z: (self.z
            - other.z) as i32 }
    }
}

impl Extent {
    /// Spec-level toroidal wrap of a point into local coordinates.
    pub open spec fn spec_wrap(self, p: Point) -> Point {
        Point {
            x: (p.x as int % self.lsup.x as int) as i32,
            y: (p.y as int % self.lsup.y as int) as i32,
            z: (p.z as int % self.lsup.z as int) as i32,
        }
    }
}

} // verus!
