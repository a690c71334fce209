//! The closed set of neighborhood offsets, with dense identifiers and the
//! `opposite` involution.  The offset list must be ordered so that the
//! offsets at positions `k` and `len - 1 - k` are negatives of one another;
//! `opposite` is then pure index arithmetic.

use crate::lattice::Point;
use crate::static_vec::{Id, StaticVec};
use vstd::prelude::*;

verus! {

/// Identifier of one of the offsets of a group.
#[derive(Clone, Copy, Debug, PartialEq, Eq, Structural)]
pub struct OffsetId(pub usize);

impl Id for OffsetId {
    open spec fn spec_index(self) -> int {
        self.0 as int
    }

    open spec fn spec_in_range(i: int) -> bool {
        0 <= i <= usize::MAX
    }

    fn to_index(self) -> usize {
        self.0
    }

    fn from_index(i: usize) -> Self {
        OffsetId(i)
    }
}

/// A table indexed by `OffsetId`.
pub type OffsetMap<T> = StaticVec<OffsetId, T>;

impl Point {
    /// Spec-level componentwise negation.
    pub open spec fn negate_spec(self) -> Point {
        Point { x: (0 - self.x) as i32, y: (0 - self.y) as i32, z: (0 - self.z) as i32 }
    }

    /// Every component within the per-axis bound, as required of an offset.
    pub open spec fn is_small_offset(self) -> bool {
        &&& -1024 <= self.x <= 1024
        &&& -1024 <= self.y <= 1024
        &&& -1024 <= self.z <= 1024
    }
}

/// The set of offsets used for neighborhood constraints.
pub struct OffsetGroup {
    offsets: OffsetMap<Point>,
}

impl OffsetGroup {
    /// The offsets in identifier order.
    pub closed spec fn view(&self) -> Seq<Point> {
        self.offsets.view()
    }

    /// Index of the opposite of the offset at index `k`.
    pub open spec fn spec_opposite(&self, k: int) -> int {
        self.view().len() - 1 - k
    }

    pub open spec fn wf(&self) -> bool {
        &&& 1 <= self.view().len() <= 0xFFFF
        &&& forall|k: int| 0 <= k < self.view().len() ==> (#[trigger] self.view()[k]).is_small_offset()
        &&& forall|k: int|
            0 <= k < self.view().len() ==> self.view()[self.spec_opposite(k)] == (
            #[trigger] self.view()[k]).negate_spec()
        &&& forall|k1: int, k2: int|
            0 <= k1 < k2 < self.view().len() ==> self.view()[k1] != self.view()[k2]
        &&& forall|k: int|
            0 <= k < self.view().len() ==> #[trigger] self.view()[k] != (Point {
                x: 0,
                y: 0,
                z: 0,
            })
    }

    /// `offsets` must be ordered so that opposite offsets have mirror
    /// indices.
    pub fn new(offsets: &Vec<Point>) -> (r: OffsetGroup)
        requires
            1 <= offsets@.len() <= 0xFFFF,
            forall|k: int| 0 <= k < offsets@.len() ==> (#[trigger] offsets@[k]).is_small_offset(),
            forall|k: int|
                0 <= k < offsets@.len() ==> offsets@[offsets@.len() - 1 - k] == (
                #[trigger] offsets@[k]).negate_spec(),
            forall|k1: int, k2: int|
                0 <= k1 < k2 < offsets@.len() ==> offsets@[k1] != offsets@[k2],
            forall|k: int|
                0 <= k < offsets@.len() ==> #[trigger] offsets@[k] != (Point { x: 0, y: 0, z: 0 }),
        ensures
            r.wf(),
            r.view() == offsets@,
    {
        let n = offsets.len();
        let mut data: Vec<Point> = Vec::new();
        let mut k: usize = 0;
        while k < n
            invariant
                k <= n,
                n == offsets@.len(),
                data@ == offsets@.subrange(0, k as int),
            decreases n - k,
        {
            data.push(offsets[k]);
            proof {
                assert(data@ =~= offsets@.subrange(0, k + 1));
            }
            k = k + 1;
        }
        proof {
            assert(data@ =~= offsets@);
        }
        OffsetGroup { offsets: StaticVec::new(data) }
    }

    /// A fresh group with the same offsets.
    pub fn clone_group(&self) -> (r: OffsetGroup)
        ensures
            r.view() == self.view(),
            self.wf() ==> r.wf(),
    {
        let n = self.offsets.num_elements();
        let mut data: Vec<Point> = Vec::new();
        let mut k: usize = 0;
        while k < n
            invariant
                k <= n,
                n == self.view().len(),
                data@ == self.view().subrange(0, k as int),
            decreases n - k,
        {
            data.push(*self.offsets.get(OffsetId(k)));
            proof {
                assert(data@ =~= self.view().subrange(0, k + 1));
            }
            k = k + 1;
        }
        proof {
            assert(data@ =~= self.view());
        }
        OffsetGroup { offsets: StaticVec::new(data) }
    }

    pub fn num_offsets(&self) -> (r: usize)
        ensures
            r == self.view().len(),
    {
        self.offsets.num_elements()
    }

    /// The offset with a given identifier.
    pub fn offset_of(&self, id: OffsetId) -> (r: Point)
        requires
            id.0 < self.view().len(),
        ensures
            r == self.view()[id.0 as int],
    {
        *self.offsets.get(id)
    }

    /// The identifier of a given offset.  The offset must be one of the
    /// group's.
    pub fn offset_id(&self, offset: &Point) -> (r: OffsetId)
        requires
            exists|k: int| 0 <= k < self.view().len() && self.view()[k] == *offset,
        ensures
            r.0 < self.view().len(),
            self.view()[r.0 as int] == *offset,
    {
        let n = self.offsets.num_elements();
        let mut k: usize = 0;
        while k < n
            invariant
                k <= n,
                n == self.view().len(),
                exists|j: int| k <= j < self.view().len() && self.view()[j] == *offset,
            decreases n - k,
        {
            let candidate = *self.offsets.get(OffsetId(k));
            if candidate.x == offset.x && candidate.y == offset.y && candidate.z == offset.z {
                assert(self.view()[k as int] =~= *offset);
                return OffsetId(k);
            }
            k = k + 1;
        }
        proof {
            assert(false);
        }
        OffsetId(0)
    }

    /// The identifier of the negated offset: pure index arithmetic thanks
    /// to the ordering requirement.
    pub fn opposite(&self, offset: OffsetId) -> (r: OffsetId)
        requires
            self.wf(),
            offset.0 < self.view().len(),
        ensures
            r.0 as int == self.spec_opposite(offset.0 as int),
            self.view()[r.0 as int] == self.view()[offset.0 as int].negate_spec(),
    {
        let num_offsets = self.offsets.num_elements();
        let max_index = num_offsets - 1;
        OffsetId(max_index - offset.0)
    }

    /// Identifier/offset pairs, in identifier order.
    pub fn iter(&self) -> (r: Vec<(OffsetId, Point)>)
        requires
            self.wf(),
        ensures
            r@.len() == self.view().len(),
            forall|i: int|
                0 <= i < r@.len() ==> (#[trigger] r@[i]).0.0 == i && r@[i].1 == self.view()[i],
    {
        let n = self.offsets.num_elements();
        let mut out: Vec<(OffsetId, Point)> = Vec::new();
        let mut k: usize = 0;
        while k < n
            invariant
                k <= n,
                n == self.view().len(),
                out@.len() == k,
                forall|i: int|
                    0 <= i < k ==> (#[trigger] out@[i]).0.0 == i && out@[i].1 == self.view()[i],
            decreases n - k,
        {
            out.push((OffsetId(k), *self.offsets.get(OffsetId(k))));
            k = k + 1;
        }
        out
    }

    /// The `opposite` involution: applying it twice gives back the same
    /// identifier, and the offset of the opposite is the negated offset.
    pub proof fn lemma_opposite_involution(&self, k: int)
        requires
            self.wf(),
            0 <= k < self.view().len(),
        ensures
            self.spec_opposite(self.spec_opposite(k)) == k,
            self.view()[self.spec_opposite(k)] == self.view()[k].negate_spec(),
    {
    }
}

/// The six axis-aligned face offsets for 3D neighborhoods, ordered so
/// opposites have mirror indices.
pub fn face_3d_offsets() -> (r: Vec<Point>)
    ensures
        r@.len() == 6,
        r@[0] == (Point { x: -1i32, y: 0, z: 0 }),
        r@[1] == (Point { x: 0, y: -1i32, z: 0 }),
        r@[2] == (Point { x: 0, y: 0, z: -1i32 }),
        r@[3] == (Point { x: 0, y: 0, z: 1 }),
        r@[4] == (Point { x: 0, y: 1, z: 0 }),
        r@[5] == (Point { x: 1, y: 0, z: 0 }),
        forall|k: int| 0 <= k < 6 ==> (#[trigger] r@[k]).is_small_offset(),
        forall|k: int| 0 <= k < 6 ==> r@[6 - 1 - k] == (#[trigger] r@[k]).negate_spec(),
        forall|k1: int, k2: int| 0 <= k1 < k2 < 6 ==> r@[k1] != r@[k2],
        forall|k: int| 0 <= k < 6 ==> #[trigger] r@[k] != (Point { x: 0, y: 0, z: 0 }),
{
    let mut r: Vec<Point> = Vec::new();
    r.push(Point { x: -1, y: 0, z: 0 });
    r.push(Point { x: 0, y: -1, z: 0 });
    r.push(Point { x: 0, y: 0, z: -1 });
    r.push(Point { x: 0, y: 0, z: 1 });
    r.push(Point { x: 0, y: 1, z: 0 });
    r.push(Point { x: 1, y: 0, z: 0 });
    r
}

/// The four edge offsets for 2D neighborhoods (`z = 0`), ordered so
/// opposites have mirror indices.
pub fn edge_2d_offsets() -> (r: Vec<Point>)
    ensures
        r@.len() == 4,
        r@[0] == (Point { x: -1i32, y: 0, z: 0 }),
        r@[1] == (Point { x: 0, y: -1i32, z: 0 }),
        r@[2] == (Point { x: 0, y: 1, z: 0 }),
        r@[3] == (Point { x: 1, y: 0, z: 0 }),
        forall|k: int| 0 <= k < 4 ==> (#[trigger] r@[k]).is_small_offset(),
        forall|k: int| 0 <= k < 4 ==> r@[4 - 1 - k] == (#[trigger] r@[k]).negate_spec(),
        forall|k1: int, k2: int| 0 <= k1 < k2 < 4 ==> r@[k1] != r@[k2],
        forall|k: int| 0 <= k < 4 ==> #[trigger] r@[k] != (Point { x: 0, y: 0, z: 0 }),
{
    let mut r: Vec<Point> = Vec::new();
    r.push(Point { x: -1, y: 0, z: 0 });
    r.push(Point { x: 0, y: -1, z: 0 });
    r.push(Point { x: 0, y: 1, z: 0 });
    r.push(Point { x: 1, y: 0, z: 0 });
    r
}

} // verus!
