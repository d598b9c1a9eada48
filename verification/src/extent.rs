//! Three-component unsigned vectors and lane masks.
//!
//! `Extent` is the plain-value form of a size or a position inside a page and
//! `Mask` the plain-value form of a per-axis comparison result. The vector
//! arithmetic itself is glam's: every operation below that is marked
//! `external_body` builds the matching glam value, makes one glam call and
//! copies the lanes back, and its contract restates glam's lane-wise meaning.
use vstd::prelude::*;
use glam::BVec3;
use glam::UVec3;

verus! {

/// A size or a position: three unsigned lanes.
#[derive(Clone, Copy, PartialEq, Eq, Structural, Debug, Hash)]
pub struct Extent {
    pub x: u32,
    pub y: u32,
    pub z: u32,
}

/// The outcome of a lane-wise comparison: one flag per axis.
#[derive(Clone, Copy)]
pub(crate) struct Mask {
    pub x: bool,
    pub y: bool,
    pub z: bool,
}

impl Extent {
    /// The lane of the given axis (0 for x, 1 for y, anything else for z).
    pub open spec fn lane(self, axis: int) -> int {
        if axis == 0 {
            self.x as int
        } else if axis == 1 {
            self.y as int
        } else {
            self.z as int
        }
    }

    /// Every lane is at least one.
    pub open spec fn positive(self) -> bool {
        self.x > 0 && self.y > 0 && self.z > 0
    }

    /// Every lane is at most the matching lane of `bound`.
    pub open spec fn le(self, bound: Extent) -> bool {
        self.x <= bound.x && self.y <= bound.y && self.z <= bound.z
    }

    /// The vector with all lanes zero.
    pub open spec fn origin() -> Extent {
        Extent { x: 0, y: 0, z: 0 }
    }

    pub fn new(x: u32, y: u32, z: u32) -> (r: Extent)
        ensures
            r == (Extent { x, y, z }),
    {
        Extent { x, y, z }
    }

    pub fn splat(v: u32) -> (r: Extent)
        ensures
            r == (Extent { x: v, y: v, z: v }),
    {
        Extent { x: v, y: v, z: v }
    }

    /// Lane-wise sum, computed by glam's `Add` for `UVec3`, which adds lane
    /// by lane with `u32` addition. Sums that leave `u32` are excluded.
    #[verifier::external_body]
    pub(crate) fn plus(self, rhs: Extent) -> (r: Extent)
        requires
            self.x + rhs.x <= u32::MAX,
            self.y + rhs.y <= u32::MAX,
            self.z + rhs.z <= u32::MAX,
        ensures
            r.x == self.x + rhs.x,
            r.y == self.y + rhs.y,
            r.z == self.z + rhs.z,
    {
        let v = UVec3::new(self.x, self.y, self.z) + UVec3::new(rhs.x, rhs.y, rhs.z);
        Extent { x: v.x, y: v.y, z: v.z }
    }

    /// Lane-wise difference, computed by glam's `Sub` for `UVec3`, which
    /// subtracts lane by lane with `u32` subtraction. Differences below zero
    /// are excluded.
    #[verifier::external_body]
    pub(crate) fn minus(self, rhs: Extent) -> (r: Extent)
        requires
            rhs.x <= self.x,
            rhs.y <= self.y,
            rhs.z <= self.z,
        ensures
            r.x == self.x - rhs.x,
            r.y == self.y - rhs.y,
            r.z == self.z - rhs.z,
    {
        let v = UVec3::new(self.x, self.y, self.z) - UVec3::new(rhs.x, rhs.y, rhs.z);
        Extent { x: v.x, y: v.y, z: v.z }
    }

    /// Lane-wise product, computed by glam's `Mul` for `UVec3`, which
    /// multiplies lane by lane with `u32` multiplication. Products that
    /// leave `u32` are excluded.
    #[verifier::external_body]
    pub(crate) fn times(self, rhs: Extent) -> (r: Extent)
        requires
            self.x * rhs.x <= u32::MAX,
            self.y * rhs.y <= u32::MAX,
            self.z * rhs.z <= u32::MAX,
        ensures
            r.x == self.x * rhs.x,
            r.y == self.y * rhs.y,
            r.z == self.z * rhs.z,
    {
        let v = UVec3::new(self.x, self.y, self.z) * UVec3::new(rhs.x, rhs.y, rhs.z);
        Extent { x: v.x, y: v.y, z: v.z }
    }

    /// Lane-wise `>`, computed by glam's `UVec3::cmpgt`: each flag tells
    /// whether the lane of `self` is greater than the lane of `rhs`.
    #[verifier::external_body]
    pub(crate) fn gt(self, rhs: Extent) -> (m: Mask)
        ensures
            m.x == (self.x > rhs.x),
            m.y == (self.y > rhs.y),
            m.z == (self.z > rhs.z),
    {
        let v = UVec3::new(self.x, self.y, self.z).cmpgt(UVec3::new(rhs.x, rhs.y, rhs.z));
        Mask { x: v.x, y: v.y, z: v.z }
    }

    /// Lane-wise `<`, computed by glam's `UVec3::cmplt`: each flag tells
    /// whether the lane of `self` is less than the lane of `rhs`.
    #[verifier::external_body]
    pub(crate) fn lt(self, rhs: Extent) -> (m: Mask)
        ensures
            m.x == (self.x < rhs.x),
            m.y == (self.y < rhs.y),
            m.z == (self.z < rhs.z),
    {
        let v = UVec3::new(self.x, self.y, self.z).cmplt(UVec3::new(rhs.x, rhs.y, rhs.z));
        Mask { x: v.x, y: v.y, z: v.z }
    }
}

impl Mask {
    /// Lane-wise conjunction, computed by glam's `BitAnd` for `BVec3`.
    #[verifier::external_body]
    pub(crate) fn and(self, rhs: Mask) -> (m: Mask)
        ensures
            m.x == (self.x && rhs.x),
            m.y == (self.y && rhs.y),
            m.z == (self.z && rhs.z),
    {
        let v = BVec3::new(self.x, self.y, self.z) & BVec3::new(rhs.x, rhs.y, rhs.z);
        Mask { x: v.x, y: v.y, z: v.z }
    }

    /// Whether some flag is set, computed by glam's `BVec3::any`.
    #[verifier::external_body]
    pub(crate) fn any(self) -> (b: bool)
        ensures
            b == (self.x || self.y || self.z),
    {
        BVec3::new(self.x, self.y, self.z).any()
    }

    /// Whether every flag is set, computed by glam's `BVec3::all`.
    #[verifier::external_body]
    pub(crate) fn all(self) -> (b: bool)
        ensures
            b == (self.x && self.y && self.z),
    {
        BVec3::new(self.x, self.y, self.z).all()
    }
}

} // verus!
