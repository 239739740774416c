//! Axis-aligned rectangles: the data of a rectangle in each of the three
//! coordinate planes, and the tests of a hit that are comparisons.

use crate::scalar::Scalar;
use vstd::prelude::*;

verus! {

/// `a` lies in the interval from `low` to `high`, ends included: all three
/// are numbers, `a` not below `low` and not above `high`.
pub open spec fn within_spec(a: Scalar, low: Scalar, high: Scalar) -> bool {
    low.le_spec(a) && a.le_spec(high)
}

/// Whether `a` lies in the interval from `low` to `high`.
pub fn within(a: Scalar, low: Scalar, high: Scalar) -> (r: bool)
    ensures
        r == within_spec(a, low, high),
{
    low.le(a) && a.le(high)
}

/// A rectangle in the plane `z = k`, from `x0` to `x1` and from `y0` to `y1`.
pub struct XyRect<M: Copy> {
    pub mp: M,
    pub x0: Scalar,
    pub x1: Scalar,
    pub y0: Scalar,
    pub y1: Scalar,
    pub k: Scalar,
}

/// A rectangle in the plane `y = k`, from `x0` to `x1` and from `z0` to `z1`.
pub struct XzRect<M: Copy> {
    pub mp: M,
    pub x0: Scalar,
    pub x1: Scalar,
    pub z0: Scalar,
    pub z1: Scalar,
    pub k: Scalar,
}

/// A rectangle in the plane `x = k`, from `y0` to `y1` and from `z0` to `z1`.
pub struct YzRect<M: Copy> {
    pub mp: M,
    pub y0: Scalar,
    pub y1: Scalar,
    pub z0: Scalar,
    pub z1: Scalar,
    pub k: Scalar,
}

impl<M: Copy> XyRect<M> {
    /// The degenerate rectangle at the origin, of the given material.
    pub fn new(mat: M) -> (r: Self)
        ensures
            r == (XyRect {
                mp: mat,
                x0: Scalar { code: 0 },
                x1: Scalar { code: 0 },
                y0: Scalar { code: 0 },
                y1: Scalar { code: 0 },
                k: Scalar { code: 0 },
            }),
    {
        Self {
            mp: mat,
            x0: Scalar::zero(),
            x1: Scalar::zero(),
            y0: Scalar::zero(),
            y1: Scalar::zero(),
            k: Scalar::zero(),
        }
    }

    pub fn from(x0: Scalar, x1: Scalar, y0: Scalar, y1: Scalar, k: Scalar, mat: M) -> (r: Self)
        ensures
            r == (XyRect { mp: mat, x0, x1, y0, y1, k }),
    {
        Self { x0, x1, y0, y1, k, mp: mat }
    }

    /// Whether the point of the plane with coordinates `x` and `y` lies on
    /// the rectangle.
    pub fn covers(&self, x: Scalar, y: Scalar) -> (r: bool)
        ensures
            r == (within_spec(x, self.x0, self.x1) && within_spec(y, self.y0, self.y1)),
    {
        within(x, self.x0, self.x1) && within(y, self.y0, self.y1)
    }
}

impl<M: Copy> XzRect<M> {
    /// The degenerate rectangle at the origin, of the given material.
    pub fn new(mat: M) -> (r: Self)
        ensures
            r == (XzRect {
                mp: mat,
                x0: Scalar { code: 0 },
                x1: Scalar { code: 0 },
                z0: Scalar { code: 0 },
                z1: Scalar { code: 0 },
                k: Scalar { code: 0 },
            }),
    {
        Self {
            mp: mat,
            x0: Scalar::zero(),
            x1: Scalar::zero(),
            z0: Scalar::zero(),
            z1: Scalar::zero(),
            k: Scalar::zero(),
        }
    }

    pub fn from(x0: Scalar, x1: Scalar, z0: Scalar, z1: Scalar, k: Scalar, mat: M) -> (r: Self)
        ensures
            r == (XzRect { mp: mat, x0, x1, z0, z1, k }),
    {
        Self { x0, x1, z0, z1, k, mp: mat }
    }

    /// Whether the point of the plane with coordinates `x` and `z` lies on
    /// the rectangle.
    pub fn covers(&self, x: Scalar, z: Scalar) -> (r: bool)
        ensures
            r == (within_spec(x, self.x0, self.x1) && within_spec(z, self.z0, self.z1)),
    {
        within(x, self.x0, self.x1) && within(z, self.z0, self.z1)
    }
}

impl<M: Copy> YzRect<M> {
    /// The degenerate rectangle at the origin, of the given material.
    pub fn new(mat: M) -> (r: Self)
        ensures
            r == (YzRect {
                mp: mat,
                y0: Scalar { code: 0 },
                y1: Scalar { code: 0 },
                z0: Scalar { code: 0 },
                z1: Scalar { code: 0 },
                k: Scalar { code: 0 },
            }),
    {
        Self {
            mp: mat,
            y0: Scalar::zero(),
            y1: Scalar::zero(),
            z0: Scalar::zero(),
            z1: Scalar::zero(),
            k: Scalar::zero(),
        }
    }

    pub fn from(y0: Scalar, y1: Scalar, z0: Scalar, z1: Scalar, k: Scalar, mat: M) -> (r: Self)
        ensures
            r == (YzRect { mp: mat, y0, y1, z0, z1, k }),
    {
        Self { y0, y1, z0, z1, k, mp: mat }
    }

    /// Whether the point of the plane with coordinates `y` and `z` lies on
    /// the rectangle.
    pub fn covers(&self, y: Scalar, z: Scalar) -> (r: bool)
        ensures
            r == (within_spec(y, self.y0, self.y1) && within_spec(z, self.z0, self.z1)),
    {
        within(y, self.y0, self.y1) && within(z, self.z0, self.z1)
    }
}

} // verus!
