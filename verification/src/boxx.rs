//! The box: six rectangles on the faces of an axis-aligned block.

use crate::aabb::Aabb;
use crate::aarect::{XyRect, XzRect, YzRect};
use crate::hittable_list::{is_union_of, latest_hit, HittableList};
use crate::scalar::Scalar;
use crate::vec3::Vec3;
use vstd::prelude::*;

verus! {

/// One face of a box.
pub enum Side<M: Copy> {
    Xy(XyRect<M>),
    Xz(XzRect<M>),
    Yz(YzRect<M>),
}

pub struct Boxx<M: Copy> {
    pub box_min: Vec3,
    pub box_max: Vec3,
    pub sides: HittableList<Side<M>>,
}

/// The six faces of the block between the corners `p0` and `p1`, all of the
/// material `ptr`: for each pair of axes the face at the far corner and then
/// the face at the near corner, each spanning the block on its two axes.
pub open spec fn faces<M: Copy>(p0: Vec3, p1: Vec3, ptr: M) -> Seq<Side<M>> {
    let a = p0.coords();
    let b = p1.coords();
    seq![
        Side::Xy(XyRect { mp: ptr, x0: a[0], x1: b[0], y0: a[1], y1: b[1], k: b[2] }),
        Side::Xy(XyRect { mp: ptr, x0: a[0], x1: b[0], y0: a[1], y1: b[1], k: a[2] }),
        Side::Xz(XzRect { mp: ptr, x0: a[0], x1: b[0], z0: a[2], z1: b[2], k: b[1] }),
        Side::Xz(XzRect { mp: ptr, x0: a[0], x1: b[0], z0: a[2], z1: b[2], k: a[1] }),
        Side::Yz(YzRect { mp: ptr, y0: a[1], y1: b[1], z0: a[2], z1: b[2], k: b[0] }),
        Side::Yz(YzRect { mp: ptr, y0: a[1], y1: b[1], z0: a[2], z1: b[2], k: a[0] }),
    ]
}

impl<M: Copy> Boxx<M> {
    /// The box without faces, at the origin.
    pub fn new() -> (r: Self)
        ensures
            r.sides.objects@ == Seq::<Side<M>>::empty(),
            r.box_min.coords() == seq![Scalar { code: 0 }, Scalar { code: 0 }, Scalar { code: 0 }],
            r.box_max.coords() == seq![Scalar { code: 0 }, Scalar { code: 0 }, Scalar { code: 0 }],
    {
        Self { box_min: Vec3::new(), box_max: Vec3::new(), sides: HittableList::new() }
    }

    /// The box between the corners `p0` and `p1`, of the material `ptr`.
    pub fn from(p0: &Vec3, p1: &Vec3, ptr: M) -> (r: Self)
        ensures
            r.box_min == *p0,
            r.box_max == *p1,
            r.sides.objects@ == faces(*p0, *p1, ptr),
    {
        let mut sides = HittableList::new();
        sides.add(Side::Xy(XyRect::from(p0.x(), p1.x(), p0.y(), p1.y(), p1.z(), ptr)));
        sides.add(Side::Xy(XyRect::from(p0.x(), p1.x(), p0.y(), p1.y(), p0.z(), ptr)));
        sides.add(Side::Xz(XzRect::from(p0.x(), p1.x(), p0.z(), p1.z(), p1.y(), ptr)));
        sides.add(Side::Xz(XzRect::from(p0.x(), p1.x(), p0.z(), p1.z(), p0.y(), ptr)));
        sides.add(Side::Yz(YzRect::from(p0.y(), p1.y(), p0.z(), p1.z(), p1.x(), ptr)));
        sides.add(Side::Yz(YzRect::from(p0.y(), p1.y(), p0.z(), p1.z(), p0.x(), ptr)));
        Self { box_min: *p0, box_max: *p1, sides }
    }

    /// The closest hit on the faces: the scan of the list of faces.
    pub fn hit<R, H, F: Fn(&Side<M>, &R, Scalar, Scalar) -> Option<(Scalar, H)>>(
        &self,
        r: &R,
        t_min: Scalar,
        t_max: Scalar,
        probe: &F,
    ) -> (rec: Option<(Scalar, H)>)
        requires
            forall|i: int, upper: Scalar|
                0 <= i < self.sides.objects@.len() ==> #[trigger] probe.requires(
                    (&self.sides.objects@[i], r, t_min, upper),
                ),
        ensures
            exists|answers: Seq<Option<(Scalar, H)>>| #[trigger]
                self.sides.is_scan(r, t_min, t_max, probe, answers) && rec == latest_hit(
                    answers,
                    answers.len() as int,
                ),
    {
        self.sides.hit(r, t_min, t_max, probe)
    }

    /// The bounds of the box: those of the list of its faces.
    pub fn bounding_box<F: Fn(&Side<M>, Scalar, Scalar) -> Option<Aabb>>(
        &self,
        time0: Scalar,
        time1: Scalar,
        bounds: F,
    ) -> (r: Option<Aabb>)
        requires
            forall|i: int|
                0 <= i < self.sides.objects@.len() ==> bounds.requires(
                    (&#[trigger] self.sides.objects@[i], time0, time1),
                ),
        ensures
            self.sides.objects@.len() == 0 ==> r is None,
            r matches Some(b) ==> exists|boxes: Seq<Aabb>|
                boxes.len() == self.sides.objects@.len() && #[trigger] self.sides.are_bounds(
                    time0,
                    time1,
                    bounds,
                    boxes,
                ) && is_union_of(b, boxes),
            r is None && self.sides.objects@.len() > 0 ==> exists|boxes: Seq<Aabb>|
                boxes.len() < self.sides.objects@.len() && #[trigger] self.sides.are_bounds(
                    time0,
                    time1,
                    bounds,
                    boxes,
                ) && bounds.ensures((&self.sides.objects@[boxes.len() as int], time0, time1), None),
    {
        self.sides.bounding_box(time0, time1, bounds)
    }
}

} // verus!
