//! The record of a hit, and the rule that turns its normal against the ray.

use crate::scalar::Scalar;
use crate::vec3::Vec3;
use vstd::prelude::*;

verus! {

/// What is known of the point where a ray met a surface.
pub struct HitRecord<M: Copy> {
    pub p: Vec3,
    pub normal: Vec3,
    pub mat_ptr: M,
    pub t: Scalar,
    pub u: Scalar,
    pub v: Scalar,
    pub front_face: bool,
}

impl<M: Copy> Clone for HitRecord<M> {
    fn clone(&self) -> (r: Self)
        ensures
            r == *self,
    {
        *self
    }
}

impl<M: Copy> Copy for HitRecord<M> {

}

/// `v` with every component negated.
pub open spec fn flipped(v: Vec3) -> Seq<Scalar> {
    seq![v.coords()[0].neg_spec(), v.coords()[1].neg_spec(), v.coords()[2].neg_spec()]
}

impl<M: Copy> HitRecord<M> {
    /// The empty record: everything at zero, facing the front, with the
    /// given material.
    pub fn void(mat_ptr: M) -> (r: Self)
        ensures
            r.p.coords() == seq![Scalar { code: 0 }, Scalar { code: 0 }, Scalar { code: 0 }],
            r.normal.coords() == seq![Scalar { code: 0 }, Scalar { code: 0 }, Scalar { code: 0 }],
            r.mat_ptr == mat_ptr,
            r.t.code == 0,
            r.u.code == 0,
            r.v.code == 0,
            r.front_face,
    {
        Self {
            p: Vec3::new(),
            normal: Vec3::new(),
            mat_ptr,
            t: Scalar::zero(),
            u: Scalar::zero(),
            v: Scalar::zero(),
            front_face: true,
        }
    }

    /// Records which side was hit and turns the normal against the ray.
    ///
    /// `facing` is the dot product of the ray's direction with
    /// `outward_normal`. The front was hit when it is a number below zero;
    /// the outward normal is then kept, and negated otherwise.
    pub fn set_face_normal(&mut self, facing: Scalar, outward_normal: Vec3)
        ensures
            final(self).front_face == facing.lt_spec(Scalar { code: 0 }),
            final(self).front_face ==> final(self).normal.coords() == outward_normal.coords(),
            !final(self).front_face ==> final(self).normal.coords() == flipped(outward_normal),
            final(self).p == old(self).p,
            final(self).mat_ptr == old(self).mat_ptr,
            final(self).t == old(self).t,
            final(self).u == old(self).u,
            final(self).v == old(self).v,
    {
        self.front_face = facing.lt(Scalar::zero());
        self.normal =
        if self.front_face {
            outward_normal
        } else {
            outward_normal.inv()
        };
    }
}

/// The face law. After `set_face_normal` the record faces the front exactly
/// when its normal is the outward normal, unflipped. And where `facing` is a
/// number, the product of the direction with the recorded normal, which is
/// `facing` itself or its negation, is not above zero.
pub proof fn lemma_normal_opposes_ray(facing: Scalar, outward_normal: Vec3, front_face: bool, normal: Seq<Scalar>)
    requires
        front_face == facing.lt_spec(Scalar { code: 0 }),
        front_face ==> normal == outward_normal.coords(),
        !front_face ==> normal == flipped(outward_normal),
    ensures
        front_face <==> normal == outward_normal.coords(),
        !facing.is_nan_spec() ==> (if front_face {
            facing
        } else {
            facing.neg_spec()
        }).le_spec(Scalar { code: 0 }),
{
    if !front_face {
        assert(normal[0] == outward_normal.coords()[0].neg_spec());
        assert(normal[0] != outward_normal.coords()[0]);
    }
}

} // verus!
