//! The constant-density medium: the stretch of a ray that lies inside the
//! boundary of the medium.

use crate::hittable::HitRecord;
use crate::material::ONE_CODE;
use crate::scalar::Scalar;
use crate::vec3::Vec3;
use vstd::prelude::*;

verus! {

/// The stretch between the boundary crossings `t1` and `t2`, cut down to the
/// window from `t_min` to `t_max` and to the part of the ray in front of its
/// origin; none where nothing of the stretch is left in the window.
///
/// The entry is raised to `t_min` and the exit lowered to `t_max`. The
/// stretch is empty when the entry is then not below the exit. At last an
/// entry below zero is raised to zero.
pub open spec fn clip_segment_spec(t1: Scalar, t2: Scalar, t_min: Scalar, t_max: Scalar) -> Option<
    (Scalar, Scalar),
> {
    let entry = if t1.lt_spec(t_min) {
        t_min
    } else {
        t1
    };
    let exit = if t_max.lt_spec(t2) {
        t_max
    } else {
        t2
    };
    if exit.le_spec(entry) {
        None
    } else if entry.lt_spec(Scalar { code: 0 }) {
        Some((Scalar { code: 0 }, exit))
    } else {
        Some((entry, exit))
    }
}

/// Cuts the stretch inside the boundary down to the window.
pub fn clip_segment(t1: Scalar, t2: Scalar, t_min: Scalar, t_max: Scalar) -> (r: Option<
    (Scalar, Scalar),
>)
    ensures
        r == clip_segment_spec(t1, t2, t_min, t_max),
{
    let mut entry = t1;
    let mut exit = t2;
    if entry.lt(t_min) {
        entry = t_min;
    }
    if t_max.lt(exit) {
        exit = t_max;
    }
    if exit.le(entry) {
        return None;
    }
    if entry.lt(Scalar::zero()) {
        entry = Scalar::zero();
    }
    Some((entry, exit))
}

/// Whether the ray is scattered inside the medium, and the record of that.
///
/// `segment` is the stretch of the ray inside the boundary, `inside` its
/// length and `free_path` the distance that this ray travels before it is
/// scattered. There is a hit where there is a stretch and the free path is
/// not a number above its length. The record then holds the parameter `t`
/// and the point `p` of the scattering and the material `phase`; it faces
/// the front, and its normal is the unit vector of the first axis, which no
/// material of a medium reads.
pub fn medium_hit<M: Copy>(
    segment: Option<(Scalar, Scalar)>,
    inside: Scalar,
    free_path: Scalar,
    t: Scalar,
    p: Vec3,
    phase: M,
) -> (rec: Option<HitRecord<M>>)
    ensures
        rec is Some <==> segment is Some && !inside.lt_spec(free_path),
        rec matches Some(h) ==> h.t == t && h.p == p && h.mat_ptr == phase && h.front_face
            && h.u.code == 0 && h.v.code == 0 && h.normal.coords() == seq![
            Scalar { code: ONE_CODE },
            Scalar { code: 0 },
            Scalar { code: 0 },
        ],
{
    if segment.is_none() {
        return None;
    }
    if inside.lt(free_path) {
        return None;
    }
    let mut rec = HitRecord::void(phase);
    rec.t = t;
    rec.p = p;
    rec.normal = Vec3::from(Scalar { code: ONE_CODE }, Scalar::zero(), Scalar::zero());
    rec.front_face = true;
    Some(rec)
}

/// What is left of the stretch lies in the window and in front of the
/// origin. For numbers, the exit is above neither `t_max` nor `t2`; the entry
/// is not below zero; and the entry is below the exit and below neither
/// `t_min` nor `t1`, unless it was raised to zero.
pub proof fn lemma_clipped_segment_in_window(t1: Scalar, t2: Scalar, t_min: Scalar, t_max: Scalar)
    requires
        !t1.is_nan_spec(),
        !t2.is_nan_spec(),
        !t_min.is_nan_spec(),
        !t_max.is_nan_spec(),
    ensures
        clip_segment_spec(t1, t2, t_min, t_max) matches Some(seg) ==> {
            &&& seg.1.rank() <= t_max.rank()
            &&& seg.1.rank() <= t2.rank()
            &&& seg.0.rank() >= 0
            &&& seg.0.code == 0 || (seg.0.rank() < seg.1.rank() && seg.0.rank() >= t_min.rank()
                && seg.0.rank() >= t1.rank())
        },
{
}

} // verus!
