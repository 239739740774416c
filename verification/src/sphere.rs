//! Spheres: which of the two crossings of a ray with a sphere counts.

use crate::aarect::{within, within_spec};
use crate::scalar::Scalar;
use vstd::prelude::*;

verus! {

/// Whether the quadratic of a ray and a sphere has roots: its discriminant
/// is not a number below zero.
pub fn has_roots(discriminant: Scalar) -> (r: bool)
    ensures
        r == !discriminant.lt_spec(Scalar { code: 0 }),
{
    !discriminant.lt(Scalar::zero())
}

/// The crossing that counts on the window from `t_min` to `t_max`: the
/// nearer one if it lies in the window, else the farther one if that does,
/// else none.
pub open spec fn choose_root_spec(near: Scalar, far: Scalar, t_min: Scalar, t_max: Scalar) -> Option<
    Scalar,
> {
    if within_spec(near, t_min, t_max) {
        Some(near)
    } else if within_spec(far, t_min, t_max) {
        Some(far)
    } else {
        None
    }
}

/// Picks the crossing of a ray with a sphere. `near` and `far` are the two
/// roots of the quadratic, the smaller first.
pub fn choose_root(near: Scalar, far: Scalar, t_min: Scalar, t_max: Scalar) -> (root: Option<Scalar>)
    ensures
        root == choose_root_spec(near, far, t_min, t_max),
{
    let mut root = near;
    if !within(root, t_min, t_max) {
        root = far;
        if !within(root, t_min, t_max) {
            return None;
        }
    }
    Some(root)
}

/// The crossing reported is the closest one in the window: where both roots
/// are numbers with `near` not above `far`, no root in the window lies below
/// the one that is chosen, and none is chosen only where neither root is in
/// the window.
pub proof fn lemma_chosen_root_is_first(near: Scalar, far: Scalar, t_min: Scalar, t_max: Scalar)
    requires
        near.le_spec(far),
    ensures
        match choose_root_spec(near, far, t_min, t_max) {
            Some(root) => {
                &&& within_spec(root, t_min, t_max)
                &&& root == near || root == far
                &&& within_spec(near, t_min, t_max) ==> root.rank() <= near.rank()
                &&& within_spec(far, t_min, t_max) ==> root.rank() <= far.rank()
            },
            None => !within_spec(near, t_min, t_max) && !within_spec(far, t_min, t_max),
        },
{
}

} // verus!
