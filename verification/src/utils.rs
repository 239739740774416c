//! Small helpers: clamping and random integers.

use crate::scalar::Scalar;
use vstd::prelude::*;

verus! {

/// What `clamp` returns: `min` below the interval, `max` above it, and `x`
/// itself otherwise. A not-a-number `x` compares false both times and so is
/// handed back.
pub open spec fn clamp_spec(x: Scalar, min: Scalar, max: Scalar) -> Scalar {
    if x.lt_spec(min) {
        min
    } else if max.lt_spec(x) {
        max
    } else {
        x
    }
}

/// Restricts `x` to the interval from `min` to `max`.
pub fn clamp(x: Scalar, min: Scalar, max: Scalar) -> (r: Scalar)
    ensures
        r == clamp_spec(x, min, max),
{
    if x.lt(min) {
        min
    } else if max.lt(x) {
        max
    } else {
        x
    }
}

/// A clamped number lies in the interval, provided the interval is one: its
/// ends are numbers with `min` not above `max`.
pub proof fn lemma_clamp_in_range(x: Scalar, min: Scalar, max: Scalar)
    requires
        !x.is_nan_spec(),
        !min.is_nan_spec(),
        !max.is_nan_spec(),
        min.rank() <= max.rank(),
    ensures
        min.rank() <= clamp_spec(x, min, max).rank() <= max.rank(),
        min.rank() <= x.rank() <= max.rank() ==> clamp_spec(x, min, max) == x,
{
}

/// A random integer from `min` up to, but not including, `max`.
///
/// Calls `rand::Rng::gen_range` on `rand::thread_rng()`. The claim taken from
/// rand is the documented range of the result, inclusive of the low end and
/// exclusive of the high end; rand panics when `min >= max`, which the
/// precondition rules out. Nothing is claimed about which value is drawn.
#[verifier::external_body]
pub fn random_int(min: i32, max: i32) -> (r: i32)
    requires
        min < max,
    ensures
        min <= r < max,
{
    rand::Rng::gen_range(&mut rand::thread_rng(), min, max)
}

} // verus!
