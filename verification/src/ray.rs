//! The radiance estimator: how much light comes back along a ray.
//!
//! The estimator follows a ray from surface to surface for a fixed number of
//! bounces. What happens at a surface, and how emitted and incoming light
//! add up, are the caller's closures; the order of the steps and the cases
//! are decided here.

use crate::scalar::{Scalar, INFINITY_MAGNITUDE};
use crate::vec3::Vec3;
use vstd::prelude::*;

verus! {

/// A ray: where it starts, where it heads, and the time at which it was
/// sent.
#[derive(Clone, Copy, Debug)]
pub struct Ray {
    pub orig: Vec3,
    pub dir: Vec3,
    pub tm: Scalar,
}

impl Ray {
    pub fn new(origin: Vec3, direction: Vec3, time: Scalar) -> (r: Self)
        ensures
            r.orig == origin,
            r.dir == direction,
            r.tm == time,
    {
        Ray { orig: origin, dir: direction, tm: time }
    }

    pub fn origin(&self) -> (r: Vec3)
        ensures
            r == self.orig,
    {
        self.orig
    }

    pub fn direction(&self) -> (r: Vec3)
        ensures
            r == self.dir,
    {
        self.dir
    }

    pub fn time(&self) -> (r: Scalar)
        ensures
            r == self.tm,
    {
        self.tm
    }
}

/// Code of the lower end of the window in which the estimator looks for a
/// hit, the single-precision value nearest to one thousandth. Starting just
/// off the surface keeps a scattered ray from hitting the point it left.
pub const NEAR_CODE: i32 = 0x3a83_126f;

/// The window in which the estimator looks for a hit: from just off the
/// ray's origin to infinity.
pub fn hit_window() -> (w: (Scalar, Scalar))
    ensures
        w.0.code == NEAR_CODE,
        w.1.code == INFINITY_MAGNITUDE,
{
    (Scalar { code: NEAR_CODE }, Scalar { code: INFINITY_MAGNITUDE })
}

/// What became of a ray in the scene.
pub enum Interaction<C, R> {
    /// The ray left the scene without meeting a surface.
    Miss,
    /// The surface took the ray in; it gives off `emitted`.
    Absorbed { emitted: C },
    /// The surface gives off `emitted` and sends the ray on as `scattered`,
    /// with what comes back along it weighted by `attenuation`.
    Scattered { emitted: C, attenuation: C, scattered: R },
}

/// `result` is a possible radiance along `r` with `depth` bounces left:
/// black once no bounce is left; the background where the ray misses; what
/// the surface emits where it absorbs; else what `shade` makes of the
/// emitted light, the attenuation and a radiance along the scattered ray with
/// one bounce less.
pub open spec fn is_radiance<
    R,
    C,
    W: Fn(&R) -> Interaction<C, R>,
    S: Fn(C, C, C) -> C,
>(r: R, background: C, black: C, world: &W, shade: &S, depth: int, result: C) -> bool
    decreases depth,
{
    if depth <= 0 {
        result == black
    } else {
        exists|seen: Interaction<C, R>| #[trigger]
            world.ensures((&r,), seen) && match seen {
                Interaction::Miss => result == background,
                Interaction::Absorbed { emitted } => result == emitted,
                Interaction::Scattered { emitted, attenuation, scattered } => exists|incoming: C|
                    is_radiance(scattered, background, black, world, shade, depth - 1, incoming)
                        && #[trigger] shade.ensures((emitted, attenuation, incoming), result),
            }
    }
}

/// The radiance along `r`, following at most `depth` bounces.
///
/// `world` finds what the ray meets; `shade` combines the emitted light, the
/// attenuation and the radiance that comes in along the scattered ray.
pub fn ray_color<R, C: Copy, W: Fn(&R) -> Interaction<C, R>, S: Fn(C, C, C) -> C>(
    r: R,
    background: &C,
    black: &C,
    world: &W,
    shade: &S,
    depth: i32,
) -> (result: C)
    requires
        forall|ray: R| #[trigger] world.requires((&ray,)),
        forall|emitted: C, attenuation: C, incoming: C| #[trigger]
            shade.requires((emitted, attenuation, incoming)),
    ensures
        is_radiance(r, *background, *black, world, shade, depth as int, result),
        depth <= 0 ==> result == *black,
        depth > 0 && (forall|seen: Interaction<C, R>| #[trigger]
            world.ensures((&r,), seen) ==> seen is Miss) ==> result == *background,
    decreases depth,
{
    if depth <= 0 {
        return *black;
    }
    let seen = world(&r);
    match seen {
        Interaction::Miss => *background,
        Interaction::Absorbed { emitted } => emitted,
        Interaction::Scattered { emitted, attenuation, scattered } => {
            let incoming = ray_color(scattered, background, black, world, shade, depth - 1);
            shade(emitted, attenuation, incoming)
        },
    }
}

/// Every outcome of following `r` ends in a miss within `bounces` steps.
pub open spec fn escapes<R, C, W: Fn(&R) -> Interaction<C, R>>(r: R, world: &W, bounces: int) -> bool
    decreases bounces,
{
    &&& bounces > 0
    &&& forall|seen: Interaction<C, R>| #[trigger]
        world.ensures((&r,), seen) ==> (seen is Miss || (seen matches Interaction::Scattered {
            scattered,
            ..
        } && escapes(scattered, world, bounces - 1)))
}

/// Every surface of the world is a perfect mirror: whatever a ray meets, it
/// misses or is scattered, and `shade` then hands the incoming radiance on
/// unchanged.
pub open spec fn all_mirrors<R, C, W: Fn(&R) -> Interaction<C, R>, S: Fn(C, C, C) -> C>(
    world: &W,
    shade: &S,
) -> bool {
    forall|ray: R, seen: Interaction<C, R>| #[trigger]
        world.ensures((&ray,), seen) ==> (seen is Miss || (seen matches Interaction::Scattered {
            emitted,
            attenuation,
            ..
        } && forall|incoming: C, shaded: C| #[trigger]
            shade.ensures((emitted, attenuation, incoming), shaded) ==> shaded == incoming))
}

/// Among perfect mirrors the radiance is the background: every radiance
/// along a ray is the background or, where the bounces run out first, black;
/// and it is the background where the ray escapes within the bounces
/// allowed.
pub proof fn lemma_mirrors_return_background<
    R,
    C,
    W: Fn(&R) -> Interaction<C, R>,
    S: Fn(C, C, C) -> C,
>(r: R, background: C, black: C, world: &W, shade: &S, depth: int, result: C)
    requires
        all_mirrors(world, shade),
        is_radiance(r, background, black, world, shade, depth, result),
    ensures
        result == background || result == black,
        escapes(r, world, depth) ==> result == background,
    decreases depth,
{
    if depth > 0 {
        let seen = choose|seen: Interaction<C, R>| #[trigger]
            world.ensures((&r,), seen) && match seen {
                Interaction::Miss => result == background,
                Interaction::Absorbed { emitted } => result == emitted,
                Interaction::Scattered { emitted, attenuation, scattered } => exists|incoming: C|
                    is_radiance(scattered, background, black, world, shade, depth - 1, incoming)
                        && #[trigger] shade.ensures((emitted, attenuation, incoming), result),
            };
        match seen {
            Interaction::Scattered { emitted, attenuation, scattered } => {
                let incoming = choose|incoming: C|
                    is_radiance(scattered, background, black, world, shade, depth - 1, incoming)
                        && #[trigger] shade.ensures((emitted, attenuation, incoming), result);
                lemma_mirrors_return_background(
                    scattered,
                    background,
                    black,
                    world,
                    shade,
                    depth - 1,
                    incoming,
                );
            },
            _ => {},
        }
    }
}

} // verus!
