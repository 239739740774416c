//! Materials: which of them send a ray on.

use crate::hittable::HitRecord;
use crate::ray::Ray;
use crate::scalar::Scalar;
use crate::vec3::Vec3;
use vstd::prelude::*;

verus! {

/// Code of the number one.
pub const ONE_CODE: i32 = 0x3f80_0000;

/// The kinds of material.
#[derive(Clone, Copy, Debug, PartialEq, Eq, Structural)]
pub enum MaterialKind {
    Lambertian,
    Metal,
    Dielectric,
    DiffuseLight,
    Isotropic,
}

/// Whether a material of the given kind scatters. Only for metal does it
/// depend on the ray: `facing` is the dot product of the scattered direction
/// with the surface normal, and metal scatters when that is a number above
/// zero, that is, when the scattered ray leaves the surface.
pub open spec fn scatters_spec(kind: MaterialKind, facing: Scalar) -> bool {
    match kind {
        MaterialKind::Lambertian => true,
        MaterialKind::Metal => (Scalar { code: 0 }).lt_spec(facing),
        MaterialKind::Dielectric => true,
        MaterialKind::DiffuseLight => false,
        MaterialKind::Isotropic => true,
    }
}

/// Whether the material scatters the ray or absorbs it.
pub fn scatters(kind: MaterialKind, facing: Scalar) -> (r: bool)
    ensures
        r == scatters_spec(kind, facing),
        kind == MaterialKind::Lambertian || kind == MaterialKind::Isotropic || kind
            == MaterialKind::Dielectric ==> r,
        kind == MaterialKind::DiffuseLight ==> !r,
        kind == MaterialKind::Metal ==> (r <==> (Scalar { code: 0 }).lt_spec(facing)),
{
    match kind {
        MaterialKind::Lambertian => true,
        MaterialKind::Metal => Scalar::zero().lt(facing),
        MaterialKind::Dielectric => true,
        MaterialKind::DiffuseLight => false,
        MaterialKind::Isotropic => true,
    }
}

/// A metal: its colour and how much its reflections are blurred.
#[derive(Clone, Copy)]
pub struct Metal {
    pub albedo: Vec3,
    pub fuzz: Scalar,
}

impl Metal {
    /// The metal with the given colour. A blur that is not a number below
    /// one becomes one.
    pub fn from(a: Vec3, f: Scalar) -> (r: Self)
        ensures
            r.albedo == a,
            r.fuzz == (if f.lt_spec(Scalar { code: ONE_CODE }) {
                f
            } else {
                Scalar { code: ONE_CODE }
            }),
    {
        if f.lt(Scalar { code: ONE_CODE }) {
            return Self { albedo: a, fuzz: f };
        } else {
            return Self { albedo: a, fuzz: Scalar { code: ONE_CODE } };
        }
    }
}

/// Whether glass reflects the ray instead of refracting it.
///
/// `bent` is the refraction ratio times the sine of the angle of incidence;
/// above one there is no refracted ray. `reflectance` is the share of light
/// that the surface reflects at this angle and `sample` a uniform random
/// number; the ray is reflected when the sample falls below the reflectance.
pub fn dielectric_reflects(bent: Scalar, reflectance: Scalar, sample: Scalar) -> (r: bool)
    ensures
        r == ((Scalar { code: ONE_CODE }).lt_spec(bent) || sample.lt_spec(reflectance)),
{
    let cannot_refract = Scalar { code: ONE_CODE }.lt(bent);
    cannot_refract || sample.lt(reflectance)
}

/// The direction in which a diffuse surface scatters: the candidate, unless
/// it is too close to zero to have a direction, in which case the normal.
pub fn lambertian_direction(candidate: Vec3, normal: Vec3) -> (r: Vec3)
    ensures
        r == (if Vec3::component_near_zero(candidate.coords()[0]) && Vec3::component_near_zero(
            candidate.coords()[1],
        ) && Vec3::component_near_zero(candidate.coords()[2]) {
            normal
        } else {
            candidate
        }),
{
    if candidate.near_zero() {
        normal
    } else {
        candidate
    }
}

/// What a surface makes of a ray that it scatters: the weight of what comes
/// back along the scattered ray, and that ray.
#[derive(Clone, Copy, Debug)]
pub struct Scattered {
    pub attenuation: Vec3,
    pub ray: Ray,
}

/// The scattered ray starts at the point of the hit, at the time of the
/// incoming ray, and heads in `direction`.
pub open spec fn leaves_hit<M: Copy>(
    ray: Ray,
    rec: HitRecord<M>,
    time: Scalar,
    direction: Vec3,
) -> bool {
    ray.orig == rec.p && ray.tm == time && ray.dir == direction
}

/// What a diffuse surface does with a ray: it never absorbs it. The ray
/// goes on from the point of the hit in the direction of `candidate`, the
/// normal plus a random unit vector, or of the normal where the candidate is
/// too close to zero; it is weighted by `attenuation`, the surface's colour
/// at the point.
pub fn scatter_lambertian<M: Copy>(
    time: Scalar,
    rec: &HitRecord<M>,
    candidate: Vec3,
    attenuation: Vec3,
) -> (r: Option<Scattered>)
    ensures
        r is Some,
        r matches Some(s) ==> s.attenuation == attenuation && leaves_hit(
            s.ray,
            *rec,
            time,
            if Vec3::component_near_zero(candidate.coords()[0]) && Vec3::component_near_zero(
                candidate.coords()[1],
            ) && Vec3::component_near_zero(candidate.coords()[2]) {
                rec.normal
            } else {
                candidate
            },
        ),
{
    let scatter_direction = lambertian_direction(candidate, rec.normal);
    Some(Scattered { attenuation, ray: Ray::new(rec.p, scatter_direction, time) })
}

impl Metal {
    /// What the metal does with a ray. `direction` is the reflected
    /// direction, blurred, and `facing` its dot product with the normal. The
    /// ray is absorbed unless it leaves the surface, that is, unless
    /// `facing` is a number above zero; else it goes on from the point of
    /// the hit in that direction, weighted by the metal's colour.
    pub fn scatter<M: Copy>(
        &self,
        time: Scalar,
        rec: &HitRecord<M>,
        direction: Vec3,
        facing: Scalar,
    ) -> (r: Option<Scattered>)
        ensures
            r is Some <==> scatters_spec(MaterialKind::Metal, facing),
            r matches Some(s) ==> s.attenuation == self.albedo && leaves_hit(
                s.ray,
                *rec,
                time,
                direction,
            ),
    {
        if scatters(MaterialKind::Metal, facing) {
            Some(Scattered { attenuation: self.albedo, ray: Ray::new(rec.p, direction, time) })
        } else {
            None
        }
    }
}

/// What glass does with a ray: it never absorbs it and takes nothing from
/// it. The ray goes on from the point of the hit, reflected where
/// `dielectric_reflects` says so and refracted otherwise.
pub fn scatter_dielectric<M: Copy>(
    time: Scalar,
    rec: &HitRecord<M>,
    reflected: Vec3,
    refracted: Vec3,
    bent: Scalar,
    reflectance: Scalar,
    sample: Scalar,
) -> (r: Option<Scattered>)
    ensures
        r is Some,
        r matches Some(s) ==> s.attenuation.coords() == seq![
            Scalar { code: ONE_CODE },
            Scalar { code: ONE_CODE },
            Scalar { code: ONE_CODE },
        ] && leaves_hit(
            s.ray,
            *rec,
            time,
            if (Scalar { code: ONE_CODE }).lt_spec(bent) || sample.lt_spec(reflectance) {
                reflected
            } else {
                refracted
            },
        ),
{
    let one = Scalar { code: ONE_CODE };
    let direction = if dielectric_reflects(bent, reflectance, sample) {
        reflected
    } else {
        refracted
    };
    Some(Scattered { attenuation: Vec3::from(one, one, one), ray: Ray::new(rec.p, direction, time) })
}

/// What a light does with a ray: it absorbs it.
pub fn scatter_diffuse_light() -> (r: Option<Scattered>)
    ensures
        r is None,
{
    None
}

/// What a medium does with a ray: it never absorbs it. The ray goes on from
/// the point of the hit in `direction`, a random direction, weighted by
/// `attenuation`, the medium's colour at the point.
pub fn scatter_isotropic<M: Copy>(
    time: Scalar,
    rec: &HitRecord<M>,
    direction: Vec3,
    attenuation: Vec3,
) -> (r: Option<Scattered>)
    ensures
        r is Some,
        r matches Some(s) ==> s.attenuation == attenuation && leaves_hit(
            s.ray,
            *rec,
            time,
            direction,
        ),
{
    Some(Scattered { attenuation, ray: Ray::new(rec.p, direction, time) })
}

} // verus!
