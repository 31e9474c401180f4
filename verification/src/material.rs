//! Surface scattering models.
//!
//! A material decides, at a hit, whether light scatters and with what
//! attenuation and outgoing ray. The variants form a closed sum so the
//! shading loop dispatches exhaustively: Lambertian diffuse, a
//! normal-visualization debug material, fuzzed metal reflection, and a
//! dielectric choosing between reflection and Schlick-weighted refraction.

use vstd::prelude::*;
use crate::color::Color;
use crate::fixed::{fx_div, fx_mul, fx_sqrt, sat64, Fx, FX_SCALE};
use crate::hittable::HitRecord;
use crate::ray::Ray;
use crate::rng::rand_in_range;
use crate::text::push_str;
use crate::vec3::{
    dot, dot3, is_unit_sample, normalize3, reflect3, refract3, v3_add, v3_neg, v3_scale, v3_zero,
    Vec3, V3,
};

verus! {

/// A diffuse material: light leaves in a random direction around the
/// normal, tinted by the albedo.
#[derive(Clone, Copy, Debug, PartialEq, Eq, Structural)]
pub struct Lambertian {
    /// The color the surface reflects.
    pub albedo: Color,
}

/// A debug material: scatters like `Lambertian`, but the attenuation is
/// the shading normal itself, read as a color.
#[derive(Clone, Copy, Debug, PartialEq, Eq, Structural)]
pub struct Normal {}

/// A reflective material; `fuzz` perturbs the mirror direction.
#[derive(Clone, Copy, Debug, PartialEq, Eq, Structural)]
pub struct Metal {
    /// The tint of reflected light.
    pub albedo: Color,
    /// The radius of the random perturbation of the reflection.
    pub fuzz: Fx,
}

/// A refractive material (glass); never tints and never absorbs.
#[derive(Clone, Copy, Debug, PartialEq, Eq, Structural)]
pub struct Dielectric {
    /// The index of refraction.
    pub ior: Fx,
}

/// The closed set of materials a primitive can carry.
#[derive(Clone, Copy, Debug, PartialEq, Eq, Structural)]
pub enum Material {
    /// Diffuse scattering.
    Lambertian(Lambertian),
    /// Normal-visualization debug scattering.
    Normal(Normal),
    /// Mirror reflection with fuzz.
    Metal(Metal),
    /// Refraction and reflection through glass.
    Dielectric(Dielectric),
}

impl Lambertian {
    /// A diffuse material with the given albedo.
    pub fn new(albedo: Color) -> (r: Lambertian)
        ensures
            r.albedo == albedo,
    {
        Lambertian { albedo }
    }
}

impl Normal {
    /// The normal-visualization material.
    pub fn new() -> (r: Normal)
        ensures
            r == (Normal {  }),
    {
        Normal {  }
    }
}

impl Metal {
    /// A metal with the given albedo and fuzz radius.
    pub fn new(albedo: Color, fuzz: Fx) -> (r: Metal)
        ensures
            r.albedo == albedo,
            r.fuzz == fuzz,
    {
        Metal { albedo, fuzz }
    }
}

impl Dielectric {
    /// A dielectric with the given index of refraction.
    pub fn new(ior: Fx) -> (r: Dielectric)
        ensures
            r.ior == ior,
    {
        Dielectric { ior }
    }
}

/// Schlick's approximation of reflectance at incidence cosine `cos` for
/// index ratio `ior`: `r0 + (1 - r0) * (1 - cos)^5` with
/// `r0 = ((1 - ior) / (1 + ior))^2`, in fixed point.
pub open spec fn reflectance3(cos: int, ior: int) -> int {
    let r0 = fx_div(sat64(FX_SCALE - ior), sat64(FX_SCALE + ior));
    let r0sq = fx_mul(r0, r0);
    let omc = sat64(FX_SCALE - cos);
    let p2 = fx_mul(omc, omc);
    let p4 = fx_mul(p2, p2);
    let p5 = fx_mul(p4, omc);
    sat64(r0sq + fx_mul(sat64(FX_SCALE - r0sq), p5))
}

/// Schlick's reflectance approximation.
pub fn reflectance(cos: Fx, ior: Fx) -> (r: Fx)
    ensures
        r@ == reflectance3(cos@, ior@),
{
    let r0 = Fx::one().sub(ior).div(Fx::one().add(ior));
    let r0sq = r0.mul(r0);
    let omc = Fx::one().sub(cos);
    let p2 = omc.mul(omc);
    let p4 = p2.mul(p2);
    let p5 = p4.mul(omc);
    r0sq.add(Fx::one().sub(r0sq).mul(p5))
}

/// The listing name of a material's variant.
pub open spec fn mat_str(m: Material) -> Seq<char> {
    match m {
        Material::Lambertian(_) => "Lambertian"@,
        Material::Normal(_) => "Normal"@,
        Material::Metal(_) => "Metal"@,
        Material::Dielectric(_) => "Dielectric"@,
    }
}

/// The normalized direction of the incoming ray.
pub open spec fn unit_dir3(r_in: Ray) -> V3 {
    normalize3(r_in.direction@)
}

/// The incidence cosine a dielectric computes: `min(dot(-unit, n), 1)`.
pub open spec fn dielectric_cos3(r_in: Ray, rec: HitRecord) -> int {
    let d = dot3(v3_neg(unit_dir3(r_in)), rec.normal@);
    if d <= FX_SCALE as int {
        d
    } else {
        FX_SCALE as int
    }
}

/// The incidence sine a dielectric computes: `sqrt(1 - cos^2)`.
pub open spec fn dielectric_sin3(r_in: Ray, rec: HitRecord) -> int {
    let c = dielectric_cos3(r_in, rec);
    fx_sqrt(sat64(FX_SCALE - fx_mul(c, c)))
}

/// The effective index ratio: `1 / ior` entering from outside, `ior`
/// leaving from inside.
pub open spec fn dielectric_ratio3(ior: int, rec: HitRecord) -> int {
    if rec.front_face {
        fx_div(FX_SCALE as int, ior)
    } else {
        ior
    }
}

/// The scattering relation: everything `Material::scatter` guarantees of
/// its outputs, for every random draw. Every scattered ray starts at the
/// hit point. A diffuse or debug or glass surface always scatters; a
/// metal absorbs rays that its fuzz pushes below the surface. The
/// attenuation is the albedo for diffuse and metal, the shading normal
/// for the debug material, and white for glass. The outgoing directions
/// are pinned up to the unit-sphere sample drawn: diffuse and the debug
/// material leave along the normal plus a unit sample, falling back to
/// the normal itself when that sum vanishes (so their direction is never
/// zero when the shading normal is nonzero); metal leaves along the
/// normalized reflection perturbed by a fuzz-scaled unit sample. A
/// dielectric leaves either along the reflection of the unit incoming
/// direction or along its refraction, and total internal reflection
/// forces the reflection.
pub open spec fn scatter_step(
    mat: Material,
    r_in: Ray,
    rec: HitRecord,
    att: Color,
    outgoing: Ray,
    b: bool,
) -> bool {
    &&& outgoing.origin == rec.p
    &&& (mat is Lambertian ==> b && att == mat->Lambertian_0.albedo && (rec.normal@ != v3_zero()
        ==> outgoing.direction@ != v3_zero()) && exists|u: V3|
        #[trigger] is_unit_sample(u) && outgoing.direction@ == if v3_add(rec.normal@, u)
            == v3_zero() {
            rec.normal@
        } else {
            v3_add(rec.normal@, u)
        })
    &&& (mat is Normal ==> b && att == rec.normal && (rec.normal@ != v3_zero()
        ==> outgoing.direction@ != v3_zero()) && exists|u: V3|
        #[trigger] is_unit_sample(u) && outgoing.direction@ == if v3_add(rec.normal@, u)
            == v3_zero() {
            rec.normal@
        } else {
            v3_add(rec.normal@, u)
        })
    &&& (mat is Metal ==> att == mat->Metal_0.albedo && b == (dot3(
        outgoing.direction@,
        rec.normal@,
    ) > 0) && exists|u: V3|
        #[trigger] is_unit_sample(u) && outgoing.direction@ == v3_add(
            normalize3(reflect3(r_in.direction@, rec.normal@)),
            v3_scale(u, mat->Metal_0.fuzz@),
        ))
    &&& (mat is Dielectric ==> b && att@ == (V3 {
        x: FX_SCALE as int,
        y: FX_SCALE as int,
        z: FX_SCALE as int,
    }) && {
        let unit = unit_dir3(r_in);
        let ratio = dielectric_ratio3(mat->Dielectric_0.ior@, rec);
        ||| outgoing.direction@ == reflect3(unit, rec.normal@)
        ||| (outgoing.direction@ == refract3(unit, rec.normal@, ratio) && fx_mul(
            ratio,
            dielectric_sin3(r_in, rec),
        ) <= FX_SCALE as int)
    })
}

impl Material {
    /// Scatter the incoming ray at a hit: the outputs satisfy the
    /// scattering relation [`scatter_step`] for this material.
    pub fn scatter(
        &self,
        r_in: &Ray,
        rec: &HitRecord,
        attenuation: &mut Color,
        scattered: &mut Ray,
        rng: &mut rand::rngs::ThreadRng,
    ) -> (b: bool)
        ensures
            scatter_step(*self, *r_in, *rec, *final(attenuation), *final(scattered), b),
    {
        match self {
            Material::Lambertian(m) => {
                let unit = Vec3::random_normalized(rng);
                let mut scatter_direction = rec.normal.add(unit);
                if scatter_direction.near_zero() {
                    scatter_direction = rec.normal;
                }
                *scattered = Ray::new(rec.p, scatter_direction);
                *attenuation = m.albedo;
                proof {
                    assert(is_unit_sample(unit@) && scattered.direction@ == if v3_add(
                        rec.normal@,
                        unit@,
                    ) == v3_zero() {
                        rec.normal@
                    } else {
                        v3_add(rec.normal@, unit@)
                    });
                }
                true
            },
            Material::Normal(_) => {
                let unit = Vec3::random_normalized(rng);
                let mut scatter_direction = rec.normal.add(unit);
                if scatter_direction.near_zero() {
                    scatter_direction = rec.normal;
                }
                *scattered = Ray::new(rec.p, scatter_direction);
                *attenuation = rec.normal;
                proof {
                    assert(is_unit_sample(unit@) && scattered.direction@ == if v3_add(
                        rec.normal@,
                        unit@,
                    ) == v3_zero() {
                        rec.normal@
                    } else {
                        v3_add(rec.normal@, unit@)
                    });
                }
                true
            },
            Material::Metal(m) => {
                let reflected = r_in.direction.reflect(&rec.normal);
                let unit = Vec3::random_normalized(rng);
                let fuzzed = reflected.normalized().add(unit.scale(m.fuzz));
                *scattered = Ray::new(rec.p, fuzzed);
                *attenuation = m.albedo;
                proof {
                    assert(is_unit_sample(unit@) && scattered.direction@ == v3_add(
                        normalize3(reflect3(r_in.direction@, rec.normal@)),
                        v3_scale(unit@, m.fuzz@),
                    ));
                }
                dot(&scattered.direction, &rec.normal).gt(Fx::zero())
            },
            Material::Dielectric(m) => {
                *attenuation = Vec3::new(Fx::one(), Fx::one(), Fx::one());
                let ri = if rec.front_face {
                    Fx::one().div(m.ior)
                } else {
                    m.ior
                };
                let unit_direction = r_in.direction.normalized();
                let cos_theta = dot(&unit_direction.neg(), &rec.normal).min(Fx::one());
                let sin_theta = Fx::one().sub(cos_theta.mul(cos_theta)).sqrt();
                let cannot_refract = ri.mul(sin_theta).gt(Fx::one());
                let rnd = rand_in_range(rng, 0, FX_SCALE);
                let direction: Vec3 = if cannot_refract || reflectance(cos_theta, ri).gt(
                    Fx::from_bits(rnd),
                ) {
                    unit_direction.reflect(&rec.normal)
                } else {
                    crate::vec3::refract(unit_direction, &rec.normal, ri)
                };
                *scattered = Ray::new(rec.p, direction);
                true
            },
        }
    }

    /// The name of the material's variant, for scene listings.
    pub fn as_string(&self) -> (r: String)
        ensures
            r@ == mat_str(*self),
    {
        let mut s = String::new();
        match self {
            Material::Lambertian(_) => push_str(&mut s, "Lambertian"),
            Material::Normal(_) => push_str(&mut s, "Normal"),
            Material::Metal(_) => push_str(&mut s, "Metal"),
            Material::Dielectric(_) => push_str(&mut s, "Dielectric"),
        }
        proof {
            assert(s@ =~= mat_str(*self));
        }
        s
    }
}

} // verus!
