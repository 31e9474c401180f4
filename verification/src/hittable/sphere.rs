//! Spheres and their ray intersection.

use vstd::prelude::*;
use crate::fixed::{fx_div, fx_mul, fx_of, fx_sqrt, sat64, Fx};
use crate::hittable::HitRecord;
use crate::interval::{surrounds_int, Interval};
use crate::material::{mat_str, Material};
use crate::ray::{ray_at3, Ray};
use crate::text::{fx_str, fx_to_string, push_str};
use crate::vec3::{dot, dot3, from_v3, norm_sq3, v3_div, v3_neg, v3_sub, Point3};

verus! {

/// A sphere: a center, a radius and a material. A negative radius is
/// clamped to zero at construction.
#[derive(Clone, Copy, Debug, PartialEq, Eq, Structural)]
pub struct Sphere {
    /// The center of the sphere.
    pub center: Point3,
    /// The radius, never negative.
    pub radius: Fx,
    /// The material of the surface.
    pub mat: Material,
}

impl Sphere {
    /// A sphere with the given center, radius and material; a negative
    /// radius silently degenerates to zero.
    pub fn new(center: Point3, radius: Fx, mat: Material) -> (r: Sphere)
        ensures
            r.center == center,
            r.mat == mat,
            r.radius@ == if radius@ >= 0 {
                radius@
            } else {
                0
            },
    {
        Sphere { center, radius: radius.max(Fx::zero()), mat }
    }
}

/// The ray parameter at which a ray first hits a sphere inside the given
/// range, if it does: the smaller quadratic root is tried first, then the
/// larger.
pub open spec fn sphere_hit_t(s: Sphere, r: Ray, t0: int, t1: int) -> Option<int> {
    let oc = v3_sub(s.center@, r.origin@);
    let a = norm_sq3(r.direction@);
    let h = dot3(r.direction@, oc);
    let c = sat64(norm_sq3(oc) - fx_mul(s.radius@, s.radius@));
    let disc = sat64(fx_mul(h, h) - fx_mul(a, c));
    if disc < 0 {
        None
    } else {
        let sq = fx_sqrt(disc);
        let root1 = fx_div(sat64(h - sq), a);
        if surrounds_int(t0, t1, root1) {
            Some(root1)
        } else {
            let root2 = fx_div(sat64(h + sq), a);
            if surrounds_int(t0, t1, root2) {
                Some(root2)
            } else {
                None
            }
        }
    }
}

/// The record a sphere reports for an accepted hit at parameter `t`: the
/// point along the ray, the outward normal `(p - center) / radius`
/// oriented against the ray, and the sphere's material.
pub open spec fn sphere_rec3(s: Sphere, r: Ray, t: int) -> HitRecord {
    let p = ray_at3(r.origin@, r.direction@, t);
    let outward = v3_div(v3_sub(p, s.center@), s.radius@);
    let front = dot3(r.direction@, outward) < 0;
    HitRecord {
        p: from_v3(p),
        normal: from_v3(
            if front {
                outward
            } else {
                v3_neg(outward)
            },
        ),
        mat: s.mat,
        t: fx_of(t),
        front_face: front,
    }
}

/// The full result of testing a ray against a sphere.
pub open spec fn sphere_hit3(s: Sphere, r: Ray, t0: int, t1: int) -> Option<HitRecord> {
    match sphere_hit_t(s, r, t0, t1) {
        Some(t) => Some(sphere_rec3(s, r, t)),
        None => None,
    }
}

/// The one-line listing of a sphere.
pub open spec fn sphere_str(s: Sphere) -> Seq<char> {
    "[ Sphere ] Radius: "@ + fx_str(s.radius@) + ", Position: ("@ + fx_str(s.center@.x) + "x, "@
        + fx_str(s.center@.y) + "y, "@ + fx_str(s.center@.z) + "z), material: "@ + mat_str(s.mat)
}

/// The info fields of a sphere: kind, radius, the three center
/// coordinates, and the material name.
pub open spec fn sphere_info(s: Sphere) -> Seq<Seq<char>> {
    seq![
        "Sphere"@,
        fx_str(s.radius@),
        fx_str(s.center@.x),
        fx_str(s.center@.y),
        fx_str(s.center@.z),
        mat_str(s.mat),
    ]
}

impl Sphere {
    /// The sphere as a one-line description.
    pub fn as_string(&self) -> (r: String)
        ensures
            r@ == sphere_str(*self),
    {
        let mut s = String::new();
        push_str(&mut s, "[ Sphere ] Radius: ");
        let radius_str = fx_to_string(self.radius);
        push_str(&mut s, radius_str.as_str());
        push_str(&mut s, ", Position: (");
        let x_str = fx_to_string(self.center.x);
        push_str(&mut s, x_str.as_str());
        push_str(&mut s, "x, ");
        let y_str = fx_to_string(self.center.y);
        push_str(&mut s, y_str.as_str());
        push_str(&mut s, "y, ");
        let z_str = fx_to_string(self.center.z);
        push_str(&mut s, z_str.as_str());
        push_str(&mut s, "z), material: ");
        let m_str = self.mat.as_string();
        push_str(&mut s, m_str.as_str());
        proof {
            assert(s@ =~= sphere_str(*self));
        }
        s
    }

    /// The sphere's info fields: kind, radius, center coordinates and
    /// material name.
    pub fn as_info_vec(&self) -> (r: Vec<String>)
        ensures
            r@.len() == sphere_info(*self).len(),
            forall|k: int| 0 <= k < r@.len() ==> #[trigger] r@[k]@ == sphere_info(*self)[k],
    {
        let mut out: Vec<String> = Vec::new();
        let mut kind = String::new();
        push_str(&mut kind, "Sphere");
        out.push(kind);
        out.push(fx_to_string(self.radius));
        out.push(fx_to_string(self.center.x));
        out.push(fx_to_string(self.center.y));
        out.push(fx_to_string(self.center.z));
        out.push(self.mat.as_string());
        proof {
            assert(out@[0]@ =~= sphere_info(*self)[0]);
        }
        out
    }

    /// Test the sphere for a hit in the given range; on a hit, fill `rec`
    /// and return true, otherwise leave `rec` alone.
    pub fn hit(&self, r: &Ray, ray_t: Interval, rec: &mut HitRecord) -> (b: bool)
        ensures
            b == (sphere_hit3(*self, *r, ray_t.start@, ray_t.end@) is Some),
            b ==> *final(rec) == sphere_hit3(*self, *r, ray_t.start@, ray_t.end@)->0,
            !b ==> *final(rec) == *old(rec),
    {
        let oc = self.center.sub(r.origin);
        let a = r.direction.length_squared();
        let h = dot(&r.direction, &oc);
        let c = oc.length_squared().sub(self.radius.mul(self.radius));
        let discriminant = h.mul(h).sub(a.mul(c));

        if discriminant.lt(Fx::zero()) {
            return false;
        }

        let sqrtd = discriminant.sqrt();

        let mut root = h.sub(sqrtd).div(a);
        if !ray_t.surrounds(root) {
            root = h.add(sqrtd).div(a);
            if !ray_t.surrounds(root) {
                return false;
            }
        }

        rec.t = root;
        rec.p = r.at(root);
        let outward_normal = rec.p.sub(self.center).div_scalar(self.radius);
        rec.set_face_normal(r, &outward_normal);
        rec.set_material(self.mat);

        true
    }
}

} // verus!
