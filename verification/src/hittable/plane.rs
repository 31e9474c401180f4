//! Infinite planes and their ray intersection.

use vstd::prelude::*;
use crate::fixed::{fx_div, fx_of, iabs, Fx};
use crate::hittable::HitRecord;
use crate::interval::{surrounds_int, Interval};
use crate::material::{mat_str, Material};
use crate::ray::{ray_at3, Ray};
use crate::text::{fx_str, fx_to_string, push_str};
use crate::vec3::{dot, dot3, from_v3, normalize3, v3_neg, v3_sub, Vec3};

verus! {

/// Rays whose direction projects on the plane normal with magnitude below
/// this (about 1e-4) are treated as parallel and miss, keeping the
/// division below well-conditioned.
pub const PLANE_PARALLEL_EPS_BITS: i64 = 7;

/// An infinite plane: an origin point, a unit normal and a material.
#[derive(Clone, Copy, Debug, PartialEq, Eq, Structural)]
pub struct Plane {
    /// A point on the plane.
    pub origin: Vec3,
    /// The unit normal of the plane.
    pub normal: Vec3,
    /// The material of the surface.
    pub mat: Material,
}

impl Plane {
    /// A plane through `origin` facing along `normal`, which is
    /// normalized here.
    pub fn new(origin: Vec3, normal: Vec3, mat: Material) -> (r: Plane)
        ensures
            r.origin == origin,
            r.mat == mat,
            r.normal@ == normalize3(normal@),
    {
        Plane { origin, normal: normal.normalized(), mat }
    }
}

/// The ray parameter at which a ray meets a plane inside the given range,
/// if it does; near-parallel rays miss.
pub open spec fn plane_hit_t(p: Plane, r: Ray, t0: int, t1: int) -> Option<int> {
    let denom = dot3(p.normal@, r.direction@);
    if iabs(denom) >= PLANE_PARALLEL_EPS_BITS as int {
        let t = fx_div(dot3(v3_sub(p.origin@, r.origin@), p.normal@), denom);
        if surrounds_int(t0, t1, t) {
            Some(t)
        } else {
            None
        }
    } else {
        None
    }
}

/// The record a plane reports for an accepted hit at parameter `t`: the
/// point along the ray and the plane normal oriented against the ray.
pub open spec fn plane_rec3(p: Plane, r: Ray, t: int) -> HitRecord {
    let hit_p = ray_at3(r.origin@, r.direction@, t);
    let front = dot3(r.direction@, p.normal@) < 0;
    HitRecord {
        p: from_v3(hit_p),
        normal: from_v3(
            if front {
                p.normal@
            } else {
                v3_neg(p.normal@)
            },
        ),
        mat: p.mat,
        t: fx_of(t),
        front_face: front,
    }
}

/// The full result of testing a ray against a plane.
pub open spec fn plane_hit3(p: Plane, r: Ray, t0: int, t1: int) -> Option<HitRecord> {
    match plane_hit_t(p, r, t0, t1) {
        Some(t) => Some(plane_rec3(p, r, t)),
        None => None,
    }
}

/// The one-line listing of a plane.
pub open spec fn plane_str(p: Plane) -> Seq<char> {
    "[ Plane ] Normal: ("@ + fx_str(p.normal@.x) + ", "@ + fx_str(p.normal@.y) + ", "@ + fx_str(
        p.normal@.z,
    ) + "), Position: ("@ + fx_str(p.origin@.x) + "x, "@ + fx_str(p.origin@.y) + "y, "@ + fx_str(
        p.origin@.z,
    ) + "z), material: "@ + mat_str(p.mat)
}

/// The info fields of a plane: kind, extent, the three origin
/// coordinates, and the material name.
pub open spec fn plane_info(p: Plane) -> Seq<Seq<char>> {
    seq![
        "Plane"@,
        "inf"@,
        fx_str(p.origin@.x),
        fx_str(p.origin@.y),
        fx_str(p.origin@.z),
        mat_str(p.mat),
    ]
}

impl Plane {
    /// The plane as a one-line description.
    pub fn as_string(&self) -> (r: String)
        ensures
            r@ == plane_str(*self),
    {
        let mut s = String::new();
        push_str(&mut s, "[ Plane ] Normal: (");
        let nx_str = fx_to_string(self.normal.x);
        push_str(&mut s, nx_str.as_str());
        push_str(&mut s, ", ");
        let ny_str = fx_to_string(self.normal.y);
        push_str(&mut s, ny_str.as_str());
        push_str(&mut s, ", ");
        let nz_str = fx_to_string(self.normal.z);
        push_str(&mut s, nz_str.as_str());
        push_str(&mut s, "), Position: (");
        let ox_str = fx_to_string(self.origin.x);
        push_str(&mut s, ox_str.as_str());
        push_str(&mut s, "x, ");
        let oy_str = fx_to_string(self.origin.y);
        push_str(&mut s, oy_str.as_str());
        push_str(&mut s, "y, ");
        let oz_str = fx_to_string(self.origin.z);
        push_str(&mut s, oz_str.as_str());
        push_str(&mut s, "z), material: ");
        let m_str = self.mat.as_string();
        push_str(&mut s, m_str.as_str());
        proof {
            assert(s@ =~= plane_str(*self));
        }
        s
    }

    /// The plane's info fields: kind, extent, origin coordinates and
    /// material name.
    pub fn as_info_vec(&self) -> (r: Vec<String>)
        ensures
            r@.len() == plane_info(*self).len(),
            forall|k: int| 0 <= k < r@.len() ==> #[trigger] r@[k]@ == plane_info(*self)[k],
    {
        let mut out: Vec<String> = Vec::new();
        let mut kind = String::new();
        push_str(&mut kind, "Plane");
        out.push(kind);
        let mut extent = String::new();
        push_str(&mut extent, "inf");
        out.push(extent);
        out.push(fx_to_string(self.origin.x));
        out.push(fx_to_string(self.origin.y));
        out.push(fx_to_string(self.origin.z));
        out.push(self.mat.as_string());
        proof {
            assert(out@[0]@ =~= plane_info(*self)[0]);
            assert(out@[1]@ =~= plane_info(*self)[1]);
        }
        out
    }

    /// Test the plane for a hit in the given range; on a hit, fill `rec`
    /// and return true, otherwise leave `rec` alone.
    pub fn hit(&self, r: &Ray, ray_t: Interval, rec: &mut HitRecord) -> (b: bool)
        ensures
            b == (plane_hit3(*self, *r, ray_t.start@, ray_t.end@) is Some),
            b ==> *final(rec) == plane_hit3(*self, *r, ray_t.start@, ray_t.end@)->0,
            !b ==> *final(rec) == *old(rec),
    {
        let denom = dot(&self.normal, &r.direction);
        if denom.abs().ge(Fx::from_bits(PLANE_PARALLEL_EPS_BITS)) {
            let t = dot(&self.origin.sub(r.origin), &self.normal).div(denom);
            if ray_t.surrounds(t) {
                rec.t = t;
                rec.p = r.at(t);
                rec.set_face_normal(r, &self.normal);
                rec.set_material(self.mat);
                return true;
            }
        }
        false
    }
}

} // verus!
