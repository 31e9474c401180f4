//! Objects a ray can hit, and scenes: lists of such objects.
//!
//! [`Hittable`] is the closed set of primitives; [`HittableList`] is an
//! insertion-ordered scene that satisfies the same hit contract by keeping
//! the closest accepted hit, so nearer objects occlude farther ones.

pub mod plane;
pub mod sphere;

use vstd::prelude::*;
use crate::fixed::Fx;
use crate::interval::Interval;
use crate::material::{Lambertian, Material};
use crate::ray::Ray;
use crate::vec3::{dot3, v3_neg, Point3, Vec3};
use self::plane::{plane_hit3, Plane};
use self::sphere::{sphere_hit3, Sphere};

verus! {

/// What a successful intersection reports: the hit point, the shading
/// normal (oriented against the incoming ray), the material hit, the ray
/// parameter of the hit, and which face was struck.
#[derive(Clone, Copy, Debug, PartialEq, Eq, Structural)]
pub struct HitRecord {
    /// The location of the hit.
    pub p: Point3,
    /// The shading normal at the hit point, oriented against the ray.
    pub normal: Vec3,
    /// The material of the object that was hit.
    pub mat: Material,
    /// The distance along the ray at which the hit lies.
    pub t: Fx,
    /// Whether the outward face was struck.
    pub front_face: bool,
}

impl HitRecord {
    /// Orient the record's normal against the incoming ray: the outward
    /// normal itself when the ray arrives from outside, its negation
    /// otherwise.
    pub fn set_face_normal(&mut self, r: &Ray, outward_normal: &Vec3)
        ensures
            final(self).front_face == (dot3(r.direction@, outward_normal@) < 0),
            final(self).normal@ == if dot3(r.direction@, outward_normal@) < 0 {
                outward_normal@
            } else {
                v3_neg(outward_normal@)
            },
            final(self).p == old(self).p,
            final(self).mat == old(self).mat,
            final(self).t == old(self).t,
    {
        self.front_face = crate::vec3::dot(&r.direction, outward_normal).lt(Fx::zero());
        if self.front_face {
            self.normal = *outward_normal;
        } else {
            self.normal = outward_normal.neg();
        }
    }

    /// Replace the record's material.
    pub fn set_material(&mut self, mat: Material)
        ensures
            final(self).mat == mat,
            final(self).p == old(self).p,
            final(self).normal == old(self).normal,
            final(self).t == old(self).t,
            final(self).front_face == old(self).front_face,
    {
        self.mat = mat;
    }
}

impl Default for HitRecord {
    /// A placeholder record: everything zero, a mid-gray diffuse material.
    fn default() -> (r: HitRecord)
        ensures
            r.p@ == crate::vec3::v3_zero(),
            r.normal@ == crate::vec3::v3_zero(),
            r.t@ == 0,
            r.front_face == false,
    {
        HitRecord {
            p: Vec3::default(),
            normal: Vec3::default(),
            mat: Material::Lambertian(Lambertian::new(Vec3::splat(Fx::from_ratio(1, 2)))),
            t: Fx::zero(),
            front_face: false,
        }
    }
}

/// The closed set of primitives a scene can hold.
#[derive(Clone, Copy, Debug, PartialEq, Eq, Structural)]
pub enum Hittable {
    /// A sphere.
    Sphere(Sphere),
    /// An infinite plane.
    Plane(Plane),
}

/// The hit a primitive reports for a ray over a `t` range, if any.
pub open spec fn object_hit3(o: Hittable, r: Ray, t0: int, t1: int) -> Option<HitRecord> {
    match o {
        Hittable::Sphere(s) => sphere_hit3(s, r, t0, t1),
        Hittable::Plane(p) => plane_hit3(p, r, t0, t1),
    }
}

impl Hittable {
    /// Test the primitive for a hit in the given range; on a hit, fill
    /// `rec` and return true, otherwise leave `rec` alone.
    pub fn hit(&self, r: &Ray, ray_t: Interval, rec: &mut HitRecord) -> (b: bool)
        ensures
            b == (object_hit3(*self, *r, ray_t.start@, ray_t.end@) is Some),
            b ==> *final(rec) == object_hit3(*self, *r, ray_t.start@, ray_t.end@)->0,
            !b ==> *final(rec) == *old(rec),
    {
        match self {
            Hittable::Sphere(s) => s.hit(r, ray_t, rec),
            Hittable::Plane(p) => p.hit(r, ray_t, rec),
        }
    }
}

/// The one-line listing of a primitive.
pub open spec fn object_str(o: Hittable) -> Seq<char> {
    match o {
        Hittable::Sphere(s) => self::sphere::sphere_str(s),
        Hittable::Plane(p) => self::plane::plane_str(p),
    }
}

/// The info fields of a primitive.
pub open spec fn object_info(o: Hittable) -> Seq<Seq<char>> {
    match o {
        Hittable::Sphere(s) => self::sphere::sphere_info(s),
        Hittable::Plane(p) => self::plane::plane_info(p),
    }
}

impl Hittable {
    /// The primitive as a one-line description.
    pub fn as_string(&self) -> (r: String)
        ensures
            r@ == object_str(*self),
    {
        match self {
            Hittable::Sphere(s) => s.as_string(),
            Hittable::Plane(p) => p.as_string(),
        }
    }

    /// The primitive's info fields.
    pub fn as_info_vec(&self) -> (r: Vec<String>)
        ensures
            r@.len() == object_info(*self).len(),
            forall|k: int| 0 <= k < r@.len() ==> #[trigger] r@[k]@ == object_info(*self)[k],
    {
        match self {
            Hittable::Sphere(s) => s.as_info_vec(),
            Hittable::Plane(p) => p.as_info_vec(),
        }
    }
}

/// The closest hit over the objects from index `i` on, folding the best
/// hit found so far; the upper end of the range shrinks to the best `t`.
pub open spec fn list_hit_from3(
    objs: Seq<Hittable>,
    r: Ray,
    t0: int,
    t1: int,
    i: int,
    best: Option<HitRecord>,
) -> Option<HitRecord>
    decreases objs.len() - i,
{
    if i < 0 || i >= objs.len() {
        best
    } else {
        let cmax = match best {
            Some(b) => b.t@,
            None => t1,
        };
        match object_hit3(objs[i], r, t0, cmax) {
            Some(h) => list_hit_from3(objs, r, t0, t1, i + 1, Some(h)),
            None => list_hit_from3(objs, r, t0, t1, i + 1, best),
        }
    }
}

/// The closest hit of a ray over a whole scene, if any.
pub open spec fn list_hit3(objs: Seq<Hittable>, r: Ray, t0: int, t1: int) -> Option<HitRecord> {
    list_hit_from3(objs, r, t0, t1, 0, None)
}

/// Whether a list of strings spells exactly the given sequences of
/// characters, element by element.
pub open spec fn strs_match(v: Seq<String>, s: Seq<Seq<char>>) -> bool {
    v.len() == s.len() && forall|m: int| 0 <= m < v.len() ==> #[trigger] v[m]@ == s[m]
}

/// A scene: an insertion-ordered list of primitives.
#[derive(Clone, Debug)]
pub struct HittableList {
    /// The objects of the scene.
    pub objects: Vec<Hittable>,
}

impl HittableList {
    /// An empty scene.
    pub fn new() -> (r: HittableList)
        ensures
            r.objects@.len() == 0,
    {
        HittableList { objects: Vec::new() }
    }

    /// Append an object to the scene.
    pub fn add(&mut self, object: Hittable)
        ensures
            final(self).objects@ == old(self).objects@.push(object),
    {
        self.objects.push(object);
    }

    /// One-line descriptions of all the objects, in scene order.
    pub fn as_simple_vec(&self) -> (r: Vec<String>)
        ensures
            r@.len() == self.objects@.len(),
            forall|k: int|
                0 <= k < r@.len() ==> #[trigger] r@[k]@ == object_str(self.objects@[k]),
    {
        let mut out: Vec<String> = Vec::new();
        let mut i: usize = 0;
        while i < self.objects.len()
            invariant
                i <= self.objects@.len(),
                out@.len() == i,
                forall|k: int|
                    0 <= k < i ==> #[trigger] out@[k]@ == object_str(self.objects@[k]),
            decreases self.objects@.len() - i,
        {
            out.push(self.objects[i].as_string());
            i = i + 1;
        }
        out
    }

    /// Info fields of all the objects, in scene order.
    pub fn as_info_vec(&self) -> (r: Vec<Vec<String>>)
        ensures
            r@.len() == self.objects@.len(),
            forall|k: int|
                0 <= k < r@.len() ==> strs_match(
                    #[trigger] r@[k]@,
                    object_info(self.objects@[k]),
                ),
    {
        let mut out: Vec<Vec<String>> = Vec::new();
        let mut i: usize = 0;
        while i < self.objects.len()
            invariant
                i <= self.objects@.len(),
                out@.len() == i,
                forall|k: int|
                    0 <= k < i ==> strs_match(#[trigger] out@[k]@, object_info(self.objects@[k])),
            decreases self.objects@.len() - i,
        {
            let info = self.objects[i].as_info_vec();
            proof {
                assert(strs_match(info@, object_info(self.objects@[i as int])));
            }
            out.push(info);
            i = i + 1;
        }
        out
    }

    /// Test every object and keep the closest accepted hit: the upper end
    /// of the range shrinks to each accepted `t`, so the result, if any,
    /// is the globally closest intersection along the ray.
    pub fn hit(&self, r: &Ray, ray_t: Interval, rec: &mut HitRecord) -> (b: bool)
        ensures
            b == (list_hit3(self.objects@, *r, ray_t.start@, ray_t.end@) is Some),
            b ==> *final(rec) == list_hit3(self.objects@, *r, ray_t.start@, ray_t.end@)->0,
            !b ==> *final(rec) == *old(rec),
    {
        let ghost objs = self.objects@;
        let ghost t0 = ray_t.start@;
        let ghost t1 = ray_t.end@;
        let mut hit_anything = false;
        let mut closest_so_far = ray_t.end;
        let mut i: usize = 0;
        while i < self.objects.len()
            invariant
                0 <= i <= objs.len(),
                objs == self.objects@,
                t0 == ray_t.start@,
                t1 == ray_t.end@,
                hit_anything ==> closest_so_far@ == rec.t@,
                !hit_anything ==> closest_so_far == ray_t.end && *rec == *old(rec),
                list_hit3(objs, *r, t0, t1) == list_hit_from3(
                    objs,
                    *r,
                    t0,
                    t1,
                    i as int,
                    if hit_anything {
                        Some(*rec)
                    } else {
                        None
                    },
                ),
            decreases objs.len() - i,
        {
            let mut temp_rec = HitRecord::default();
            let object = &self.objects[i];
            if object.hit(r, Interval::new(ray_t.start, closest_so_far), &mut temp_rec) {
                hit_anything = true;
                closest_so_far = temp_rec.t;
                *rec = temp_rec;
            }
            i = i + 1;
        }
        hit_anything
    }
}

} // verus!
