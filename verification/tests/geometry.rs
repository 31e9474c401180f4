//! Ray/primitive intersection and the scene aggregate.

use rtwlib::fixed::Fx;
use rtwlib::hittable::plane::Plane;
use rtwlib::hittable::sphere::Sphere;
use rtwlib::hittable::{HitRecord, Hittable, HittableList};
use rtwlib::interval::Interval;
use rtwlib::material::{Lambertian, Material};
use rtwlib::ray::Ray;
use rtwlib::vec3::Vec3;

fn fxi(n: i64) -> Fx {
    Fx::from_int(n)
}

fn fxr(n: i64, d: i64) -> Fx {
    Fx::from_ratio(n, d)
}

fn gray() -> Material {
    Material::Lambertian(Lambertian::new(Vec3::splat(fxr(1, 2))))
}

fn full_range() -> Interval {
    Interval::new(Fx::from_bits(66), Fx::max_value())
}

#[test]
fn sphere_hit_head_on() {
    let sphere = Sphere::new(Vec3::new(fxi(0), fxi(0), fxi(-1)), fxr(1, 2), gray());
    let ray = Ray::new(Vec3::splat(fxi(0)), Vec3::new(fxi(0), fxi(0), fxi(-1)));
    let mut rec = HitRecord::default();
    let hit = sphere.hit(&ray, full_range(), &mut rec);
    assert!(hit);
    assert_eq!(rec.t, fxr(1, 2));
    assert_eq!(rec.p, Vec3::new(fxi(0), fxi(0), fxr(-1, 2)));
    assert_eq!(rec.normal, Vec3::new(fxi(0), fxi(0), fxi(1)));
    assert!(rec.front_face);
    assert_eq!(rec.mat, gray());
}

#[test]
fn sphere_missed_leaves_the_record_alone() {
    let sphere = Sphere::new(Vec3::new(fxi(0), fxi(0), fxi(-5)), fxr(1, 2), gray());
    let ray = Ray::new(Vec3::splat(fxi(0)), Vec3::new(fxi(0), fxi(0), fxi(1)));
    let mut rec = HitRecord::default();
    let before = rec;
    assert!(!sphere.hit(&ray, full_range(), &mut rec));
    assert_eq!(rec, before);
}

#[test]
fn sphere_negative_radius_degenerates_to_zero() {
    let sphere = Sphere::new(Vec3::splat(fxi(0)), fxi(-2), gray());
    assert_eq!(sphere.radius, Fx::zero());
}

#[test]
fn sphere_hit_from_inside_flips_the_normal() {
    let sphere = Sphere::new(Vec3::splat(fxi(0)), fxi(1), gray());
    let ray = Ray::new(Vec3::splat(fxi(0)), Vec3::new(fxi(0), fxi(0), fxi(-1)));
    let mut rec = HitRecord::default();
    assert!(sphere.hit(&ray, full_range(), &mut rec));
    assert_eq!(rec.t, fxi(1));
    assert!(!rec.front_face);
    // The outward normal at (0, 0, -1) is (0, 0, -1); oriented against the
    // ray it becomes (0, 0, 1).
    assert_eq!(rec.normal, Vec3::new(fxi(0), fxi(0), fxi(1)));
}

#[test]
fn plane_hit_straight_down() {
    let plane = Plane::new(
        Vec3::new(fxi(0), fxr(-1, 2), fxi(0)),
        Vec3::new(fxi(0), fxi(1), fxi(0)),
        gray(),
    );
    let ray = Ray::new(Vec3::splat(fxi(0)), Vec3::new(fxi(0), fxi(-1), fxi(0)));
    let mut rec = HitRecord::default();
    assert!(plane.hit(&ray, full_range(), &mut rec));
    assert_eq!(rec.t, fxr(1, 2));
    assert_eq!(rec.p, Vec3::new(fxi(0), fxr(-1, 2), fxi(0)));
    assert_eq!(rec.normal, Vec3::new(fxi(0), fxi(1), fxi(0)));
    assert!(rec.front_face);
}

#[test]
fn plane_parallel_ray_misses() {
    let plane = Plane::new(
        Vec3::new(fxi(0), fxr(-1, 2), fxi(0)),
        Vec3::new(fxi(0), fxi(1), fxi(0)),
        gray(),
    );
    let ray = Ray::new(Vec3::splat(fxi(0)), Vec3::new(fxi(1), fxi(0), fxi(0)));
    let mut rec = HitRecord::default();
    assert!(!plane.hit(&ray, full_range(), &mut rec));
}

#[test]
fn plane_constructor_normalizes_the_normal() {
    let plane = Plane::new(Vec3::splat(fxi(0)), Vec3::new(fxi(0), fxi(7), fxi(0)), gray());
    assert_eq!(plane.normal, Vec3::new(fxi(0), fxi(1), fxi(0)));
}

#[test]
fn scene_keeps_the_closest_hit() {
    let near = Hittable::Sphere(Sphere::new(Vec3::new(fxi(0), fxi(0), fxi(-2)), fxr(1, 2), gray()));
    let far = Hittable::Sphere(Sphere::new(Vec3::new(fxi(0), fxi(0), fxi(-5)), fxr(1, 2), gray()));
    let ray = Ray::new(Vec3::splat(fxi(0)), Vec3::new(fxi(0), fxi(0), fxi(-1)));

    // Far object first: the nearer one replaces it.
    let mut world = HittableList::new();
    world.add(far);
    world.add(near);
    let mut rec = HitRecord::default();
    assert!(world.hit(&ray, full_range(), &mut rec));
    assert_eq!(rec.t, fxr(3, 2));

    // Near object first: the farther one is rejected by the shrunken range.
    let mut world2 = HittableList::new();
    world2.add(near);
    world2.add(far);
    let mut rec2 = HitRecord::default();
    assert!(world2.hit(&ray, full_range(), &mut rec2));
    assert_eq!(rec2.t, fxr(3, 2));
}

#[test]
fn empty_scene_never_hits() {
    let world = HittableList::new();
    let ray = Ray::new(Vec3::splat(fxi(0)), Vec3::new(fxi(0), fxi(0), fxi(-1)));
    let mut rec = HitRecord::default();
    assert!(!world.hit(&ray, full_range(), &mut rec));
}

#[test]
fn ray_at_walks_the_ray() {
    let ray = Ray::new(Vec3::new(fxi(1), fxi(2), fxi(3)), Vec3::new(fxi(0), fxi(0), fxi(-2)));
    assert_eq!(ray.at(fxr(1, 2)), Vec3::new(fxi(1), fxi(2), fxi(2)));
}

#[test]
fn interval_tests_and_clamp() {
    let iv = Interval::new(fxi(1), fxi(3));
    assert_eq!(iv.size(), fxi(2));
    assert!(iv.contains(fxi(1)));
    assert!(iv.contains(fxi(3)));
    assert!(!iv.contains(fxi(4)));
    assert!(!iv.surrounds(fxi(1)));
    assert!(iv.surrounds(fxi(2)));
    assert!(iv.surrounds(fxi(3)));
    assert_eq!(iv.clamp(fxi(2)), fxi(2));
    assert_eq!(iv.clamp(fxi(0)), fxi(1));
    // Values above the end also map back to the start.
    assert_eq!(iv.clamp(fxi(9)), fxi(1));
}
