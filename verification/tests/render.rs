//! The camera, the full render loop and the text encodings.

use rtwlib::camera::{Camera, GradientSky, Sky};
use rtwlib::color::ColorParseError;
use rtwlib::fixed::{Fx, FX_SCALE};
use rtwlib::hittable::sphere::Sphere;
use rtwlib::hittable::{Hittable, HittableList};
use rtwlib::material::{Lambertian, Material};
use rtwlib::text::{fx_to_string, u64_to_dec};
use rtwlib::vec3::Vec3;

fn fxi(n: i64) -> Fx {
    Fx::from_int(n)
}

fn fxr(n: i64, d: i64) -> Fx {
    Fx::from_ratio(n, d)
}

#[test]
fn initialize_twice_is_bit_identical() {
    let mut cam = Camera::default();
    cam.image_width = 320;
    cam.image_height = 240;
    cam.samples = 7;
    cam.vfov = fxi(45);
    cam.lookfrom = Vec3::new(fxi(1), fxr(1, 2), fxi(0));
    cam.lookat = Vec3::new(fxi(0), fxi(0), fxr(-1, 2));
    cam.defocus_angle = fxi(2);
    cam.focus_dist = fxr(23, 10);
    cam.initialize();
    let snapshot = cam;
    cam.initialize();
    assert_eq!(cam, snapshot);
}

#[test]
fn empty_scene_renders_the_flat_sky() {
    let mut cam = Camera::default();
    cam.image_width = 2;
    cam.image_height = 2;
    cam.samples = 4;
    cam.bounces = 10;
    cam.defocus_angle = fxi(0);
    cam.sky = Sky::Solid(Vec3::new(fxr(1, 2), fxr(7, 10), fxi(1)));
    let world = HittableList::new();
    let mut rng = rand::thread_rng();
    let bytes = cam.render_to_bytes(&world, &mut rng);
    assert_eq!(bytes.len(), 12);
    // Gamma-encoded bytes of (0.5, 0.7, 1.0): about (180, 213, 255).
    for px in 0..4 {
        let r = bytes[3 * px] as i32;
        let g = bytes[3 * px + 1] as i32;
        let b = bytes[3 * px + 2] as i32;
        assert!((r - 180).abs() <= 1, "red byte {}", r);
        assert!((g - 213).abs() <= 1, "green byte {}", g);
        assert_eq!(b, 255);
    }
}

#[test]
fn flat_scene_renders_identical_lines() {
    let mut cam = Camera::default();
    cam.image_width = 2;
    cam.image_height = 2;
    cam.samples = 4;
    cam.bounces = 10;
    cam.defocus_angle = fxi(0);
    cam.sky = Sky::Solid(Vec3::new(fxr(1, 2), fxr(7, 10), fxi(1)));
    let world = HittableList::new();
    let mut rng = rand::thread_rng();
    let text = cam.render_to_string(&world, &mut rng);
    assert_eq!(text, "181 214 255\n".repeat(4));
}

#[test]
fn initialized_basis_is_orthonormal() {
    let mut cam = Camera::default();
    cam.lookfrom = Vec3::new(fxi(3), fxi(1), fxi(2));
    cam.lookat = Vec3::new(fxi(0), fxi(0), fxr(-1, 2));
    cam.vup = Vec3::new(fxi(0), fxi(1), fxi(0));
    cam.initialize();
    let tol = 64;
    assert!((cam.u.length_squared().bits - FX_SCALE).abs() <= tol);
    assert!((cam.v.length_squared().bits - FX_SCALE).abs() <= tol);
    assert!((cam.w.length_squared().bits - FX_SCALE).abs() <= tol);
    assert!(rtwlib::vec3::dot(&cam.u, &cam.v).bits.abs() <= tol);
    assert!(rtwlib::vec3::dot(&cam.u, &cam.w).bits.abs() <= tol);
    assert!(rtwlib::vec3::dot(&cam.v, &cam.w).bits.abs() <= tol);
}

#[test]
fn black_scene_renders_zero_lines() {
    let mut cam = Camera::default();
    cam.image_width = 1;
    cam.image_height = 1;
    cam.samples = 2;
    cam.defocus_angle = fxi(0);
    cam.sky = Sky::Solid(Vec3::splat(fxi(0)));
    let world = HittableList::new();
    let mut rng = rand::thread_rng();
    let text = cam.render_to_string(&world, &mut rng);
    assert_eq!(text, "0 0 0\n");
}

#[test]
fn render_row_has_three_bytes_per_pixel() {
    let mut cam = Camera::default();
    cam.image_width = 5;
    cam.image_height = 3;
    cam.samples = 1;
    cam.initialize();
    let world = HittableList::new();
    let mut rng = rand::thread_rng();
    let row = cam.render_row_to_bytes(&world, 1, &mut rng);
    assert_eq!(row.len(), 15);
}

#[test]
fn camera_new_matches_initialized_default() {
    let cam = Camera::new();
    let mut other = Camera::default();
    other.initialize();
    assert_eq!(cam, other);
    assert_eq!(cam.get_height(), 600);
    // 1 / 100 samples.
    assert_eq!(cam.get_sample_scale(), Fx::from_bits(FX_SCALE / 100));
}

#[test]
fn get_distance_is_euclidean() {
    let mut cam = Camera::default();
    cam.lookfrom = Vec3::splat(fxi(0));
    assert_eq!(cam.get_distance(Vec3::new(fxi(3), fxi(4), fxi(0))), fxi(5));
}

#[test]
fn gradient_sky_tracks_ray_height() {
    let sky = Sky::Gradient(
        GradientSky { start: Vec3::splat(fxi(0)), end: Vec3::splat(fxi(1)) },
    );
    let up = rtwlib::ray::Ray::new(Vec3::splat(fxi(0)), Vec3::new(fxi(0), fxi(1), fxi(0)));
    assert_eq!(rtwlib::camera::sky_color(&sky, up), Vec3::splat(fxi(1)));
    let down = rtwlib::ray::Ray::new(Vec3::splat(fxi(0)), Vec3::new(fxi(0), fxi(-1), fxi(0)));
    assert_eq!(rtwlib::camera::sky_color(&sky, down), Vec3::splat(fxi(0)));
    // Horizontal rays sit exactly in the middle.
    let level = rtwlib::ray::Ray::new(Vec3::splat(fxi(0)), Vec3::new(fxi(1), fxi(0), fxi(0)));
    assert_eq!(rtwlib::camera::sky_color(&sky, level), Vec3::splat(fxr(1, 2)));
}

#[test]
fn rgb_bytes_of_primary_colors() {
    let c = Vec3::new(fxi(1), fxi(0), fxr(1, 4));
    let bytes = c.to_rgb_bytes();
    // sqrt(1.0) clamps at 0.999 -> 255; sqrt(0) -> 0; sqrt(0.25) = 0.5 -> 128.
    assert_eq!(bytes, [255, 0, 128]);
}

#[test]
fn hex_round_trip() {
    let c = Vec3::from_hex("#ff0000").unwrap();
    assert_eq!(c, Vec3::new(fxi(1), fxi(0), fxi(0)));
    assert_eq!(c.to_hex(), "#ff0000");
    let black = Vec3::splat(fxi(0));
    assert_eq!(black.to_hex(), "#000000");
}

#[test]
fn from_hex_accepts_extra_hashes_and_tail() {
    let c = Vec3::from_hex("##00ff00trailing").unwrap();
    assert_eq!(c, Vec3::new(fxi(0), fxi(1), fxi(0)));
    let mixed = Vec3::from_hex("3Fc0A1").unwrap();
    let again = Vec3::from_hex("#3fC0a1").unwrap();
    assert_eq!(mixed, again);
}

#[test]
fn from_hex_reports_missing_digits() {
    assert_eq!(Vec3::from_hex("#ff00"), Err(ColorParseError::MissingDigits));
    assert_eq!(Vec3::from_hex(""), Err(ColorParseError::MissingDigits));
}

#[test]
fn from_hex_reports_invalid_digits() {
    assert_eq!(Vec3::from_hex("#ggff00"), Err(ColorParseError::InvalidDigit));
    assert_eq!(Vec3::from_hex("12345z"), Err(ColorParseError::InvalidDigit));
}

#[test]
fn decimal_renderings() {
    assert_eq!(u64_to_dec(0), "0");
    assert_eq!(u64_to_dec(12345), "12345");
    assert_eq!(fx_to_string(fxi(12)), "12.0000");
    assert_eq!(fx_to_string(fxr(-3, 2)), "-1.5000");
    assert_eq!(fx_to_string(fxi(0)), "0.0000");
    assert_eq!(fx_to_string(fxr(1, 4)), "0.2500");
}

#[test]
fn scene_listings_describe_the_objects() {
    let mut world = HittableList::new();
    world.add(Hittable::Sphere(Sphere::new(
        Vec3::new(fxi(0), fxi(0), fxi(-1)),
        fxr(1, 2),
        Material::Lambertian(Lambertian::new(Vec3::splat(fxr(1, 2)))),
    )));
    let listing = world.as_simple_vec();
    assert_eq!(listing.len(), 1);
    assert_eq!(
        listing[0],
        "[ Sphere ] Radius: 0.5000, Position: (0.0000x, 0.0000y, -1.0000z), material: Lambertian",
    );
    let info = world.as_info_vec();
    assert_eq!(info.len(), 1);
    assert_eq!(info[0], vec!["Sphere", "0.5000", "0.0000", "0.0000", "-1.0000", "Lambertian"]);
}
