//! The camera and the render loop.
//!
//! A camera carries user-set configuration plus viewport state derived
//! from it by [`Camera::initialize`], a pure function of the
//! configuration; rendering walks pixels row-major, averages jittered
//! samples per pixel and gamma-encodes them to bytes.

use vstd::prelude::*;
use crate::color::{rgb_byte, Color};
use crate::fixed::{fx_div, fx_mul, sat64, tan3, DEG_TO_RAD_BITS, Fx, FX_SCALE};
use crate::hittable::{list_hit3, HitRecord, Hittable, HittableList};
use crate::ray::Ray;
use crate::text::{dec_str, push_char, push_str, u64_to_dec};
use crate::vec3::{
    cross, cross3, dot3, norm_sq3, normalize3, v3_add, v3_mul, v3_neg, v3_scale, v3_sub, v3_zero,
    Point3, Vec3, V3,
};

verus! {

/// The shadow-acne epsilon: hits closer than this (about 0.001) along the
/// ray are ignored, so a scattered ray cannot re-hit its own origin.
pub const T_MIN_EPS_BITS: i64 = 66;

/// One half in fixed point.
pub const HALF_BITS: i64 = 32768;

/// A gradient background: interpolates from `start` at the horizon's
/// downward extreme to `end` straight up, by the vertical component of
/// the ray direction.
#[derive(Clone, Copy, Debug, PartialEq, Eq, Structural)]
pub struct GradientSky {
    /// The color where the interpolation parameter is zero.
    pub start: Color,
    /// The color where the interpolation parameter is one.
    pub end: Color,
}

/// A background color function over a ray: a solid color that ignores the
/// direction, or a vertical gradient.
#[derive(Clone, Copy, Debug, PartialEq, Eq, Structural)]
pub enum Sky {
    /// The same color in every direction.
    Solid(Color),
    /// A vertical gradient.
    Gradient(GradientSky),
}

/// The color a sky assigns to a ray: for a gradient,
/// `t = (normalize(direction).y + 1) / 2` interpolates start to end.
pub open spec fn sky_color3(s: Sky, r: Ray) -> V3 {
    match s {
        Sky::Solid(c) => c@,
        Sky::Gradient(g) => {
            let t = fx_mul(HALF_BITS as int, sat64(normalize3(r.direction@).y + FX_SCALE));
            v3_add(v3_scale(g.start@, sat64(FX_SCALE - t)), v3_scale(g.end@, t))
        },
    }
}

/// The color of a sky for a ray.
pub fn sky_color(s: &Sky, r: Ray) -> (c: Color)
    ensures
        c@ == sky_color3(*s, r),
{
    match s {
        Sky::Solid(c) => *c,
        Sky::Gradient(g) => {
            let t = Fx::from_bits(HALF_BITS).mul(r.direction.normalized().y.add(Fx::one()));
            g.start.scale(Fx::one().sub(t)).add(g.end.scale(t))
        },
    }
}

/// The camera: the configuration fields up to `sky` are user-set; the
/// rest is viewport state derived from them by `initialize`, which must
/// run after any configuration change and before rays are generated.
#[derive(Clone, Copy, Debug, PartialEq, Eq, Structural)]
pub struct Camera {
    /// The width-to-height ratio; recomputed from the image dimensions.
    pub aspect_ratio: Fx,
    /// The width of the image in pixels.
    pub image_width: u32,
    /// The height of the image in pixels.
    pub image_height: u32,
    /// How many rays are traced per pixel.
    pub samples: u32,
    /// The bounce limit per ray.
    pub bounces: u32,
    /// The vertical field of view, in degrees.
    pub vfov: Fx,
    /// Where the camera sits.
    pub lookfrom: Point3,
    /// What the camera looks at.
    pub lookat: Point3,
    /// The up direction; must not be parallel to the view direction.
    pub vup: Vec3,
    /// The defocus-disk angle in degrees; zero yields a pinhole camera.
    pub defocus_angle: Fx,
    /// The distance to the plane of perfect focus.
    pub focus_dist: Fx,
    /// The background.
    pub sky: Sky,
    /// Derived: 1 / samples.
    pub sample_scale: Fx,
    /// Derived: the camera center (equals `lookfrom`).
    pub center: Point3,
    /// Derived: where pixel (0, 0) sits.
    pub pixel00_loc: Point3,
    /// Derived: the step between pixel columns.
    pub pixel_delta_u: Vec3,
    /// Derived: the step between pixel rows.
    pub pixel_delta_v: Vec3,
    /// Derived: the camera right axis.
    pub u: Vec3,
    /// Derived: the camera up axis.
    pub v: Vec3,
    /// Derived: the camera backward axis.
    pub w: Vec3,
    /// Derived: the defocus-disk basis along `u`.
    pub defocus_disc_u: Vec3,
    /// Derived: the defocus-disk basis along `v`.
    pub defocus_disc_v: Vec3,
}

/// The camera with all derived state recomputed from the configuration:
/// the pure image of `initialize`.
pub open spec fn initialized(c: Camera) -> Camera {
    let wide = sat64(c.image_width as int * (FX_SCALE as int));
    let high = sat64(c.image_height as int * (FX_SCALE as int));
    let aspect = fx_div(wide, high);
    let sample_scale = fx_div(FX_SCALE as int, sat64(c.samples as int * (FX_SCALE as int)));
    let theta = fx_mul(c.vfov@, DEG_TO_RAD_BITS as int);
    let h = tan3(fx_div(theta, 2 * (FX_SCALE as int)));
    let viewport_height = fx_mul(fx_mul(2 * (FX_SCALE as int), h), c.focus_dist@);
    let viewport_width = fx_mul(viewport_height, fx_div(wide, high));
    let w_axis = normalize3(v3_sub(c.lookfrom@, c.lookat@));
    let u_axis = normalize3(cross3(c.vup@, w_axis));
    let v_axis = cross3(w_axis, u_axis);
    let viewport_u = v3_scale(u_axis, viewport_width);
    let viewport_v = v3_scale(v3_neg(v_axis), viewport_height);
    let pixel_delta_u = crate::vec3::v3_div(viewport_u, wide);
    let pixel_delta_v = crate::vec3::v3_div(viewport_v, high);
    let two = 2 * (FX_SCALE as int);
    let upper_left = v3_sub(
        v3_sub(v3_sub(c.lookfrom@, v3_scale(w_axis, c.focus_dist@)), crate::vec3::v3_div(
            viewport_u,
            two,
        )),
        crate::vec3::v3_div(viewport_v, two),
    );
    let pixel00 = v3_add(upper_left, v3_scale(v3_add(pixel_delta_u, pixel_delta_v), HALF_BITS as int));
    let defocus_radius = fx_mul(
        c.focus_dist@,
        tan3(fx_mul(fx_div(c.defocus_angle@, two), DEG_TO_RAD_BITS as int)),
    );
    Camera {
        aspect_ratio: crate::fixed::fx_of(aspect),
        sample_scale: crate::fixed::fx_of(sample_scale),
        center: c.lookfrom,
        pixel00_loc: crate::vec3::from_v3(pixel00),
        pixel_delta_u: crate::vec3::from_v3(pixel_delta_u),
        pixel_delta_v: crate::vec3::from_v3(pixel_delta_v),
        u: crate::vec3::from_v3(u_axis),
        v: crate::vec3::from_v3(v_axis),
        w: crate::vec3::from_v3(w_axis),
        defocus_disc_u: crate::vec3::from_v3(v3_scale(u_axis, defocus_radius)),
        defocus_disc_v: crate::vec3::from_v3(v3_scale(v_axis, defocus_radius)),
        ..c
    }
}

/// The camera as `Camera::default` builds it.
pub open spec fn default_camera() -> Camera {
    Camera {
        aspect_ratio: crate::fixed::fx_of(FX_SCALE as int),
        image_width: 600u32,
        image_height: 600u32,
        samples: 100u32,
        bounces: 10u32,
        vfov: crate::fixed::fx_of(90 * (FX_SCALE as int)),
        lookfrom: crate::vec3::from_v3(v3_zero()),
        lookat: crate::vec3::from_v3(V3 { x: 0, y: 0, z: -(FX_SCALE as int) }),
        vup: crate::vec3::from_v3(V3 { x: 0, y: FX_SCALE as int, z: 0 }),
        defocus_angle: crate::fixed::fx_of(0),
        focus_dist: crate::fixed::fx_of(10 * (FX_SCALE as int)),
        sky: Sky::Gradient(
            GradientSky {
                start: crate::vec3::from_v3(
                    V3 { x: HALF_BITS as int, y: fx_div(7, 10), z: FX_SCALE as int },
                ),
                end: crate::vec3::from_v3(
                    V3 { x: FX_SCALE as int, y: FX_SCALE as int, z: FX_SCALE as int },
                ),
            },
        ),
        sample_scale: crate::fixed::fx_of(FX_SCALE as int),
        center: crate::vec3::from_v3(v3_zero()),
        pixel00_loc: crate::vec3::from_v3(v3_zero()),
        pixel_delta_u: crate::vec3::from_v3(v3_zero()),
        pixel_delta_v: crate::vec3::from_v3(v3_zero()),
        u: crate::vec3::from_v3(v3_zero()),
        v: crate::vec3::from_v3(v3_zero()),
        w: crate::vec3::from_v3(v3_zero()),
        defocus_disc_u: crate::vec3::from_v3(v3_zero()),
        defocus_disc_v: crate::vec3::from_v3(v3_zero()),
    }
}

impl Default for Camera {
    /// A square 600-pixel camera, 100 samples, 10 bounces, a 90-degree
    /// field of view at the origin looking down the negative z axis under
    /// a blue-to-white gradient sky, not yet initialized.
    fn default() -> (r: Camera)
        ensures
            r == default_camera(),
    {
        Camera {
            aspect_ratio: Fx::one(),
            image_width: 600,
            image_height: 600,
            samples: 100,
            bounces: 10,
            vfov: Fx::from_int(90),
            lookfrom: Vec3::splat(Fx::zero()),
            lookat: Vec3::new(Fx::zero(), Fx::zero(), Fx::from_int(-1)),
            vup: Vec3::new(Fx::zero(), Fx::one(), Fx::zero()),
            defocus_angle: Fx::zero(),
            focus_dist: Fx::from_int(10),
            sky: Sky::Gradient(
                GradientSky {
                    start: Vec3::new(
                        Fx::from_bits(HALF_BITS),
                        Fx::from_ratio(7, 10),
                        Fx::one(),
                    ),
                    end: Vec3::new(Fx::one(), Fx::one(), Fx::one()),
                },
            ),
            sample_scale: Fx::one(),
            center: Vec3::splat(Fx::zero()),
            pixel00_loc: Vec3::splat(Fx::zero()),
            pixel_delta_u: Vec3::splat(Fx::zero()),
            pixel_delta_v: Vec3::splat(Fx::zero()),
            u: Vec3::splat(Fx::zero()),
            v: Vec3::splat(Fx::zero()),
            w: Vec3::splat(Fx::zero()),
            defocus_disc_u: Vec3::splat(Fx::zero()),
            defocus_disc_v: Vec3::splat(Fx::zero()),
        }
    }
}

/// Law: initializing a camera yields a near-orthonormal basis, for a view
/// separation of at least half a unit, a cross of the up vector with the
/// view axis of at least half a unit (the up vector not parallel to the
/// view direction), and unit-scale configuration vectors. The backward
/// and right axes have squared length within 32 units of one and a
/// measured dot product within 45 units of zero; the up axis is exactly
/// the cross product of the other two, with squared length within 192
/// units of one, and its measured dot product with either of them is
/// within 16 units of zero.
#[verifier::rlimit(40)]
pub proof fn lemma_initialize_basis(c: Camera)
    requires
        crate::fixed::iabs(c.lookfrom@.x) <= 0x4000_0000,
        crate::fixed::iabs(c.lookfrom@.y) <= 0x4000_0000,
        crate::fixed::iabs(c.lookfrom@.z) <= 0x4000_0000,
        crate::fixed::iabs(c.lookat@.x) <= 0x4000_0000,
        crate::fixed::iabs(c.lookat@.y) <= 0x4000_0000,
        crate::fixed::iabs(c.lookat@.z) <= 0x4000_0000,
        crate::fixed::iabs(c.vup@.x) <= 0x4000_0000,
        crate::fixed::iabs(c.vup@.y) <= 0x4000_0000,
        crate::fixed::iabs(c.vup@.z) <= 0x4000_0000,
        norm_sq3(v3_sub(c.lookfrom@, c.lookat@)) >= crate::vec3::UNIT_SAMPLE_MIN_SQ_BITS as int,
        norm_sq3(cross3(c.vup@, normalize3(v3_sub(c.lookfrom@, c.lookat@))))
            >= crate::vec3::UNIT_SAMPLE_MIN_SQ_BITS as int,
    ensures
        crate::fixed::iabs(norm_sq3(initialized(c).w@) - FX_SCALE as int) <= 32,
        crate::fixed::iabs(norm_sq3(initialized(c).u@) - FX_SCALE as int) <= 32,
        initialized(c).v@ == cross3(initialized(c).w@, initialized(c).u@),
        crate::fixed::iabs(dot3(initialized(c).w@, initialized(c).v@)) <= 16,
        crate::fixed::iabs(dot3(initialized(c).u@, initialized(c).v@)) <= 16,
        crate::fixed::iabs(dot3(initialized(c).u@, initialized(c).w@)) <= 45,
        crate::fixed::iabs(norm_sq3(initialized(c).v@) - FX_SCALE as int) <= 192,
{
    let s = FX_SCALE as int;
    let sep = v3_sub(c.lookfrom@, c.lookat@);
    let w = normalize3(sep);
    crate::vec3::lemma_normalize_unit(sep);
    crate::fixed::lemma_fx_div_range(sep.x, crate::vec3::len3(sep));
    crate::fixed::lemma_fx_div_range(sep.y, crate::vec3::len3(sep));
    crate::fixed::lemma_fx_div_range(sep.z, crate::vec3::len3(sep));
    crate::vec3::lemma_from_v3_view(w);
    assert(initialized(c).w@ == w);
    crate::vec3::lemma_norm_components_bounded(w);

    let cvw = cross3(c.vup@, w);
    crate::fixed::lemma_iabs_mul_bound(c.vup@.y, w.z, 0x4000_0000, 0x2_0000);
    crate::fixed::lemma_iabs_mul_bound(c.vup@.z, w.y, 0x4000_0000, 0x2_0000);
    crate::fixed::lemma_iabs_mul_bound(c.vup@.z, w.x, 0x4000_0000, 0x2_0000);
    crate::fixed::lemma_iabs_mul_bound(c.vup@.x, w.z, 0x4000_0000, 0x2_0000);
    crate::fixed::lemma_iabs_mul_bound(c.vup@.x, w.y, 0x4000_0000, 0x2_0000);
    crate::fixed::lemma_iabs_mul_bound(c.vup@.y, w.x, 0x4000_0000, 0x2_0000);
    crate::fixed::lemma_tdiv_mag(c.vup@.y * w.z, s);
    crate::fixed::lemma_tdiv_mag(c.vup@.z * w.y, s);
    crate::fixed::lemma_tdiv_mag(c.vup@.z * w.x, s);
    crate::fixed::lemma_tdiv_mag(c.vup@.x * w.z, s);
    crate::fixed::lemma_tdiv_mag(c.vup@.x * w.y, s);
    crate::fixed::lemma_tdiv_mag(c.vup@.y * w.x, s);
    vstd::arithmetic::div_mod::lemma_div_is_ordered(
        crate::fixed::iabs(c.vup@.y * w.z),
        0x8000_0000_0000,
        s,
    );
    vstd::arithmetic::div_mod::lemma_div_is_ordered(
        crate::fixed::iabs(c.vup@.z * w.y),
        0x8000_0000_0000,
        s,
    );
    vstd::arithmetic::div_mod::lemma_div_is_ordered(
        crate::fixed::iabs(c.vup@.z * w.x),
        0x8000_0000_0000,
        s,
    );
    vstd::arithmetic::div_mod::lemma_div_is_ordered(
        crate::fixed::iabs(c.vup@.x * w.z),
        0x8000_0000_0000,
        s,
    );
    vstd::arithmetic::div_mod::lemma_div_is_ordered(
        crate::fixed::iabs(c.vup@.x * w.y),
        0x8000_0000_0000,
        s,
    );
    vstd::arithmetic::div_mod::lemma_div_is_ordered(
        crate::fixed::iabs(c.vup@.y * w.x),
        0x8000_0000_0000,
        s,
    );
    crate::vec3::lemma_from_v3_view(cvw);
    assert(crate::fixed::iabs(cvw.x) < 0x40_0000_0000 && crate::fixed::iabs(cvw.y)
        < 0x40_0000_0000 && crate::fixed::iabs(cvw.z) < 0x40_0000_0000);
    let u = normalize3(cvw);
    crate::vec3::lemma_normalize_unit(cvw);
    crate::fixed::lemma_fx_div_range(cvw.x, crate::vec3::len3(cvw));
    crate::fixed::lemma_fx_div_range(cvw.y, crate::vec3::len3(cvw));
    crate::fixed::lemma_fx_div_range(cvw.z, crate::vec3::len3(cvw));
    crate::vec3::lemma_from_v3_view(u);
    assert(initialized(c).u@ == u);
    crate::vec3::lemma_norm_components_bounded(u);

    let vv = cross3(w, u);
    crate::vec3::lemma_from_v3_view(vv);
    assert(initialized(c).v@ == vv);
    crate::vec3::lemma_cross_orthogonal_fx(w, u);
    let ww = crate::fixed::iabs(w.x) + crate::fixed::iabs(w.y) + crate::fixed::iabs(w.z);
    let uu = crate::fixed::iabs(u.x) + crate::fixed::iabs(u.y) + crate::fixed::iabs(u.z);
    assert(ww < 6 * s && uu < 6 * s);
    assert(crate::fixed::iabs(dot3(w, vv)) <= 16) by (nonlinear_arith)
        requires
            crate::fixed::iabs(dot3(w, vv)) * s <= 2 * ww + 3 * s,
            ww < 6 * s,
            s == 65536,
            crate::fixed::iabs(dot3(w, vv)) >= 0,
    ;
    assert(crate::fixed::iabs(dot3(u, vv)) <= 16) by (nonlinear_arith)
        requires
            crate::fixed::iabs(dot3(u, vv)) * s <= 2 * uu + 3 * s,
            uu < 6 * s,
            s == 65536,
            crate::fixed::iabs(dot3(u, vv)) >= 0,
    ;

    // The normalized cross stays nearly orthogonal to the backward axis.
    crate::vec3::lemma_cross_orthogonal_fx(c.vup@, w);
    assert(crate::fixed::iabs(dot3(w, cvw)) <= 15) by (nonlinear_arith)
        requires
            crate::fixed::iabs(dot3(w, cvw)) * s <= 2 * ww + 3 * s,
            ww < 6 * s,
            s == 65536,
            crate::fixed::iabs(dot3(w, cvw)) >= 0,
    ;
    assert(dot3(cvw, w) == dot3(w, cvw));
    crate::vec3::lemma_normalized_orthogonality(cvw, w, 15);

    // The up axis is itself near unit, by the Lagrange identity carried
    // through the truncations.
    assert(dot3(w, u) == dot3(u, w));
    crate::vec3::lemma_cross_norm_unit(w, u);
}

/// Law: deriving the viewport state is idempotent. Initializing reads only
/// the configuration fields and rewrites only the derived ones, so a
/// second initialization of an unchanged camera recomputes bit-identical
/// state.
pub proof fn lemma_initialize_idempotent(c: Camera)
    ensures
        initialized(initialized(c)) == initialized(c),
{
}

impl Camera {
    /// A default camera with its derived state computed.
    pub fn new() -> (r: Camera)
        ensures
            r == initialized(default_camera()),
    {
        let mut cam = Camera::default();
        cam.initialize();
        cam
    }

    /// Recompute all derived viewport state from the configuration. Must
    /// run after any configuration change and at least once before rays
    /// are generated.
    pub fn initialize(&mut self)
        ensures
            *final(self) == initialized(*old(self)),
    {
        self.aspect_ratio = Fx::from_int(self.image_width as i64).div(
            Fx::from_int(self.image_height as i64),
        );
        self.sample_scale = Fx::one().div(Fx::from_int(self.samples as i64));
        self.center = self.lookfrom;

        let theta = self.vfov.to_radians();
        let h = theta.div(Fx::from_int(2)).tan();
        let viewport_height = Fx::from_int(2).mul(h).mul(self.focus_dist);
        let viewport_width = viewport_height.mul(
            Fx::from_int(self.image_width as i64).div(Fx::from_int(self.image_height as i64)),
        );

        self.w = self.lookfrom.sub(self.lookat).normalized();
        self.u = cross(&self.vup, &self.w).normalized();
        self.v = cross(&self.w, &self.u);
        let viewport_u = self.u.scale(viewport_width);
        let viewport_v = self.v.neg().scale(viewport_height);
        self.pixel_delta_u = viewport_u.div_scalar(Fx::from_int(self.image_width as i64));
        self.pixel_delta_v = viewport_v.div_scalar(Fx::from_int(self.image_height as i64));

        let viewport_upper_left = self.center.sub(self.w.scale(self.focus_dist)).sub(
            viewport_u.div_scalar(Fx::from_int(2)),
        ).sub(viewport_v.div_scalar(Fx::from_int(2)));
        self.pixel00_loc = viewport_upper_left.add(
            self.pixel_delta_u.add(self.pixel_delta_v).scale(Fx::from_bits(HALF_BITS)),
        );
        let defocus_radius = self.focus_dist.mul(
            self.defocus_angle.div(Fx::from_int(2)).to_radians().tan(),
        );
        self.defocus_disc_u = self.u.scale(defocus_radius);
        self.defocus_disc_v = self.v.scale(defocus_radius);
    }

    /// The distance from the camera position to a target point.
    pub fn get_distance(&self, target: Point3) -> (r: Fx)
        ensures
            r@ == crate::vec3::len3(v3_sub(target@, self.lookfrom@)),
    {
        target.sub(self.lookfrom).length()
    }

    /// The derived per-sample averaging factor, `1 / samples`.
    pub fn get_sample_scale(&self) -> (r: Fx)
        ensures
            r == self.sample_scale,
    {
        self.sample_scale
    }

    /// The height of the image in pixels.
    pub fn get_height(&self) -> (r: u32)
        ensures
            r == self.image_height,
    {
        self.image_height
    }
}

/// The jittered viewport point a sample targets: pixel (i, j) offset by a
/// sub-pixel jitter `(ox, oy)` drawn from `[0, 1)`.
pub open spec fn sample_point3(c: Camera, i: int, j: int, ox: int, oy: int) -> V3 {
    v3_add(
        v3_add(
            c.pixel00_loc@,
            v3_scale(c.pixel_delta_u@, sat64(sat64(i * (FX_SCALE as int)) + ox)),
        ),
        v3_scale(c.pixel_delta_v@, sat64(sat64(j * (FX_SCALE as int)) + oy)),
    )
}

/// Where a sample ray starts: the camera center displaced over the
/// defocus disk by a draw `(px, py)` from the unit disk.
pub open spec fn defocus_origin3(c: Camera, px: int, py: int) -> V3 {
    v3_add(v3_add(c.center@, v3_scale(c.defocus_disc_u@, px)), v3_scale(c.defocus_disc_v@, py))
}

/// An admissible sample ray for pixel (i, j): one the jittered generator
/// can produce, for some sub-pixel jitter and defocus-disk draw — its
/// origin displaced over the defocus disk and its direction from that
/// origin to the jittered viewport point.
#[verifier::opaque]
pub open spec fn pixel_ray(c: Camera, i: int, j: int, r: Ray) -> bool {
    exists|ox: int, oy: int, px: int, py: int|
        #![auto]
        {
            &&& 0 <= ox < FX_SCALE as int
            &&& 0 <= oy < FX_SCALE as int
            &&& norm_sq3(V3 { x: px, y: py, z: 0 }) < FX_SCALE as int
            &&& r.origin@ == defocus_origin3(c, px, py)
            &&& r.direction@ == v3_sub(
                sample_point3(c, i, j, ox, oy),
                defocus_origin3(c, px, py),
            )
        }
}

impl Camera {
    /// A sample ray toward pixel (i, j): the target is jittered inside
    /// the pixel, the origin drawn from the defocus disk. With a
    /// degenerate (pinhole) disk the origin is exactly the camera center.
    pub fn get_ray(&self, i: u32, j: u32, rng: &mut rand::rngs::ThreadRng) -> (r: Ray)
        ensures
            pixel_ray(*self, i as int, j as int, r),
            (self.defocus_disc_u@ == v3_zero() && self.defocus_disc_v@ == v3_zero())
                ==> r.origin@ == self.center@,
    {
        let offset = crate::vec3::Vec3::random(Fx::zero(), Fx::one(), rng);

        let pixel_sample = self.pixel00_loc.add(
            self.pixel_delta_u.scale(Fx::from_int(i as i64).add(offset.x)),
        ).add(self.pixel_delta_v.scale(Fx::from_int(j as i64).add(offset.y)));

        let p = crate::vec3::Vec3::random_in_unit_disk(rng);
        let ray_origin = self.center.add(self.defocus_disc_u.scale(p.x)).add(
            self.defocus_disc_v.scale(p.y),
        );
        let ray_direction = pixel_sample.sub(ray_origin);
        let r = Ray::new(ray_origin, ray_direction);
        proof {
            reveal(pixel_ray);
            crate::vec3::lemma_scale_zero(p.x@);
            crate::vec3::lemma_scale_zero(p.y@);
            assert(sat64(i as int * (FX_SCALE as int)) == i as int * (FX_SCALE as int));
            assert(sat64(j as int * (FX_SCALE as int)) == j as int * (FX_SCALE as int));
            assert(0 <= offset.x@ < FX_SCALE as int && 0 <= offset.y@ < FX_SCALE as int
                && norm_sq3(V3 { x: p.x@, y: p.y@, z: 0 }) < FX_SCALE as int && r.origin@
                == defocus_origin3(*self, p.x@, p.y@) && r.direction@ == v3_sub(
                sample_point3(*self, i as int, j as int, offset.x@, offset.y@),
                defocus_origin3(*self, p.x@, p.y@),
            ));
        }
        r
    }

    /// Trace a ray through the scene for at most `bounces` scattering
    /// steps, multiplying attenuations along the path. Zero remaining
    /// bounces yield black whatever the scene holds; a ray that misses
    /// every primitive yields exactly the sky's color for it; and every
    /// result is a shading outcome: a chain of scatter-consistent steps
    /// whose attenuations multiply into the sky color, ending black on
    /// absorption or exhaustion.
    pub fn ray_color(
        &self,
        r: Ray,
        bounces: u32,
        world: &HittableList,
        rng: &mut rand::rngs::ThreadRng,
    ) -> (res: Color)
        ensures
            bounces == 0 ==> res@ == v3_zero(),
            (bounces > 0 && list_hit3(
                world.objects@,
                r,
                T_MIN_EPS_BITS as int,
                i64::MAX as int,
            ) is None) ==> res@ == sky_color3(self.sky, r),
            shading_outcome(self.sky, world.objects@, r, bounces as int, res@),
    {
        let ghost white = V3 { x: FX_SCALE as int, y: FX_SCALE as int, z: FX_SCALE as int };
        let mut attenuation = Vec3::new(Fx::one(), Fx::one(), Fx::one());
        let mut current = r;
        let mut remaining = bounces;
        while remaining > 0
            invariant
                remaining <= bounces,
                remaining == bounces ==> attenuation@ == (V3 {
                    x: FX_SCALE as int,
                    y: FX_SCALE as int,
                    z: FX_SCALE as int,
                }) && current == r,
                remaining < bounces ==> list_hit3(
                    world.objects@,
                    r,
                    T_MIN_EPS_BITS as int,
                    i64::MAX as int,
                ) is Some,
                white == (V3 { x: FX_SCALE as int, y: FX_SCALE as int, z: FX_SCALE as int }),
                forall|fin: V3|
                    #[trigger] shading_outcome_from(
                        self.sky,
                        world.objects@,
                        attenuation@,
                        current,
                        remaining as int,
                        fin,
                    ) ==> shading_outcome_from(
                        self.sky,
                        world.objects@,
                        white,
                        r,
                        bounces as int,
                        fin,
                    ),
            decreases remaining,
        {
            let mut rec = HitRecord::default();
            if !world.hit(&current, crate::interval::Interval::new(
                Fx::from_bits(T_MIN_EPS_BITS),
                Fx::max_value(),
            ), &mut rec) {
                let sky = sky_color(&self.sky, current);
                let out = attenuation.mul(sky);
                proof {
                    reveal(shading_outcome_from);
                    if remaining == bounces {
                        lemma_white_mul_identity(sky@);
                    }
                    assert(shading_outcome_from(
                        self.sky,
                        world.objects@,
                        attenuation@,
                        current,
                        remaining as int,
                        out@,
                    ));
                }
                return out;
            }
            let mut scattered = Ray::new(Vec3::splat(Fx::zero()), Vec3::splat(Fx::zero()));
            let mut atten = Vec3::splat(Fx::one());
            let scattered_ok = rec.mat.scatter(&current, &rec, &mut atten, &mut scattered, rng);
            if !scattered_ok {
                proof {
                    reveal(shading_outcome_from);
                    let hit_rec = list_hit3(
                        world.objects@,
                        current,
                        T_MIN_EPS_BITS as int,
                        i64::MAX as int,
                    )->0;
                    assert(crate::material::scatter_step(
                        hit_rec.mat,
                        current,
                        hit_rec,
                        atten,
                        scattered,
                        false,
                    ) && !false && v3_zero() == v3_zero());
                    assert(shading_outcome_from(
                        self.sky,
                        world.objects@,
                        attenuation@,
                        current,
                        remaining as int,
                        v3_zero(),
                    ));
                }
                return Vec3::splat(Fx::zero());
            }
            proof {
                let hit_rec = list_hit3(
                    world.objects@,
                    current,
                    T_MIN_EPS_BITS as int,
                    i64::MAX as int,
                )->0;
                let ghost acc = attenuation@;
                assert forall|fin: V3|
                    #[trigger] shading_outcome_from(
                        self.sky,
                        world.objects@,
                        v3_mul(acc, atten@),
                        scattered,
                        remaining as int - 1,
                        fin,
                    ) implies shading_outcome_from(
                    self.sky,
                    world.objects@,
                    acc,
                    current,
                    remaining as int,
                    fin,
                ) by {
                    reveal(shading_outcome_from);
                    assert(crate::material::scatter_step(
                        hit_rec.mat,
                        current,
                        hit_rec,
                        atten,
                        scattered,
                        true,
                    ));
                }
            }
            attenuation = attenuation.mul(atten);
            current = scattered;
            remaining = remaining - 1;
        }
        proof {
            reveal(shading_outcome_from);
            assert(shading_outcome_from(
                self.sky,
                world.objects@,
                attenuation@,
                current,
                remaining as int,
                v3_zero(),
            ));
        }
        Vec3::splat(Fx::zero())
    }
}

/// Whether `res` is a possible shading outcome for a ray with `n` bounces
/// left and attenuation `acc` accumulated so far: black at exhaustion; on
/// a miss, the accumulated attenuation times the sky's color; at a hit,
/// either black on absorption, or (for a scatter-consistent step) a
/// possible outcome of the outgoing ray with the hit's attenuation
/// multiplied in.
#[verifier::opaque]
pub open spec fn shading_outcome_from(
    sky: Sky,
    objs: Seq<Hittable>,
    acc: V3,
    r: Ray,
    n: int,
    res: V3,
) -> bool
    decreases n,
{
    if n <= 0 {
        res == v3_zero()
    } else {
        match list_hit3(objs, r, T_MIN_EPS_BITS as int, i64::MAX as int) {
            None => res == v3_mul(acc, sky_color3(sky, r)),
            Some(rec) => exists|att: Color, outgoing: Ray, b: bool|
                #[trigger] crate::material::scatter_step(rec.mat, r, rec, att, outgoing, b) && if b {
                    shading_outcome_from(
                        sky,
                        objs,
                        v3_mul(acc, att@),
                        outgoing,
                        n - 1,
                        res,
                    )
                } else {
                    res == v3_zero()
                },
        }
    }
}

/// Whether `res` is a possible shading outcome of tracing `r` for at most
/// `n` bounces, starting from white attenuation.
pub open spec fn shading_outcome(sky: Sky, objs: Seq<Hittable>, r: Ray, n: int, res: V3) -> bool {
    shading_outcome_from(
        sky,
        objs,
        V3 { x: FX_SCALE as int, y: FX_SCALE as int, z: FX_SCALE as int },
        r,
        n,
        res,
    )
}

/// Whether a render is a flat fill: an empty scene under a solid sky with
/// at least one bounce, the sky color small enough that summing it over
/// the sample count cannot saturate. Every sample of every pixel is then
/// exactly the sky color.
pub open spec fn flat_sky_render(c: Camera, world: HittableList) -> bool {
    &&& world.objects@.len() == 0
    &&& c.bounces > 0
    &&& c.sky is Solid
    &&& c.samples as int * crate::fixed::iabs(c.sky->Solid_0@.x) <= i64::MAX as int
    &&& c.samples as int * crate::fixed::iabs(c.sky->Solid_0@.y) <= i64::MAX as int
    &&& c.samples as int * crate::fixed::iabs(c.sky->Solid_0@.z) <= i64::MAX as int
}

/// The pixel color of a flat fill: the solid sky color summed over the
/// samples and averaged back down by `sample_scale`.
pub open spec fn flat_pixel3(c: Camera) -> V3 {
    let col = c.sky->Solid_0@;
    v3_scale(
        V3 {
            x: c.samples as int * col.x,
            y: c.samples as int * col.y,
            z: c.samples as int * col.z,
        },
        c.sample_scale@,
    )
}

/// One pixel as a text line: its three bytes in decimal, space-separated
/// and newline-terminated.
pub open spec fn rgb_line(b: Seq<u8>) -> Seq<char> {
    dec_str(b[0] as nat) + seq![' '] + dec_str(b[1] as nat) + seq![' '] + dec_str(b[2] as nat)
        + seq!['\n']
}

/// The text of a sequence of pixels: one line per pixel, in order.
pub open spec fn lines_of(pix: Seq<Seq<u8>>) -> Seq<char>
    decreases pix.len(),
{
    if pix.len() == 0 {
        Seq::empty()
    } else {
        lines_of(pix.drop_last()) + rgb_line(pix.last())
    }
}

/// The text of a flat fill over `n` pixels: the one line, repeated.
pub open spec fn flat_text(c: Camera, n: int) -> Seq<char>
    decreases n,
{
    if n <= 0 {
        Seq::empty()
    } else {
        flat_text(c, n - 1) + rgb_line(flat_bytes(c))
    }
}

/// The three bytes of pixel `px` in a row-major byte buffer.
pub open spec fn pixel_bytes_at(buf: Seq<u8>, px: int) -> Seq<u8> {
    seq![buf[3 * px], buf[3 * px + 1], buf[3 * px + 2]]
}

/// The three display bytes of a color.
pub open spec fn rgb_bytes_of(col: V3) -> Seq<u8> {
    seq![rgb_byte(col.x) as u8, rgb_byte(col.y) as u8, rgb_byte(col.z) as u8]
}

/// The three display bytes of a flat fill's pixels.
pub open spec fn flat_bytes(c: Camera) -> Seq<u8> {
    rgb_bytes_of(flat_pixel3(c))
}

/// Whether `res` is an admissible averaged value for pixel (i, j) with
/// `k` samples still to fold into the accumulator `acc`: each remaining
/// sample is a shading outcome of some admissible pixel ray, and the
/// finished accumulator is scaled by `sample_scale`.
#[verifier::opaque]
pub open spec fn pixel_outcome_from(
    c: Camera,
    objs: Seq<Hittable>,
    i: int,
    j: int,
    k: int,
    acc: V3,
    res: V3,
) -> bool
    decreases k,
{
    if k <= 0 {
        res == v3_scale(acc, c.sample_scale@)
    } else {
        exists|r: Ray, col: V3|
            #![trigger pixel_ray(c, i, j, r), shading_outcome(c.sky, objs, r, c.bounces as int, col)]
            pixel_ray(c, i, j, r) && shading_outcome(c.sky, objs, r, c.bounces as int, col)
                && pixel_outcome_from(c, objs, i, j, k - 1, v3_add(acc, col), res)
    }
}

/// Whether `res` is an admissible value for pixel (i, j): the sum of
/// `samples` shading outcomes of admissible pixel rays, averaged by
/// `sample_scale`.
pub open spec fn pixel_outcome(c: Camera, objs: Seq<Hittable>, i: int, j: int, res: V3) -> bool {
    pixel_outcome_from(c, objs, i, j, c.samples as int, v3_zero(), res)
}

/// One more sample folds into a pixel accumulation: an admissible ray
/// whose shading outcome is `col` extends any completion of the larger
/// accumulator into a completion of the smaller one.
proof fn lemma_pixel_outcome_step(
    c: Camera,
    objs: Seq<Hittable>,
    i: int,
    j: int,
    k: int,
    acc: V3,
    ray: Ray,
    col: V3,
)
    requires
        k > 0,
        pixel_ray(c, i, j, ray),
        shading_outcome(c.sky, objs, ray, c.bounces as int, col),
    ensures
        forall|fin: V3|
            #[trigger] pixel_outcome_from(c, objs, i, j, k - 1, v3_add(acc, col), fin)
                ==> pixel_outcome_from(c, objs, i, j, k, acc, fin),
{
    assert forall|fin: V3|
        #[trigger] pixel_outcome_from(c, objs, i, j, k - 1, v3_add(acc, col), fin)
            implies pixel_outcome_from(c, objs, i, j, k, acc, fin) by {
        reveal(pixel_outcome_from);
    }
}

/// A finished pixel accumulation: with no samples left, the scaled
/// accumulator is the one admissible value.
proof fn lemma_pixel_outcome_base(c: Camera, objs: Seq<Hittable>, i: int, j: int, acc: V3)
    ensures
        pixel_outcome_from(c, objs, i, j, 0, acc, v3_scale(acc, c.sample_scale@)),
{
    reveal(pixel_outcome_from);
}

/// Whether a byte triple is an admissible rendering of pixel (i, j): the
/// display bytes of some admissible averaged pixel color.
pub open spec fn pixel_bytes_outcome(
    c: Camera,
    objs: Seq<Hittable>,
    i: int,
    j: int,
    bytes: Seq<u8>,
) -> bool {
    exists|col: V3| #[trigger] pixel_outcome(c, objs, i, j, col) && bytes == rgb_bytes_of(col)
}

/// One accumulation step stays exact while the total cannot saturate.
proof fn lemma_accum_step(k: int, n: int, cx: int)
    requires
        0 <= k < n,
        n * crate::fixed::iabs(cx) <= i64::MAX as int,
    ensures
        sat64(k * cx + cx) == (k + 1) * cx,
{
    assert(crate::fixed::iabs((k + 1) * cx) <= n * crate::fixed::iabs(cx)) by (nonlinear_arith)
        requires
            0 <= k + 1 <= n,
            crate::fixed::iabs(cx) == if cx < 0 { -cx } else { cx },
            crate::fixed::iabs((k + 1) * cx) == if (k + 1) * cx < 0 {
                -((k + 1) * cx)
            } else {
                (k + 1) * cx
            },
    ;
    assert(k * cx + cx == (k + 1) * cx) by (nonlinear_arith);
}

impl Camera {
    /// The averaged color of pixel (i, j): the sum of `samples` jittered
    /// traced rays, scaled by `sample_scale`. Every result is an
    /// admissible pixel outcome; a flat fill averages to an exactly known
    /// color.
    #[verifier::rlimit(30)]
    fn sample_pixel(
        &self,
        i: u32,
        j: u32,
        world: &HittableList,
        rng: &mut rand::rngs::ThreadRng,
    ) -> (c: Color)
        ensures
            pixel_outcome(*self, world.objects@, i as int, j as int, c@),
            flat_sky_render(*self, *world) ==> c@ == flat_pixel3(*self),
    {
        let mut pixel_color = Vec3::splat(Fx::zero());
        let mut s: u32 = 0;
        while s < self.samples
            invariant
                s <= self.samples,
                flat_sky_render(*self, *world) ==> pixel_color@ == (V3 {
                    x: s as int * self.sky->Solid_0@.x,
                    y: s as int * self.sky->Solid_0@.y,
                    z: s as int * self.sky->Solid_0@.z,
                }),
                forall|fin: V3|
                    #[trigger] pixel_outcome_from(
                        *self,
                        world.objects@,
                        i as int,
                        j as int,
                        self.samples as int - s as int,
                        pixel_color@,
                        fin,
                    ) ==> pixel_outcome_from(
                        *self,
                        world.objects@,
                        i as int,
                        j as int,
                        self.samples as int,
                        v3_zero(),
                        fin,
                    ),
            decreases self.samples - s,
        {
            let ray = self.get_ray(i, j, rng);
            let sample = self.ray_color(ray, self.bounces, world, rng);
            proof {
                if flat_sky_render(*self, *world) {
                    let col = self.sky->Solid_0@;
                    assert(list_hit3(
                        world.objects@,
                        ray,
                        T_MIN_EPS_BITS as int,
                        i64::MAX as int,
                    ) is None);
                    assert(sample@ == col);
                    lemma_accum_step(s as int, self.samples as int, col.x);
                    lemma_accum_step(s as int, self.samples as int, col.y);
                    lemma_accum_step(s as int, self.samples as int, col.z);
                }
                lemma_pixel_outcome_step(
                    *self,
                    world.objects@,
                    i as int,
                    j as int,
                    self.samples as int - s as int,
                    pixel_color@,
                    ray,
                    sample@,
                );
            }
            let ghost acc = pixel_color@;
            let ghost s0 = s;
            pixel_color = pixel_color.add(sample);
            s = s + 1;
            proof {
                assert forall|fin: V3|
                    #[trigger] pixel_outcome_from(
                        *self,
                        world.objects@,
                        i as int,
                        j as int,
                        self.samples as int - s as int,
                        pixel_color@,
                        fin,
                    ) implies pixel_outcome_from(
                    *self,
                    world.objects@,
                    i as int,
                    j as int,
                    self.samples as int,
                    v3_zero(),
                    fin,
                ) by {
                    assert(pixel_outcome_from(
                        *self,
                        world.objects@,
                        i as int,
                        j as int,
                        self.samples as int - s0 as int - 1,
                        v3_add(acc, sample@),
                        fin,
                    ));
                    assert(pixel_outcome_from(
                        *self,
                        world.objects@,
                        i as int,
                        j as int,
                        self.samples as int - s0 as int,
                        acc,
                        fin,
                    ));
                }
            }
        }
        let out = pixel_color.scale(self.sample_scale);
        proof {
            lemma_pixel_outcome_base(*self, world.objects@, i as int, j as int, pixel_color@);
            assert(pixel_outcome_from(
                *self,
                world.objects@,
                i as int,
                j as int,
                self.samples as int - s as int,
                pixel_color@,
                out@,
            ));
        }
        out
    }

    /// One image row as display bytes: three bytes per pixel, left to
    /// right. The camera must have been initialized. Every pixel's bytes
    /// are the display encoding of an admissible averaged pixel outcome;
    /// a flat fill pins them exactly.
    pub fn render_row_to_bytes(
        &self,
        world: &HittableList,
        j: u32,
        rng: &mut rand::rngs::ThreadRng,
    ) -> (buf: Vec<u8>)
        ensures
            buf@.len() == 3 * (self.image_width as int),
            forall|px: int|
                0 <= px < self.image_width as int ==> pixel_bytes_outcome(
                    *self,
                    world.objects@,
                    px,
                    j as int,
                    #[trigger] pixel_bytes_at(buf@, px),
                ),
            flat_sky_render(*self, *world) ==> forall|px: int|
                0 <= px < self.image_width as int ==> #[trigger] pixel_bytes_at(buf@, px)
                    == flat_bytes(*self),
    {
        let mut buf: Vec<u8> = Vec::new();
        let mut i: u32 = 0;
        while i < self.image_width
            invariant
                i <= self.image_width,
                buf@.len() == 3 * (i as int),
                forall|px: int|
                    0 <= px < i as int ==> pixel_bytes_outcome(
                        *self,
                        world.objects@,
                        px,
                        j as int,
                        #[trigger] pixel_bytes_at(buf@, px),
                    ),
                flat_sky_render(*self, *world) ==> forall|px: int|
                    0 <= px < i as int ==> #[trigger] pixel_bytes_at(buf@, px) == flat_bytes(
                        *self,
                    ),
            decreases self.image_width - i,
        {
            let ghost before = buf@;
            let color = self.sample_pixel(i, j, world, rng);
            let rgb = color.to_rgb_bytes();
            buf.push(rgb[0]);
            buf.push(rgb[1]);
            buf.push(rgb[2]);
            proof {
                assert(pixel_bytes_at(buf@, i as int) =~= rgb_bytes_of(color@));
                assert(pixel_outcome(*self, world.objects@, i as int, j as int, color@)
                    && pixel_bytes_at(buf@, i as int) == rgb_bytes_of(color@));
                assert forall|px: int| 0 <= px < i as int + 1 implies pixel_bytes_outcome(
                    *self,
                    world.objects@,
                    px,
                    j as int,
                    #[trigger] pixel_bytes_at(buf@, px),
                ) by {
                    if px < i as int {
                        assert(pixel_bytes_at(buf@, px) =~= pixel_bytes_at(before, px));
                    }
                }
                if flat_sky_render(*self, *world) {
                    assert(pixel_bytes_at(buf@, i as int) =~= flat_bytes(*self));
                    assert forall|px: int| 0 <= px < i as int implies #[trigger] pixel_bytes_at(
                        buf@,
                        px,
                    ) == flat_bytes(*self) by {
                        assert(pixel_bytes_at(before, px) == flat_bytes(*self));
                        assert(pixel_bytes_at(buf@, px) =~= pixel_bytes_at(before, px));
                    }
                }
            }
            i = i + 1;
        }
        buf
    }

    /// The full image as display bytes, row-major, three bytes per pixel.
    /// Re-derives the viewport state first. Every pixel's bytes are the
    /// display encoding of an admissible averaged outcome for its row and
    /// column; a flat fill pins them exactly.
    pub fn render_to_bytes(
        &mut self,
        world: &HittableList,
        rng: &mut rand::rngs::ThreadRng,
    ) -> (buf: Vec<u8>)
        ensures
            *final(self) == initialized(*old(self)),
            buf@.len() == 3 * (final(self).image_width as int) * (final(self).image_height
                as int),
            forall|px: int|
                0 <= px < (final(self).image_width as int) * (final(self).image_height as int)
                    ==> pixel_bytes_outcome(
                    *final(self),
                    world.objects@,
                    px % (final(self).image_width as int),
                    px / (final(self).image_width as int),
                    #[trigger] pixel_bytes_at(buf@, px),
                ),
            flat_sky_render(*final(self), *world) ==> forall|px: int|
                0 <= px < (final(self).image_width as int) * (final(self).image_height as int)
                    ==> #[trigger] pixel_bytes_at(buf@, px) == flat_bytes(*final(self)),
    {
        self.initialize();
        let ghost snap = *self;
        let ghost w = self.image_width as int;
        let mut buf: Vec<u8> = Vec::new();
        let mut j: u32 = 0;
        while j < self.image_height
            invariant
                *self == snap,
                j <= self.image_height,
                w == self.image_width as int,
                buf@.len() == 3 * w * (j as int),
                forall|px: int|
                    0 <= px < w * (j as int) ==> pixel_bytes_outcome(
                        snap,
                        world.objects@,
                        px % w,
                        px / w,
                        #[trigger] pixel_bytes_at(buf@, px),
                    ),
                flat_sky_render(snap, *world) ==> forall|px: int|
                    0 <= px < w * (j as int) ==> #[trigger] pixel_bytes_at(buf@, px)
                        == flat_bytes(snap),
            decreases self.image_height - j,
        {
            let ghost old_buf = buf@;
            let mut row = self.render_row_to_bytes(world, j, rng);
            let ghost row_view = row@;
            buf.append(&mut row);
            proof {
                assert(3 * w * (j as int + 1) == 3 * w * (j as int) + 3 * w) by (nonlinear_arith);
                assert forall|px: int| 0 <= px < w * (j as int + 1) implies pixel_bytes_outcome(
                    snap,
                    world.objects@,
                    px % w,
                    px / w,
                    #[trigger] pixel_bytes_at(buf@, px),
                ) by {
                    assert(w * (j as int + 1) == w * (j as int) + w) by (nonlinear_arith);
                    if px < w * (j as int) {
                        assert(3 * px + 2 < 3 * (w * (j as int))) by (nonlinear_arith)
                            requires
                                px < w * (j as int),
                        ;
                        assert(3 * (w * (j as int)) == 3 * w * (j as int)) by (nonlinear_arith);
                        assert(pixel_bytes_at(buf@, px) =~= pixel_bytes_at(old_buf, px));
                    } else {
                        let q = px - w * (j as int);
                        assert(0 <= q < w);
                        assert(3 * px == 3 * w * (j as int) + 3 * q) by (nonlinear_arith)
                            requires
                                q == px - w * (j as int),
                        ;
                        assert(px == (j as int) * w + q) by (nonlinear_arith)
                            requires
                                q == px - w * (j as int),
                        ;
                        vstd::arithmetic::div_mod::lemma_fundamental_div_mod_converse(
                            px,
                            w,
                            j as int,
                            q,
                        );
                        assert(pixel_bytes_outcome(
                            snap,
                            world.objects@,
                            q,
                            j as int,
                            pixel_bytes_at(row_view, q),
                        ));
                        assert(pixel_bytes_at(buf@, px) =~= pixel_bytes_at(row_view, q));
                    }
                }
                if flat_sky_render(snap, *world) {
                    assert forall|px: int| 0 <= px < w * (j as int + 1) implies #[trigger]
                    pixel_bytes_at(buf@, px) == flat_bytes(snap) by {
                        assert(w * (j as int + 1) == w * (j as int) + w) by (nonlinear_arith);
                        if px < w * (j as int) {
                            assert(3 * px + 2 < 3 * (w * (j as int))) by (nonlinear_arith)
                                requires
                                    px < w * (j as int),
                            ;
                            assert(3 * (w * (j as int)) == 3 * w * (j as int)) by (nonlinear_arith);
                            assert(pixel_bytes_at(old_buf, px) == flat_bytes(snap));
                            assert(pixel_bytes_at(buf@, px) =~= pixel_bytes_at(old_buf, px));
                        } else {
                            let q = px - w * (j as int);
                            assert(0 <= q < w);
                            assert(3 * px == 3 * w * (j as int) + 3 * q) by (nonlinear_arith)
                                requires
                                    q == px - w * (j as int),
                            ;
                            assert(pixel_bytes_at(row_view, q) == flat_bytes(snap));
                            assert(pixel_bytes_at(buf@, px) =~= pixel_bytes_at(row_view, q));
                        }
                    }
                }
            }
            j = j + 1;
        }
        proof {
            assert((self.image_width as int) * (self.image_height as int) == w * (j as int));
        }
        buf
    }

    /// The full image as text: one `R G B` line per pixel (decimal bytes,
    /// space-separated, newline-terminated), row-major. Re-derives the
    /// viewport state first. The text is exactly the line renderings of
    /// one byte triple per pixel, concatenated, each triple an admissible
    /// rendering of its pixel; a flat fill pins the whole text to one
    /// known line repeated per pixel.
    #[verifier::rlimit(30)]
    pub fn render_to_string(
        &mut self,
        world: &HittableList,
        rng: &mut rand::rngs::ThreadRng,
    ) -> (out: String)
        ensures
            *final(self) == initialized(*old(self)),
            exists|pix: Seq<Seq<u8>>|
                {
                    &&& pix.len() == (final(self).image_width as int) * (
                    final(self).image_height as int)
                    &&& forall|k: int|
                        0 <= k < pix.len() ==> pixel_bytes_outcome(
                            *final(self),
                            world.objects@,
                            k % (final(self).image_width as int),
                            k / (final(self).image_width as int),
                            #[trigger] pix[k],
                        )
                    &&& out@ == #[trigger] lines_of(pix)
                },
            flat_sky_render(*final(self), *world) ==> out@ == flat_text(
                *final(self),
                (final(self).image_width as int) * (final(self).image_height as int),
            ),
    {
        self.initialize();
        let ghost snap = *self;
        let ghost w = self.image_width as int;
        let mut out = String::new();
        let ghost mut pix: Seq<Seq<u8>> = Seq::empty();
        let mut j: u32 = 0;
        while j < self.image_height
            invariant
                *self == snap,
                j <= self.image_height,
                w == self.image_width as int,
                pix.len() == w * (j as int),
                forall|k: int|
                    0 <= k < pix.len() ==> pixel_bytes_outcome(
                        snap,
                        world.objects@,
                        k % w,
                        k / w,
                        #[trigger] pix[k],
                    ),
                out@ == lines_of(pix),
                flat_sky_render(snap, *world) ==> out@ == flat_text(snap, w * (j as int)),
            decreases self.image_height - j,
        {
            let mut i: u32 = 0;
            while i < self.image_width
                invariant
                    *self == snap,
                    i <= self.image_width,
                    w == self.image_width as int,
                    pix.len() == w * (j as int) + i as int,
                    forall|k: int|
                        0 <= k < pix.len() ==> pixel_bytes_outcome(
                            snap,
                            world.objects@,
                            k % w,
                            k / w,
                            #[trigger] pix[k],
                        ),
                    out@ == lines_of(pix),
                    flat_sky_render(snap, *world) ==> out@ == flat_text(
                        snap,
                        w * (j as int) + i as int,
                    ),
                decreases self.image_width - i,
            {
                let ghost out_before = out@;
                let color = self.sample_pixel(i, j, world, rng);
                let rgb = color.to_rgb_bytes();
                let rs = u64_to_dec(rgb[0] as u64);
                push_str(&mut out, rs.as_str());
                push_char(&mut out, ' ');
                let gs = u64_to_dec(rgb[1] as u64);
                push_str(&mut out, gs.as_str());
                push_char(&mut out, ' ');
                let bs = u64_to_dec(rgb[2] as u64);
                push_str(&mut out, bs.as_str());
                push_char(&mut out, '\n');
                proof {
                    assert(out@ =~= out_before + rgb_line(rgb@));
                    assert(pix.push(rgb@).drop_last() =~= pix);
                    let ghost old_pix = pix;
                    pix = pix.push(rgb@);
                    assert(out@ =~= lines_of(pix));
                    let ghost kn = w * (j as int) + i as int;
                    assert(kn == (j as int) * w + i as int) by (nonlinear_arith)
                        requires
                            kn == w * (j as int) + i as int,
                    ;
                    vstd::arithmetic::div_mod::lemma_fundamental_div_mod_converse(
                        kn,
                        w,
                        j as int,
                        i as int,
                    );
                    assert(rgb@ =~= rgb_bytes_of(color@));
                    assert(pixel_outcome(snap, world.objects@, i as int, j as int, color@)
                        && pix[kn] == rgb_bytes_of(color@));
                    assert forall|k: int| 0 <= k < pix.len() implies pixel_bytes_outcome(
                        snap,
                        world.objects@,
                        k % w,
                        k / w,
                        #[trigger] pix[k],
                    ) by {
                        if k < kn {
                            assert(pix[k] == old_pix[k]);
                        }
                    }
                    if flat_sky_render(snap, *world) {
                        assert(rgb@ =~= flat_bytes(snap));
                        assert(out@ =~= flat_text(snap, w * (j as int) + i as int + 1));
                    }
                }
                i = i + 1;
            }
            proof {
                assert(w * (j as int) + w == w * (j as int + 1)) by (nonlinear_arith);
            }
            j = j + 1;
        }
        proof {
            assert(pix.len() == (snap.image_width as int) * (snap.image_height as int));
        }
        out
    }
}

/// Multiplying a color by fixed-point white leaves it unchanged: the
/// scaled product `c * 65536 / 65536` truncates nothing.
pub proof fn lemma_white_mul_identity(c: V3)
    requires
        i64::MIN as int <= c.x <= i64::MAX as int,
        i64::MIN as int <= c.y <= i64::MAX as int,
        i64::MIN as int <= c.z <= i64::MAX as int,
    ensures
        crate::vec3::v3_mul(V3 { x: FX_SCALE as int, y: FX_SCALE as int, z: FX_SCALE as int }, c)
            == c,
{
    lemma_mul_scale_exact(c.x);
    lemma_mul_scale_exact(c.y);
    lemma_mul_scale_exact(c.z);
}

/// `fx_mul(1, c) == c`: the product with one is exact for every value.
proof fn lemma_mul_scale_exact(c: int)
    requires
        i64::MIN as int <= c <= i64::MAX as int,
    ensures
        fx_mul(FX_SCALE as int, c) == c,
{
    let s = FX_SCALE as int;
    assert(crate::fixed::iabs(s * c) == s * crate::fixed::iabs(c) && ((s * c < 0) == (c < 0)))
        by (nonlinear_arith)
        requires
            s == 65536,
    ;
    vstd::arithmetic::div_mod::lemma_div_multiples_vanish(crate::fixed::iabs(c), s);
    assert(crate::fixed::tdiv(s * c, s) == c);
}

} // verus!
