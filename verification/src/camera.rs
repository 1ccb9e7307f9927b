//! The camera: viewport geometry, per-pixel sampling, recursive diffuse
//! shading and the render loop.

use vstd::prelude::*;
use crate::RenderError;
use crate::fixed::{SCALE, HALF_SCALE, tdiv, mul_s, tdiv_exec, mul_scaled};
use crate::fixed::{
    lemma_mul_bound, lemma_mul_s_bound, lemma_tdiv_bounds, lemma_tdiv_exact, lemma_tdiv_mono,
    lemma_tdiv_nonneg,
};
use crate::position::{
    Position, pos, bounded, is_unit, spec_plus, spec_minus, spec_neg, spec_scaled, spec_div_by,
    spec_dot, spec_len2, spec_unit, spec_zero, lemma_unit_comp_bound, lemma_neg_len2,
    lemma_unit_result_bound, VEC_CAP, DIR_CAP,
};
use crate::interval::{Interval, spec_clamp};
use crate::ray::{Ray, ray_wf};
use crate::color::{Color, intensity_ok, spec_from_intensity};
use crate::sphere::{Sphere, scene_wf, scan_hit};
use crate::hittable::Hittable;
use crate::rng::Sampler;
use vstd::arithmetic::div_mod::lemma_div_is_ordered_by_denominator;
use vstd::arithmetic::div_mod::lemma_div_of0;

verus! {

/// Default aspect ratio: sixteen ninths, truncated to fixed point.
pub const DEFAULT_ASPECT_RATIO: i128 = 1_777_777;

/// Default image width in pixels.
pub const DEFAULT_IMAGE_WIDTH: i32 = 400;

/// Default eye-to-viewport distance.
pub const DEFAULT_FOCAL_LENGTH: i128 = 1_000_000;

/// Default world-space viewport height.
pub const DEFAULT_VIEWPORT_HEIGHT: i128 = 2_000_000;

/// Default antialiasing sample count per pixel.
pub const DEFAULT_SAMPLES_PER_PIXEL: i32 = 10;

/// Default recursion depth cap.
pub const DEFAULT_MAX_BOUNCES: i32 = 10;

/// Diffuse reflectance applied on every bounce, kept configurable because
/// the fixed value is a deliberate simplification of material dispatch.
pub const DEFAULT_REFLECTANCE: i128 = 200_000;

/// Lower bound of the shading interval: skips spurious self-intersections
/// at a reflected ray's origin.
pub const SHADE_T_MIN: i128 = 1_000;

/// Upper bound of the shading interval: far beyond any parameter a
/// well-formed scene can produce, so it acts as infinity.
pub const SHADE_T_MAX: i128 = 1_000_000_000_000_000_000_000_000_000_000;

/// Plain configuration for a camera, every field independently overridable.
#[derive(Clone, Copy, PartialEq, Eq, Structural, Debug)]
pub struct CameraOptions {
    pub aspect_ratio: i128,
    pub image_width: i32,
    pub focal_length: i128,
    pub viewport_height: i128,
    pub camera_center: Position,
    pub samples_per_pixel: i32,
    pub max_bounces: i32,
}

impl Default for CameraOptions {
    /// The documented defaults.
    fn default() -> (o: CameraOptions)
        ensures
            o == (CameraOptions {
                aspect_ratio: DEFAULT_ASPECT_RATIO,
                image_width: DEFAULT_IMAGE_WIDTH,
                focal_length: DEFAULT_FOCAL_LENGTH,
                viewport_height: DEFAULT_VIEWPORT_HEIGHT,
                camera_center: Position { x: 0, y: 0, z: 0 },
                samples_per_pixel: DEFAULT_SAMPLES_PER_PIXEL,
                max_bounces: DEFAULT_MAX_BOUNCES,
            }),
    {
        CameraOptions {
            aspect_ratio: DEFAULT_ASPECT_RATIO,
            image_width: DEFAULT_IMAGE_WIDTH,
            focal_length: DEFAULT_FOCAL_LENGTH,
            viewport_height: DEFAULT_VIEWPORT_HEIGHT,
            camera_center: Position { x: 0, y: 0, z: 0 },
            samples_per_pixel: DEFAULT_SAMPLES_PER_PIXEL,
            max_bounces: DEFAULT_MAX_BOUNCES,
        }
    }
}

impl CameraOptions {
    pub fn with_aspect_ratio(self, v: i128) -> (o: CameraOptions)
        ensures
            o == (CameraOptions { aspect_ratio: v, ..self }),
    {
        CameraOptions { aspect_ratio: v, ..self }
    }

    pub fn with_image_width(self, v: i32) -> (o: CameraOptions)
        ensures
            o == (CameraOptions { image_width: v, ..self }),
    {
        CameraOptions { image_width: v, ..self }
    }

    pub fn with_focal_length(self, v: i128) -> (o: CameraOptions)
        ensures
            o == (CameraOptions { focal_length: v, ..self }),
    {
        CameraOptions { focal_length: v, ..self }
    }

    pub fn with_viewport_height(self, v: i128) -> (o: CameraOptions)
        ensures
            o == (CameraOptions { viewport_height: v, ..self }),
    {
        CameraOptions { viewport_height: v, ..self }
    }

    pub fn with_camera_center(self, v: Position) -> (o: CameraOptions)
        ensures
            o == (CameraOptions { camera_center: v, ..self }),
    {
        CameraOptions { camera_center: v, ..self }
    }

    pub fn with_samples_per_pixel(self, v: i32) -> (o: CameraOptions)
        ensures
            o == (CameraOptions { samples_per_pixel: v, ..self }),
    {
        CameraOptions { samples_per_pixel: v, ..self }
    }

    pub fn with_max_bounces(self, v: i32) -> (o: CameraOptions)
        ensures
            o == (CameraOptions { max_bounces: v, ..self }),
    {
        CameraOptions { max_bounces: v, ..self }
    }
}

/// Pixel rows derived from the width and the aspect ratio, truncated.
pub open spec fn spec_image_height(o: CameraOptions) -> int {
    tdiv(o.image_width * (SCALE as int), o.aspect_ratio as int)
}

/// Configurations the camera accepts: positive sizes in a range that keeps
/// every derived quantity in machine range, and at least one pixel row.
pub open spec fn options_valid(o: CameraOptions) -> bool {
    &&& 1 <= o.image_width <= 10_000
    &&& 10_000 <= o.aspect_ratio <= 1_000_000_000
    &&& 1_000 <= o.focal_length <= 100_000_000
    &&& 1_000 <= o.viewport_height <= 100_000_000
    &&& bounded(o.camera_center, 100_000_000)
    &&& 0 <= o.samples_per_pixel <= 10_000
    &&& 0 <= o.max_bounces <= 1_000
    &&& spec_image_height(o) >= 1
}

/// The derived, immutable camera state.
#[derive(Clone, Copy, PartialEq, Eq, Structural, Debug)]
pub struct Camera {
    pub image_width: i32,
    pub image_height: i32,
    pub center: Position,
    pub pixel00_loc: Position,
    pub pixel_delta_u: Position,
    pub pixel_delta_v: Position,
    pub samples_per_pixel: i32,
    pub max_bounces: i32,
}

/// The full camera derivation: viewport extents from the aspect ratio, per
/// pixel deltas, and the upper-left pixel center shifted by half a delta.
pub open spec fn spec_camera(o: CameraOptions) -> Camera {
    let ih = spec_image_height(o);
    let q = tdiv(o.image_width * (SCALE as int), ih);
    let vw = mul_s(o.viewport_height as int, q);
    let vu = pos(vw, 0, 0);
    let vv = pos(0, -(o.viewport_height as int), 0);
    let du = spec_div_by(vu, o.image_width * (SCALE as int));
    let dv = spec_div_by(vv, ih * (SCALE as int));
    let vul = spec_minus(
        spec_minus(
            spec_minus(o.camera_center, pos(0, 0, o.focal_length as int)),
            spec_div_by(vu, 2 * (SCALE as int)),
        ),
        spec_div_by(vv, 2 * (SCALE as int)),
    );
    let p00 = spec_plus(vul, spec_scaled(spec_plus(du, dv), HALF_SCALE as int));
    Camera {
        image_width: o.image_width,
        image_height: ih as i32,
        center: o.camera_center,
        pixel00_loc: p00,
        pixel_delta_u: du,
        pixel_delta_v: dv,
        samples_per_pixel: o.samples_per_pixel,
        max_bounces: o.max_bounces,
    }
}

/// Bounds every render function relies on.
pub open spec fn camera_wf(c: Camera) -> bool {
    &&& 1 <= c.image_width <= 10_000
    &&& 1 <= c.image_height <= 1_000_000
    &&& bounded(c.center, 100_000_000)
    &&& bounded(c.pixel00_loc, 10_000_000_000_000)
    &&& bounded(c.pixel_delta_u, 1_000_000_000_000)
    &&& bounded(c.pixel_delta_v, 100_000_000)
    &&& 0 <= c.samples_per_pixel <= 10_000
    &&& 0 <= c.max_bounces <= 1_000
}

/// The world point a sample aims at: the pixel grid location offset by the
/// jitter, mapped through the pixel deltas.
pub open spec fn spec_pixel_center(c: Camera, i: int, j: int, ox: int, oy: int) -> Position {
    spec_plus(
        spec_plus(c.pixel00_loc, spec_scaled(c.pixel_delta_u, i * (SCALE as int) + ox)),
        spec_scaled(c.pixel_delta_v, j * (SCALE as int) + oy),
    )
}

/// The sample ray: from the camera center toward the sample point, with the
/// direction normalized and checked.
pub open spec fn spec_get_ray(c: Camera, i: int, j: int, ox: int, oy: int) -> Option<Ray> {
    let d = spec_minus(spec_pixel_center(c, i, j, ox, oy), c.center);
    if spec_len2(d) < 1 {
        None
    } else {
        let u = spec_unit(d);
        if is_unit(u) {
            Some(Ray { origin: c.center, direction: u })
        } else {
            None
        }
    }
}

/// The background gradient: white blended toward sky blue by the ray's
/// vertical component, with the blend factor clamped into `[0, 1]`.
pub open spec fn spec_background(d: Position) -> Position {
    let a = spec_clamp(Interval { start: 0, end: SCALE }, tdiv(d.y + SCALE as int, 2));
    spec_plus(
        spec_scaled(Position { x: SCALE, y: SCALE, z: SCALE }, SCALE as int - a),
        spec_scaled(Position { x: HALF_SCALE, y: 700_000, z: SCALE }, a),
    )
}

/// The diffuse bounce formula for a surface normal and a drawn unit
/// vector: the draw flipped into the normal's hemisphere, added to the
/// normal, normalized; nothing when the sum is too short to normalize or
/// the normalized sum fails the fixed-point unit or visible-side check.
pub open spec fn spec_diffuse_bounce(n: Position, u: Position) -> Option<Position> {
    let flipped = if spec_dot(n, u) > 0 {
        u
    } else {
        spec_neg(u)
    };
    let summed = spec_plus(n, flipped);
    if spec_len2(summed) < 1 {
        None
    } else {
        let w = spec_unit(summed);
        if is_unit(w) && spec_dot(w, n) > 0 {
            Some(w)
        } else {
            None
        }
    }
}

/// A blend of two displayable channels with complementary weights stays
/// displayable.
proof fn lemma_blend_unit(w: int, b: int, a: int)
    requires
        0 <= a <= SCALE as int,
        0 <= w <= SCALE as int,
        0 <= b <= SCALE as int,
    ensures
        0 <= mul_s(w, SCALE as int - a) + mul_s(b, a) <= SCALE as int,
{
    let s = SCALE as int;
    assert(0 <= w * (s - a) <= s * (s - a)) by (nonlinear_arith)
        requires 0 <= w <= s && 0 <= s - a;
    assert(0 <= b * a <= s * a) by (nonlinear_arith)
        requires 0 <= b <= s && 0 <= a;
    lemma_tdiv_nonneg(w * (s - a), s);
    lemma_tdiv_nonneg(b * a, s);
    lemma_tdiv_mono(w * (s - a), s * (s - a), s);
    lemma_tdiv_mono(b * a, s * a, s);
    lemma_tdiv_exact(s - a, s);
    lemma_tdiv_exact(a, s);
    assert(s * (s - a) == (s - a) * s) by (nonlinear_arith);
    assert(s * a == a * s) by (nonlinear_arith);
}

/// A fixed-point product of two values in `[0, 1]` stays in `[0, 1]`, and
/// never exceeds either factor.
proof fn lemma_mul_s_unit(a: int, b: int)
    requires
        0 <= a <= SCALE as int,
        0 <= b <= SCALE as int,
    ensures
        0 <= mul_s(b, a) <= a,
        mul_s(b, a) <= SCALE as int,
{
    let s = SCALE as int;
    assert(0 <= b * a <= s * a) by (nonlinear_arith)
        requires 0 <= b <= s && 0 <= a;
    lemma_tdiv_nonneg(b * a, s);
    lemma_tdiv_mono(b * a, s * a, s);
    lemma_tdiv_exact(a, s);
    assert(s * a == a * s) by (nonlinear_arith);
}

/// Running sum of intensity vectors; the empty sequence sums to zero.
pub open spec fn spec_sum(s: Seq<Position>) -> Position
    decreases s.len(),
{
    if s.len() == 0 {
        spec_zero()
    } else {
        spec_plus(spec_sum(s.drop_last()), s.last())
    }
}

/// The average: the sum divided by the sample count, a zero count treated
/// as one.
pub open spec fn spec_avg(s: Seq<Position>) -> Position {
    let n = if s.len() == 0 {
        1int
    } else {
        s.len() as int
    };
    let total = spec_sum(s);
    pos(tdiv(total.x as int, n), tdiv(total.y as int, n), tdiv(total.z as int, n))
}

/// Averaging a single sample returns exactly that sample: with one ray per
/// pixel the averaged result is the single-ray shading result.
pub proof fn lemma_avg_single(v: Position)
    ensures
        spec_avg(seq![v]) == v,
{
    let s = seq![v];
    assert(s.len() == 1);
    assert(s.drop_last() =~= Seq::<Position>::empty());
    assert(spec_sum(Seq::<Position>::empty()) == spec_zero());
    assert(spec_sum(s.drop_last()) == spec_zero());
    assert(s.last() == v);
    assert(spec_sum(s) == spec_plus(spec_zero(), v));
    lemma_tdiv_exact(v.x as int, 1);
    lemma_tdiv_exact(v.y as int, 1);
    lemma_tdiv_exact(v.z as int, 1);
}

/// With zero jitter the sample point is exactly the pixel's center on the
/// grid, so the sample ray is the pixel's unjittered center ray.
pub proof fn lemma_zero_jitter_center(c: Camera, i: int, j: int)
    ensures
        spec_pixel_center(c, i, j, 0, 0) == spec_plus(
            spec_plus(c.pixel00_loc, spec_scaled(c.pixel_delta_u, i * (SCALE as int))),
            spec_scaled(c.pixel_delta_v, j * (SCALE as int)),
        ),
{
}

/// Sums a slice of vectors whose components are at most one unit in
/// magnitude. When every entry is a displayable intensity, so is every
/// channel of the sum scaled back by the count.
pub fn sum_of(items: &Vec<Position>) -> (r: Position)
    requires
        forall|k: int| 0 <= k < items@.len() ==> bounded(#[trigger] items@[k], SCALE as int),
        items@.len() <= 100_000,
    ensures
        r == spec_sum(items@),
        bounded(r, items@.len() * (SCALE as int)),
        (forall|k: int| 0 <= k < items@.len() ==> intensity_ok(#[trigger] items@[k])) ==> 0
            <= r.x && 0 <= r.y && 0 <= r.z,
{
    let mut acc = Position { x: 0, y: 0, z: 0 };
    let mut k: usize = 0;
    proof {
        assert(items@.take(0) =~= Seq::<Position>::empty());
    }
    while k < items.len()
        invariant
            0 <= k <= items@.len(),
            items@.len() <= 100_000,
            forall|m: int| 0 <= m < items@.len() ==> bounded(#[trigger] items@[m], SCALE as int),
            acc == spec_sum(items@.take(k as int)),
            bounded(acc, k * (SCALE as int)),
            (forall|m: int| 0 <= m < items@.len() ==> intensity_ok(#[trigger] items@[m])) ==> 0
                <= acc.x && 0 <= acc.y && 0 <= acc.z,
        decreases items@.len() - k,
    {
        proof {
            assert(items@.take(k as int + 1).drop_last() =~= items@.take(k as int));
            assert(items@.take(k as int + 1).last() == items@[k as int]);
        }
        acc = acc.plus(items[k]);
        k = k + 1;
    }
    proof {
        assert(items@.take(items@.len() as int) =~= items@);
    }
    acc
}

/// Averages a slice of vectors whose components are at most one unit in
/// magnitude; the average keeps that bound, and an average of displayable
/// intensities is again a displayable intensity.
pub fn avg_intensity(items: &Vec<Position>) -> (r: Position)
    requires
        forall|k: int| 0 <= k < items@.len() ==> bounded(#[trigger] items@[k], SCALE as int),
        items@.len() <= 100_000,
    ensures
        r == spec_avg(items@),
        bounded(r, SCALE as int),
        (forall|k: int| 0 <= k < items@.len() ==> intensity_ok(#[trigger] items@[k]))
            ==> intensity_ok(r),
{
    let total = sum_of(items);
    let n: i128 = if items.len() == 0 {
        1
    } else {
        items.len() as i128
    };
    proof {
        lemma_tdiv_mono(total.x as int, (SCALE as int) * (n as int), n as int);
        lemma_tdiv_mono(total.y as int, (SCALE as int) * (n as int), n as int);
        lemma_tdiv_mono(total.z as int, (SCALE as int) * (n as int), n as int);
        lemma_tdiv_mono(-((SCALE as int) * (n as int)), total.x as int, n as int);
        lemma_tdiv_mono(-((SCALE as int) * (n as int)), total.y as int, n as int);
        lemma_tdiv_mono(-((SCALE as int) * (n as int)), total.z as int, n as int);
        lemma_tdiv_exact(SCALE as int, n as int);
        lemma_tdiv_exact(-(SCALE as int), n as int);
        if total.x >= 0 {
            lemma_tdiv_nonneg(total.x as int, n as int);
        }
        if total.y >= 0 {
            lemma_tdiv_nonneg(total.y as int, n as int);
        }
        if total.z >= 0 {
            lemma_tdiv_nonneg(total.z as int, n as int);
        }
        assert(items@.len() * (SCALE as int) <= (SCALE as int) * (n as int)) by (nonlinear_arith)
            requires n as int >= items@.len() && SCALE == 1_000_000i128;
        assert(-((SCALE as int) * (n as int)) == (-(SCALE as int)) * (n as int))
            by (nonlinear_arith);
    }
    Position {
        x: tdiv_exec(total.x, n),
        y: tdiv_exec(total.y, n),
        z: tdiv_exec(total.z, n),
    }
}

/// A sequence of black samples sums to black.
proof fn lemma_sum_all_zero(s: Seq<Position>)
    requires
        forall|k: int| 0 <= k < s.len() ==> #[trigger] s[k] == spec_zero(),
    ensures
        spec_sum(s) == spec_zero(),
    decreases s.len(),
{
    if s.len() > 0 {
        assert(forall|k: int|
            0 <= k < s.drop_last().len() ==> #[trigger] s.drop_last()[k] == spec_zero());
        lemma_sum_all_zero(s.drop_last());
        assert(s.last() == spec_zero());
    }
}

/// A sequence of black samples averages to black.
proof fn lemma_avg_all_zero(s: Seq<Position>)
    requires
        forall|k: int| 0 <= k < s.len() ==> #[trigger] s[k] == spec_zero(),
    ensures
        spec_avg(s) == spec_zero(),
{
    lemma_sum_all_zero(s);
    let n = if s.len() == 0 {
        1int
    } else {
        s.len() as int
    };
    lemma_tdiv_exact(0, n);
    assert(0 * n == 0) by (nonlinear_arith);
}

impl Camera {
    /// Derives the camera from options, rejecting any configuration whose
    /// geometry would degenerate.
    pub fn new(options: CameraOptions) -> (res: Result<Camera, RenderError>)
        ensures
            res is Ok <==> options_valid(options),
            res is Ok ==> res->Ok_0 == spec_camera(options),
            res is Ok ==> camera_wf(res->Ok_0),
            res is Err ==> res->Err_0 == RenderError::InvalidConfiguration,
    {
        let o = options;
        let basic_ok = 1 <= o.image_width && o.image_width <= 10_000 && 10_000 <= o.aspect_ratio
            && o.aspect_ratio <= 1_000_000_000 && 1_000 <= o.focal_length && o.focal_length
            <= 100_000_000 && 1_000 <= o.viewport_height && o.viewport_height <= 100_000_000
            && -100_000_000 <= o.camera_center.x && o.camera_center.x <= 100_000_000
            && -100_000_000 <= o.camera_center.y && o.camera_center.y <= 100_000_000
            && -100_000_000 <= o.camera_center.z && o.camera_center.z <= 100_000_000 && 0
            <= o.samples_per_pixel && o.samples_per_pixel <= 10_000 && 0 <= o.max_bounces
            && o.max_bounces <= 1_000;
        if !basic_ok {
            return Err(RenderError::InvalidConfiguration);
        }
        let w128: i128 = o.image_width as i128;
        proof {
            lemma_tdiv_nonneg(w128 * (SCALE as int), o.aspect_ratio as int);
            lemma_tdiv_bounds(w128 * (SCALE as int), o.aspect_ratio as int,
                10_000_000_000int);
            lemma_div_is_ordered_by_denominator(10_000_000_000int, 10_000int,
                o.aspect_ratio as int);
        }
        let ih = tdiv_exec(w128 * SCALE, o.aspect_ratio);
        if ih < 1 {
            return Err(RenderError::InvalidConfiguration);
        }
        proof {
            lemma_tdiv_nonneg(w128 * (SCALE as int), ih as int);
        }
        let q = tdiv_exec(w128 * SCALE, ih);
        proof {
            lemma_mul_bound(o.viewport_height as int, q as int, 100_000_000int,
                10_000_000_000int);
            lemma_mul_s_bound(o.viewport_height as int, q as int, 100_000_000int,
                10_000_000_000int);
        }
        let vw = mul_scaled(o.viewport_height, q);
        let vu = Position { x: vw, y: 0, z: 0 };
        let vv = Position { x: 0, y: -o.viewport_height, z: 0 };
        proof {
            lemma_tdiv_bounds(vw * (SCALE as int), w128 * (SCALE as int),
                1_000_000_000_000_000_000int);
            lemma_div_is_ordered_by_denominator(1_000_000_000_000_000_000int, SCALE as int,
                w128 * (SCALE as int));
            lemma_tdiv_bounds((-(o.viewport_height as int)) * (SCALE as int),
                ih as int * (SCALE as int), 100_000_000_000_000int);
            lemma_div_is_ordered_by_denominator(100_000_000_000_000int, SCALE as int,
                ih as int * (SCALE as int));
            lemma_div_of0(ih as int * (SCALE as int));
            lemma_div_of0(w128 as int * (SCALE as int));
        }
        let du = vu.div_by(w128 * SCALE);
        let dv = vv.div_by(ih * SCALE);
        proof {
            lemma_tdiv_bounds(vw * (SCALE as int), 2 * (SCALE as int),
                1_000_000_000_000_000_000int);
            lemma_div_is_ordered_by_denominator(1_000_000_000_000_000_000int, SCALE as int,
                2 * (SCALE as int));
            lemma_tdiv_bounds((-(o.viewport_height as int)) * (SCALE as int),
                2 * (SCALE as int), 100_000_000_000_000int);
            lemma_div_is_ordered_by_denominator(100_000_000_000_000int, SCALE as int,
                2 * (SCALE as int));
            lemma_div_of0(2 * (SCALE as int));
        }
        let half_u = vu.div_by(2 * SCALE);
        let half_v = vv.div_by(2 * SCALE);
        let focal_step = Position { x: 0, y: 0, z: o.focal_length };
        let vul = o.camera_center.minus(focal_step).minus(half_u).minus(half_v);
        proof {
            let sum_dudv = spec_plus(du, dv);
            lemma_mul_s_bound(sum_dudv.x as int, HALF_SCALE as int, 2_000_000_000_000int,
                HALF_SCALE as int);
            lemma_mul_s_bound(sum_dudv.y as int, HALF_SCALE as int, 2_000_000_000_000int,
                HALF_SCALE as int);
            lemma_mul_s_bound(sum_dudv.z as int, HALF_SCALE as int, 2_000_000_000_000int,
                HALF_SCALE as int);
        }
        let p00 = vul.plus(du.plus(dv).scaled_by(HALF_SCALE));
        Ok(Camera {
            image_width: o.image_width,
            image_height: ih as i32,
            center: o.camera_center,
            pixel00_loc: p00,
            pixel_delta_u: du,
            pixel_delta_v: dv,
            samples_per_pixel: o.samples_per_pixel,
            max_bounces: o.max_bounces,
        })
    }

    /// Builds the sample ray through pixel `(i, j)` with the given jitter
    /// offsets. Fails only if the derived direction cannot be normalized to
    /// unit length, which well-formed cameras never produce in practice.
    pub fn get_ray(&self, i: i32, j: i32, ox: i128, oy: i128) -> (res: Result<Ray, RenderError>)
        requires
            camera_wf(*self),
            0 <= i < self.image_width,
            0 <= j < self.image_height,
            -(HALF_SCALE as int) <= ox <= HALF_SCALE as int,
            -(HALF_SCALE as int) <= oy <= HALF_SCALE as int,
        ensures
            res is Ok <==> spec_get_ray(*self, i as int, j as int, ox as int, oy as int)
                is Some,
            res is Ok ==> Some(res->Ok_0) == spec_get_ray(*self, i as int, j as int, ox as int,
                oy as int),
            res is Ok ==> ray_wf(res->Ok_0),
            res is Err ==> res->Err_0 == RenderError::InvalidGeometry,
    {
        let fi: i128 = (i as i128) * SCALE + ox;
        let fj: i128 = (j as i128) * SCALE + oy;
        proof {
            lemma_mul_s_bound(self.pixel_delta_u.x as int, fi as int, 1_000_000_000_000int,
                10_000_500_000int);
            lemma_mul_s_bound(self.pixel_delta_u.y as int, fi as int, 1_000_000_000_000int,
                10_000_500_000int);
            lemma_mul_s_bound(self.pixel_delta_u.z as int, fi as int, 1_000_000_000_000int,
                10_000_500_000int);
            lemma_mul_s_bound(self.pixel_delta_v.x as int, fj as int, 100_000_000int,
                1_000_000_500_000int);
            lemma_mul_s_bound(self.pixel_delta_v.y as int, fj as int, 100_000_000int,
                1_000_000_500_000int);
            lemma_mul_s_bound(self.pixel_delta_v.z as int, fj as int, 100_000_000int,
                1_000_000_500_000int);
        }
        let pc = self.pixel00_loc.plus(self.pixel_delta_u.scaled_by(fi)).plus(
            self.pixel_delta_v.scaled_by(fj),
        );
        let d = pc.minus(self.center);
        let l2 = d.length_squared();
        if l2 < 1 {
            return Err(RenderError::InvalidGeometry);
        }
        let u = d.unit();
        proof {
            crate::position::lemma_unit_result_bound(d);
        }
        if u.is_unit_len() {
            Ok(Ray { origin: self.center, direction: u })
        } else {
            Err(RenderError::InvalidGeometry)
        }
    }

    /// Combines a drawn unit vector with the surface normal into the
    /// diffuse bounce direction: the draw is flipped into the normal's
    /// hemisphere when its dot with the normal is non-positive, added to
    /// the normal, and the sum normalized. A result the fixed-point checks
    /// cannot certify as a visible-side unit vector is rejected; callers
    /// treat that as absorption.
    pub fn diffuse_bounce(surface_normal: Position, draw: Position) -> (res: Option<Position>)
        requires
            is_unit(surface_normal),
            is_unit(draw),
        ensures
            res == spec_diffuse_bounce(surface_normal, draw),
            res is Some ==> is_unit(res->0),
            res is Some ==> spec_dot(res->0, surface_normal) > 0,
    {
        let n = surface_normal;
        proof {
            lemma_unit_comp_bound(n);
            lemma_unit_comp_bound(draw);
            lemma_mul_bound(n.x as int, draw.x as int, DIR_CAP as int, DIR_CAP as int);
            lemma_mul_bound(n.y as int, draw.y as int, DIR_CAP as int, DIR_CAP as int);
            lemma_mul_bound(n.z as int, draw.z as int, DIR_CAP as int, DIR_CAP as int);
        }
        let aligned = n.dot(draw) > 0;
        let rv = if aligned {
            draw
        } else {
            proof {
                lemma_neg_len2(draw);
            }
            draw.negated()
        };
        proof {
            lemma_unit_comp_bound(rv);
        }
        let summed = n.plus(rv);
        let l2 = summed.length_squared();
        if l2 < 1 {
            return None;
        }
        let u = summed.unit();
        proof {
            lemma_unit_result_bound(summed);
            lemma_unit_comp_bound(n);
        }
        if u.is_unit_len() {
            proof {
                lemma_mul_bound(u.x as int, n.x as int, DIR_CAP as int, DIR_CAP as int);
                lemma_mul_bound(u.y as int, n.y as int, DIR_CAP as int, DIR_CAP as int);
                lemma_mul_bound(u.z as int, n.z as int, DIR_CAP as int, DIR_CAP as int);
            }
            let toward = u.dot(n);
            if toward > 0 {
                Some(u)
            } else {
                None
            }
        } else {
            None
        }
    }

    /// Diffuse bounce direction off a surface: draws a unit vector and
    /// combines it with the normal as `diffuse_bounce` describes. A normal
    /// that fails the unit check is rejected before the draw; any returned
    /// direction is unit length, points into the normal's hemisphere, and
    /// is the bounce formula applied to some unit draw. The incident ray
    /// does not affect the result.
    pub fn reflect_ray_diffuse(incident_ray: Ray, surface_normal: Position, sampler: &mut Sampler) -> (res:
        Option<Position>)
        ensures
            !(bounded(surface_normal, VEC_CAP as int) && is_unit(surface_normal)) ==> res
                is None,
            res is Some ==> is_unit(res->0),
            res is Some ==> spec_dot(res->0, surface_normal) > 0,
            res is Some ==> exists|u: Position|
                is_unit(u) && res == #[trigger] spec_diffuse_bounce(surface_normal, u),
    {
        let _ = incident_ray;
        let n = surface_normal;
        let n_ok = -VEC_CAP <= n.x && n.x <= VEC_CAP && -VEC_CAP <= n.y && n.y <= VEC_CAP
            && -VEC_CAP <= n.z && n.z <= VEC_CAP;
        if !n_ok {
            return None;
        }
        if !n.is_unit_len() {
            return None;
        }
        let draw = sampler.random_on_unit_sphere();
        let res = Self::diffuse_bounce(n, draw);
        proof {
            if res is Some {
                assert(is_unit(draw) && res == spec_diffuse_bounce(n, draw));
            }
        }
        res
    }

    /// Recursive diffuse shading. With no bounces left the result is black;
    /// a miss returns exactly the background gradient; a hit follows one
    /// diffuse bounce and attenuates the recursive result by the
    /// reflectance, so on a hit no channel exceeds the reflectance. Every
    /// channel of the result is a displayable intensity.
    pub fn ray_color_intensity(
        r: Ray,
        bounces_left: i32,
        world: &Vec<Sphere>,
        sampler: &mut Sampler,
        reflectance: i128,
    ) -> (res: Position)
        requires
            ray_wf(r),
            scene_wf(world@),
            0 <= reflectance <= SCALE as int,
        ensures
            intensity_ok(res),
            bounces_left <= 0 ==> res == spec_zero(),
            bounces_left > 0 && scan_hit(
                world@,
                r,
                Interval { start: SHADE_T_MIN, end: SHADE_T_MAX },
                None,
            ) is None ==> res == spec_background(r.direction),
            bounces_left > 0 && scan_hit(
                world@,
                r,
                Interval { start: SHADE_T_MIN, end: SHADE_T_MAX },
                None,
            ) is Some ==> res.x <= reflectance && res.y <= reflectance && res.z <= reflectance,
        decreases bounces_left,
    {
        if bounces_left <= 0 {
            return Position { x: 0, y: 0, z: 0 };
        }
        let ray_hit = world.hit(r, Interval { start: SHADE_T_MIN, end: SHADE_T_MAX });
        if let Some(rec) = ray_hit {
            let reflected = Self::reflect_ray_diffuse(r, rec.normal_vector, sampler);
            match reflected {
                None => Position { x: 0, y: 0, z: 0 },
                Some(dir) => {
                    proof {
                        lemma_unit_comp_bound(dir);
                    }
                    match Ray::try_new(rec.incidence_point, dir) {
                        Err(_) => Position { x: 0, y: 0, z: 0 },
                        Ok(reflected_ray) => {
                            let sub = Self::ray_color_intensity(
                                reflected_ray,
                                bounces_left - 1,
                                world,
                                sampler,
                                reflectance,
                            );
                            proof {
                                lemma_mul_s_unit(reflectance as int, sub.x as int);
                                lemma_mul_s_unit(reflectance as int, sub.y as int);
                                lemma_mul_s_unit(reflectance as int, sub.z as int);
                                lemma_mul_bound(sub.x as int, reflectance as int, SCALE as int,
                                    SCALE as int);
                                lemma_mul_bound(sub.y as int, reflectance as int, SCALE as int,
                                    SCALE as int);
                                lemma_mul_bound(sub.z as int, reflectance as int, SCALE as int,
                                    SCALE as int);
                            }
                            sub.scaled_by(reflectance)
                        },
                    }
                },
            }
        } else {
            proof {
                lemma_unit_comp_bound(r.direction);
            }
            let a_raw = tdiv_exec(r.direction.y + SCALE, 2);
            let a = Interval { start: 0, end: SCALE }.clamp(a_raw);
            let white = Position { x: SCALE, y: SCALE, z: SCALE };
            let blue = Position { x: HALF_SCALE, y: 700_000, z: SCALE };
            proof {
                lemma_blend_unit(SCALE as int, HALF_SCALE as int, a as int);
                lemma_blend_unit(SCALE as int, 700_000int, a as int);
                lemma_blend_unit(SCALE as int, SCALE as int, a as int);
                lemma_mul_bound(SCALE as int, (SCALE - a) as int, SCALE as int, SCALE as int);
                lemma_mul_bound(HALF_SCALE as int, a as int, SCALE as int, SCALE as int);
                lemma_mul_bound(700_000int, a as int, SCALE as int, SCALE as int);
            }
            white.scaled_by(SCALE - a).plus(blue.scaled_by(a))
        }
    }

    /// Shades a single ray and maps it to a display color: the gamma of
    /// black when no bounces are allowed, and the gamma of the background
    /// gradient when the ray misses the scene.
    pub fn ray_color(&self, r: Ray, world: &Vec<Sphere>, sampler: &mut Sampler) -> (c: Color)
        requires
            camera_wf(*self),
            ray_wf(r),
            scene_wf(world@),
        ensures
            0 <= c.r <= 255,
            0 <= c.g <= 255,
            0 <= c.b <= 255,
            self.max_bounces <= 0 ==> c == spec_from_intensity(spec_zero()),
            self.max_bounces > 0 && scan_hit(
                world@,
                r,
                Interval { start: SHADE_T_MIN, end: SHADE_T_MAX },
                None,
            ) is None ==> c == spec_from_intensity(spec_background(r.direction)),
    {
        let intensity = Self::ray_color_intensity(
            r,
            self.max_bounces,
            world,
            sampler,
            DEFAULT_REFLECTANCE,
        );
        Color::from_intensity(intensity)
    }

    /// Draws the per-pixel samples, averages their intensities and maps the
    /// average to a display color. The averaged intensity is proven
    /// displayable, so color construction cannot fail here; the only
    /// failure is a drawn jitter whose sample ray cannot be normalized, so
    /// success is owed whenever every jitter in range yields a ray (and in
    /// particular with no samples at all). With no bounces allowed the
    /// pixel is the gamma of black.
    pub fn pixel_color(
        &self,
        world: &Vec<Sphere>,
        sampler: &mut Sampler,
        i: i32,
        j: i32,
    ) -> (res: Result<Color, RenderError>)
        requires
            camera_wf(*self),
            scene_wf(world@),
            0 <= i < self.image_width,
            0 <= j < self.image_height,
        ensures
            res is Ok ==> 0 <= (res->Ok_0).r <= 255 && 0 <= (res->Ok_0).g <= 255 && 0 <= (
            res->Ok_0).b <= 255,
            res is Err ==> res->Err_0 == RenderError::InvalidGeometry,
            self.samples_per_pixel == 0 ==> res is Ok,
            (forall|ox: int, oy: int|
                -(HALF_SCALE as int) <= ox <= HALF_SCALE as int && -(HALF_SCALE as int) <= oy
                    <= HALF_SCALE as int ==> #[trigger] spec_get_ray(
                    *self,
                    i as int,
                    j as int,
                    ox,
                    oy,
                ) is Some) ==> res is Ok,
            res is Ok && self.max_bounces <= 0 ==> res->Ok_0 == spec_from_intensity(
                spec_zero(),
            ),
    {
        let mut samples: Vec<Position> = Vec::new();
        let mut k: i32 = 0;
        while k < self.samples_per_pixel
            invariant
                camera_wf(*self),
                scene_wf(world@),
                0 <= i < self.image_width,
                0 <= j < self.image_height,
                0 <= k <= self.samples_per_pixel,
                samples@.len() == k,
                forall|m: int| 0 <= m < samples@.len() ==> intensity_ok(#[trigger] samples@[m]),
                self.max_bounces <= 0 ==> forall|m: int|
                    0 <= m < samples@.len() ==> #[trigger] samples@[m] == spec_zero(),
            decreases self.samples_per_pixel - k,
        {
            let ox = sampler.jitter();
            let oy = sampler.jitter();
            let ray = match self.get_ray(i, j, ox, oy) {
                Ok(ray) => ray,
                Err(e) => {
                    return Err(e);
                },
            };
            let intensity = Self::ray_color_intensity(
                ray,
                self.max_bounces,
                world,
                sampler,
                DEFAULT_REFLECTANCE,
            );
            samples.push(intensity);
            k = k + 1;
        }
        proof {
            if self.max_bounces <= 0 {
                lemma_avg_all_zero(samples@);
            }
        }
        let avg = avg_intensity(&samples);
        Ok(Color::from_intensity(avg))
    }

    /// Renders the full image in scanline order, top to bottom then left to
    /// right, one color per pixel (the caller indexes the result row-major;
    /// with randomized sampling the pixel values themselves are not
    /// statable). Rendering fails only when a drawn jitter yields a sample
    /// ray that cannot be normalized, so success is owed whenever every
    /// jitter in range yields a ray for every pixel, and with a zero sample
    /// count.
    pub fn render(&self, world: &Vec<Sphere>, sampler: &mut Sampler) -> (res: Result<
        Vec<Color>,
        RenderError,
    >)
        requires
            camera_wf(*self),
            scene_wf(world@),
        ensures
            res is Ok ==> res->Ok_0@.len() == (self.image_height as int) * (
            self.image_width as int),
            res is Ok ==> forall|k: int|
                0 <= k < res->Ok_0@.len() ==> 0 <= (#[trigger] res->Ok_0@[k]).r <= 255 && 0 <= (
                res->Ok_0@[k]).g <= 255 && 0 <= (res->Ok_0@[k]).b <= 255,
            res is Err ==> res->Err_0 == RenderError::InvalidGeometry,
            self.samples_per_pixel == 0 ==> res is Ok,
            (forall|i: int, j: int, ox: int, oy: int|
                0 <= i < self.image_width && 0 <= j < self.image_height && -(HALF_SCALE as int)
                    <= ox <= HALF_SCALE as int && -(HALF_SCALE as int) <= oy <= HALF_SCALE as int
                    ==> #[trigger] spec_get_ray(*self, i, j, ox, oy) is Some) ==> res is Ok,
    {
        let mut out: Vec<Color> = Vec::new();
        let mut j: i32 = 0;
        while j < self.image_height
            invariant
                camera_wf(*self),
                scene_wf(world@),
                0 <= j <= self.image_height,
                out@.len() == (j as int) * (self.image_width as int),
                forall|k: int|
                    0 <= k < out@.len() ==> 0 <= (#[trigger] out@[k]).r <= 255 && 0 <= (
                    out@[k]).g <= 255 && 0 <= (out@[k]).b <= 255,
            decreases self.image_height - j,
        {
            let mut i: i32 = 0;
            while i < self.image_width
                invariant
                    camera_wf(*self),
                    scene_wf(world@),
                    0 <= j < self.image_height,
                    0 <= i <= self.image_width,
                    out@.len() == (j as int) * (self.image_width as int) + (i as int),
                    forall|k: int|
                        0 <= k < out@.len() ==> 0 <= (#[trigger] out@[k]).r <= 255 && 0 <= (
                        out@[k]).g <= 255 && 0 <= (out@[k]).b <= 255,
                decreases self.image_width - i,
            {
                let c = match self.pixel_color(world, sampler, i, j) {
                    Ok(c) => c,
                    Err(e) => {
                        return Err(e);
                    },
                };
                out.push(c);
                i = i + 1;
            }
            proof {
                assert((j as int + 1) * (self.image_width as int) == (j as int) * (
                self.image_width as int) + (self.image_width as int)) by (nonlinear_arith);
            }
            j = j + 1;
        }
        Ok(out)
    }
}

} // verus!
