use raytrace::color::Color;
use raytrace::fixed::{HALF_SCALE, SCALE};
use raytrace::hittable::Hittable;
use raytrace::interval::Interval;
use raytrace::material::{Diffuse, Material};
use raytrace::position::Position;
use raytrace::ray::Ray;
use raytrace::rng::Sampler;
use raytrace::sphere::Sphere;
use raytrace::util::RangeSurround;
use raytrace::RenderError;

#[test]
fn interval_surrounds_is_strict() {
    let unit = Interval { start: 0, end: SCALE };
    assert!(!unit.surrounds(0));
    assert!(unit.surrounds(HALF_SCALE));
    assert!(!unit.surrounds(SCALE));
}

#[test]
fn interval_contains_is_inclusive() {
    let unit = Interval { start: 0, end: SCALE };
    assert!(unit.contains(0));
    assert!(unit.contains(SCALE));
    assert!(!unit.contains(-1));
    assert!(!unit.contains(SCALE + 1));
}

#[test]
fn interval_clamp_saturates() {
    let unit = Interval { start: 0, end: SCALE };
    assert_eq!(unit.clamp(-5), 0);
    assert_eq!(unit.clamp(3), 3);
    assert_eq!(unit.clamp(2 * SCALE), SCALE);
}

#[test]
fn bounds_pair_surrounds_strictly() {
    let pair: (i128, i128) = (0, 10);
    assert!(pair.surrounds(&5));
    assert!(!pair.surrounds(&0));
    assert!(!pair.surrounds(&10));
}

#[test]
fn color_of_full_intensity_is_white() {
    let c = Color::from_intensity(Position::new(SCALE, SCALE, SCALE));
    assert_eq!(c, Color::new(255, 255, 255));
}

#[test]
fn color_of_zero_intensity_is_black() {
    let c = Color::from_intensity(Position::new(0, 0, 0));
    assert_eq!(c, Color::new(0, 0, 0));
}

#[test]
fn color_gamma_corrects_by_square_root() {
    // A quarter intensity has square root one half: 0.5 * 255.999 truncates
    // to 127.
    let c = Color::from_intensity(Position::new(250_000, 0, 0));
    assert_eq!(c.r, 127);
    assert_eq!(c.g, 0);
    assert_eq!(c.b, 0);
}

#[test]
fn color_rejects_out_of_range_channel() {
    let too_bright = Position::new(2 * SCALE, 0, 0);
    assert_eq!(
        Color::try_from_intensity(too_bright),
        Err(RenderError::ColorOutOfRange)
    );
    let negative = Position::new(0, -1, 0);
    assert_eq!(
        Color::try_from_intensity(negative),
        Err(RenderError::ColorOutOfRange)
    );
    assert_eq!(
        Color::try_from_intensity(Position::new(0, 0, 0)),
        Ok(Color::new(0, 0, 0))
    );
}

#[test]
fn color_to_position_carries_channels() {
    let p = Color::new(1, 2, 3).to_position();
    assert_eq!(p, Position::new(SCALE, 2 * SCALE, 3 * SCALE));
}

#[test]
fn color_default_is_black() {
    let c: Color = Default::default();
    assert_eq!(c, Color::new(0, 0, 0));
}

#[test]
fn ray_construction_rejects_non_unit_direction() {
    let skewed = Position::new(SCALE, SCALE, SCALE);
    let r = Ray::try_new(Position::new(0, 0, 0), skewed);
    assert_eq!(r.err(), Some(RenderError::InvalidGeometry));
}

#[test]
fn ray_construction_accepts_unit_direction() {
    let dir = Position::new(0, SCALE, 0);
    let r = Ray::try_new(Position::new(1, 2, 3), dir).expect("unit direction");
    assert_eq!(r.origin(), Position::new(1, 2, 3));
    assert_eq!(r.direction(), dir);
}

#[test]
fn vector_arithmetic_matches_componentwise_rules() {
    let a = Position::new(SCALE, 2 * SCALE, 3 * SCALE);
    let b = Position::new(4 * SCALE, 5 * SCALE, 6 * SCALE);
    assert_eq!(a.plus(b), Position::new(5 * SCALE, 7 * SCALE, 9 * SCALE));
    assert_eq!(b.minus(a), Position::new(3 * SCALE, 3 * SCALE, 3 * SCALE));
    assert_eq!(a.negated(), Position::new(-SCALE, -2 * SCALE, -3 * SCALE));
    assert_eq!(a.scaled_by(2 * SCALE), Position::new(2 * SCALE, 4 * SCALE, 6 * SCALE));
    assert_eq!(a.div_by(2 * SCALE), Position::new(HALF_SCALE, SCALE, SCALE + HALF_SCALE));
    assert_eq!(a.dot(b), 32 * SCALE);
}

#[test]
fn cross_product_of_axes_gives_third_axis() {
    let x = Position::new(SCALE, 0, 0);
    let y = Position::new(0, SCALE, 0);
    assert_eq!(x.cross(y), Position::new(0, 0, SCALE));
    assert_eq!(y.cross(x), Position::new(0, 0, -SCALE));
}

#[test]
fn length_and_normalization() {
    let v = Position::new(3 * SCALE, 4 * SCALE, 0);
    assert_eq!(v.length_squared(), 25 * SCALE);
    assert_eq!(v.length(), 5 * SCALE);
    let u = v.unit();
    assert_eq!(u, Position::new(600_000, 800_000, 0));
    assert!(u.is_unit_len());
}

#[test]
fn jitter_offsets_stay_in_half_pixel_window() {
    let mut sampler = Sampler::from_seed(123);
    for _ in 0..200 {
        let o = sampler.jitter();
        assert!(-HALF_SCALE <= o && o <= HALF_SCALE);
    }
}

#[test]
fn random_sphere_directions_are_unit_length() {
    let mut sampler = Sampler::from_seed(321);
    for _ in 0..50 {
        let d = sampler.random_on_unit_sphere();
        let l2 = d.length_squared();
        assert!(999_800 <= l2 && l2 <= 1_000_200);
    }
}

#[test]
fn diffuse_material_scatters_from_hit_point() {
    let sphere = Sphere::new(Position::new(0, 0, -SCALE), HALF_SCALE);
    let ray = Ray::new(Position::new(0, 0, 0), Position::new(0, 0, -SCALE));
    let range = Interval { start: 0, end: 10 * SCALE };
    let rec = sphere.hit(ray, range).expect("hit expected");
    let material = Diffuse { albedo: Color::new(128, 128, 128) };
    let mut sampler = Sampler::from_seed(9);
    let scattered = material.scatter(ray, &rec, &mut sampler).expect("diffuse scatter");
    assert_eq!(scattered.0, Color::new(128, 128, 128));
    assert_eq!(scattered.1.origin(), rec.incidence_point);
    assert!(scattered.1.direction().is_unit_len());
}

#[test]
fn sphere_with_material_keeps_geometry() {
    let sphere = Sphere::new(Position::new(0, 0, -SCALE), HALF_SCALE).with_material(3);
    assert_eq!(sphere.material, 3);
    assert_eq!(sphere.center, Position::new(0, 0, -SCALE));
    assert_eq!(sphere.radius, HALF_SCALE);
}

#[test]
fn component_access_by_index() {
    let mut v = Position::new(10, 20, 30);
    assert_eq!(v.component(0), 10);
    assert_eq!(v.component(1), 20);
    assert_eq!(v.component(2), 30);
    v.set_component(1, 99);
    assert_eq!(v, Position::new(10, 99, 30));
}

#[test]
fn in_place_ops_match_pure_ops() {
    let mut v = Position::new(SCALE, 2 * SCALE, 3 * SCALE);
    let w = Position::new(SCALE, SCALE, SCALE);
    v.plus_assign(w);
    assert_eq!(v, Position::new(2 * SCALE, 3 * SCALE, 4 * SCALE));
    v.minus_assign(w);
    assert_eq!(v, Position::new(SCALE, 2 * SCALE, 3 * SCALE));
    v.scale_assign(2 * SCALE);
    assert_eq!(v, Position::new(2 * SCALE, 4 * SCALE, 6 * SCALE));
    v.div_assign(2 * SCALE);
    assert_eq!(v, Position::new(SCALE, 2 * SCALE, 3 * SCALE));
}

#[test]
fn sphere_prefers_far_root_when_near_is_excluded() {
    let sphere = Sphere::new(Position::new(0, 0, -SCALE), HALF_SCALE);
    let ray = Ray::new(Position::new(0, 0, 0), Position::new(0, 0, -SCALE));
    let range = Interval { start: 600_000, end: 100 * SCALE };
    let rec = sphere.hit(ray, range).expect("far root expected");
    assert_eq!(rec.t, 1_500_000);
    assert_eq!(rec.incidence_point, Position::new(0, 0, -1_500_000));
    assert_eq!(rec.normal_vector, Position::new(0, 0, SCALE));
}
