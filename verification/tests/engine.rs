use raytrace::camera::{
    Camera, CameraOptions, DEFAULT_ASPECT_RATIO, DEFAULT_FOCAL_LENGTH, DEFAULT_IMAGE_WIDTH,
    DEFAULT_MAX_BOUNCES, DEFAULT_REFLECTANCE, DEFAULT_SAMPLES_PER_PIXEL,
    DEFAULT_VIEWPORT_HEIGHT, SHADE_T_MAX, avg_intensity, sum_of,
};
use raytrace::color::Color;
use raytrace::fixed::{HALF_SCALE, SCALE};
use raytrace::hittable::{FaceSide, Hittable};
use raytrace::interval::Interval;
use raytrace::position::Position;
use raytrace::ray::Ray;
use raytrace::rng::Sampler;
use raytrace::sphere::Sphere;
use raytrace::RenderError;

fn unit_z_neg() -> Position {
    Position { x: 0, y: 0, z: -SCALE }
}

fn full_range() -> Interval {
    Interval { start: 0, end: SHADE_T_MAX }
}

#[test]
fn ray_at_zero_is_origin() {
    let origin = Position::new(3 * SCALE, -2 * SCALE, SCALE);
    let ray = Ray::new(origin, unit_z_neg());
    assert_eq!(ray.at(0), origin);
}

#[test]
fn ray_at_advances_along_direction() {
    let origin = Position::new(SCALE, 0, 0);
    let ray = Ray::new(origin, unit_z_neg());
    let p = ray.at(2 * SCALE);
    assert_eq!(p, Position::new(SCALE, 0, -2 * SCALE));
    assert_eq!(ray.origin(), origin);
    assert_eq!(ray.direction(), unit_z_neg());
}

#[test]
fn sphere_front_hit_values() {
    let sphere = Sphere::new(Position::new(0, 0, -SCALE), HALF_SCALE);
    let ray = Ray::new(Position::new(0, 0, 0), unit_z_neg());
    let rec = sphere.hit(ray, full_range()).expect("hit expected");
    assert_eq!(rec.t, HALF_SCALE);
    assert_eq!(rec.incidence_point, Position::new(0, 0, -HALF_SCALE));
    assert_eq!(rec.normal_vector, Position::new(0, 0, SCALE));
    assert_eq!(rec.face, FaceSide::Outward);
}

#[test]
fn sphere_inside_hit_flips_normal() {
    let sphere = Sphere::new(Position::new(0, 0, -SCALE), HALF_SCALE);
    let ray = Ray::new(Position::new(0, 0, -SCALE), unit_z_neg());
    let rec = sphere.hit(ray, full_range()).expect("hit expected");
    assert_eq!(rec.t, HALF_SCALE);
    assert_eq!(rec.face, FaceSide::Inward);
    assert_eq!(rec.normal_vector, Position::new(0, 0, SCALE));
}

#[test]
fn sphere_miss_returns_none() {
    let sphere = Sphere::new(Position::new(0, 0, -SCALE), HALF_SCALE);
    let up = Position { x: 0, y: SCALE, z: 0 };
    let ray = Ray::new(Position::new(0, 0, 0), up);
    assert!(sphere.hit(ray, full_range()).is_none());
}

#[test]
fn nearest_hit_is_order_independent() {
    let near = Sphere::new(Position::new(0, 0, -SCALE), HALF_SCALE);
    let far = Sphere::new(Position::new(0, 0, -3 * SCALE), HALF_SCALE);
    let ray = Ray::new(Position::new(0, 0, 0), unit_z_neg());
    let a = vec![near, far];
    let b = vec![far, near];
    let rec_a = a.hit(ray, full_range()).expect("hit expected");
    let rec_b = b.hit(ray, full_range()).expect("hit expected");
    assert_eq!(rec_a.t, rec_b.t);
    assert_eq!(rec_a.t, HALF_SCALE);
}

#[test]
fn composite_empty_scene_misses() {
    let scene: Vec<Sphere> = vec![];
    let ray = Ray::new(Position::new(0, 0, 0), unit_z_neg());
    assert!(scene.hit(ray, full_range()).is_none());
}

#[test]
fn zero_bounces_shades_black() {
    let scene = vec![Sphere::new(Position::new(0, 0, -SCALE), HALF_SCALE)];
    let ray = Ray::new(Position::new(0, 0, 0), unit_z_neg());
    let mut sampler = Sampler::from_seed(11);
    let c = Camera::ray_color_intensity(ray, 0, &scene, &mut sampler, DEFAULT_REFLECTANCE);
    assert_eq!(c, Position::new(0, 0, 0));
}

#[test]
fn miss_returns_pure_sky_blue() {
    let scene: Vec<Sphere> = vec![];
    let up = Position { x: 0, y: SCALE, z: 0 };
    let ray = Ray::new(Position::new(0, 0, 0), up);
    let mut sampler = Sampler::from_seed(5);
    let c = Camera::ray_color_intensity(ray, 10, &scene, &mut sampler, DEFAULT_REFLECTANCE);
    assert_eq!(c, Position::new(HALF_SCALE, 700_000, SCALE));
}

#[test]
fn horizontal_miss_blends_halfway() {
    let scene: Vec<Sphere> = vec![];
    let ray = Ray::new(Position::new(0, 0, 0), unit_z_neg());
    let mut sampler = Sampler::from_seed(5);
    let c = Camera::ray_color_intensity(ray, 10, &scene, &mut sampler, DEFAULT_REFLECTANCE);
    assert_eq!(c, Position::new(750_000, 850_000, SCALE));
}

#[test]
fn averaging_single_sample_is_identity() {
    let sample = Position::new(300_000, 200_000, 100_000);
    let avg = avg_intensity(&vec![sample]);
    assert_eq!(avg, sample);
}

#[test]
fn empty_sum_is_zero_vector() {
    let none: Vec<Position> = vec![];
    let total = sum_of(&none);
    assert_eq!(total, Position::new(0, 0, 0));
    let avg = avg_intensity(&none);
    assert_eq!(avg, Position::new(0, 0, 0));
}

#[test]
fn averaging_mixes_samples() {
    let a = Position::new(SCALE, 0, HALF_SCALE);
    let b = Position::new(0, SCALE, HALF_SCALE);
    let avg = avg_intensity(&vec![a, b]);
    assert_eq!(avg, Position::new(HALF_SCALE, HALF_SCALE, HALF_SCALE));
}

#[test]
fn camera_rejects_degenerate_height() {
    let options = CameraOptions::default()
        .with_image_width(1)
        .with_aspect_ratio(1_000_000_000);
    assert_eq!(Camera::new(options), Err(RenderError::InvalidConfiguration));
}

#[test]
fn camera_rejects_zero_width() {
    let options = CameraOptions::default().with_image_width(0);
    assert_eq!(Camera::new(options), Err(RenderError::InvalidConfiguration));
}

#[test]
fn camera_default_options_match_documented_defaults() {
    let o = CameraOptions::default();
    assert_eq!(o.aspect_ratio, DEFAULT_ASPECT_RATIO);
    assert_eq!(o.image_width, DEFAULT_IMAGE_WIDTH);
    assert_eq!(o.focal_length, DEFAULT_FOCAL_LENGTH);
    assert_eq!(o.viewport_height, DEFAULT_VIEWPORT_HEIGHT);
    assert_eq!(o.camera_center, Position::new(0, 0, 0));
    assert_eq!(o.samples_per_pixel, DEFAULT_SAMPLES_PER_PIXEL);
    assert_eq!(o.max_bounces, DEFAULT_MAX_BOUNCES);
}

#[test]
fn camera_derives_expected_dimensions() {
    let camera = Camera::new(CameraOptions::default()).expect("valid options");
    assert_eq!(camera.image_width, 400);
    assert_eq!(camera.image_height, 225);
    assert_eq!(camera.samples_per_pixel, DEFAULT_SAMPLES_PER_PIXEL);
    assert_eq!(camera.max_bounces, DEFAULT_MAX_BOUNCES);
}

#[test]
fn render_produces_one_color_per_pixel() {
    let options = CameraOptions::default()
        .with_image_width(4)
        .with_aspect_ratio(SCALE)
        .with_samples_per_pixel(2)
        .with_max_bounces(3);
    let camera = Camera::new(options).expect("valid options");
    assert_eq!(camera.image_height, 4);
    let scene = vec![
        Sphere::new(Position::new(0, 0, -SCALE), HALF_SCALE),
        Sphere::new(Position::new(0, -50_500_000, -SCALE), 50_000_000),
    ];
    let mut sampler = Sampler::from_seed(42);
    let image = camera.render(&scene, &mut sampler).expect("render succeeds");
    assert_eq!(image.len(), 16);
    for c in image {
        assert!(0 <= c.r && c.r <= 255);
        assert!(0 <= c.g && c.g <= 255);
        assert!(0 <= c.b && c.b <= 255);
    }
}

#[test]
fn get_ray_is_deterministic_for_fixed_offsets() {
    let camera = Camera::new(CameraOptions::default()).expect("valid options");
    let a = camera.get_ray(7, 3, 0, 0).expect("center ray");
    let b = camera.get_ray(7, 3, 0, 0).expect("center ray");
    assert_eq!(a, b);
}

#[test]
fn diffuse_bounce_keeps_aligned_draw() {
    let normal = Position::new(0, 0, SCALE);
    let draw = Position::new(0, 0, SCALE);
    let bounced = Camera::diffuse_bounce(normal, draw).expect("bounce expected");
    assert_eq!(bounced, Position::new(0, 0, SCALE));
}

#[test]
fn diffuse_bounce_flips_opposed_draw_into_hemisphere() {
    let normal = Position::new(0, 0, SCALE);
    let opposed = Position::new(0, 0, -SCALE);
    let bounced = Camera::diffuse_bounce(normal, opposed).expect("bounce expected");
    assert_eq!(bounced, Position::new(0, 0, SCALE));
    let sideways = Position::new(0, -SCALE, 0);
    let bounced = Camera::diffuse_bounce(normal, sideways).expect("bounce expected");
    // unit((0,-1,1)) or unit((0,1,1)): the draw's dot with the normal is
    // zero, so it is flipped, giving the (0, 1, 1) diagonal.
    assert!(bounced.y > 0 && bounced.z > 0);
    assert!(bounced.dot(normal) > 0);
}

#[test]
fn reflected_directions_stay_on_visible_side() {
    let normal = Position::new(0, 0, SCALE);
    let ray = Ray::new(Position::new(0, 0, 0), unit_z_neg());
    let mut sampler = Sampler::from_seed(77);
    for _ in 0..50 {
        let d = Camera::reflect_ray_diffuse(ray, normal, &mut sampler)
            .expect("diffuse bounce");
        assert!(d.is_unit_len());
        assert!(d.dot(normal) > 0);
    }
}

#[test]
fn zero_bounce_pixels_are_black() {
    let options = CameraOptions::default()
        .with_image_width(4)
        .with_aspect_ratio(SCALE)
        .with_samples_per_pixel(3)
        .with_max_bounces(0);
    let camera = Camera::new(options).expect("valid options");
    let scene = vec![Sphere::new(Position::new(0, 0, -SCALE), HALF_SCALE)];
    let mut sampler = Sampler::from_seed(8);
    let c = camera.pixel_color(&scene, &mut sampler, 1, 2).expect("pixel succeeds");
    assert_eq!(c, Color::new(0, 0, 0));
}

#[test]
fn render_with_no_samples_succeeds() {
    let options = CameraOptions::default()
        .with_image_width(3)
        .with_aspect_ratio(SCALE)
        .with_samples_per_pixel(0);
    let camera = Camera::new(options).expect("valid options");
    let scene = vec![Sphere::new(Position::new(0, 0, -SCALE), HALF_SCALE)];
    let mut sampler = Sampler::from_seed(1);
    let image = camera.render(&scene, &mut sampler).expect("render succeeds");
    assert_eq!(image.len(), 9);
    for c in image {
        assert_eq!(c, Color::new(0, 0, 0));
    }
}

#[test]
fn averaging_accepts_negative_components() {
    let v = Position::new(-SCALE, SCALE, 0);
    let avg = avg_intensity(&vec![v, Position::new(0, 0, 0)]);
    assert_eq!(avg, Position::new(-HALF_SCALE, HALF_SCALE, 0));
}
