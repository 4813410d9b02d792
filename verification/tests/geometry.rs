// Basic value types: vectors, points, rays, intervals, colors.
// One whole unit is 1000 raw: 1.0 == 1000, 0.5 == 500.

use raytracer::color::Color;
use raytracer::interval::Interval;
use raytracer::point3::Point3;
use raytracer::ray::Ray;
use raytracer::utilities::random_double;
use raytracer::vec3::Vec3;

#[test]
fn test_vec3_creation() {
    let v = Vec3::new(1000, 2000, 3000);
    assert_eq!(v.x(), 1000);
    assert_eq!(v.y(), 2000);
    assert_eq!(v.z(), 3000);
}

#[test]
fn test_vec3_default() {
    let v = Vec3::default();
    assert_eq!(v.x(), 0);
    assert_eq!(v.y(), 0);
    assert_eq!(v.z(), 0);
}

#[test]
fn test_vec3_add() {
    let v1 = Vec3::new(1000, 2000, 3000);
    let v2 = Vec3::new(4000, 5000, 6000);
    let result = v1.add(&v2);
    assert_eq!(result.x(), 5000);
    assert_eq!(result.y(), 7000);
    assert_eq!(result.z(), 9000);
}

#[test]
fn test_vec3_sub() {
    let v1 = Vec3::new(4000, 5000, 6000);
    let v2 = Vec3::new(1000, 2000, 3000);
    let result = v1.sub(&v2);
    assert_eq!(result.x(), 3000);
    assert_eq!(result.y(), 3000);
    assert_eq!(result.z(), 3000);
}

#[test]
fn test_vec3_neg() {
    let v = Vec3::new(1000, 2000, 3000);
    let result = v.neg();
    assert_eq!(result.x(), -1000);
    assert_eq!(result.y(), -2000);
    assert_eq!(result.z(), -3000);
}

#[test]
fn test_vec3_scalar_mul() {
    let v = Vec3::new(1000, 2000, 3000);
    let result = v.scale(2000);
    assert_eq!(result.x(), 2000);
    assert_eq!(result.y(), 4000);
    assert_eq!(result.z(), 6000);
}

#[test]
fn test_vec3_scalar_div() {
    let v = Vec3::new(2000, 4000, 6000);
    let result = v.div_scalar(2000);
    assert_eq!(result.x(), 1000);
    assert_eq!(result.y(), 2000);
    assert_eq!(result.z(), 3000);
}

#[test]
fn test_vec3_mul() {
    let v1 = Vec3::new(1000, 2000, 3000);
    let v2 = Vec3::new(4000, 5000, 6000);
    let result = v1.mul(&v2);
    assert_eq!(result.x(), 4000);
    assert_eq!(result.y(), 10000);
    assert_eq!(result.z(), 18000);
}

#[test]
fn test_vec3_dot() {
    let v1 = Vec3::new(1000, 2000, 3000);
    let v2 = Vec3::new(4000, 5000, 6000);
    // 1*4 + 2*5 + 3*6 = 32
    assert_eq!(v1.dot(&v2), 32000);
}

#[test]
fn test_vec3_cross() {
    let v1 = Vec3::new(1000, 0, 0);
    let v2 = Vec3::new(0, 1000, 0);
    let result = v1.cross(&v2);
    assert_eq!(result.x(), 0);
    assert_eq!(result.y(), 0);
    assert_eq!(result.z(), 1000);
}

#[test]
fn test_vec3_length() {
    let v = Vec3::new(3000, 4000, 0);
    assert_eq!(v.length_squared(), 25000);
    assert_eq!(v.length(), 5000);
}

#[test]
fn test_vec3_unit() {
    let v = Vec3::new(2000, 0, 0);
    let u = v.unit();
    assert_eq!(u.x(), 1000);
    assert_eq!(u.y(), 0);
    assert_eq!(u.z(), 0);
    let z = Vec3::new(0, 0, 0);
    assert!(z.unit().near_zero());
}

#[test]
fn test_vec3_random_unit_bounds() {
    for _ in 0..100 {
        let u = Vec3::random_unit();
        assert!(u.x() >= -1000 && u.x() <= 1000);
        assert!(u.y() >= -1000 && u.y() <= 1000);
        assert!(u.z() >= -1000 && u.z() <= 1000);
        assert!(!u.near_zero());
    }
}

#[test]
fn test_sample_square_range() {
    for _ in 0..100 {
        let v = Vec3::sample_square();
        assert!(v.x() >= -500 && v.x() < 500);
        assert!(v.y() >= -500 && v.y() < 500);
        assert_eq!(v.z(), 0);
    }
}

#[test]
fn test_random_double_range() {
    for _ in 0..100 {
        let v = random_double();
        assert!(v >= 0 && v < 1000, "random_double out of range: {}", v);
    }
}

#[test]
fn test_point3_creation() {
    let p = Point3::new(1000, 2000, 3000);
    assert_eq!(p.x(), 1000);
    assert_eq!(p.y(), 2000);
    assert_eq!(p.z(), 3000);
}

#[test]
fn test_point3_zero() {
    let p = Point3::new(0, 0, 0);
    assert_eq!(p.x(), 0);
    assert_eq!(p.y(), 0);
    assert_eq!(p.z(), 0);
}

#[test]
fn test_point3_negative() {
    let p = Point3::new(-1000, -2000, -3000);
    assert_eq!(p.x(), -1000);
    assert_eq!(p.y(), -2000);
    assert_eq!(p.z(), -3000);
}

#[test]
fn test_ray_creation() {
    let origin = Point3::new(1000, 2000, 3000);
    let direction = Vec3::new(4000, 5000, 6000);
    let ray = Ray::new(origin, direction, 0);
    assert_eq!(ray.origin().x(), 1000);
    assert_eq!(ray.origin().y(), 2000);
    assert_eq!(ray.origin().z(), 3000);
    assert_eq!(ray.direction().x(), 4000);
    assert_eq!(ray.direction().y(), 5000);
    assert_eq!(ray.direction().z(), 6000);
}

#[test]
fn test_ray_at() {
    let origin = Point3::new(1000, 2000, 3000);
    let direction = Vec3::new(4000, 5000, 6000);
    let ray = Ray::new(origin, direction, 0);
    let point_at_zero = ray.at(0);
    assert_eq!(point_at_zero.x(), 1000);
    assert_eq!(point_at_zero.y(), 2000);
    assert_eq!(point_at_zero.z(), 3000);
    let point_at_one = ray.at(1000);
    assert_eq!(point_at_one.x(), 5000);
    assert_eq!(point_at_one.y(), 7000);
    assert_eq!(point_at_one.z(), 9000);
    let point_at_two = ray.at(2000);
    assert_eq!(point_at_two.x(), 9000);
    assert_eq!(point_at_two.y(), 12000);
    assert_eq!(point_at_two.z(), 15000);
}

#[test]
fn test_new() {
    let interval = Interval::new(1000, 5000);
    assert_eq!(interval.min, 1000);
    assert_eq!(interval.max, 5000);
}

#[test]
fn test_surrounds_inside() {
    let interval = Interval::new(1000, 5000);
    assert!(interval.surrounds(3000));
}

#[test]
fn test_surrounds_outside() {
    let interval = Interval::new(1000, 5000);
    assert!(!interval.surrounds(0));
    assert!(!interval.surrounds(5000));
    assert!(!interval.surrounds(1000));
    assert!(!interval.surrounds(6000));
}

#[test]
fn test_default() {
    let interval = Interval::default();
    assert_eq!(interval.min, 0);
    assert_eq!(interval.max, 0);
}

#[test]
fn test_interval_clamp() {
    let interval = Interval::new(1000, 5000);
    assert_eq!(interval.clamp(0), 1000);
    assert_eq!(interval.clamp(6000), 5000);
    assert_eq!(interval.clamp(2500), 2500);
}

#[test]
fn test_interval_expand() {
    let interval = Interval::new(1000, 5000);
    let wide = interval.expand(2000);
    assert_eq!(wide.min, 0);
    assert_eq!(wide.max, 6000);
}

#[test]
fn test_color_new() {
    let c = Color::new(100, 200, 300);
    assert_eq!(c.r, 100);
    assert_eq!(c.g, 200);
    assert_eq!(c.b, 300);
}

#[test]
fn test_color_equality() {
    let c1 = Color::new(100, 200, 300);
    let c2 = Color::new(100, 200, 300);
    let c3 = Color::new(300, 200, 100);
    assert_eq!(c1, c2);
    assert_ne!(c1, c3);
}

#[test]
fn test_color_add() {
    let c1 = Color::new(100, 200, 300);
    let c2 = Color::new(200, 300, 400);
    let result = c1.add(&c2);
    assert_eq!(result.r, 300);
    assert_eq!(result.g, 500);
    assert_eq!(result.b, 700);
}

#[test]
fn test_color_add_assign() {
    let mut c1 = Color::new(100, 200, 300);
    let c2 = Color::new(200, 300, 400);
    c1.add_assign(&c2);
    assert_eq!(c1.r, 300);
    assert_eq!(c1.g, 500);
    assert_eq!(c1.b, 700);
}

#[test]
fn test_color_mul_scalar() {
    let c = Color::new(100, 200, 300);
    let result = c.mul_scalar(2000);
    assert_eq!(result, Color::new(200, 400, 600));
}

#[test]
fn test_color_mul_assign_scalar() {
    let mut c = Color::new(100, 200, 300);
    c.mul_assign(2000);
    assert_eq!(c, Color::new(200, 400, 600));
}

#[test]
fn test_write_color_bytes() {
    // Gamma maps 0.5 to its square root 0.707, then 256 * 707 / 1000 == 180.
    let c1 = Color::new(0, 500, 1000);
    let (r, g, b) = c1.write_color();
    assert_eq!(format!("{} {} {}", r, g, b), "0 180 255");
    // Components beyond the unit range clamp at the byte limits.
    let c2 = Color::new(1500, 500, 2000);
    assert_eq!(c2.write_color(), (255, 180, 255));
    let c3 = Color::new(-500, 500, -1000);
    assert_eq!(c3.write_color(), (0, 180, 0));
}

#[test]
fn test_linear_to_gamma() {
    assert_eq!(Color::linear_to_gamma(1000), 1000);
    assert_eq!(Color::linear_to_gamma(500), 707);
    assert_eq!(Color::linear_to_gamma(0), 0);
    assert_eq!(Color::linear_to_gamma(-100), 0);
}
