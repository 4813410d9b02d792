// Spheres, surface coordinates, textures and materials.

use raytracer::color::Color;
use raytracer::hittable::HitRecord;
use raytracer::interval::Interval;
use raytracer::material::Dielectric;
use raytracer::material::Lambertian;
use raytracer::material::Material;
use raytracer::material::Metal;
use raytracer::material::TestMaterial;
use raytracer::point3::Point3;
use raytracer::ray::Ray;
use raytracer::sphere::get_sphere_uv;
use raytracer::sphere::Sphere;
use raytracer::texture::SolidColor;
use raytracer::texture::TextureEnum;
use raytracer::vec3::Vec3;

const T_MAX: i64 = 1_000_000_000_000;

fn test_material() -> Material {
    TestMaterial::new()
}

fn hit_record_for(position: Point3, normal: Vec3, material: Option<Material>) -> HitRecord {
    HitRecord { position, normal, t: 1000, u: 0, v: 0, front_face: true, material }
}

#[test]
fn test_sphere_hit_direct_hit() {
    // Unit sphere at the origin, ray from z = -5 along +z.
    let sphere = Sphere::new(Point3::new(0, 0, 0), 1000, test_material());
    let ray = Ray::new(Point3::new(0, 0, -5000), Vec3::new(0, 0, 1000), 0);
    let hit_record = sphere.hit(&ray, Interval::new(1, T_MAX));
    assert!(hit_record.is_some());
    let hit = hit_record.unwrap();
    // The hit is at t = 4, position (0, 0, -1), outward normal (0, 0, -1).
    assert_eq!(hit.t, 4000);
    assert_eq!(hit.position.x(), 0);
    assert_eq!(hit.position.y(), 0);
    assert_eq!(hit.position.z(), -1000);
    assert_eq!(hit.normal.x(), 0);
    assert_eq!(hit.normal.y(), 0);
    assert_eq!(hit.normal.z(), -1000);
    assert!(hit.front_face);
}

#[test]
fn test_sphere_hit_tangent() {
    let sphere = Sphere::new(Point3::new(0, 0, 0), 1000, test_material());
    let ray = Ray::new(Point3::new(0, 1000, -5000), Vec3::new(0, 0, 1000), 0);
    let hit_record = sphere.hit(&ray, Interval::new(1, T_MAX));
    assert!(hit_record.is_some());
    let hit = hit_record.unwrap();
    assert_eq!(hit.position.y(), 1000);
}

#[test]
fn test_sphere_hit_miss() {
    let sphere = Sphere::new(Point3::new(0, 0, 0), 1000, test_material());
    let ray = Ray::new(Point3::new(0, 2000, -5000), Vec3::new(0, 0, 1000), 0);
    assert!(sphere.hit(&ray, Interval::new(1, T_MAX)).is_none());
}

#[test]
fn test_sphere_hit_from_inside() {
    let sphere = Sphere::new(Point3::new(0, 0, 0), 1000, test_material());
    let ray = Ray::new(Point3::new(0, 0, 0), Vec3::new(0, 0, 1000), 0);
    let hit_record = sphere.hit(&ray, Interval::new(1, T_MAX));
    assert!(hit_record.is_some());
    assert_eq!(hit_record.unwrap().t, 1000);
}

#[test]
fn test_sphere_hit_behind_ray() {
    let sphere = Sphere::new(Point3::new(0, 0, 5000), 1000, test_material());
    let ray = Ray::new(Point3::new(0, 0, 0), Vec3::new(0, 0, -1000), 0);
    assert!(sphere.hit(&ray, Interval::new(1, T_MAX)).is_none());
}

#[test]
fn test_sphere_hit_t_min_max() {
    let sphere = Sphere::new(Point3::new(0, 0, 0), 1000, test_material());
    let ray = Ray::new(Point3::new(0, 0, -5000), Vec3::new(0, 0, 1000), 0);
    // The ray crosses at t = 4 (front) and t = 6 (back).
    let hit_record = sphere.hit(&ray, Interval::new(5000, T_MAX));
    assert!(hit_record.is_some());
    assert_eq!(hit_record.unwrap().t, 6000);
    assert!(sphere.hit(&ray, Interval::new(1, 3000)).is_none());
    assert!(sphere.hit(&ray, Interval::new(7000, T_MAX)).is_none());
}

#[test]
fn test_get_sphere_uv() {
    let test_cases = vec![
        (Vec3::new(1000, 0, 0), (500, 500)),
        (Vec3::new(-1000, 0, 0), (0, 500)),
        (Vec3::new(0, 1000, 0), (500, 1000)),
        (Vec3::new(0, -1000, 0), (500, 0)),
        (Vec3::new(0, 0, 1000), (250, 500)),
        (Vec3::new(0, 0, -1000), (750, 500)),
    ];
    for (point, expected) in test_cases {
        let (u, v) = get_sphere_uv(point);
        assert_eq!(u, expected.0, "U coordinate mismatch for point {:?}", point);
        assert_eq!(v, expected.1, "V coordinate mismatch for point {:?}", point);
    }
}

#[test]
fn test_get_sphere_uv_normalized() {
    let (u, v) = get_sphere_uv(Vec3::new(2000, 0, 0));
    assert_eq!(u, 500);
    assert_eq!(v, 500);
}

#[test]
fn test_get_sphere_uv_range() {
    let test_points = vec![
        Vec3::new(1000, 0, 0),
        Vec3::new(-1000, 0, 0),
        Vec3::new(0, 1000, 0),
        Vec3::new(0, -1000, 0),
        Vec3::new(0, 0, 1000),
        Vec3::new(0, 0, -1000),
        Vec3::new(500, 500, 500),
        Vec3::new(-500, -500, -500),
    ];
    for point in test_points {
        let (u, v) = get_sphere_uv(point);
        assert!(u >= 0 && u <= 1000, "U coordinate out of range: {}", u);
        assert!(v >= 0 && v <= 1000, "V coordinate out of range: {}", v);
    }
}

#[test]
fn test_solid_color_texture() {
    let color = Color::new(500, 300, 100);
    let texture = SolidColor::new(color);
    let point = Point3::new(1000, 2000, 3000);
    assert_eq!(texture.value(0, 0, &point), color);
    assert_eq!(texture.value(500, 500, &point), color);
    assert_eq!(texture.value(1000, 1000, &point), color);
}

#[test]
fn test_checker_texture_cells() {
    let odd_color = Color::new(1000, 1000, 1000);
    let even_color = Color::new(0, 0, 0);
    let odd = Box::new(TextureEnum::SolidColor(SolidColor::new(odd_color)));
    let even = Box::new(TextureEnum::SolidColor(SolidColor::new(even_color)));
    // Cell width is the reciprocal of the scale: 1.0 here, so neighboring
    // unit cells alternate along each axis.
    let texture = TextureEnum::CheckerTexture(raytracer::texture::CheckerTexture::new(
        1000,
        odd,
        even,
    ));
    let c00 = texture.value(0, 0, &Point3::new(500, 500, 500));
    let c10 = texture.value(0, 0, &Point3::new(1500, 500, 500));
    let c11 = texture.value(0, 0, &Point3::new(1500, 1500, 500));
    assert_eq!(c00, odd_color);
    assert_eq!(c10, even_color);
    assert_eq!(c11, odd_color);
}

#[test]
fn test_lambertian_creation() {
    let texture = TextureEnum::SolidColor(SolidColor::new(Color::new(500, 500, 500)));
    let material = Lambertian::new(Box::new(texture));
    match material {
        Material::Lambertian(l) => {
            assert_eq!(l.texture.value(0, 0, &Point3::new(0, 0, 0)), Color::new(500, 500, 500));
        },
        _ => panic!("Expected Lambertian material"),
    }
}

#[test]
fn test_lambertian_scatter() {
    let texture = TextureEnum::SolidColor(SolidColor::new(Color::new(500, 500, 500)));
    let material = Lambertian::new(Box::new(texture));
    let ray = Ray::new(Point3::new(0, 0, 0), Vec3::new(0, 0, 1000), 0);
    let hit_point = Point3::new(0, 0, 1000);
    let normal = Vec3::new(0, 0, -1000);
    let hit_record = hit_record_for(hit_point, normal, None);
    let (scattered_color, scattered_ray) = material.scatter(&ray, &hit_record);
    assert_eq!(scattered_color, Color::new(500, 500, 500));
    assert_eq!(*scattered_ray.origin(), hit_point);
    // The scattered direction stays in the hemisphere of the normal.
    let dot_raw = scattered_ray.direction().dot_wide(&normal);
    assert!(dot_raw > 0, "Expected raw dot product > 0, got: {}", dot_raw);
}

#[test]
fn test_metal_creation() {
    let albedo = Color::new(800, 800, 800);
    match Metal::new(albedo, 500) {
        Material::Metal(m) => {
            assert_eq!(m.albedo, albedo);
            assert_eq!(m.fuzz, 500);
        },
        _ => panic!("Expected Metal material"),
    }
    match Metal::new(albedo, 1500) {
        Material::Metal(m) => {
            assert_eq!(m.fuzz, 1000);
        },
        _ => panic!("Expected Metal material"),
    }
    match Metal::new(albedo, -500) {
        Material::Metal(m) => {
            assert_eq!(m.fuzz, 0);
        },
        _ => panic!("Expected Metal material"),
    }
}

#[test]
fn test_metal_scatter() {
    // Roughness zero: the reflection is exact.
    let albedo = Color::new(800, 800, 800);
    let material = Metal::new(albedo, 0);
    let ray_dir = Vec3::new(1000, -1000, 0).unit();
    let ray = Ray::new(Point3::new(0, 1000, 0), ray_dir, 0);
    let hit_point = Point3::new(1000, 0, 0);
    let normal = Vec3::new(0, 1000, 0);
    let hit_record = hit_record_for(hit_point, normal, None);
    let (scattered_color, scattered_ray) = material.scatter(&ray, &hit_record);
    assert_eq!(scattered_color, albedo);
    assert_eq!(*scattered_ray.origin(), hit_point);
    let expected_direction = ray_dir.reflect(&normal).unit();
    assert_eq!(*scattered_ray.direction(), expected_direction);
    // The incoming grid direction (707, -708, 0) mirrors to (707, 708, 0).
    assert_eq!(ray_dir.reflect(&normal), Vec3::new(707, 708, 0));
}

#[test]
fn test_metal_scatter_with_fuzz() {
    let albedo = Color::new(800, 800, 800);
    let material = Metal::new(albedo, 1000);
    let ray_dir = Vec3::new(1000, -1000, 0).unit();
    let ray = Ray::new(Point3::new(0, 1000, 0), ray_dir, 0);
    let hit_point = Point3::new(1000, 0, 0);
    let normal = Vec3::new(0, 1000, 0);
    let hit_record = hit_record_for(hit_point, normal, None);
    let (scattered_color, scattered_ray) = material.scatter(&ray, &hit_record);
    assert_eq!(scattered_color, albedo);
    assert_eq!(*scattered_ray.origin(), hit_point);
    let direction_length = scattered_ray.direction().length();
    assert!(
        direction_length > 0 && direction_length < 3000,
        "Expected direction length between 0 and 3, got: {}",
        direction_length
    );
}

#[test]
fn test_dielectric_total_internal_reflection() {
    // Incidence at 45 degrees with ratio 1.5: ratio * sin exceeds one, so
    // the scatter always reflects, whatever the random draw.
    let material = Dielectric::new(1500);
    let ray_dir = Vec3::new(1000, -1000, 0).unit();
    let ray = Ray::new(Point3::new(0, 1000, 0), ray_dir, 0);
    let normal = Vec3::new(0, 1000, 0);
    let mut hit_record = hit_record_for(Point3::new(1000, 0, 0), normal, None);
    hit_record.front_face = false;
    let expected = ray_dir.unit().reflect(&normal);
    for _ in 0..32 {
        let (attenuation, scattered) = material.scatter(&ray, &hit_record);
        assert_eq!(attenuation, Color::new(1000, 1000, 1000));
        assert_eq!(*scattered.direction(), expected);
    }
}

#[test]
fn test_test_material_creation() {
    match TestMaterial::new() {
        Material::Test(_) => {},
        _ => panic!("Expected TestMaterial"),
    }
}

#[test]
fn test_test_material_scatter() {
    let material = TestMaterial::new();
    let ray = Ray::new(Point3::new(0, 0, 0), Vec3::new(0, 0, 1000), 0);
    let hit_point = Point3::new(0, 0, 1000);
    let normal = Vec3::new(0, 0, -1000);
    let hit_record = hit_record_for(hit_point, normal, None);
    let (scattered_color, scattered_ray) = material.scatter(&ray, &hit_record);
    assert_eq!(scattered_color, Color::new(1000, 1000, 1000));
    assert_eq!(*scattered_ray.origin(), hit_point);
    assert_eq!(*scattered_ray.direction(), normal);
}

#[test]
fn test_material_enum_scatter() {
    let texture = TextureEnum::SolidColor(SolidColor::new(Color::new(500, 500, 500)));
    let lambertian = Lambertian::new(Box::new(texture));
    let ray = Ray::new(Point3::new(0, 0, 0), Vec3::new(0, 0, 1000), 0);
    let hit_record = hit_record_for(Point3::new(0, 0, 1000), Vec3::new(0, 0, -1000), None);
    let (color, _) = lambertian.scatter(&ray, &hit_record);
    assert_eq!(color, Color::new(500, 500, 500));
}

#[test]
fn test_sphere_round_trip() {
    // A ray from distance d along the line through the center hits at
    // t = d - r going in, and at t = d + r when the near hit is excluded.
    let sphere = Sphere::new(Point3::new(0, 0, 7000), 2000, test_material());
    let ray = Ray::new(Point3::new(0, 0, 0), Vec3::new(0, 0, 1000), 0);
    let near = sphere.hit(&ray, Interval::new(1, T_MAX)).unwrap();
    assert_eq!(near.t, 5000);
    let far = sphere.hit(&ray, Interval::new(near.t, T_MAX)).unwrap();
    assert_eq!(far.t, 9000);
}

#[test]
fn test_set_face_normal() {
    let ray = Ray::new(Point3::new(0, 0, 0), Vec3::new(0, 0, 1000), 0);
    let outward = Vec3::new(0, 0, 1000);
    let mut rec = HitRecord::default();
    rec.set_face_normal(&ray, &outward);
    // The ray runs along the outward normal, so the hit is a back face and
    // the stored normal flips to oppose the ray.
    assert!(!rec.front_face);
    assert_eq!(rec.normal, Vec3::new(0, 0, -1000));
    assert!(ray.direction().dot_wide(&rec.normal) <= 0);
    let mut rec2 = HitRecord::default();
    rec2.set_face_normal(&ray, &Vec3::new(0, 0, -1000));
    assert!(rec2.front_face);
    assert_eq!(rec2.normal, Vec3::new(0, 0, -1000));
    assert!(ray.direction().dot_wide(&rec2.normal) <= 0);
}
