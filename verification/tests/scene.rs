// Boxes, the brute-force list, the tree, and the radiance estimator.

use raytracer::aabb::Aabb;
use raytracer::bvh::Bvh;
use raytracer::bvh::BvhError;
use raytracer::camera::ray_color;
use raytracer::color::Color;
use raytracer::hittable_list::HittableList;
use raytracer::interval::Interval;
use raytracer::material::Lambertian;
use raytracer::material::Material;
use raytracer::material::TestMaterial;
use raytracer::point3::Point3;
use raytracer::ray::Ray;
use raytracer::scenes::bouncing_spheres;
use raytracer::scenes::checkered_spheres;
use raytracer::sphere::Sphere;
use raytracer::sphere::SphereBuilder;
use raytracer::sphere::SphereType;
use raytracer::texture::SolidColor;
use raytracer::texture::TextureEnum;
use raytracer::vec3::Vec3;

const T_MAX: i64 = 1_000_000_000_000;

fn test_material() -> Material {
    Lambertian::new(Box::new(TextureEnum::SolidColor(SolidColor::new(Color::new(800, 300, 300)))))
}

fn unit_cube() -> Aabb {
    Aabb::new(Interval::new(0, 1000), Interval::new(0, 1000), Interval::new(0, 1000))
}

#[test]
fn aabb_test_default() {
    let aabb = Aabb::default();
    assert_eq!(aabb.x, Interval::new(0, 0));
    assert_eq!(aabb.y, Interval::new(0, 0));
    assert_eq!(aabb.z, Interval::new(0, 0));
}

#[test]
fn aabb_test_new() {
    let x = Interval::new(1000, 2000);
    let y = Interval::new(3000, 4000);
    let z = Interval::new(5000, 6000);
    let aabb = Aabb::new(x, y, z);
    assert_eq!(aabb.x, x);
    assert_eq!(aabb.y, y);
    assert_eq!(aabb.z, z);
}

#[test]
fn test_axis_interval() {
    let aabb = Aabb::new(
        Interval::new(1000, 2000),
        Interval::new(3000, 4000),
        Interval::new(5000, 6000),
    );
    assert_eq!(aabb.axis_interval(0), Interval::new(1000, 2000));
    assert_eq!(aabb.axis_interval(1), Interval::new(3000, 4000));
    assert_eq!(aabb.axis_interval(2), Interval::new(5000, 6000));
}

#[test]
fn test_surrounding() {
    let a = Aabb::new(Interval::new(0, 1000), Interval::new(0, 1000), Interval::new(0, 1000));
    let b = Aabb::new(
        Interval::new(-500, 500),
        Interval::new(500, 2000),
        Interval::new(100, 900),
    );
    let u = Aabb::surrounding(&a, &b);
    assert_eq!(u.x, Interval::new(-500, 1000));
    assert_eq!(u.y, Interval::new(0, 2000));
    assert_eq!(u.z, Interval::new(0, 1000));
}

#[test]
fn test_hit_inside_box() {
    let aabb = unit_cube();
    let ray = Ray::new(Point3::new(500, 500, 500), Vec3::new(0, 0, 1000), 0);
    assert!(aabb.hit(&ray, Interval::new(1, T_MAX)));
}

#[test]
fn test_hit_from_outside() {
    let aabb = unit_cube();
    let ray = Ray::new(Point3::new(-1000, 500, 500), Vec3::new(1000, 0, 0), 0);
    assert!(aabb.hit(&ray, Interval::new(1, T_MAX)));
}

#[test]
fn test_miss() {
    let aabb = unit_cube();
    let ray = Ray::new(
        Point3::new(-1000, -1000, -1000),
        Vec3::new(-1000, -1000, -1000),
        0,
    );
    assert!(!aabb.hit(&ray, Interval::new(1, T_MAX)));
}

#[test]
fn test_hit_with_t_interval() {
    let aabb = unit_cube();
    let ray = Ray::new(Point3::new(-1000, 500, 500), Vec3::new(1000, 0, 0), 0);
    // The box entry is at t = 1, so a range around it accepts ...
    assert!(aabb.hit(&ray, Interval::new(500, 2000)));
    // ... and a range past the box rejects.
    assert!(!aabb.hit(&ray, Interval::new(2000, 3000)));
}

#[test]
fn test_hit_negative_direction() {
    let aabb = unit_cube();
    let ray = Ray::new(Point3::new(2000, 2000, 2000), Vec3::new(-1000, -1000, -1000), 0);
    assert!(aabb.hit(&ray, Interval::new(1, T_MAX)));
}

#[test]
fn test_hit_parallel_to_axis() {
    let aabb = unit_cube();
    let ray1 = Ray::new(Point3::new(-1000, 500, 500), Vec3::new(1000, 0, 0), 0);
    assert!(aabb.hit(&ray1, Interval::new(1, T_MAX)));
    let ray2 = Ray::new(Point3::new(500, -1000, 500), Vec3::new(0, 1000, 0), 0);
    assert!(aabb.hit(&ray2, Interval::new(1, T_MAX)));
    let ray3 = Ray::new(Point3::new(500, 500, -1000), Vec3::new(0, 0, 1000), 0);
    assert!(aabb.hit(&ray3, Interval::new(1, T_MAX)));
}

#[test]
fn test_slab_mirror_symmetry() {
    // Reversing the direction sign on an axis while mirroring the origin
    // through that slab's center (so the min/max pairing swaps) accepts
    // the same parameter ranges.
    let aabb = unit_cube();
    let ray = Ray::new(Point3::new(-1000, 500, 500), Vec3::new(1000, 0, 0), 0);
    // x slab [0, 1]: the origin -1 mirrors to 0 + 1 - (-1) == 2.
    let mirrored_ray = Ray::new(Point3::new(2000, 500, 500), Vec3::new(-1000, 0, 0), 0);
    for (lo, hi) in [(1i64, T_MAX), (500, 2000), (2000, 3000)] {
        assert_eq!(
            aabb.hit(&ray, Interval::new(lo, hi)),
            aabb.hit(&mirrored_ray, Interval::new(lo, hi))
        );
    }
}

#[test]
fn test_hittable_list_empty() {
    let list = HittableList::new();
    let ray = Ray::new(Point3::new(0, 0, 0), Vec3::new(0, 0, 1000), 0);
    assert!(list.hit(&ray, Interval::new(1, T_MAX)).is_none());
}

#[test]
fn test_hittable_list_single_object() {
    let mut list = HittableList::new();
    list.add(SphereType::Static(Sphere::new(Point3::new(0, 0, 5000), 1000, test_material())));
    let ray = Ray::new(Point3::new(0, 0, 0), Vec3::new(0, 0, 1000), 0);
    let hit_record = list.hit(&ray, Interval::new(1, T_MAX));
    assert!(hit_record.is_some());
    let hit = hit_record.unwrap();
    assert_eq!(hit.t, 4000);
    assert_eq!(hit.position.x(), 0);
    assert_eq!(hit.position.y(), 0);
    assert_eq!(hit.position.z(), 4000);
}

#[test]
fn test_hittable_list_multiple_objects_closest_first() {
    let mut list = HittableList::new();
    list.add(SphereType::Static(Sphere::new(Point3::new(0, 0, 3000), 1000, test_material())));
    list.add(SphereType::Static(Sphere::new(Point3::new(0, 0, 8000), 1000, test_material())));
    let ray = Ray::new(Point3::new(0, 0, 0), Vec3::new(0, 0, 1000), 0);
    let hit = list.hit(&ray, Interval::new(1, T_MAX)).unwrap();
    assert_eq!(hit.t, 2000);
    assert_eq!(hit.position.z(), 2000);
}

#[test]
fn test_hittable_list_multiple_objects_closest_last() {
    let mut list = HittableList::new();
    list.add(SphereType::Static(Sphere::new(Point3::new(0, 0, 8000), 1000, test_material())));
    list.add(SphereType::Static(Sphere::new(Point3::new(0, 0, 3000), 1000, test_material())));
    let ray = Ray::new(Point3::new(0, 0, 0), Vec3::new(0, 0, 1000), 0);
    let hit = list.hit(&ray, Interval::new(1, T_MAX)).unwrap();
    assert_eq!(hit.t, 2000);
    assert_eq!(hit.position.z(), 2000);
}

#[test]
fn test_hittable_list_t_min_max() {
    let mut list = HittableList::new();
    list.add(SphereType::Static(Sphere::new(Point3::new(0, 0, 3000), 1000, test_material())));
    list.add(SphereType::Static(Sphere::new(Point3::new(0, 0, 5000), 1000, test_material())));
    let ray = Ray::new(Point3::new(0, 0, 0), Vec3::new(0, 0, 1000), 0);
    // A floor past the near sphere leaves only the far one.
    let hit = list.hit(&ray, Interval::new(3000, T_MAX)).unwrap();
    assert_eq!(hit.t, 4000);
    assert_eq!(hit.position.z(), 4000);
    // A ceiling before both spheres leaves nothing.
    assert!(list.hit(&ray, Interval::new(1, 1000)).is_none());
}

#[test]
fn test_hittable_list_no_hits() {
    let mut list = HittableList::new();
    list.add(SphereType::Static(Sphere::new(Point3::new(2000, 0, 5000), 1000, test_material())));
    list.add(SphereType::Static(Sphere::new(Point3::new(0, 2000, 8000), 1000, test_material())));
    let ray = Ray::new(Point3::new(0, 0, 0), Vec3::new(0, 0, 1000), 0);
    assert!(list.hit(&ray, Interval::new(1, T_MAX)).is_none());
}

fn two_sphere_world() -> Bvh {
    let s1 = SphereBuilder::new()
        .center(Point3::new(0, 0, -1000))
        .radius(500)
        .material(test_material())
        .build()
        .unwrap();
    let s2 = SphereBuilder::new()
        .center(Point3::new(0, -100_500, -1000))
        .radius(100_000)
        .material(test_material())
        .build()
        .unwrap();
    Bvh::new(vec![s1, s2]).unwrap()
}

#[test]
fn test_bvh_construction_and_bbox() {
    let bvh = two_sphere_world();
    let bbox = bvh.bounding_box();
    let min_x = bbox.axis_interval(0).min;
    let max_x = bbox.axis_interval(0).max;
    let min_y = bbox.axis_interval(1).min;
    let max_y = bbox.axis_interval(1).max;
    let min_z = bbox.axis_interval(2).min;
    let max_z = bbox.axis_interval(2).max;
    println!("min_x: {}, max_x: {}", min_x, max_x);
    println!("min_y: {}, max_y: {}", min_y, max_y);
    println!("min_z: {}, max_z: {}", min_z, max_z);
    assert!(min_x <= -100_000 && max_x >= 100_000);
    assert!(min_y <= -100_500 && max_y >= 500);
    assert!(min_z <= -101_000 && max_z >= 0);
}

#[test]
fn test_bvh_hit_miss() {
    let bvh = two_sphere_world();
    // A ray well off to the side meets nothing.
    let ray = Ray::new(Point3::new(2000, 2000, 0), Vec3::new(0, 0, -1000), 0);
    assert!(bvh.hit(&ray, Interval::new(1, T_MAX)).is_none());
}

#[test]
fn test_bvh_hit_detect() {
    let bvh = two_sphere_world();
    let ray = Ray::new(Point3::new(0, 0, 0), Vec3::new(0, 0, -1000), 0);
    let hit = bvh.hit(&ray, Interval::new(1, T_MAX));
    assert!(hit.is_some());
    let rec = hit.unwrap();
    // The near face of the small sphere sits at z = -0.5.
    assert!((rec.position.z() + 1000).abs() < 600);
    assert_eq!(rec.t, 500);
}

#[test]
fn test_bvh_empty_and_single() {
    // An empty list is refused.
    let empty: Vec<SphereType> = vec![];
    match Bvh::new(empty) {
        Err(BvhError::EmptyObjectList) => {},
        _ => panic!("expected the empty-list refusal"),
    }
    // A single sphere gets its own box.
    let s1 = SphereBuilder::new()
        .center(Point3::new(1000, 2000, 3000))
        .radius(1000)
        .material(test_material())
        .build()
        .unwrap();
    let bvh = Bvh::new(vec![s1]).unwrap();
    let bbox = bvh.bounding_box();
    assert_eq!(bbox.axis_interval(0).min, 0);
    assert_eq!(bbox.axis_interval(0).max, 2000);
}

#[test]
fn test_bvh_error_message() {
    assert_eq!(
        BvhError::EmptyObjectList.message(),
        "Cannot create BVH from empty object list"
    );
    assert_eq!(BvhError::MissingBoundingBox.message(), "Object has no bounding box");
}

#[test]
fn test_bvh_matches_brute_force() {
    // The tree's answer equals the flat scan's, ray by ray.
    let centers = [
        (0i64, 0i64, 3000i64),
        (500, 200, 6000),
        (-700, -300, 4000),
        (0, 1500, 8000),
        (200, -100, 2000),
    ];
    let mut objects = Vec::new();
    let mut list = HittableList::new();
    for (x, y, z) in centers {
        let s = Sphere::new(Point3::new(x, y, z), 900, test_material());
        objects.push(SphereType::Static(s.clone()));
        list.add(SphereType::Static(s));
    }
    let bvh = Bvh::new(objects).unwrap();
    let dirs = [
        (0i64, 0i64, 1000i64),
        (100, 50, 1000),
        (-100, -50, 1000),
        (0, 300, 1000),
        (1000, 0, 0),
    ];
    for (dx, dy, dz) in dirs {
        let ray = Ray::new(Point3::new(0, 0, 0), Vec3::new(dx, dy, dz), 0);
        let from_tree = bvh.hit(&ray, Interval::new(1, T_MAX));
        let from_scan = list.hit(&ray, Interval::new(1, T_MAX));
        match (from_tree, from_scan) {
            (None, None) => {},
            (Some(a), Some(b)) => assert_eq!(a.t, b.t),
            _ => panic!("tree and scan disagree on whether the ray hits"),
        }
    }
}

#[test]
fn test_ray_color_depth_zero() {
    let ray = Ray::new(Point3::default(), Vec3::new(1000, 0, 0), 0);
    let sphere = SphereBuilder::new()
        .center(Point3::new(0, 0, -1000))
        .radius(500)
        .material(TestMaterial::new())
        .build()
        .unwrap();
    let world = Bvh::new(vec![sphere]).unwrap();
    let color = ray_color(&ray, 0, &world);
    assert_eq!(color, Color::new(0, 0, 0));
}

#[test]
fn test_ray_color_background() {
    // A miss renders the gradient; a horizontal unit direction blends the
    // two colors evenly.
    let sphere = SphereBuilder::new()
        .center(Point3::new(0, 0, -1000))
        .radius(500)
        .material(TestMaterial::new())
        .build()
        .unwrap();
    let world = Bvh::new(vec![sphere]).unwrap();
    let ray = Ray::new(Point3::new(0, 2000, 0), Vec3::new(1000, 0, 0), 0);
    let color = ray_color(&ray, 5, &world);
    assert_eq!(color, Color::new(750, 850, 1000));
}

#[test]
fn test_checkered_spheres_scene() {
    let world = checkered_spheres();
    let bbox = world.bounding_box();
    assert!(bbox.axis_interval(1).min <= -20_000);
    assert!(bbox.axis_interval(1).max >= 20_000);
    // A ray down the gap axis meets the upper globe.
    let ray = Ray::new(Point3::new(0, 0, 0), Vec3::new(0, 1000, 0), 0);
    let hit = world.hit(&ray, Interval::new(1, T_MAX));
    assert!(hit.is_some());
}

#[test]
fn test_bouncing_spheres_scene() {
    let world = bouncing_spheres();
    // The ground globe alone spans a wide box.
    let bbox = world.bounding_box();
    assert!(bbox.axis_interval(1).min <= -1_000_000);
    // The estimator runs to completion on a camera-like ray.
    let ray = Ray::new(Point3::new(13_000, 2000, 3000), Vec3::new(-1000, -100, -230), 500);
    let color = ray_color(&ray, 8, &world);
    assert!(color.r >= 0 && color.r <= 1000);
    assert!(color.g >= 0 && color.g <= 1000);
    assert!(color.b >= 0 && color.b <= 1000);
}
