//! A ray-tracing core verified end to end: an interval/box algebra, exact
//! fixed-point sphere intersection, a bounding volume hierarchy proved to
//! return the brute-force closest hit, materials, and the recursive
//! radiance estimator. One raw unit of every scalar is a thousandth.

pub mod aabb;
pub mod bvh;
pub mod camera;
pub mod color;
pub mod fixed;
pub mod hittable;
pub mod hittable_list;
pub mod interval;
pub mod material;
pub mod point3;
pub mod ray;
pub mod scenes;
pub mod sphere;
pub mod texture;
pub mod utilities;
pub mod vec3;
