//! The recursive radiance estimator.

use crate::bvh::all_no_graze;
use crate::bvh::Bvh;
use crate::color::Color;
use crate::fixed::COORD_LIMIT;
use crate::fixed::SCALE;
use crate::fixed::T_LIMIT;
use crate::hittable_list::all_time_ok;
use crate::hittable_list::hits_nothing;
use crate::hittable_list::is_record_of;
use crate::material::attenuation_spec;
use crate::sphere::SphereType;
use crate::interval::Interval;
use crate::ray::Ray;
use crate::vec3::unit_spec;
use vstd::prelude::*;

verus! {

/// Acceptance floor for intersection parameters: one grid unit, not zero,
/// so a scattered ray cannot re-hit its own surface at the origin.
pub const RAY_T_MIN: i64 = 1;

/// The background: a vertical gradient from white to sky blue by the unit
/// direction's height, with the grid roundings written out.
pub open spec fn background_spec(ray: Ray) -> Color {
    let s = SCALE as int;
    let u = unit_spec(ray.direction);
    let t = (u.y + s) / 2;
    Color {
        r: (s * (s - t) / s + 500 * t / s) as i64,
        g: (s * (s - t) / s + 700 * t / s) as i64,
        b: (s * (s - t) / s + 1000 * t / s) as i64,
    }
}

/// A hit witness for the attenuation factorization: object `i` is hit, and
/// the color is its material's attenuation times some valid color, on the
/// grid.
pub open spec fn attenuated_witness(
    c: Color,
    objs: Seq<SphereType>,
    ray: Ray,
    i: int,
    inner: Color,
) -> bool {
    let s = SCALE as int;
    &&& 0 <= i < objs.len()
    &&& objs[i].hit_t(ray, RAY_T_MIN as int, T_LIMIT as int) is Some
    &&& inner.valid()
    &&& {
        let t = objs[i].hit_t(ray, RAY_T_MIN as int, T_LIMIT as int)->Some_0;
        let att = attenuation_spec(objs[i].material_spec(), objs[i].record_spec(ray, t));
        c == (Color {
            r: (inner.r * att.r / s) as i64,
            g: (inner.g * att.g / s) as i64,
            b: (inner.b * att.b / s) as i64,
        })
    }
}

/// On a hit, the result factors through the hit object's attenuation.
pub open spec fn attenuated_result(c: Color, objs: Seq<SphereType>, ray: Ray) -> bool {
    exists|i: int, inner: Color| #[trigger] attenuated_witness(c, objs, ray, i, inner)
}

/// The color seen along a ray: black once the bounce budget is exhausted;
/// the background where nothing is hit; otherwise the scattered color
/// attenuated by the surface. A scattered direction that leaves the
/// representable range counts as absorbed.
pub fn ray_color(ray: &Ray, depth: u32, world: &Bvh) -> (c: Color)
    requires
        world.wf(),
        ray.wf(),
        !ray.direction.is_zero(),
        all_time_ok(world.objects(), ray.time as int),
    ensures
        c.valid(),
        depth == 0 ==> c == (Color { r: 0, g: 0, b: 0 }),
        depth > 0 && all_no_graze(world.objects(), *ray) && hits_nothing(
            world.objects(),
            *ray,
            RAY_T_MIN as int,
            T_LIMIT as int,
        ) ==> c == background_spec(*ray),
        depth > 0 && all_no_graze(world.objects(), *ray) && !hits_nothing(
            world.objects(),
            *ray,
            RAY_T_MIN as int,
            T_LIMIT as int,
        ) ==> attenuated_result(c, world.objects(), *ray),
    decreases depth,
{
    if depth == 0 {
        return Color { r: 0, g: 0, b: 0 };
    }
    let hit = world.hit(ray, Interval { min: RAY_T_MIN, max: T_LIMIT });
    match hit {
        Some(hit_record) => {
            proof {
                crate::bvh::lemma_node_objs_wf(world.tree);
                let w = choose|i: int|
                    0 <= i < world.objects().len() && (#[trigger] world.objects()[i].hit_t(
                        *ray,
                        RAY_T_MIN as int,
                        T_LIMIT as int,
                    )) == Some(hit_record.t as int) && hit_record == world.objects()[i].record_spec(
                        *ray,
                        hit_record.t as int,
                    );
                assert(world.objects()[w].wf());
                assert(world.objects()[w].material_spec().wf());
            }
            match &hit_record.material {
                Some(material) => {
                    let (attenuation, scatter) = material.scatter(ray, &hit_record);
                    let d = scatter.direction;
                    if d.x < -COORD_LIMIT || d.x > COORD_LIMIT || d.y < -COORD_LIMIT || d.y
                        > COORD_LIMIT || d.z < -COORD_LIMIT || d.z > COORD_LIMIT || (d.x == 0 && d.y
                        == 0 && d.z == 0) {
                        proof {
                            lemma_black_factors(world.objects(), *ray, hit_record);
                        }
                        return Color { r: 0, g: 0, b: 0 };
                    }
                    let inner = ray_color(&scatter, depth - 1, world);
                    let c = inner.mul(&attenuation);
                    proof {
                        lemma_attenuated_valid(inner, attenuation);
                        let w = choose|i: int|
                            0 <= i < world.objects().len() && (#[trigger] world.objects()[i].hit_t(
                                *ray,
                                RAY_T_MIN as int,
                                T_LIMIT as int,
                            )) == Some(hit_record.t as int) && hit_record == world.objects()[
                                i
                            ].record_spec(*ray, hit_record.t as int);
                        assert(attenuated_witness(c, world.objects(), *ray, w, inner));
                    }
                    c
                },
                None => {
                    proof {
                        lemma_black_factors(world.objects(), *ray, hit_record);
                    }
                    Color { r: 0, g: 0, b: 0 }
                },
            }
        },
        None => background(ray),
    }
}

/// Black factors through any attenuation: it is the attenuated image of
/// black itself.
proof fn lemma_black_factors(objs: Seq<SphereType>, ray: Ray, rec: crate::hittable::HitRecord)
    requires
        is_record_of(objs, ray, RAY_T_MIN as int, T_LIMIT as int, rec),
    ensures
        attenuated_result(Color { r: 0, g: 0, b: 0 }, objs, ray),
{
    let w = choose|i: int|
        0 <= i < objs.len() && (#[trigger] objs[i].hit_t(ray, RAY_T_MIN as int, T_LIMIT as int))
            == Some(rec.t as int) && rec == objs[i].record_spec(ray, rec.t as int);
    let t = objs[w].hit_t(ray, RAY_T_MIN as int, T_LIMIT as int)->Some_0;
    let att = attenuation_spec(objs[w].material_spec(), objs[w].record_spec(ray, t));
    assert(0 * att.r == 0 && 0 * att.g == 0 && 0 * att.b == 0) by (nonlinear_arith);
    vstd::arithmetic::div_mod::lemma_fundamental_div_mod_converse(0, SCALE as int, 0, 0);
    assert(attenuated_witness(Color { r: 0, g: 0, b: 0 }, objs, ray, w, Color { r: 0, g: 0, b: 0 }));
}

/// A product of two valid colors is valid.
proof fn lemma_attenuated_valid(a: Color, b: Color)
    requires
        a.valid(),
        b.valid(),
    ensures
        ({
            let c = Color {
                r: (a.r * b.r / (SCALE as int)) as i64,
                g: (a.g * b.g / (SCALE as int)) as i64,
                b: (a.b * b.b / (SCALE as int)) as i64,
            };
            c.valid()
        }),
{
    crate::fixed::lemma_abs_mul_bound(a.r as int, b.r as int, 1000, 1000);
    crate::fixed::lemma_abs_mul_bound(a.g as int, b.g as int, 1000, 1000);
    crate::fixed::lemma_abs_mul_bound(a.b as int, b.b as int, 1000, 1000);
    crate::fixed::lemma_div_scaled_bound(a.r * b.r, 1000);
    crate::fixed::lemma_div_scaled_bound(a.g * b.g, 1000);
    crate::fixed::lemma_div_scaled_bound(a.b * b.b, 1000);
    assert(a.r * b.r >= 0 && a.g * b.g >= 0 && a.b * b.b >= 0) by (nonlinear_arith)
        requires
            a.r >= 0,
            a.g >= 0,
            a.b >= 0,
            b.r >= 0,
            b.g >= 0,
            b.b >= 0,
    ;
    vstd::arithmetic::div_mod::lemma_div_pos_is_pos(a.r * b.r, SCALE as int);
    vstd::arithmetic::div_mod::lemma_div_pos_is_pos(a.g * b.g, SCALE as int);
    vstd::arithmetic::div_mod::lemma_div_pos_is_pos(a.b * b.b, SCALE as int);
}

/// The background gradient, evaluated.
fn background(ray: &Ray) -> (c: Color)
    requires
        ray.wf(),
    ensures
        c == background_spec(*ray),
        c.valid(),
{
    let u = ray.direction.unit();
    let t = crate::fixed::div_floor((u.y + SCALE) as i128, 2) as i64;
    proof {
        assert(0 <= t <= SCALE);
    }
    let r = blend(t, 500);
    let g = blend(t, 700);
    let b = blend(t, 1000);
    Color { r, g, b }
}

/// One component of the gradient: white faded out by `t`, the sky color
/// faded in.
fn blend(t: i64, sky: i64) -> (r: i64)
    requires
        0 <= t <= SCALE,
        0 <= sky <= SCALE,
    ensures
        r == (SCALE as int) * (SCALE - t) / (SCALE as int) + sky * t / (SCALE as int),
        0 <= r <= SCALE,
{
    let w = crate::fixed::fx_mul(SCALE, SCALE - t);
    let k = crate::fixed::fx_mul(sky, t);
    proof {
        vstd::arithmetic::div_mod::lemma_div_multiples_vanish(
            (SCALE - t) as int,
            SCALE as int,
        );
        assert((SCALE as int) * (SCALE - t) / (SCALE as int) == SCALE - t);
        assert(sky * t >= 0 && sky * t <= 1000 * t) by (nonlinear_arith)
            requires
                0 <= sky <= 1000,
                t >= 0,
        ;
        crate::fixed::lemma_div_le(sky * t, 1000, t as int);
        vstd::arithmetic::div_mod::lemma_div_pos_is_pos(sky * t, SCALE as int);
    }
    w + k
}

} // verus!
