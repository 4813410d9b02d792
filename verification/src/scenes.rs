//! Ready-made scenes: the classic field of small spheres around three big
//! ones, and a pair of checkered globes.

use crate::bvh::Bvh;
use crate::color::Color;
use crate::fixed::fx_mul;
use crate::fixed::lemma_abs_mul_bound;
use crate::fixed::lemma_div_scaled_bound;
use crate::fixed::SCALE;
use crate::hittable_list::all_wf;
use crate::hittable_list::lemma_all_wf_push;
use crate::material::Dielectric;
use crate::material::Material;
use crate::material::Lambertian;
use crate::material::Metal;
use crate::point3::Point3;
use crate::sphere::SphereBuilder;
use crate::sphere::SphereType;
use crate::texture::CheckerTexture;
use crate::texture::SolidColor;
use crate::texture::TextureEnum;
use crate::utilities::random_double;
use crate::vec3::Vec3;
use vstd::pervasive::unreached;
use vstd::prelude::*;

verus! {

/// A random scalar in `[0, 1)` scaled by a factor within `[0, 1]`.
fn scaled_random(factor: i64) -> (r: i64)
    requires
        0 <= factor <= SCALE,
    ensures
        0 <= r <= factor,
{
    let rd = random_double();
    let q = fx_mul(factor, rd);
    proof {
        lemma_abs_mul_bound(factor as int, rd as int, 1000, 1000);
        lemma_div_scaled_bound(factor as int * rd, 1000);
        assert(0 <= factor * rd <= factor * 1000) by (nonlinear_arith)
            requires
                0 <= factor <= 1000,
                0 <= rd < 1000,
        ;
        crate::fixed::lemma_div_le(factor * rd, 1000, factor as int);
        vstd::arithmetic::div_mod::lemma_div_pos_is_pos(factor * rd, SCALE as int);
    }
    q
}

/// Appends a freshly built object; construction above always supplies a
/// material, so the builder cannot have refused.
fn push_object(objects: &mut Vec<SphereType>, built: Option<SphereType>)
    requires
        all_wf(old(objects)@),
        built matches Some(s) && s.wf(),
    ensures
        final(objects)@ == old(objects)@.push(built->Some_0),
        final(objects)@.len() == old(objects)@.len() + 1,
        all_wf(final(objects)@),
{
    let s = match built {
        Some(s) => s,
        None => vstd::pervasive::unreached(),
    };
    proof {
        lemma_all_wf_push(objects@, s);
    }
    objects.push(s);
}

/// The field of bouncing spheres: a checkered ground globe, a grid of
/// small spheres with randomly drawn materials (some drifting upward over
/// the frame's time window), and three large feature spheres.
pub fn bouncing_spheres() -> (world: Bvh)
    ensures
        world.wf(),
        world.objects().len() >= 1,
{
    proof {
        assert(SCALE * SCALE == 1_000_000 && 10 * SCALE == 10_000) by (nonlinear_arith);
    }
    let mut objects: Vec<SphereType> = Vec::new();
    let ground_odd = TextureEnum::SolidColor(SolidColor { color: Color { r: SCALE, g: SCALE, b: SCALE } });
    let ground_even = TextureEnum::SolidColor(SolidColor { color: Color { r: 0, g: 0, b: 0 } });
    proof {
        assert(ground_odd.wf());
        assert(ground_even.wf());
    }
    let ground_checker = TextureEnum::CheckerTexture(
        CheckerTexture { scale: 3000, odd: Box::new(ground_odd), even: Box::new(ground_even) },
    );
    proof {
        assert(ground_checker.wf());
    }
    let ground_mat = Lambertian::new(Box::new(ground_checker));
    proof {
        assert(ground_mat.wf());
    }
    let ground = SphereBuilder::new().center(Point3(Vec3 { x: 0, y: -1_000_000, z: 0 })).radius(
        1_000_000,
    ).material(ground_mat).build();
    push_object(&mut objects, ground);
    let mut i: i64 = -8;
    while i < 8
        invariant
            -8 <= i <= 8,
            all_wf(objects@),
            objects@.len() >= 1,
        decreases 8 - i,
    {
        let mut j: i64 = -8;
        while j < 8
            invariant
                -8 <= i < 8,
                -8 <= j <= 8,
                all_wf(objects@),
                objects@.len() >= 1,
            decreases 8 - j,
        {
            let choose_mat = random_double();
            let center = Point3(
                Vec3 {
                    x: i * SCALE + scaled_random(900),
                    y: 200,
                    z: j * SCALE + scaled_random(900),
                },
            );
            let away = center.sub(&Point3(Vec3 { x: 4000, y: 200, z: 0 }));
            if away.length() > 900 {
                let built: Option<SphereType> = if choose_mat < 800 {
                    let center2 = center.add(&Vec3 { x: 0, y: scaled_random(500), z: 0 });
                    let albedo = Color {
                        r: random_double(),
                        g: random_double(),
                        b: random_double(),
                    };
                    SphereBuilder::new().center(center).center_end(center2).radius(200).material(
                        Lambertian::new(
                            Box::new(TextureEnum::SolidColor(SolidColor { color: albedo })),
                        ),
                    ).time_range(0, SCALE).build()
                } else if choose_mat < 950 {
                    let albedo = Color {
                        r: random_double(),
                        g: random_double(),
                        b: random_double(),
                    };
                    SphereBuilder::new().center(center).radius(200).material(
                        Metal::new(albedo, 500),
                    ).build()
                } else {
                    SphereBuilder::new().center(center).radius(200).material(
                        Dielectric::new(1500),
                    ).build()
                };
                push_object(&mut objects, built);
            }
            j = j + 1;
        }
        i = i + 1;
    }
    let big1 = SphereBuilder::new().center(Point3(Vec3 { x: 0, y: SCALE, z: 0 })).radius(
        SCALE,
    ).material(Dielectric::new(1500)).build();
    push_object(&mut objects, big1);
    let big2 = SphereBuilder::new().center(Point3(Vec3 { x: -4000, y: SCALE, z: 0 })).radius(
        SCALE,
    ).material(
        Lambertian::new(
            Box::new(TextureEnum::SolidColor(SolidColor { color: Color { r: 400, g: 200, b: 100 } })),
        ),
    ).build();
    push_object(&mut objects, big2);
    let big3 = SphereBuilder::new().center(Point3(Vec3 { x: 4000, y: SCALE, z: 0 })).radius(
        SCALE,
    ).material(Metal::new(Color { r: 700, g: 600, b: 500 }, 0)).build();
    push_object(&mut objects, big3);
    match Bvh::new(objects) {
        Ok(world) => world,
        Err(_) => unreached(),
    }
}

/// One of the two checkered globes: a still Lambertian sphere of radius 10
/// on the vertical axis at the given height, textured with the shared
/// checker of scale 3 and the two scene colors.
pub open spec fn checkered_globe(obj: SphereType, y: int) -> bool {
    &&& obj matches SphereType::Static(s)
    &&& s.center.0.x == 0 && s.center.0.y == y && s.center.0.z == 0
    &&& s.radius == 10_000
    &&& s.material matches Material::Lambertian(l)
    &&& (*l.texture) matches TextureEnum::CheckerTexture(c)
    &&& c.scale == 3000
    &&& (*c.odd) matches TextureEnum::SolidColor(o)
    &&& o.color == (Color { r: 200, g: 300, b: 100 })
    &&& (*c.even) matches TextureEnum::SolidColor(e)
    &&& e.color == (Color { r: 900, g: 900, b: 900 })
}

/// Two large checkered globes facing each other.
pub fn checkered_spheres() -> (world: Bvh)
    ensures
        world.wf(),
        world.objects().len() == 2,
        exists|i: int| 0 <= i < 2 && checkered_globe(#[trigger] world.objects()[i], -10_000),
        exists|i: int| 0 <= i < 2 && checkered_globe(#[trigger] world.objects()[i], 10_000),
        forall|i: int|
            0 <= i < 2 ==> checkered_globe(#[trigger] world.objects()[i], -10_000)
                || checkered_globe(world.objects()[i], 10_000),
{
    proof {
        assert(SCALE * SCALE == 1_000_000 && 10 * SCALE == 10_000) by (nonlinear_arith);
    }
    let mut objects: Vec<SphereType> = Vec::new();
    let checker = CheckerTexture {
        scale: 3000,
        odd: Box::new(TextureEnum::SolidColor(SolidColor { color: Color { r: 200, g: 300, b: 100 } })),
        even: Box::new(TextureEnum::SolidColor(SolidColor { color: Color { r: 900, g: 900, b: 900 } })),
    };
    proof {
        assert(0 < checker.scale <= SCALE * SCALE);
        assert(checker.odd.wf());
        assert(checker.even.wf());
    }
    let checker2 = checker.clone();
    proof {
        assert(TextureEnum::CheckerTexture(checker2).wf());
    }
    let lower_mat = Lambertian::new(Box::new(TextureEnum::CheckerTexture(checker2)));
    proof {
        assert(lower_mat.wf());
    }
    let lower = SphereBuilder::new().center(Point3(Vec3 { x: 0, y: -10_000, z: 0 })).radius(
        10_000,
    ).material(lower_mat).build();
    proof {
        assert(lower matches Some(st) && st.wf());
    }
    push_object(&mut objects, lower);
    let upper = SphereBuilder::new().center(Point3(Vec3 { x: 0, y: 10_000, z: 0 })).radius(
        10_000,
    ).material(Lambertian::new(Box::new(TextureEnum::CheckerTexture(checker)))).build();
    let ghost lower_obj = objects@[0];
    push_object(&mut objects, upper);
    let ghost upper_obj = objects@[1];
    proof {
        assert(checkered_globe(lower_obj, -10_000));
        assert(checkered_globe(upper_obj, 10_000));
    }
    let ghost built = objects@;
    match Bvh::new(objects) {
        Ok(world) => {
            proof {
                lemma_two_globes(world.objects(), built, lower_obj, upper_obj);
            }
            world
        },
        Err(_) => unreached(),
    }
}

/// A two-object scene rearranged by construction still holds exactly its
/// two objects.
proof fn lemma_two_globes(
    out: Seq<SphereType>,
    built: Seq<SphereType>,
    a: SphereType,
    b: SphereType,
)
    requires
        out.to_multiset() == built.to_multiset(),
        built.len() == 2,
        built[0] == a,
        built[1] == b,
        out.len() == 2,
    ensures
        exists|i: int| 0 <= i < 2 && #[trigger] out[i] == a,
        exists|i: int| 0 <= i < 2 && #[trigger] out[i] == b,
        forall|i: int| 0 <= i < 2 ==> #[trigger] out[i] == a || out[i] == b,
{
    broadcast use vstd::seq_lib::group_to_multiset_ensures;

    assert(built.contains(a));
    assert(built.to_multiset().count(a) > 0);
    assert(out.to_multiset().count(a) > 0);
    assert(out.contains(a));
    let wa = choose|i: int| 0 <= i < out.len() && out[i] == a;
    assert(out[wa] == a);
    assert(built.contains(b));
    assert(built.to_multiset().count(b) > 0);
    assert(out.to_multiset().count(b) > 0);
    assert(out.contains(b));
    let wb = choose|i: int| 0 <= i < out.len() && out[i] == b;
    assert(out[wb] == b);
    assert forall|i: int| 0 <= i < 2 implies #[trigger] out[i] == a || out[i] == b by {
        assert(out.contains(out[i]));
        assert(out.to_multiset().count(out[i]) > 0);
        assert(built.to_multiset().count(out[i]) > 0);
        assert(built.contains(out[i]));
        let j = choose|j: int| 0 <= j < built.len() && built[j] == out[i];
        assert(j == 0 || j == 1);
    }
}

} // verus!
