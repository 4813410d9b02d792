//! Optical materials and their scattering behaviour.

use crate::color::Color;
use crate::fixed::div_floor;
use crate::fixed::fx_div;
use crate::fixed::fx_mul;
use crate::fixed::isqrt;
use crate::fixed::mul_wide;
use crate::fixed::sqrt_floor;
use crate::fixed::SCALE;
use crate::hittable::HitRecord;
use crate::ray::Ray;
use crate::texture::TextureEnum;
use crate::utilities::random_double;
use crate::vec3::dot_raw;
use crate::vec3::norm2_raw;
use crate::vec3::reflect_spec;
use crate::vec3::unit_spec;
use crate::vec3::Vec3;
use vstd::prelude::*;

verus! {

/// The closed set of materials of this renderer.
#[derive(Debug)]
pub enum Material {
    /// A diffuse surface colored by a texture.
    Lambertian(Lambertian),
    /// A specular surface with optional roughness.
    Metal(Metal),
    /// A transparent, refractive surface.
    Dielectric(Dielectric),
    /// A diagnostic surface: always scatters along the normal, full white.
    Test(TestMaterial),
}

#[derive(Debug)]
pub struct Lambertian {
    pub texture: Box<TextureEnum>,
}

#[derive(Clone, Copy, Debug, PartialEq, Eq, Structural)]
pub struct Metal {
    pub albedo: Color,
    /// Roughness of the reflection, within `[0, 1]`.
    pub fuzz: i64,
}

#[derive(Clone, Copy, Debug, PartialEq, Eq, Structural)]
pub struct Dielectric {
    pub refraction_index: i64,
}

#[derive(Clone, Copy, Debug, PartialEq, Eq, Structural)]
pub struct TestMaterial;

impl Material {
    /// Texture colors within range, roughness within `[0, 1]`, refraction
    /// index within `[1, 10]`.
    pub open spec fn wf(self) -> bool {
        match self {
            Material::Lambertian(l) => l.texture.wf(),
            Material::Metal(m) => m.albedo.valid() && 0 <= m.fuzz <= SCALE,
            Material::Dielectric(d) => SCALE <= d.refraction_index <= 10 * SCALE,
            Material::Test(_) => true,
        }
    }

    /// How a ray scatters at a hit point with this material: the attenuation
    /// color and the outgoing ray.
    pub fn scatter(&self, ray: &Ray, hit_record: &HitRecord) -> (r: (Color, Ray))
        requires
            self.wf(),
            ray.wf(),
            hit_record.wf(),
        ensures
            r.1.origin == hit_record.position,
            r.1.time == ray.time,
            r.0.valid(),
            self is Test ==> r.0 == (Color { r: SCALE, g: SCALE, b: SCALE }) && r.1.direction
                == hit_record.normal,
            self matches Material::Metal(m) ==> r.0 == m.albedo && (m.fuzz == 0 ==> r.1.direction
                == unit_spec(reflect_spec(ray.direction, hit_record.normal))),
            self matches Material::Lambertian(l) ==> r.0 == l.texture.value_spec(
                hit_record.u as int,
                hit_record.v as int,
                hit_record.position,
            ),
            r.0 == attenuation_spec(*self, *hit_record),
            self matches Material::Dielectric(d) ==> r.0 == (Color {
                r: SCALE,
                g: SCALE,
                b: SCALE,
            }) && (dielectric_total_internal_reflection(
                ray.direction,
                hit_record.normal,
                hit_record.front_face,
                d.refraction_index as int,
            ) ==> r.1.direction == reflect_spec(
                unit_spec(ray.direction),
                hit_record.normal,
            )),
    {
        match self {
            Material::Lambertian(l) => l.scatter(ray, hit_record),
            Material::Metal(m) => m.scatter(ray, hit_record),
            Material::Dielectric(d) => d.scatter(ray, hit_record),
            Material::Test(t) => t.scatter(ray, hit_record),
        }
    }
}

impl Lambertian {
    /// A diffuse material with the given texture.
    pub fn new(texture: Box<TextureEnum>) -> (r: Material)
        ensures
            r matches Material::Lambertian(l) && l.texture == texture,
    {
        Material::Lambertian(Lambertian { texture })
    }

    /// Diffuse scattering: the outgoing direction is the surface normal
    /// plus a random roughly-unit vector, or the normal itself if that sum
    /// vanishes or leaves the normal's hemisphere (a thin grid artifact);
    /// the attenuation is the texture color at the hit point.
    pub fn scatter(&self, ray: &Ray, hit_record: &HitRecord) -> (r: (Color, Ray))
        requires
            self.texture.wf(),
            ray.wf(),
            hit_record.wf(),
        ensures
            r.1.origin == hit_record.position,
            r.1.time == ray.time,
            r.0 == self.texture.value_spec(
                hit_record.u as int,
                hit_record.v as int,
                hit_record.position,
            ),
            r.0.valid(),
            scattered_diffusely(r.1.direction, hit_record.normal),
            !hit_record.normal.is_zero() ==> dot_raw(r.1.direction, hit_record.normal) > 0,
    {
        let u = Vec3::random_unit();
        let mut scatter_direction = hit_record.normal.add(&u);
        if scatter_direction.near_zero() || scatter_direction.dot_wide(&hit_record.normal) <= 0 {
            scatter_direction = hit_record.normal;
            proof {
                if !hit_record.normal.is_zero() {
                    lemma_self_dot_positive(hit_record.normal);
                }
            }
        }
        let scatter = Ray {
            origin: hit_record.position,
            direction: scatter_direction,
            time: ray.time,
        };
        let attenuation = self.texture.value(hit_record.u, hit_record.v, &hit_record.position);
        proof {
            let s = Vec3 {
                x: (hit_record.normal.x + u.x) as i64,
                y: (hit_record.normal.y + u.y) as i64,
                z: (hit_record.normal.z + u.z) as i64,
            };
            assert(scatter.direction == if s.is_zero() || dot_raw(s, hit_record.normal) <= 0 {
                hit_record.normal
            } else {
                s
            });
            assert(diffuse_direction(scatter.direction, hit_record.normal, u));
            assert(scattered_diffusely(scatter.direction, hit_record.normal));
        }
        (attenuation, scatter)
    }
}

impl Metal {
    /// A specular material; the roughness is clamped into `[0, 1]`.
    pub fn new(albedo: Color, fuzz: i64) -> (r: Material)
        ensures
            r matches Material::Metal(m) && m.albedo == albedo && m.fuzz == clamp_unit(fuzz as int),
    {
        let f: i64 = if fuzz < 0 {
            0
        } else if fuzz > SCALE {
            SCALE
        } else {
            fuzz
        };
        Material::Metal(Metal { albedo, fuzz: f })
    }

    /// Specular scattering: the reflected direction, normalized, then
    /// perturbed by a random roughly-unit vector scaled by the roughness.
    pub fn scatter(&self, ray: &Ray, hit_record: &HitRecord) -> (r: (Color, Ray))
        requires
            0 <= self.fuzz <= SCALE,
            ray.wf(),
            hit_record.wf(),
        ensures
            r.0 == self.albedo,
            r.1.origin == hit_record.position,
            r.1.time == ray.time,
            self.fuzz == 0 ==> r.1.direction == unit_spec(
                reflect_spec(ray.direction, hit_record.normal),
            ),
            scattered_specularly(
                r.1.direction,
                unit_spec(reflect_spec(ray.direction, hit_record.normal)),
                self.fuzz as int,
            ),
            ({
                let b = unit_spec(reflect_spec(ray.direction, hit_record.normal));
                &&& b.x - self.fuzz <= r.1.direction.x <= b.x + self.fuzz
                &&& b.y - self.fuzz <= r.1.direction.y <= b.y + self.fuzz
                &&& b.z - self.fuzz <= r.1.direction.z <= b.z + self.fuzz
            }),
    {
        let reflected = ray.direction.reflect(&hit_record.normal);
        proof {
            let d = dot_raw(ray.direction, hit_record.normal) / (SCALE as int);
            assert(-12_000_000_000 <= dot_raw(ray.direction, hit_record.normal)
                <= 12_000_000_000) by (nonlinear_arith)
                requires
                    -2_000_000 <= ray.direction.x <= 2_000_000,
                    -2_000_000 <= ray.direction.y <= 2_000_000,
                    -2_000_000 <= ray.direction.z <= 2_000_000,
                    -2000 <= hit_record.normal.x <= 2000,
                    -2000 <= hit_record.normal.y <= 2000,
                    -2000 <= hit_record.normal.z <= 2000,
                    dot_raw(ray.direction, hit_record.normal) == ray.direction.x
                        * hit_record.normal.x + ray.direction.y * hit_record.normal.y
                        + ray.direction.z * hit_record.normal.z,
            ;
            crate::fixed::lemma_div_scaled_bound(
                dot_raw(ray.direction, hit_record.normal),
                12_000_000,
            );
            lemma_fx_component_bound(2 * d, hit_record.normal.x as int, 48_000_000, 2000, 96_000_000);
            lemma_fx_component_bound(2 * d, hit_record.normal.y as int, 48_000_000, 2000, 96_000_000);
            lemma_fx_component_bound(2 * d, hit_record.normal.z as int, 48_000_000, 2000, 96_000_000);
        }
        let base = reflected.unit();
        let u = Vec3::random_unit();
        let perturbation = u.scale(self.fuzz);
        proof {
            lemma_fx_component_bound(u.x as int, self.fuzz as int, 1000, 1000, 1000);
            lemma_fx_component_bound(u.y as int, self.fuzz as int, 1000, 1000, 1000);
            lemma_fx_component_bound(u.z as int, self.fuzz as int, 1000, 1000, 1000);
            lemma_fuzz_window(u.x as int, self.fuzz as int);
            lemma_fuzz_window(u.y as int, self.fuzz as int);
            lemma_fuzz_window(u.z as int, self.fuzz as int);
        }
        let direction = base.add(&perturbation);
        let scatter = Ray { origin: hit_record.position, direction, time: ray.time };
        proof {
            assert(fuzzed_direction(
                scatter.direction,
                unit_spec(reflect_spec(ray.direction, hit_record.normal)),
                u,
                self.fuzz as int,
            ));
            assert(scattered_specularly(
                scatter.direction,
                unit_spec(reflect_spec(ray.direction, hit_record.normal)),
                self.fuzz as int,
            ));
            if self.fuzz == 0 {
                assert(u.x * 0 == 0 && u.y * 0 == 0 && u.z * 0 == 0) by (nonlinear_arith);
                vstd::arithmetic::div_mod::lemma_fundamental_div_mod_converse(
                    0,
                    SCALE as int,
                    0,
                    0,
                );
                assert(perturbation.x == 0 && perturbation.y == 0 && perturbation.z == 0);
            }
        }
        (self.albedo, scatter)
    }
}

/// Some unit perturbation yields the diffuse direction.
pub open spec fn scattered_diffusely(dir: Vec3, normal: Vec3) -> bool {
    exists|u: Vec3| #[trigger] diffuse_direction(dir, normal, u)
}

/// Some unit perturbation yields the rough specular direction.
pub open spec fn scattered_specularly(dir: Vec3, base: Vec3, fuzz: int) -> bool {
    exists|u: Vec3| #[trigger] fuzzed_direction(dir, base, u, fuzz)
}

/// The diffuse outgoing direction: the normal displaced by the unit
/// perturbation `u`, or the normal itself where the sum vanishes or, a
/// thin grid artifact, strays out of the normal's hemisphere.
pub open spec fn diffuse_direction(dir: Vec3, normal: Vec3, u: Vec3) -> bool {
    &&& -SCALE <= u.x <= SCALE
    &&& -SCALE <= u.y <= SCALE
    &&& -SCALE <= u.z <= SCALE
    &&& !u.is_zero()
    &&& {
        let s = Vec3 {
            x: (normal.x + u.x) as i64,
            y: (normal.y + u.y) as i64,
            z: (normal.z + u.z) as i64,
        };
        dir == if s.is_zero() || dot_raw(s, normal) <= 0 {
            normal
        } else {
            s
        }
    }
}

/// The rough specular outgoing direction: the base reflection displaced by
/// the unit perturbation `u` scaled by the roughness.
pub open spec fn fuzzed_direction(dir: Vec3, base: Vec3, u: Vec3, fuzz: int) -> bool {
    &&& -SCALE <= u.x <= SCALE
    &&& -SCALE <= u.y <= SCALE
    &&& -SCALE <= u.z <= SCALE
    &&& !u.is_zero()
    &&& dir.x == base.x + u.x * fuzz / (SCALE as int)
    &&& dir.y == base.y + u.y * fuzz / (SCALE as int)
    &&& dir.z == base.z + u.z * fuzz / (SCALE as int)
}

/// The attenuation each material applies, as a function of the hit: the
/// texture color at the hit for a diffuse surface, the constant albedo for
/// a metal, white for a dielectric or the diagnostic surface.
pub open spec fn attenuation_spec(m: Material, rec: HitRecord) -> Color {
    match m {
        Material::Lambertian(l) => l.texture.value_spec(rec.u as int, rec.v as int, rec.position),
        Material::Metal(mm) => mm.albedo,
        Material::Dielectric(_) => Color { r: SCALE, g: SCALE, b: SCALE },
        Material::Test(_) => Color { r: SCALE, g: SCALE, b: SCALE },
    }
}

/// A value clamped into `[0, 1]` on the grid.
pub open spec fn clamp_unit(v: int) -> int {
    if v < 0 {
        0
    } else if v > SCALE {
        SCALE as int
    } else {
        v
    }
}

/// The cosine the dielectric works with: the grid dot product of the
/// reversed unit incoming direction and the normal, clamped into `[-1, 1]`.
pub open spec fn dielectric_cos(dir: Vec3, normal: Vec3) -> int {
    let u = unit_spec(dir);
    let c = -dot_raw(u, normal) / (SCALE as int);
    if c > SCALE {
        SCALE as int
    } else if c < -SCALE {
        -SCALE as int
    } else {
        c
    }
}

/// The effective refraction ratio: the reciprocal of the index when the ray
/// enters through the front face, the index itself when it exits.
pub open spec fn dielectric_ratio(front_face: bool, refraction_index: int) -> int {
    if front_face {
        SCALE * SCALE / refraction_index
    } else {
        refraction_index
    }
}

/// Whether refraction is impossible: the refraction ratio times the sine of
/// the incidence angle exceeds one (compared exactly in raw units).
pub open spec fn dielectric_total_internal_reflection(
    dir: Vec3,
    normal: Vec3,
    front_face: bool,
    refraction_index: int,
) -> bool {
    let cos = dielectric_cos(dir, normal);
    let sin = sqrt_floor((SCALE * SCALE - cos * cos) as nat) as int;
    dielectric_ratio(front_face, refraction_index) * sin > SCALE * SCALE
}

impl Dielectric {
    /// A transparent material with the given refraction index.
    pub fn new(refraction_index: i64) -> (r: Material)
        ensures
            r matches Material::Dielectric(d) && d.refraction_index == refraction_index,
    {
        Material::Dielectric(Dielectric { refraction_index })
    }

    /// Schlick's approximation of the reflectance coefficient.
    pub fn reflectance(cosine: i64, ratio: i64) -> (r: i64)
        requires
            -SCALE <= cosine <= SCALE,
            0 <= ratio <= SCALE * SCALE,
        ensures
            r == schlick_spec(cosine as int, ratio as int),
            0 <= r <= 64_000,
    {
        let r0l = fx_div(SCALE - ratio, SCALE + ratio);
        proof {
            let num = (SCALE - ratio) as int;
            let den = (SCALE + ratio) as int;
            if num >= 0 {
                crate::fixed::lemma_div_le(num * (SCALE as int), den, SCALE as int);
            } else {
                crate::fixed::lemma_div_ge(num * (SCALE as int), den, -(SCALE as int));
            }
        }
        let r0 = fx_mul(r0l, r0l);
        proof {
            assert(0 <= r0l * r0l <= 1_000_000) by (nonlinear_arith)
                requires
                    -1000 <= r0l as int <= 1000,
            ;
            crate::fixed::lemma_div_le(r0l * r0l, SCALE as int, SCALE as int);
        }
        let omc = SCALE - cosine;
        let p2 = fx_mul(omc, omc);
        proof {
            assert(0 <= omc * omc <= 4_000_000) by (nonlinear_arith)
                requires
                    0 <= omc as int <= 2000,
            ;
            crate::fixed::lemma_div_le(omc * omc, SCALE as int, 4000);
        }
        let p4 = fx_mul(p2, p2);
        proof {
            assert(0 <= p2 * p2 <= 16_000_000) by (nonlinear_arith)
                requires
                    0 <= p2 as int <= 4000,
            ;
            crate::fixed::lemma_div_le(p2 * p2, SCALE as int, 16_000);
        }
        let p5 = fx_mul(p4, omc);
        proof {
            assert(0 <= p4 * omc <= 32_000_000) by (nonlinear_arith)
                requires
                    0 <= p4 as int <= 16_000,
                    0 <= omc as int <= 2000,
            ;
            crate::fixed::lemma_div_le(p4 * omc, SCALE as int, 32_000);
        }
        let last = fx_mul(SCALE - r0, p5);
        proof {
            assert(0 <= (SCALE - r0) * p5 <= 32_000_000) by (nonlinear_arith)
                requires
                    0 <= (SCALE - r0) as int <= 1000,
                    0 <= p5 as int <= 32_000,
            ;
            crate::fixed::lemma_div_le((SCALE - r0) * p5, SCALE as int, 32_000);
        }
        r0 + last
    }

    /// Dielectric scattering: reflect on total internal reflection or a
    /// Schlick-probability draw, otherwise refract; no absorption.
    pub fn scatter(&self, ray: &Ray, hit_record: &HitRecord) -> (r: (Color, Ray))
        requires
            SCALE <= self.refraction_index <= 10 * SCALE,
            ray.wf(),
            hit_record.wf(),
        ensures
            r.0 == (Color { r: SCALE, g: SCALE, b: SCALE }),
            r.1.origin == hit_record.position,
            r.1.time == ray.time,
            dielectric_total_internal_reflection(
                ray.direction,
                hit_record.normal,
                hit_record.front_face,
                self.refraction_index as int,
            ) ==> r.1.direction == reflect_spec(unit_spec(ray.direction), hit_record.normal),
            r.1.direction == reflect_spec(unit_spec(ray.direction), hit_record.normal)
                || r.1.direction == refract_spec(
                unit_spec(ray.direction),
                hit_record.normal,
                dielectric_ratio(hit_record.front_face, self.refraction_index as int),
                dielectric_cos(ray.direction, hit_record.normal),
            ),
    {
        let attenuation = Color { r: SCALE, g: SCALE, b: SCALE };
        let ri: i64 = if hit_record.front_face {
            div_floor(mul_wide(SCALE, SCALE), self.refraction_index as i128) as i64
        } else {
            self.refraction_index
        };
        proof {
            assert(0 <= ri <= SCALE * SCALE);
            assert(ri == dielectric_ratio(
                hit_record.front_face,
                self.refraction_index as int,
            ));
        }
        let unit_direction = ray.direction.unit();
        let c0 = div_floor(-unit_direction.dot_wide(&hit_record.normal), SCALE as i128) as i64;
        let cos_theta: i64 = if c0 > SCALE {
            SCALE
        } else if c0 < -SCALE {
            -SCALE
        } else {
            c0
        };
        proof {
            assert(cos_theta == dielectric_cos(ray.direction, hit_record.normal));
            assert(0 <= cos_theta * cos_theta <= 1_000_000) by (nonlinear_arith)
                requires
                    -1000 <= cos_theta as int <= 1000,
            ;
        }
        let sin2 = SCALE * SCALE - cos_theta * cos_theta;
        let sinu = isqrt(sin2 as u128);
        proof {
            assert(sinu <= 1000) by (nonlinear_arith)
                requires
                    sinu * sinu <= 1_000_000,
            ;
        }
        let sin_theta = sinu as i64;
        let cannot_refract = mul_wide(ri, sin_theta) > mul_wide(SCALE, SCALE);
        proof {
            assert(cannot_refract == dielectric_total_internal_reflection(
                ray.direction,
                hit_record.normal,
                hit_record.front_face,
                self.refraction_index as int,
            ));
        }
        let direction: Vec3 = if cannot_refract || Dielectric::reflectance(cos_theta, ri)
            > random_double() {
            unit_direction.reflect(&hit_record.normal)
        } else {
            refract(&unit_direction, &hit_record.normal, ri, cos_theta)
        };
        (attenuation, Ray { origin: hit_record.position, direction, time: ray.time })
    }
}

/// Schlick's polynomial, with each grid rounding written out.
pub open spec fn schlick_spec(cosine: int, ratio: int) -> int {
    let s = SCALE as int;
    let r0l = (s - ratio) * s / (s + ratio);
    let r0 = r0l * r0l / s;
    let omc = s - cosine;
    let p2 = omc * omc / s;
    let p4 = p2 * p2 / s;
    let p5 = p4 * omc / s;
    r0 + (s - r0) * p5 / s
}

/// What `refract` returns, with each grid rounding written out.
pub open spec fn refract_spec(u: Vec3, n: Vec3, ratio: int, cos: int) -> Vec3 {
    let s = SCALE as int;
    let cnx = (n.x * cos / s) as i64;
    let cny = (n.y * cos / s) as i64;
    let cnz = (n.z * cos / s) as i64;
    let px = (((u.x + cnx) * ratio) / s) as i64;
    let py = (((u.y + cny) * ratio) / s) as i64;
    let pz = (((u.z + cnz) * ratio) / s) as i64;
    let p = Vec3 { x: px, y: py, z: pz };
    let k = s * s - norm2_raw(p);
    let par = sqrt_floor((if k >= 0 {
        k
    } else {
        -k
    }) as nat) as int;
    Vec3 {
        x: (px - n.x * par / s) as i64,
        y: (py - n.y * par / s) as i64,
        z: (pz - n.z * par / s) as i64,
    }
}

/// The refracted direction: the perpendicular part scales the bent incoming
/// direction by the ratio; the parallel part restores unit length.
fn refract(u: &Vec3, n: &Vec3, ratio: i64, cos: i64) -> (r: Vec3)
    requires
        -SCALE <= u.x <= SCALE,
        -SCALE <= u.y <= SCALE,
        -SCALE <= u.z <= SCALE,
        -2 * SCALE <= n.x <= 2 * SCALE,
        -2 * SCALE <= n.y <= 2 * SCALE,
        -2 * SCALE <= n.z <= 2 * SCALE,
        0 <= ratio <= SCALE * SCALE,
        -SCALE <= cos <= SCALE,
    ensures
        r == refract_spec(*u, *n, ratio as int, cos as int),
{
    let cnx = fx_mul(n.x, cos);
    let cny = fx_mul(n.y, cos);
    let cnz = fx_mul(n.z, cos);
    proof {
        lemma_fx_component_bound(n.x as int, cos as int, 2000, 1000, 2000);
        lemma_fx_component_bound(n.y as int, cos as int, 2000, 1000, 2000);
        lemma_fx_component_bound(n.z as int, cos as int, 2000, 1000, 2000);
    }
    let px = fx_mul(u.x + cnx, ratio);
    let py = fx_mul(u.y + cny, ratio);
    let pz = fx_mul(u.z + cnz, ratio);
    proof {
        lemma_fx_component_bound((u.x + cnx) as int, ratio as int, 3000, 1_000_000, 3_000_000);
        lemma_fx_component_bound((u.y + cny) as int, ratio as int, 3000, 1_000_000, 3_000_000);
        lemma_fx_component_bound((u.z + cnz) as int, ratio as int, 3000, 1_000_000, 3_000_000);
    }
    let p = Vec3 { x: px, y: py, z: pz };
    proof {
        assert(-9_000_000_000_000 <= (px as int) * (px as int) <= 9_000_000_000_000
            && -9_000_000_000_000 <= (py as int) * (py as int) <= 9_000_000_000_000
            && -9_000_000_000_000 <= (pz as int) * (pz as int) <= 9_000_000_000_000)
            by (nonlinear_arith)
            requires
                -3_000_000 <= px as int <= 3_000_000,
                -3_000_000 <= py as int <= 3_000_000,
                -3_000_000 <= pz as int <= 3_000_000,
        ;
    }
    let n2 = mul_wide(px, px) + mul_wide(py, py) + mul_wide(pz, pz);
    let k = mul_wide(SCALE, SCALE) - n2;
    let ka = if k >= 0 {
        k
    } else {
        -k
    };
    let paru = isqrt(ka as u128);
    proof {
        assert(paru <= 6_000_000) by (nonlinear_arith)
            requires
                paru * paru <= 28_000_000_000_000,
        ;
    }
    let par = paru as i64;
    proof {
        lemma_fx_component_bound(n.x as int, par as int, 2000, 6_000_000, 12_000_000);
        lemma_fx_component_bound(n.y as int, par as int, 2000, 6_000_000, 12_000_000);
        lemma_fx_component_bound(n.z as int, par as int, 2000, 6_000_000, 12_000_000);
    }
    Vec3 { x: px - fx_mul(n.x, par), y: py - fx_mul(n.y, par), z: pz - fx_mul(n.z, par) }
}

/// The grid product of two bounded scalars is bounded by the product of the
/// bounds divided by the scale.
proof fn lemma_fx_component_bound(a: int, b: int, abound: int, bbound: int, qbound: int)
    requires
        -abound <= a <= abound,
        -bbound <= b <= bbound,
        0 <= abound,
        0 <= bbound,
        abound * bbound <= SCALE * qbound,
    ensures
        -qbound <= a * b / (SCALE as int) <= qbound,
{
    assert(-(abound * bbound) <= a * b <= abound * bbound) by (nonlinear_arith)
        requires
            -abound <= a <= abound,
            -bbound <= b <= bbound,
            0 <= abound,
            0 <= bbound,
    ;
    vstd::arithmetic::div_mod::lemma_fundamental_div_mod(a * b, SCALE as int);
    if a * b >= 0 {
        crate::fixed::lemma_div_le(a * b, SCALE as int, qbound);
        assert(a * b / (SCALE as int) >= 0) by (nonlinear_arith)
            requires
                a * b >= 0,
                SCALE == 1000,
                a * b == (SCALE as int) * (a * b / (SCALE as int)) + (a * b) % (SCALE as int),
                0 <= (a * b) % (SCALE as int) < (SCALE as int),
        ;
        assert(qbound >= 0);
    } else {
        crate::fixed::lemma_div_ge(a * b, SCALE as int, -qbound);
        assert(a * b / (SCALE as int) <= 0) by (nonlinear_arith)
            requires
                a * b < 0,
                SCALE == 1000,
                a * b == (SCALE as int) * (a * b / (SCALE as int)) + (a * b) % (SCALE as int),
                0 <= (a * b) % (SCALE as int) < (SCALE as int),
        ;
        assert(qbound >= 0);
    }
}

impl TestMaterial {
    /// The diagnostic material.
    pub fn new() -> (r: Material)
        ensures
            r is Test,
    {
        Material::Test(TestMaterial)
    }

    /// Scatters straight along the stored normal with full white
    /// attenuation: isolates geometry from material behaviour in tests.
    pub fn scatter(&self, ray: &Ray, hit_record: &HitRecord) -> (r: (Color, Ray))
        ensures
            r.0 == (Color { r: SCALE, g: SCALE, b: SCALE }),
            r.1.origin == hit_record.position,
            r.1.direction == hit_record.normal,
            r.1.time == ray.time,
    {
        let scatter = Ray {
            origin: hit_record.position,
            direction: hit_record.normal,
            time: ray.time,
        };
        (Color { r: SCALE, g: SCALE, b: SCALE }, scatter)
    }
}

/// A nonzero vector's raw dot product with itself is positive.
proof fn lemma_self_dot_positive(v: Vec3)
    requires
        !v.is_zero(),
    ensures
        dot_raw(v, v) > 0,
{
    assert(v.x * v.x + v.y * v.y + v.z * v.z > 0) by (nonlinear_arith)
        requires
            !(v.x == 0 && v.y == 0 && v.z == 0),
    ;
}

/// A unit perturbation scaled by the roughness moves each component by at
/// most the roughness (the extreme quotients are exact).
proof fn lemma_fuzz_window(u: int, fuzz: int)
    requires
        -1000 <= u <= 1000,
        0 <= fuzz <= 1000,
    ensures
        -fuzz <= u * fuzz / (SCALE as int) <= fuzz,
{
    assert(-(1000 * fuzz) <= u * fuzz <= 1000 * fuzz) by (nonlinear_arith)
        requires
            -1000 <= u <= 1000,
            0 <= fuzz,
    ;
    crate::fixed::lemma_div_scaled_bound(u * fuzz, fuzz);
}

impl Clone for Material {
    /// An exact copy.
    fn clone(&self) -> (r: Material)
        ensures
            r == *self,
    {
        match self {
            Material::Lambertian(l) => Material::Lambertian(
                Lambertian { texture: Box::new((*l.texture).clone()) },
            ),
            Material::Metal(m) => Material::Metal(Metal { albedo: m.albedo, fuzz: m.fuzz }),
            Material::Dielectric(d) => Material::Dielectric(
                Dielectric { refraction_index: d.refraction_index },
            ),
            Material::Test(_) => Material::Test(TestMaterial),
        }
    }
}

} // verus!
