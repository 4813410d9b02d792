//! Axis-aligned bounding boxes and the slab intersection test.
//!
//! The slab test narrows a rational parameter window axis by axis, in exact
//! integer arithmetic (cross-multiplied comparisons, no rounding), and
//! rejects as soon as the window closes. Its contract is the guarantee the
//! tree traversal rests on: a parameter strictly inside the window whose
//! point is strictly inside the box on every axis is never rejected.

use crate::fixed::ORIGIN_LIMIT;
use crate::fixed::SCALE;
use crate::fixed::T_LIMIT;
use crate::interval::Interval;
use crate::ray::Ray;
use crate::sphere::max_i;
use crate::sphere::min_i;
use crate::sphere::SphereType;
use vstd::prelude::*;

verus! {

/// The product of three closed ranges, one per axis.
#[derive(Clone, Copy, Debug, PartialEq, Eq, Structural)]
pub struct Aabb {
    pub x: Interval,
    pub y: Interval,
    pub z: Interval,
}

impl Aabb {
    /// All six bounds within the coordinate range of hit points.
    pub open spec fn wf(self) -> bool {
        &&& -ORIGIN_LIMIT <= self.x.min <= ORIGIN_LIMIT && -ORIGIN_LIMIT <= self.x.max
            <= ORIGIN_LIMIT
        &&& -ORIGIN_LIMIT <= self.y.min <= ORIGIN_LIMIT && -ORIGIN_LIMIT <= self.y.max
            <= ORIGIN_LIMIT
        &&& -ORIGIN_LIMIT <= self.z.min <= ORIGIN_LIMIT && -ORIGIN_LIMIT <= self.z.max
            <= ORIGIN_LIMIT
    }

    pub fn new(x: Interval, y: Interval, z: Interval) -> (r: Aabb)
        ensures
            r == (Aabb { x, y, z }),
    {
        Aabb { x, y, z }
    }

    /// The smallest box holding both arguments: minimum of minimums and
    /// maximum of maximums on each axis.
    pub fn surrounding(a: &Aabb, b: &Aabb) -> (r: Aabb)
        ensures
            r.x.min == min_i(a.x.min as int, b.x.min as int),
            r.x.max == max_i(a.x.max as int, b.x.max as int),
            r.y.min == min_i(a.y.min as int, b.y.min as int),
            r.y.max == max_i(a.y.max as int, b.y.max as int),
            r.z.min == min_i(a.z.min as int, b.z.min as int),
            r.z.max == max_i(a.z.max as int, b.z.max as int),
            r == box_union(*a, *b),
            box_contains(r, *a),
            box_contains(r, *b),
    {
        Aabb {
            x: Interval {
                min: if a.x.min < b.x.min {
                    a.x.min
                } else {
                    b.x.min
                },
                max: if a.x.max < b.x.max {
                    b.x.max
                } else {
                    a.x.max
                },
            },
            y: Interval {
                min: if a.y.min < b.y.min {
                    a.y.min
                } else {
                    b.y.min
                },
                max: if a.y.max < b.y.max {
                    b.y.max
                } else {
                    a.y.max
                },
            },
            z: Interval {
                min: if a.z.min < b.z.min {
                    a.z.min
                } else {
                    b.z.min
                },
                max: if a.z.max < b.z.max {
                    b.z.max
                } else {
                    a.z.max
                },
            },
        }
    }

    /// The range of the box along one axis (0, 1 or 2).
    pub fn axis_interval(&self, axis: usize) -> (r: Interval)
        requires
            axis < 3,
        ensures
            axis == 0 ==> r == self.x,
            axis == 1 ==> r == self.y,
            axis == 2 ==> r == self.z,
    {
        if axis == 0 {
            self.x
        } else if axis == 1 {
            self.y
        } else {
            self.z
        }
    }

    /// The slab test, decided exactly: true if and only if some rational
    /// parameter strictly inside the search range sends the ray strictly
    /// inside the box on every axis (`slab_reaches`).
    pub fn hit(&self, ray: &Ray, ray_t: Interval) -> (r: bool)
        requires
            self.wf(),
            ray.wf(),
            -T_LIMIT <= ray_t.min <= T_LIMIT,
            -T_LIMIT <= ray_t.max <= T_LIMIT,
        ensures
            r == slab_reaches(*self, *ray, ray_t.min as int, ray_t.max as int),
            forall|t: int|
                #[trigger] slab_admits(*self, *ray, ray_t.min as int, ray_t.max as int, t) ==> r,
    {
        let o = ray.origin.0;
        let d = ray.direction;
        let ghost lo = ray_t.min as int;
        let ghost hi = ray_t.max as int;
        let r1 = narrow_axis(
            ray_t.min as i128,
            1,
            ray_t.max as i128,
            1,
            o.x,
            d.x,
            self.x.min,
            self.x.max,
        );
        let (n1, d1, m1, e1) = match r1 {
            None => {
                proof {
                    assert forall|num: int, den: int| !#[trigger] slab_admits_rat(
                        *self,
                        *ray,
                        lo,
                        hi,
                        num,
                        den,
                    ) by {
                        if slab_admits_rat(*self, *ray, lo, hi, num, den) {
                            assert(num * 1 == num) by (nonlinear_arith);
                            assert(rat_window(num, den, lo, 1, hi, 1));
                        }
                    }
                    lemma_unreachable_closes(*self, *ray, lo, hi);
                }
                return false;
            },
            Some(v) => v,
        };
        let r2 = narrow_axis(n1, d1, m1, e1, o.y, d.y, self.y.min, self.y.max);
        let (n2, d2, m2, e2) = match r2 {
            None => {
                proof {
                    assert forall|num: int, den: int| !#[trigger] slab_admits_rat(
                        *self,
                        *ray,
                        lo,
                        hi,
                        num,
                        den,
                    ) by {
                        if slab_admits_rat(*self, *ray, lo, hi, num, den) {
                            assert(num * 1 == num) by (nonlinear_arith);
                            assert(rat_window(num, den, lo, 1, hi, 1));
                            assert(rat_window(num, den, n1 as int, d1 as int, m1 as int, e1 as int));
                        }
                    }
                    lemma_unreachable_closes(*self, *ray, lo, hi);
                }
                return false;
            },
            Some(v) => v,
        };
        let r3 = narrow_axis(n2, d2, m2, e2, o.z, d.z, self.z.min, self.z.max);
        match r3 {
            None => {
                proof {
                    assert forall|num: int, den: int| !#[trigger] slab_admits_rat(
                        *self,
                        *ray,
                        lo,
                        hi,
                        num,
                        den,
                    ) by {
                        if slab_admits_rat(*self, *ray, lo, hi, num, den) {
                            assert(num * 1 == num) by (nonlinear_arith);
                            assert(rat_window(num, den, lo, 1, hi, 1));
                            assert(rat_window(num, den, n1 as int, d1 as int, m1 as int, e1 as int));
                            assert(rat_window(num, den, n2 as int, d2 as int, m2 as int, e2 as int));
                        }
                    }
                    lemma_unreachable_closes(*self, *ray, lo, hi);
                }
                false
            },
            Some(b3) => {
                proof {
                    let n3 = b3.0 as int;
                    let d3 = b3.1 as int;
                    let m3 = b3.2 as int;
                    let e3 = b3.3 as int;
                    lemma_midpoint(n3, d3, m3, e3);
                    let num = n3 * e3 + m3 * d3;
                    let den = 2 * (d3 * e3);
                    assert(rat_window(num, den, n2 as int, d2 as int, m2 as int, e2 as int));
                    assert(rat_window(num, den, n1 as int, d1 as int, m1 as int, e1 as int));
                    assert(rat_window(num, den, lo, 1, hi, 1));
                    assert(num * 1 == num) by (nonlinear_arith);
                    assert(slab_admits_rat(*self, *ray, lo, hi, num, den));
                }
                true
            },
        }
    }
}

impl Default for Aabb {
    /// The degenerate box holding only the origin.
    fn default() -> (r: Aabb)
        ensures
            r.x == (Interval { min: 0, max: 0 }),
            r.y == (Interval { min: 0, max: 0 }),
            r.z == (Interval { min: 0, max: 0 }),
    {
        Aabb {
            x: Interval { min: 0, max: 0 },
            y: Interval { min: 0, max: 0 },
            z: Interval { min: 0, max: 0 },
        }
    }
}

/// Whether the grid parameter `t` sends the ray strictly inside the slab of
/// one axis; an axis the ray runs parallel to constrains the origin
/// instead.
pub open spec fn in_slab_axis(o: int, d: int, lo: int, hi: int, t: int) -> bool {
    if d == 0 {
        lo <= o <= hi
    } else {
        SCALE * lo < SCALE * o + t * d < SCALE * hi
    }
}

/// Whether the rational parameter `num / den` (with `den > 0`) sends the
/// ray strictly inside the slab of one axis, cross-multiplied.
pub open spec fn in_slab_axis_rat(o: int, d: int, lo: int, hi: int, num: int, den: int) -> bool {
    if d == 0 {
        lo <= o <= hi
    } else {
        den * (SCALE * lo) < den * (SCALE * o) + num * d < den * (SCALE * hi)
    }
}

/// Whether the grid parameter `t` is strictly inside the search range and
/// sends the ray strictly inside the box on every axis.
pub open spec fn slab_admits(b: Aabb, ray: Ray, lo: int, hi: int, t: int) -> bool {
    &&& lo < t < hi
    &&& in_slab_axis(ray.origin.0.x as int, ray.direction.x as int, b.x.min as int, b.x.max as int, t)
    &&& in_slab_axis(ray.origin.0.y as int, ray.direction.y as int, b.y.min as int, b.y.max as int, t)
    &&& in_slab_axis(ray.origin.0.z as int, ray.direction.z as int, b.z.min as int, b.z.max as int, t)
}

/// Whether the rational parameter `num / den` is strictly inside the
/// search range and sends the ray strictly inside the box on every axis.
pub open spec fn slab_admits_rat(b: Aabb, ray: Ray, lo: int, hi: int, num: int, den: int) -> bool {
    &&& den > 0
    &&& lo * den < num && num < hi * den
    &&& in_slab_axis_rat(
        ray.origin.0.x as int,
        ray.direction.x as int,
        b.x.min as int,
        b.x.max as int,
        num,
        den,
    )
    &&& in_slab_axis_rat(
        ray.origin.0.y as int,
        ray.direction.y as int,
        b.y.min as int,
        b.y.max as int,
        num,
        den,
    )
    &&& in_slab_axis_rat(
        ray.origin.0.z as int,
        ray.direction.z as int,
        b.z.min as int,
        b.z.max as int,
        num,
        den,
    )
}

/// Whether any rational parameter is admitted: the exact condition the
/// slab test decides.
pub open spec fn slab_reaches(b: Aabb, ray: Ray, lo: int, hi: int) -> bool {
    exists|num: int, den: int| #[trigger] slab_admits_rat(b, ray, lo, hi, num, den)
}

/// A grid parameter is the rational with denominator one.
pub proof fn lemma_admits_on_grid(b: Aabb, ray: Ray, lo: int, hi: int, t: int)
    requires
        slab_admits(b, ray, lo, hi, t),
    ensures
        slab_admits_rat(b, ray, lo, hi, t, 1),
{
    assert(t * 1 == t && lo * 1 == lo && hi * 1 == hi) by (nonlinear_arith);
    lemma_axis_on_grid(ray.origin.0.x as int, ray.direction.x as int, b.x.min as int, b.x.max as int, t);
    lemma_axis_on_grid(ray.origin.0.y as int, ray.direction.y as int, b.y.min as int, b.y.max as int, t);
    lemma_axis_on_grid(ray.origin.0.z as int, ray.direction.z as int, b.z.min as int, b.z.max as int, t);
}

proof fn lemma_axis_on_grid(o: int, d: int, lo: int, hi: int, t: int)
    requires
        in_slab_axis(o, d, lo, hi, t),
    ensures
        in_slab_axis_rat(o, d, lo, hi, t, 1),
{
    if d != 0 {
        assert(1 * (SCALE * lo) < 1 * (SCALE * o) + t * d < 1 * (SCALE * hi)) by (nonlinear_arith)
            requires
                SCALE * lo < SCALE * o + t * d < SCALE * hi,
        ;
    }
}

/// A closed set of admitted rationals means the box is unreached.
proof fn lemma_unreachable_closes(b: Aabb, ray: Ray, lo: int, hi: int)
    requires
        forall|num: int, den: int| !#[trigger] slab_admits_rat(b, ray, lo, hi, num, den),
    ensures
        !slab_reaches(b, ray, lo, hi),
        forall|t: int| !#[trigger] slab_admits(b, ray, lo, hi, t),
{
    assert forall|t: int| !#[trigger] slab_admits(b, ray, lo, hi, t) by {
        if slab_admits(b, ray, lo, hi, t) {
            lemma_admits_on_grid(b, ray, lo, hi, t);
        }
    }
}

/// The smallest box holding both: minimum of minimums and maximum of
/// maximums on each axis.
pub open spec fn box_union(a: Aabb, b: Aabb) -> Aabb {
    Aabb {
        x: Interval {
            min: min_i(a.x.min as int, b.x.min as int) as i64,
            max: max_i(a.x.max as int, b.x.max as int) as i64,
        },
        y: Interval {
            min: min_i(a.y.min as int, b.y.min as int) as i64,
            max: max_i(a.y.max as int, b.y.max as int) as i64,
        },
        z: Interval {
            min: min_i(a.z.min as int, b.z.min as int) as i64,
            max: max_i(a.z.max as int, b.z.max as int) as i64,
        },
    }
}

/// The union contains both of its parts.
pub proof fn lemma_union_contains(a: Aabb, b: Aabb)
    ensures
        box_contains(box_union(a, b), a),
        box_contains(box_union(a, b), b),
{
}

/// One box containing another, axis by axis.
pub open spec fn box_contains(outer: Aabb, inner: Aabb) -> bool {
    &&& outer.x.min <= inner.x.min && inner.x.max <= outer.x.max
    &&& outer.y.min <= inner.y.min && inner.y.max <= outer.y.max
    &&& outer.z.min <= inner.z.min && inner.z.max <= outer.z.max
}

/// A box bounding a scene object over its whole time window.
pub open spec fn box_bounds_object(b: Aabb, obj: SphereType) -> bool {
    match obj {
        SphereType::Static(s) => {
            &&& b.x.min <= s.center.0.x - s.radius && s.center.0.x + s.radius <= b.x.max
            &&& b.y.min <= s.center.0.y - s.radius && s.center.0.y + s.radius <= b.y.max
            &&& b.z.min <= s.center.0.z - s.radius && s.center.0.z + s.radius <= b.z.max
        },
        SphereType::Moving(m) => {
            &&& b.x.min <= min_i(m.center.0.0.x as int, m.center.1.0.x as int) - m.radius && max_i(
                m.center.0.0.x as int,
                m.center.1.0.x as int,
            ) + m.radius <= b.x.max
            &&& b.y.min <= min_i(m.center.0.0.y as int, m.center.1.0.y as int) - m.radius && max_i(
                m.center.0.0.y as int,
                m.center.1.0.y as int,
            ) + m.radius <= b.y.max
            &&& b.z.min <= min_i(m.center.0.0.z as int, m.center.1.0.z as int) - m.radius && max_i(
                m.center.0.0.z as int,
                m.center.1.0.z as int,
            ) + m.radius <= b.z.max
        },
    }
}

/// A parameter admitted by a box is admitted by any box containing it.
pub proof fn lemma_slab_monotone(b: Aabb, outer: Aabb, ray: Ray, lo: int, hi: int, t: int)
    requires
        box_contains(outer, b),
        slab_admits(b, ray, lo, hi, t),
    ensures
        slab_admits(outer, ray, lo, hi, t),
{
    lemma_axis_monotone(
        ray.origin.0.x as int,
        ray.direction.x as int,
        b.x.min as int,
        b.x.max as int,
        outer.x.min as int,
        outer.x.max as int,
        t,
    );
    lemma_axis_monotone(
        ray.origin.0.y as int,
        ray.direction.y as int,
        b.y.min as int,
        b.y.max as int,
        outer.y.min as int,
        outer.y.max as int,
        t,
    );
    lemma_axis_monotone(
        ray.origin.0.z as int,
        ray.direction.z as int,
        b.z.min as int,
        b.z.max as int,
        outer.z.min as int,
        outer.z.max as int,
        t,
    );
}

proof fn lemma_axis_monotone(o: int, d: int, lo: int, hi: int, lo2: int, hi2: int, t: int)
    requires
        lo2 <= lo,
        hi <= hi2,
        in_slab_axis(o, d, lo, hi, t),
    ensures
        in_slab_axis(o, d, lo2, hi2, t),
{
    if d != 0 {
        assert(SCALE * lo2 <= SCALE * lo && SCALE * hi <= SCALE * hi2) by (nonlinear_arith)
            requires
                lo2 <= lo,
                hi <= hi2,
                SCALE == 1000,
        ;
    }
}

/// Mirror symmetry of the slab test, at the level of the test's result:
/// reversing the sign of one direction component while mirroring the origin
/// through that slab's center (so the min/max pairing swaps) reaches the
/// box for exactly the same parameter ranges.
pub proof fn lemma_box_hit_mirror(b: Aabb, ray: Ray, ray2: Ray, lo: int, hi: int)
    requires
        ray.direction.x != 0,
        ray2.origin.0.x == b.x.min + b.x.max - ray.origin.0.x,
        ray2.direction.x == -ray.direction.x,
        ray2.origin.0.y == ray.origin.0.y,
        ray2.origin.0.z == ray.origin.0.z,
        ray2.direction.y == ray.direction.y,
        ray2.direction.z == ray.direction.z,
    ensures
        slab_reaches(b, ray, lo, hi) == slab_reaches(b, ray2, lo, hi),
{
    assert forall|num: int, den: int|
        #[trigger] slab_admits_rat(b, ray, lo, hi, num, den) == slab_admits_rat(
            b,
            ray2,
            lo,
            hi,
            num,
            den,
        ) by {
        lemma_axis_mirror_rat(
            ray.origin.0.x as int,
            ray.direction.x as int,
            b.x.min as int,
            b.x.max as int,
            num,
            den,
        );
    }
    if slab_reaches(b, ray, lo, hi) {
        let (num, den) = choose|num: int, den: int|
            #[trigger] slab_admits_rat(b, ray, lo, hi, num, den);
        assert(slab_admits_rat(b, ray2, lo, hi, num, den));
    }
    if slab_reaches(b, ray2, lo, hi) {
        let (num, den) = choose|num: int, den: int|
            #[trigger] slab_admits_rat(b, ray2, lo, hi, num, den);
        assert(slab_admits_rat(b, ray, lo, hi, num, den));
    }
}

/// One axis of the mirror symmetry, over rational parameters.
proof fn lemma_axis_mirror_rat(o: int, d: int, lo: int, hi: int, num: int, den: int)
    requires
        d != 0,
    ensures
        in_slab_axis_rat(o, d, lo, hi, num, den) == in_slab_axis_rat(
            lo + hi - o,
            -d,
            lo,
            hi,
            num,
            den,
        ),
{
    assert((den * (SCALE * lo) < den * (SCALE * (lo + hi - o)) + num * (-d) < den * (SCALE * hi))
        == (den * (SCALE * lo) < den * (SCALE * o) + num * d < den * (SCALE * hi)))
        by (nonlinear_arith)
        requires
            SCALE == 1000,
    ;
}

/// The rational window `nlo/dlo < num/den < nhi/dhi`, cross-multiplied
/// (all denominators positive).
pub open spec fn rat_window(num: int, den: int, nlo: int, dlo: int, nhi: int, dhi: int) -> bool {
    nlo * den < num * dlo && num * dhi < nhi * den
}

/// Narrows the window by one axis of the slab test; `None` exactly when
/// the narrowed window closes. The rationals inside the outgoing window
/// are exactly those inside the incoming window that satisfy the axis.
fn narrow_axis(nlo: i128, dlo: i128, nhi: i128, dhi: i128, o: i64, d: i64, lo: i64, hi: i64) -> (res:
    Option<(i128, i128, i128, i128)>)
    requires
        0 < dlo <= 2_000_000,
        0 < dhi <= 2_000_000,
        -1_000_000_000_000_000 <= nlo <= 1_000_000_000_000_000,
        -1_000_000_000_000_000 <= nhi <= 1_000_000_000_000_000,
        -8_000_000 <= o <= 8_000_000,
        -2_000_000 <= d <= 2_000_000,
        -8_000_000 <= lo <= 8_000_000,
        -8_000_000 <= hi <= 8_000_000,
    ensures
        res matches Some(b) ==> 0 < b.1 <= 2_000_000 && 0 < b.3 <= 2_000_000
            && -1_000_000_000_000_000 <= b.0 <= 1_000_000_000_000_000 && -1_000_000_000_000_000
            <= b.2 <= 1_000_000_000_000_000 && (b.0 as int) * (b.3 as int) < (b.2 as int) * (
        b.1 as int),
        forall|num: int, den: int|
            den > 0 && in_slab_axis_rat(o as int, d as int, lo as int, hi as int, num, den)
                && #[trigger] rat_window(num, den, nlo as int, dlo as int, nhi as int, dhi as int)
                ==> match res {
                None => false,
                Some(b) => rat_window(num, den, b.0 as int, b.1 as int, b.2 as int, b.3 as int),
            },
        res matches Some(b) ==> forall|num: int, den: int|
            den > 0 && #[trigger] rat_window(num, den, b.0 as int, b.1 as int, b.2 as int, b.3 as int)
                ==> in_slab_axis_rat(o as int, d as int, lo as int, hi as int, num, den)
                && rat_window(num, den, nlo as int, dlo as int, nhi as int, dhi as int),
{
    if d == 0 {
        if o < lo || o > hi {
            return None;
        }
        if bigger_rational(nlo, dlo, nhi, dhi) || {
            let c1 = mul_cross(nlo, dhi);
            let c2 = mul_cross(nhi, dlo);
            c1 == c2
        } {
            proof {
                assert forall|num: int, den: int|
                    den > 0 && in_slab_axis_rat(o as int, d as int, lo as int, hi as int, num, den)
                        && #[trigger] rat_window(
                        num,
                        den,
                        nlo as int,
                        dlo as int,
                        nhi as int,
                        dhi as int,
                    ) implies false by {
                    lemma_window_empty(
                        num,
                        den,
                        nlo as int,
                        dlo as int,
                        nhi as int,
                        dhi as int,
                    );
                }
            }
            return None;
        }
        return Some((nlo, dlo, nhi, dhi));
    }
    let axl_n: i128;
    let axl_d: i128;
    let axh_n: i128;
    let axh_d: i128;
    if d > 0 {
        axl_n = (SCALE as i128) * ((lo - o) as i128);
        axl_d = d as i128;
        axh_n = (SCALE as i128) * ((hi - o) as i128);
        axh_d = d as i128;
    } else {
        axl_n = (SCALE as i128) * ((o - hi) as i128);
        axl_d = (-d) as i128;
        axh_n = (SCALE as i128) * ((o - lo) as i128);
        axh_d = (-d) as i128;
    }
    let replace_lo = bigger_rational(axl_n, axl_d, nlo, dlo);
    let (wlo_n, wlo_d) = if replace_lo {
        (axl_n, axl_d)
    } else {
        (nlo, dlo)
    };
    let replace_hi = bigger_rational(nhi, dhi, axh_n, axh_d);
    let (whi_n, whi_d) = if replace_hi {
        (axh_n, axh_d)
    } else {
        (nhi, dhi)
    };
    proof {
        assert forall|num: int, den: int|
            den > 0 && in_slab_axis_rat(o as int, d as int, lo as int, hi as int, num, den)
                && #[trigger] rat_window(num, den, nlo as int, dlo as int, nhi as int, dhi as int)
                implies rat_window(
            num,
            den,
            wlo_n as int,
            wlo_d as int,
            whi_n as int,
            whi_d as int,
        ) by {
            lemma_axis_window(
                o as int,
                d as int,
                lo as int,
                hi as int,
                axl_n as int,
                axl_d as int,
                axh_n as int,
                axh_d as int,
                num,
                den,
            );
        }
        assert forall|num: int, den: int|
            den > 0 && #[trigger] rat_window(
                num,
                den,
                wlo_n as int,
                wlo_d as int,
                whi_n as int,
                whi_d as int,
            ) implies in_slab_axis_rat(o as int, d as int, lo as int, hi as int, num, den)
            && rat_window(num, den, nlo as int, dlo as int, nhi as int, dhi as int) by {
            if replace_lo {
                lemma_rat_above_trans(
                    num,
                    den,
                    axl_n as int,
                    axl_d as int,
                    nlo as int,
                    dlo as int,
                );
            } else {
                lemma_rat_above_trans(
                    num,
                    den,
                    nlo as int,
                    dlo as int,
                    axl_n as int,
                    axl_d as int,
                );
            }
            if replace_hi {
                lemma_rat_below_trans(
                    num,
                    den,
                    axh_n as int,
                    axh_d as int,
                    nhi as int,
                    dhi as int,
                );
            } else {
                lemma_rat_below_trans(
                    num,
                    den,
                    nhi as int,
                    dhi as int,
                    axh_n as int,
                    axh_d as int,
                );
            }
            lemma_axis_window(
                o as int,
                d as int,
                lo as int,
                hi as int,
                axl_n as int,
                axl_d as int,
                axh_n as int,
                axh_d as int,
                num,
                den,
            );
        }
    }
    let closed = bigger_rational(wlo_n, wlo_d, whi_n, whi_d) || {
        let c1 = mul_cross(whi_n, wlo_d);
        let c2 = mul_cross(wlo_n, whi_d);
        c1 == c2
    };
    if closed {
        proof {
            assert forall|num: int, den: int|
                den > 0 && in_slab_axis_rat(o as int, d as int, lo as int, hi as int, num, den)
                    && #[trigger] rat_window(
                    num,
                    den,
                    nlo as int,
                    dlo as int,
                    nhi as int,
                    dhi as int,
                ) implies false by {
                assert(rat_window(
                    num,
                    den,
                    wlo_n as int,
                    wlo_d as int,
                    whi_n as int,
                    whi_d as int,
                ));
                lemma_window_empty(
                    num,
                    den,
                    wlo_n as int,
                    wlo_d as int,
                    whi_n as int,
                    whi_d as int,
                );
            }
        }
        return None;
    }
    Some((wlo_n, wlo_d, whi_n, whi_d))
}

/// No rational sits inside a window whose upper bound does not exceed its
/// lower bound.
proof fn lemma_window_empty(num: int, den: int, nlo: int, dlo: int, nhi: int, dhi: int)
    requires
        den > 0,
        dlo > 0,
        dhi > 0,
        nhi * dlo <= nlo * dhi,
    ensures
        !rat_window(num, den, nlo, dlo, nhi, dhi),
{
    assert(!(nlo * den < num * dlo && num * dhi < nhi * den)) by (nonlinear_arith)
        requires
            den > 0,
            dlo > 0,
            dhi > 0,
            nhi * dlo <= nlo * dhi,
    ;
}

/// Above one bound and that bound at least another: above the other too.
proof fn lemma_rat_above_trans(num: int, den: int, an: int, ad: int, bn: int, bd: int)
    requires
        den > 0,
        ad > 0,
        bd > 0,
        bn * ad <= an * bd,
        an * den < num * ad,
    ensures
        bn * den < num * bd,
{
    assert((bn * den) * ad == (bn * ad) * den && (an * bd) * den == (an * den) * bd && (num * bd)
        * ad == (num * ad) * bd) by (nonlinear_arith);
    assert((bn * ad) * den <= (an * bd) * den) by (nonlinear_arith)
        requires
            den > 0,
            bn * ad <= an * bd,
    ;
    assert((an * den) * bd < (num * ad) * bd) by (nonlinear_arith)
        requires
            bd > 0,
            an * den < num * ad,
    ;
    lemma_cancel_strict(bn * den, num * bd, ad);
}

/// Below one bound and that bound at most another: below the other too.
proof fn lemma_rat_below_trans(num: int, den: int, an: int, ad: int, bn: int, bd: int)
    requires
        den > 0,
        ad > 0,
        bd > 0,
        an * bd <= bn * ad,
        num * ad < an * den,
    ensures
        num * bd < bn * den,
{
    assert((num * bd) * ad == (num * ad) * bd && (an * den) * bd == (an * bd) * den && (bn * den)
        * ad == (bn * ad) * den) by (nonlinear_arith);
    assert((num * ad) * bd < (an * den) * bd) by (nonlinear_arith)
        requires
            bd > 0,
            num * ad < an * den,
    ;
    assert((an * bd) * den <= (bn * ad) * den) by (nonlinear_arith)
        requires
            den > 0,
            an * bd <= bn * ad,
    ;
    lemma_cancel_strict(num * bd, bn * den, ad);
}

/// Cancelling a positive common factor from a strict product inequality.
proof fn lemma_cancel_strict(a: int, b: int, c: int)
    requires
        c > 0,
        a * c < b * c,
    ensures
        a < b,
{
    assert(a < b) by (nonlinear_arith)
        requires
            c > 0,
            a * c < b * c,
    ;
}

/// The open midpoint of a strictly open rational window lies inside it.
proof fn lemma_midpoint(n0: int, d0: int, n1: int, d1: int)
    requires
        d0 > 0,
        d1 > 0,
        n0 * d1 < n1 * d0,
    ensures
        2 * (d0 * d1) > 0,
        rat_window(n0 * d1 + n1 * d0, 2 * (d0 * d1), n0, d0, n1, d1),
{
    assert(d0 * d1 > 0) by (nonlinear_arith)
        requires
            d0 > 0,
            d1 > 0,
    ;
    assert(n0 * (2 * (d0 * d1)) < (n0 * d1 + n1 * d0) * d0) by (nonlinear_arith)
        requires
            d0 > 0,
            n0 * d1 < n1 * d0,
    ;
    assert((n0 * d1 + n1 * d0) * d1 < n1 * (2 * (d0 * d1))) by (nonlinear_arith)
        requires
            d1 > 0,
            n0 * d1 < n1 * d0,
    ;
}

/// Exact comparison `a/b > c/d` of two rationals with positive
/// denominators, by cross multiplication.
fn bigger_rational(a: i128, b: i128, c: i128, d: i128) -> (r: bool)
    requires
        0 < b <= 2_000_000,
        0 < d <= 2_000_000,
        -20_000_000_000_000_000 <= a <= 20_000_000_000_000_000,
        -20_000_000_000_000_000 <= c <= 20_000_000_000_000_000,
    ensures
        r == (a * d > c * b),
{
    let lhs = mul_cross(a, d);
    let rhs = mul_cross(c, b);
    lhs > rhs
}

/// Widening product for cross-multiplied comparisons.
fn mul_cross(a: i128, b: i128) -> (r: i128)
    requires
        -20_000_000_000_000_000 <= a <= 20_000_000_000_000_000,
        -2_000_000 <= b <= 2_000_000,
    ensures
        r == a * b,
{
    proof {
        assert(-40_000_000_000_000_000_000_000 <= a * b <= 40_000_000_000_000_000_000_000)
            by (nonlinear_arith)
            requires
                -20_000_000_000_000_000 <= a as int <= 20_000_000_000_000_000,
                -2_000_000 <= b as int <= 2_000_000,
        ;
    }
    a * b
}

/// The axis slab condition on a rational parameter, written as a rational
/// window with positive denominators.
proof fn lemma_axis_window(
    o: int,
    d: int,
    lo: int,
    hi: int,
    axl_n: int,
    axl_d: int,
    axh_n: int,
    axh_d: int,
    num: int,
    den: int,
)
    requires
        d != 0,
        den > 0,
        d > 0 ==> axl_n == SCALE * (lo - o) && axl_d == d && axh_n == SCALE * (hi - o) && axh_d
            == d,
        d < 0 ==> axl_n == SCALE * (o - hi) && axl_d == -d && axh_n == SCALE * (o - lo) && axh_d
            == -d,
    ensures
        in_slab_axis_rat(o, d, lo, hi, num, den) == (axl_n * den < num * axl_d && num * axh_d
            < axh_n * den),
{
    if d > 0 {
        assert((den * (SCALE * lo) < den * (SCALE * o) + num * d < den * (SCALE * hi)) == (axl_n
            * den < num * axl_d && num * axh_d < axh_n * den)) by (nonlinear_arith)
            requires
                d > 0,
                den > 0,
                SCALE == 1000,
                axl_n == SCALE * (lo - o),
                axl_d == d,
                axh_n == SCALE * (hi - o),
                axh_d == d,
        ;
    } else {
        assert((den * (SCALE * lo) < den * (SCALE * o) + num * d < den * (SCALE * hi)) == (axl_n
            * den < num * axl_d && num * axh_d < axh_n * den)) by (nonlinear_arith)
            requires
                d < 0,
                den > 0,
                SCALE == 1000,
                axl_n == SCALE * (o - hi),
                axl_d == -d,
                axh_n == SCALE * (o - lo),
                axh_d == -d,
        ;
    }
}

} // verus!
