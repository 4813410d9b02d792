//! The bounding volume hierarchy: a binary tree of boxes over the scene.
//!
//! Built once from a list of objects and never changed, the tree answers
//! closest-hit queries by pruning subtrees whose box the ray cannot enter.
//! Its central contract: for rays that meet no object exactly on a surface
//! (see `no_graze`), the tree reports exactly the brute-force closest hit.

use crate::aabb::box_bounds_object;
use crate::aabb::box_contains;
use crate::aabb::lemma_slab_monotone;
use crate::aabb::slab_admits;
use crate::aabb::Aabb;
use crate::fixed::COORD_LIMIT;
use crate::fixed::T_LIMIT;
use crate::hittable::HitRecord;
use crate::hittable_list::all_time_ok;
use crate::hittable_list::all_wf;
use crate::hittable_list::hits_nothing;
use crate::hittable_list::is_closest_hit;
use crate::hittable_list::is_record_of;
use crate::hittable_list::lemma_hit_narrow;
use crate::interval::Interval;
use crate::ray::Ray;
use crate::sphere::center_at_spec;
use crate::sphere::in_ball;
use crate::sphere::lemma_hit_point_in_ball;
use crate::sphere::min_i;
use crate::sphere::strictly_in_ball;
use crate::sphere::SphereType;
use vstd::multiset::Multiset;
use vstd::prelude::*;

verus! {

/// A node of the tree: an inner branch with two children, or a leaf
/// holding one object; each carries its bounding box.
#[derive(Debug)]
pub enum BvhNode {
    Branch { left: Box<BvhNode>, right: Box<BvhNode>, bbox: Aabb },
    Leaf { object: SphereType, bbox: Aabb },
}

/// The tree and its overall box.
#[derive(Debug)]
pub struct Bvh {
    pub tree: BvhNode,
    pub bbox: Aabb,
}

/// Why construction can be refused.
#[derive(Clone, Copy, Debug, PartialEq, Eq, Structural)]
pub enum BvhError {
    MissingBoundingBox,
    EmptyObjectList,
}

impl BvhError {
    /// A short description of the refusal.
    pub fn message(&self) -> (r: &'static str)
    {
        match self {
            BvhError::MissingBoundingBox => "Object has no bounding box",
            BvhError::EmptyObjectList => "Cannot create BVH from empty object list",
        }
    }
}

/// A ray never meets the object exactly on its surface at a representable
/// parameter: every on-or-inside grid point is strictly inside. Rules out
/// grazing contacts, where a box face touch could hide a boundary hit.
pub open spec fn no_graze(obj: SphereType, ray: Ray) -> bool {
    forall|t: int|
        #[trigger] in_ball(ray, obj.center_spec(ray.time as int), obj.radius_spec(), t)
            ==> strictly_in_ball(ray, obj.center_spec(ray.time as int), obj.radius_spec(), t)
}

/// No grazing contact with any object of the set.
pub open spec fn all_no_graze(objs: Seq<SphereType>, ray: Ray) -> bool {
    forall|i: int| 0 <= i < objs.len() ==> no_graze(#[trigger] objs[i], ray)
}

/// Every key of the left set is at most every key of the right set, by box
/// minimum along the axis.
pub open spec fn keys_below(l: Seq<SphereType>, r: Seq<SphereType>, axis: int) -> bool {
    forall|i: int, j: int|
        0 <= i < l.len() && 0 <= j < r.len() ==> #[trigger] l[i].box_min_key(axis)
            <= #[trigger] r[j].box_min_key(axis)
}

/// The least box minimum of a non-empty set along the axis (the lower end
/// of the joint extent).
pub open spec fn bounds_lo(objs: Seq<SphereType>, axis: int) -> int
    decreases objs.len(),
{
    if objs.len() <= 1 {
        objs[0].box_min_key(axis)
    } else {
        min_i(bounds_lo(objs.drop_last(), axis), objs[objs.len() - 1].box_min_key(axis))
    }
}

/// The greatest box maximum of a non-empty set along the axis (the upper
/// end of the joint extent).
pub open spec fn bounds_hi(objs: Seq<SphereType>, axis: int) -> int
    decreases objs.len(),
{
    if objs.len() <= 1 {
        objs[0].box_max_key(axis)
    } else {
        crate::sphere::max_i(
            bounds_hi(objs.drop_last(), axis),
            objs[objs.len() - 1].box_max_key(axis),
        )
    }
}

/// The spread of the set's joint bounding box along the axis.
pub open spec fn extent(objs: Seq<SphereType>, axis: int) -> int {
    bounds_hi(objs, axis) - bounds_lo(objs, axis)
}

/// The axis spreads the set at least as widely as any of the three.
pub open spec fn is_widest_axis(objs: Seq<SphereType>, axis: int) -> bool {
    &&& extent(objs, axis) >= extent(objs, 0)
    &&& extent(objs, axis) >= extent(objs, 1)
    &&& extent(objs, axis) >= extent(objs, 2)
}

/// Whether a branch partitions its objects by box minimum along the axis;
/// leaves partition trivially.
pub open spec fn node_partition(node: BvhNode, axis: int) -> bool {
    match node {
        BvhNode::Branch { left, right, .. } => keys_below(left.objs(), right.objs(), axis),
        BvhNode::Leaf { .. } => true,
    }
}

/// Non-decreasing box minimum along the axis.
pub open spec fn sorted_by_key(objs: Seq<SphereType>, axis: int) -> bool {
    forall|i: int, j: int|
        0 <= i <= j < objs.len() ==> #[trigger] objs[i].box_min_key(axis)
            <= #[trigger] objs[j].box_min_key(axis)
}

/// An object's exact box bounds the object.
proof fn lemma_box_spec_bounds(obj: SphereType)
    requires
        obj.wf(),
    ensures
        box_bounds_object(obj.box_spec(), obj),
        obj.box_spec().wf(),
{
    match obj {
        SphereType::Static(_) => {},
        SphereType::Moving(_) => {},
    }
}

impl BvhNode {
    /// The objects of the subtree, left to right.
    pub open spec fn objs(self) -> Seq<SphereType>
        decreases self,
    {
        match self {
            BvhNode::Leaf { object, .. } => seq![object],
            BvhNode::Branch { left, right, .. } => left.objs() + right.objs(),
        }
    }

    pub open spec fn bbox_of(self) -> Aabb {
        match self {
            BvhNode::Leaf { bbox, .. } => bbox,
            BvhNode::Branch { bbox, .. } => bbox,
        }
    }

    /// Every leaf's box is exactly its object's box, every branch's box is
    /// exactly the union of its children's, every object is within bounds,
    /// and each branch partitions its objects by the box minimum along some
    /// axis (the left child's keys never exceed the right child's).
    pub open spec fn wf(self) -> bool
        decreases self,
    {
        match self {
            BvhNode::Leaf { object, bbox } => object.wf() && bbox.wf() && bbox
                == object.box_spec(),
            BvhNode::Branch { left, right, bbox } => left.wf() && right.wf() && bbox.wf() && bbox
                == crate::aabb::box_union(left.bbox_of(), right.bbox_of()) && exists|axis: int|
                0 <= axis < 3 && #[trigger] keys_below(left.objs(), right.objs(), axis),
        }
    }

    /// The box of this node.
    pub fn bounding_box(&self) -> (r: Aabb)
        ensures
            r == self.bbox_of(),
    {
        match self {
            BvhNode::Leaf { bbox, .. } => *bbox,
            BvhNode::Branch { bbox, .. } => *bbox,
        }
    }

    /// The closest hit within the subtree: the left child is searched over
    /// the full range, then the right child only below the left hit, so the
    /// right answer, when present, is strictly closer and wins.
    pub fn hit(&self, r: &Ray, ray_t: Interval) -> (res: Option<HitRecord>)
        requires
            self.wf(),
            r.wf(),
            !r.direction.is_zero(),
            all_time_ok(self.objs(), r.time as int),
            -T_LIMIT <= ray_t.min <= T_LIMIT,
            -T_LIMIT <= ray_t.max <= T_LIMIT,
        ensures
            res matches Some(rec) ==> is_record_of(
                self.objs(),
                *r,
                ray_t.min as int,
                ray_t.max as int,
                rec,
            ) && rec.wf() && ray_t.min < rec.t < ray_t.max,
            all_no_graze(self.objs(), *r) ==> match res {
                None => hits_nothing(self.objs(), *r, ray_t.min as int, ray_t.max as int),
                Some(rec) => is_closest_hit(
                    self.objs(),
                    *r,
                    ray_t.min as int,
                    ray_t.max as int,
                    rec.t as int,
                ),
            },
        decreases *self,
    {
        let ghost lo = ray_t.min as int;
        let ghost hi = ray_t.max as int;
        match self {
            BvhNode::Leaf { object, bbox } => {
                if !bbox.hit(r, ray_t) {
                    proof {
                        if all_no_graze(self.objs(), *r) {
                            assert forall|i: int|
                                0 <= i < self.objs().len() implies (#[trigger] self.objs()[i].hit_t(
                                *r,
                                lo,
                                hi,
                            )) is None by {
                                assert(self.objs()[i] == *object);
                                lemma_box_spec_bounds(*object);
                                lemma_object_hit_admitted(*object, *bbox, *r, lo, hi);
                            }
                        }
                    }
                    return None;
                }
                let res = object.hit(r, ray_t);
                proof {
                    assert(self.objs()[0] == *object);
                    if res is Some {
                        let rec = res->Some_0;
                        assert(is_record_of(self.objs(), *r, lo, hi, rec));
                        assert(is_closest_hit(self.objs(), *r, lo, hi, rec.t as int));
                    } else {
                        assert forall|i: int|
                            0 <= i < self.objs().len() implies (#[trigger] self.objs()[i].hit_t(
                            *r,
                            lo,
                            hi,
                        )) is None by {}
                    }
                }
                res
            },
            BvhNode::Branch { left, right, bbox } => {
                let ghost lobjs = left.objs();
                let ghost robjs = right.objs();
                proof {
                    assert(self.objs() == lobjs + robjs);
                    lemma_split_context(self.objs(), lobjs, robjs, *r, ray_t.min as int);
                }
                if !bbox.hit(r, ray_t) {
                    proof {
                        if all_no_graze(self.objs(), *r) {
                            assert forall|i: int|
                                0 <= i < self.objs().len() implies (#[trigger] self.objs()[i].hit_t(
                                *r,
                                lo,
                                hi,
                            )) is None by {
                                lemma_node_hit_admitted(*self, *r, lo, hi, i);
                            }
                        }
                    }
                    return None;
                }
                let hit_left = left.hit(r, ray_t);
                match hit_left {
                    Some(lrec) => {
                        let hit_right = right.hit(
                            r,
                            Interval { min: ray_t.min, max: lrec.t },
                        );
                        proof {
                            lemma_combine_shrunk(
                                lobjs,
                                robjs,
                                *r,
                                lo,
                                hi,
                                lrec,
                                hit_right,
                                all_no_graze(self.objs(), *r),
                            );
                        }
                        match hit_right {
                            Some(rrec) => Some(rrec),
                            None => Some(lrec),
                        }
                    },
                    None => {
                        let hit_right = right.hit(r, ray_t);
                        proof {
                            lemma_combine_left_miss(
                                lobjs,
                                robjs,
                                *r,
                                lo,
                                hi,
                                hit_right,
                                all_no_graze(self.objs(), *r),
                            );
                        }
                        hit_right
                    },
                }
            },
        }
    }
}

/// A hit of the leaf object is admitted by the leaf's box.
proof fn lemma_object_hit_admitted(object: SphereType, bbox: Aabb, ray: Ray, lo: int, hi: int)
    requires
        object.wf(),
        ray.wf(),
        bbox.wf(),
        box_bounds_object(bbox, object),
        object.time_ok(ray.time as int),
        no_graze(object, ray),
        -T_LIMIT <= lo <= T_LIMIT,
        -T_LIMIT <= hi <= T_LIMIT,
    ensures
        object.hit_t(ray, lo, hi) matches Some(t) ==> slab_admits(bbox, ray, lo, hi, t),
{
    if object.hit_t(ray, lo, hi) is Some {
        let t = object.hit_t(ray, lo, hi)->Some_0;
        let c = object.center_spec(ray.time as int);
        let radius = object.radius_spec();
        assert(lo < t < hi);
        assert(in_ball(ray, c, radius, t));
        assert(strictly_in_ball(ray, c, radius, t));
        if object is Moving {
            lemma_moving_center_between(object, ray.time as int);
        }
        assert(c.0.wf());
        lemma_hit_point_in_ball(ray, c, radius, t);
        assert(crate::aabb::in_slab_axis(
            ray.origin.0.x as int,
            ray.direction.x as int,
            bbox.x.min as int,
            bbox.x.max as int,
            t,
        )) by {
            lemma_axis_from_ball(
                ray.origin.0.x as int,
                ray.direction.x as int,
                c.0.x as int,
                radius,
                bbox.x.min as int,
                bbox.x.max as int,
                t,
            );
        }
        assert(crate::aabb::in_slab_axis(
            ray.origin.0.y as int,
            ray.direction.y as int,
            bbox.y.min as int,
            bbox.y.max as int,
            t,
        )) by {
            lemma_axis_from_ball(
                ray.origin.0.y as int,
                ray.direction.y as int,
                c.0.y as int,
                radius,
                bbox.y.min as int,
                bbox.y.max as int,
                t,
            );
        }
        assert(crate::aabb::in_slab_axis(
            ray.origin.0.z as int,
            ray.direction.z as int,
            bbox.z.min as int,
            bbox.z.max as int,
            t,
        )) by {
            lemma_axis_from_ball(
                ray.origin.0.z as int,
                ray.direction.z as int,
                c.0.z as int,
                radius,
                bbox.z.min as int,
                bbox.z.max as int,
                t,
            );
        }
    }
}

/// The interpolated center of a moving sphere stays between the keyframe
/// centers on each axis.
proof fn lemma_moving_center_between(object: SphereType, time: int)
    requires
        object is Moving,
        object.wf(),
        object.time_ok(time),
    ensures
        ({
            let m = object->Moving_0;
            let c = center_at_spec(m.center.0, m.center.1, m.time.0 as int, m.time.1 as int, time);
            &&& min_i(m.center.0.0.x as int, m.center.1.0.x as int) <= c.0.x <= crate::sphere::max_i(
                m.center.0.0.x as int,
                m.center.1.0.x as int,
            )
            &&& min_i(m.center.0.0.y as int, m.center.1.0.y as int) <= c.0.y <= crate::sphere::max_i(
                m.center.0.0.y as int,
                m.center.1.0.y as int,
            )
            &&& min_i(m.center.0.0.z as int, m.center.1.0.z as int) <= c.0.z <= crate::sphere::max_i(
                m.center.0.0.z as int,
                m.center.1.0.z as int,
            )
        }),
{
    let m = object->Moving_0;
    lemma_lerp_between(m.center.0.0.x as int, m.center.1.0.x as int, m.time.0 as int, m.time.1 as int, time);
    lemma_lerp_between(m.center.0.0.y as int, m.center.1.0.y as int, m.time.0 as int, m.time.1 as int, time);
    lemma_lerp_between(m.center.0.0.z as int, m.center.1.0.z as int, m.time.0 as int, m.time.1 as int, time);
}

/// One coordinate of the linear interpolation stays between its endpoints.
proof fn lemma_lerp_between(c0: int, c1: int, t0: int, t1: int, time: int)
    requires
        t0 < t1,
        t0 <= time <= t1,
        -COORD_LIMIT <= c0 <= COORD_LIMIT,
        -COORD_LIMIT <= c1 <= COORD_LIMIT,
    ensures
        min_i(c0, c1) <= c0 + (c1 - c0) * (time - t0) / (t1 - t0) <= crate::sphere::max_i(c0, c1),
{
    let d = c1 - c0;
    let tau = time - t0;
    let dt = t1 - t0;
    if d >= 0 {
        assert(0 <= d * tau <= d * dt) by (nonlinear_arith)
            requires
                d >= 0,
                0 <= tau <= dt,
        ;
        crate::fixed::lemma_div_le(d * tau, dt, d);
        vstd::arithmetic::div_mod::lemma_div_pos_is_pos(d * tau, dt);
    } else {
        assert(d * dt <= d * tau <= 0) by (nonlinear_arith)
            requires
                d < 0,
                0 <= tau <= dt,
        ;
        crate::fixed::lemma_div_ge(d * tau, dt, d);
        vstd::arithmetic::div_mod::lemma_fundamental_div_mod(d * tau, dt);
        assert(d * tau / dt <= 0) by (nonlinear_arith)
            requires
                d * tau <= 0,
                dt > 0,
                d * tau == dt * (d * tau / dt) + (d * tau) % dt,
                0 <= (d * tau) % dt < dt,
        ;
    }
}

/// From strict containment in the ball to strict membership in any slab
/// containing the sphere's extent on that axis.
proof fn lemma_axis_from_ball(o: int, d: int, c: int, radius: int, lo_b: int, hi_b: int, t: int)
    requires
        radius >= 1,
        lo_b <= c - radius,
        c + radius <= hi_b,
        crate::fixed::SCALE * (c - radius) < crate::fixed::SCALE * o + t * d < crate::fixed::SCALE
            * (c + radius),
    ensures
        crate::aabb::in_slab_axis(o, d, lo_b, hi_b, t),
{
    let s = crate::fixed::SCALE as int;
    assert(s * lo_b <= s * (c - radius) && s * (c + radius) <= s * hi_b) by (nonlinear_arith)
        requires
            lo_b <= c - radius,
            c + radius <= hi_b,
            s == 1000,
    ;
    if d == 0 {
        assert(lo_b <= o <= hi_b) by (nonlinear_arith)
            requires
                s == 1000,
                s * lo_b < s * o + t * 0,
                s * o + t * 0 < s * hi_b,
                t * 0 == 0,
        ;
        assert(t * 0 == 0) by (nonlinear_arith);
    }
}

/// A hit of any object under a well-formed node is admitted by the node's
/// box.
proof fn lemma_node_hit_admitted(node: BvhNode, ray: Ray, lo: int, hi: int, i: int)
    requires
        node.wf(),
        ray.wf(),
        -T_LIMIT <= lo <= T_LIMIT,
        -T_LIMIT <= hi <= T_LIMIT,
        0 <= i < node.objs().len(),
        node.objs()[i].time_ok(ray.time as int),
        no_graze(node.objs()[i], ray),
    ensures
        node.objs()[i].hit_t(ray, lo, hi) matches Some(t) ==> slab_admits(
            node.bbox_of(),
            ray,
            lo,
            hi,
            t,
        ),
    decreases node,
{
    match node {
        BvhNode::Leaf { object, bbox } => {
            assert(node.objs()[i] == object);
            lemma_box_spec_bounds(object);
            lemma_object_hit_admitted(object, bbox, ray, lo, hi);
        },
        BvhNode::Branch { left, right, bbox } => {
            crate::aabb::lemma_union_contains(left.bbox_of(), right.bbox_of());
            if i < left.objs().len() {
                assert(node.objs()[i] == left.objs()[i]);
                lemma_node_hit_admitted(*left, ray, lo, hi, i);
                if node.objs()[i].hit_t(ray, lo, hi) is Some {
                    let t = node.objs()[i].hit_t(ray, lo, hi)->Some_0;
                    lemma_slab_monotone(left.bbox_of(), bbox, ray, lo, hi, t);
                }
            } else {
                assert(node.objs()[i] == right.objs()[i - left.objs().len()]);
                lemma_node_hit_admitted(*right, ray, lo, hi, i - left.objs().len());
                if node.objs()[i].hit_t(ray, lo, hi) is Some {
                    let t = node.objs()[i].hit_t(ray, lo, hi)->Some_0;
                    lemma_slab_monotone(right.bbox_of(), bbox, ray, lo, hi, t);
                }
            }
        },
    }
}

/// Splitting a time-consistent, graze-free set keeps both halves so.
proof fn lemma_split_context(all: Seq<SphereType>, l: Seq<SphereType>, rr: Seq<SphereType>, ray: Ray, lo: int)
    requires
        all == l + rr,
        all_time_ok(all, ray.time as int),
    ensures
        all_time_ok(l, ray.time as int),
        all_time_ok(rr, ray.time as int),
        all_no_graze(all, ray) ==> all_no_graze(l, ray) && all_no_graze(rr, ray),
{
    assert forall|i: int| 0 <= i < l.len() implies (#[trigger] l[i]).time_ok(
        ray.time as int,
    ) by {
        assert(all[i] == l[i]);
    }
    assert forall|i: int| 0 <= i < rr.len() implies (#[trigger] rr[i]).time_ok(
        ray.time as int,
    ) by {
        assert(all[i + l.len()] == rr[i]);
    }
    if all_no_graze(all, ray) {
        assert forall|i: int| 0 <= i < l.len() implies no_graze(#[trigger] l[i], ray) by {
            assert(all[i] == l[i]);
        }
        assert forall|i: int| 0 <= i < rr.len() implies no_graze(#[trigger] rr[i], ray) by {
            assert(all[i + l.len()] == rr[i]);
        }
    }
}

/// Combines the children's answers when the left child hit: the right
/// child was searched only below the left hit, so its answer, if any, is
/// the overall closest; otherwise the left hit is.
proof fn lemma_combine_shrunk(
    l: Seq<SphereType>,
    rr: Seq<SphereType>,
    ray: Ray,
    lo: int,
    hi: int,
    lrec: HitRecord,
    hit_right: Option<HitRecord>,
    graze_free: bool,
)
    requires
        is_record_of(l, ray, lo, hi, lrec),
        lrec.wf(),
        lo < lrec.t < hi,
        graze_free ==> is_closest_hit(l, ray, lo, hi, lrec.t as int),
        hit_right matches Some(rec) ==> is_record_of(rr, ray, lo, lrec.t as int, rec) && rec.wf()
            && lo < rec.t < lrec.t,
        graze_free ==> match hit_right {
            None => hits_nothing(rr, ray, lo, lrec.t as int),
            Some(rec) => is_closest_hit(rr, ray, lo, lrec.t as int, rec.t as int),
        },
    ensures
        hit_right matches Some(rec) ==> is_record_of(l + rr, ray, lo, hi, rec) && lo < rec.t < hi,
        hit_right is None ==> is_record_of(l + rr, ray, lo, hi, lrec),
        graze_free ==> match hit_right {
            None => is_closest_hit(l + rr, ray, lo, hi, lrec.t as int),
            Some(rec) => is_closest_hit(l + rr, ray, lo, hi, rec.t as int),
        },
{
    let all = l + rr;
    match hit_right {
        Some(rec) => {
            let w = choose|i: int|
                0 <= i < rr.len() && (#[trigger] rr[i].hit_t(ray, lo, lrec.t as int)) == Some(
                    rec.t as int,
                ) && rec == rr[i].record_spec(ray, rec.t as int);
            lemma_hit_narrow(rr[w], ray, lo, hi, lrec.t as int);
            assert(all[w + l.len()] == rr[w]);
            assert(is_record_of(all, ray, lo, hi, rec));
            if graze_free {
                assert forall|i: int|
                    0 <= i < all.len() implies ((#[trigger] all[i].hit_t(ray, lo, hi)) matches Some(
                    t2,
                ) ==> rec.t as int <= t2) by {
                    if i < l.len() {
                        assert(all[i] == l[i]);
                    } else {
                        assert(all[i] == rr[i - l.len()]);
                        lemma_hit_narrow(rr[i - l.len()], ray, lo, hi, lrec.t as int);
                    }
                }
            }
        },
        None => {
            let w = choose|i: int|
                0 <= i < l.len() && (#[trigger] l[i].hit_t(ray, lo, hi)) == Some(lrec.t as int)
                    && lrec == l[i].record_spec(ray, lrec.t as int);
            assert(all[w] == l[w]);
            assert(is_record_of(all, ray, lo, hi, lrec));
            if graze_free {
                assert forall|i: int|
                    0 <= i < all.len() implies ((#[trigger] all[i].hit_t(ray, lo, hi)) matches Some(
                    t2,
                ) ==> lrec.t as int <= t2) by {
                    if i < l.len() {
                        assert(all[i] == l[i]);
                    } else {
                        assert(all[i] == rr[i - l.len()]);
                        lemma_hit_narrow(rr[i - l.len()], ray, lo, hi, lrec.t as int);
                        assert(rr[i - l.len()].hit_t(ray, lo, lrec.t as int) is None);
                    }
                }
            }
        },
    }
}

/// Combines the children's answers when the left child missed: the right
/// child's full-range answer stands for the whole node.
proof fn lemma_combine_left_miss(
    l: Seq<SphereType>,
    rr: Seq<SphereType>,
    ray: Ray,
    lo: int,
    hi: int,
    hit_right: Option<HitRecord>,
    graze_free: bool,
)
    requires
        graze_free ==> hits_nothing(l, ray, lo, hi),
        hit_right matches Some(rec) ==> is_record_of(rr, ray, lo, hi, rec) && rec.wf() && lo
            < rec.t < hi,
        graze_free ==> match hit_right {
            None => hits_nothing(rr, ray, lo, hi),
            Some(rec) => is_closest_hit(rr, ray, lo, hi, rec.t as int),
        },
    ensures
        hit_right matches Some(rec) ==> is_record_of(l + rr, ray, lo, hi, rec),
        graze_free ==> match hit_right {
            None => hits_nothing(l + rr, ray, lo, hi),
            Some(rec) => is_closest_hit(l + rr, ray, lo, hi, rec.t as int),
        },
{
    let all = l + rr;
    match hit_right {
        Some(rec) => {
            let w = choose|i: int|
                0 <= i < rr.len() && (#[trigger] rr[i].hit_t(ray, lo, hi)) == Some(rec.t as int)
                    && rec == rr[i].record_spec(ray, rec.t as int);
            assert(all[w + l.len()] == rr[w]);
            assert(is_record_of(all, ray, lo, hi, rec));
            if graze_free {
                assert forall|i: int|
                    0 <= i < all.len() implies ((#[trigger] all[i].hit_t(ray, lo, hi)) matches Some(
                    t2,
                ) ==> rec.t as int <= t2) by {
                    if i < l.len() {
                        assert(all[i] == l[i]);
                    } else {
                        assert(all[i] == rr[i - l.len()]);
                    }
                }
            }
        },
        None => {
            if graze_free {
                assert forall|i: int|
                    0 <= i < all.len() implies (#[trigger] all[i].hit_t(ray, lo, hi)) is None by {
                    if i < l.len() {
                        assert(all[i] == l[i]);
                    } else {
                        assert(all[i] == rr[i - l.len()]);
                    }
                }
            }
        },
    }
}

/// Every object's exact box under a well-formed node is contained in the
/// node's box; in particular the root box bounds every object of the
/// scene.
pub proof fn lemma_node_box_bounds(node: BvhNode, i: int)
    requires
        node.wf(),
        0 <= i < node.objs().len(),
    ensures
        box_contains(node.bbox_of(), node.objs()[i].box_spec()),
    decreases node,
{
    match node {
        BvhNode::Leaf { object, bbox } => {
            assert(node.objs()[i] == object);
        },
        BvhNode::Branch { left, right, bbox } => {
            crate::aabb::lemma_union_contains(left.bbox_of(), right.bbox_of());
            if i < left.objs().len() {
                assert(node.objs()[i] == left.objs()[i]);
                lemma_node_box_bounds(*left, i);
            } else {
                assert(node.objs()[i] == right.objs()[i - left.objs().len()]);
                lemma_node_box_bounds(*right, i - left.objs().len());
            }
        },
    }
}

/// Every object under a well-formed node is well formed.
pub proof fn lemma_node_objs_wf(node: BvhNode)
    requires
        node.wf(),
    ensures
        all_wf(node.objs()),
    decreases node,
{
    match node {
        BvhNode::Leaf { object, .. } => {
            assert(node.objs()[0] == object);
        },
        BvhNode::Branch { left, right, .. } => {
            lemma_node_objs_wf(*left);
            lemma_node_objs_wf(*right);
            let l = left.objs();
            let rr = right.objs();
            assert forall|i: int| 0 <= i < node.objs().len() implies (#[trigger] node.objs()[i]).wf() by {
                if i < l.len() {
                    assert(node.objs()[i] == l[i]);
                } else {
                    assert(node.objs()[i] == rr[i - l.len()]);
                }
            }
        },
    }
}

/// Rearranging a set of objects changes no hit answer: sets with equal
/// multisets miss together, and a closest hit of one is a closest hit of
/// the other.
pub proof fn lemma_hit_set_rearranged(
    objs1: Seq<SphereType>,
    objs2: Seq<SphereType>,
    ray: Ray,
    lo: int,
    hi: int,
)
    requires
        objs1.to_multiset() == objs2.to_multiset(),
    ensures
        hits_nothing(objs1, ray, lo, hi) == hits_nothing(objs2, ray, lo, hi),
        forall|t: int|
            #[trigger] is_closest_hit(objs1, ray, lo, hi, t) == is_closest_hit(
                objs2,
                ray,
                lo,
                hi,
                t,
            ),
{
    lemma_hit_set_one_way(objs1, objs2, ray, lo, hi);
    lemma_hit_set_one_way(objs2, objs1, ray, lo, hi);
}

proof fn lemma_hit_set_one_way(
    objs1: Seq<SphereType>,
    objs2: Seq<SphereType>,
    ray: Ray,
    lo: int,
    hi: int,
)
    requires
        objs1.to_multiset() == objs2.to_multiset(),
    ensures
        hits_nothing(objs1, ray, lo, hi) ==> hits_nothing(objs2, ray, lo, hi),
        forall|t: int|
            #[trigger] is_closest_hit(objs1, ray, lo, hi, t) ==> is_closest_hit(
                objs2,
                ray,
                lo,
                hi,
                t,
            ),
{
    broadcast use vstd::seq_lib::group_to_multiset_ensures;

    if hits_nothing(objs1, ray, lo, hi) {
        assert forall|j: int|
            0 <= j < objs2.len() implies (#[trigger] objs2[j].hit_t(ray, lo, hi)) is None by {
            assert(objs2.contains(objs2[j]));
            assert(objs2.to_multiset().count(objs2[j]) > 0);
            assert(objs1.to_multiset().count(objs2[j]) > 0);
            assert(objs1.contains(objs2[j]));
            let i = choose|i: int| 0 <= i < objs1.len() && objs1[i] == objs2[j];
            assert(objs1[i].hit_t(ray, lo, hi) is None);
        }
    }
    assert forall|t: int|
        #[trigger] is_closest_hit(objs1, ray, lo, hi, t) implies is_closest_hit(
        objs2,
        ray,
        lo,
        hi,
        t,
    ) by {
        let w = choose|i: int|
            0 <= i < objs1.len() && (#[trigger] objs1[i].hit_t(ray, lo, hi)) == Some(t);
        assert(objs1.contains(objs1[w]));
        assert(objs1.to_multiset().count(objs1[w]) > 0);
        assert(objs2.to_multiset().count(objs1[w]) > 0);
        assert(objs2.contains(objs1[w]));
        let w2 = choose|i: int| 0 <= i < objs2.len() && objs2[i] == objs1[w];
        assert(objs2[w2].hit_t(ray, lo, hi) == Some(t));
        assert forall|j: int|
            0 <= j < objs2.len() implies ((#[trigger] objs2[j].hit_t(ray, lo, hi)) matches Some(
            t2,
        ) ==> t <= t2) by {
            assert(objs2.contains(objs2[j]));
            assert(objs2.to_multiset().count(objs2[j]) > 0);
            assert(objs1.to_multiset().count(objs2[j]) > 0);
            assert(objs1.contains(objs2[j]));
            let i = choose|i: int| 0 <= i < objs1.len() && objs1[i] == objs2[j];
            assert(objs1[i].hit_t(ray, lo, hi) matches Some(t2) ==> t <= t2);
        }
    }
}

/// The closest-hit characterization picks out at most one answer: two
/// results over rearrangements of the same objects — the tree's pruned
/// traversal and the flat brute-force scan — agree exactly, on presence
/// and on the parameter.
pub proof fn lemma_closest_hit_unique(
    objs: Seq<SphereType>,
    objs2: Seq<SphereType>,
    ray: Ray,
    lo: int,
    hi: int,
    a: Option<int>,
    b: Option<int>,
)
    requires
        objs.to_multiset() == objs2.to_multiset(),
        match a {
            None => hits_nothing(objs, ray, lo, hi),
            Some(t) => is_closest_hit(objs, ray, lo, hi, t),
        },
        match b {
            None => hits_nothing(objs2, ray, lo, hi),
            Some(t) => is_closest_hit(objs2, ray, lo, hi, t),
        },
    ensures
        a == b,
{
    lemma_hit_set_rearranged(objs, objs2, ray, lo, hi);
    match (a, b) {
        (Some(t1), Some(t2)) => {
            assert(is_closest_hit(objs, ray, lo, hi, t2));
            let w1 = choose|i: int|
                0 <= i < objs.len() && (#[trigger] objs[i].hit_t(ray, lo, hi)) == Some(t1);
            let w2 = choose|i: int|
                0 <= i < objs.len() && (#[trigger] objs[i].hit_t(ray, lo, hi)) == Some(t2);
            assert(t1 <= t2 && t2 <= t1);
        },
        (Some(t1), None) => {
            assert(hits_nothing(objs, ray, lo, hi));
            let w1 = choose|i: int|
                0 <= i < objs.len() && (#[trigger] objs[i].hit_t(ray, lo, hi)) == Some(t1);
            assert(objs[w1].hit_t(ray, lo, hi) is None);
        },
        (None, Some(t2)) => {
            assert(is_closest_hit(objs, ray, lo, hi, t2));
            let w2 = choose|i: int|
                0 <= i < objs.len() && (#[trigger] objs[i].hit_t(ray, lo, hi)) == Some(t2);
            assert(objs[w2].hit_t(ray, lo, hi) is None);
        },
        (None, None) => {},
    }
}

impl Bvh {
    pub open spec fn wf(self) -> bool {
        self.tree.wf() && self.bbox == self.tree.bbox_of()
    }

    /// The objects of the scene in tree order (construction keeps the
    /// order given).
    pub open spec fn objects(self) -> Seq<SphereType> {
        self.tree.objs()
    }

    /// Builds the tree over the given objects; refused exactly when the
    /// list is empty. Every object carries a bounding box, so the
    /// missing-box refusal cannot arise.
    pub fn new(objects: Vec<SphereType>) -> (r: Result<Bvh, BvhError>)
        requires
            all_wf(objects@),
        ensures
            r is Err <==> objects@.len() == 0,
            r matches Err(e) ==> e == BvhError::EmptyObjectList,
            r matches Ok(b) ==> b.wf() && b.objects().to_multiset() == objects@.to_multiset()
                && b.objects().len() == objects@.len(),
    {
        if objects.len() == 0 {
            return Err(BvhError::EmptyObjectList);
        }
        let tree = build(objects);
        let bbox = tree.bounding_box();
        Ok(Bvh { tree, bbox })
    }

    /// The closest hit of the scene, by pruned traversal.
    pub fn hit(&self, r: &Ray, ray_t: Interval) -> (res: Option<HitRecord>)
        requires
            self.wf(),
            r.wf(),
            !r.direction.is_zero(),
            all_time_ok(self.objects(), r.time as int),
            -T_LIMIT <= ray_t.min <= T_LIMIT,
            -T_LIMIT <= ray_t.max <= T_LIMIT,
        ensures
            res matches Some(rec) ==> is_record_of(
                self.objects(),
                *r,
                ray_t.min as int,
                ray_t.max as int,
                rec,
            ) && rec.wf() && ray_t.min < rec.t < ray_t.max,
            all_no_graze(self.objects(), *r) ==> match res {
                None => hits_nothing(self.objects(), *r, ray_t.min as int, ray_t.max as int),
                Some(rec) => is_closest_hit(
                    self.objects(),
                    *r,
                    ray_t.min as int,
                    ray_t.max as int,
                    rec.t as int,
                ),
            },
    {
        self.tree.hit(r, ray_t)
    }

    /// The box of the whole scene.
    pub fn bounding_box(&self) -> (r: Aabb)
        ensures
            r == self.bbox,
    {
        self.bbox
    }
}

/// Builds a subtree over a non-empty list, as construction prescribes: the
/// objects are sorted by bounding-box minimum along the widest axis of
/// their joint extent (stably, extracting the first minimum each round),
/// split at the midpoint, and wrapped in a branch whose box is the union
/// of the children's. The subtree holds exactly the given objects, and
/// every left-child key stays at or below every right-child key.
fn build(objects: Vec<SphereType>) -> (r: BvhNode)
    requires
        objects@.len() >= 1,
        all_wf(objects@),
    ensures
        r.wf(),
        r.objs().to_multiset() == objects@.to_multiset(),
        r.objs().len() == objects@.len(),
        objects@.len() >= 2 ==> exists|axis: int|
            0 <= axis < 3 && is_widest_axis(objects@, axis) && #[trigger] node_partition(r, axis),
    decreases objects@.len(),
{
    let ghost orig = objects@;
    if objects.len() == 1 {
        proof {
            assert(orig[0].wf());
        }
        let object = objects[0].clone();
        let bbox = object.bounding_box();
        proof {
            assert(seq![object] =~= orig);
            assert(object.wf());
            assert(bbox.wf());
        }
        return BvhNode::Leaf { object, bbox };
    }
    let axis = widest_axis(&objects);
    let ghost pre_sort = objects@;
    let mut sorted_vec = sort_by_box_min(objects, axis);
    let ghost sorted_seq = sorted_vec@;
    let mid = sorted_vec.len() / 2;
    let right_vec = sorted_vec.split_off(mid);
    let ghost lpart = sorted_vec@;
    let ghost rpart = right_vec@;
    proof {
        assert(sorted_vec@.len() >= 1 && right_vec@.len() >= 1);
        assert forall|i: int| 0 <= i < lpart.len() implies (#[trigger] lpart[i]).wf() by {
            assert(lpart[i] == sorted_seq[i]);
        }
        assert forall|i: int| 0 <= i < rpart.len() implies (#[trigger] rpart[i]).wf() by {
            assert(rpart[i] == sorted_seq[i + mid]);
        }
        assert forall|i: int, j: int|
            0 <= i < lpart.len() && 0 <= j < rpart.len() implies #[trigger] lpart[i].box_min_key(
            axis as int,
        ) <= #[trigger] rpart[j].box_min_key(axis as int) by {
            assert(lpart[i] == sorted_seq[i]);
            assert(rpart[j] == sorted_seq[mid + j]);
            assert(sorted_seq[i].box_min_key(axis as int) <= sorted_seq[mid + j].box_min_key(
                axis as int,
            ));
        }
        assert(keys_below(lpart, rpart, axis as int));
    }
    let left = build(sorted_vec);
    let right = build(right_vec);
    let lb = left.bounding_box();
    let rb = right.bounding_box();
    let bbox = Aabb::surrounding(&lb, &rb);
    proof {
        lemma_keys_below_rearranged(lpart, rpart, left.objs(), right.objs(), axis as int);
        assert(0 <= (axis as int) < 3 && keys_below(left.objs(), right.objs(), axis as int));
        assert(bbox.wf());
        vstd::seq_lib::lemma_multiset_commutative(left.objs(), right.objs());
        vstd::seq_lib::lemma_multiset_commutative(lpart, rpart);
        assert(lpart + rpart =~= sorted_seq);
        assert((left.objs() + right.objs()).to_multiset() =~= orig.to_multiset());
    }
    let node = BvhNode::Branch { left: Box::new(left), right: Box::new(right), bbox };
    proof {
        assert(node_partition(node, axis as int));
        assert(is_widest_axis(orig, axis as int));
    }
    node
}

/// A key partition survives rearranging each side.
proof fn lemma_keys_below_rearranged(
    l1: Seq<SphereType>,
    r1: Seq<SphereType>,
    l2: Seq<SphereType>,
    r2: Seq<SphereType>,
    axis: int,
)
    requires
        l1.to_multiset() == l2.to_multiset(),
        r1.to_multiset() == r2.to_multiset(),
        keys_below(l1, r1, axis),
    ensures
        keys_below(l2, r2, axis),
{
    broadcast use vstd::seq_lib::group_to_multiset_ensures;

    assert forall|i: int, j: int|
        0 <= i < l2.len() && 0 <= j < r2.len() implies #[trigger] l2[i].box_min_key(axis)
        <= #[trigger] r2[j].box_min_key(axis) by {
        assert(l2.contains(l2[i]));
        assert(l2.to_multiset().count(l2[i]) > 0);
        assert(l1.to_multiset().count(l2[i]) > 0);
        assert(l1.contains(l2[i]));
        assert(r2.contains(r2[j]));
        assert(r2.to_multiset().count(r2[j]) > 0);
        assert(r1.to_multiset().count(r2[j]) > 0);
        assert(r1.contains(r2[j]));
        let wi = choose|w: int| 0 <= w < l1.len() && l1[w] == l2[i];
        let wj = choose|w: int| 0 <= w < r1.len() && r1[w] == r2[j];
        assert(l1[wi].box_min_key(axis) <= r1[wj].box_min_key(axis));
    }
}

/// The bounding-box minimum of an object along one axis: the sort key.
fn object_min_key(obj: &SphereType, axis: usize) -> (k: i64)
    requires
        axis < 3,
        obj.wf(),
    ensures
        k as int == obj.box_min_key(axis as int),
        -8_000_000 <= k <= 8_000_000,
{
    let b = obj.bounding_box();
    let iv = b.axis_interval(axis);
    iv.min
}

/// The axis (x, y or z) along which the objects' joint bounding box has
/// the greatest extent; later axes win ties.
fn widest_axis(objects: &Vec<SphereType>) -> (axis: usize)
    requires
        objects@.len() >= 1,
        all_wf(objects@),
    ensures
        axis < 3,
        is_widest_axis(objects@, axis as int),
{
    let b0 = objects[0].bounding_box();
    let mut lo_x = b0.x.min;
    let mut hi_x = b0.x.max;
    let mut lo_y = b0.y.min;
    let mut hi_y = b0.y.max;
    let mut lo_z = b0.z.min;
    let mut hi_z = b0.z.max;
    let mut k: usize = 1;
    proof {
        assert(objects@.take(1).len() == 1);
        assert(objects@.take(1)[0] == objects@[0]);
    }
    while k < objects.len()
        invariant
            1 <= k <= objects@.len(),
            all_wf(objects@),
            -8_000_000 <= lo_x <= 8_000_000,
            -8_000_000 <= hi_x <= 8_000_000,
            -8_000_000 <= lo_y <= 8_000_000,
            -8_000_000 <= hi_y <= 8_000_000,
            -8_000_000 <= lo_z <= 8_000_000,
            -8_000_000 <= hi_z <= 8_000_000,
            lo_x as int == bounds_lo(objects@.take(k as int), 0),
            hi_x as int == bounds_hi(objects@.take(k as int), 0),
            lo_y as int == bounds_lo(objects@.take(k as int), 1),
            hi_y as int == bounds_hi(objects@.take(k as int), 1),
            lo_z as int == bounds_lo(objects@.take(k as int), 2),
            hi_z as int == bounds_hi(objects@.take(k as int), 2),
        decreases objects@.len() - k,
    {
        let ghost prefix = objects@.take(k as int);
        let b = objects[k].bounding_box();
        proof {
            assert(objects@.take(k as int + 1).drop_last() =~= prefix);
            assert(objects@.take(k as int + 1)[k as int] == objects@[k as int]);
            assert(objects@.take(k as int + 1).len() == k as int + 1);
        }
        if b.x.min < lo_x {
            lo_x = b.x.min;
        }
        if b.x.max > hi_x {
            hi_x = b.x.max;
        }
        if b.y.min < lo_y {
            lo_y = b.y.min;
        }
        if b.y.max > hi_y {
            hi_y = b.y.max;
        }
        if b.z.min < lo_z {
            lo_z = b.z.min;
        }
        if b.z.max > hi_z {
            hi_z = b.z.max;
        }
        k = k + 1;
    }
    proof {
        assert(objects@.take(objects@.len() as int) =~= objects@);
    }
    let ex = hi_x - lo_x;
    let ey = hi_y - lo_y;
    let ez = hi_z - lo_z;
    if ez >= ex && ez >= ey {
        2
    } else if ey >= ex {
        1
    } else {
        0
    }
}

/// Stable sort by bounding-box minimum along the axis: each round extracts
/// the first remaining object of least key, so equal keys keep their
/// original order.
fn sort_by_box_min(objects: Vec<SphereType>, axis: usize) -> (out: Vec<SphereType>)
    requires
        axis < 3,
        all_wf(objects@),
    ensures
        out@.to_multiset() == objects@.to_multiset(),
        out@.len() == objects@.len(),
        all_wf(out@),
        sorted_by_key(out@, axis as int),
{
    let ghost orig = objects@;
    let mut rest = objects;
    let mut out: Vec<SphereType> = Vec::new();
    proof {
        broadcast use vstd::seq_lib::group_to_multiset_ensures;
        broadcast use vstd::multiset::group_multiset_axioms;

        assert(out@ =~= Seq::<SphereType>::empty());
        lemma_empty_seq_multiset(out@);
        assert(out@.to_multiset().add(rest@.to_multiset()) =~= orig.to_multiset());
    }
    while rest.len() > 0
        invariant
            axis < 3,
            all_wf(rest@),
            all_wf(out@),
            out@.to_multiset().add(rest@.to_multiset()) == orig.to_multiset(),
            out@.len() + rest@.len() == orig.len(),
            sorted_by_key(out@, axis as int),
            keys_below(out@, rest@, axis as int),
        decreases rest@.len(),
    {
        let mut m: usize = 0;
        let mut best = object_min_key(&rest[0], axis);
        let mut t: usize = 1;
        while t < rest.len()
            invariant
                axis < 3,
                all_wf(rest@),
                rest@.len() > 0,
                m < rest@.len(),
                1 <= t <= rest@.len(),
                best as int == rest@[m as int].box_min_key(axis as int),
                forall|q: int|
                    0 <= q < t ==> best as int <= #[trigger] rest@[q].box_min_key(axis as int),
            decreases rest@.len() - t,
        {
            let kq = object_min_key(&rest[t], axis);
            if kq < best {
                best = kq;
                m = t;
            }
            t = t + 1;
        }
        let ghost rest_old = rest@;
        let ghost out_old = out@;
        let x = rest.remove(m);
        proof {
            broadcast use vstd::seq_lib::group_to_multiset_ensures;
            broadcast use vstd::multiset::group_multiset_axioms;

            assert(rest_old.contains(x));
            assert(rest@.to_multiset() =~= rest_old.to_multiset().remove(x));
            assert(out_old.push(x).to_multiset() =~= out_old.to_multiset().insert(x));
            assert(out_old.push(x).to_multiset().add(rest@.to_multiset()) =~= out_old.to_multiset().add(
                rest_old.to_multiset(),
            ));
            assert forall|i: int| 0 <= i < rest@.len() implies (#[trigger] rest@[i]).wf() by {
                if i < m as int {
                    assert(rest@[i] == rest_old[i]);
                } else {
                    assert(rest@[i] == rest_old[i + 1]);
                }
            }
            assert forall|i: int, j: int|
                0 <= i <= j < out_old.push(x).len() implies #[trigger] out_old.push(x)[i].box_min_key(
                axis as int,
            ) <= #[trigger] out_old.push(x)[j].box_min_key(axis as int) by {
                if j < out_old.len() {
                    assert(out_old.push(x)[i] == out_old[i]);
                    assert(out_old.push(x)[j] == out_old[j]);
                } else {
                    assert(out_old.push(x)[j] == x);
                    if i < out_old.len() {
                        assert(out_old.push(x)[i] == out_old[i]);
                        assert(out_old[i].box_min_key(axis as int) <= rest_old[m as int].box_min_key(
                            axis as int,
                        ));
                    }
                }
            }
            assert forall|i: int, j: int|
                0 <= i < out_old.push(x).len() && 0 <= j < rest@.len() implies #[trigger] out_old.push(
                x,
            )[i].box_min_key(axis as int) <= #[trigger] rest@[j].box_min_key(axis as int) by {
                let ghost rj = if j < m as int {
                    j
                } else {
                    j + 1
                };
                assert(rest@[j] == rest_old[rj]);
                if i < out_old.len() {
                    assert(out_old.push(x)[i] == out_old[i]);
                    assert(out_old[i].box_min_key(axis as int) <= rest_old[rj].box_min_key(
                        axis as int,
                    ));
                } else {
                    assert(out_old.push(x)[i] == x);
                    assert(best as int <= rest_old[rj].box_min_key(axis as int));
                }
            }
        }
        out.push(x);
    }
    proof {
        broadcast use vstd::multiset::group_multiset_axioms;

        assert(rest@ =~= Seq::<SphereType>::empty());
        lemma_empty_seq_multiset(rest@);
        assert(out@.to_multiset() =~= orig.to_multiset());
    }
    out
}

/// The multiset of the empty sequence is empty.
proof fn lemma_empty_seq_multiset(s: Seq<SphereType>)
    requires
        s.len() == 0,
    ensures
        s.to_multiset() =~= Multiset::<SphereType>::empty(),
{
    broadcast use vstd::seq_lib::group_to_multiset_ensures;
    broadcast use vstd::multiset::group_multiset_axioms;

    assert forall|x: SphereType| s.to_multiset().count(x) == 0 by {
        if s.to_multiset().count(x) > 0 {
            assert(s.contains(x));
        }
    }
}

} // verus!
