//! A flat list of scene objects, searched by brute force: the reference
//! semantics the tree is held to.

use crate::fixed::T_LIMIT;
use crate::hittable::HitRecord;
use crate::interval::Interval;
use crate::ray::Ray;
use crate::sphere::SphereType;
use vstd::prelude::*;

verus! {

/// Every object within bounds.
pub open spec fn all_wf(objs: Seq<SphereType>) -> bool {
    forall|i: int| 0 <= i < objs.len() ==> (#[trigger] objs[i]).wf()
}

/// Every moving object's time window holds the given time.
pub open spec fn all_time_ok(objs: Seq<SphereType>, time: int) -> bool {
    forall|i: int| 0 <= i < objs.len() ==> (#[trigger] objs[i]).time_ok(time)
}

/// No object of the set reports a hit over the range.
pub open spec fn hits_nothing(objs: Seq<SphereType>, ray: Ray, lo: int, hi: int) -> bool {
    forall|i: int| 0 <= i < objs.len() ==> (#[trigger] objs[i].hit_t(ray, lo, hi)) is None
}

/// `t` is a hit of some object of the set, and no object hits closer.
pub open spec fn is_closest_hit(objs: Seq<SphereType>, ray: Ray, lo: int, hi: int, t: int) -> bool {
    &&& exists|i: int| 0 <= i < objs.len() && (#[trigger] objs[i].hit_t(ray, lo, hi)) == Some(t)
    &&& forall|i: int|
        0 <= i < objs.len() ==> ((#[trigger] objs[i].hit_t(ray, lo, hi)) matches Some(t2) ==> t
            <= t2)
}

/// The record belongs to some object hitting at its parameter.
pub open spec fn is_record_of(objs: Seq<SphereType>, ray: Ray, lo: int, hi: int, rec: HitRecord) -> bool {
    exists|i: int|
        0 <= i < objs.len() && (#[trigger] objs[i].hit_t(ray, lo, hi)) == Some(rec.t as int)
            && rec == objs[i].record_spec(ray, rec.t as int)
}

/// Appending a well-formed object keeps a set well formed.
pub proof fn lemma_all_wf_push(objs: Seq<SphereType>, s: SphereType)
    requires
        all_wf(objs),
        s.wf(),
    ensures
        all_wf(objs.push(s)),
{
    assert forall|i: int| 0 <= i < objs.push(s).len() implies (#[trigger] objs.push(s)[i]).wf() by {
        if i < objs.len() {
            assert(objs.push(s)[i] == objs[i]);
        } else {
            assert(objs.push(s)[i] == s);
        }
    }
}

/// Shrinking or widening only the upper end of the search range changes a
/// single object's answer in the expected ways: a hit seen in the narrow
/// range is the same hit in the wide one; a wide hit below the narrow top
/// survives narrowing; and narrowing never conjures a hit from nothing.
pub proof fn lemma_hit_narrow(obj: SphereType, ray: Ray, lo: int, h: int, hp: int)
    requires
        hp <= h,
    ensures
        obj.hit_t(ray, lo, hp) matches Some(t) ==> obj.hit_t(ray, lo, h) == Some(t),
        obj.hit_t(ray, lo, h) matches Some(t) ==> (t < hp ==> obj.hit_t(ray, lo, hp) == Some(t)),
        obj.hit_t(ray, lo, h) is None ==> obj.hit_t(ray, lo, hp) is None,
        obj.hit_t(ray, lo, h) matches Some(t) ==> (t >= hp ==> obj.hit_t(ray, lo, hp) is None),
{
}

/// A list of objects, hit-tested one by one.
#[derive(Debug)]
pub struct HittableList {
    pub objects: Vec<SphereType>,
}

impl HittableList {
    pub open spec fn wf(self) -> bool {
        all_wf(self.objects@)
    }

    /// An empty list.
    pub fn new() -> (r: HittableList)
        ensures
            r.objects@.len() == 0,
    {
        HittableList { objects: Vec::new() }
    }

    /// Appends an object.
    pub fn add(&mut self, object: SphereType)
        ensures
            final(self).objects@ == old(self).objects@.push(object),
    {
        self.objects.push(object);
    }

    /// The closest hit over all objects: the minimum reported parameter,
    /// found by shrinking the search range to each hit in turn.
    pub fn hit(&self, r: &Ray, ray_t: Interval) -> (res: Option<HitRecord>)
        requires
            self.wf(),
            r.wf(),
            !r.direction.is_zero(),
            all_time_ok(self.objects@, r.time as int),
            -T_LIMIT <= ray_t.min <= T_LIMIT,
            -T_LIMIT <= ray_t.max <= T_LIMIT,
        ensures
            match res {
                None => hits_nothing(self.objects@, *r, ray_t.min as int, ray_t.max as int),
                Some(rec) => {
                    &&& is_closest_hit(
                        self.objects@,
                        *r,
                        ray_t.min as int,
                        ray_t.max as int,
                        rec.t as int,
                    )
                    &&& is_record_of(self.objects@, *r, ray_t.min as int, ray_t.max as int, rec)
                    &&& rec.wf()
                    &&& ray_t.min < rec.t < ray_t.max
                },
            },
    {
        let ghost lo = ray_t.min as int;
        let ghost hi = ray_t.max as int;
        let mut best: Option<HitRecord> = None;
        let mut closest: i64 = ray_t.max;
        let n = self.objects.len();
        let mut k: usize = 0;
        while k < n
            invariant
                n == self.objects@.len(),
                0 <= k <= n,
                self.wf(),
                r.wf(),
                !r.direction.is_zero(),
                all_time_ok(self.objects@, r.time as int),
                -T_LIMIT <= ray_t.min <= T_LIMIT,
                -T_LIMIT <= ray_t.max <= T_LIMIT,
                lo == ray_t.min as int,
                hi == ray_t.max as int,
                -T_LIMIT <= closest <= T_LIMIT,
                closest <= ray_t.max,
                best is None ==> closest == ray_t.max,
                best matches Some(rec) ==> closest == rec.t,
                best matches Some(rec) ==> ray_t.min < rec.t < ray_t.max,
                best matches Some(rec) ==> rec.wf(),
                best matches Some(rec) ==> is_closest_hit(
                    self.objects@.take(k as int),
                    *r,
                    lo,
                    hi,
                    rec.t as int,
                ),
                best matches Some(rec) ==> is_record_of(self.objects@, *r, lo, hi, rec),
                best is None ==> hits_nothing(self.objects@.take(k as int), *r, lo, hi),
            decreases n - k,
        {
            let ghost prefix = self.objects@.take(k as int);
            let obj = &self.objects[k];
            let sub = obj.hit(r, Interval { min: ray_t.min, max: closest });
            proof {
                lemma_hit_narrow(self.objects@[k as int], *r, lo, hi, closest as int);
                assert(self.objects@.take(k as int + 1) =~= self.objects@.take(k as int).push(
                    self.objects@[k as int],
                ));
            }
            let ghost next = self.objects@.take(k as int + 1);
            match sub {
                Some(h) => {
                    proof {
                        assert(self.objects@[k as int].hit_t(*r, lo, hi) == Some(h.t as int));
                        assert(next[k as int] == self.objects@[k as int]);
                        assert forall|i: int|
                            0 <= i < next.len() implies ((#[trigger] next[i].hit_t(*r, lo, hi))
                            matches Some(t2) ==> h.t as int <= t2) by {
                            if i < k as int {
                                assert(next[i] == prefix[i]);
                                if best is Some {
                                    assert(prefix[i].hit_t(*r, lo, hi) matches Some(t2) ==> (
                                    best->Some_0.t as int) <= t2);
                                } else {
                                    assert(prefix[i].hit_t(*r, lo, hi) is None);
                                }
                            }
                        }
                    }
                    closest = h.t;
                    best = Some(h);
                },
                None => {
                    proof {
                        if best is Some {
                            let ghost bt = best->Some_0.t as int;
                            assert forall|i: int|
                                0 <= i < next.len() implies ((#[trigger] next[i].hit_t(
                                *r,
                                lo,
                                hi,
                            )) matches Some(t2) ==> bt <= t2) by {
                                if i < k as int {
                                    assert(next[i] == prefix[i]);
                                    assert(prefix[i].hit_t(*r, lo, hi) matches Some(t2) ==> bt
                                        <= t2);
                                } else {
                                    assert(next[i] == self.objects@[k as int]);
                                }
                            }
                            assert(prefix[0] == next[0] || true);
                            assert(exists|i: int|
                                0 <= i < next.len() && (#[trigger] next[i].hit_t(*r, lo, hi))
                                    == Some(bt)) by {
                                let w = choose|i: int|
                                    0 <= i < prefix.len() && (#[trigger] prefix[i].hit_t(
                                        *r,
                                        lo,
                                        hi,
                                    )) == Some(bt);
                                assert(next[w] == prefix[w]);
                            }
                        } else {
                            assert(closest == ray_t.max);
                            assert forall|i: int|
                                0 <= i < next.len() implies (#[trigger] next[i].hit_t(
                                *r,
                                lo,
                                hi,
                            )) is None by {
                                if i < k as int {
                                    assert(next[i] == prefix[i]);
                                    assert(prefix[i].hit_t(*r, lo, hi) is None);
                                } else {
                                    assert(next[i] == self.objects@[k as int]);
                                }
                            }
                        }
                    }
                },
            }
            k = k + 1;
        }
        proof {
            assert(self.objects@.take(n as int) =~= self.objects@);
        }
        best
    }
}

} // verus!
