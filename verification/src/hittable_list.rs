//! The scene aggregate: a collection of surfaces queried for the nearest hit.

use vstd::prelude::*;
use crate::fixed::Fx;
use crate::hittable::HitRecord;
use crate::hittable::hit_record_wf;
use crate::interval::Interval;
use crate::ray::Ray;
use crate::ray::ray_in_range;
use crate::sphere::Sphere;
use crate::sphere::spec_hit;
use crate::sphere::sphere_wf;

verus! {

/// An insertion-ordered collection of spheres; the nearest accepted hit wins,
/// and on exactly equal parameters the earliest surface keeps the hit because
/// the acceptance window shrinks strictly.
pub struct HittableList {
    pub objects: Vec<Sphere>,
}

/// Every owned surface is well-formed.
pub open spec fn list_wf(l: HittableList) -> bool {
    forall|i: int| 0 <= i < l.objects@.len() ==> sphere_wf(#[trigger] l.objects@[i])
}

/// Mirror of the nearest-hit fold: each surface is queried with the window
/// tightened to the closest parameter accepted so far.
pub open spec fn list_hit(objs: Seq<Sphere>, r: Ray, tmin: int, tmax: int) -> Option<HitRecord>
    decreases objs.len(),
{
    if objs.len() == 0 {
        None
    } else {
        let prev = list_hit(objs.drop_last(), r, tmin, tmax);
        let cur_max = match prev {
            Some(rec) => rec.t.raw as int,
            None => tmax,
        };
        match spec_hit(objs.last(), r, tmin, cur_max) {
            Some(rec) => Some(rec),
            None => prev,
        }
    }
}

impl HittableList {
    /// Builds an empty scene.
    pub fn new() -> (l: HittableList)
        ensures
            l.objects@.len() == 0,
            list_wf(l),
    {
        HittableList { objects: Vec::new() }
    }

    /// Appends a surface to the scene.
    pub fn add(&mut self, object: Sphere)
        requires
            sphere_wf(object),
            list_wf(*old(self)),
        ensures
            final(self).objects@ == old(self).objects@.push(object),
            list_wf(*final(self)),
    {
        self.objects.push(object);
    }

    /// Queries every surface and returns the nearest accepted hit, or none.
    pub fn hit(&self, r: &Ray, ray_t: Interval) -> (res: Option<HitRecord>)
        requires
            list_wf(*self),
            ray_in_range(*r),
            ray_t.min.wf(),
            ray_t.max.wf(),
        ensures
            res == list_hit(self.objects@, *r, ray_t.min.raw as int, ray_t.max.raw as int),
            res matches Some(rec) ==> {
                &&& ray_t.min.raw < rec.t.raw < ray_t.max.raw
                &&& hit_record_wf(rec)
            },
    {
        let ghost tmin = ray_t.min.raw as int;
        let ghost tmax = ray_t.max.raw as int;
        let mut rec: Option<HitRecord> = None;
        let mut closest: Fx = ray_t.max;
        let n = self.objects.len();
        let mut i: usize = 0;
        while i < n
            invariant
                n == self.objects@.len(),
                0 <= i <= n,
                list_wf(*self),
                ray_in_range(*r),
                ray_t.min.wf(),
                ray_t.max.wf(),
                tmin == ray_t.min.raw as int,
                tmax == ray_t.max.raw as int,
                rec == list_hit(self.objects@.take(i as int), *r, tmin, tmax),
                closest.raw as int == match rec {
                    Some(h) => h.t.raw as int,
                    None => tmax,
                },
                closest.wf(),
                rec matches Some(h) ==> tmin < h.t.raw < tmax && hit_record_wf(h),
            decreases n - i,
        {
            let ghost prefix = self.objects@.take(i as int);
            let cur = &self.objects[i];
            if let Some(h) = cur.hit(r, Interval::new(ray_t.min, closest)) {
                closest = h.t;
                rec = Some(h);
            }
            proof {
                assert(self.objects@.take(i + 1).drop_last() =~= prefix);
                assert(self.objects@.take(i + 1).last() == self.objects@[i as int]);
            }
            i = i + 1;
        }
        proof {
            assert(self.objects@.take(n as int) =~= self.objects@);
        }
        rec
    }
}

} // verus!
