//! The result of a successful ray/surface intersection query.

use vstd::prelude::*;
use crate::fixed::Fx;
use crate::fixed::sat;
use crate::material::Material;
use crate::material::material_wf;
use crate::ray::Ray;
use crate::vec3::Point3;
use crate::vec3::Vec3;
use crate::vec3::dot_raw;
use crate::vec3::neg_spec;
use crate::vec3::vec_wf;

verus! {

/// A transient record of one intersection: the hit point, the unit-scale
/// normal (always flipped to oppose the incoming ray), the ray parameter,
/// which side was struck, and the struck surface's material.
#[derive(Clone, Copy, Debug, PartialEq, Eq, Structural)]
pub struct HitRecord {
    pub p: Point3,
    pub normal: Vec3,
    pub t: Fx,
    pub front_face: bool,
    pub mat: Material,
}

/// All numeric fields of the record are representable.
pub open spec fn hit_record_wf(rec: HitRecord) -> bool {
    &&& vec_wf(rec.p)
    &&& vec_wf(rec.normal)
    &&& rec.t.wf()
    &&& material_wf(rec.mat)
}

impl HitRecord {
    /// Builds a record; the stored face flag is settled afterwards by
    /// [`HitRecord::set_face_normal`].
    pub fn new(p: Point3, normal: Vec3, t: Fx, mat: Material) -> (rec: HitRecord)
        ensures
            rec == (HitRecord { p, normal, t, front_face: true, mat }),
    {
        HitRecord { p, normal, t, front_face: true, mat }
    }

    /// Settles which side of the surface was struck: the hit is front-facing
    /// when the ray runs against the outward normal, and the stored normal is
    /// flipped so that it always opposes the incoming ray.
    pub fn set_face_normal(&mut self, r: &Ray)
        requires
            vec_wf(old(self).normal),
            vec_wf(r.direction),
        ensures
            final(self).front_face == (sat(dot_raw(r.direction, old(self).normal)) < 0),
            final(self).front_face ==> final(self).normal == old(self).normal,
            !final(self).front_face ==> final(self).normal == neg_spec(old(self).normal),
            final(self).p == old(self).p,
            final(self).t == old(self).t,
            final(self).mat == old(self).mat,
            vec_wf(final(self).normal),
    {
        let d = Vec3::dot(r.direction, self.normal);
        self.front_face = d.raw < 0;
        if !self.front_face {
            self.normal = self.normal.neg();
        }
    }
}

} // verus!
