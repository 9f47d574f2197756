//! A parametric line: origin plus a scaled direction.

use vstd::prelude::*;
use crate::fixed::Fx;
use crate::vec3::Point3;
use crate::vec3::Vec3;
use crate::vec3::add_spec;
use crate::vec3::scale_spec;
use crate::vec3::vec_wf;

verus! {

/// Bound on the raw coordinates of scene geometry and of rays handed to the
/// intersection tests: it keeps every intermediate of the hit quadratic
/// inside the wide integer range.
pub const COORD_MAX_RAW: i64 = 1_000_000_000;

/// The ray's origin and direction lie within the coordinate range that the
/// intersection arithmetic admits.
pub open spec fn ray_in_range(r: Ray) -> bool {
    &&& crate::vec3::vec_bounded(r.origin, COORD_MAX_RAW as int)
    &&& crate::vec3::vec_bounded(r.direction, COORD_MAX_RAW as int)
}

/// A ray, immutable after construction; evaluated as `origin + t * direction`.
#[derive(Clone, Copy, Debug, PartialEq, Eq, Structural)]
pub struct Ray {
    pub origin: Point3,
    pub direction: Vec3,
}

impl Ray {
    /// Builds a ray from an origin and a direction.
    pub fn new(origin: Point3, direction: Vec3) -> (r: Ray)
        ensures
            r.origin == origin,
            r.direction == direction,
    {
        Ray { origin, direction }
    }

    /// Whether the ray lies inside the coordinate range the intersection
    /// arithmetic admits.
    pub fn in_range(&self) -> (b: bool)
        ensures
            b == ray_in_range(*self),
    {
        let c = COORD_MAX_RAW;
        -c <= self.origin.x.raw && self.origin.x.raw <= c && -c <= self.origin.y.raw
            && self.origin.y.raw <= c && -c <= self.origin.z.raw && self.origin.z.raw <= c && -c
            <= self.direction.x.raw && self.direction.x.raw <= c && -c <= self.direction.y.raw
            && self.direction.y.raw <= c && -c <= self.direction.z.raw && self.direction.z.raw <= c
    }

    /// The point at parameter `t`: `origin + t * direction`.
    pub fn at(&self, t: Fx) -> (r: Point3)
        requires
            vec_wf(self.origin),
            vec_wf(self.direction),
            t.wf(),
        ensures
            r == add_spec(self.origin, scale_spec(self.direction, t)),
            vec_wf(r),
    {
        self.origin.add(self.direction.scale(t))
    }
}

} // verus!
