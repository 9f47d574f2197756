//! A closed numeric acceptance window for scalars.

use vstd::prelude::*;
use crate::fixed::Fx;

verus! {

/// An acceptance window: used to bound valid ray-hit parameters and to clamp
/// color channels into a displayable range.
#[derive(Clone, Copy, Debug, PartialEq, Eq, Structural)]
pub struct Interval {
    pub min: Fx,
    pub max: Fx,
}

/// Mirror of clamping a raw value into `[min, max]`.
pub open spec fn clamp_raw(x: int, min: int, max: int) -> int {
    if x < min {
        min
    } else if x > max {
        max
    } else {
        x
    }
}

impl Interval {
    /// Builds the window `[min, max]`.
    pub fn new(min: Fx, max: Fx) -> (r: Interval)
        ensures
            r.min == min,
            r.max == max,
    {
        Interval { min, max }
    }

    /// Whether `t` lies strictly inside the window.
    pub fn surrounds(&self, t: Fx) -> (r: bool)
        ensures
            r == (self.min.raw < t.raw && t.raw < self.max.raw),
    {
        self.min.raw < t.raw && t.raw < self.max.raw
    }

    /// Restricts a scalar into `[min, max]`.
    pub fn clamp(&self, x: Fx) -> (r: Fx)
        ensures
            r.raw == clamp_raw(x.raw as int, self.min.raw as int, self.max.raw as int),
    {
        if x.raw < self.min.raw {
            self.min
        } else if x.raw > self.max.raw {
            self.max
        } else {
            x
        }
    }
}

} // verus!
