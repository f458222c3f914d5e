//! Rays: an origin and a direction, with the point-at-distance query.

use vstd::prelude::*;
use crate::fx::in_range;
use crate::vec3::{Vec3, v_add, v_scale};

verus! {

#[derive(Clone, Copy, PartialEq, Eq, Structural, Debug)]
pub struct Ray {
    pub origin: Vec3,
    pub direction: Vec3,
}

/// The point reached after parameter `t` along the ray.
pub open spec fn ray_at(r: Ray, t: int) -> Vec3 {
    v_add(r.origin, v_scale(t, r.direction))
}

impl Ray {
    pub open spec fn wf(self) -> bool {
        self.origin.wf() && self.direction.wf()
    }

    pub fn new(origin: Vec3, direction: Vec3) -> (r: Ray)
        ensures
            r == (Ray { origin, direction }),
    {
        Ray { origin, direction }
    }

    pub fn at(self, t: i64) -> (p: Vec3)
        requires
            self.wf(),
            in_range(t as int),
        ensures
            p == ray_at(self, t as int),
            p.wf(),
    {
        self.origin.add(self.direction.scale(t))
    }
}

} // verus!
