//! The kinematic entity: position and velocity in fixed-point raw units,
//! per-tick integration, and the distance query used by the collision test.

use vstd::prelude::*;
use crate::fixed::{POS_LIMIT, VEL_LIMIT};
use crate::geom::mag_fp;

verus! {

/// A projectile in the plane. Both simulation bodies use this type: the
/// maneuvering target and the pursuing interceptor.
#[derive(Clone, Copy, PartialEq, Eq, Structural, Debug)]
pub struct Target {
    pub x: i64,
    pub y: i64,
    pub vx: i64,
    pub vy: i64,
}

/// The pursuing body has the same kinematic state as the target.
pub type Interceptor = Target;

impl Target {
    /// Position within `POS_LIMIT` and velocity within `VEL_LIMIT` per
    /// component, the ranges the fixed-point arithmetic is sized for.
    pub open spec fn wf(self) -> bool {
        &&& -POS_LIMIT <= self.x <= POS_LIMIT
        &&& -POS_LIMIT <= self.y <= POS_LIMIT
        &&& -VEL_LIMIT <= self.vx <= VEL_LIMIT
        &&& -VEL_LIMIT <= self.vy <= VEL_LIMIT
    }

    pub fn new(x: i64, y: i64, vx: i64, vy: i64) -> (t: Target)
        requires
            -POS_LIMIT <= x <= POS_LIMIT,
            -POS_LIMIT <= y <= POS_LIMIT,
            -VEL_LIMIT <= vx <= VEL_LIMIT,
            -VEL_LIMIT <= vy <= VEL_LIMIT,
        ensures
            t == (Target { x, y, vx, vy }),
            t.wf(),
    {
        Target { x, y, vx, vy }
    }

    /// One tick of integration: the position advances by the velocity (one
    /// tick is one unit of time); the velocity is untouched.
    pub fn update(&mut self)
        requires
            old(self).wf(),
            -POS_LIMIT <= old(self).x + old(self).vx <= POS_LIMIT,
            -POS_LIMIT <= old(self).y + old(self).vy <= POS_LIMIT,
        ensures
            final(self).x == old(self).x + old(self).vx,
            final(self).y == old(self).y + old(self).vy,
            final(self).vx == old(self).vx,
            final(self).vy == old(self).vy,
            final(self).wf(),
    {
        self.x = self.x + self.vx;
        self.y = self.y + self.vy;
    }

    /// Euclidean distance to another entity, exact per `mag_fp` of the
    /// position difference.
    pub fn distance_to(&self, other: &Target) -> (d: i64)
        requires
            self.wf(),
            other.wf(),
        ensures
            d == mag_fp(self.x - other.x, self.y - other.y),
            d >= 0,
    {
        crate::geom::distance_between(self.x, self.y, other.x, other.y)
    }
}

} // verus!
