//! Entities: a keyed rectangle with a velocity and a movable flag.

use vstd::prelude::*;

use crate::rect::{Rect, rect_wf, moved_rect};

verus! {

/// Largest velocity magnitude a well-formed entity may carry.
pub const VEL_LIMIT: i64 = 0x1000_0000;

/// Largest time delta a tick may advance by.
pub const TIME_LIMIT: i64 = 0x1_0000;

/// A snapshot of one simulated entity.  Only entities with
/// `obeys_gravity` set are swept as collision subjects; every entity
/// may act as a collision object.
#[derive(Debug, Clone, Copy, PartialEq, Eq, Structural)]
pub struct Entity {
    /// Unique integer key, stable for the entity's lifetime within a tick.
    pub key: u32,
    /// Current bounding rectangle.
    pub aabb: Rect,
    /// Horizontal velocity, in sub-units per time unit.
    pub vx: i64,
    /// Vertical velocity (positive is downward), in sub-units per time unit.
    pub vy: i64,
    /// Whether the entity is subject to physics and is swept as a subject.
    pub obeys_gravity: bool,
}

/// A well-formed entity: a well-formed rectangle and bounded velocity.
pub open spec fn entity_wf(e: Entity) -> bool {
    &&& rect_wf(e.aabb)
    &&& -VEL_LIMIT <= e.vx <= VEL_LIMIT
    &&& -VEL_LIMIT <= e.vy <= VEL_LIMIT
}

/// A well-formed entity snapshot: every entity well-formed, keys unique.
pub open spec fn entities_wf(s: Seq<Entity>) -> bool {
    &&& forall|i: int| 0 <= i < s.len() ==> entity_wf(#[trigger] s[i])
    &&& forall|i: int, j: int|
        0 <= i < s.len() && 0 <= j < s.len() && i != j ==> #[trigger] s[i].key != #[trigger] s[j].key
}

/// The rectangle `e` would occupy after moving for `t` time units at
/// its current velocity.
pub open spec fn swept_rect(e: Entity, t: int) -> Rect {
    moved_rect(e.aabb, e.vx * t, e.vy * t)
}

/// A velocity component integrated over a bounded time delta stays far
/// inside the `i64` range.
pub proof fn lemma_displacement_bounded(v: i64, t: i64)
    requires
        -VEL_LIMIT <= v <= VEL_LIMIT,
        0 <= t <= TIME_LIMIT,
    ensures
        -VEL_LIMIT * TIME_LIMIT <= v * t <= VEL_LIMIT * TIME_LIMIT,
{
    assert(-VEL_LIMIT * TIME_LIMIT <= v * t <= VEL_LIMIT * TIME_LIMIT) by (nonlinear_arith)
        requires
            -VEL_LIMIT <= v <= VEL_LIMIT,
            0 <= t <= TIME_LIMIT,
    ;
}

} // verus!
