//! Movement resolution: aggregate the collision events naming an entity
//! as subject into per-axis bounds and clamp its intended displacement
//! into them.

use vstd::prelude::*;

use crate::rect::{right_edge, bot_edge, rect_wf};
use crate::entity::{Entity, entities_wf, TIME_LIMIT, lemma_displacement_bounded};
use crate::collision::{CollisionDirection, CollisionEvent};

verus! {

/// A well-formed collision event: both rectangle snapshots well-formed.
pub open spec fn event_wf(e: CollisionEvent) -> bool {
    &&& rect_wf(e.subject_rect)
    &&& rect_wf(e.object_rect)
}

pub open spec fn events_wf(evs: Seq<CollisionEvent>) -> bool {
    forall|k: int| 0 <= k < evs.len() ==> event_wf(#[trigger] evs[k])
}

/// The gap an event leaves between the subject and the object along the
/// event's axis: how far the subject may still move toward the object
/// before the touching faces meet.
pub open spec fn event_gap(e: CollisionEvent) -> int {
    match e.dir {
        CollisionDirection::Left => e.object_rect.x - right_edge(e.subject_rect),
        CollisionDirection::Right => right_edge(e.object_rect) - e.subject_rect.x,
        CollisionDirection::Above => e.object_rect.y - bot_edge(e.subject_rect),
        CollisionDirection::Below => bot_edge(e.object_rect) - e.subject_rect.y,
    }
}

/// The event names `key` as subject and approaches from `dir`.
pub open spec fn event_relevant(e: CollisionEvent, key: u32, dir: CollisionDirection) -> bool {
    e.subject == key && e.dir == dir
}

/// Minimum gap over the relevant events among the first `n`; `None`
/// when there is none (the axis is unconstrained in that direction).
pub open spec fn min_gap_prefix(key: u32, dir: CollisionDirection, evs: Seq<CollisionEvent>, n: int) -> Option<int>
    decreases n,
{
    if n <= 0 {
        None
    } else {
        let rest = min_gap_prefix(key, dir, evs, n - 1);
        if event_relevant(evs[n - 1], key, dir) {
            let g = event_gap(evs[n - 1]);
            match rest {
                None => Some(g),
                Some(m) => Some(if g < m { g } else { m }),
            }
        } else {
            rest
        }
    }
}

/// Maximum gap over the relevant events among the first `n`.
pub open spec fn max_gap_prefix(key: u32, dir: CollisionDirection, evs: Seq<CollisionEvent>, n: int) -> Option<int>
    decreases n,
{
    if n <= 0 {
        None
    } else {
        let rest = max_gap_prefix(key, dir, evs, n - 1);
        if event_relevant(evs[n - 1], key, dir) {
            let g = event_gap(evs[n - 1]);
            match rest {
                None => Some(g),
                Some(m) => Some(if g > m { g } else { m }),
            }
        } else {
            rest
        }
    }
}

/// Minimum gap over all relevant events.
pub open spec fn min_gap(key: u32, dir: CollisionDirection, evs: Seq<CollisionEvent>) -> Option<int> {
    min_gap_prefix(key, dir, evs, evs.len() as int)
}

/// Maximum gap over all relevant events.
pub open spec fn max_gap(key: u32, dir: CollisionDirection, evs: Seq<CollisionEvent>) -> Option<int> {
    max_gap_prefix(key, dir, evs, evs.len() as int)
}

/// The four per-entity displacement bounds, in the order
/// `(min_dx, max_dx, min_dy, max_dy)`:
/// - `max_dx`, the rightward limit, tightest gap over Left events;
/// - `min_dx`, the leftward limit, loosest (largest) gap over Right
///   events, gaps in that direction being negative;
/// - `max_dy`, the downward limit, tightest gap over Above events;
/// - `min_dy`, the upward limit, loosest gap over Below events.
pub open spec fn bounds_of(key: u32, evs: Seq<CollisionEvent>) -> (Option<int>, Option<int>, Option<int>, Option<int>) {
    (
        max_gap(key, CollisionDirection::Right, evs),
        min_gap(key, CollisionDirection::Left, evs),
        max_gap(key, CollisionDirection::Below, evs),
        min_gap(key, CollisionDirection::Above, evs),
    )
}

/// Saturating clamp of `v` into `[lo, hi]`, a missing bound leaving
/// that side unconstrained; the lower bound is applied first.
pub open spec fn clamped(v: int, lo: Option<int>, hi: Option<int>) -> int {
    match (lo, hi) {
        (Some(l), Some(h)) => if v <= l { l } else if v >= h { h } else { v },
        (Some(l), None) => if v <= l { l } else { v },
        (None, Some(h)) => if v >= h { h } else { v },
        (None, None) => v,
    }
}

/// The resolved per-axis displacement of entity `e` under the events
/// `evs`: the intended displacement `(vx * t, vy * t)`, each axis
/// clamped independently into its bounds.
pub open spec fn movement_of(e: Entity, evs: Seq<CollisionEvent>, t: int) -> (int, int) {
    (
        clamped(e.vx * t, max_gap(e.key, CollisionDirection::Right, evs), min_gap(e.key, CollisionDirection::Left, evs)),
        clamped(e.vy * t, max_gap(e.key, CollisionDirection::Below, evs), min_gap(e.key, CollisionDirection::Above, evs)),
    )
}

/// The resolved movements of the first `n` entities, in entity order:
/// one `(key, dx, dy)` triple per movable entity whose clamped
/// displacement is non-zero on at least one axis.
pub open spec fn movements_prefix(entities: Seq<Entity>, evs: Seq<CollisionEvent>, n: int, t: int) -> Seq<(u32, i64, i64)>
    decreases n,
{
    if n <= 0 {
        Seq::empty()
    } else {
        let rest = movements_prefix(entities, evs, n - 1, t);
        let e = entities[n - 1];
        let (dx, dy) = movement_of(e, evs, t);
        if e.obeys_gravity && !(dx == 0 && dy == 0) {
            rest.push((e.key, dx as i64, dy as i64))
        } else {
            rest
        }
    }
}

/// The resolved movements of the whole snapshot.
pub open spec fn movements_of(entities: Seq<Entity>, evs: Seq<CollisionEvent>, t: int) -> Seq<(u32, i64, i64)> {
    movements_prefix(entities, evs, entities.len() as int, t)
}

/// The view of an optional bound, for relating executable accumulators
/// to the gap specifications.
pub open spec fn opt_int(o: Option<i64>) -> Option<int> {
    match o {
        None => None,
        Some(v) => Some(v as int),
    }
}

/// The four displacement bounds for the entity keyed `subject_key`,
/// aggregated over all events naming it as subject, in the order
/// `(min_dx, max_dx, min_dy, max_dy)`; `None` means unconstrained.
pub fn movement_bounds(subject_key: u32, collisions: &Vec<CollisionEvent>) -> (r: (Option<i64>, Option<i64>, Option<i64>, Option<i64>))
    requires
        events_wf(collisions@),
    ensures
        (opt_int(r.0), opt_int(r.1), opt_int(r.2), opt_int(r.3)) == bounds_of(subject_key, collisions@),
{
    let mut min_dx: Option<i64> = None;
    let mut max_dx: Option<i64> = None;
    let mut min_dy: Option<i64> = None;
    let mut max_dy: Option<i64> = None;
    let mut k: usize = 0;
    while k < collisions.len()
        invariant
            events_wf(collisions@),
            k <= collisions.len(),
            opt_int(min_dx) == max_gap_prefix(subject_key, CollisionDirection::Right, collisions@, k as int),
            opt_int(max_dx) == min_gap_prefix(subject_key, CollisionDirection::Left, collisions@, k as int),
            opt_int(min_dy) == max_gap_prefix(subject_key, CollisionDirection::Below, collisions@, k as int),
            opt_int(max_dy) == min_gap_prefix(subject_key, CollisionDirection::Above, collisions@, k as int),
        decreases collisions.len() - k,
    {
        let ev = collisions[k];
        if ev.subject == subject_key {
            match ev.dir {
                CollisionDirection::Left => {
                    let g = ev.object_rect.left() - ev.subject_rect.right();
                    max_dx = match max_dx {
                        None => Some(g),
                        Some(m) => Some(if g < m { g } else { m }),
                    };
                },
                CollisionDirection::Right => {
                    let g = ev.object_rect.right() - ev.subject_rect.left();
                    min_dx = match min_dx {
                        None => Some(g),
                        Some(m) => Some(if g > m { g } else { m }),
                    };
                },
                CollisionDirection::Above => {
                    let g = ev.object_rect.top() - ev.subject_rect.bot();
                    max_dy = match max_dy {
                        None => Some(g),
                        Some(m) => Some(if g < m { g } else { m }),
                    };
                },
                CollisionDirection::Below => {
                    let g = ev.object_rect.bot() - ev.subject_rect.top();
                    min_dy = match min_dy {
                        None => Some(g),
                        Some(m) => Some(if g > m { g } else { m }),
                    };
                },
            }
        }
        k += 1;
    }
    (min_dx, max_dx, min_dy, max_dy)
}

/// Saturating clamp: at or below the lower bound snaps to it, at or
/// above the upper bound snaps to it, otherwise the value passes
/// through; a missing bound leaves that side unconstrained.
pub fn clamp(val: i64, min: Option<i64>, max: Option<i64>) -> (r: i64)
    ensures
        r as int == clamped(val as int, opt_int(min), opt_int(max)),
{
    match min {
        Some(l) if val <= l => l,
        _ => match max {
            Some(h) if val >= h => h,
            _ => val,
        },
    }
}

/// For every movable entity, clamp its intended displacement into the
/// bounds its events allow and append one `(key, dx, dy)` triple when
/// the result is non-zero on either axis; entities with zero net
/// displacement are omitted.
pub fn compute_movement(
    entities: &Vec<Entity>,
    collisions: &Vec<CollisionEvent>,
    movements: &mut Vec<(u32, i64, i64)>,
    dt: i64,
)
    requires
        entities_wf(entities@),
        events_wf(collisions@),
        0 <= dt <= TIME_LIMIT,
    ensures
        final(movements)@ == old(movements)@ + movements_of(entities@, collisions@, dt as int),
{
    let ghost t_int: int = dt as int;
    let mut i: usize = 0;
    while i < entities.len()
        invariant
            entities_wf(entities@),
            events_wf(collisions@),
            0 <= dt <= TIME_LIMIT,
            i <= entities.len(),
            movements@ == old(movements)@ + movements_prefix(entities@, collisions@, i as int, t_int),
            t_int == dt as int,
        decreases entities.len() - i,
    {
        let entity = entities[i];
        if entity.obeys_gravity {
            let (min_x, max_x, min_y, max_y) = movement_bounds(entity.key, collisions);
            proof {
                lemma_displacement_bounded(entity.vx, dt);
                lemma_displacement_bounded(entity.vy, dt);
            }
            let x_movt = clamp(entity.vx * dt, min_x, max_x);
            let y_movt = clamp(entity.vy * dt, min_y, max_y);
            if x_movt != 0 || y_movt != 0 {
                movements.push((entity.key, x_movt, y_movt));
            }
        }
        i += 1;
    }
}

} // verus!
