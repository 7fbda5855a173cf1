//! The guarantees the detector and the resolver give together, stated
//! and proved over the specification-level event and movement models.

use vstd::prelude::*;

use crate::rect::{right_edge, bot_edge, rects_intersect};
use crate::entity::{Entity, entities_wf, swept_rect};
use crate::collision::{
    CollisionDirection, CollisionEvent, classification_matches, pair_collides, event_of,
    subject_events_prefix, subject_events, detected_events_prefix, detected_events,
};
use crate::resolve::{
    event_gap, event_relevant, min_gap_prefix, max_gap_prefix, min_gap, max_gap, movement_of,
    movements_prefix, movements_of,
};

verus! {

/// The tightest bound is a lower bound on every relevant gap.
proof fn lemma_min_gap_le(key: u32, dir: CollisionDirection, evs: Seq<CollisionEvent>, n: int)
    requires
        0 <= n <= evs.len(),
    ensures
        forall|k: int|
            0 <= k < n && event_relevant(#[trigger] evs[k], key, dir) ==> min_gap_prefix(key, dir, evs, n) is Some
                && min_gap_prefix(key, dir, evs, n)->0 <= event_gap(evs[k]),
    decreases n,
{
    if n > 0 {
        lemma_min_gap_le(key, dir, evs, n - 1);
    }
}

/// The tightest bound, when there is one, is the gap of one of the
/// relevant events.
proof fn lemma_min_gap_achieved(key: u32, dir: CollisionDirection, evs: Seq<CollisionEvent>, n: int)
    requires
        0 <= n <= evs.len(),
    ensures
        min_gap_prefix(key, dir, evs, n) is Some ==> exists|k: int|
            0 <= k < n && event_relevant(#[trigger] evs[k], key, dir) && event_gap(evs[k])
                == min_gap_prefix(key, dir, evs, n)->0,
    decreases n,
{
    if n > 0 {
        lemma_min_gap_achieved(key, dir, evs, n - 1);
        let rest = min_gap_prefix(key, dir, evs, n - 1);
        let cur = min_gap_prefix(key, dir, evs, n);
        if event_relevant(evs[n - 1], key, dir) && (rest is None || event_gap(evs[n - 1]) < rest->0) {
            assert(0 <= n - 1 < n && event_relevant(evs[n - 1], key, dir) && event_gap(evs[n - 1])
                == cur->0);
        } else if cur is Some {
            let w = choose|k: int|
                0 <= k < n - 1 && event_relevant(#[trigger] evs[k], key, dir) && event_gap(evs[k])
                    == rest->0;
            assert(0 <= w < n && event_relevant(evs[w], key, dir) && event_gap(evs[w]) == cur->0);
        }
    }
}

/// The loosest bound is an upper bound on every relevant gap.
proof fn lemma_max_gap_ge(key: u32, dir: CollisionDirection, evs: Seq<CollisionEvent>, n: int)
    requires
        0 <= n <= evs.len(),
    ensures
        forall|k: int|
            0 <= k < n && event_relevant(#[trigger] evs[k], key, dir) ==> max_gap_prefix(key, dir, evs, n) is Some
                && max_gap_prefix(key, dir, evs, n)->0 >= event_gap(evs[k]),
    decreases n,
{
    if n > 0 {
        lemma_max_gap_ge(key, dir, evs, n - 1);
    }
}

/// The loosest bound, when there is one, is the gap of one of the
/// relevant events.
proof fn lemma_max_gap_achieved(key: u32, dir: CollisionDirection, evs: Seq<CollisionEvent>, n: int)
    requires
        0 <= n <= evs.len(),
    ensures
        max_gap_prefix(key, dir, evs, n) is Some ==> exists|k: int|
            0 <= k < n && event_relevant(#[trigger] evs[k], key, dir) && event_gap(evs[k])
                == max_gap_prefix(key, dir, evs, n)->0,
    decreases n,
{
    if n > 0 {
        lemma_max_gap_achieved(key, dir, evs, n - 1);
        let rest = max_gap_prefix(key, dir, evs, n - 1);
        let cur = max_gap_prefix(key, dir, evs, n);
        if event_relevant(evs[n - 1], key, dir) && (rest is None || event_gap(evs[n - 1]) > rest->0) {
            assert(0 <= n - 1 < n && event_relevant(evs[n - 1], key, dir) && event_gap(evs[n - 1])
                == cur->0);
        } else if cur is Some {
            let w = choose|k: int|
                0 <= k < n - 1 && event_relevant(#[trigger] evs[k], key, dir) && event_gap(evs[k])
                    == rest->0;
            assert(0 <= w < n && event_relevant(evs[w], key, dir) && event_gap(evs[w]) == cur->0);
        }
    }
}

/// With no relevant event, both aggregates are unconstrained.
proof fn lemma_no_relevant_no_bound(key: u32, dir: CollisionDirection, evs: Seq<CollisionEvent>, n: int)
    requires
        0 <= n <= evs.len(),
        forall|k: int| 0 <= k < evs.len() ==> !event_relevant(#[trigger] evs[k], key, dir),
    ensures
        min_gap_prefix(key, dir, evs, n) is None,
        max_gap_prefix(key, dir, evs, n) is None,
    decreases n,
{
    if n > 0 {
        lemma_no_relevant_no_bound(key, dir, evs, n - 1);
    }
}

/// Multi-obstacle tightening: a direction's tightest stop distance is
/// the smallest gap over all contacts in that direction for the
/// subject — never a larger one — and it is one of those gaps.  For
/// `Left`-direction events this aggregate is the rightward limit
/// `max_dx`; for `Above`-direction events it is the downward limit
/// `max_dy`.
pub proof fn lemma_tightest_bound(key: u32, dir: CollisionDirection, evs: Seq<CollisionEvent>)
    ensures
        forall|k: int|
            0 <= k < evs.len() && event_relevant(#[trigger] evs[k], key, dir) ==> min_gap(key, dir, evs) is Some
                && min_gap(key, dir, evs)->0 <= event_gap(evs[k]),
        min_gap(key, dir, evs) is Some ==> exists|k: int|
            0 <= k < evs.len() && event_relevant(#[trigger] evs[k], key, dir) && event_gap(evs[k])
                == min_gap(key, dir, evs)->0,
{
    lemma_min_gap_le(key, dir, evs, evs.len() as int);
    lemma_min_gap_achieved(key, dir, evs, evs.len() as int);
}

/// The loosest stop distance over a direction's contacts is the
/// largest gap — for `Right`-direction events this aggregate is the
/// leftward limit `min_dx`; for `Below`-direction events it is the
/// upward limit `min_dy` — and it is one of those gaps.
pub proof fn lemma_loosest_bound(key: u32, dir: CollisionDirection, evs: Seq<CollisionEvent>)
    ensures
        forall|k: int|
            0 <= k < evs.len() && event_relevant(#[trigger] evs[k], key, dir) ==> max_gap(key, dir, evs) is Some
                && max_gap(key, dir, evs)->0 >= event_gap(evs[k]),
        max_gap(key, dir, evs) is Some ==> exists|k: int|
            0 <= k < evs.len() && event_relevant(#[trigger] evs[k], key, dir) && event_gap(evs[k])
                == max_gap(key, dir, evs)->0,
{
    lemma_max_gap_ge(key, dir, evs, evs.len() as int);
    lemma_max_gap_achieved(key, dir, evs, evs.len() as int);
}

/// Axis independence, vertical half: an entity no y-direction event
/// names as subject receives its full unclamped y displacement,
/// however constrained its x axis may be.
pub proof fn lemma_y_axis_independent(e: Entity, evs: Seq<CollisionEvent>, t: int)
    requires
        forall|k: int|
            0 <= k < evs.len() ==> !((#[trigger] evs[k]).subject == e.key && (evs[k].dir is Above
                || evs[k].dir is Below)),
    ensures
        movement_of(e, evs, t).1 == e.vy * t,
{
    lemma_no_relevant_no_bound(e.key, CollisionDirection::Above, evs, evs.len() as int);
    lemma_no_relevant_no_bound(e.key, CollisionDirection::Below, evs, evs.len() as int);
}

/// Axis independence, horizontal half: an entity no x-direction event
/// names as subject receives its full unclamped x displacement.
pub proof fn lemma_x_axis_independent(e: Entity, evs: Seq<CollisionEvent>, t: int)
    requires
        forall|k: int|
            0 <= k < evs.len() ==> !((#[trigger] evs[k]).subject == e.key && (evs[k].dir is Left
                || evs[k].dir is Right)),
    ensures
        movement_of(e, evs, t).0 == e.vx * t,
{
    lemma_no_relevant_no_bound(e.key, CollisionDirection::Left, evs, evs.len() as int);
    lemma_no_relevant_no_bound(e.key, CollisionDirection::Right, evs, evs.len() as int);
}

/// Every event a subject produces carries that subject's key and
/// pre-move rectangle, names a distinct object, and only a movable
/// subject produces any.
proof fn lemma_subject_events_fields(s: Entity, objects: Seq<Entity>, n: int, t: int)
    requires
        0 <= n <= objects.len(),
    ensures
        forall|k: int|
            0 <= k < subject_events_prefix(s, objects, n, t).len() ==> {
                let ev = #[trigger] subject_events_prefix(s, objects, n, t)[k];
                &&& ev.subject == s.key
                &&& ev.subject_rect == s.aabb
                &&& ev.subject != ev.object
                &&& s.obeys_gravity
            },
    decreases n,
{
    if n > 0 {
        lemma_subject_events_fields(s, objects, n - 1, t);
    }
}

/// No self-collision: no detected event names the same entity as both
/// subject and object.
pub proof fn lemma_no_self_collision(entities: Seq<Entity>, t: int)
    ensures
        forall|k: int|
            0 <= k < detected_events(entities, t).len() ==> (#[trigger] detected_events(entities, t)[k]).subject
                != detected_events(entities, t)[k].object,
{
    lemma_detected_prefix_no_self(entities, entities.len() as int, t);
}

proof fn lemma_detected_prefix_no_self(entities: Seq<Entity>, n: int, t: int)
    requires
        0 <= n <= entities.len(),
    ensures
        forall|k: int|
            0 <= k < detected_events_prefix(entities, n, t).len() ==> (#[trigger] detected_events_prefix(
                entities,
                n,
                t,
            )[k]).subject != detected_events_prefix(entities, n, t)[k].object,
    decreases n,
{
    if n > 0 {
        lemma_detected_prefix_no_self(entities, n - 1, t);
        lemma_subject_events_fields(entities[n - 1], entities, entities.len() as int, t);
        let prev = detected_events_prefix(entities, n - 1, t);
        let chunk = subject_events(entities[n - 1], entities, t);
        let cur = detected_events_prefix(entities, n, t);
        assert forall|k: int| 0 <= k < cur.len() implies (#[trigger] cur[k]).subject
            != cur[k].object by {
            if k < prev.len() {
                assert(cur[k] == prev[k]);
            } else {
                assert(cur[k] == chunk[k - prev.len()]);
            }
        }
    }
}

/// Non-movable entities never act as subjects: whichever entity of the
/// snapshot carries a detected event's subject key is movable, and the
/// event snapshotted its pre-move rectangle.
pub proof fn lemma_subjects_movable(entities: Seq<Entity>, t: int)
    requires
        entities_wf(entities),
    ensures
        forall|k: int, i: int|
            0 <= k < detected_events(entities, t).len() && 0 <= i < entities.len() && (
            #[trigger] entities[i]).key == (#[trigger] detected_events(entities, t)[k]).subject
                ==> entities[i].obeys_gravity && entities[i].aabb == detected_events(entities, t)[k].subject_rect,
{
    lemma_detected_prefix_movable(entities, entities.len() as int, t);
}

proof fn lemma_detected_prefix_movable(entities: Seq<Entity>, n: int, t: int)
    requires
        entities_wf(entities),
        0 <= n <= entities.len(),
    ensures
        forall|k: int, i: int|
            0 <= k < detected_events_prefix(entities, n, t).len() && 0 <= i < entities.len() && (
            #[trigger] entities[i]).key == (#[trigger] detected_events_prefix(entities, n, t)[k]).subject
                ==> entities[i].obeys_gravity && entities[i].aabb == detected_events_prefix(
                entities,
                n,
                t,
            )[k].subject_rect,
    decreases n,
{
    if n > 0 {
        lemma_detected_prefix_movable(entities, n - 1, t);
        lemma_subject_events_fields(entities[n - 1], entities, entities.len() as int, t);
        let prev = detected_events_prefix(entities, n - 1, t);
        let chunk = subject_events(entities[n - 1], entities, t);
        let cur = detected_events_prefix(entities, n, t);
        assert forall|k: int, i: int|
            0 <= k < cur.len() && 0 <= i < entities.len() && (#[trigger] entities[i]).key == (
            #[trigger] cur[k]).subject implies entities[i].obeys_gravity && entities[i].aabb
            == cur[k].subject_rect by {
            if k < prev.len() {
                assert(cur[k] == prev[k]);
            } else {
                assert(cur[k] == chunk[k - prev.len()]);
                assert(cur[k].subject == entities[n - 1].key);
                assert(entities[i].key == entities[n - 1].key);
                assert(i == n - 1);
            }
        }
    }
}

/// An event is face-consistent when its gap lies on the approach side
/// its direction claims: approaching from the left or from above, the
/// obstacle is still ahead (gap at least zero); from the right or from
/// below, behind (gap at most zero).  Events classified against a real
/// face are always consistent; only the degenerate fallback can break
/// this.
pub open spec fn event_consistent(e: CollisionEvent) -> bool {
    match e.dir {
        CollisionDirection::Left => event_gap(e) >= 0,
        CollisionDirection::Above => event_gap(e) >= 0,
        CollisionDirection::Right => event_gap(e) <= 0,
        CollisionDirection::Below => event_gap(e) <= 0,
    }
}

/// Every event naming `key` as subject is face-consistent.
pub open spec fn events_consistent_for(key: u32, evs: Seq<CollisionEvent>) -> bool {
    forall|k: int|
        0 <= k < evs.len() && (#[trigger] evs[k]).subject == key ==> event_consistent(evs[k])
}

/// Every colliding pair of the snapshot classifies against a real face
/// (no degenerate fallback).
pub open spec fn all_classifications_match(entities: Seq<Entity>, t: int) -> bool {
    forall|i: int, j: int|
        0 <= i < entities.len() && 0 <= j < entities.len() && #[trigger] pair_collides(
            entities[i],
            entities[j],
            t,
        ) ==> classification_matches(entities[i].aabb, swept_rect(entities[i], t), entities[j].aabb)
}

/// A contact classified against a real face yields a face-consistent
/// event.
proof fn lemma_classified_event_consistent(s: Entity, o: Entity, t: int)
    requires
        classification_matches(s.aabb, swept_rect(s, t), o.aabb),
    ensures
        event_consistent(event_of(s, o, t)),
{
}

proof fn lemma_subject_events_consistent(s: Entity, objects: Seq<Entity>, n: int, t: int)
    requires
        0 <= n <= objects.len(),
        forall|j: int|
            0 <= j < objects.len() && #[trigger] pair_collides(s, objects[j], t)
                ==> classification_matches(s.aabb, swept_rect(s, t), objects[j].aabb),
    ensures
        forall|k: int|
            0 <= k < subject_events_prefix(s, objects, n, t).len() ==> event_consistent(
                #[trigger] subject_events_prefix(s, objects, n, t)[k],
            ),
    decreases n,
{
    if n > 0 {
        lemma_subject_events_consistent(s, objects, n - 1, t);
        let prev = subject_events_prefix(s, objects, n - 1, t);
        let cur = subject_events_prefix(s, objects, n, t);
        if pair_collides(s, objects[n - 1], t) {
            lemma_classified_event_consistent(s, objects[n - 1], t);
            assert(cur == prev.push(event_of(s, objects[n - 1], t)));
        } else {
            assert(cur == prev);
        }
        assert forall|k: int| 0 <= k < cur.len() implies event_consistent(#[trigger] cur[k]) by {
            if k < prev.len() {
                assert(cur[k] == prev[k]);
            }
        }
    }
}

/// When every colliding pair classifies against a real face, every
/// detected event is face-consistent.
pub proof fn lemma_detected_events_consistent(entities: Seq<Entity>, t: int)
    requires
        all_classifications_match(entities, t),
    ensures
        forall|k: int|
            0 <= k < detected_events(entities, t).len() ==> event_consistent(
                #[trigger] detected_events(entities, t)[k],
            ),
{
    lemma_detected_prefix_consistent(entities, entities.len() as int, t);
}

proof fn lemma_detected_prefix_consistent(entities: Seq<Entity>, n: int, t: int)
    requires
        all_classifications_match(entities, t),
        0 <= n <= entities.len(),
    ensures
        forall|k: int|
            0 <= k < detected_events_prefix(entities, n, t).len() ==> event_consistent(
                #[trigger] detected_events_prefix(entities, n, t)[k],
            ),
    decreases n,
{
    if n > 0 {
        lemma_detected_prefix_consistent(entities, n - 1, t);
        lemma_subject_events_consistent(entities[n - 1], entities, entities.len() as int, t);
        let prev = detected_events_prefix(entities, n - 1, t);
        let chunk = subject_events(entities[n - 1], entities, t);
        let cur = detected_events_prefix(entities, n, t);
        assert forall|k: int| 0 <= k < cur.len() implies event_consistent(#[trigger] cur[k]) by {
            if k < prev.len() {
                assert(cur[k] == prev[k]);
            } else {
                assert(cur[k] == chunk[k - prev.len()]);
            }
        }
    }
}

/// Displacement never increases penetration: under face-consistent
/// events, the resolved displacement of an entity, applied to the
/// subject rectangle any of its events snapshotted, leaves that
/// rectangle on the approach side of the event's object along the
/// constrained axis.
pub proof fn lemma_displacement_never_increases_penetration(e: Entity, evs: Seq<CollisionEvent>, t: int)
    requires
        events_consistent_for(e.key, evs),
    ensures
        forall|k: int|
            0 <= k < evs.len() && (#[trigger] evs[k]).subject == e.key ==> {
                let (dx, dy) = movement_of(e, evs, t);
                match evs[k].dir {
                    CollisionDirection::Left => right_edge(evs[k].subject_rect) + dx
                        <= evs[k].object_rect.x,
                    CollisionDirection::Right => evs[k].subject_rect.x + dx >= right_edge(
                        evs[k].object_rect,
                    ),
                    CollisionDirection::Above => bot_edge(evs[k].subject_rect) + dy
                        <= evs[k].object_rect.y,
                    CollisionDirection::Below => evs[k].subject_rect.y + dy >= bot_edge(
                        evs[k].object_rect,
                    ),
                }
            },
{
    let key = e.key;
    let lo_x = max_gap(key, CollisionDirection::Right, evs);
    let hi_x = min_gap(key, CollisionDirection::Left, evs);
    let lo_y = max_gap(key, CollisionDirection::Below, evs);
    let hi_y = min_gap(key, CollisionDirection::Above, evs);
    lemma_tightest_bound(key, CollisionDirection::Left, evs);
    lemma_loosest_bound(key, CollisionDirection::Right, evs);
    lemma_tightest_bound(key, CollisionDirection::Above, evs);
    lemma_loosest_bound(key, CollisionDirection::Below, evs);
    if hi_x is Some {
        let w = choose|k: int|
            0 <= k < evs.len() && event_relevant(#[trigger] evs[k], key, CollisionDirection::Left)
                && event_gap(evs[k]) == hi_x->0;
        assert(event_consistent(evs[w]));
    }
    if lo_x is Some {
        let w = choose|k: int|
            0 <= k < evs.len() && event_relevant(#[trigger] evs[k], key, CollisionDirection::Right)
                && event_gap(evs[k]) == lo_x->0;
        assert(event_consistent(evs[w]));
    }
    if hi_y is Some {
        let w = choose|k: int|
            0 <= k < evs.len() && event_relevant(#[trigger] evs[k], key, CollisionDirection::Above)
                && event_gap(evs[k]) == hi_y->0;
        assert(event_consistent(evs[w]));
    }
    if lo_y is Some {
        let w = choose|k: int|
            0 <= k < evs.len() && event_relevant(#[trigger] evs[k], key, CollisionDirection::Below)
                && event_gap(evs[k]) == lo_y->0;
        assert(event_consistent(evs[w]));
    }
    assert(hi_x is Some ==> hi_x->0 >= 0);
    assert(lo_x is Some ==> lo_x->0 <= 0);
    assert(hi_y is Some ==> hi_y->0 >= 0);
    assert(lo_y is Some ==> lo_y->0 <= 0);
}

/// End-to-end safety of one tick: when every colliding pair of the
/// snapshot classifies against a real face, the displacement the
/// resolver derives for an entity from the detected events leaves its
/// snapshotted rectangle on the approach side of every object it was
/// reported colliding with.
pub proof fn lemma_detected_displacement_safe(entities: Seq<Entity>, t: int)
    requires
        all_classifications_match(entities, t),
    ensures
        forall|i: int, k: int|
            0 <= i < entities.len() && 0 <= k < detected_events(entities, t).len() && (
            #[trigger] detected_events(entities, t)[k]).subject == (#[trigger] entities[i]).key
                ==> {
                let ev = detected_events(entities, t)[k];
                let (dx, dy) = movement_of(entities[i], detected_events(entities, t), t);
                match ev.dir {
                    CollisionDirection::Left => right_edge(ev.subject_rect) + dx
                        <= ev.object_rect.x,
                    CollisionDirection::Right => ev.subject_rect.x + dx >= right_edge(
                        ev.object_rect,
                    ),
                    CollisionDirection::Above => bot_edge(ev.subject_rect) + dy
                        <= ev.object_rect.y,
                    CollisionDirection::Below => ev.subject_rect.y + dy >= bot_edge(
                        ev.object_rect,
                    ),
                }
            },
{
    let evs = detected_events(entities, t);
    lemma_detected_events_consistent(entities, t);
    assert forall|i: int, k: int|
        0 <= i < entities.len() && 0 <= k < evs.len() && (#[trigger] evs[k]).subject == (
        #[trigger] entities[i]).key implies {
        let ev = evs[k];
        let (dx, dy) = movement_of(entities[i], evs, t);
        match ev.dir {
            CollisionDirection::Left => right_edge(ev.subject_rect) + dx <= ev.object_rect.x,
            CollisionDirection::Right => ev.subject_rect.x + dx >= right_edge(ev.object_rect),
            CollisionDirection::Above => bot_edge(ev.subject_rect) + dy <= ev.object_rect.y,
            CollisionDirection::Below => ev.subject_rect.y + dy >= bot_edge(ev.object_rect),
        }
    } by {
        lemma_displacement_never_increases_penetration(entities[i], evs, t);
    }
}

/// No subject at rest and clear of every other entity produces events.
proof fn lemma_no_pairs_no_events(s: Entity, objects: Seq<Entity>, n: int, t: int)
    requires
        0 <= n <= objects.len(),
        forall|j: int| 0 <= j < objects.len() ==> !pair_collides(s, #[trigger] objects[j], t),
    ensures
        subject_events_prefix(s, objects, n, t) == Seq::<CollisionEvent>::empty(),
    decreases n,
{
    if n > 0 {
        lemma_no_pairs_no_events(s, objects, n - 1, t);
    }
}

proof fn lemma_detected_prefix_not_subject(entities: Seq<Entity>, i: int, n: int, t: int)
    requires
        entities_wf(entities),
        0 <= i < entities.len(),
        0 <= n <= entities.len(),
        forall|j: int|
            0 <= j < entities.len() ==> !pair_collides(entities[i], #[trigger] entities[j], t),
    ensures
        forall|k: int|
            0 <= k < detected_events_prefix(entities, n, t).len() ==> (
            #[trigger] detected_events_prefix(entities, n, t)[k]).subject != entities[i].key,
    decreases n,
{
    if n > 0 {
        lemma_detected_prefix_not_subject(entities, i, n - 1, t);
        lemma_subject_events_fields(entities[n - 1], entities, entities.len() as int, t);
        let prev = detected_events_prefix(entities, n - 1, t);
        let chunk = subject_events(entities[n - 1], entities, t);
        let cur = detected_events_prefix(entities, n, t);
        if n - 1 == i {
            lemma_no_pairs_no_events(entities[i], entities, entities.len() as int, t);
        }
        assert forall|k: int| 0 <= k < cur.len() implies (#[trigger] cur[k]).subject
            != entities[i].key by {
            if k < prev.len() {
                assert(cur[k] == prev[k]);
            } else {
                assert(cur[k] == chunk[k - prev.len()]);
                assert(cur[k].subject == entities[n - 1].key);
                assert(n - 1 != i);
            }
        }
    }
}

proof fn lemma_movements_skip_key(entities: Seq<Entity>, evs: Seq<CollisionEvent>, i: int, n: int, t: int)
    requires
        entities_wf(entities),
        0 <= i < entities.len(),
        0 <= n <= entities.len(),
        movement_of(entities[i], evs, t).0 == 0,
        movement_of(entities[i], evs, t).1 == 0,
    ensures
        forall|k: int|
            0 <= k < movements_prefix(entities, evs, n, t).len() ==> (#[trigger] movements_prefix(
                entities,
                evs,
                n,
                t,
            )[k]).0 != entities[i].key,
    decreases n,
{
    if n > 0 {
        lemma_movements_skip_key(entities, evs, i, n - 1, t);
        let prev = movements_prefix(entities, evs, n - 1, t);
        let cur = movements_prefix(entities, evs, n, t);
        let e = entities[n - 1];
        let (dx, dy) = movement_of(e, evs, t);
        if e.obeys_gravity && !(dx == 0 && dy == 0) {
            assert(e.key != entities[i].key) by {
                if e.key == entities[i].key {
                    assert(n - 1 == i);
                }
            }
            assert(cur == prev.push((e.key, dx as i64, dy as i64)));
        } else {
            assert(cur == prev);
        }
        assert forall|k: int| 0 <= k < cur.len() implies (#[trigger] cur[k]).0
            != entities[i].key by {
            if k < prev.len() {
                assert(cur[k] == prev[k]);
            }
        }
    }
}

/// Idempotence on rest: an entity with zero velocity that does not
/// already penetrate any other entity produces no event as subject and
/// is omitted from the resolver's output.
pub proof fn lemma_rest_is_inert(entities: Seq<Entity>, i: int, t: int)
    requires
        entities_wf(entities),
        0 <= i < entities.len(),
        entities[i].vx == 0,
        entities[i].vy == 0,
        forall|j: int|
            0 <= j < entities.len() && j != i ==> !rects_intersect(
                entities[i].aabb,
                (#[trigger] entities[j]).aabb,
            ),
    ensures
        forall|k: int|
            0 <= k < detected_events(entities, t).len() ==> (#[trigger] detected_events(entities, t)[k]).subject
                != entities[i].key,
        forall|k: int|
            0 <= k < movements_of(entities, detected_events(entities, t), t).len() ==> (
            #[trigger] movements_of(entities, detected_events(entities, t), t)[k]).0 != entities[i].key,
{
    let s = entities[i];
    let evs = detected_events(entities, t);
    assert(s.vx * t == 0);
    assert(s.vy * t == 0);
    assert(swept_rect(s, t) == s.aabb);
    assert forall|j: int| 0 <= j < entities.len() implies !pair_collides(
        s,
        #[trigger] entities[j],
        t,
    ) by {
        if j == i {
            assert(s.key == entities[j].key);
        }
    }
    lemma_detected_prefix_not_subject(entities, i, entities.len() as int, t);
    assert forall|k: int, dir: CollisionDirection|
        0 <= k < evs.len() implies !#[trigger] event_relevant(evs[k], s.key, dir) by {
        assert(evs[k].subject != s.key);
    }
    lemma_no_relevant_no_bound(s.key, CollisionDirection::Left, evs, evs.len() as int);
    lemma_no_relevant_no_bound(s.key, CollisionDirection::Right, evs, evs.len() as int);
    lemma_no_relevant_no_bound(s.key, CollisionDirection::Above, evs, evs.len() as int);
    lemma_no_relevant_no_bound(s.key, CollisionDirection::Below, evs, evs.len() as int);
    assert(movement_of(s, evs, t).0 == 0);
    assert(movement_of(s, evs, t).1 == 0);
    lemma_movements_skip_key(entities, evs, i, entities.len() as int, t);
}

} // verus!
