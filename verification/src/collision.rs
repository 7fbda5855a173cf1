//! Collision detection: sweep every movable entity against every other
//! entity and classify each contact by approach direction.

use vstd::prelude::*;

use crate::rect::{
    Rect, right_edge, bot_edge, rect_sums_fit, rects_intersect, rect_intersection,
};
use crate::entity::{Entity, entities_wf, swept_rect, TIME_LIMIT, lemma_displacement_bounded};

verus! {

/// The direction, relative to the subject, from which the object is
/// being approached.
#[derive(Debug, Clone, Copy, PartialEq, Eq, Structural)]
pub enum CollisionDirection {
    Above,
    Left,
    Right,
    Below,
}

/// One detected contact: `subject` (always movable) would penetrate
/// `object` during the tick, approaching from `dir`.  The rectangles
/// are pre-move snapshots taken at detection time.
#[derive(Debug, Clone, Copy, PartialEq, Eq, Structural)]
pub struct CollisionEvent {
    pub subject: u32,
    pub object: u32,
    pub dir: CollisionDirection,
    pub subject_rect: Rect,
    pub object_rect: Rect,
}

/// One of the four edge-crossing tests matches: the sweep from
/// `subject_old` to `subject_desired` crosses a face of `object`.
pub open spec fn classification_matches(subject_old: Rect, subject_desired: Rect, object: Rect) -> bool {
    ||| right_edge(subject_old) <= object.x && right_edge(subject_desired) >= object.x
    ||| subject_old.x >= right_edge(object) && subject_desired.x <= right_edge(object)
    ||| bot_edge(subject_old) <= object.y && bot_edge(subject_desired) >= object.y
    ||| subject_old.y >= bot_edge(object) && subject_desired.y <= bot_edge(object)
}

/// The direction from which the subject approaches `object`, as an
/// ordered sequence of edge-crossing tests, first match wins.  When no
/// test matches (the rectangles already overlapped before the sweep),
/// the classification falls back to `Below`; callers can detect that
/// degenerate case with `classification_matches`.
pub open spec fn classify_direction(subject_old: Rect, subject_desired: Rect, object: Rect) -> CollisionDirection {
    if right_edge(subject_old) <= object.x && right_edge(subject_desired) >= object.x {
        CollisionDirection::Left
    } else if subject_old.x >= right_edge(object) && subject_desired.x <= right_edge(object) {
        CollisionDirection::Right
    } else if bot_edge(subject_old) <= object.y && bot_edge(subject_desired) >= object.y {
        CollisionDirection::Above
    } else if subject_old.y >= bot_edge(object) && subject_desired.y <= bot_edge(object) {
        CollisionDirection::Below
    } else {
        CollisionDirection::Below
    }
}

/// Movable subject `s` and distinct object `o` are in contact: the
/// rectangle swept by `s`'s intended motion overlaps `o`'s current one.
pub open spec fn pair_collides(s: Entity, o: Entity, t: int) -> bool {
    &&& s.obeys_gravity
    &&& s.key != o.key
    &&& rects_intersect(swept_rect(s, t), o.aabb)
}

/// The event emitted for the colliding pair `(s, o)`.
pub open spec fn event_of(s: Entity, o: Entity, t: int) -> CollisionEvent {
    CollisionEvent {
        subject: s.key,
        object: o.key,
        dir: classify_direction(s.aabb, swept_rect(s, t), o.aabb),
        subject_rect: s.aabb,
        object_rect: o.aabb,
    }
}

/// The events subject `s` produces against the first `n` of `objects`,
/// in object order.
pub open spec fn subject_events_prefix(s: Entity, objects: Seq<Entity>, n: int, t: int) -> Seq<CollisionEvent>
    decreases n,
{
    if n <= 0 {
        Seq::empty()
    } else {
        let prefix = subject_events_prefix(s, objects, n - 1, t);
        if pair_collides(s, objects[n - 1], t) {
            prefix.push(event_of(s, objects[n - 1], t))
        } else {
            prefix
        }
    }
}

/// All events subject `s` produces against `objects`.
pub open spec fn subject_events(s: Entity, objects: Seq<Entity>, t: int) -> Seq<CollisionEvent> {
    subject_events_prefix(s, objects, objects.len() as int, t)
}

/// The events produced by the first `n` of `entities` acting as
/// subjects, each swept against the whole snapshot.
pub open spec fn detected_events_prefix(entities: Seq<Entity>, n: int, t: int) -> Seq<CollisionEvent>
    decreases n,
{
    if n <= 0 {
        Seq::empty()
    } else {
        detected_events_prefix(entities, n - 1, t) + subject_events(entities[n - 1], entities, t)
    }
}

/// All events one tick of detection produces over the snapshot.
pub open spec fn detected_events(entities: Seq<Entity>, t: int) -> Seq<CollisionEvent> {
    detected_events_prefix(entities, entities.len() as int, t)
}

/// A non-movable subject produces no events.
pub proof fn lemma_nonmovable_no_events(s: Entity, objects: Seq<Entity>, n: int, t: int)
    requires
        !s.obeys_gravity,
    ensures
        subject_events_prefix(s, objects, n, t) == Seq::<CollisionEvent>::empty(),
    decreases n,
{
    if n > 0 {
        lemma_nonmovable_no_events(s, objects, n - 1, t);
    }
}

/// Which face of the subject crossed into the object during the sweep
/// from `subject_old` to `subject_desired`, first matching test wins;
/// falls back to `Below` when no test matches.
pub fn rect_collision_direction(subject_old: Rect, subject_desired: Rect, object: Rect) -> (dir: CollisionDirection)
    requires
        rect_sums_fit(subject_old),
        rect_sums_fit(subject_desired),
        rect_sums_fit(object),
    ensures
        dir == classify_direction(subject_old, subject_desired, object),
{
    if subject_old.right() <= object.left() && subject_desired.right() >= object.left() {
        CollisionDirection::Left
    } else if subject_old.left() >= object.right() && subject_desired.left() <= object.right() {
        CollisionDirection::Right
    } else if subject_old.bot() <= object.top() && subject_desired.bot() >= object.top() {
        CollisionDirection::Above
    } else if subject_old.top() >= object.bot() && subject_desired.top() <= object.bot() {
        CollisionDirection::Below
    } else {
        CollisionDirection::Below
    }
}

/// Whether a sweep classifies against a real face of the object.  A
/// `false` result marks the degenerate case (the rectangles overlapped
/// before the sweep began) in which `rect_collision_direction` falls
/// back to `Below`; callers may surface it as a diagnostic.
pub fn collision_classification_matched(subject_old: Rect, subject_desired: Rect, object: Rect) -> (matched: bool)
    requires
        rect_sums_fit(subject_old),
        rect_sums_fit(subject_desired),
        rect_sums_fit(object),
    ensures
        matched == classification_matches(subject_old, subject_desired, object),
{
    (subject_old.right() <= object.left() && subject_desired.right() >= object.left())
        || (subject_old.left() >= object.right() && subject_desired.left() <= object.right())
        || (subject_old.bot() <= object.top() && subject_desired.bot() >= object.top())
        || (subject_old.top() >= object.bot() && subject_desired.top() <= object.bot())
}

/// Sweep every movable entity against every other entity and append a
/// directional collision event for each overlap found.
pub fn simulate_collisions(entities: &Vec<Entity>, collisions: &mut Vec<CollisionEvent>, t: i64)
    requires
        entities_wf(entities@),
        0 <= t <= TIME_LIMIT,
    ensures
        final(collisions)@ == old(collisions)@ + detected_events(entities@, t as int),
{
    let ghost t_int: int = t as int;
    let mut i: usize = 0;
    while i < entities.len()
        invariant
            entities_wf(entities@),
            0 <= t <= TIME_LIMIT,
            i <= entities.len(),
            collisions@ == old(collisions)@ + detected_events_prefix(entities@, i as int, t_int),
            t_int == t as int,
        decreases entities.len() - i,
    {
        let subject = entities[i];
        if subject.obeys_gravity {
            let mut j: usize = 0;
            while j < entities.len()
                invariant
                    entities_wf(entities@),
                    0 <= t <= TIME_LIMIT,
                    i < entities.len(),
                    j <= entities.len(),
                    subject == entities@[i as int],
                    subject.obeys_gravity,
                    collisions@ == old(collisions)@ + detected_events_prefix(entities@, i as int, t_int)
                        + subject_events_prefix(subject, entities@, j as int, t_int),
                    t_int == t as int,
                decreases entities.len() - j,
            {
                let object = entities[j];
                if subject.key != object.key {
                    proof {
                        lemma_displacement_bounded(subject.vx, t);
                        lemma_displacement_bounded(subject.vy, t);
                    }
                    let dx = subject.vx * t;
                    let dy = subject.vy * t;
                    let subject_rect_old = subject.aabb;
                    let subject_rect_desired = Rect {
                        x: subject_rect_old.x + dx,
                        y: subject_rect_old.y + dy,
                        w: subject_rect_old.w,
                        h: subject_rect_old.h,
                    };
                    let object_rect = object.aabb;
                    if rect_intersection(subject_rect_desired, object_rect) {
                        let collision_dir = rect_collision_direction(
                            subject_rect_old,
                            subject_rect_desired,
                            object_rect,
                        );
                        collisions.push(CollisionEvent {
                            dir: collision_dir,
                            subject: subject.key,
                            object: object.key,
                            subject_rect: subject.aabb,
                            object_rect: object.aabb,
                        });
                    }
                }
                j += 1;
            }
        } else {
            proof {
                lemma_nonmovable_no_events(subject, entities@, entities@.len() as int, t_int);
            }
        }
        i += 1;
    }
}

} // verus!
