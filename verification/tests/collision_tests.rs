use aabb_sweep::rect::{Rect, rect_intersection};
use aabb_sweep::entity::Entity;
use aabb_sweep::collision::{
    CollisionDirection, CollisionEvent, rect_collision_direction, collision_classification_matched,
    simulate_collisions,
};
use aabb_sweep::resolve::{movement_bounds, clamp, compute_movement};

fn movable(key: u32, x: i64, y: i64, w: i64, h: i64, vx: i64, vy: i64) -> Entity {
    Entity { key, aabb: Rect::new(x, y, w, h), vx, vy, obeys_gravity: true }
}

fn fixed(key: u32, x: i64, y: i64, w: i64, h: i64) -> Entity {
    Entity { key, aabb: Rect::new(x, y, w, h), vx: 0, vy: 0, obeys_gravity: false }
}

fn event(
    subject: u32,
    object: u32,
    dir: CollisionDirection,
    subject_rect: Rect,
    object_rect: Rect,
) -> CollisionEvent {
    CollisionEvent { subject, object, dir, subject_rect, object_rect }
}

#[test]
fn test_rcd() {
    {
        let sold = Rect::new(0, 0, 10, 10);
        let snew = Rect::new(2, 0, 10, 10);
        let obj = Rect::new(11, 0, 10, 10);

        assert_eq!(rect_collision_direction(sold, snew, obj), CollisionDirection::Left);
    }
    {
        let sold = Rect::new(0, 0, 10, 10);
        let snew = Rect::new(0, 2, 10, 10);
        let obj = Rect::new(0, 11, 10, 10);

        assert_eq!(rect_collision_direction(sold, snew, obj), CollisionDirection::Above);
    }
    {
        let sold = Rect::new(11, 0, 10, 10);
        let snew = Rect::new(9, 0, 10, 10);
        let obj = Rect::new(0, 0, 10, 10);

        assert_eq!(rect_collision_direction(sold, snew, obj), CollisionDirection::Right);
    }
    {
        let sold = Rect::new(0, 11, 10, 10);
        let snew = Rect::new(9, 9, 10, 10);
        let obj = Rect::new(0, 0, 10, 10);

        assert_eq!(rect_collision_direction(sold, snew, obj), CollisionDirection::Below);
    }
}

#[test]
fn test_rect_accessors() {
    let r = Rect::new(3, -4, 10, 20);
    assert_eq!(r.left(), 3);
    assert_eq!(r.right(), 13);
    assert_eq!(r.top(), -4);
    assert_eq!(r.bot(), 16);
}

#[test]
fn test_intersection_boundary() {
    let a = Rect::new(0, 0, 10, 10);
    // Exactly touching edges do not count as overlap, consistently with
    // the direction classifier's thresholds.
    assert!(!rect_intersection(a, Rect::new(10, 0, 10, 10)));
    assert!(!rect_intersection(a, Rect::new(0, 10, 10, 10)));
    assert!(!rect_intersection(a, Rect::new(-10, 0, 10, 10)));
    // One sub-unit of overlap counts.
    assert!(rect_intersection(a, Rect::new(9, 0, 10, 10)));
    assert!(rect_intersection(a, Rect::new(0, 9, 10, 10)));
    assert!(rect_intersection(a, Rect::new(-9, -9, 10, 10)));
}

#[test]
fn test_degenerate_classification_detectable() {
    // Rectangles that already overlap before the sweep match no face:
    // the classifier falls back to Below and the predicate reports the
    // degenerate case.
    let sold = Rect::new(0, 0, 10, 10);
    let snew = Rect::new(1, 0, 10, 10);
    let obj = Rect::new(2, 2, 10, 10);
    assert!(!collision_classification_matched(sold, snew, obj));
    assert_eq!(rect_collision_direction(sold, snew, obj), CollisionDirection::Below);
    // A clean face crossing is not degenerate.
    let ahead = Rect::new(11, 0, 10, 10);
    assert!(collision_classification_matched(sold, snew, ahead));
}

#[test]
fn test_detect_emits_directional_event() {
    let a = movable(1, 0, 0, 10, 10, 20, 0);
    let b = fixed(2, 15, 0, 10, 10);
    let entities = vec![a, b];
    let mut events: Vec<CollisionEvent> = Vec::new();
    simulate_collisions(&entities, &mut events, 1);
    assert_eq!(events.len(), 1);
    let ev = &events[0];
    assert_eq!(ev.subject, 1);
    assert_eq!(ev.object, 2);
    assert_eq!(ev.dir, CollisionDirection::Left);
    assert_eq!(ev.subject_rect, Rect::new(0, 0, 10, 10));
    assert_eq!(ev.object_rect, Rect::new(15, 0, 10, 10));
}

#[test]
fn test_detect_appends_to_existing_events() {
    let a = movable(1, 0, 0, 10, 10, 20, 0);
    let b = fixed(2, 15, 0, 10, 10);
    let entities = vec![a, b];
    let sentinel = event(
        9,
        8,
        CollisionDirection::Right,
        Rect::new(0, 0, 1, 1),
        Rect::new(2, 2, 1, 1),
    );
    let mut events = vec![sentinel];
    simulate_collisions(&entities, &mut events, 1);
    assert_eq!(events.len(), 2);
    assert_eq!(events[0].subject, 9);
    assert_eq!(events[1].subject, 1);
}

#[test]
fn test_nonmovable_never_subject() {
    // The static entity overlaps the mover's path, but only the movable
    // entity acts as a subject; the static one never does.
    let a = movable(1, 0, 0, 10, 10, 20, 0);
    let b = fixed(2, 15, 0, 10, 10);
    let entities = vec![a, b];
    let mut events: Vec<CollisionEvent> = Vec::new();
    simulate_collisions(&entities, &mut events, 1);
    assert!(!events.is_empty());
    for ev in &events {
        assert_eq!(ev.subject, 1);
        assert_ne!(ev.subject, ev.object);
    }
}

#[test]
fn test_rest_produces_no_events_and_no_movement() {
    let a = movable(1, 0, 0, 10, 10, 0, 0);
    let b = fixed(2, 15, 0, 10, 10);
    let entities = vec![a, b];
    let mut events: Vec<CollisionEvent> = Vec::new();
    simulate_collisions(&entities, &mut events, 1);
    assert!(events.is_empty());
    let mut movements: Vec<(u32, i64, i64)> = Vec::new();
    compute_movement(&entities, &events, &mut movements, 1);
    assert!(movements.is_empty());
}

#[test]
fn test_movement_bounds_multi_obstacle_tightening() {
    // Two Left-direction contacts with gaps 5 and 2: the rightward
    // limit is the smaller gap, never the larger.
    let srect = Rect::new(0, 0, 10, 10);
    let far = event(1, 2, CollisionDirection::Left, srect, Rect::new(15, 0, 10, 10));
    let near = event(1, 3, CollisionDirection::Left, srect, Rect::new(12, 0, 10, 10));
    let events = vec![far, near];
    let (min_dx, max_dx, min_dy, max_dy) = movement_bounds(1, &events);
    assert_eq!(max_dx, Some(2));
    assert_eq!(min_dx, None);
    assert_eq!(min_dy, None);
    assert_eq!(max_dy, None);
    // The same events constrain no other subject.
    let (omin_dx, omax_dx, omin_dy, omax_dy) = movement_bounds(7, &events);
    assert_eq!((omin_dx, omax_dx, omin_dy, omax_dy), (None, None, None, None));
}

#[test]
fn test_movement_bounds_all_directions() {
    let srect = Rect::new(0, 0, 10, 10);
    let events = vec![
        event(1, 2, CollisionDirection::Left, srect, Rect::new(13, 0, 10, 10)),
        event(1, 3, CollisionDirection::Right, srect, Rect::new(-14, 0, 10, 10)),
        event(1, 4, CollisionDirection::Above, srect, Rect::new(0, 15, 10, 10)),
        event(1, 5, CollisionDirection::Below, srect, Rect::new(0, -16, 10, 10)),
    ];
    let (min_dx, max_dx, min_dy, max_dy) = movement_bounds(1, &events);
    assert_eq!(max_dx, Some(3));
    assert_eq!(min_dx, Some(-4));
    assert_eq!(max_dy, Some(5));
    assert_eq!(min_dy, Some(-6));
}

#[test]
fn test_clamp() {
    assert_eq!(clamp(7, None, None), 7);
    assert_eq!(clamp(7, None, Some(2)), 2);
    assert_eq!(clamp(7, Some(-3), Some(2)), 2);
    assert_eq!(clamp(-9, Some(-3), Some(2)), -3);
    assert_eq!(clamp(1, Some(-3), Some(2)), 1);
    assert_eq!(clamp(2, Some(-3), Some(2)), 2);
    assert_eq!(clamp(-3, Some(-3), Some(2)), -3);
    assert_eq!(clamp(-9, Some(-3), None), -3);
}

#[test]
fn test_axis_independence() {
    // Constrained on x by a wall dead ahead, the mover still receives
    // its full y displacement.
    let a = movable(1, 0, 0, 10, 10, 15, 7);
    let b = fixed(2, 10, 0, 10, 10);
    let entities = vec![a, b];
    let mut events: Vec<CollisionEvent> = Vec::new();
    simulate_collisions(&entities, &mut events, 1);
    assert_eq!(events.len(), 1);
    assert_eq!(events[0].dir, CollisionDirection::Left);
    let mut movements: Vec<(u32, i64, i64)> = Vec::new();
    compute_movement(&entities, &events, &mut movements, 1);
    assert_eq!(movements, vec![(1, 0, 7)]);
}

#[test]
fn test_unobstructed_movement_passes_through() {
    let a = movable(1, 0, 0, 10, 10, 4, -3);
    let b = fixed(2, 100, 100, 10, 10);
    let entities = vec![a, b];
    let mut events: Vec<CollisionEvent> = Vec::new();
    simulate_collisions(&entities, &mut events, 1);
    assert!(events.is_empty());
    let mut movements: Vec<(u32, i64, i64)> = Vec::new();
    compute_movement(&entities, &events, &mut movements, 1);
    assert_eq!(movements, vec![(1, 4, -3)]);
}

#[test]
fn test_end_to_end_stops_at_contact() {
    // A movable square one unit wide (60 sub-units) moving rightward at
    // one unit per tick into a static square standing flush against it:
    // the sweep detects a Left-direction contact with gap 0, the
    // rightward displacement clamps to 0, and the mover is omitted from
    // the output, correctly stopped at contact.
    let a = movable(1, 0, 0, 60, 60, 60, 0);
    let b = fixed(2, 60, 0, 60, 60);
    let entities = vec![a, b];
    let mut events: Vec<CollisionEvent> = Vec::new();
    simulate_collisions(&entities, &mut events, 1);
    assert_eq!(events.len(), 1);
    assert_eq!(events[0].subject, 1);
    assert_eq!(events[0].object, 2);
    assert_eq!(events[0].dir, CollisionDirection::Left);
    let (_, max_dx, _, _) = movement_bounds(1, &events);
    assert_eq!(max_dx, Some(0));
    let mut movements: Vec<(u32, i64, i64)> = Vec::new();
    compute_movement(&entities, &events, &mut movements, 1);
    assert!(movements.is_empty());
}

#[test]
fn test_displacement_clamps_to_gap() {
    // The mover would end the tick inside the wall; its displacement is
    // cut to the exact gap, leaving the faces flush, never inside.
    let a = movable(1, 0, 0, 10, 10, 20, 0);
    let b = fixed(2, 17, 0, 10, 10);
    let entities = vec![a, b];
    let mut events: Vec<CollisionEvent> = Vec::new();
    simulate_collisions(&entities, &mut events, 1);
    assert_eq!(events.len(), 1);
    let mut movements: Vec<(u32, i64, i64)> = Vec::new();
    compute_movement(&entities, &events, &mut movements, 1);
    assert_eq!(movements, vec![(1, 7, 0)]);
    // Applied to the snapshot, the displacement puts the mover's right
    // edge exactly on the wall's left edge.
    assert_eq!(events[0].subject_rect.right() + 7, events[0].object_rect.left());
}

#[test]
fn test_time_delta_scales_sweep() {
    // At twice the time delta the same mover reaches a farther wall.
    let a = movable(1, 0, 0, 10, 10, 10, 0);
    let wall = fixed(2, 25, 0, 10, 10);
    let entities = vec![a, wall];
    let mut near_tick: Vec<CollisionEvent> = Vec::new();
    simulate_collisions(&entities, &mut near_tick, 1);
    assert!(near_tick.is_empty());
    let mut far_tick: Vec<CollisionEvent> = Vec::new();
    simulate_collisions(&entities, &mut far_tick, 2);
    assert_eq!(far_tick.len(), 1);
    assert_eq!(far_tick[0].dir, CollisionDirection::Left);
}

#[test]
fn test_two_movers_collide_symmetrically() {
    // Two movable entities converging: each is swept against the
    // other's current rectangle, so both report a contact.
    let a = movable(1, 0, 0, 10, 10, 10, 0);
    let b = movable(2, 15, 0, 10, 10, -10, 0);
    let entities = vec![a, b];
    let mut events: Vec<CollisionEvent> = Vec::new();
    simulate_collisions(&entities, &mut events, 1);
    assert_eq!(events.len(), 2);
    let from_a = events.iter().find(|e| e.subject == 1).unwrap();
    let from_b = events.iter().find(|e| e.subject == 2).unwrap();
    assert_eq!(from_a.object, 2);
    assert_eq!(from_a.dir, CollisionDirection::Left);
    assert_eq!(from_b.object, 1);
    assert_eq!(from_b.dir, CollisionDirection::Right);
}
