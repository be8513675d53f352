use burge::physics::{PhysEvent, PhysObj, PhysObjManager, PhysObjSettings};
use burge::{sat_add, sat_div, sat_mul, sat_sub, V2};

fn body(px: i64, py: i64, sx: i64, sy: i64, vx: i64, vy: i64, gravity: i64) -> PhysObj {
    PhysObj {
        pos: V2 { x: px, y: py },
        shape: V2 { x: sx, y: sy },
        velocity: V2 { x: vx, y: vy },
        settings: PhysObjSettings { gravity_strength: gravity, drag: V2 { x: 0, y: 0 } },
    }
}

#[test]
fn saturating_scalars_have_exact_values() {
    assert_eq!(sat_add(2500, -700), 1800);
    assert_eq!(sat_add(i64::MAX, 1), i64::MAX);
    assert_eq!(sat_sub(i64::MIN, 1), i64::MIN);
    // 2.5 * 4.0 == 10.0 in thousandths
    assert_eq!(sat_mul(2500, 4000), 10000);
    // truncation toward zero on a negative product
    assert_eq!(sat_mul(-8000, 100), -800);
    assert_eq!(sat_mul(-1, 1), 0);
    // 16.0 / 9.0 truncates to 1.777
    assert_eq!(sat_div(16000, 9000), 1777);
    assert_eq!(sat_div(16000, -9000), -1777);
    assert_eq!(sat_div(1, 0), 0);
}

#[test]
fn overlap_is_symmetric_on_sample_rectangles() {
    let a = body(0, 0, 1000, 1000, 0, 0, 0);
    let b = body(1500, 200, 1000, 1000, 0, 0, 0);
    let delta = V2 { x: 600, y: 0 };
    let minus = V2 { x: -600, y: 0 };
    assert_eq!(a.intersects(&b, delta), b.intersects(&a, minus));
    assert!(a.intersects(&b, delta));
    assert!(!a.intersects(&b, V2 { x: 0, y: 0 }));
}

#[test]
fn nearest_delta_picks_one_axis_with_the_smaller_gap() {
    // b sits to the right of a, slightly above: the horizontal gap is
    // smaller, so only x is non-zero
    let a = body(0, 0, 1000, 1000, 0, 0, 0);
    let b = body(1200, 4000, 1000, 1000, 0, 0, 0);
    let d = a.nearest_delta(&b);
    assert_eq!(d.x, 200);
    assert_eq!(d.y, 0);
    // b far to the right but close below: the vertical gap wins
    let c = body(9000, -1100, 1000, 1000, 0, 0, 0);
    let d2 = a.nearest_delta(&c);
    assert_eq!(d2.x, 0);
    assert_eq!(d2.y, -100);
}

#[test]
fn reducer_on_empty_list_leaves_body_unchanged() {
    let mut o = body(10, 20, 1000, 1000, 30, 40, -8000);
    let leftover = o.update(Vec::new());
    assert!(leftover.is_empty());
    assert_eq!(o.pos.x, 10);
    assert_eq!(o.pos.y, 20);
    assert_eq!(o.velocity.x, 30);
    assert_eq!(o.velocity.y, 40);
}

#[test]
fn reducer_applies_one_position_delta_exactly() {
    let mut o = body(100, 200, 1000, 1000, 0, 0, 0);
    let leftover = o.update(vec![PhysEvent::ModPos(V2 { x: 55, y: -5 })]);
    assert!(leftover.is_empty());
    assert_eq!(o.pos.x, 155);
    assert_eq!(o.pos.y, 195);
    assert_eq!(o.velocity.x, 0);
    assert_eq!(o.velocity.y, 0);
}

#[test]
fn reducer_applies_every_mutation_kind_once() {
    let mut o = body(1000, 1000, 1000, 1000, 2000, 2000, 0);
    let leftover = o.update(vec![
        PhysEvent::ModPos(V2 { x: 500, y: 0 }),
        PhysEvent::ScalePos(V2 { x: 2000, y: 2000 }),
        PhysEvent::ModVelocity(V2 { x: -500, y: 0 }),
        PhysEvent::ScaleVelocity(V2 { x: 500, y: 500 }),
        PhysEvent::SetVelocity(V2 { x: None, y: Some(9) }),
    ]);
    assert!(leftover.is_empty());
    // (1000 + 500) * 2.0, 1000 * 2.0
    assert_eq!(o.pos.x, 3000);
    assert_eq!(o.pos.y, 2000);
    // (2000 - 500) * 0.5, then y set to 9
    assert_eq!(o.velocity.x, 750);
    assert_eq!(o.velocity.y, 9);
}

#[test]
fn reducer_passes_unrecognized_events_through_in_order() {
    let stray_a = body(1, 2, 3, 4, 5, 6, 0);
    let stray_b = body(7, 8, 9, 10, 11, 12, 0);
    let mut o = body(0, 0, 1000, 1000, 0, 0, 0);
    let leftover = o.update(vec![
        PhysEvent::Collision(Some(5), stray_a),
        PhysEvent::ModPos(V2 { x: 10, y: 0 }),
        PhysEvent::Static(None, stray_b),
        PhysEvent::Dynamic(9, stray_a),
    ]);
    assert_eq!(leftover.len(), 3);
    assert!(matches!(leftover[0], PhysEvent::Collision(Some(5), _)));
    assert!(matches!(leftover[1], PhysEvent::Static(None, _)));
    assert!(matches!(leftover[2], PhysEvent::Dynamic(9, _)));
    assert_eq!(o.pos.x, 10);
}

#[test]
fn gravity_integrates_to_exact_velocity_after_ten_ticks() {
    // gravity -8.0, dt 0.1, zero initial velocity, ten ticks
    let mut o = body(0, 0, 1000, 1000, 0, 0, -8000);
    for _ in 0..10 {
        let events = o.individual_update(100);
        let leftover = o.update(events);
        assert!(leftover.is_empty());
    }
    // ten increments of -0.8 each
    assert_eq!(o.velocity.y, -8000);
    // each position update used the velocity before that tick's increment:
    // -0.1 * 0.8 * (0 + 1 + ... + 9) = -3.6
    assert_eq!(o.pos.y, -3600);
    assert_eq!(o.pos.x, 0);
}

#[test]
fn position_event_precedes_velocity_event_each_tick() {
    let o = body(0, 0, 1000, 1000, 500, 0, -8000);
    let events = o.individual_update(100);
    assert_eq!(events.len(), 2);
    assert!(matches!(events[0], PhysEvent::ModPos(_)));
    assert!(matches!(events[1], PhysEvent::ModVelocity(_)));
    // a body without gravity produces only the position event
    let o2 = body(0, 0, 1000, 1000, 500, 0, 0);
    let events2 = o2.individual_update(100);
    assert_eq!(events2.len(), 1);
    assert!(matches!(events2[0], PhysEvent::ModPos(_)));
}

#[test]
fn swept_collision_against_a_static_is_reported_once() {
    // one static obstacle at (0,0)-(1,1); one dynamic body at (5,0)
    // moving at (-10,0); dt = 0.1
    let mut pom = PhysObjManager::new();
    let sid = 42u128;
    let did = 7u128;
    let rid = pom.new_routed_receiver(Some(did));
    assert_eq!(rid, did);
    pom.declare(PhysEvent::Static(Some(sid), body(0, 0, 1000, 1000, 0, 0, 0)));
    let mut obj = body(5000, 0, 1000, 1000, -10000, 0, 0);
    let mut collision_tick = None;
    for tick in 1..=10 {
        pom.declare(PhysEvent::Dynamic(did, obj));
        pom.local_update(100);
        pom.post_update();
        let events = pom.poll_routed(did);
        let collisions: Vec<&PhysEvent> = events
            .iter()
            .filter(|e| matches!(e, PhysEvent::Collision(_, _)))
            .collect();
        if !collisions.is_empty() {
            assert_eq!(collisions.len(), 1);
            assert!(matches!(collisions[0], PhysEvent::Collision(Some(id), _) if *id == sid));
            collision_tick = Some((tick, obj.pos.x));
            break;
        }
        let leftover = obj.update(events);
        assert!(leftover.is_empty());
    }
    // the swept displacement first causes overlap when the body stands at
    // x = 2.0, moving to 1.0 within the tick
    assert_eq!(collision_tick, Some((4, 2000)));
}

#[test]
fn dynamic_bodies_are_checked_against_each_other_but_not_themselves() {
    let mut pom = PhysObjManager::new();
    pom.new_routed_receiver(Some(1));
    pom.new_routed_receiver(Some(2));
    // two overlapping dynamics and no statics: each sees the other, once
    pom.declare(PhysEvent::Dynamic(1, body(0, 0, 1000, 1000, 0, 0, 0)));
    pom.declare(PhysEvent::Dynamic(2, body(500, 0, 1000, 1000, 0, 0, 0)));
    pom.local_update(100);
    pom.post_update();
    let one = pom.poll_routed(1);
    let two = pom.poll_routed(2);
    let count = |evs: &Vec<PhysEvent>| {
        evs.iter().filter(|e| matches!(e, PhysEvent::Collision(_, _))).count()
    };
    assert_eq!(count(&one), 1);
    assert_eq!(count(&two), 1);
    assert!(one.iter().any(|e| matches!(e, PhysEvent::Collision(Some(2), _))));
    assert!(two.iter().any(|e| matches!(e, PhysEvent::Collision(Some(1), _))));
}

#[test]
fn dynamics_are_not_retained_between_ticks() {
    let mut pom = PhysObjManager::new();
    pom.new_routed_receiver(Some(1));
    pom.declare(PhysEvent::Dynamic(1, body(0, 0, 1000, 1000, 0, 0, 0)));
    pom.local_update(100);
    pom.post_update();
    assert!(!pom.poll_routed(1).is_empty());
    // no re-declaration: the body is absent this tick
    pom.local_update(100);
    pom.post_update();
    assert!(pom.poll_routed(1).is_empty());
}

#[test]
fn center_is_position_plus_half_extent() {
    let o = body(1000, 2000, 3000, 5000, 0, 0, 0);
    let c = o.center();
    assert_eq!(c.x, 2500);
    assert_eq!(c.y, 4500);
}
