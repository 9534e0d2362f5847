use game_core::turret::{
    EventState, Turret, TurretArena, TurretProjectileDefinition, Vec2,
};

fn sample_turret() -> Turret {
    Turret {
        position: Vec2 { x: 0, y: 0 },
        range: 100,
        projectile: TurretProjectileDefinition {
            travel_speed: 5,
            area_of_effect: 2,
            linger: 3,
            damage: 7,
        },
    }
}

#[test]
fn spawn_copies_template_and_position() {
    let mut arena = TurretArena::new();
    let h = arena.add(sample_turret());
    let p = arena.spawn(h, Vec2 { x: 10, y: 0 }).unwrap();
    assert_eq!(p.shooter, h);
    assert_eq!(p.definition, sample_turret().projectile);
    assert_eq!(p.position, Vec2 { x: 0, y: 0 });
    assert_eq!(p.target_position, Vec2 { x: 10, y: 0 });
    assert_eq!(p.arrival_time, None);
}

#[test]
fn spawn_from_destroyed_emitter_is_none() {
    let mut arena = TurretArena::new();
    let h = arena.add(sample_turret());
    assert!(arena.destroy(h));
    assert!(arena.spawn(h, Vec2 { x: 1, y: 1 }).is_none());
}

#[test]
fn destroy_is_idempotent_and_reports() {
    let mut arena = TurretArena::new();
    let h = arena.add(sample_turret());
    assert!(arena.destroy(h));
    assert!(!arena.destroy(h));
}

#[test]
fn origin_gone_after_destroy_fields_unchanged() {
    let mut arena = TurretArena::new();
    let h = arena.add(sample_turret());
    let mut p = arena.spawn(h, Vec2 { x: 10, y: 0 }).unwrap();
    p.advance(1);
    let snapshot = p;
    assert!(p.origin(&arena).is_some());
    arena.destroy(h);
    assert!(p.origin(&arena).is_none());
    assert_eq!(p, snapshot);
}

#[test]
fn destroying_one_emitter_spares_the_other() {
    let mut arena = TurretArena::new();
    let mut other = sample_turret();
    other.position = Vec2 { x: 50, y: 50 };
    let h1 = arena.add(sample_turret());
    let h2 = arena.add(other);
    arena.destroy(h1);
    assert!(arena.lookup(h1).is_none());
    let t2 = arena.lookup(h2).unwrap();
    assert_eq!(t2.position, Vec2 { x: 50, y: 50 });
}

#[test]
fn stale_handle_stays_gone_after_slot_reuse() {
    let mut arena = TurretArena::new();
    let h1 = arena.add(sample_turret());
    arena.destroy(h1);
    let h2 = arena.add(sample_turret());
    assert!(arena.lookup(h1).is_none());
    assert!(arena.lookup(h2).is_some());
    assert_ne!(h1, h2);
}

#[test]
fn event_travels_arrives_and_expires_in_order() {
    let mut arena = TurretArena::new();
    let h = arena.add(sample_turret());
    let mut p = arena.spawn(h, Vec2 { x: 10, y: 0 }).unwrap();

    let s1 = p.advance(1);
    assert_eq!(s1, EventState::Traveling);
    assert_eq!(p.position, Vec2 { x: 5, y: 0 });

    let s2 = p.advance(1);
    assert_eq!(s2, EventState::Arrived);
    assert_eq!(p.position, Vec2 { x: 10, y: 0 });
    assert_eq!(p.arrival_time, Some(2));

    let s3 = p.advance(2);
    assert_eq!(s3, EventState::Arrived);

    let s4 = p.advance(1);
    assert_eq!(s4, EventState::Expired);

    let s5 = p.advance(10);
    assert_eq!(s5, EventState::Expired);
    assert_eq!(p.position, Vec2 { x: 10, y: 0 });
}

#[test]
fn zero_linger_still_passes_through_arrived() {
    let mut arena = TurretArena::new();
    let mut t = sample_turret();
    t.projectile.linger = 0;
    t.projectile.travel_speed = 100;
    let h = arena.add(t);
    let mut p = arena.spawn(h, Vec2 { x: 10, y: 0 }).unwrap();
    let s1 = p.advance(1);
    assert_eq!(s1, EventState::Arrived);
    let s2 = p.advance(1);
    assert_eq!(s2, EventState::Expired);
}

#[test]
fn travel_toward_negative_coordinates() {
    let mut arena = TurretArena::new();
    let mut t = sample_turret();
    t.position = Vec2 { x: 3, y: -2 };
    let h = arena.add(t);
    let mut p = arena.spawn(h, Vec2 { x: -7, y: -12 }).unwrap();
    p.advance(1);
    assert_eq!(p.position, Vec2 { x: -2, y: -7 });
    p.advance(1);
    assert_eq!(p.position, Vec2 { x: -7, y: -12 });
    assert_eq!(p.arrival_time, Some(2));
}

#[test]
fn arrival_time_set_exactly_once() {
    let mut arena = TurretArena::new();
    let h = arena.add(sample_turret());
    let mut p = arena.spawn(h, Vec2 { x: 5, y: 0 }).unwrap();
    p.advance(1);
    assert_eq!(p.arrival_time, Some(1));
    p.advance(5);
    assert_eq!(p.arrival_time, Some(1));
}

#[test]
fn spawn_at_own_position_arrives_after_first_advance() {
    let mut arena = TurretArena::new();
    let h = arena.add(sample_turret());
    let mut p = arena.spawn(h, Vec2 { x: 0, y: 0 }).unwrap();
    assert_eq!(p.arrival_time, None);
    let s = p.advance(0);
    assert_eq!(s, EventState::Arrived);
    assert_eq!(p.arrival_time, Some(0));
}
