// Component store and registry tests: creation, per-attribute insertion,
// visibility latency, idempotent destruction marks, and the component
// constructors themselves.

use organism_sim::components::{
    Color, EntitiesCount, GrowBy, Position, Size, Velocity, SPAWN_SPEED_LIMIT,
};
use organism_sim::world::World;

#[test]
fn created_entity_joins_iteration_only_after_commit() {
    let mut w = World::new();
    assert_eq!(w.slot_count(), 0);
    let id = w.create();
    assert_eq!(id, 0);
    assert_eq!(w.slot_count(), 1);
    assert!(w.is_live(id));
    assert!(!w.is_visible(id));
    assert_eq!(w.live_count(), 0);
    w.commit();
    assert!(w.is_visible(id));
    assert_eq!(w.live_count(), 1);
}

#[test]
fn attribute_records_read_back_exactly() {
    let mut w = World::new();
    let id = w.create();
    w.insert_position(id, Position::new(11, -22));
    w.insert_velocity(id, Velocity::new(-3, 4));
    w.insert_size(id, Size::new(5));
    w.insert_grow_by(id, GrowBy::new(0));
    w.insert_color(id, Color::new(0, 250, 500, 1000));
    w.insert_visual(id, 99);
    let p = w.position_of(id).unwrap();
    assert_eq!((p.0.x, p.0.y), (11, -22));
    let v = w.velocity_of(id).unwrap().get();
    assert_eq!((v.x, v.y), (-3, 4));
    assert_eq!(w.size_of(id).unwrap().0, 5);
    assert_eq!(w.grow_by_of(id).unwrap().0, 0);
    let c = w.color_of(id).unwrap();
    assert_eq!(
        (c.value.red, c.value.green, c.value.blue, c.value.alpha),
        (0, 250, 500, 1000)
    );
    assert_eq!(w.visual_of(id), Some(99));
    // A record never inserted reads back as absent.
    let bare = w.create();
    assert!(w.position_of(bare).is_none());
    assert!(w.size_of(bare).is_none());
}

#[test]
fn destruction_is_deferred_and_idempotent() {
    let mut w = World::new();
    let id = w.create();
    w.insert_size(id, Size::new(7));
    w.commit();
    w.mark_destroy(id);
    // Marked, but still live and readable until the commit point.
    assert!(w.is_marked(id));
    assert!(w.is_live(id));
    assert_eq!(w.size_of(id).unwrap().0, 7);
    assert_eq!(w.live_count(), 1);
    // A second request for the same identity is a safe no-op.
    w.mark_destroy(id);
    assert!(w.is_marked(id));
    w.commit();
    assert!(!w.is_live(id));
    assert!(!w.is_marked(id));
    assert!(w.size_of(id).is_none());
    assert_eq!(w.live_count(), 0);
    // And so is a request for an identity that is already gone.
    w.mark_destroy(id);
    assert!(!w.is_marked(id));
    assert!(!w.is_live(id));
}

#[test]
fn marking_an_uncommitted_entity_is_a_no_op() {
    let mut w = World::new();
    let id = w.create();
    w.mark_destroy(id);
    assert!(!w.is_marked(id));
    w.commit();
    assert!(w.is_live(id));
    assert!(w.is_visible(id));
}

#[test]
fn identities_stay_stable_after_destruction() {
    let mut w = World::new();
    let a = w.create();
    let b = w.create();
    w.insert_size(b, Size::new(3));
    w.commit();
    w.mark_destroy(a);
    w.commit();
    // The destroyed slot is never reused, so b keeps its identity.
    let c = w.create();
    assert_eq!((a, b, c), (0, 1, 2));
    assert!(!w.is_live(a));
    assert_eq!(w.size_of(b).unwrap().0, 3);
}

#[test]
fn grow_by_resets_to_zero() {
    let mut g = GrowBy::new(41);
    assert_eq!(g.0, 41);
    g.reset();
    assert_eq!(g.0, 0);
}

#[test]
fn entities_count_starts_at_zero() {
    assert_eq!(EntitiesCount::new().0, 0);
}

#[test]
fn random_words_map_into_the_symmetric_spawn_range() {
    let span = (2 * SPAWN_SPEED_LIMIT + 1) as u64;
    let v = Velocity::from_random(0, span);
    assert_eq!((v.velocity.x, v.velocity.y), (-SPAWN_SPEED_LIMIT, -SPAWN_SPEED_LIMIT));
    let v = Velocity::from_random(SPAWN_SPEED_LIMIT as u64, 2 * SPAWN_SPEED_LIMIT as u64);
    assert_eq!((v.velocity.x, v.velocity.y), (0, SPAWN_SPEED_LIMIT));
    let v = Velocity::from_random(u64::MAX, 123_456_789);
    assert!(v.velocity.x >= -SPAWN_SPEED_LIMIT && v.velocity.x <= SPAWN_SPEED_LIMIT);
    assert!(v.velocity.y >= -SPAWN_SPEED_LIMIT && v.velocity.y <= SPAWN_SPEED_LIMIT);
    assert_eq!(v.velocity.y, (123_456_789u64 % span) as i64 - SPAWN_SPEED_LIMIT);
}
