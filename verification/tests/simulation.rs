// End-to-end frame tests: movement, boundary reflection, the eat scan with
// deferred destruction, growth, and the spawn threshold. Coordinates, sizes
// and speeds are fixed-point thousandths of a world unit.

use organism_sim::components::{Color, GrowBy, Position, Size, Velocity};
use organism_sim::game::Game;

const W: i64 = 1000_000;
const H: i64 = 1000_000;
const QUIET_FPS: u64 = 30_000;
const BUSY_FPS: u64 = 61_000;

fn put_entity(game: &mut Game, x: i64, y: i64, vx: i64, vy: i64, size: i64) -> usize {
    let id = game.world.create();
    game.world.insert_position(id, Position::new(x, y));
    game.world.insert_velocity(id, Velocity::new(vx, vy));
    assert!(size >= 0);
    game.world.insert_size(id, Size::new(size));
    game.world.insert_grow_by(id, GrowBy::new(0));
    game.world.insert_color(id, Color::new(1000, 1000, 1000, 500));
    game.world.insert_visual(id, id as u64);
    id
}

fn frame(game: &mut Game, dt: i64, fps: u64) {
    assert!(game.frame_ready(dt, W, H, fps, 0, 0));
    game.advance_frame(dt, W, H, fps, 0, 0, 0);
}

fn pos_of(game: &Game, id: usize) -> (i64, i64) {
    let p = game.world.position_of(id).unwrap();
    (p.0.x, p.0.y)
}

fn size_val(game: &Game, id: usize) -> i64 {
    game.world.size_of(id).unwrap().0
}

#[test]
fn movement_is_exact_per_entity() {
    let mut game = Game::new();
    let a = put_entity(&mut game, 100_000, 100_000, 3_000, -2_000, 50_000);
    let b = put_entity(&mut game, 7, 9, -1, 4, 1_000);
    game.world.commit();
    frame(&mut game, 5, QUIET_FPS);
    assert_eq!(pos_of(&game, a), (100_000 + 3_000 * 5, 100_000 - 2_000 * 5));
    assert_eq!(pos_of(&game, b), (7 - 5, 9 + 20));
}

#[test]
fn movement_with_zero_dt_changes_nothing() {
    let mut game = Game::new();
    let a = put_entity(&mut game, 123, 456, 9_000, 9_000, 10_000);
    game.world.commit();
    frame(&mut game, 0, QUIET_FPS);
    assert_eq!(pos_of(&game, a), (123, 456));
}

#[test]
fn entity_without_velocity_is_untouched() {
    let mut game = Game::new();
    let id = game.world.create();
    game.world.insert_position(id, Position::new(42, 24));
    game.world.insert_size(id, Size::new(5_000));
    game.world.insert_grow_by(id, GrowBy::new(0));
    game.world.commit();
    frame(&mut game, 10, QUIET_FPS);
    assert_eq!(pos_of(&game, id), (42, 24));
}

#[test]
fn boundary_reflects_and_clamps_on_overflow() {
    let mut game = Game::new();
    // After moving, x = 1_000_100 > W: clamp to W, flip the x velocity.
    let a = put_entity(&mut game, W - 900, 500_000, 1_000, 0, 10_000);
    game.world.commit();
    frame(&mut game, 1, QUIET_FPS);
    assert_eq!(pos_of(&game, a), (W, 500_000));
    let v = game.world.velocity_of(a).unwrap().get();
    assert_eq!((v.x, v.y), (-1_000, 0));
}

#[test]
fn boundary_reflects_and_clamps_below_zero() {
    let mut game = Game::new();
    let a = put_entity(&mut game, 400, 300, -1_000, -1_000, 10_000);
    game.world.commit();
    frame(&mut game, 1, QUIET_FPS);
    assert_eq!(pos_of(&game, a), (0, 0));
    let v = game.world.velocity_of(a).unwrap().get();
    assert_eq!((v.x, v.y), (1_000, 1_000));
}

#[test]
fn entity_inside_bounds_is_unmodified_by_boundary() {
    let mut game = Game::new();
    let a = put_entity(&mut game, 500_000, 500_000, 2_000, 3_000, 10_000);
    game.world.commit();
    frame(&mut game, 1, QUIET_FPS);
    assert_eq!(pos_of(&game, a), (502_000, 503_000));
    let v = game.world.velocity_of(a).unwrap().get();
    assert_eq!((v.x, v.y), (2_000, 3_000));
}

#[test]
fn entity_exactly_on_boundary_is_left_alone() {
    let mut game = Game::new();
    let a = put_entity(&mut game, W, 0, 0, 0, 10_000);
    game.world.commit();
    frame(&mut game, 1, QUIET_FPS);
    assert_eq!(pos_of(&game, a), (W, 0));
    let v = game.world.velocity_of(a).unwrap().get();
    assert_eq!((v.x, v.y), (0, 0));
}

#[test]
fn enclosed_smaller_entity_is_eaten_exactly_once_applied() {
    // A (size 50) and B (size 10), 5 units apart: 5 + 10 < 50, so B is
    // destroyed at the frame's commit and A grows by exactly 10.
    let mut game = Game::new();
    let a = put_entity(&mut game, 100_000, 100_000, 0, 0, 50_000);
    let b = put_entity(&mut game, 105_000, 100_000, 0, 0, 10_000);
    game.world.commit();
    assert_eq!(game.live_entity_count(), 2);
    frame(&mut game, 0, QUIET_FPS);
    assert!(!game.world.is_live(b));
    assert!(game.world.size_of(b).is_none());
    assert_eq!(size_val(&game, a), 60_000);
    assert_eq!(game.live_entity_count(), 1);
}

#[test]
fn touching_perimeter_is_not_enclosed() {
    // distance + B.size == A.size exactly: no perimeter overlap is required,
    // so nothing is eaten.
    let mut game = Game::new();
    let a = put_entity(&mut game, 0, 0, 0, 0, 50_000);
    let b = put_entity(&mut game, 40_000, 0, 0, 0, 10_000);
    game.world.commit();
    frame(&mut game, 0, QUIET_FPS);
    assert!(game.world.is_live(b));
    assert_eq!(size_val(&game, a), 50_000);
    assert_eq!(size_val(&game, b), 10_000);
}

#[test]
fn equal_sizes_never_eat() {
    let mut game = Game::new();
    let a = put_entity(&mut game, 0, 0, 0, 0, 30_000);
    let b = put_entity(&mut game, 1, 0, 0, 0, 30_000);
    game.world.commit();
    frame(&mut game, 0, QUIET_FPS);
    assert!(game.world.is_live(a));
    assert!(game.world.is_live(b));
    assert_eq!(size_val(&game, a), 30_000);
    assert_eq!(size_val(&game, b), 30_000);
}

#[test]
fn lone_entity_never_eats_itself() {
    let mut game = Game::new();
    let a = put_entity(&mut game, 0, 0, 0, 0, 30_000);
    game.world.commit();
    frame(&mut game, 0, QUIET_FPS);
    assert!(game.world.is_live(a));
    assert_eq!(size_val(&game, a), 30_000);
    assert_eq!(game.world.grow_by_of(a).unwrap().0, 0);
}

#[test]
fn deferred_destruction_credits_every_eater_in_the_pass() {
    // Two equal eaters both enclose B; B stays visible for the whole pass,
    // so both absorb its size, and B is destroyed once at the commit.
    let mut game = Game::new();
    let a1 = put_entity(&mut game, 0, 0, 0, 0, 50_000);
    let a2 = put_entity(&mut game, 10_000, 0, 0, 0, 50_000);
    let b = put_entity(&mut game, 5_000, 0, 0, 0, 10_000);
    game.world.commit();
    frame(&mut game, 0, QUIET_FPS);
    assert!(!game.world.is_live(b));
    assert_eq!(size_val(&game, a1), 60_000);
    assert_eq!(size_val(&game, a2), 60_000);
    assert_eq!(game.live_entity_count(), 2);
}

#[test]
fn sizes_never_shrink_over_many_frames() {
    let mut game = Game::new();
    let a = put_entity(&mut game, 200_000, 200_000, 1_500, -700, 40_000);
    let b = put_entity(&mut game, 600_000, 600_000, -2_000, 900, 25_000);
    let c = put_entity(&mut game, 601_000, 600_000, -2_000, 900, 5_000);
    game.world.commit();
    let mut last = vec![size_val(&game, a), size_val(&game, b), size_val(&game, c)];
    for _ in 0..50 {
        frame(&mut game, 7, QUIET_FPS);
        for (k, id) in [a, b, c].into_iter().enumerate() {
            if game.world.is_live(id) {
                let s = size_val(&game, id);
                assert!(s >= last[k]);
                last[k] = s;
            }
        }
    }
}

#[test]
fn concrete_three_entity_scenario() {
    // A moves 0.1 on x in one frame; distances stay far too large for any
    // enclosure, so all three sizes are unchanged.
    let mut game = Game::new();
    let a = put_entity(&mut game, 100_000, 100_000, 100, 0, 50_000);
    let b = put_entity(&mut game, 100_000, 200_000, 0, 0, 50_000);
    let c = put_entity(&mut game, 500_000, 100_000, 0, 0, 20_000);
    game.world.commit();
    frame(&mut game, 1, QUIET_FPS);
    assert_eq!(pos_of(&game, a), (100_100, 100_000));
    assert_eq!(size_val(&game, a), 50_000);
    assert_eq!(size_val(&game, b), 50_000);
    assert_eq!(size_val(&game, c), 20_000);
    assert_eq!(game.live_entity_count(), 3);
}

#[test]
fn concrete_adjacent_scenario_eats() {
    // A placed 10 units from C (10 + 20 < 50): C is removed at the commit
    // and A's size becomes 70.
    let mut game = Game::new();
    let a = put_entity(&mut game, 490_000, 100_000, 0, 0, 50_000);
    let c = put_entity(&mut game, 500_000, 100_000, 0, 0, 20_000);
    game.world.commit();
    frame(&mut game, 1, QUIET_FPS);
    assert!(!game.world.is_live(c));
    assert_eq!(size_val(&game, a), 70_000);
    assert_eq!(game.live_entity_count(), 1);
}

#[test]
fn spawn_threshold_creates_one_entity_per_busy_frame() {
    let mut game = Game::new();
    for n in 1..=4u64 {
        assert!(game.frame_ready(1, W, H, BUSY_FPS, 5_000, 0));
        game.advance_frame(1, W, H, BUSY_FPS, 5_000, 0, n);
        assert_eq!(game.entities_count.0, n as usize);
        assert_eq!(game.live_entity_count(), n as usize);
    }
    for _ in 0..3 {
        frame(&mut game, 1, QUIET_FPS);
        assert_eq!(game.entities_count.0, 4);
    }
}

#[test]
fn spawned_entity_is_invisible_in_its_creation_frame() {
    let mut game = Game::new();
    assert!(game.frame_ready(10, W, H, BUSY_FPS, 5_000, -3_000));
    game.advance_frame(10, W, H, BUSY_FPS, 5_000, -3_000, 77);
    // Despite its velocity, the new entity did not move in its creation
    // frame: the stages never saw it.
    let id = 0usize;
    assert_eq!(pos_of(&game, id), (W / 2, H / 2));
    assert_eq!(size_val(&game, id), 3_000);
    assert_eq!(game.world.visual_of(id), Some(77));
    assert!(game.world.is_visible(id));
    // From the next frame on it moves like any other entity.
    frame(&mut game, 10, QUIET_FPS);
    assert_eq!(pos_of(&game, id), (W / 2 + 50_000, H / 2 - 30_000));
}

#[test]
fn advancing_an_empty_world_does_nothing() {
    let mut game = Game::new();
    frame(&mut game, 100, QUIET_FPS);
    assert_eq!(game.live_entity_count(), 0);
    assert_eq!(game.entities_count.0, 0);
    assert!(game.for_each_drawable().is_empty());
}

#[test]
fn frame_ready_refuses_bad_inputs() {
    let mut game = Game::new();
    assert!(!game.frame_ready(-1, W, H, QUIET_FPS, 0, 0));
    assert!(!game.frame_ready(1, -5, H, QUIET_FPS, 0, 0));
    assert!(!game.frame_ready(1, W, -5, QUIET_FPS, 0, 0));
    // A spawn velocity outside the symmetric range is refused only when the
    // frame would actually spawn.
    assert!(game.frame_ready(1, W, H, QUIET_FPS, 99_999, 0));
    assert!(!game.frame_ready(1, W, H, BUSY_FPS, 99_999, 0));
    // A coordinate that would overflow the machine integers is refused.
    let a = put_entity(&mut game, i64::MAX - 5, 0, 1_000, 0, 10_000);
    game.world.commit();
    assert!(game.world.is_live(a));
    assert!(!game.frame_ready(i64::MAX, W, H, QUIET_FPS, 0, 0));
}

#[test]
fn drawables_snapshot_is_restartable_and_complete() {
    let mut game = Game::new();
    let a = put_entity(&mut game, 1_000, 2_000, 0, 0, 9_000);
    let hidden = game.world.create();
    game.world.insert_position(hidden, Position::new(5, 5));
    game.world.commit();
    // `hidden` lacks size, colour and visual records, so only `a` is drawn.
    let first = game.for_each_drawable();
    let second = game.for_each_drawable();
    assert_eq!(first.len(), 1);
    assert_eq!(second.len(), 1);
    assert_eq!(first[0].position.0.x, 1_000);
    assert_eq!(first[0].position.0.y, 2_000);
    assert_eq!(first[0].size.0, 9_000);
    assert_eq!(first[0].visual, a as u64);
    assert_eq!(first[0].color.value.alpha, 500);
}
