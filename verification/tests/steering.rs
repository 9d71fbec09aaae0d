use arcade_core::consts::Config;
use arcade_core::enemy::{differs, leading_moved, steer, update_velocities, EnemyBundle};
use arcade_core::math::{Vec2, Vec3, UNIT};
use arcade_core::player::PlayerBundle;
use arcade_core::shared::Velocity;
use arcade_core::world::{PlayerRecord, World};

fn marker() -> Velocity {
    Velocity { vector: Vec2 { x: 123, y: -456 }, multiplier: 789 }
}

fn place_player(world: &mut World, x: i64, y: i64) {
    world.spawn_player(PlayerBundle::new(Vec3 { x, y, z: 0 }, None));
}

fn place_enemy(world: &mut World, x: i64, y: i64) {
    let label = world.spawn_text(0, 0, "w");
    world.spawn_enemy(EnemyBundle::new("w", Vec3 { x, y, z: 0 }, None, label), marker());
}

fn heads_for(world: &World, enemy: usize, px: i64, py: i64) -> bool {
    let e = &world.enemies[enemy];
    let at = e.bundle.sprite_bundle.transform.translation;
    let dx = e.velocity.vector.x - (px - at.x);
    let dy = e.velocity.vector.y - (py - at.y);
    e.velocity.multiplier == 5 && -300_000 <= dx && dx < 300_000 && -300_000 <= dy && dy < 300_000
}

#[test]
fn steer_heads_from_enemy_to_player_plus_jitter() {
    let v = steer(
        Vec3 { x: 100, y: 900, z: 4 },
        Vec3 { x: 250, y: 40, z: 9 },
        Vec2 { x: -7, y: 11 },
        5,
    );
    assert_eq!(v, Velocity { vector: Vec2 { x: 143, y: -849 }, multiplier: 5 });
}

#[test]
fn steer_sticks_at_the_ends_of_the_range() {
    let v = steer(
        Vec3 { x: i64::MIN, y: i64::MAX, z: 0 },
        Vec3 { x: i64::MAX, y: i64::MIN, z: 0 },
        Vec2 { x: 1, y: -1 },
        0,
    );
    assert_eq!(v, Velocity { vector: Vec2 { x: i64::MAX, y: i64::MIN }, multiplier: 0 });
}

#[test]
fn differs_compares_with_the_noted_position() {
    let at = Vec3 { x: 1, y: 2, z: 3 };
    assert!(differs(None, at));
    assert!(!differs(Some(at), at));
    assert!(differs(Some(Vec3 { x: 0, y: 2, z: 3 }), at));
    assert!(differs(Some(Vec3 { x: 1, y: 0, z: 3 }), at));
    assert!(differs(Some(Vec3 { x: 1, y: 2, z: 0 }), at));
}

#[test]
fn leading_moved_counts_up_to_the_first_player_at_rest() {
    let mut world = World::new();
    assert_eq!(leading_moved(&world.players), 0);
    place_player(&mut world, 0, 0);
    place_player(&mut world, 1, 1);
    place_player(&mut world, 2, 2);
    assert_eq!(leading_moved(&world.players), 3);
    world.players[1].seen_at = Some(Vec3 { x: 1, y: 1, z: 0 });
    assert_eq!(leading_moved(&world.players), 1);
    world.players[0].seen_at = Some(Vec3 { x: 0, y: 0, z: 0 });
    assert_eq!(leading_moved(&world.players), 0);
    let players: Vec<PlayerRecord> = Vec::new();
    assert_eq!(leading_moved(&players), 0);
}

#[test]
fn a_new_player_draws_the_enemies() {
    let mut world = World::new();
    let config = Config::standard();
    place_player(&mut world, 240 * UNIT, 40 * UNIT);
    place_enemy(&mut world, 100 * UNIT, 600 * UNIT);
    place_enemy(&mut world, 400 * UNIT, 650 * UNIT);
    update_velocities(&mut world, &config);
    assert!(heads_for(&world, 0, 240 * UNIT, 40 * UNIT));
    assert!(heads_for(&world, 1, 240 * UNIT, 40 * UNIT));
    assert_eq!(world.players[0].seen_at, Some(Vec3 { x: 240 * UNIT, y: 40 * UNIT, z: 0 }));
}

#[test]
fn a_player_at_rest_leaves_velocities_untouched() {
    let mut world = World::new();
    let config = Config::standard();
    place_player(&mut world, 240 * UNIT, 40 * UNIT);
    place_enemy(&mut world, 100 * UNIT, 600 * UNIT);
    update_velocities(&mut world, &config);
    world.enemies[0].velocity = marker();
    let mut tick: u32 = 0;
    while tick < 10 {
        update_velocities(&mut world, &config);
        assert_eq!(world.enemies[0].velocity, marker());
        tick += 1;
    }
}

#[test]
fn a_player_that_moves_draws_the_enemies_again() {
    let mut world = World::new();
    let config = Config::standard();
    place_player(&mut world, 240 * UNIT, 40 * UNIT);
    place_enemy(&mut world, 100 * UNIT, 600 * UNIT);
    update_velocities(&mut world, &config);
    world.enemies[0].velocity = marker();
    world.players[0].bundle.sprite_bundle.transform.translation.x = 300 * UNIT;
    update_velocities(&mut world, &config);
    assert!(heads_for(&world, 0, 300 * UNIT, 40 * UNIT));
    world.enemies[0].velocity = marker();
    update_velocities(&mut world, &config);
    assert_eq!(world.enemies[0].velocity, marker());
}

#[test]
fn a_player_that_moves_and_returns_within_a_tick_has_not_moved() {
    let mut world = World::new();
    let config = Config::standard();
    place_player(&mut world, 7, 7);
    place_enemy(&mut world, 0, 0);
    update_velocities(&mut world, &config);
    world.enemies[0].velocity = marker();
    world.players[0].bundle.sprite_bundle.transform.translation.x = 8;
    world.players[0].bundle.sprite_bundle.transform.translation.x = 7;
    update_velocities(&mut world, &config);
    assert_eq!(world.enemies[0].velocity, marker());
}

#[test]
fn without_players_nothing_is_steered() {
    let mut world = World::new();
    let config = Config::standard();
    place_enemy(&mut world, 0, 0);
    update_velocities(&mut world, &config);
    assert_eq!(world.enemies[0].velocity, marker());
}

#[test]
fn steering_stops_at_the_first_player_at_rest() {
    let mut world = World::new();
    let config = Config::standard();
    place_player(&mut world, 0, 0);
    place_player(&mut world, 10_000 * UNIT, 0);
    place_enemy(&mut world, 0, 0);
    world.players[0].seen_at = Some(Vec3 { x: 0, y: 0, z: 0 });
    update_velocities(&mut world, &config);
    assert_eq!(world.enemies[0].velocity, marker());
    assert_eq!(world.players[1].seen_at, Some(Vec3 { x: 10_000 * UNIT, y: 0, z: 0 }));
    update_velocities(&mut world, &config);
    assert_eq!(world.enemies[0].velocity, marker());
}

#[test]
fn enemies_head_for_the_last_player_of_the_leading_run() {
    let mut world = World::new();
    let config = Config::standard();
    place_player(&mut world, 0, 0);
    place_player(&mut world, 10_000 * UNIT, 0);
    place_player(&mut world, -10_000 * UNIT, 0);
    place_enemy(&mut world, 0, 0);
    world.players[2].seen_at = Some(Vec3 { x: -10_000 * UNIT, y: 0, z: 0 });
    update_velocities(&mut world, &config);
    assert!(heads_for(&world, 0, 10_000 * UNIT, 0));
}

#[test]
fn steering_changes_nothing_but_velocities_and_notes() {
    let mut world = World::new();
    let config = Config::standard();
    place_player(&mut world, 5, 6);
    place_enemy(&mut world, 50, 60);
    update_velocities(&mut world, &config);
    assert_eq!(
        world.players[0].bundle.sprite_bundle.transform.translation,
        Vec3 { x: 5, y: 6, z: 0 }
    );
    assert_eq!(
        world.enemies[0].bundle.sprite_bundle.transform.translation,
        Vec3 { x: 50, y: 60, z: 0 }
    );
    assert_eq!(world.enemies[0].seen_at, None);
    assert_eq!(world.enemies[0].bundle.word.get_word(), Some("w".to_string()));
    assert_eq!(world.texts.len(), 1);
    assert_eq!(world.next_entity, 3);
}

#[test]
fn each_enemy_gets_a_jitter_of_its_own() {
    let mut world = World::new();
    let config = Config::standard();
    place_player(&mut world, 0, 0);
    let mut n: u32 = 0;
    while n < 40 {
        place_enemy(&mut world, 0, 0);
        n += 1;
    }
    update_velocities(&mut world, &config);
    let first = world.enemies[0].velocity.vector;
    assert!(world.enemies.iter().any(|e| e.velocity.vector != first));
    let mut k: usize = 0;
    while k < 40 {
        assert!(heads_for(&world, k, 0, 0));
        k += 1;
    }
}

#[test]
fn steering_with_a_fixed_jitter_is_exact() {
    let mut world = World::new();
    let mut config = Config::standard();
    config.enemy_velocity_vector_displacement = -3..-2;
    config.enemy_speed_multiplier = 42;
    place_player(&mut world, 240, 40);
    place_enemy(&mut world, 100, 600);
    update_velocities(&mut world, &config);
    assert_eq!(
        world.enemies[0].velocity,
        Velocity { vector: Vec2 { x: 137, y: -563 }, multiplier: 42 }
    );
}
