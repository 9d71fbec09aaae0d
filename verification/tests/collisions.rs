use arcade_core::bullet::{Bullet, BulletBundle};
use arcade_core::enemy::EnemyBundle;
use arcade_core::math::{Vec2, Vec3, UNIT};
use arcade_core::player::PlayerBundle;
use arcade_core::shared::events::{EnemyCollision, EnemyDestroyed, PlayerDestroyed};
use arcade_core::shared::{boxes_overlap, check_collisions, Velocity};
use arcade_core::sprite::{Color, SpriteBundle};
use arcade_core::world::{Entity, World};

fn units(n: i64) -> i64 {
    n * UNIT
}

fn at(x: i64, y: i64) -> Vec3 {
    Vec3 { x: units(x), y: units(y), z: 0 }
}

fn square(side: i64) -> Option<Vec2> {
    Some(Vec2 { x: units(side), y: units(side) })
}

fn still() -> Velocity {
    Velocity { vector: Vec2 { x: 0, y: 0 }, multiplier: 0 }
}

fn add_enemy(world: &mut World, x: i64, y: i64) -> Entity {
    let label = world.spawn_text(0, 0, "w");
    world.spawn_enemy(EnemyBundle::new("w", at(x, y), square(20), label), still())
}

fn add_player(world: &mut World, x: i64, y: i64) -> Entity {
    world.spawn_player(PlayerBundle::new(at(x, y), square(20)))
}

fn add_bullet(world: &mut World, x: i64, y: i64) -> Entity {
    world.spawn_bullet(BulletBundle {
        bullet: Bullet,
        velocity: still(),
        sprite_bundle: SpriteBundle::new(Color::Yellow, at(x, y), square(5)),
    })
}

struct Notices {
    player_destroyed: Vec<PlayerDestroyed>,
    enemy_collision: Vec<EnemyCollision>,
    enemy_destroyed: Vec<EnemyDestroyed>,
}

fn run(world: &mut World) -> Notices {
    let mut n = Notices {
        player_destroyed: Vec::new(),
        enemy_collision: Vec::new(),
        enemy_destroyed: Vec::new(),
    };
    check_collisions(
        world,
        &mut n.player_destroyed,
        &mut n.enemy_collision,
        &mut n.enemy_destroyed,
    );
    n
}

#[test]
fn boxes_that_overlap() {
    let size = Vec2 { x: units(20), y: units(20) };
    assert!(boxes_overlap(at(0, 0), size, at(10, 10), size));
    assert!(boxes_overlap(at(0, 0), size, at(0, 0), size));
    assert!(boxes_overlap(at(0, 0), size, at(19, -19), size));
    assert!(boxes_overlap(at(-100, -100), size, at(-110, -95), size));
}

#[test]
fn boxes_that_only_touch_do_not_overlap() {
    let size = Vec2 { x: units(20), y: units(20) };
    assert!(!boxes_overlap(at(0, 0), size, at(20, 0), size));
    assert!(!boxes_overlap(at(0, 0), size, at(0, 20), size));
    assert!(!boxes_overlap(at(0, 0), size, at(-20, -20), size));
}

#[test]
fn boxes_apart_on_one_axis_do_not_overlap() {
    let size = Vec2 { x: units(20), y: units(20) };
    assert!(!boxes_overlap(at(0, 0), size, at(50, 0), size));
    assert!(!boxes_overlap(at(0, 0), size, at(0, 50), size));
    assert!(!boxes_overlap(at(0, 0), size, at(5, -21), size));
}

#[test]
fn overlap_counts_half_units() {
    let one = Vec2 { x: 1, y: 1 };
    let two = Vec2 { x: 2, y: 2 };
    let origin = Vec3 { x: 0, y: 0, z: 0 };
    let next = Vec3 { x: 1, y: 0, z: 0 };
    assert!(!boxes_overlap(origin, one, next, one));
    assert!(boxes_overlap(origin, one, next, two));
    assert!(boxes_overlap(origin, two, next, one));
}

#[test]
fn overlap_ignores_the_layer() {
    let size = Vec2 { x: units(20), y: units(20) };
    let low = Vec3 { x: 0, y: 0, z: -500 };
    let high = Vec3 { x: units(5), y: units(5), z: 900 };
    assert!(boxes_overlap(low, size, high, size));
}

#[test]
fn overlap_is_symmetric() {
    let a = Vec2 { x: units(20), y: units(4) };
    let b = Vec2 { x: units(6), y: units(30) };
    let mut x: i64 = -30;
    while x <= 30 {
        let mut y: i64 = -30;
        while y <= 30 {
            assert_eq!(
                boxes_overlap(at(0, 0), a, at(x, y), b),
                boxes_overlap(at(x, y), b, at(0, 0), a)
            );
            y += 3;
        }
        x += 3;
    }
}

#[test]
fn overlap_at_the_ends_of_the_range() {
    let size = Vec2 { x: i64::MAX, y: i64::MAX };
    let far = Vec3 { x: i64::MAX, y: i64::MAX, z: 0 };
    let near = Vec3 { x: i64::MIN, y: i64::MIN, z: 0 };
    assert!(boxes_overlap(far, size, far, size));
    assert!(!boxes_overlap(far, size, near, size));
}

#[test]
fn enemy_on_player_raises_one_notice_of_each_kind() {
    let mut world = World::new();
    let player = add_player(&mut world, 240, 40);
    let enemy = add_enemy(&mut world, 250, 45);
    let n = run(&mut world);
    assert_eq!(n.player_destroyed, vec![PlayerDestroyed(player, at(240, 40))]);
    assert_eq!(n.enemy_destroyed, vec![EnemyDestroyed(enemy, at(240, 40))]);
    assert!(n.enemy_collision.is_empty());
}

#[test]
fn enemy_away_from_player_raises_nothing() {
    let mut world = World::new();
    add_player(&mut world, 240, 40);
    add_enemy(&mut world, 240, 400);
    let n = run(&mut world);
    assert!(n.player_destroyed.is_empty());
    assert!(n.enemy_destroyed.is_empty());
    assert!(n.enemy_collision.is_empty());
}

#[test]
fn collision_leaves_player_and_enemy_in_the_world() {
    let mut world = World::new();
    add_player(&mut world, 240, 40);
    add_enemy(&mut world, 250, 45);
    run(&mut world);
    assert_eq!(world.players.len(), 1);
    assert_eq!(world.enemies.len(), 1);
    assert_eq!(world.texts.len(), 1);
}

#[test]
fn every_overlapping_pair_is_reported_once_in_scan_order() {
    let mut world = World::new();
    let p0 = add_player(&mut world, 0, 0);
    let p1 = add_player(&mut world, 15, 0);
    let e0 = add_enemy(&mut world, 30, 0);
    let e1 = add_enemy(&mut world, 8, 0);
    let e2 = add_enemy(&mut world, 500, 500);
    let n = run(&mut world);
    assert_eq!(
        n.player_destroyed,
        vec![
            PlayerDestroyed(p1, at(15, 0)),
            PlayerDestroyed(p0, at(0, 0)),
            PlayerDestroyed(p1, at(15, 0)),
        ]
    );
    assert_eq!(
        n.enemy_destroyed,
        vec![
            EnemyDestroyed(e0, at(15, 0)),
            EnemyDestroyed(e1, at(0, 0)),
            EnemyDestroyed(e1, at(15, 0)),
        ]
    );
    assert!(n.enemy_destroyed.iter().all(|e| e.0 != e2));
}

#[test]
fn the_same_pair_is_reported_again_on_the_next_tick() {
    let mut world = World::new();
    add_player(&mut world, 0, 0);
    add_enemy(&mut world, 5, 5);
    let first = run(&mut world);
    let second = run(&mut world);
    assert_eq!(first.player_destroyed.len(), 1);
    assert_eq!(second.player_destroyed, first.player_destroyed);
    assert_eq!(second.enemy_destroyed, first.enemy_destroyed);
}

#[test]
fn bullet_on_enemy_is_removed() {
    let mut world = World::new();
    let enemy = add_enemy(&mut world, 100, 300);
    let hit = add_bullet(&mut world, 105, 295);
    let n = run(&mut world);
    assert!(world.bullets.is_empty());
    assert!(world.bullets.iter().all(|b| b.entity != hit));
    assert_eq!(n.enemy_collision, vec![EnemyCollision(enemy, at(100, 300))]);
    assert_eq!(world.enemies.len(), 1);
}

#[test]
fn bullet_away_from_enemies_stays() {
    let mut world = World::new();
    add_enemy(&mut world, 100, 300);
    let miss = add_bullet(&mut world, 100, 100);
    let n = run(&mut world);
    assert_eq!(world.bullets.len(), 1);
    assert_eq!(world.bullets[0].entity, miss);
    assert!(n.enemy_collision.is_empty());
}

#[test]
fn only_the_bullets_that_hit_are_removed() {
    let mut world = World::new();
    let enemy = add_enemy(&mut world, 100, 300);
    let b0 = add_bullet(&mut world, 0, 0);
    let b1 = add_bullet(&mut world, 100, 300);
    let b2 = add_bullet(&mut world, 400, 400);
    let b3 = add_bullet(&mut world, 95, 305);
    let n = run(&mut world);
    let left: Vec<Entity> = world.bullets.iter().map(|b| b.entity).collect();
    assert_eq!(left, vec![b0, b2]);
    assert!(!left.contains(&b1) && !left.contains(&b3));
    assert_eq!(
        n.enemy_collision,
        vec![EnemyCollision(enemy, at(100, 300)), EnemyCollision(enemy, at(100, 300))]
    );
}

#[test]
fn a_bullet_on_two_enemies_is_removed_once_and_reported_twice() {
    let mut world = World::new();
    let e0 = add_enemy(&mut world, 100, 300);
    let e1 = add_enemy(&mut world, 110, 300);
    add_bullet(&mut world, 105, 300);
    let n = run(&mut world);
    assert!(world.bullets.is_empty());
    assert_eq!(
        n.enemy_collision,
        vec![EnemyCollision(e0, at(100, 300)), EnemyCollision(e1, at(110, 300))]
    );
}

#[test]
fn notices_are_added_after_those_already_waiting() {
    let mut world = World::new();
    let player = add_player(&mut world, 0, 0);
    let enemy = add_enemy(&mut world, 5, 5);
    add_bullet(&mut world, 5, 5);
    let mut pd = vec![PlayerDestroyed(Entity(77), at(1, 1))];
    let mut ec = vec![EnemyCollision(Entity(88), at(2, 2))];
    let mut ed = vec![EnemyDestroyed(Entity(99), at(3, 3))];
    check_collisions(&mut world, &mut pd, &mut ec, &mut ed);
    assert_eq!(pd, vec![PlayerDestroyed(Entity(77), at(1, 1)), PlayerDestroyed(player, at(0, 0))]);
    assert_eq!(ec, vec![EnemyCollision(Entity(88), at(2, 2)), EnemyCollision(enemy, at(5, 5))]);
    assert_eq!(ed, vec![EnemyDestroyed(Entity(99), at(3, 3)), EnemyDestroyed(enemy, at(0, 0))]);
}

#[test]
fn an_empty_world_has_no_collisions() {
    let mut world = World::new();
    let n = run(&mut world);
    assert!(n.player_destroyed.is_empty());
    assert!(n.enemy_collision.is_empty());
    assert!(n.enemy_destroyed.is_empty());
}

#[test]
fn entities_without_a_box_are_fine_where_nothing_can_meet_them() {
    let mut world = World::new();
    world.spawn_player(PlayerBundle::new(at(0, 0), None));
    add_bullet(&mut world, 0, 0);
    let n = run(&mut world);
    assert!(n.player_destroyed.is_empty());
    assert_eq!(world.bullets.len(), 1);
}

#[test]
fn players_and_bullets_do_not_collide() {
    let mut world = World::new();
    add_player(&mut world, 0, 0);
    add_bullet(&mut world, 0, 0);
    let n = run(&mut world);
    assert!(n.player_destroyed.is_empty());
    assert!(n.enemy_collision.is_empty());
    assert_eq!(world.bullets.len(), 1);
}

#[test]
fn boxes_are_needed_only_where_something_can_meet() {
    let mut world = World::new();
    assert!(arcade_core::shared::has_boxes(&world));
    world.spawn_player(PlayerBundle::new(at(0, 0), None));
    assert!(arcade_core::shared::has_boxes(&world));
    let unsized_enemy = add_enemy(&mut world, 0, 0);
    assert!(!arcade_core::shared::has_boxes(&world));
    world.players[0].bundle.sprite_bundle.sprite.custom_size = square(20);
    assert!(arcade_core::shared::has_boxes(&world));
    world.enemies[0].bundle.sprite_bundle.sprite.custom_size = None;
    assert!(!arcade_core::shared::has_boxes(&world));
    world.players.clear();
    assert!(arcade_core::shared::has_boxes(&world));
    let bullet = add_bullet(&mut world, 0, 0);
    assert!(!arcade_core::shared::has_boxes(&world));
    world.enemies[0].bundle.sprite_bundle.sprite.custom_size = square(20);
    assert!(arcade_core::shared::has_boxes(&world));
    world.bullets[0].bundle.sprite_bundle.sprite.custom_size = None;
    assert!(!arcade_core::shared::has_boxes(&world));
    assert_ne!(unsized_enemy, bullet);
}
