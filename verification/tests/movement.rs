use arcade_core::bullet::{Bullet, BulletBundle};
use arcade_core::enemy::EnemyBundle;
use arcade_core::math::{Vec2, Vec3, UNIT};
use arcade_core::player::PlayerBundle;
use arcade_core::shared::{advance, update_velocity_transforms, Velocity};
use arcade_core::sprite::{Color, SpriteBundle};
use arcade_core::world::World;

fn px(n: i64) -> i64 {
    n * UNIT
}

fn moving_enemy(world: &mut World, at: Vec3, velocity: Velocity) {
    let label = world.spawn_text(at.x, at.y, "w");
    world.spawn_enemy(
        EnemyBundle::new("w", at, Some(Vec2 { x: px(20), y: px(20) }), label),
        velocity,
    );
}

fn moving_bullet(world: &mut World, at: Vec3, velocity: Velocity) {
    world.spawn_bullet(BulletBundle {
        bullet: Bullet,
        velocity,
        sprite_bundle: SpriteBundle::new(Color::Yellow, at, Some(Vec2 { x: px(5), y: px(5) })),
    });
}

#[test]
fn advance_adds_vector_times_multiplier() {
    let at = Vec3 { x: px(100), y: px(200), z: 7 };
    let velocity = Velocity { vector: Vec2 { x: px(3), y: px(-2) }, multiplier: UNIT / 2 };
    assert_eq!(advance(at, velocity), Vec3 { x: px(100) + 15_000, y: px(200) - 10_000, z: 7 });
}

#[test]
fn advance_with_factor_one_adds_the_vector() {
    let at = Vec3 { x: -5, y: 9, z: 0 };
    let velocity = Velocity { vector: Vec2 { x: 12, y: -30 }, multiplier: UNIT };
    assert_eq!(advance(at, velocity), Vec3 { x: 7, y: -21, z: 0 });
}

#[test]
fn advance_rounds_the_step_down() {
    let at = Vec3 { x: 0, y: 0, z: 0 };
    let velocity = Velocity { vector: Vec2 { x: 1, y: -1 }, multiplier: UNIT / 2 };
    assert_eq!(advance(at, velocity), Vec3 { x: 0, y: -1, z: 0 });
}

#[test]
fn advance_sticks_at_the_ends_of_the_range() {
    let velocity = Velocity { vector: Vec2 { x: px(1), y: px(-1) }, multiplier: UNIT };
    let at = Vec3 { x: i64::MAX - 1, y: i64::MIN + 1, z: 0 };
    assert_eq!(advance(at, velocity), Vec3 { x: i64::MAX, y: i64::MIN, z: 0 });
}

#[test]
fn integration_moves_every_enemy_by_its_velocity() {
    let mut world = World::new();
    moving_enemy(
        &mut world,
        Vec3 { x: px(100), y: px(200), z: 0 },
        Velocity { vector: Vec2 { x: px(3), y: px(-2) }, multiplier: UNIT / 2 },
    );
    moving_enemy(
        &mut world,
        Vec3 { x: px(-10), y: px(0), z: 0 },
        Velocity { vector: Vec2 { x: px(400), y: px(100) }, multiplier: 5 },
    );
    update_velocity_transforms(&mut world);
    assert_eq!(
        world.enemies[0].bundle.sprite_bundle.transform.translation,
        Vec3 { x: px(100) + 15_000, y: px(200) - 10_000, z: 0 }
    );
    assert_eq!(
        world.enemies[1].bundle.sprite_bundle.transform.translation,
        Vec3 { x: px(-10) + 2_000, y: 500, z: 0 }
    );
}

#[test]
fn integration_moves_every_bullet_by_its_velocity() {
    let mut world = World::new();
    moving_bullet(
        &mut world,
        Vec3 { x: px(240), y: px(40), z: 0 },
        Velocity { vector: Vec2 { x: px(-100), y: px(500) }, multiplier: 100 },
    );
    update_velocity_transforms(&mut world);
    assert_eq!(
        world.bullets[0].bundle.sprite_bundle.transform.translation,
        Vec3 { x: px(239), y: px(45), z: 0 }
    );
    update_velocity_transforms(&mut world);
    assert_eq!(
        world.bullets[0].bundle.sprite_bundle.transform.translation,
        Vec3 { x: px(238), y: px(50), z: 0 }
    );
}

#[test]
fn integration_keeps_everything_but_positions() {
    let mut world = World::new();
    let velocity = Velocity { vector: Vec2 { x: px(3), y: px(-2) }, multiplier: UNIT };
    moving_enemy(&mut world, Vec3 { x: 0, y: 0, z: 0 }, velocity);
    moving_bullet(&mut world, Vec3 { x: 0, y: 0, z: 0 }, velocity);
    update_velocity_transforms(&mut world);
    assert_eq!(world.enemies.len(), 1);
    assert_eq!(world.enemies[0].velocity, velocity);
    assert_eq!(world.enemies[0].entity.0, 1);
    assert_eq!(world.enemies[0].seen_at, None);
    assert_eq!(world.enemies[0].bundle.word.get_word(), Some("w".to_string()));
    assert_eq!(world.bullets.len(), 1);
    assert_eq!(world.bullets[0].bundle.velocity, velocity);
    assert_eq!(world.bullets[0].entity.0, 2);
    assert_eq!(world.next_entity, 3);
}

#[test]
fn integration_leaves_players_and_labels_alone() {
    let mut world = World::new();
    world.spawn_player(PlayerBundle::new(Vec3 { x: px(240), y: px(40), z: 0 }, None));
    moving_enemy(
        &mut world,
        Vec3 { x: px(10), y: px(10), z: 0 },
        Velocity { vector: Vec2 { x: px(1), y: px(1) }, multiplier: UNIT },
    );
    update_velocity_transforms(&mut world);
    assert_eq!(
        world.players[0].bundle.sprite_bundle.transform.translation,
        Vec3 { x: px(240), y: px(40), z: 0 }
    );
    assert_eq!(world.texts[0].left, px(10));
    assert_eq!(world.texts[0].bottom, px(10));
}

#[test]
fn integration_does_not_keep_entities_on_screen() {
    let mut world = World::new();
    moving_enemy(
        &mut world,
        Vec3 { x: 0, y: 0, z: 0 },
        Velocity { vector: Vec2 { x: px(-50), y: px(-70) }, multiplier: UNIT },
    );
    update_velocity_transforms(&mut world);
    assert_eq!(
        world.enemies[0].bundle.sprite_bundle.transform.translation,
        Vec3 { x: px(-50), y: px(-70), z: 0 }
    );
}

#[test]
fn a_resting_enemy_stays_where_it_is() {
    let mut world = World::new();
    moving_enemy(
        &mut world,
        Vec3 { x: px(33), y: px(44), z: 0 },
        Velocity { vector: Vec2 { x: UNIT, y: UNIT }, multiplier: 0 },
    );
    update_velocity_transforms(&mut world);
    assert_eq!(
        world.enemies[0].bundle.sprite_bundle.transform.translation,
        Vec3 { x: px(33), y: px(44), z: 0 }
    );
}
