//! The player: where it starts and how it shoots.

use vstd::prelude::*;
use crate::bullet::{Bullet, BulletBundle};
use crate::consts::{Config, ALL_KEYS};
use crate::input::{Input, KeyCode};
use crate::math::{saturate, saturated, Vec2, Vec3};
use crate::shared::events::BulletShot;
use crate::shared::Velocity;
use crate::sprite::{Color, Sprite, SpriteBundle, Transform};
use crate::window::Window;
use crate::world::{BulletRecord, EnemyRecord, Entity, PlayerRecord, World};

verus! {

/// Marks an entity as a player.
#[derive(Clone, Copy, Debug, PartialEq, Eq, Structural)]
pub struct Player;

/// The components a player is spawned with.
#[derive(Clone, Copy, Debug, PartialEq, Eq, Structural)]
pub struct PlayerBundle {
    pub player: Player,
    pub sprite_bundle: SpriteBundle,
}

impl PlayerBundle {
    /// A white player at `pos` with the bounding box `size`.
    pub fn new(pos: Vec3, size: Option<Vec2>) -> (r: PlayerBundle)
        ensures
            r == (PlayerBundle {
                player: Player,
                sprite_bundle: SpriteBundle {
                    sprite: Sprite { color: Color::White, custom_size: size },
                    transform: Transform { translation: pos },
                },
            }),
    {
        PlayerBundle { player: Player, sprite_bundle: SpriteBundle::new(Color::White, pos, size) }
    }
}

/// Where the player starts: halfway across the window, two of its own heights above the
/// bottom edge.
pub open spec fn start_position(window: Window, config: Config) -> Vec3 {
    Vec3 { x: window.center_spec().x, y: saturated(2 * config.player_size.y), z: 0 }
}

/// The player spawner. Places a player of the configured size at the start position and
/// returns its name.
pub fn spawn(world: &mut World, window: Window, config: &Config) -> (entity: Entity)
    requires
        old(world).wf(),
        old(world).spare() >= 1,
    ensures
        final(world).wf(),
        entity == Entity(old(world).next_entity),
        !old(world).contains(entity),
        final(world).next_entity == old(world).next_entity + 1,
        final(world).enemies == old(world).enemies,
        final(world).bullets == old(world).bullets,
        final(world).texts == old(world).texts,
        final(world).players@ == old(world).players@.push(
            PlayerRecord {
                entity,
                bundle: PlayerBundle {
                    player: Player,
                    sprite_bundle: SpriteBundle {
                        sprite: Sprite {
                            color: Color::White,
                            custom_size: Some(config.player_size),
                        },
                        transform: Transform { translation: start_position(window, *config) },
                    },
                },
                seen_at: None,
            },
        ),
{
    let pos = Vec3 { x: window.center().x, y: saturate(2 * (config.player_size.y as i128)), z: 0 };
    world.spawn_player(PlayerBundle::new(pos, Some(config.player_size)))
}

/// The velocity of a bullet fired from `from` at something that stands at `to`.
pub open spec fn aimed(from: Vec3, to: Vec3, multiplier: i64) -> Velocity {
    Velocity {
        vector: Vec2 { x: saturated(to.x - from.x), y: saturated(to.y - from.y) },
        multiplier,
    }
}

/// Computes the velocity of a bullet fired from `from` at something that stands at `to`.
pub fn aim(from: Vec3, to: Vec3, multiplier: i64) -> (r: Velocity)
    ensures
        r == aimed(from, to, multiplier),
{
    Velocity {
        vector: Vec2 {
            x: saturate(to.x as i128 - from.x as i128),
            y: saturate(to.y as i128 - from.y as i128),
        },
        multiplier,
    }
}

/// The bullet that `player` fires at `enemy`, under the name `entity`.
pub open spec fn shot_at(
    player: PlayerRecord,
    enemy: EnemyRecord,
    entity: Entity,
    config: Config,
) -> BulletRecord {
    BulletRecord {
        entity,
        bundle: BulletBundle {
            bullet: Bullet,
            velocity: aimed(
                player.translation(),
                enemy.translation(),
                config.bullet_speed_multiplier,
            ),
            sprite_bundle: SpriteBundle {
                sprite: Sprite { color: Color::Yellow, custom_size: Some(config.bullet_size) },
                transform: Transform { translation: player.translation() },
            },
        },
    }
}

/// The place, counted from the first shot of a volley, of the shot that player `a` fires
/// at enemy `b` when there are `enemies` enemies.
pub open spec fn volley_index(enemies: int, a: int, b: int) -> int {
    a * enemies + b
}

/// Whether the world can name the bullets that a key press would fire: true where no
/// letter key has gone down, and where one has exactly if a name is left for each pair
/// of a player and an enemy.
pub open spec fn volley_fits(world: World, keys: Input) -> bool {
    keys.any_just_pressed_spec(ALL_KEYS@) ==> world.spare() >= world.players@.len()
        * world.enemies@.len()
}

/// Tests whether the world can name the bullets that a key press would fire.
pub fn can_fire(world: &World, keys: &Input) -> (r: bool)
    ensures
        r == volley_fits(*world, *keys),
{
    let keys_to_fire: [KeyCode; 26] = ALL_KEYS;
    if !keys.any_just_pressed(keys_to_fire.as_slice()) {
        return true;
    }
    let rows: u128 = world.players.len() as u128;
    let columns: u128 = world.enemies.len() as u128;
    assert(rows * columns <= 0xffff_ffff_ffff_ffff * 0xffff_ffff_ffff_ffff) by (nonlinear_arith)
        requires
            0 <= rows <= 0xffff_ffff_ffff_ffff,
            0 <= columns <= 0xffff_ffff_ffff_ffff,
    ;
    rows * columns <= world.spare_names() as u128
}

/// Player input. When a letter key has gone down since the previous frame, every player
/// fires one bullet at every enemy, player by player and enemy by enemy in registry
/// order, and each bullet is announced twice. Without such a key nothing happens.
pub fn update_input(world: &mut World, keys: &Input, events: &mut Vec<BulletShot>, config: &Config)
    requires
        old(world).wf(),
        volley_fits(*old(world), *keys),
    ensures
        final(world).wf(),
        final(world).players == old(world).players,
        final(world).enemies == old(world).enemies,
        final(world).texts == old(world).texts,
        !keys.any_just_pressed_spec(ALL_KEYS@) ==> {
            &&& final(world).bullets@ == old(world).bullets@
            &&& final(world).next_entity == old(world).next_entity
            &&& final(events)@ == old(events)@
        },
        keys.any_just_pressed_spec(ALL_KEYS@) ==> {
            let volley = old(world).players@.len() * old(world).enemies@.len();
            &&& final(world).next_entity == old(world).next_entity + volley
            &&& final(world).bullets@.len() == old(world).bullets@.len() + volley
            &&& final(world).bullets@.take(old(world).bullets@.len() as int) == old(world).bullets@
            &&& final(events)@ == old(events)@ + Seq::new((2 * volley) as nat, |k: int| BulletShot)
            &&& forall|a: int, b: int|
                0 <= a < old(world).players@.len() && 0 <= b < old(world).enemies@.len() ==> {
                    let k = #[trigger] volley_index(old(world).enemies@.len() as int, a, b);
                    &&& 0 <= k < volley
                    &&& final(world).bullets@[old(world).bullets@.len() + k] == shot_at(
                        old(world).players@[a],
                        old(world).enemies@[b],
                        Entity((old(world).next_entity + k) as u64),
                        *config,
                    )
                }
        },
{
    let keys_to_fire: [KeyCode; 26] = ALL_KEYS;
    if !keys.any_just_pressed(keys_to_fire.as_slice()) {
        return ;
    }
    let ghost columns = world.enemies@.len() as int;
    let ghost rows = world.players@.len() as int;
    let ghost first_bullet = world.bullets@.len() as int;
    let ghost first_name = world.next_entity as int;
    let mut a: usize = 0;
    proof {
        assert(world.bullets@.take(first_bullet) =~= old(world).bullets@);
        assert(events@ =~= old(events)@ + Seq::new(0nat, |k: int| BulletShot));
    }
    while a < world.players.len()
        invariant
            world.wf(),
            world.players == old(world).players,
            world.enemies == old(world).enemies,
            world.texts == old(world).texts,
            columns == old(world).enemies@.len(),
            rows == old(world).players@.len(),
            first_bullet == old(world).bullets@.len(),
            first_name == old(world).next_entity,
            first_name + rows * columns <= u64::MAX,
            a <= rows,
            world.next_entity == first_name + a * columns,
            world.bullets@.len() == first_bullet + a * columns,
            world.bullets@.take(first_bullet) == old(world).bullets@,
            events@ == old(events)@ + Seq::new((2 * (a * columns)) as nat, |k: int| BulletShot),
            forall|p: int, q: int|
                0 <= p < a && 0 <= q < columns ==> {
                    let k = #[trigger] volley_index(columns, p, q);
                    world.bullets@[first_bullet + k] == shot_at(
                        old(world).players@[p],
                        old(world).enemies@[q],
                        Entity((first_name + k) as u64),
                        *config,
                    )
                },
        decreases rows - a,
    {
        let from = world.players[a].bundle.sprite_bundle.transform.translation;
        let mut b: usize = 0;
        proof {
            lemma_volley_bounds(rows, columns, a as int, 0);
        }
        while b < world.enemies.len()
            invariant
                world.wf(),
                world.players == old(world).players,
                world.enemies == old(world).enemies,
                world.texts == old(world).texts,
                columns == old(world).enemies@.len(),
                rows == old(world).players@.len(),
                first_bullet == old(world).bullets@.len(),
                first_name == old(world).next_entity,
                first_name + rows * columns <= u64::MAX,
                a < rows,
                b <= columns,
                from == old(world).players@[a as int].translation(),
                world.next_entity == first_name + a * columns + b,
                world.bullets@.len() == first_bullet + a * columns + b,
                world.bullets@.take(first_bullet) == old(world).bullets@,
                events@ == old(events)@ + Seq::new((2 * (a * columns + b)) as nat, |k: int| BulletShot),
                forall|p: int, q: int|
                    0 <= p < a && 0 <= q < columns ==> {
                        let k = #[trigger] volley_index(columns, p, q);
                        world.bullets@[first_bullet + k] == shot_at(
                            old(world).players@[p],
                            old(world).enemies@[q],
                            Entity((first_name + k) as u64),
                            *config,
                        )
                    },
                forall|q: int|
                    0 <= q < b ==> {
                        let k = #[trigger] volley_index(columns, a as int, q);
                        world.bullets@[first_bullet + k] == shot_at(
                            old(world).players@[a as int],
                            old(world).enemies@[q],
                            Entity((first_name + k) as u64),
                            *config,
                        )
                    },
            decreases columns - b,
        {
            let to = world.enemies[b].bundle.sprite_bundle.transform.translation;
            let ghost bullets_before = world.bullets@;
            let ghost events_before = events@;
            proof {
                lemma_volley_bounds(rows, columns, a as int, b as int);
            }
            crate::bullet::spawn(
                world,
                events,
                from,
                aim(from, to, config.bullet_speed_multiplier),
                config,
            );
            events.push(BulletShot);
            proof {
                assert(world.bullets@.take(first_bullet) =~= bullets_before.take(first_bullet));
                assert(events@ =~= old(events)@ + Seq::new(
                    (2 * (a * columns + (b + 1))) as nat,
                    |k: int| BulletShot,
                ));
                assert forall|p: int, q: int| 0 <= p < a && 0 <= q < columns implies {
                    let k = #[trigger] volley_index(columns, p, q);
                    world.bullets@[first_bullet + k] == shot_at(
                        old(world).players@[p],
                        old(world).enemies@[q],
                        Entity((first_name + k) as u64),
                        *config,
                    )
                } by {
                    lemma_volley_bounds(a as int, columns, p, q);
                    let k = volley_index(columns, p, q);
                    assert(world.bullets@[first_bullet + k] == bullets_before[first_bullet + k]);
                }
                assert forall|q: int| 0 <= q < b + 1 implies {
                    let k = #[trigger] volley_index(columns, a as int, q);
                    world.bullets@[first_bullet + k] == shot_at(
                        old(world).players@[a as int],
                        old(world).enemies@[q],
                        Entity((first_name + k) as u64),
                        *config,
                    )
                } by {
                    let k = volley_index(columns, a as int, q);
                    if q < b {
                        assert(world.bullets@[first_bullet + k] == bullets_before[first_bullet + k]);
                    }
                }
            }
            b += 1;
        }
        proof {
            assert((a + 1) * columns == a * columns + columns) by (nonlinear_arith);
        }
        a += 1;
    }
    proof {
        assert forall|p: int, q: int| 0 <= p < rows && 0 <= q < columns implies 0 <= (
        #[trigger] volley_index(columns, p, q)) < rows * columns by {
            lemma_volley_bounds(rows, columns, p, q);
        }
    }
}

/// Among `rows` players and `columns` enemies, every shot has its place in the volley.
pub proof fn lemma_volley_bounds(rows: int, columns: int, a: int, b: int)
    requires
        0 <= a < rows,
        0 <= b <= columns,
    ensures
        0 <= a * columns,
        a * columns + b <= rows * columns,
        b < columns ==> 0 <= volley_index(columns, a, b) < rows * columns,
{
    assert(0 <= a * columns && a * columns + columns <= rows * columns) by (nonlinear_arith)
        requires
            0 <= a < rows,
            0 <= columns,
    ;
}

} // verus!
