//! Bullets: how they come into the world and when they leave it.

use vstd::prelude::*;
use crate::consts::Config;
use crate::math::Vec3;
use crate::shared::events::BulletShot;
use crate::shared::Velocity;
use crate::sprite::{Color, Sprite, SpriteBundle, Transform};
use crate::window::Window;
use crate::world::{
    lemma_filter_apart, lemma_filter_ascending, lemma_filter_keeps_exactly, BulletRecord, Entity,
    World,
};

verus! {

/// Marks an entity as a bullet.
#[derive(Clone, Copy, Debug, PartialEq, Eq, Structural)]
pub struct Bullet;

/// The components a bullet is spawned with.
#[derive(Clone, Copy, Debug, PartialEq, Eq, Structural)]
pub struct BulletBundle {
    pub bullet: Bullet,
    pub velocity: Velocity,
    pub sprite_bundle: SpriteBundle,
}

/// Whether a position lies beyond the right or the top edge of the window. Positions
/// beyond the left or the bottom edge, negative ones too, do not count.
pub open spec fn off_screen(at: Vec3, window: Window) -> bool {
    at.x > window.width || at.y > window.height
}

/// Tests a position against the right and the top edge of the window.
pub fn is_off_screen(at: Vec3, window: Window) -> (r: bool)
    ensures
        r == off_screen(at, window),
{
    at.x > window.width || at.y > window.height
}

/// Fires a bullet from `player_pos` with the given velocity and announces the shot.
/// Returns the bullet's name.
pub fn spawn(
    world: &mut World,
    events: &mut Vec<BulletShot>,
    player_pos: Vec3,
    velocity: Velocity,
    config: &Config,
) -> (entity: Entity)
    requires
        old(world).wf(),
        old(world).spare() >= 1,
    ensures
        final(world).wf(),
        entity == Entity(old(world).next_entity),
        !old(world).contains(entity),
        final(world).next_entity == old(world).next_entity + 1,
        final(world).players == old(world).players,
        final(world).enemies == old(world).enemies,
        final(world).texts == old(world).texts,
        final(world).bullets@ == old(world).bullets@.push(
            BulletRecord {
                entity,
                bundle: BulletBundle {
                    bullet: Bullet,
                    velocity,
                    sprite_bundle: SpriteBundle {
                        sprite: Sprite {
                            color: Color::Yellow,
                            custom_size: Some(config.bullet_size),
                        },
                        transform: Transform { translation: player_pos },
                    },
                },
            },
        ),
        final(events)@ == old(events)@.push(BulletShot),
{
    events.push(BulletShot);
    world.spawn_bullet(
        BulletBundle {
            bullet: Bullet,
            velocity,
            sprite_bundle: SpriteBundle::new(Color::Yellow, player_pos, Some(config.bullet_size)),
        },
    )
}

/// Removes the bullets that have left the window through its right or top edge. A
/// bullet stays exactly if neither coordinate exceeds the window's.
pub fn clean_up(world: &mut World, window: Window)
    requires
        old(world).wf(),
    ensures
        final(world).wf(),
        final(world).players == old(world).players,
        final(world).enemies == old(world).enemies,
        final(world).texts == old(world).texts,
        final(world).next_entity == old(world).next_entity,
        final(world).bullets@ == old(world).bullets@.filter(
            |b: BulletRecord| !off_screen(b.translation(), window),
        ),
        forall|i: int|
            0 <= i < old(world).bullets@.len() ==> (final(world).bullets@.contains(
                #[trigger] old(world).bullets@[i],
            ) <==> !off_screen(old(world).bullets@[i].translation(), window)),
{
    let ghost on_screen = |b: BulletRecord| !off_screen(b.translation(), window);
    let mut kept: Vec<BulletRecord> = Vec::new();
    let mut i: usize = 0;
    proof {
        reveal(Seq::filter);
        assert(world.bullets@.take(0).filter(on_screen) =~= kept@);
    }
    while i < world.bullets.len()
        invariant
            *world == *old(world),
            on_screen == |b: BulletRecord| !off_screen(b.translation(), window),
            i <= world.bullets@.len(),
            kept@ == world.bullets@.take(i as int).filter(on_screen),
        decreases world.bullets@.len() - i,
    {
        let bullet: BulletRecord = world.bullets[i];
        proof {
            assert(world.bullets@.take(i + 1) =~= world.bullets@.take(i as int).push(bullet));
            world.bullets@.take(i as int).lemma_filter_push(bullet, on_screen);
        }
        if !is_off_screen(bullet.bundle.sprite_bundle.transform.translation, window) {
            kept.push(bullet);
        }
        i += 1;
    }
    proof {
        assert(world.bullets@.take(i as int) =~= world.bullets@);
        lemma_filter_ascending(world.bullets@, on_screen, world.next_entity);
        lemma_filter_apart(world.bullets@, on_screen, world.players@);
        lemma_filter_apart(world.bullets@, on_screen, world.enemies@);
        lemma_filter_apart(world.bullets@, on_screen, world.texts@);
        lemma_filter_keeps_exactly(world.bullets@, on_screen);
    }
    world.bullets = kept;
}

} // verus!
