//! Components and systems that every kind of entity shares.

use vstd::prelude::*;
use core::ops::Range;
use rand::Rng;
use crate::bullet::BulletBundle;
use crate::enemy::EnemyBundle;
use crate::math::{saturate, saturated, scale, scaled, Vec2, Vec3};
use crate::sprite::{SpriteBundle, Transform};
use crate::pairs::{lemma_row_step, lemma_rows_step, lemma_scan, pairs, row_pairs};
use crate::shared::events::{EnemyCollision, EnemyDestroyed, PlayerDestroyed};
use crate::world::{
    lemma_filter_apart, lemma_filter_ascending, lemma_filter_keeps_members, BulletRecord,
    EnemyRecord, Named, PlayerRecord, World,
};

pub mod events;

verus! {

/// What a stored word reads, if there is one.
pub open spec fn text_of(word: Option<String>) -> Option<Seq<char>> {
    match word {
        Some(s) => Some(s@),
        None => None,
    }
}

/// The word an entity carries, if any.
#[derive(Debug, PartialEq, Eq)]
pub struct Word(Option<String>);

impl View for Word {
    type V = Option<Seq<char>>;

    closed spec fn view(&self) -> Option<Seq<char>> {
        text_of(self.0)
    }
}

impl Word {
    /// Wraps `word`.
    pub fn new(word: Option<String>) -> (r: Word)
        ensures
            r@ == text_of(word),
    {
        Word(word)
    }

    /// A copy of the word.
    pub fn get_word(&self) -> (r: Option<String>)
        ensures
            text_of(r) == self@,
    {
        match &self.0 {
            Some(s) => Some(s.clone()),
            None => None,
        }
    }
}

/// How an entity moves: each tick it advances by `vector` times `multiplier`, where
/// `multiplier` is a fixed-point factor.
#[derive(Clone, Copy, Debug, PartialEq, Eq, Structural)]
pub struct Velocity {
    pub vector: Vec2,
    pub multiplier: i64,
}

/// Where something that stands at `at` is after one tick of moving with `velocity`: each
/// axis advances by the velocity's vector times its multiplier; the layer stays.
pub open spec fn advanced(at: Vec3, velocity: Velocity) -> Vec3 {
    Vec3 {
        x: saturated(at.x + scaled(velocity.vector.x as int, velocity.multiplier as int)),
        y: saturated(at.y + scaled(velocity.vector.y as int, velocity.multiplier as int)),
        z: at.z,
    }
}

/// The sprite bundle moved to `at`.
pub open spec fn moved_to(bundle: SpriteBundle, at: Vec3) -> SpriteBundle {
    SpriteBundle { transform: Transform { translation: at }, ..bundle }
}

/// The enemy after one tick of moving with its velocity.
pub open spec fn stepped_enemy(enemy: EnemyRecord) -> EnemyRecord {
    EnemyRecord {
        bundle: EnemyBundle {
            sprite_bundle: moved_to(
                enemy.bundle.sprite_bundle,
                advanced(enemy.translation(), enemy.velocity),
            ),
            ..enemy.bundle
        },
        ..enemy
    }
}

/// The bullet after one tick of moving with its velocity.
pub open spec fn stepped_bullet(bullet: BulletRecord) -> BulletRecord {
    BulletRecord {
        bundle: BulletBundle {
            sprite_bundle: moved_to(
                bullet.bundle.sprite_bundle,
                advanced(bullet.translation(), bullet.bundle.velocity),
            ),
            ..bullet.bundle
        },
        ..bullet
    }
}

/// Moves a position by one tick of `velocity`.
pub fn advance(at: Vec3, velocity: Velocity) -> (r: Vec3)
    ensures
        r == advanced(at, velocity),
{
    let dx: i128 = scale(velocity.vector.x, velocity.multiplier);
    let dy: i128 = scale(velocity.vector.y, velocity.multiplier);
    Vec3 { x: saturate(at.x as i128 + dx), y: saturate(at.y as i128 + dy), z: at.z }
}

/// As long as the result can be represented, a step adds exactly the velocity's vector
/// times its multiplier to the position.
pub proof fn lemma_step_exact(at: Vec3, velocity: Velocity)
    requires
        i64::MIN <= at.x + scaled(velocity.vector.x as int, velocity.multiplier as int) <= i64::MAX,
        i64::MIN <= at.y + scaled(velocity.vector.y as int, velocity.multiplier as int) <= i64::MAX,
    ensures
        advanced(at, velocity).x == at.x + scaled(
            velocity.vector.x as int,
            velocity.multiplier as int,
        ),
        advanced(at, velocity).y == at.y + scaled(
            velocity.vector.y as int,
            velocity.multiplier as int,
        ),
        advanced(at, velocity).z == at.z,
{
}

/// The movement integrator. Advances every entity that has a velocity, enemies and
/// bullets alike, by one tick. Nothing is kept on screen.
pub fn update_velocity_transforms(world: &mut World)
    requires
        old(world).wf(),
    ensures
        final(world).wf(),
        final(world).players == old(world).players,
        final(world).texts == old(world).texts,
        final(world).next_entity == old(world).next_entity,
        final(world).enemies@ == old(world).enemies@.map_values(|e: EnemyRecord| stepped_enemy(e)),
        final(world).bullets@ == old(world).bullets@.map_values(
            |b: BulletRecord| stepped_bullet(b),
        ),
{
    let mut i: usize = 0;
    while i < world.enemies.len()
        invariant
            world.players == old(world).players,
            world.texts == old(world).texts,
            world.bullets == old(world).bullets,
            world.next_entity == old(world).next_entity,
            world.enemies@.len() == old(world).enemies@.len(),
            i <= world.enemies@.len(),
            forall|k: int| 0 <= k < i ==> #[trigger] world.enemies@[k] == stepped_enemy(old(world).enemies@[k]),
            forall|k: int|
                i <= k < world.enemies@.len() ==> #[trigger] world.enemies@[k] == old(world).enemies@[k],
        decreases world.enemies@.len() - i,
    {
        let at = world.enemies[i].bundle.sprite_bundle.transform.translation;
        let velocity = world.enemies[i].velocity;
        world.enemies[i].bundle.sprite_bundle.transform.translation = advance(at, velocity);
        i += 1;
    }
    let mut j: usize = 0;
    while j < world.bullets.len()
        invariant
            world.players == old(world).players,
            world.texts == old(world).texts,
            world.next_entity == old(world).next_entity,
            world.enemies@ == old(world).enemies@.map_values(|e: EnemyRecord| stepped_enemy(e)),
            world.bullets@.len() == old(world).bullets@.len(),
            j <= world.bullets@.len(),
            forall|k: int| 0 <= k < j ==> #[trigger] world.bullets@[k] == stepped_bullet(old(world).bullets@[k]),
            forall|k: int|
                j <= k < world.bullets@.len() ==> #[trigger] world.bullets@[k] == old(world).bullets@[k],
        decreases world.bullets@.len() - j,
    {
        let at = world.bullets[j].bundle.sprite_bundle.transform.translation;
        let velocity = world.bullets[j].bundle.velocity;
        world.bullets[j].bundle.sprite_bundle.transform.translation = advance(at, velocity);
        j += 1;
    }
    proof {
        assert(world.bullets@ =~= old(world).bullets@.map_values(|b: BulletRecord| stepped_bullet(b)));
    }
}

/// Whether both coordinates of `v` lie in `r`.
pub open spec fn within(v: Vec2, r: Range<i64>) -> bool {
    r.start <= v.x < r.end && r.start <= v.y < r.end
}

/// Draws a number from `r` with `rand`'s `thread_rng().gen_range(..)`. The contract
/// claims only what holds of every draw: the number lies in the range, start included
/// and end excluded. An empty range, on which `gen_range` panics, is left out. The
/// generator seeds itself from the operating system on first use and panics if the
/// system gives it no entropy.
#[verifier::external_body]
fn gen_range(r: Range<i64>) -> (x: i64)
    requires
        r.start < r.end,
    ensures
        r.start <= x < r.end,
{
    rand::thread_rng().gen_range(r)
}

/// A random vector with each coordinate drawn from `r` on its own.
pub fn random_vec2(r: Range<i64>) -> (v: Vec2)
    requires
        r.start < r.end,
    ensures
        within(v, r),
{
    let x: i64 = gen_range(r.start..r.end);
    let y: i64 = gen_range(r);
    Vec2 { x, y }
}

/// A record that may have a bounding box.
pub trait Boxed {
    /// The extent of the record's bounding box, if it has one.
    spec fn extent(&self) -> Option<Vec2>;

    /// Reads the extent of the record's bounding box.
    fn read_extent(&self) -> (size: Option<Vec2>)
        ensures
            size == self.extent(),
    ;
}

impl Boxed for PlayerRecord {
    open spec fn extent(&self) -> Option<Vec2> {
        self.size()
    }

    fn read_extent(&self) -> (size: Option<Vec2>) {
        self.bundle.sprite_bundle.sprite.custom_size
    }
}

impl Boxed for EnemyRecord {
    open spec fn extent(&self) -> Option<Vec2> {
        self.size()
    }

    fn read_extent(&self) -> (size: Option<Vec2>) {
        self.bundle.sprite_bundle.sprite.custom_size
    }
}

impl Boxed for BulletRecord {
    open spec fn extent(&self) -> Option<Vec2> {
        self.size()
    }

    fn read_extent(&self) -> (size: Option<Vec2>) {
        self.bundle.sprite_bundle.sprite.custom_size
    }
}

/// Whether two boxes overlap, each given by its centre and its extent. Boxes that only
/// share an edge or a corner do not overlap. The layer of a centre plays no part.
pub open spec fn overlapping(a_pos: Vec3, a_size: Vec2, b_pos: Vec3, b_size: Vec2) -> bool {
    &&& 2 * a_pos.x - a_size.x < 2 * b_pos.x + b_size.x
    &&& 2 * a_pos.x + a_size.x > 2 * b_pos.x - b_size.x
    &&& 2 * a_pos.y - a_size.y < 2 * b_pos.y + b_size.y
    &&& 2 * a_pos.y + a_size.y > 2 * b_pos.y - b_size.y
}

/// Tests two boxes for overlap.
pub fn boxes_overlap(a_pos: Vec3, a_size: Vec2, b_pos: Vec3, b_size: Vec2) -> (r: bool)
    ensures
        r == overlapping(a_pos, a_size, b_pos, b_size),
{
    let ax: i128 = 2 * (a_pos.x as i128);
    let ay: i128 = 2 * (a_pos.y as i128);
    let bx: i128 = 2 * (b_pos.x as i128);
    let by: i128 = 2 * (b_pos.y as i128);
    let aw: i128 = a_size.x as i128;
    let ah: i128 = a_size.y as i128;
    let bw: i128 = b_size.x as i128;
    let bh: i128 = b_size.y as i128;
    ax - aw < bx + bw && ax + aw > bx - bw && ay - ah < by + bh && ay + ah > by - bh
}

/// It does not matter which of two boxes is asked about the other.
pub proof fn lemma_overlap_symmetric(a_pos: Vec3, a_size: Vec2, b_pos: Vec3, b_size: Vec2)
    ensures
        overlapping(a_pos, a_size, b_pos, b_size) == overlapping(b_pos, b_size, a_pos, a_size),
{
}

/// Relates enemy `i` to player `j` where their boxes overlap.
pub open spec fn enemy_meets_player(
    enemies: Seq<EnemyRecord>,
    players: Seq<PlayerRecord>,
) -> spec_fn(int, int) -> bool {
    |i: int, j: int|
        overlapping(
            enemies[i].translation(),
            enemies[i].size().unwrap(),
            players[j].translation(),
            players[j].size().unwrap(),
        )
}

/// Relates bullet `i` to enemy `j` where their boxes overlap.
pub open spec fn bullet_meets_enemy(
    bullets: Seq<BulletRecord>,
    enemies: Seq<EnemyRecord>,
) -> spec_fn(int, int) -> bool {
    |i: int, j: int|
        overlapping(
            enemies[j].translation(),
            enemies[j].size().unwrap(),
            bullets[i].translation(),
            bullets[i].size().unwrap(),
        )
}

/// Whether the bullet overlaps some enemy.
pub open spec fn struck(bullet: BulletRecord, enemies: Seq<EnemyRecord>) -> bool {
    exists|j: int|
        0 <= j < enemies.len() && overlapping(
            (#[trigger] enemies[j]).translation(),
            enemies[j].size().unwrap(),
            bullet.translation(),
            bullet.size().unwrap(),
        )
}

/// The overlapping pairs of an enemy and a player, as (enemy, player) indices, enemy by
/// enemy in registry order.
pub open spec fn contacts(enemies: Seq<EnemyRecord>, players: Seq<PlayerRecord>) -> Seq<
    (int, int),
> {
    pairs(enemies.len(), players.len(), enemy_meets_player(enemies, players))
}

/// The overlapping pairs of a bullet and an enemy, as (bullet, enemy) indices, bullet by
/// bullet in registry order.
pub open spec fn hits(bullets: Seq<BulletRecord>, enemies: Seq<EnemyRecord>) -> Seq<(int, int)> {
    pairs(bullets.len(), enemies.len(), bullet_meets_enemy(bullets, enemies))
}

/// The notice that the player of a contact is destroyed.
pub open spec fn player_destroyed_by(players: Seq<PlayerRecord>) -> spec_fn(
    (int, int),
) -> PlayerDestroyed {
    |c: (int, int)| PlayerDestroyed(players[c.1].entity, players[c.1].translation())
}

/// The notice that the enemy of a contact is destroyed, at the player's position.
pub open spec fn enemy_destroyed_by(
    enemies: Seq<EnemyRecord>,
    players: Seq<PlayerRecord>,
) -> spec_fn((int, int)) -> EnemyDestroyed {
    |c: (int, int)| EnemyDestroyed(enemies[c.0].entity, players[c.1].translation())
}

/// The notice that the enemy of a hit was struck, at the enemy's position.
pub open spec fn enemy_collision_by(enemies: Seq<EnemyRecord>) -> spec_fn(
    (int, int),
) -> EnemyCollision {
    |h: (int, int)| EnemyCollision(enemies[h.1].entity, enemies[h.1].translation())
}

/// Whether every box that a collision check will look at is defined: where an enemy
/// can meet a player or a bullet, all of them have a size.
pub open spec fn boxes_defined(world: World) -> bool {
    &&& world.enemies@.len() > 0 && world.players@.len() > 0 ==> {
        &&& forall|i: int|
            0 <= i < world.enemies@.len() ==> (#[trigger] world.enemies@[i]).size() is Some
        &&& forall|j: int|
            0 <= j < world.players@.len() ==> (#[trigger] world.players@[j]).size() is Some
    }
    &&& world.bullets@.len() > 0 && world.enemies@.len() > 0 ==> {
        &&& forall|i: int|
            0 <= i < world.bullets@.len() ==> (#[trigger] world.bullets@[i]).size() is Some
        &&& forall|j: int|
            0 <= j < world.enemies@.len() ==> (#[trigger] world.enemies@[j]).size() is Some
    }
}

/// Whether every record of the table has a size.
fn all_sized<R: Boxed>(records: &Vec<R>) -> (r: bool)
    ensures
        r == forall|i: int| 0 <= i < records@.len() ==> (#[trigger] records@[i]).extent() is Some,
{
    let mut i: usize = 0;
    while i < records.len()
        invariant
            i <= records@.len(),
            forall|k: int| 0 <= k < i ==> (#[trigger] records@[k]).extent() is Some,
        decreases records@.len() - i,
    {
        if records[i].read_extent().is_none() {
            return false;
        }
        i += 1;
    }
    true
}

/// Tests whether every box that a collision check will look at is defined.
pub fn has_boxes(world: &World) -> (r: bool)
    ensures
        r == boxes_defined(*world),
{
    if world.enemies.len() == 0 {
        return true;
    }
    let with_players = world.players.len() > 0;
    let with_bullets = world.bullets.len() > 0;
    if !with_players && !with_bullets {
        return true;
    }
    all_sized(&world.enemies) && (!with_players || all_sized(&world.players)) && (!with_bullets
        || all_sized(&world.bullets))
}

/// Reports every enemy that touches a player.
fn check_players(
    world: &World,
    player_destroyed_events: &mut Vec<PlayerDestroyed>,
    enemy_destroyed_events: &mut Vec<EnemyDestroyed>,
)
    requires
        boxes_defined(*world),
    ensures
        final(player_destroyed_events)@ == old(player_destroyed_events)@ + contacts(
            world.enemies@,
            world.players@,
        ).map_values(player_destroyed_by(world.players@)),
        final(enemy_destroyed_events)@ == old(enemy_destroyed_events)@ + contacts(
            world.enemies@,
            world.players@,
        ).map_values(enemy_destroyed_by(world.enemies@, world.players@)),
{
    let ghost related = enemy_meets_player(world.enemies@, world.players@);
    let ghost columns = world.players@.len();
    let ghost seen: Seq<(int, int)> = Seq::empty();
    let mut i: usize = 0;
    proof {
        lemma_rows_step(0, columns, related);
        assert(player_destroyed_events@ =~= old(player_destroyed_events)@ + seen.map_values(
            player_destroyed_by(world.players@),
        ));
        assert(enemy_destroyed_events@ =~= old(enemy_destroyed_events)@ + seen.map_values(
            enemy_destroyed_by(world.enemies@, world.players@),
        ));
    }
    while i < world.enemies.len()
        invariant
            boxes_defined(*world),
            related == enemy_meets_player(world.enemies@, world.players@),
            columns == world.players@.len(),
            i <= world.enemies@.len(),
            seen == pairs(i as nat, columns, related),
            player_destroyed_events@ == old(player_destroyed_events)@ + seen.map_values(
                player_destroyed_by(world.players@),
            ),
            enemy_destroyed_events@ == old(enemy_destroyed_events)@ + seen.map_values(
                enemy_destroyed_by(world.enemies@, world.players@),
            ),
        decreases world.enemies@.len() - i,
    {
        let mut j: usize = 0;
        proof {
            lemma_row_step(i as int, 0, related);
            assert(seen =~= pairs(i as nat, columns, related) + row_pairs(i as int, 0, related));
        }
        while j < world.players.len()
            invariant
                boxes_defined(*world),
                related == enemy_meets_player(world.enemies@, world.players@),
                columns == world.players@.len(),
                i < world.enemies@.len(),
                j <= world.players@.len(),
                seen == pairs(i as nat, columns, related) + row_pairs(i as int, j as nat, related),
                player_destroyed_events@ == old(player_destroyed_events)@ + seen.map_values(
                    player_destroyed_by(world.players@),
                ),
                enemy_destroyed_events@ == old(enemy_destroyed_events)@ + seen.map_values(
                    enemy_destroyed_by(world.enemies@, world.players@),
                ),
            decreases world.players@.len() - j,
        {
            let enemy = &world.enemies[i];
            let player = &world.players[j];
            proof {
                lemma_row_step(i as int, j as nat, related);
            }
            if boxes_overlap(
                enemy.bundle.sprite_bundle.transform.translation,
                enemy.bundle.sprite_bundle.sprite.custom_size.unwrap(),
                player.bundle.sprite_bundle.transform.translation,
                player.bundle.sprite_bundle.sprite.custom_size.unwrap(),
            ) {
                let at = player.bundle.sprite_bundle.transform.translation;
                player_destroyed_events.push(PlayerDestroyed(player.entity, at));
                enemy_destroyed_events.push(EnemyDestroyed(enemy.entity, at));
                proof {
                    let grown = seen.push((i as int, j as int));
                    assert(grown =~= pairs(i as nat, columns, related) + row_pairs(
                        i as int,
                        (j + 1) as nat,
                        related,
                    ));
                    assert(player_destroyed_events@ =~= old(player_destroyed_events)@
                        + grown.map_values(player_destroyed_by(world.players@)));
                    assert(enemy_destroyed_events@ =~= old(enemy_destroyed_events)@
                        + grown.map_values(enemy_destroyed_by(world.enemies@, world.players@)));
                    seen = grown;
                }
            }
            j += 1;
        }
        proof {
            lemma_rows_step(i as nat, columns, related);
        }
        i += 1;
    }
}

/// Removes every bullet that touches an enemy and reports each touch.
fn check_bullets(world: &mut World, enemy_collision_events: &mut Vec<EnemyCollision>)
    requires
        old(world).wf(),
        boxes_defined(*old(world)),
    ensures
        final(world).wf(),
        final(world).players == old(world).players,
        final(world).enemies == old(world).enemies,
        final(world).texts == old(world).texts,
        final(world).next_entity == old(world).next_entity,
        final(world).bullets@ == old(world).bullets@.filter(
            |b: BulletRecord| !struck(b, old(world).enemies@),
        ),
        final(enemy_collision_events)@ == old(enemy_collision_events)@ + hits(
            old(world).bullets@,
            old(world).enemies@,
        ).map_values(enemy_collision_by(old(world).enemies@)),
{
    let ghost related = bullet_meets_enemy(world.bullets@, world.enemies@);
    let ghost columns = world.enemies@.len();
    let ghost unstruck = |b: BulletRecord| !struck(b, old(world).enemies@);
    let ghost seen: Seq<(int, int)> = Seq::empty();
    let mut kept: Vec<BulletRecord> = Vec::new();
    let mut i: usize = 0;
    proof {
        lemma_rows_step(0, columns, related);
        reveal(Seq::filter);
        assert(world.bullets@.take(0).filter(unstruck) =~= kept@);
        assert(enemy_collision_events@ =~= old(enemy_collision_events)@ + seen.map_values(
            enemy_collision_by(world.enemies@),
        ));
    }
    while i < world.bullets.len()
        invariant
            *world == *old(world),
            boxes_defined(*world),
            related == bullet_meets_enemy(world.bullets@, world.enemies@),
            columns == world.enemies@.len(),
            unstruck == |b: BulletRecord| !struck(b, old(world).enemies@),
            i <= world.bullets@.len(),
            seen == pairs(i as nat, columns, related),
            kept@ == world.bullets@.take(i as int).filter(unstruck),
            enemy_collision_events@ == old(enemy_collision_events)@ + seen.map_values(
                enemy_collision_by(world.enemies@),
            ),
        decreases world.bullets@.len() - i,
    {
        let bullet: BulletRecord = world.bullets[i];
        let mut hit = false;
        let mut j: usize = 0;
        proof {
            lemma_row_step(i as int, 0, related);
            assert(seen =~= pairs(i as nat, columns, related) + row_pairs(i as int, 0, related));
        }
        while j < world.enemies.len()
            invariant
                *world == *old(world),
                boxes_defined(*world),
                related == bullet_meets_enemy(world.bullets@, world.enemies@),
                columns == world.enemies@.len(),
                i < world.bullets@.len(),
                bullet == world.bullets@[i as int],
                j <= world.enemies@.len(),
                hit == exists|k: int| 0 <= k < j && #[trigger] related(i as int, k),
                seen == pairs(i as nat, columns, related) + row_pairs(i as int, j as nat, related),
                enemy_collision_events@ == old(enemy_collision_events)@ + seen.map_values(
                    enemy_collision_by(world.enemies@),
                ),
            decreases world.enemies@.len() - j,
        {
            let enemy = &world.enemies[j];
            proof {
                lemma_row_step(i as int, j as nat, related);
            }
            if boxes_overlap(
                enemy.bundle.sprite_bundle.transform.translation,
                enemy.bundle.sprite_bundle.sprite.custom_size.unwrap(),
                bullet.bundle.sprite_bundle.transform.translation,
                bullet.bundle.sprite_bundle.sprite.custom_size.unwrap(),
            ) {
                hit = true;
                enemy_collision_events.push(
                    EnemyCollision(enemy.entity, enemy.bundle.sprite_bundle.transform.translation),
                );
                proof {
                    assert(related(i as int, j as int));
                    let grown = seen.push((i as int, j as int));
                    assert(grown =~= pairs(i as nat, columns, related) + row_pairs(
                        i as int,
                        (j + 1) as nat,
                        related,
                    ));
                    assert(enemy_collision_events@ =~= old(enemy_collision_events)@
                        + grown.map_values(enemy_collision_by(world.enemies@)));
                    seen = grown;
                }
            }
            j += 1;
        }
        proof {
            lemma_rows_step(i as nat, columns, related);
            assert(world.bullets@.take(i + 1) =~= world.bullets@.take(i as int).push(bullet));
            world.bullets@.take(i as int).lemma_filter_push(bullet, unstruck);
            if hit {
                let k = choose|k: int| 0 <= k < j && #[trigger] related(i as int, k);
                assert(struck(bullet, world.enemies@));
            } else {
                if struck(bullet, world.enemies@) {
                    let k = choose|k: int|
                        0 <= k < world.enemies@.len() && overlapping(
                            (#[trigger] world.enemies@[k]).translation(),
                            world.enemies@[k].size().unwrap(),
                            bullet.translation(),
                            bullet.size().unwrap(),
                        );
                    assert(related(i as int, k));
                }
            }
        }
        if !hit {
            kept.push(bullet);
        }
        i += 1;
    }
    proof {
        assert(world.bullets@.take(i as int) =~= world.bullets@);
        lemma_filter_ascending(world.bullets@, unstruck, world.next_entity);
        lemma_filter_apart(world.bullets@, unstruck, world.players@);
        lemma_filter_apart(world.bullets@, unstruck, world.enemies@);
        lemma_filter_apart(world.bullets@, unstruck, world.texts@);
    }
    world.bullets = kept;
}

/// The collision detector. Reports each enemy that touches a player, once to the
/// player's and once to the enemy's listeners; then removes each bullet that touches
/// an enemy and reports every such touch. Players and enemies stay in the world.
pub fn check_collisions(
    world: &mut World,
    player_destroyed_events: &mut Vec<PlayerDestroyed>,
    enemy_collision_events: &mut Vec<EnemyCollision>,
    enemy_destroyed_events: &mut Vec<EnemyDestroyed>,
)
    requires
        old(world).wf(),
        boxes_defined(*old(world)),
    ensures
        final(world).wf(),
        final(world).players == old(world).players,
        final(world).enemies == old(world).enemies,
        final(world).texts == old(world).texts,
        final(world).next_entity == old(world).next_entity,
        final(player_destroyed_events)@ == old(player_destroyed_events)@ + contacts(
            old(world).enemies@,
            old(world).players@,
        ).map_values(player_destroyed_by(old(world).players@)),
        final(enemy_destroyed_events)@ == old(enemy_destroyed_events)@ + contacts(
            old(world).enemies@,
            old(world).players@,
        ).map_values(enemy_destroyed_by(old(world).enemies@, old(world).players@)),
        final(enemy_collision_events)@ == old(enemy_collision_events)@ + hits(
            old(world).bullets@,
            old(world).enemies@,
        ).map_values(enemy_collision_by(old(world).enemies@)),
        final(world).bullets@ == old(world).bullets@.filter(
            |b: BulletRecord| !struck(b, old(world).enemies@),
        ),
        forall|i: int|
            0 <= i < old(world).bullets@.len() && struck(
                #[trigger] old(world).bullets@[i],
                old(world).enemies@,
            ) ==> !final(world).contains(old(world).bullets@[i].entity),
{
    check_players(world, player_destroyed_events, enemy_destroyed_events);
    check_bullets(world, enemy_collision_events);
    proof {
        assert forall|i: int|
            0 <= i < old(world).bullets@.len() && struck(
                #[trigger] old(world).bullets@[i],
                old(world).enemies@,
            ) implies !world.contains(old(world).bullets@[i].entity) by {
            lemma_struck_bullet_gone(*old(world), world.bullets@, i);
        }
    }
}

/// A collision check raises one notice of each kind for every overlapping pair of an
/// enemy and a player, and none besides: the two lists of notices are as long as the
/// list of contacts, which holds exactly the overlapping pairs, each once.
pub proof fn lemma_one_notice_per_contact(enemies: Seq<EnemyRecord>, players: Seq<PlayerRecord>)
    ensures
        contacts(enemies, players).map_values(player_destroyed_by(players)).len() == contacts(
            enemies,
            players,
        ).len(),
        contacts(enemies, players).map_values(enemy_destroyed_by(enemies, players)).len()
            == contacts(enemies, players).len(),
        contacts(enemies, players).no_duplicates(),
        forall|i: int, j: int|
            0 <= i < enemies.len() && 0 <= j < players.len() ==> (contacts(enemies, players).contains(
                (i, j),
            ) <==> #[trigger] enemy_meets_player(enemies, players)(i, j)),
        forall|k: int|
            0 <= k < contacts(enemies, players).len() ==> {
                let c = #[trigger] contacts(enemies, players)[k];
                0 <= c.0 < enemies.len() && 0 <= c.1 < players.len()
            },
{
    let related = enemy_meets_player(enemies, players);
    lemma_scan(enemies.len(), players.len(), related);
    let all = contacts(enemies, players);
    assert forall|i: int, j: int| 0 <= i < enemies.len() && 0 <= j < players.len() implies (all.contains(
        (i, j),
    ) <==> #[trigger] related(i, j)) by {
        if all.contains((i, j)) {
            let k = choose|k: int| 0 <= k < all.len() && all[k] == (i, j);
            assert(related(all[k].0, all[k].1));
        }
    }
}

/// A bullet that touches an enemy is not among the bullets that a collision check
/// leaves, nor does its name pass to anything else.
pub proof fn lemma_struck_bullet_gone(before: World, left: Seq<BulletRecord>, i: int)
    requires
        before.wf(),
        0 <= i < before.bullets@.len(),
        struck(before.bullets@[i], before.enemies@),
        left == before.bullets@.filter(|b: BulletRecord| !struck(b, before.enemies@)),
    ensures
        forall|k: int|
            0 <= k < left.len() ==> (#[trigger] left[k]).entity != before.bullets@[i].entity,
        forall|k: int|
            0 <= k < before.players@.len() ==> (#[trigger] before.players@[k]).entity
                != before.bullets@[i].entity,
        forall|k: int|
            0 <= k < before.enemies@.len() ==> (#[trigger] before.enemies@[k]).entity
                != before.bullets@[i].entity,
        forall|k: int|
            0 <= k < before.texts@.len() ==> (#[trigger] before.texts@[k]).entity
                != before.bullets@[i].entity,
{
    let unstruck = |b: BulletRecord| !struck(b, before.enemies@);
    lemma_filter_keeps_members(before.bullets@, unstruck);
    assert forall|k: int| 0 <= k < left.len() implies (#[trigger] left[k]).entity
        != before.bullets@[i].entity by {
        before.bullets@.lemma_filter_pred(unstruck, k);
        let m = choose|m: int| 0 <= m < before.bullets@.len() && before.bullets@[m] == left[k];
        if m < i {
            assert(before.bullets@[m].name().0 < before.bullets@[i].name().0);
        } else if m > i {
            assert(before.bullets@[i].name().0 < before.bullets@[m].name().0);
        }
    }
    assert forall|k: int| 0 <= k < before.players@.len() implies (#[trigger] before.players@[k]).entity
        != before.bullets@[i].entity by {
        assert(before.players@[k].name() != before.bullets@[i].name());
    }
    assert forall|k: int| 0 <= k < before.enemies@.len() implies (#[trigger] before.enemies@[k]).entity
        != before.bullets@[i].entity by {
        assert(before.enemies@[k].name() != before.bullets@[i].name());
    }
    assert forall|k: int| 0 <= k < before.texts@.len() implies (#[trigger] before.texts@[k]).entity
        != before.bullets@[i].entity by {
        assert(before.bullets@[i].name() != before.texts@[k].name());
    }
}

} // verus!
