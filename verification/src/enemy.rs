//! Enemies: how they spawn, steer, carry their label and leave.

use vstd::prelude::*;
use crate::consts::{Config, ENEMY_WORD};
use crate::math::{clamp, clamped, floor_div, saturate, saturated, scale, scaled, Vec2, Vec3, UNIT};
use crate::shared::{random_vec2, within, Velocity, Word};
use crate::sprite::{Color, Sprite, SpriteBundle, Transform};
use crate::trig::{cos_degrees, cos_spec, sin_degrees, sin_spec};
use crate::window::Window;
use crate::bullet::{is_off_screen, off_screen};
use crate::world::{
    lemma_filter_apart, lemma_filter_ascending, lemma_filter_keeps_exactly, EnemyRecord, Entity,
    PlayerRecord, TextRecord, World,
};

verus! {

/// Marks an entity as an enemy and names the label that follows it on screen.
#[derive(Clone, Copy, Debug, PartialEq, Eq, Structural)]
pub struct Enemy {
    pub ui_text_entity: Entity,
}

/// Marks an entity as the label of an enemy.
#[derive(Clone, Copy, Debug, PartialEq, Eq, Structural)]
pub struct EnemyText;

/// The components an enemy is spawned with.
#[derive(Debug, PartialEq, Eq)]
pub struct EnemyBundle {
    pub enemy: Enemy,
    pub word: Word,
    pub sprite_bundle: SpriteBundle,
}

impl EnemyBundle {
    /// A red enemy at `pos` with the bounding box `size`, carrying `word` and followed
    /// by the label `ui_text_entity`.
    pub fn new(word: &str, pos: Vec3, size: Option<Vec2>, ui_text_entity: Entity) -> (r:
        EnemyBundle)
        ensures
            r.enemy == (Enemy { ui_text_entity }),
            r.word@ == Some(word@),
            r.sprite_bundle == (SpriteBundle {
                sprite: Sprite { color: Color::Red, custom_size: size },
                transform: Transform { translation: pos },
            }),
    {
        EnemyBundle {
            enemy: Enemy { ui_text_entity },
            word: Word::new(Some(word.to_owned())),
            sprite_bundle: SpriteBundle::new(Color::Red, pos, size),
        }
    }
}

/// The whole degrees from `start` up to, and not including, `end`.
pub open spec fn degrees_between(start: int, end: int) -> Seq<int> {
    Seq::new(if end > start { (end - start) as nat } else { 0 }, |i: int| start + i)
}

/// The angles at which the spawner places an enemy: the multiples of the stride within
/// the configured range, in rising order.
pub open spec fn spawn_degrees(config: Config) -> Seq<int> {
    degrees_between(
        config.enemy_spawn_degree_range.start as int,
        config.enemy_spawn_degree_range.end as int,
    ).filter(|d: int| d % (config.enemy_spawn_per_degree as int) == 0)
}

/// The point on the spawn arc at `degrees` from straight up, moved by `displacement`.
/// The arc's centre lies at half the window's width, and half a radius below its top
/// edge.
pub open spec fn arc_position(
    config: Config,
    window: Window,
    degrees: int,
    displacement: Vec2,
) -> Vec2 {
    Vec2 {
        x: saturated(
            scaled(sin_spec(degrees), config.enemy_spawn_spread_radius as int) + window.width / 2
                + displacement.x,
        ),
        y: saturated(
            scaled(cos_spec(degrees), config.enemy_spawn_spread_radius as int) + window.height
                - config.enemy_spawn_spread_radius / 2 + displacement.y,
        ),
    }
}

/// `text` and `enemy` are a label and the enemy it belongs to, as the spawner makes
/// them at `pos`: the label is named `first_name` and the enemy bears the name after it,
/// the enemy points to the label, both stand at `pos` and show the same word, and the
/// enemy is at rest.
pub open spec fn placed_pair(
    enemy: EnemyRecord,
    text: TextRecord,
    pos: Vec2,
    config: Config,
    first_name: int,
) -> bool {
    &&& text.entity.0 == first_name
    &&& text.left == pos.x
    &&& text.bottom == pos.y
    &&& text.text@ == ENEMY_WORD@
    &&& enemy.entity.0 == first_name + 1
    &&& enemy.bundle.enemy.ui_text_entity == text.entity
    &&& enemy.bundle.word@ == Some(ENEMY_WORD@)
    &&& enemy.bundle.sprite_bundle == (SpriteBundle {
        sprite: Sprite { color: Color::Red, custom_size: Some(config.enemy_size) },
        transform: Transform { translation: Vec3 { x: pos.x, y: pos.y, z: 0 } },
    })
    &&& enemy.velocity == (Velocity { vector: Vec2 { x: UNIT, y: UNIT }, multiplier: 0 })
    &&& enemy.seen_at is None
}

/// `text` and `enemy` are a pair that the spawner made for the angle `degrees`, at the
/// arc position moved by some displacement within the configured bounds.
pub open spec fn spawned_pair(
    enemy: EnemyRecord,
    text: TextRecord,
    config: Config,
    window: Window,
    degrees: int,
    first_name: int,
) -> bool {
    exists|displacement: Vec2|
        within(displacement, config.enemy_spawn_random_displacement) && #[trigger] placed_pair(
            enemy,
            text,
            arc_position(config, window, degrees, displacement),
            config,
            first_name,
        )
}

/// Computes the displaced arc position for one angle.
pub fn arc_point(config: &Config, window: Window, degrees: i32, displacement: Vec2) -> (pos: Vec2)
    ensures
        pos == arc_position(*config, window, degrees as int, displacement),
{
    let radius: i64 = config.enemy_spawn_spread_radius;
    let across: i128 = scale(sin_degrees(degrees), radius);
    let up: i128 = scale(cos_degrees(degrees), radius);
    let half_width: i128 = floor_div(window.width as i128, 2);
    let half_radius: i128 = floor_div(radius as i128, 2);
    Vec2 {
        x: saturate(across + half_width + displacement.x as i128),
        y: saturate(up + window.height as i128 - half_radius + displacement.y as i128),
    }
}

/// Spawns one enemy and its label for the angle `degrees`, with the given
/// displacement from the arc. Returns the enemy's name.
pub fn spawn_at(
    world: &mut World,
    window: Window,
    config: &Config,
    degrees: i32,
    displacement: Vec2,
) -> (entity: Entity)
    requires
        old(world).wf(),
        old(world).spare() >= 2,
    ensures
        final(world).wf(),
        final(world).next_entity == old(world).next_entity + 2,
        final(world).players == old(world).players,
        final(world).bullets == old(world).bullets,
        final(world).enemies@.len() == old(world).enemies@.len() + 1,
        final(world).enemies@.drop_last() == old(world).enemies@,
        final(world).texts@.len() == old(world).texts@.len() + 1,
        final(world).texts@.drop_last() == old(world).texts@,
        placed_pair(
            final(world).enemies@.last(),
            final(world).texts@.last(),
            arc_position(*config, window, degrees as int, displacement),
            *config,
            old(world).next_entity as int,
        ),
        entity == final(world).enemies@.last().entity,
{
    let pos = arc_point(config, window, degrees, displacement);
    let ui_entity = world.spawn_text(pos.x, pos.y, ENEMY_WORD);
    let bundle = EnemyBundle::new(
        ENEMY_WORD,
        Vec3 { x: pos.x, y: pos.y, z: 0 },
        Some(config.enemy_size),
        ui_entity,
    );
    let entity = world.spawn_enemy(
        bundle,
        Velocity { vector: Vec2 { x: UNIT, y: UNIT }, multiplier: 0 },
    );
    assert(world.enemies@.drop_last() =~= old(world).enemies@);
    entity
}

/// Whether the spawner places an enemy at `degrees`.
pub fn is_spawn_degree(config: &Config, degrees: i32) -> (r: bool)
    requires
        config.enemy_spawn_per_degree != 0,
    ensures
        r == (degrees as int % (config.enemy_spawn_per_degree as int) == 0),
{
    let wide: i64 = degrees as i64;
    match wide.checked_rem_euclid(config.enemy_spawn_per_degree as i64) {
        Some(rem) => rem == 0,
        None => false,
    }
}

/// Counts the angles at which the spawner places an enemy.
pub fn count_spawn_degrees(config: &Config) -> (n: u64)
    requires
        config.enemy_spawn_per_degree != 0,
    ensures
        n == spawn_degrees(*config).len(),
{
    let start: i32 = config.enemy_spawn_degree_range.start;
    let end: i32 = config.enemy_spawn_degree_range.end;
    let ghost chosen = |d: int| d % (config.enemy_spawn_per_degree as int) == 0;
    let ghost all = degrees_between(start as int, end as int);
    let mut degrees: i32 = start;
    let mut n: u64 = 0;
    proof {
        assert(all.take(0) =~= Seq::<int>::empty());
        reveal(Seq::filter);
    }
    while degrees < end
        invariant
            config.enemy_spawn_per_degree != 0,
            chosen == |d: int| d % (config.enemy_spawn_per_degree as int) == 0,
            all == degrees_between(start as int, end as int),
            start <= degrees,
            degrees <= end || degrees == start,
            n == all.take(degrees - start).filter(chosen).len(),
            n <= degrees - start,
        decreases end - degrees,
    {
        proof {
            assert(all.take(degrees - start + 1) =~= all.take(degrees - start).push(degrees as int));
            all.take(degrees - start).lemma_filter_push(degrees as int, chosen);
        }
        if is_spawn_degree(config, degrees) {
            n = n + 1;
        }
        degrees = degrees + 1;
    }
    proof {
        assert(all.take(degrees - start) =~= all);
    }
    n
}

/// The enemy spawner. Walks the configured range of angles and, at each multiple of
/// the stride, places one enemy with its label on the arc, each moved by a random
/// displacement of its own.
pub fn spawn(world: &mut World, window: Window, config: &Config)
    requires
        old(world).wf(),
        config.wf(),
        old(world).spare() >= 2 * spawn_degrees(*config).len(),
    ensures
        final(world).wf(),
        final(world).players == old(world).players,
        final(world).bullets == old(world).bullets,
        final(world).next_entity == old(world).next_entity + 2 * spawn_degrees(*config).len(),
        final(world).enemies@.len() == old(world).enemies@.len() + spawn_degrees(*config).len(),
        final(world).texts@.len() == old(world).texts@.len() + spawn_degrees(*config).len(),
        final(world).enemies@.take(old(world).enemies@.len() as int) == old(world).enemies@,
        final(world).texts@.take(old(world).texts@.len() as int) == old(world).texts@,
        forall|k: int|
            0 <= k < spawn_degrees(*config).len() ==> spawned_pair(
                #[trigger] final(world).enemies@[old(world).enemies@.len() + k],
                final(world).texts@[old(world).texts@.len() + k],
                *config,
                window,
                spawn_degrees(*config)[k],
                old(world).next_entity + 2 * k,
            ),
{
    let start: i32 = config.enemy_spawn_degree_range.start;
    let end: i32 = config.enemy_spawn_degree_range.end;
    let ghost chosen = |d: int| d % (config.enemy_spawn_per_degree as int) == 0;
    let ghost all = degrees_between(start as int, end as int);
    let ghost first_enemy = old(world).enemies@.len() as int;
    let ghost first_text = old(world).texts@.len() as int;
    let ghost first_name = old(world).next_entity as int;
    let mut degrees: i32 = start;
    proof {
        assert(all.take(0) =~= Seq::<int>::empty());
        reveal(Seq::filter);
        assert(world.enemies@.take(first_enemy) =~= old(world).enemies@);
        assert(world.texts@.take(first_text) =~= old(world).texts@);
    }
    while degrees < end
        invariant
            config.wf(),
            start == config.enemy_spawn_degree_range.start,
            end == config.enemy_spawn_degree_range.end,
            chosen == |d: int| d % (config.enemy_spawn_per_degree as int) == 0,
            all == degrees_between(start as int, end as int),
            spawn_degrees(*config) == all.filter(chosen),
            first_enemy == old(world).enemies@.len(),
            first_text == old(world).texts@.len(),
            first_name == old(world).next_entity,
            start <= degrees,
            degrees <= end || degrees == start,
            first_name + 2 * all.filter(chosen).len() <= u64::MAX,
            world.wf(),
            world.players == old(world).players,
            world.bullets == old(world).bullets,
            world.next_entity == first_name + 2 * all.take(degrees - start).filter(chosen).len(),
            world.enemies@.len() == first_enemy + all.take(degrees - start).filter(chosen).len(),
            world.texts@.len() == first_text + all.take(degrees - start).filter(chosen).len(),
            world.enemies@.take(first_enemy) == old(world).enemies@,
            world.texts@.take(first_text) == old(world).texts@,
            forall|k: int|
                0 <= k < all.take(degrees - start).filter(chosen).len() ==> spawned_pair(
                    #[trigger] world.enemies@[first_enemy + k],
                    world.texts@[first_text + k],
                    *config,
                    window,
                    all.take(degrees - start).filter(chosen)[k],
                    first_name + 2 * k,
                ),
        decreases end - degrees,
    {
        let ghost before = all.take(degrees - start);
        let ghost after = all.take(degrees - start + 1);
        let ghost enemies_before = world.enemies@;
        let ghost texts_before = world.texts@;
        proof {
            assert(after =~= before.push(degrees as int));
            before.lemma_filter_push(degrees as int, chosen);
            assert(all =~= after + all.skip(degrees - start + 1));
            Seq::filter_distributes_over_add(after, all.skip(degrees - start + 1), chosen);
        }
        if is_spawn_degree(config, degrees) {
            let bounds = &config.enemy_spawn_random_displacement;
            let displacement = random_vec2(bounds.start..bounds.end);
            spawn_at(world, window, config, degrees, displacement);
            proof {
                let count = before.filter(chosen).len() as int;
                assert(world.enemies@.drop_last() == enemies_before);
                assert(world.texts@.drop_last() == texts_before);
                assert(world.enemies@.take(first_enemy) =~= enemies_before.take(first_enemy));
                assert(world.texts@.take(first_text) =~= texts_before.take(first_text));
                assert forall|k: int| 0 <= k < after.filter(chosen).len() implies spawned_pair(
                    #[trigger] world.enemies@[first_enemy + k],
                    world.texts@[first_text + k],
                    *config,
                    window,
                    after.filter(chosen)[k],
                    first_name + 2 * k,
                ) by {
                    if k < count {
                        assert(world.enemies@[first_enemy + k] == enemies_before[first_enemy + k]);
                        assert(world.texts@[first_text + k] == texts_before[first_text + k]);
                    } else {
                        assert(world.enemies@[first_enemy + k] == world.enemies@.last());
                        assert(world.texts@[first_text + k] == world.texts@.last());
                        assert(within(displacement, config.enemy_spawn_random_displacement));
                        assert(placed_pair(
                            world.enemies@.last(),
                            world.texts@.last(),
                            arc_position(*config, window, degrees as int, displacement),
                            *config,
                            first_name + 2 * k,
                        ));
                    }
                }
            }
        }
        degrees = degrees + 1;
    }
    proof {
        assert(all.take(degrees - start) =~= all);
    }
}

/// Whether the label belongs to an enemy that has left the window through its right or
/// top edge.
pub open spec fn orphaned(text: TextRecord, enemies: Seq<EnemyRecord>, window: Window) -> bool {
    exists|i: int|
        0 <= i < enemies.len() && off_screen((#[trigger] enemies[i]).translation(), window)
            && enemies[i].bundle.enemy.ui_text_entity == text.entity
}

/// Whether `name` occurs in `names`.
fn is_listed(names: &Vec<Entity>, name: Entity) -> (r: bool)
    ensures
        r == names@.contains(name),
{
    let mut i: usize = 0;
    while i < names.len()
        invariant
            i <= names@.len(),
            forall|k: int| 0 <= k < i ==> names@[k] != name,
        decreases names@.len() - i,
    {
        if names[i].0 == name.0 {
            assert(names@[i as int] == name);
            return true;
        }
        i += 1;
    }
    false
}

/// Removes the enemies that have left the window through its right or top edge, each
/// together with its label. An enemy stays exactly if neither coordinate exceeds the
/// window's; a label stays exactly if no removed enemy points to it.
pub fn clean_up(world: &mut World, window: Window)
    requires
        old(world).wf(),
    ensures
        final(world).wf(),
        final(world).players == old(world).players,
        final(world).bullets == old(world).bullets,
        final(world).next_entity == old(world).next_entity,
        final(world).enemies@ == old(world).enemies@.filter(
            |e: EnemyRecord| !off_screen(e.translation(), window),
        ),
        final(world).texts@ == old(world).texts@.filter(
            |t: TextRecord| !orphaned(t, old(world).enemies@, window),
        ),
        forall|i: int|
            0 <= i < old(world).enemies@.len() ==> (final(world).enemies@.contains(
                #[trigger] old(world).enemies@[i],
            ) <==> !off_screen(old(world).enemies@[i].translation(), window)),
{
    let ghost on_screen = |e: EnemyRecord| !off_screen(e.translation(), window);
    let ghost owned = |t: TextRecord| !orphaned(t, old(world).enemies@, window);
    let mut enemies: Vec<EnemyRecord> = Vec::new();
    let mut texts: Vec<TextRecord> = Vec::new();
    core::mem::swap(&mut world.enemies, &mut enemies);
    core::mem::swap(&mut world.texts, &mut texts);
    let mut gone: Vec<Entity> = Vec::new();
    proof {
        reveal(Seq::filter);
        assert(enemies@.take(0).filter(on_screen) =~= world.enemies@);
        assert(texts@.take(0).filter(owned) =~= world.texts@);
    }
    for enemy in it: enemies
        invariant
            it.seq() == old(world).enemies@,
            on_screen == |e: EnemyRecord| !off_screen(e.translation(), window),
            world.players == old(world).players,
            world.bullets == old(world).bullets,
            world.next_entity == old(world).next_entity,
            world.texts@.len() == 0,
            texts@ == old(world).texts@,
            world.enemies@ == it.seq().take(it.index() as int).filter(on_screen),
            forall|name: Entity|
                gone@.contains(name) <==> exists|k: int|
                    0 <= k < it.index() && off_screen(
                        (#[trigger] it.seq()[k]).translation(),
                        window,
                    ) && it.seq()[k].bundle.enemy.ui_text_entity == name,
    {
        let ghost i = it.index() as int;
        let ghost gone_before = gone@;
        proof {
            assert(it.seq().take(i + 1) =~= it.seq().take(i).push(enemy));
            it.seq().take(i).lemma_filter_push(enemy, on_screen);
        }
        if is_off_screen(enemy.bundle.sprite_bundle.transform.translation, window) {
            gone.push(enemy.bundle.enemy.ui_text_entity);
            proof {
                assert forall|name: Entity| gone@.contains(name) <==> exists|k: int|
                    0 <= k < i + 1 && off_screen((#[trigger] it.seq()[k]).translation(), window)
                        && it.seq()[k].bundle.enemy.ui_text_entity == name by {
                    if gone@.contains(name) {
                        let m = choose|m: int| 0 <= m < gone@.len() && gone@[m] == name;
                        if m < gone_before.len() {
                            assert(gone_before[m] == name);
                            assert(gone_before.contains(name));
                        } else {
                            assert(off_screen(it.seq()[i].translation(), window));
                        }
                    }
                    if exists|k: int|
                        0 <= k < i + 1 && off_screen((#[trigger] it.seq()[k]).translation(), window)
                            && it.seq()[k].bundle.enemy.ui_text_entity == name {
                        let k = choose|k: int|
                            0 <= k < i + 1 && off_screen(
                                (#[trigger] it.seq()[k]).translation(),
                                window,
                            ) && it.seq()[k].bundle.enemy.ui_text_entity == name;
                        if k < i {
                            assert(gone_before.contains(name));
                            let m = choose|m: int| 0 <= m < gone_before.len() && gone_before[m] == name;
                            assert(gone@[m] == name);
                        } else {
                            assert(gone@[gone@.len() - 1] == name);
                        }
                    }
                }
            }
        } else {
            world.enemies.push(enemy);
        }
    }
    proof {
        assert(old(world).enemies@.take(old(world).enemies@.len() as int) =~= old(world).enemies@);
    }
    for text in it: texts
        invariant
            it.seq() == old(world).texts@,
            owned == |t: TextRecord| !orphaned(t, old(world).enemies@, window),
            world.players == old(world).players,
            world.bullets == old(world).bullets,
            world.next_entity == old(world).next_entity,
            world.enemies@ == old(world).enemies@.filter(
                |e: EnemyRecord| !off_screen(e.translation(), window),
            ),
            world.texts@ == it.seq().take(it.index() as int).filter(owned),
            forall|name: Entity|
                gone@.contains(name) <==> exists|k: int|
                    0 <= k < old(world).enemies@.len() && off_screen(
                        (#[trigger] old(world).enemies@[k]).translation(),
                        window,
                    ) && old(world).enemies@[k].bundle.enemy.ui_text_entity == name,
    {
        let ghost i = it.index() as int;
        proof {
            assert(it.seq().take(i + 1) =~= it.seq().take(i).push(text));
            it.seq().take(i).lemma_filter_push(text, owned);
        }
        if !is_listed(&gone, text.entity) {
            world.texts.push(text);
        }
    }
    proof {
        assert(old(world).texts@.take(old(world).texts@.len() as int) =~= old(world).texts@);
        lemma_filter_ascending(old(world).enemies@, on_screen, world.next_entity);
        lemma_filter_ascending(old(world).texts@, owned, world.next_entity);
        lemma_filter_apart(old(world).enemies@, on_screen, old(world).players@);
        lemma_filter_apart(old(world).enemies@, on_screen, old(world).bullets@);
        lemma_filter_apart(old(world).enemies@, on_screen, old(world).texts@);
        lemma_filter_apart(old(world).texts@, owned, old(world).players@);
        lemma_filter_apart(old(world).texts@, owned, old(world).bullets@);
        lemma_filter_apart(old(world).texts@, owned, world.enemies@);
        lemma_filter_keeps_exactly(old(world).enemies@, on_screen);
    }
}

/// Whether `seen` is not the position `at`.
pub fn differs(seen: Option<Vec3>, at: Vec3) -> (r: bool)
    ensures
        r == (seen != Some(at)),
{
    match seen {
        Some(p) => p.x != at.x || p.y != at.y || p.z != at.z,
        None => true,
    }
}

/// `run` is the number of players at the head of the table that have moved: all of
/// them have, and the one after them, if there is one, has not.
pub open spec fn leading_run(players: Seq<PlayerRecord>, run: int) -> bool {
    &&& 0 <= run <= players.len()
    &&& forall|k: int| 0 <= k < run ==> (#[trigger] players[k]).moved()
    &&& run < players.len() ==> !players[run].moved()
}

/// Counts the players at the head of the table that have moved.
pub fn leading_moved(players: &Vec<PlayerRecord>) -> (run: usize)
    ensures
        leading_run(players@, run as int),
{
    let mut run: usize = 0;
    while run < players.len()
        invariant
            run <= players@.len(),
            forall|k: int| 0 <= k < run ==> (#[trigger] players@[k]).moved(),
        decreases players@.len() - run,
    {
        if !differs(players[run].seen_at, players[run].bundle.sprite_bundle.transform.translation) {
            return run;
        }
        run += 1;
    }
    run
}

/// The velocity that heads from `enemy_at` to `player_at`, thrown off by `jitter`.
pub open spec fn steering(
    enemy_at: Vec3,
    player_at: Vec3,
    jitter: Vec2,
    multiplier: i64,
) -> Velocity {
    Velocity {
        vector: Vec2 {
            x: saturated(player_at.x - enemy_at.x + jitter.x),
            y: saturated(player_at.y - enemy_at.y + jitter.y),
        },
        multiplier,
    }
}

/// Computes the velocity that heads from `enemy_at` to `player_at`, thrown off by
/// `jitter`.
pub fn steer(enemy_at: Vec3, player_at: Vec3, jitter: Vec2, multiplier: i64) -> (r: Velocity)
    ensures
        r == steering(enemy_at, player_at, jitter, multiplier),
{
    Velocity {
        vector: Vec2 {
            x: saturate(player_at.x as i128 - enemy_at.x as i128 + jitter.x as i128),
            y: saturate(player_at.y as i128 - enemy_at.y as i128 + jitter.y as i128),
        },
        multiplier,
    }
}

/// `after` is `before` steered toward `player_at`, with some jitter within the
/// configured bounds; nothing but the velocity has changed.
pub open spec fn steered(
    before: EnemyRecord,
    after: EnemyRecord,
    player_at: Vec3,
    config: Config,
) -> bool {
    exists|jitter: Vec2|
        within(jitter, config.enemy_velocity_vector_displacement) && after == (EnemyRecord {
            velocity: #[trigger] steering(
                before.translation(),
                player_at,
                jitter,
                config.enemy_speed_multiplier,
            ),
            ..before
        })
}

/// The player with its present position noted as seen.
pub open spec fn noted_player(player: PlayerRecord) -> PlayerRecord {
    PlayerRecord { seen_at: Some(player.translation()), ..player }
}

/// The enemy with its present position noted as seen.
pub open spec fn noted_enemy(enemy: EnemyRecord) -> EnemyRecord {
    EnemyRecord { seen_at: Some(enemy.translation()), ..enemy }
}

/// Enemy steering. Looks at the players from the head of the table for as long as they
/// have moved since the last look. Where none has, the enemies keep their velocity.
/// Otherwise every enemy heads for the last of them, each with a random jitter of its
/// own, at the configured speed. In either case every player's position is noted, so
/// that the next look sees only new movement.
pub fn update_velocities(world: &mut World, config: &Config)
    requires
        old(world).wf(),
        config.wf(),
    ensures
        final(world).wf(),
        final(world).bullets == old(world).bullets,
        final(world).texts == old(world).texts,
        final(world).next_entity == old(world).next_entity,
        final(world).players@ == old(world).players@.map_values(|p: PlayerRecord| noted_player(p)),
        forall|k: int|
            0 <= k < final(world).players@.len() ==> !(#[trigger] final(world).players@[k]).moved(),
        final(world).enemies@.len() == old(world).enemies@.len(),
        leading_run(old(world).players@, 0) ==> final(world).enemies@ == old(world).enemies@,
        forall|run: int|
            run > 0 && leading_run(old(world).players@, run) ==> forall|i: int|
                0 <= i < old(world).enemies@.len() ==> steered(
                    old(world).enemies@[i],
                    #[trigger] final(world).enemies@[i],
                    old(world).players@[run - 1].translation(),
                    *config,
                ),
{
    let run = leading_moved(&world.players);
    proof {
        lemma_leading_run_unique(world.players@, run as int);
    }
    let target: Option<Vec3> = if run > 0 {
        Some(world.players[run - 1].bundle.sprite_bundle.transform.translation)
    } else {
        None
    };
    let mut k: usize = 0;
    while k < world.players.len()
        invariant
            world.enemies == old(world).enemies,
            world.bullets == old(world).bullets,
            world.texts == old(world).texts,
            world.next_entity == old(world).next_entity,
            world.players@.len() == old(world).players@.len(),
            k <= world.players@.len(),
            forall|m: int| 0 <= m < k ==> #[trigger] world.players@[m] == noted_player(old(world).players@[m]),
            forall|m: int|
                k <= m < world.players@.len() ==> #[trigger] world.players@[m] == old(world).players@[m],
        decreases world.players@.len() - k,
    {
        let at = world.players[k].bundle.sprite_bundle.transform.translation;
        world.players[k].seen_at = Some(at);
        k += 1;
    }
    proof {
        assert(world.players@ =~= old(world).players@.map_values(|p: PlayerRecord| noted_player(p)));
    }
    match target {
        Some(target) => {
            let mut i: usize = 0;
            while i < world.enemies.len()
                invariant
                    config.wf(),
                    world.players@ == old(world).players@.map_values(|p: PlayerRecord| noted_player(p)),
                    world.bullets == old(world).bullets,
                    world.texts == old(world).texts,
                    world.next_entity == old(world).next_entity,
                    world.enemies@.len() == old(world).enemies@.len(),
                    i <= world.enemies@.len(),
                    forall|k: int|
                        0 <= k < i ==> steered(
                            old(world).enemies@[k],
                            #[trigger] world.enemies@[k],
                            target,
                            *config,
                        ),
                    forall|k: int|
                        i <= k < world.enemies@.len() ==> #[trigger] world.enemies@[k] == old(
                            world,
                        ).enemies@[k],
                decreases world.enemies@.len() - i,
            {
                let bounds = &config.enemy_velocity_vector_displacement;
                let jitter = random_vec2(bounds.start..bounds.end);
                let at = world.enemies[i].bundle.sprite_bundle.transform.translation;
                world.enemies[i].velocity = steer(at, target, jitter, config.enemy_speed_multiplier);
                proof {
                    assert(world.enemies@[i as int] == (EnemyRecord {
                        velocity: steering(
                            old(world).enemies@[i as int].translation(),
                            target,
                            jitter,
                            config.enemy_speed_multiplier,
                        ),
                        ..old(world).enemies@[i as int]
                    }));
                }
                i += 1;
            }
        },
        None => {},
    }
}

/// Where the label named `label` is to go: to the position of the last enemy in the
/// table that points to it and has moved. `None` where no such enemy exists.
pub open spec fn label_target(enemies: Seq<EnemyRecord>, label: Entity) -> Option<Vec3>
    decreases enemies.len(),
{
    if enemies.len() == 0 {
        None
    } else if enemies.last().moved() && enemies.last().bundle.enemy.ui_text_entity == label {
        Some(enemies.last().translation())
    } else {
        label_target(enemies.drop_last(), label)
    }
}

/// How far from an edge a label is placed whose enemy is `at` units from it, on a
/// screen that is `extent` units long: as far as the enemy, but at least 0 and at most
/// the extent less the height of the text.
pub open spec fn label_offset(at: i64, extent: i64, font_size: i64) -> i64 {
    clamped(at as int, 0, saturated(extent - font_size) as int) as i64
}

/// The label, moved to follow an enemy at `target` if there is one.
pub open spec fn placed(
    text: TextRecord,
    target: Option<Vec3>,
    window: Window,
    config: Config,
) -> TextRecord {
    match target {
        Some(at) => TextRecord {
            left: label_offset(at.x, window.width, config.enemy_text_font_size),
            bottom: label_offset(at.y, window.height, config.enemy_text_font_size),
            ..text
        },
        None => text,
    }
}

/// Computes how far from an edge a label is placed.
pub fn offset_for(at: i64, extent: i64, font_size: i64) -> (r: i64)
    ensures
        r == label_offset(at, extent, font_size),
{
    clamp(at, 0, saturate(extent as i128 - font_size as i128))
}

/// The label tracker. Moves the label of every enemy that has moved since the tracker
/// last ran to the enemy's position, kept within the window less the height of the
/// text; then notes every enemy's position, so that the next run sees only new
/// movement. Labels of enemies that stood still stay where they are.
pub fn update_text_position(world: &mut World, window: Window, config: &Config)
    requires
        old(world).wf(),
    ensures
        final(world).wf(),
        final(world).players == old(world).players,
        final(world).bullets == old(world).bullets,
        final(world).next_entity == old(world).next_entity,
        final(world).enemies@ == old(world).enemies@.map_values(|e: EnemyRecord| noted_enemy(e)),
        final(world).texts@.len() == old(world).texts@.len(),
        forall|t: int|
            0 <= t < old(world).texts@.len() ==> #[trigger] final(world).texts@[t] == placed(
                old(world).texts@[t],
                label_target(old(world).enemies@, old(world).texts@[t].entity),
                window,
                *config,
            ),
{
    let mut i: usize = 0;
    while i < world.enemies.len()
        invariant
            world.players == old(world).players,
            world.bullets == old(world).bullets,
            world.next_entity == old(world).next_entity,
            world.enemies@.len() == old(world).enemies@.len(),
            world.texts@.len() == old(world).texts@.len(),
            i <= world.enemies@.len(),
            forall|k: int| 0 <= k < i ==> #[trigger] world.enemies@[k] == noted_enemy(old(world).enemies@[k]),
            forall|k: int|
                i <= k < world.enemies@.len() ==> #[trigger] world.enemies@[k] == old(world).enemies@[k],
            forall|t: int|
                0 <= t < world.texts@.len() ==> #[trigger] world.texts@[t] == placed(
                    old(world).texts@[t],
                    label_target(old(world).enemies@.take(i as int), old(world).texts@[t].entity),
                    window,
                    *config,
                ),
        decreases world.enemies@.len() - i,
    {
        let at = world.enemies[i].bundle.sprite_bundle.transform.translation;
        let label = world.enemies[i].bundle.enemy.ui_text_entity;
        let moved = differs(world.enemies[i].seen_at, at);
        proof {
            assert(old(world).enemies@.take(i + 1).drop_last() =~= old(world).enemies@.take(i as int));
            assert(old(world).enemies@.take(i + 1).last() == old(world).enemies@[i as int]);
        }
        if moved {
            let left = offset_for(at.x, window.width, config.enemy_text_font_size);
            let bottom = offset_for(at.y, window.height, config.enemy_text_font_size);
            let mut t: usize = 0;
            while t < world.texts.len()
                invariant
                    world.players == old(world).players,
                    world.bullets == old(world).bullets,
                    world.next_entity == old(world).next_entity,
                    world.enemies@.len() == old(world).enemies@.len(),
                    world.texts@.len() == old(world).texts@.len(),
                    i < world.enemies@.len(),
                    t <= world.texts@.len(),
                    at == old(world).enemies@[i as int].translation(),
                    label == old(world).enemies@[i as int].bundle.enemy.ui_text_entity,
                    old(world).enemies@[i as int].moved(),
                    left == label_offset(at.x, window.width, config.enemy_text_font_size),
                    bottom == label_offset(at.y, window.height, config.enemy_text_font_size),
                    old(world).enemies@.take(i + 1).drop_last() == old(world).enemies@.take(i as int),
                    old(world).enemies@.take(i + 1).last() == old(world).enemies@[i as int],
                    forall|k: int|
                        0 <= k < i ==> #[trigger] world.enemies@[k] == noted_enemy(old(world).enemies@[k]),
                    forall|k: int|
                        i <= k < world.enemies@.len() ==> #[trigger] world.enemies@[k] == old(
                            world,
                        ).enemies@[k],
                    forall|u: int|
                        0 <= u < t ==> #[trigger] world.texts@[u] == placed(
                            old(world).texts@[u],
                            label_target(old(world).enemies@.take(i + 1), old(world).texts@[u].entity),
                            window,
                            *config,
                        ),
                    forall|u: int|
                        t <= u < world.texts@.len() ==> #[trigger] world.texts@[u] == placed(
                            old(world).texts@[u],
                            label_target(
                                old(world).enemies@.take(i as int),
                                old(world).texts@[u].entity,
                            ),
                            window,
                            *config,
                        ),
                decreases world.texts@.len() - t,
            {
                if world.texts[t].entity.0 == label.0 {
                    world.texts[t].left = left;
                    world.texts[t].bottom = bottom;
                }
                t += 1;
            }
        }
        world.enemies[i].seen_at = Some(at);
        i += 1;
    }
    proof {
        assert(old(world).enemies@.take(i as int) =~= old(world).enemies@);
        assert(world.enemies@ =~= old(world).enemies@.map_values(|e: EnemyRecord| noted_enemy(e)));
        assert forall|a: int| 0 <= a < world.texts@.len() implies (#[trigger] world.texts@[a]).entity
            == old(world).texts@[a].entity by {}
    }
}

/// Once steering has looked, no player counts as moved until one moves again: a second
/// look at the same players finds no leading run, and so leaves every velocity alone.
pub proof fn lemma_noted_players_rest(players: Seq<PlayerRecord>)
    ensures
        leading_run(players.map_values(|p: PlayerRecord| noted_player(p)), 0),
{
    let noted = players.map_values(|p: PlayerRecord| noted_player(p));
    if noted.len() > 0 {
        assert(noted[0] == noted_player(players[0]));
    }
}

/// Once the tracker has run, no label has anywhere to go until an enemy moves again: a
/// second run over the same enemies leaves every label where it is.
pub proof fn lemma_noted_enemies_rest(enemies: Seq<EnemyRecord>, label: Entity)
    ensures
        label_target(enemies.map_values(|e: EnemyRecord| noted_enemy(e)), label) is None,
    decreases enemies.len(),
{
    let noted = enemies.map_values(|e: EnemyRecord| noted_enemy(e));
    if enemies.len() > 0 {
        lemma_noted_enemies_rest(enemies.drop_last(), label);
        assert(noted.drop_last() =~= enemies.drop_last().map_values(|e: EnemyRecord| noted_enemy(e)));
        assert(noted.last() == noted_enemy(enemies.last()));
    }
}

/// The spawner's angles are the multiples of the stride within the configured range,
/// each once and in rising order.
pub proof fn lemma_spawn_degrees(config: Config)
    ensures
        forall|k: int|
            0 <= k < spawn_degrees(config).len() ==> {
                let d = #[trigger] spawn_degrees(config)[k];
                &&& config.enemy_spawn_degree_range.start <= d < config.enemy_spawn_degree_range.end
                &&& d % (config.enemy_spawn_per_degree as int) == 0
            },
        forall|d: int|
            config.enemy_spawn_degree_range.start <= d < config.enemy_spawn_degree_range.end
                && d % (config.enemy_spawn_per_degree as int) == 0 ==> #[trigger] spawn_degrees(
                config,
            ).contains(d),
        forall|a: int, b: int|
            0 <= a < b < spawn_degrees(config).len() ==> #[trigger] spawn_degrees(config)[a]
                < #[trigger] spawn_degrees(config)[b],
{
    let start = config.enemy_spawn_degree_range.start as int;
    let end = config.enemy_spawn_degree_range.end as int;
    let chosen = |d: int| d % (config.enemy_spawn_per_degree as int) == 0;
    lemma_chosen_degrees(start, end, chosen);
}

/// What a filter picks from a run of whole degrees: exactly the degrees of the run that
/// pass, in rising order.
pub proof fn lemma_chosen_degrees(start: int, end: int, chosen: spec_fn(int) -> bool)
    ensures
        forall|k: int|
            0 <= k < degrees_between(start, end).filter(chosen).len() ==> {
                let d = #[trigger] degrees_between(start, end).filter(chosen)[k];
                start <= d < end && chosen(d)
            },
        forall|d: int|
            start <= d < end && chosen(d) ==> #[trigger] degrees_between(start, end).filter(
                chosen,
            ).contains(d),
        forall|a: int, b: int|
            0 <= a < b < degrees_between(start, end).filter(chosen).len() ==> #[trigger] degrees_between(
                start,
                end,
            ).filter(chosen)[a] < #[trigger] degrees_between(start, end).filter(chosen)[b],
    decreases end - start,
{
    reveal(Seq::filter);
    if end > start {
        let shorter = degrees_between(start, end - 1);
        let longer = degrees_between(start, end);
        lemma_chosen_degrees(start, end - 1, chosen);
        assert(longer =~= shorter.push(end - 1));
        shorter.lemma_filter_push(end - 1, chosen);
        let short = shorter.filter(chosen);
        let long = longer.filter(chosen);
        assert forall|d: int| start <= d < end && chosen(d) implies #[trigger] long.contains(d) by {
            if d < end - 1 {
                assert(short.contains(d));
                let k = choose|k: int| 0 <= k < short.len() && short[k] == d;
                assert(long[k] == d);
            } else {
                assert(long[long.len() - 1] == d);
            }
        }
        assert forall|a: int, b: int| 0 <= a < b < long.len() implies #[trigger] long[a] < #[trigger] long[b] by {
            if b < short.len() {
                assert(long[a] == short[a] && long[b] == short[b]);
            } else {
                assert(long[a] == short[a]);
            }
        }
    }
}

/// Only one count fits the description of the leading run.
pub proof fn lemma_leading_run_unique(players: Seq<PlayerRecord>, run: int)
    requires
        leading_run(players, run),
    ensures
        forall|other: int| leading_run(players, other) ==> other == run,
{
    assert forall|other: int| leading_run(players, other) implies other == run by {
        if other < run {
            assert(players[other].moved());
        } else if run < other {
            assert(players[run].moved());
        }
    }
}

} // verus!
