//! The entity registry.
//!
//! Entities live in one table per kind, in the order in which they were spawned. The
//! registry hands out names in increasing order and never reuses one, so a name
//! identifies at most one entity for as long as the registry exists.

use vstd::prelude::*;
use crate::bullet::BulletBundle;
use crate::enemy::{EnemyBundle, EnemyText};
use crate::math::{Vec2, Vec3};
use crate::player::PlayerBundle;
use crate::shared::Velocity;

verus! {

/// The name of an entity. The registry hands each one out once.
#[derive(Clone, Copy, Debug, PartialEq, Eq, Structural)]
pub struct Entity(pub u64);

/// A player in the registry.
#[derive(Clone, Copy, Debug, PartialEq, Eq, Structural)]
pub struct PlayerRecord {
    pub entity: Entity,
    pub bundle: PlayerBundle,
    /// Where the player stood when enemy steering last ran; `None` until then.
    pub seen_at: Option<Vec3>,
}

/// An enemy in the registry.
#[derive(Debug, PartialEq, Eq)]
pub struct EnemyRecord {
    pub entity: Entity,
    pub bundle: EnemyBundle,
    pub velocity: Velocity,
    /// Where the enemy stood when its label was last placed; `None` until then.
    pub seen_at: Option<Vec3>,
}

/// A bullet in the registry.
#[derive(Clone, Copy, Debug, PartialEq, Eq, Structural)]
pub struct BulletRecord {
    pub entity: Entity,
    pub bundle: BulletBundle,
}

/// An on-screen label in the registry, placed by its distance from the left and the
/// bottom edge of the screen.
#[derive(Debug, PartialEq, Eq)]
pub struct TextRecord {
    pub entity: Entity,
    pub marker: EnemyText,
    pub left: i64,
    pub bottom: i64,
    pub text: String,
}

/// A record that carries the name of its entity.
pub trait Named {
    /// The name of the record's entity.
    spec fn name(&self) -> Entity;

    /// Reads the name of the record's entity.
    fn read_name(&self) -> (entity: Entity)
        ensures
            entity == self.name(),
    ;
}

impl Named for PlayerRecord {
    open spec fn name(&self) -> Entity {
        self.entity
    }

    fn read_name(&self) -> (entity: Entity) {
        self.entity
    }
}

impl Named for EnemyRecord {
    open spec fn name(&self) -> Entity {
        self.entity
    }

    fn read_name(&self) -> (entity: Entity) {
        self.entity
    }
}

impl Named for BulletRecord {
    open spec fn name(&self) -> Entity {
        self.entity
    }

    fn read_name(&self) -> (entity: Entity) {
        self.entity
    }
}

impl Named for TextRecord {
    open spec fn name(&self) -> Entity {
        self.entity
    }

    fn read_name(&self) -> (entity: Entity) {
        self.entity
    }
}

impl PlayerRecord {
    /// Where the player stands.
    pub open spec fn translation(&self) -> Vec3 {
        self.bundle.sprite_bundle.transform.translation
    }

    /// The extent of the player's bounding box, if it has one.
    pub open spec fn size(&self) -> Option<Vec2> {
        self.bundle.sprite_bundle.sprite.custom_size
    }

    /// Whether the player stands elsewhere than when enemy steering last looked. A
    /// player that steering has never seen counts as moved.
    pub open spec fn moved(&self) -> bool {
        self.seen_at != Some(self.translation())
    }
}

impl EnemyRecord {
    /// Where the enemy stands.
    pub open spec fn translation(&self) -> Vec3 {
        self.bundle.sprite_bundle.transform.translation
    }

    /// The extent of the enemy's bounding box, if it has one.
    pub open spec fn size(&self) -> Option<Vec2> {
        self.bundle.sprite_bundle.sprite.custom_size
    }

    /// Whether the enemy stands elsewhere than when its label was last placed. An
    /// enemy whose label was never placed counts as moved.
    pub open spec fn moved(&self) -> bool {
        self.seen_at != Some(self.translation())
    }
}

impl BulletRecord {
    /// Where the bullet is.
    pub open spec fn translation(&self) -> Vec3 {
        self.bundle.sprite_bundle.transform.translation
    }

    /// The extent of the bullet's bounding box, if it has one.
    pub open spec fn size(&self) -> Option<Vec2> {
        self.bundle.sprite_bundle.sprite.custom_size
    }
}

/// Names grow along the table, and all of them lie below `next`.
pub open spec fn ascending<R: Named>(records: Seq<R>, next: u64) -> bool {
    &&& forall|i: int| 0 <= i < records.len() ==> (#[trigger] records[i]).name().0 < next
    &&& forall|i: int, j: int|
        0 <= i < j < records.len() ==> (#[trigger] records[i]).name().0 < (
        #[trigger] records[j]).name().0
}

/// No name occurs in both tables.
pub open spec fn apart<A: Named, B: Named>(a: Seq<A>, b: Seq<B>) -> bool {
    forall|i: int, j: int|
        0 <= i < a.len() && 0 <= j < b.len() ==> (#[trigger] a[i]).name() != (
        #[trigger] b[j]).name()
}

/// Tests whether the names of a table grow along it and lie below `next`.
pub fn is_ascending<R: Named>(records: &Vec<R>, next: u64) -> (r: bool)
    ensures
        r == ascending(records@, next),
{
    let mut i: usize = 0;
    while i < records.len()
        invariant
            i <= records@.len(),
            forall|k: int| 0 <= k < i ==> (#[trigger] records@[k]).name().0 < next,
            forall|a: int, b: int|
                0 <= a < b < i ==> (#[trigger] records@[a]).name().0 < (#[trigger] records@[b]).name().0,
        decreases records@.len() - i,
    {
        let name = records[i].read_name();
        if name.0 >= next {
            return false;
        }
        if i > 0 {
            let previous = records[i - 1].read_name();
            if previous.0 >= name.0 {
                assert(!(records@[i - 1].name().0 < records@[i as int].name().0));
                return false;
            }
            assert forall|a: int| 0 <= a < i implies (#[trigger] records@[a]).name().0 < name.0 by {
                if a < i - 1 {
                    assert(records@[a].name().0 < records@[i - 1].name().0);
                }
            }
        }
        i += 1;
    }
    true
}

/// Tests whether two tables share no name.
pub fn is_apart<A: Named, B: Named>(a: &Vec<A>, b: &Vec<B>) -> (r: bool)
    ensures
        r == apart(a@, b@),
{
    let mut i: usize = 0;
    while i < a.len()
        invariant
            i <= a@.len(),
            forall|m: int, n: int|
                0 <= m < i && 0 <= n < b@.len() ==> (#[trigger] a@[m]).name() != (#[trigger] b@[n]).name(),
        decreases a@.len() - i,
    {
        let name = a[i].read_name();
        let mut j: usize = 0;
        while j < b.len()
            invariant
                i < a@.len(),
                j <= b@.len(),
                name == a@[i as int].name(),
                forall|n: int| 0 <= n < j ==> a@[i as int].name() != (#[trigger] b@[n]).name(),
            decreases b@.len() - j,
        {
            let other = b[j].read_name();
            if other.0 == name.0 {
                assert(a@[i as int].name() == b@[j as int].name());
                return false;
            }
            j += 1;
        }
        i += 1;
    }
    true
}

/// Whatever a filter keeps was there before.
pub proof fn lemma_filter_keeps_members<R>(records: Seq<R>, keep: spec_fn(R) -> bool)
    ensures
        forall|k: int|
            0 <= k < records.filter(keep).len() ==> records.contains(
                #[trigger] records.filter(keep)[k],
            ),
    decreases records.len(),
{
    reveal(Seq::filter);
    if records.len() > 0 {
        let front = records.drop_last();
        lemma_filter_keeps_members(front, keep);
        assert forall|k: int| 0 <= k < records.filter(keep).len() implies records.contains(
            #[trigger] records.filter(keep)[k],
        ) by {
            if k < front.filter(keep).len() {
                let i = choose|i: int| 0 <= i < front.len() && front[i] == front.filter(keep)[k];
                assert(records[i] == front[i]);
            } else {
                assert(records.filter(keep)[k] == records[records.len() - 1]);
            }
        }
    }
}

/// A record of the table is among those a filter keeps exactly if it passes the test.
pub proof fn lemma_filter_keeps_exactly<R>(records: Seq<R>, keep: spec_fn(R) -> bool)
    ensures
        forall|i: int|
            0 <= i < records.len() ==> (records.filter(keep).contains(#[trigger] records[i]) <==> keep(
                records[i],
            )),
{
    assert forall|i: int| 0 <= i < records.len() implies (records.filter(keep).contains(
        #[trigger] records[i],
    ) <==> keep(records[i])) by {
        if keep(records[i]) {
            records.lemma_filter_contains(keep, i);
        }
        if records.filter(keep).contains(records[i]) {
            let k = choose|k: int|
                0 <= k < records.filter(keep).len() && records.filter(keep)[k] == records[i];
            records.lemma_filter_pred(keep, k);
        }
    }
}

/// Removing records from a table keeps its names in growing order.
pub proof fn lemma_filter_ascending<R: Named>(records: Seq<R>, keep: spec_fn(R) -> bool, next: u64)
    requires
        ascending(records, next),
    ensures
        ascending(records.filter(keep), next),
    decreases records.len(),
{
    reveal(Seq::filter);
    lemma_filter_keeps_members(records, keep);
    if records.len() > 0 {
        let front = records.drop_last();
        assert(ascending(front, next)) by {
            assert forall|i: int| 0 <= i < front.len() implies (#[trigger] front[i]).name().0 < next by {
                assert(front[i] == records[i]);
            }
            assert forall|i: int, j: int| 0 <= i < j < front.len() implies (#[trigger] front[i]).name().0
                < (#[trigger] front[j]).name().0 by {
                assert(front[i] == records[i] && front[j] == records[j]);
            }
        }
        lemma_filter_ascending(front, keep, next);
        lemma_filter_keeps_members(front, keep);
        let kept = records.filter(keep);
        assert forall|i: int, j: int| 0 <= i < j < kept.len() implies (#[trigger] kept[i]).name().0 < (
        #[trigger] kept[j]).name().0 by {
            if j < front.filter(keep).len() {
                assert(kept[i] == front.filter(keep)[i] && kept[j] == front.filter(keep)[j]);
            } else {
                assert(kept[j] == records[records.len() - 1]);
                assert(kept[i] == front.filter(keep)[i]);
                let m = choose|m: int| 0 <= m < front.len() && front[m] == front.filter(keep)[i];
                assert(front[m] == records[m]);
            }
        }
        assert forall|i: int| 0 <= i < kept.len() implies (#[trigger] kept[i]).name().0 < next by {
            let m = choose|m: int| 0 <= m < records.len() && records[m] == kept[i];
        }
    }
}

/// Removing records from a table brings none of its names into another table.
pub proof fn lemma_filter_apart<A: Named, B: Named>(a: Seq<A>, keep: spec_fn(A) -> bool, b: Seq<B>)
    requires
        apart(a, b),
    ensures
        apart(a.filter(keep), b),
        apart(b, a.filter(keep)),
{
    lemma_filter_keeps_members(a, keep);
    let kept = a.filter(keep);
    assert forall|i: int, j: int| 0 <= i < kept.len() && 0 <= j < b.len() implies (#[trigger] kept[i]).name()
        != (#[trigger] b[j]).name() by {
        let m = choose|m: int| 0 <= m < a.len() && a[m] == kept[i];
    }
}

/// Everything that exists in the game.
#[derive(Debug)]
pub struct World {
    pub players: Vec<PlayerRecord>,
    pub enemies: Vec<EnemyRecord>,
    pub bullets: Vec<BulletRecord>,
    pub texts: Vec<TextRecord>,
    /// The name that the next spawned entity gets.
    pub next_entity: u64,
}

impl World {
    /// The registry invariant: within each table names grow in spawn order, no name
    /// is shared between tables, and every name in use lies below the next one to be
    /// handed out.
    pub open spec fn wf(&self) -> bool {
        &&& ascending(self.players@, self.next_entity)
        &&& ascending(self.enemies@, self.next_entity)
        &&& ascending(self.bullets@, self.next_entity)
        &&& ascending(self.texts@, self.next_entity)
        &&& apart(self.players@, self.enemies@)
        &&& apart(self.players@, self.bullets@)
        &&& apart(self.players@, self.texts@)
        &&& apart(self.enemies@, self.bullets@)
        &&& apart(self.enemies@, self.texts@)
        &&& apart(self.bullets@, self.texts@)
    }

    /// Tests the registry invariant.
    pub fn is_wf(&self) -> (r: bool)
        ensures
            r == self.wf(),
    {
        is_ascending(&self.players, self.next_entity) && is_ascending(
            &self.enemies,
            self.next_entity,
        ) && is_ascending(&self.bullets, self.next_entity) && is_ascending(
            &self.texts,
            self.next_entity,
        ) && is_apart(&self.players, &self.enemies) && is_apart(&self.players, &self.bullets)
            && is_apart(&self.players, &self.texts) && is_apart(&self.enemies, &self.bullets)
            && is_apart(&self.enemies, &self.texts) && is_apart(&self.bullets, &self.texts)
    }

    /// How many more entities can be spawned before the names run out.
    pub open spec fn spare(&self) -> int {
        u64::MAX - self.next_entity
    }

    /// Counts how many more entities can be spawned before the names run out.
    pub fn spare_names(&self) -> (n: u64)
        ensures
            n == self.spare(),
    {
        u64::MAX - self.next_entity
    }

    /// Whether some entity of any kind bears the name `entity`.
    pub open spec fn contains(&self, entity: Entity) -> bool {
        ||| exists|i: int|
            0 <= i < self.players@.len() && (#[trigger] self.players@[i]).entity == entity
        ||| exists|i: int|
            0 <= i < self.enemies@.len() && (#[trigger] self.enemies@[i]).entity == entity
        ||| exists|i: int|
            0 <= i < self.bullets@.len() && (#[trigger] self.bullets@[i]).entity == entity
        ||| exists|i: int| 0 <= i < self.texts@.len() && (#[trigger] self.texts@[i]).entity == entity
    }

    /// An empty world.
    pub fn new() -> (world: World)
        ensures
            world.wf(),
            world.players@.len() == 0,
            world.enemies@.len() == 0,
            world.bullets@.len() == 0,
            world.texts@.len() == 0,
            world.next_entity == 0,
    {
        World {
            players: Vec::new(),
            enemies: Vec::new(),
            bullets: Vec::new(),
            texts: Vec::new(),
            next_entity: 0,
        }
    }

    /// Adds a player and returns its name, which no entity bore before.
    pub fn spawn_player(&mut self, bundle: PlayerBundle) -> (entity: Entity)
        requires
            old(self).wf(),
            old(self).spare() >= 1,
        ensures
            final(self).wf(),
            entity == Entity(old(self).next_entity),
            !old(self).contains(entity),
            final(self).next_entity == old(self).next_entity + 1,
            final(self).players@ == old(self).players@.push(
                PlayerRecord { entity, bundle, seen_at: None },
            ),
            final(self).enemies == old(self).enemies,
            final(self).bullets == old(self).bullets,
            final(self).texts == old(self).texts,
    {
        let entity = Entity(self.next_entity);
        self.next_entity = self.next_entity + 1;
        self.players.push(PlayerRecord { entity, bundle, seen_at: None });
        entity
    }

    /// Adds an enemy with its velocity and returns its name, which no entity bore
    /// before.
    pub fn spawn_enemy(&mut self, bundle: EnemyBundle, velocity: Velocity) -> (entity: Entity)
        requires
            old(self).wf(),
            old(self).spare() >= 1,
        ensures
            final(self).wf(),
            entity == Entity(old(self).next_entity),
            !old(self).contains(entity),
            final(self).next_entity == old(self).next_entity + 1,
            final(self).enemies@ == old(self).enemies@.push(
                EnemyRecord { entity, bundle, velocity, seen_at: None },
            ),
            final(self).players == old(self).players,
            final(self).bullets == old(self).bullets,
            final(self).texts == old(self).texts,
    {
        let entity = Entity(self.next_entity);
        self.next_entity = self.next_entity + 1;
        self.enemies.push(EnemyRecord { entity, bundle, velocity, seen_at: None });
        entity
    }

    /// Adds a bullet and returns its name, which no entity bore before.
    pub fn spawn_bullet(&mut self, bundle: BulletBundle) -> (entity: Entity)
        requires
            old(self).wf(),
            old(self).spare() >= 1,
        ensures
            final(self).wf(),
            entity == Entity(old(self).next_entity),
            !old(self).contains(entity),
            final(self).next_entity == old(self).next_entity + 1,
            final(self).bullets@ == old(self).bullets@.push(BulletRecord { entity, bundle }),
            final(self).players == old(self).players,
            final(self).enemies == old(self).enemies,
            final(self).texts == old(self).texts,
    {
        let entity = Entity(self.next_entity);
        self.next_entity = self.next_entity + 1;
        self.bullets.push(BulletRecord { entity, bundle });
        entity
    }

    /// Adds a label reading `text` at the given distances from the left and bottom
    /// edge, and returns its name, which no entity bore before.
    pub fn spawn_text(&mut self, left: i64, bottom: i64, text: &str) -> (entity: Entity)
        requires
            old(self).wf(),
            old(self).spare() >= 1,
        ensures
            final(self).wf(),
            entity == Entity(old(self).next_entity),
            !old(self).contains(entity),
            final(self).next_entity == old(self).next_entity + 1,
            final(self).texts@.len() == old(self).texts@.len() + 1,
            final(self).texts@.drop_last() == old(self).texts@,
            final(self).texts@.last().entity == entity,
            final(self).texts@.last().left == left,
            final(self).texts@.last().bottom == bottom,
            final(self).texts@.last().text@ == text@,
            final(self).players == old(self).players,
            final(self).enemies == old(self).enemies,
            final(self).bullets == old(self).bullets,
    {
        let entity = Entity(self.next_entity);
        self.next_entity = self.next_entity + 1;
        self.texts.push(
            TextRecord { entity, marker: EnemyText, left, bottom, text: text.to_owned() },
        );
        assert(self.texts@.drop_last() =~= old(self).texts@);
        entity
    }
}

} // verus!
