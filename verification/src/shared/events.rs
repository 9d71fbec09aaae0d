//! Notifications that the systems raise for the host to react to.

use vstd::prelude::*;
use crate::math::Vec3;
use crate::world::Entity;

verus! {

/// An enemy has run into the player named here; the position is the player's.
#[derive(Clone, Copy, Debug, PartialEq, Eq, Structural)]
pub struct PlayerDestroyed(pub Entity, pub Vec3);

/// A bullet has hit the enemy named here; the position is the enemy's.
#[derive(Clone, Copy, Debug, PartialEq, Eq, Structural)]
pub struct EnemyCollision(pub Entity, pub Vec3);

/// The enemy named here has run into a player; the position is the player's.
#[derive(Clone, Copy, Debug, PartialEq, Eq, Structural)]
pub struct EnemyDestroyed(pub Entity, pub Vec3);

/// A bullet has been fired.
#[derive(Clone, Copy, Debug, PartialEq, Eq, Structural)]
pub struct BulletShot;

} // verus!
