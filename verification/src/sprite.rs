//! What an entity looks like and where it stands.

use vstd::prelude::*;
use crate::math::{Vec2, Vec3};

verus! {

/// The flat colours the game draws with.
#[derive(Clone, Copy, Debug, PartialEq, Eq, Structural)]
pub enum Color {
    White,
    Red,
    Yellow,
}

/// A rectangle of one colour. `custom_size` is its bounding box, centred on the
/// entity's position; an entity without one cannot take part in collisions.
#[derive(Clone, Copy, Debug, PartialEq, Eq, Structural)]
pub struct Sprite {
    pub color: Color,
    pub custom_size: Option<Vec2>,
}

/// Where an entity stands: the centre of its bounding box.
#[derive(Clone, Copy, Debug, PartialEq, Eq, Structural)]
pub struct Transform {
    pub translation: Vec3,
}

/// The components every visible entity carries.
#[derive(Clone, Copy, Debug, PartialEq, Eq, Structural)]
pub struct SpriteBundle {
    pub sprite: Sprite,
    pub transform: Transform,
}

impl SpriteBundle {
    /// A sprite of the given colour and bounding box at `pos`.
    pub fn new(color: Color, pos: Vec3, size: Option<Vec2>) -> (r: SpriteBundle)
        ensures
            r == (SpriteBundle {
                sprite: Sprite { color, custom_size: size },
                transform: Transform { translation: pos },
            }),
    {
        SpriteBundle {
            sprite: Sprite { color, custom_size: size },
            transform: Transform { translation: pos },
        }
    }
}

} // verus!
