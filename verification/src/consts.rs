//! The tunable values of the game, gathered in one place.

use vstd::prelude::*;
use core::ops::Range;
use crate::input::KeyCode;
use crate::math::Vec2;

verus! {

/// The keys that fire a shot.
pub const ALL_KEYS: [KeyCode; 26] = [
    KeyCode::A, KeyCode::B, KeyCode::C, KeyCode::D, KeyCode::E, KeyCode::F, KeyCode::G,
    KeyCode::H, KeyCode::I, KeyCode::J, KeyCode::K, KeyCode::L, KeyCode::M, KeyCode::N,
    KeyCode::O, KeyCode::P, KeyCode::Q, KeyCode::R, KeyCode::S, KeyCode::T, KeyCode::U,
    KeyCode::V, KeyCode::W, KeyCode::X, KeyCode::Y, KeyCode::Z,
];

/// The word that every enemy carries and every label shows.
pub const ENEMY_WORD: &'static str = "nice";

/// Sizes, speeds and spawn geometry. Lengths are in position units, factors in fixed
/// point, angles in whole degrees measured from straight up.
#[derive(Debug, PartialEq, Eq)]
pub struct Config {
    /// The size the window is opened with.
    pub window_res: Vec2,
    /// The bounding box of an enemy.
    pub enemy_size: Vec2,
    /// The radius of the arc along which enemies spawn.
    pub enemy_spawn_spread_radius: i64,
    /// The angles that the spawner walks through, one degree at a time.
    pub enemy_spawn_degree_range: Range<i32>,
    /// The bounds of the random offset added to each axis of a spawn position.
    pub enemy_spawn_random_displacement: Range<i64>,
    /// An enemy spawns at each angle that is a multiple of this stride.
    pub enemy_spawn_per_degree: i32,
    /// The bounds of the random offset added to each axis of a steering direction.
    pub enemy_velocity_vector_displacement: Range<i64>,
    /// The speed factor that steering gives an enemy.
    pub enemy_speed_multiplier: i64,
    /// The height of a label's text; labels are kept this far inside the screen.
    pub enemy_text_font_size: i64,
    /// The bounding box of the player.
    pub player_size: Vec2,
    /// The bounding box of a bullet.
    pub bullet_size: Vec2,
    /// The speed factor of a bullet.
    pub bullet_speed_multiplier: i64,
}

impl Config {
    /// What the systems need of a configuration: a stride that can divide, and random
    /// offsets that have at least one value to draw.
    pub open spec fn wf(&self) -> bool {
        &&& self.enemy_spawn_per_degree != 0
        &&& self.enemy_spawn_random_displacement.start < self.enemy_spawn_random_displacement.end
        &&& self.enemy_velocity_vector_displacement.start
            < self.enemy_velocity_vector_displacement.end
    }

    /// Whether the configuration is well formed.
    pub fn is_valid(&self) -> (r: bool)
        ensures
            r == self.wf(),
    {
        self.enemy_spawn_per_degree != 0
            && self.enemy_spawn_random_displacement.start < self.enemy_spawn_random_displacement.end
            && self.enemy_velocity_vector_displacement.start
            < self.enemy_velocity_vector_displacement.end
    }

    /// The values the game ships with: a 480 by 720 pixel window, enemies every 20
    /// degrees between -45 and 45 on an arc of 300 pixels.
    pub fn standard() -> (config: Config)
        ensures
            config.wf(),
            config.window_res == (Vec2 { x: 4_800_000, y: 7_200_000 }),
            config.enemy_size == (Vec2 { x: 200_000, y: 200_000 }),
            config.enemy_spawn_spread_radius == 3_000_000,
            config.enemy_spawn_degree_range.start == -45,
            config.enemy_spawn_degree_range.end == 45,
            config.enemy_spawn_random_displacement.start == -500_000,
            config.enemy_spawn_random_displacement.end == 500_000,
            config.enemy_spawn_per_degree == 20,
            config.enemy_velocity_vector_displacement.start == -300_000,
            config.enemy_velocity_vector_displacement.end == 300_000,
            config.enemy_speed_multiplier == 5,
            config.enemy_text_font_size == 250_000,
            config.player_size == (Vec2 { x: 200_000, y: 200_000 }),
            config.bullet_size == (Vec2 { x: 50_000, y: 50_000 }),
            config.bullet_speed_multiplier == 100,
    {
        Config {
            window_res: Vec2 { x: 4_800_000, y: 7_200_000 },
            enemy_size: Vec2 { x: 200_000, y: 200_000 },
            enemy_spawn_spread_radius: 3_000_000,
            enemy_spawn_degree_range: -45..45,
            enemy_spawn_random_displacement: -500_000..500_000,
            enemy_spawn_per_degree: 20,
            enemy_velocity_vector_displacement: -300_000..300_000,
            enemy_speed_multiplier: 5,
            enemy_text_font_size: 250_000,
            player_size: Vec2 { x: 200_000, y: 200_000 },
            bullet_size: Vec2 { x: 50_000, y: 50_000 },
            bullet_speed_multiplier: 100,
        }
    }
}

} // verus!
