//! The rules of a small arcade shooter, verified.
//!
//! A player at the bottom of the screen shoots at enemies that spawn along an arc and
//! drift toward the player. The crate holds the entity registry and the systems that
//! run on it once per frame; drawing, windowing and input polling are the host's.

pub mod bullet;
pub mod consts;
pub mod enemy;
pub mod input;
pub mod math;
pub mod pairs;
pub mod player;
pub mod shared;
pub mod sprite;
pub mod trig;
pub mod window;
pub mod world;
