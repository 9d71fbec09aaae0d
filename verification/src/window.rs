//! The visible screen.

use vstd::prelude::*;
use crate::math::{floor_div, Vec2};

verus! {

/// The size of the primary window, in position units. The visible area runs from the
/// origin, at the bottom left, to (`width`, `height`).
#[derive(Clone, Copy, Debug, PartialEq, Eq, Structural)]
pub struct Window {
    pub width: i64,
    pub height: i64,
}

impl Window {
    /// The middle of the window, each coordinate rounded down to a whole unit. The
    /// camera looks at this point.
    pub open spec fn center_spec(&self) -> Vec2 {
        Vec2 { x: (self.width / 2) as i64, y: (self.height / 2) as i64 }
    }

    /// Computes the middle of the window.
    pub fn center(&self) -> (r: Vec2)
        ensures
            r == self.center_spec(),
    {
        Vec2 {
            x: floor_div(self.width as i128, 2) as i64,
            y: floor_div(self.height as i128, 2) as i64,
        }
    }
}

} // verus!
