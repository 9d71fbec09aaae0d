//! Keyboard state, as the host reports it once per frame.

use vstd::prelude::*;

verus! {

/// A key of the keyboard. Every key that is not a letter is `Other`.
#[derive(Clone, Copy, Debug, PartialEq, Eq, Structural)]
pub enum KeyCode {
    A, B, C, D, E, F, G, H, I, J, K, L, M,
    N, O, P, Q, R, S, T, U, V, W, X, Y, Z,
    Other,
}

/// The keys that went down since the previous frame.
#[derive(Debug)]
pub struct Input {
    pub just_pressed: Vec<KeyCode>,
}

/// Whether `key` occurs in `keys`.
pub open spec fn among(key: KeyCode, keys: Seq<KeyCode>) -> bool {
    exists|j: int| 0 <= j < keys.len() && keys[j] == key
}

impl Input {
    /// Whether some key of `inputs` went down since the previous frame.
    pub open spec fn any_just_pressed_spec(&self, inputs: Seq<KeyCode>) -> bool {
        exists|i: int|
            0 <= i < self.just_pressed@.len() && among(#[trigger] self.just_pressed@[i], inputs)
    }

    /// Whether some key of `inputs` went down since the previous frame.
    pub fn any_just_pressed(&self, inputs: &[KeyCode]) -> (r: bool)
        ensures
            r == self.any_just_pressed_spec(inputs@),
    {
        let mut i: usize = 0;
        while i < self.just_pressed.len()
            invariant
                i <= self.just_pressed@.len(),
                forall|k: int| 0 <= k < i ==> !among(#[trigger] self.just_pressed@[k], inputs@),
            decreases self.just_pressed@.len() - i,
        {
            let key: KeyCode = self.just_pressed[i];
            let mut j: usize = 0;
            while j < inputs.len()
                invariant
                    j <= inputs@.len(),
                    key == self.just_pressed@[i as int],
                    i < self.just_pressed@.len(),
                    forall|k: int| 0 <= k < j ==> inputs@[k] != key,
                decreases inputs@.len() - j,
            {
                if inputs[j] == key {
                    assert(among(self.just_pressed@[i as int], inputs@));
                    return true;
                }
                j += 1;
            }
            i += 1;
        }
        false
    }
}

} // verus!
