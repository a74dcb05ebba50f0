//! Food emits chemical markers; a marker dissolves after a fixed lifetime.

use vstd::prelude::*;

verus! {

/// A chemical marker emitted by food. Its remaining lifetime counts down by
/// one each tick; at zero it is removed from the world.
#[derive(Clone, Copy, PartialEq, Eq, Structural, Debug)]
pub struct Chem {
    pub dissolve_life: u16,
}

impl Chem {
    /// Advance the marker by one tick. Returns `true` when the marker has
    /// dissolved and must be removed; otherwise its lifetime drops by one.
    pub fn dissolve_step(&mut self) -> (gone: bool)
        ensures
            gone == (old(self).dissolve_life == 0),
            gone ==> *final(self) == *old(self),
            !gone ==> final(self).dissolve_life == old(self).dissolve_life - 1,
    {
        if self.dissolve_life == 0 {
            true
        } else {
            self.dissolve_life = self.dissolve_life - 1;
            false
        }
    }
}

} // verus!
