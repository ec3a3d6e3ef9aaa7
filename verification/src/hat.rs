//! The bidrum hat: a Bluetooth sensor that tells whether the player is
//! spinning around.
use vstd::prelude::*;

verus! {

/// Latest spinning state reported by the hat.
pub struct BidrumHat {
    pub spinning: bool,
}

/// The hat reports spinning when the norm of its rotation exceeds 1.
impl BidrumHat {
    /// No report yet: not spinning.
    pub fn new() -> (r: BidrumHat)
        ensures
            !r.spinning,
    {
        BidrumHat { spinning: false }
    }

    /// Records a report of the hat: whether the rotation norm was above 1.
    pub fn report(&mut self, spinning: bool)
        ensures
            final(self).spinning == spinning,
    {
        self.spinning = spinning;
    }

    pub fn spinning(&self) -> (r: bool)
        ensures
            r == self.spinning,
    {
        self.spinning
    }
}

} // verus!
