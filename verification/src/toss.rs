//! How a die is thrown: turned at random and dropped from a random height.

use rand::Rng;
use vstd::prelude::*;

verus! {

/// A full turn, in thousandths of a degree.
pub const FULL_TURN: u32 = 360_000;

/// The pose from which a die is dropped.
///
/// The three angles are measured in thousandths of a degree and are applied
/// about the x, the y and the z axis in turn. The height above the ground
/// of the die's field is measured in thousandths of a length unit.
#[derive(Clone, Copy, Debug, PartialEq, Eq, Structural)]
pub struct Toss {
    pub turn_x: u32,
    pub turn_y: u32,
    pub turn_z: u32,
    pub height: u32,
}

/// An order to the physics provider: put one more die into field `field`
/// and drop it as `toss` says.
#[derive(Clone, Copy, Debug, PartialEq, Eq, Structural)]
pub struct SpawnCommand {
    pub field: usize,
    pub toss: Toss,
}

/// Draws one number below `bound` from the generator of the calling thread,
/// by `rand::Rng::gen_range(0..bound)` on `rand::thread_rng()`.
///
/// Taken on trust: that the number drawn is below `bound`. `gen_range`
/// panics on an empty range, so `bound` must not be zero. Which number comes
/// is left open, and two draws need not agree.
#[verifier::external_body]
fn draw_below(bound: u32) -> (drawn: u32)
    requires
        bound > 0,
    ensures
        drawn < bound,
{
    rand::thread_rng().gen_range(0..bound)
}

impl Toss {
    /// Each angle is less than a full turn and the height lies in
    /// `low..high`.
    pub open spec fn within(self, low: u32, high: u32) -> bool {
        &&& self.turn_x < FULL_TURN
        &&& self.turn_y < FULL_TURN
        &&& self.turn_z < FULL_TURN
        &&& low <= self.height < high
    }

    /// The toss that turns the die by the three angles drawn and drops it
    /// `rise` above `low`.
    pub fn from_draws(turn_x: u32, turn_y: u32, turn_z: u32, low: u32, rise: u32) -> (toss: Toss)
        requires
            low + rise <= u32::MAX,
        ensures
            toss == (Toss { turn_x, turn_y, turn_z, height: (low + rise) as u32 }),
    {
        Toss { turn_x, turn_y, turn_z, height: low + rise }
    }

    /// Draws a toss: each angle uniform over the full turn, the height
    /// uniform over `low..high`.
    pub fn random(low: u32, high: u32) -> (toss: Toss)
        requires
            low < high,
        ensures
            toss.within(low, high),
    {
        let turn_x: u32 = draw_below(FULL_TURN);
        let turn_y: u32 = draw_below(FULL_TURN);
        let turn_z: u32 = draw_below(FULL_TURN);
        let rise: u32 = draw_below(high - low);
        Toss::from_draws(turn_x, turn_y, turn_z, low, rise)
    }
}

} // verus!
