//! [`Pan`]: a stereo balance.

use vstd::prelude::*;
use crate::dsp::smooth::SmoothedParam;
use crate::single::{Single, ONE};

verus! {

/// Hard left, -1.
pub const LEFT: u32 = 0xbf80_0000;

/// A pan position held to `[-1, 1]`.
pub open spec fn in_field(pos: Single) -> Single {
    pos.clamped(Single::of(LEFT), Single::of(ONE))
}

/// A stereo balance: a position between hard left (-1) and hard right (+1) that glides to its
/// target.
#[derive(Clone, Copy, Debug, PartialEq, Eq, Structural)]
pub struct Pan {
    pub pos: SmoothedParam,
}

impl Pan {
    /// A balance resting at `initial`.
    pub open spec fn resting(coeff: Single, initial: Single) -> Pan {
        Pan { pos: SmoothedParam::resting(coeff, in_field(initial)) }
    }

    /// The balance after a move.
    pub open spec fn at(self, pos: Single) -> Pan {
        Pan { pos: SmoothedParam { target: in_field(pos), ..self.pos } }
    }

    /// A balance resting at `initial`, gliding by `coeff` per step.
    pub fn new(coeff: Single, initial: Single) -> (r: Self)
        ensures
            r == Pan::resting(coeff, initial),
    {
        let held = initial.clamp(Single::of(LEFT), Single::of(ONE));
        Pan { pos: SmoothedParam { current: held, target: held, coeff } }
    }

    /// Move to a position, held to the stereo field.
    pub fn set_pos(&mut self, pos: Single)
        ensures
            *final(self) == old(self).at(pos),
    {
        self.pos.set_target(pos.clamp(Single::of(LEFT), Single::of(ONE)));
    }

    /// Whether a block of so many channels has the two that a balance is between. Any other block is
    /// left as it is.
    pub fn applies_to(channels: usize) -> (r: bool)
        ensures
            r == (channels >= 2),
    {
        channels >= 2
    }

    /// Take one step, to `moved`, and return the position that the two channel gains are derived
    /// from.
    pub fn next(&mut self, moved: Single) -> (r: Single)
        ensures
            r == in_field(moved),
            *final(self) == (Pan { pos: SmoothedParam { current: moved, ..old(self).pos } }),
    {
        self.pos.next(moved).clamp(Single::of(LEFT), Single::of(ONE))
    }
}

/// A position is taken as it is from -1, hard left, to +1, hard right, and as the nearer of the two
/// beyond. Numbers are compared as whole numbers: `scaled` is `2^149` times the number.
pub proof fn positions_span_the_field(pos: Single)
    requires
        !pos.nan(),
    ensures
        ({
            let unit = vstd::arithmetic::power2::pow2(149) as int;
            &&& pos.scaled() < -unit ==> in_field(pos).scaled() == -unit
            &&& pos.scaled() > unit ==> in_field(pos).scaled() == unit
            &&& -unit <= pos.scaled() <= unit ==> in_field(pos) == pos
        }),
{
    let left = Single::of(LEFT);
    let right = Single::of(ONE);
    vstd::arithmetic::power2::lemma2_to64();
    crate::single::values_follow_from_bits(ONE, 23, 0x80_0000, 0x80_0000);
    crate::single::order_is_numeric(pos, left);
    crate::single::order_is_numeric(right, pos);
}

/// A pan that is moved keeps its value and glides by the same share as before.
pub proof fn pans_glide_to_the_last_move(pan: Pan, first: Single, second: Single)
    ensures
        pan.at(first).pos.current == pan.pos.current,
        pan.at(first).pos.coeff == pan.pos.coeff,
        pan.at(first).at(second) == pan.at(second),
{
}

} // verus!
