//! [`SmoothedParam`]: a parameter that glides to its target instead of jumping there.

use vstd::prelude::*;
use crate::single::{Single, ONE};

verus! {

/// A parameter value with a one-pole glide: each step covers a fixed share of the way that is left.
#[derive(Clone, Copy, Debug, PartialEq, Eq, Structural)]
pub struct SmoothedParam {
    /// The value now.
    pub current: Single,
    /// Where the value is going.
    pub target: Single,
    /// The share of the way covered in one step.
    pub coeff: Single,
}

/// The share of the way covered per step: all of it where there is no time to glide in, or no
/// rate to step at.
pub open spec fn glide_coeff(sample_rate: Single, time_secs: Single, one_pole: Single) -> Single {
    if time_secs.at_most(Single::of(0)) || sample_rate.at_most(Single::of(0)) {
        Single::of(ONE)
    } else {
        one_pole
    }
}

impl SmoothedParam {
    /// A parameter that rests at `initial`.
    pub open spec fn resting(coeff: Single, initial: Single) -> SmoothedParam {
        SmoothedParam { current: initial, target: initial, coeff }
    }

    /// A parameter that rests at `initial` and glides with the time constant `time_secs` when
    /// stepped at `sample_rate`. `one_pole` is `1 - e^(-1 / (time_secs * sample_rate))`, which is
    /// used only where both are positive.
    pub fn new(
        sample_rate: Single,
        time_secs: Single,
        one_pole: Single,
        initial: Single,
    ) -> (r: Self)
        ensures
            r == SmoothedParam::resting(glide_coeff(sample_rate, time_secs, one_pole), initial),
    {
        let coeff = if time_secs.le(Single::of(0)) || sample_rate.le(Single::of(0)) {
            Single::of(ONE)
        } else {
            one_pole
        };
        SmoothedParam { current: initial, target: initial, coeff }
    }

    /// Aim at a new value. The value itself moves with [`SmoothedParam::next`].
    pub fn set_target(&mut self, target: Single)
        ensures
            *final(self) == (SmoothedParam { target, ..*old(self) }),
    {
        self.target = target;
    }

    /// Take one step and return the value after it. `moved` is
    /// `current + (target - current) * coeff`.
    pub fn next(&mut self, moved: Single) -> (r: Single)
        ensures
            r == moved,
            *final(self) == (SmoothedParam { current: moved, ..*old(self) }),
    {
        self.current = moved;
        moved
    }

    /// The value now.
    pub fn current(&self) -> (r: Single)
        ensures
            r == self.current,
    {
        self.current
    }

    /// The value that is being approached.
    pub fn target(&self) -> (r: Single)
        ensures
            r == self.target,
    {
        self.target
    }

    /// What the distance to the target is measured against: its size, and at least one.
    pub fn scale(&self) -> (r: Single)
        ensures
            r == self.target.unsigned().larger(Single::of(ONE)),
            Single::of(ONE).at_most(r),
    {
        self.target.abs().max(Single::of(ONE))
    }

    /// Whether the value has as good as arrived. `distance` is `current - target`, and `tolerance`
    /// the share of [`SmoothedParam::scale`] that counts as nothing.
    pub fn settled(&self, distance: Single, tolerance: Single) -> (r: bool)
        ensures
            r == distance.unsigned().at_most(tolerance),
    {
        distance.abs().le(tolerance)
    }

    /// Put the value onto its target.
    pub fn snap(&mut self)
        ensures
            *final(self) == SmoothedParam::resting(old(self).coeff, old(self).target),
    {
        self.current = self.target;
    }
}

/// A parameter rests where it is built, and glides by the given share per step, unless there is no
/// time to glide in or no rate to step at: then it moves in one step.
pub proof fn parameters_glide_where_they_can(
    sample_rate: Single,
    time_secs: Single,
    one_pole: Single,
    initial: Single,
)
    requires
        !sample_rate.nan(),
        !time_secs.nan(),
    ensures
        ({
            let share = glide_coeff(sample_rate, time_secs, one_pole);
            let param = SmoothedParam::resting(share, initial);
            &&& param.current == initial
            &&& param.target == initial
            &&& param.coeff == share
            &&& sample_rate.scaled() > 0 && time_secs.scaled() > 0 ==> share == one_pole
            &&& sample_rate.scaled() <= 0 || time_secs.scaled() <= 0 ==> share.bits == 0x3f80_0000
        }),
{
    crate::single::order_is_numeric(sample_rate, Single::of(0));
    crate::single::order_is_numeric(time_secs, Single::of(0));
}

} // verus!
