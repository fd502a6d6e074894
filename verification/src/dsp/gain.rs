//! [`Gain`]: a fader.

use vstd::prelude::*;
use crate::dsp::smooth::SmoothedParam;
use crate::single::Single;

verus! {

/// The bottom of the fader, -60 dB. There, and below, the channel is muted.
pub const MIN_DB: u32 = 0xc270_0000;

/// The top of the fader, +12 dB.
pub const MAX_DB: u32 = 0x4140_0000;

/// The linear multiplier at the top of the fader: `10^(12 / 20)`, about 3.98.
pub const MAX_LINEAR: u32 = 0x407e_c9e2;

/// A fader: a linear multiplier that glides to its target.
///
/// A level in decibels becomes a multiplier by an exponential, which the caller computes. Until it
/// has, the level waits in `pending_db`.
#[derive(Clone, Copy, Debug, PartialEq, Eq, Structural)]
pub struct Gain {
    /// The multiplier.
    pub gain: SmoothedParam,
    /// A level in decibels whose multiplier is still to be computed.
    pub pending_db: Option<Single>,
}

/// Whether a level mutes the channel.
pub open spec fn mutes(db: Single) -> bool {
    db.at_most(Single::of(MIN_DB))
}

/// An audible level, held to the top of the fader. A level that is no number counts as the top.
pub open spec fn audible(db: Single) -> Single {
    db.smaller(Single::of(MAX_DB))
}

impl Gain {
    /// A fader resting at the multiplier `linear`, gliding by `coeff` per step.
    pub open spec fn resting(coeff: Single, linear: Single) -> Gain {
        Gain { gain: SmoothedParam::resting(coeff, linear), pending_db: None }
    }

    /// The fader after a move to a level in decibels.
    pub open spec fn at_db(self, db: Single) -> Gain {
        if mutes(db) {
            Gain {
                gain: SmoothedParam { target: Single::of(0), ..self.gain },
                pending_db: None,
            }
        } else {
            Gain { gain: self.gain, pending_db: Some(audible(db)) }
        }
    }

    /// The fader after a move to a linear multiplier.
    pub open spec fn at_linear(self, linear: Single) -> Gain {
        Gain {
            gain: SmoothedParam {
                target: linear.clamped(Single::of(0), Single::of(MAX_LINEAR)),
                ..self.gain
            },
            pending_db: None,
        }
    }

    /// A fader resting at `linear`, the multiplier of the level to start from, and gliding by
    /// `coeff` per step.
    pub fn new(coeff: Single, linear: Single) -> (r: Self)
        ensures
            r == Gain::resting(coeff, linear),
    {
        Gain {
            gain: SmoothedParam { current: linear, target: linear, coeff },
            pending_db: None,
        }
    }

    /// What a level in decibels asks for: `None` is a mute, and `Some` the level whose multiplier
    /// `10^(dB / 20)` is wanted.
    pub fn db_to_linear(db: Single) -> (r: Option<Single>)
        ensures
            r is None <==> mutes(db),
            r matches Some(level) ==> level == audible(db),
    {
        if db.le(Single::of(MIN_DB)) {
            None
        } else {
            Some(db.min(Single::of(MAX_DB)))
        }
    }

    /// Move the fader to a level in decibels. A mute takes effect as a target of exactly zero.
    pub fn set_db(&mut self, db: Single)
        ensures
            *final(self) == old(self).at_db(db),
    {
        match Gain::db_to_linear(db) {
            None => {
                self.gain.set_target(Single::of(0));
                self.pending_db = None;
            },
            Some(level) => {
                self.pending_db = Some(level);
            },
        }
    }

    /// Move the fader to a linear multiplier, held to the range of the fader.
    pub fn set_linear(&mut self, linear: Single)
        ensures
            *final(self) == old(self).at_linear(linear),
    {
        let held = linear.clamp(Single::of(0), Single::of(MAX_LINEAR));
        self.gain.set_target(held);
        self.pending_db = None;
    }

    /// Settle a waiting level: `linear` is its multiplier. Without a waiting level nothing happens.
    pub fn resolve(&mut self, linear: Single)
        ensures
            *final(self) == (if old(self).pending_db is Some {
                Gain {
                    gain: SmoothedParam { target: linear, ..old(self).gain },
                    pending_db: None,
                }
            } else {
                *old(self)
            }),
    {
        if self.pending_db.is_some() {
            self.gain.set_target(linear);
            self.pending_db = None;
        }
    }
}

/// A target that [`Gain::set_linear`] leaves behind is a multiplier of the fader's range, unless it
/// was asked for something that is no number; and a target that a mute leaves behind is zero.
pub proof fn fader_keeps_its_range(gain: Gain, x: Single)
    ensures
        !x.nan() ==> {
            &&& Single::of(0).at_most(gain.at_linear(x).gain.target)
            &&& gain.at_linear(x).gain.target.at_most(Single::of(MAX_LINEAR))
        },
        mutes(x) ==> gain.at_db(x).gain.target == Single::of(0),
        gain.at_db(x).pending_db matches Some(level) ==> {
            &&& Single::of(MIN_DB).below(level)
            &&& level.at_most(Single::of(MAX_DB))
        },
{
}

/// The fader is counted in decibels from -60, where it mutes, to +12, beyond which it does not go,
/// and as a multiplier from 0 to that of +12 dB, about 3.981. Levels in between are taken as they
/// are. Numbers are compared as whole numbers: `scaled` is `2^149` times the number.
pub proof fn levels_are_decibels(db: Single)
    requires
        !db.nan(),
    ensures
        ({
            let unit = vstd::arithmetic::power2::pow2(149) as int;
            &&& mutes(db) <==> db.scaled() <= -60 * unit
            &&& db.scaled() <= 12 * unit ==> audible(db).scaled() == db.scaled()
            &&& db.scaled() > 12 * unit ==> audible(db).scaled() == 12 * unit
            &&& 3_981 * unit <= 1_000 * Single::of(MAX_LINEAR).scaled() < 3_982 * unit
        }),
{
    let low = Single::of(MIN_DB);
    let high = Single::of(MAX_DB);
    vstd::arithmetic::power2::lemma2_to64();
    vstd::arithmetic::power2::lemma_pow2_pos(149);
    let depth = (MIN_DB - crate::single::SIGN) as u32;
    crate::single::values_follow_from_bits(depth, 18, 0x4_0000, 0xf0_0000);
    crate::single::values_follow_from_bits(MAX_DB, 20, 0x10_0000, 0xc0_0000);
    crate::single::values_follow_from_bits(MAX_LINEAR, 22, 0x40_0000, 0xfe_c9e2);
    crate::single::order_is_numeric(db, low);
    crate::single::order_is_numeric(db, high);
    crate::single::order_is_numeric(high, db);
}

/// Moving a fader in decibels and settling what it waits for aims it at the multiplier; moving it as
/// a multiplier aims it there at once. The value itself does not jump, and the last move counts.
pub proof fn faders_glide_to_the_last_move(gain: Gain, db: Single, linear: Single)
    ensures
        gain.at_db(db).gain.current == gain.gain.current,
        gain.at_linear(linear).gain.current == gain.gain.current,
        gain.at_db(db).at_linear(linear) == gain.at_linear(linear),
        gain.at_linear(linear).at_db(db).pending_db == gain.at_db(db).pending_db,
        db.at_most(Single::of(MIN_DB)) ==> gain.at_db(db) == gain.at_linear(Single::of(0)),
{
}

} // verus!
