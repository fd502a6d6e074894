//! [`Chain`]: equalizer, fader and pan of one channel.

use vstd::prelude::*;
use crate::dsp::biquad::{BiquadCoeffs, FilterKind};
use crate::dsp::eq::Band;
use crate::dsp::gain::Gain;
use crate::dsp::pan::Pan;
use crate::dsp::smooth::SmoothedParam;
use crate::single::{Single, ONE};

verus! {

/// The time constant of fader and pan, 8 ms.
pub const LEVEL_SECS: u32 = 0x3c03_126f;

/// What a chain is built from: the numbers that depend on the sample rate alone.
#[derive(Clone, Copy, Debug)]
pub struct ChainSetup {
    /// The sample rate, in Hz.
    pub sample_rate: Single,
    /// The sample rate over [`crate::dsp::eq::CONTROL_BLOCK`].
    pub control_rate: Single,
    /// The one-pole coefficient of [`LEVEL_SECS`] at the sample rate.
    pub level_pole: Single,
    /// The one-pole coefficient of [`crate::dsp::eq::SMOOTH_SECS`] at the control rate.
    pub band_pole: Single,
    /// The coefficients of the four bands as they are built.
    pub flat: [BiquadCoeffs; 4],
}

/// Equalizer, then fader, then pan.
#[derive(Clone, Copy, Debug)]
pub struct Chain {
    pub setup: ChainSetup,
    pub eq: crate::dsp::eq::Eq,
    pub gain: Gain,
    pub pan: Pan,
}

/// The state of a chain.
#[verifier::ext_equal]
pub struct ChainView {
    pub setup: ChainSetup,
    pub bands: Seq<Band>,
    pub gain: Gain,
    pub pan: Pan,
}

impl View for Chain {
    type V = ChainView;

    open spec fn view(&self) -> ChainView {
        ChainView { setup: self.setup, bands: self.eq.bands@, gain: self.gain, pan: self.pan }
    }
}

impl ChainView {
    /// A chain as it is built: transparent, with the fader at unity and the pan at the center.
    pub open spec fn fresh(setup: ChainSetup) -> ChainView {
        let level = crate::dsp::smooth::glide_coeff(
            setup.sample_rate,
            Single::of(LEVEL_SECS),
            setup.level_pole,
        );
        ChainView {
            setup,
            bands: crate::dsp::eq::Eq::flat(setup.control_rate, setup.band_pole, setup.flat@),
            gain: Gain::resting(level, Single::of(ONE)),
            pan: Pan::resting(level, Single::of(0)),
        }
    }

    /// The chain after one of its bands was changed.
    pub open spec fn with_band(self, n: int, edit: spec_fn(Band) -> Band) -> ChainView {
        ChainView { bands: crate::dsp::eq::Eq::edited(self.bands, n, edit), ..self }
    }

    /// The chain with another kind of filter in a band.
    pub open spec fn with_kind(self, n: int, code: int) -> ChainView {
        self.with_band(
            n,
            |b: Band|
                (Band { kind: crate::dsp::biquad::kind_of(code), needs_coeffs: true, ..b }),
        )
    }

    /// The chain with a band aimed at another frequency.
    pub open spec fn with_freq(self, n: int, hz: Single) -> ChainView {
        self.with_band(
            n,
            |b: Band|
                (Band { freq: SmoothedParam { target: hz, ..b.freq }, needs_coeffs: true, ..b }),
        )
    }

    /// The chain with a band aimed at another bandwidth.
    pub open spec fn with_q(self, n: int, q: Single) -> ChainView {
        self.with_band(
            n,
            |b: Band| (Band { q: SmoothedParam { target: q, ..b.q }, needs_coeffs: true, ..b }),
        )
    }

    /// The chain with a band aimed at another boost or cut.
    pub open spec fn with_gain_db(self, n: int, db: Single) -> ChainView {
        self.with_band(
            n,
            |b: Band|
                (Band {
                    gain_db: SmoothedParam { target: db, ..b.gain_db },
                    needs_coeffs: true,
                    ..b
                }),
        )
    }

    /// The chain with a band switched on or off.
    pub open spec fn with_enabled(self, n: int, on: bool) -> ChainView {
        self.with_band(n, |b: Band| b.switched(on))
    }
}

impl Chain {
    /// A transparent chain.
    pub fn new(setup: ChainSetup) -> (r: Self)
        ensures
            r@ == ChainView::fresh(setup),
    {
        let level = SmoothedParam::new(
            setup.sample_rate,
            Single::of(LEVEL_SECS),
            setup.level_pole,
            Single::of(ONE),
        ).coeff;
        Chain {
            setup,
            eq: crate::dsp::eq::Eq::new(setup.control_rate, setup.band_pole, setup.flat),
            gain: Gain::new(level, Single::of(ONE)),
            pan: Pan::new(level, Single::of(0)),
        }
    }

    /// Go back to the state the chain was built in, with nothing heard and nothing gliding.
    pub fn reset(&mut self)
        ensures
            final(self)@ == ChainView::fresh(old(self)@.setup),
    {
        *self = Chain::new(self.setup);
    }

    /// Move the fader, in decibels.
    pub fn set_gain_db(&mut self, db: Single)
        ensures
            final(self)@ == (ChainView { gain: old(self)@.gain.at_db(db), ..old(self)@ }),
    {
        self.gain.set_db(db);
    }

    /// Move the fader, as a multiplier.
    pub fn set_gain_linear(&mut self, linear: Single)
        ensures
            final(self)@ == (ChainView { gain: old(self)@.gain.at_linear(linear), ..old(self)@ }),
    {
        self.gain.set_linear(linear);
    }

    /// Move the pan.
    pub fn set_pan(&mut self, pan: Single)
        ensures
            final(self)@ == (ChainView { pan: old(self)@.pan.at(pan), ..old(self)@ }),
    {
        self.pan.set_pos(pan);
    }

    /// Choose the filter of a band, by its code.
    pub fn set_eq_band_kind(&mut self, n: u8, code: u8)
        ensures
            final(self)@ == old(self)@.with_kind(n as int, code as int),
    {
        self.eq.set_band_kind(n as usize, FilterKind::from_code(code));
    }

    /// Aim the frequency of a band, in Hz.
    pub fn set_eq_band_freq(&mut self, n: u8, hz: Single)
        ensures
            final(self)@ == old(self)@.with_freq(n as int, hz),
    {
        self.eq.set_band_freq(n as usize, hz);
    }

    /// Aim the bandwidth of a band.
    pub fn set_eq_band_q(&mut self, n: u8, q: Single)
        ensures
            final(self)@ == old(self)@.with_q(n as int, q),
    {
        self.eq.set_band_q(n as usize, q);
    }

    /// Aim the boost or cut of a band, in decibels.
    pub fn set_eq_band_gain_db(&mut self, n: u8, db: Single)
        ensures
            final(self)@ == old(self)@.with_gain_db(n as int, db),
    {
        self.eq.set_band_gain_db(n as usize, db);
    }

    /// Switch a band on or off.
    pub fn set_eq_band_enabled(&mut self, n: u8, on: bool)
        ensures
            final(self)@ == old(self)@.with_enabled(n as int, on),
    {
        self.eq.set_band_enabled(n as usize, on);
    }
}

/// A chain glides at the rate it runs at: fader and pan by the share of 8 ms per frame, and the
/// parameters of the bands by the share of a step, unless there is no rate; then they move at once.
/// Numbers are compared as whole numbers: `scaled` is `2^149` times the number.
pub proof fn chains_glide_at_their_rate(setup: ChainSetup, i: int)
    requires
        0 <= i < 4,
        !setup.sample_rate.nan(),
        !setup.control_rate.nan(),
    ensures
        ({
            let chain = ChainView::fresh(setup);
            let band = chain.bands[i];
            let unit = vstd::arithmetic::power2::pow2(149) as int;
            &&& chain.gain.gain.coeff == chain.pan.pos.coeff
            &&& setup.sample_rate.scaled() > 0 ==> chain.gain.gain.coeff == setup.level_pole
            &&& setup.sample_rate.scaled() <= 0 ==> chain.gain.gain.coeff.bits == 0x3f80_0000
            &&& band.freq.coeff == band.q.coeff && band.q.coeff == band.gain_db.coeff
            &&& setup.control_rate.scaled() > 0 ==> band.freq.coeff == setup.band_pole
            &&& setup.control_rate.scaled() <= 0 ==> band.freq.coeff.bits == 0x3f80_0000
            &&& 7_999 * unit <= 1_000_000 * Single::of(LEVEL_SECS).scaled() <= 8_001 * unit
        }),
{
    vstd::arithmetic::power2::lemma2_to64();
    vstd::arithmetic::power2::lemma_pow2_pos(149);
    crate::single::values_follow_from_bits(LEVEL_SECS, 30, 0x4000_0000, 0x83_126f);
    crate::single::values_follow_from_bits(
        crate::dsp::eq::SMOOTH_SECS,
        29,
        0x2000_0000,
        0xa3_d70a,
    );
    crate::dsp::smooth::parameters_glide_where_they_can(
        setup.sample_rate,
        Single::of(LEVEL_SECS),
        setup.level_pole,
        Single::of(ONE),
    );
    crate::dsp::smooth::parameters_glide_where_they_can(
        setup.control_rate,
        Single::of(crate::dsp::eq::SMOOTH_SECS),
        setup.band_pole,
        Single::of(ONE),
    );
}

} // verus!
