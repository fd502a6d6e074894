//! [`Biquad`]: a second-order filter with its coefficients and its memory.

use vstd::prelude::*;
use crate::single::{Single, MIN_POSITIVE, ONE};

verus! {

/// The narrowest and widest bandwidth that coefficients are computed for, 0.05 and 40.
pub const MIN_Q: u32 = 0x3d4c_cccd;
pub const MAX_Q: u32 = 0x4220_0000;

/// The deepest cut and highest boost that coefficients are computed for, -24 dB and +24 dB.
pub const MIN_BAND_DB: u32 = 0xc1c0_0000;
pub const MAX_BAND_DB: u32 = 0x41c0_0000;

/// The shape of a filter.
#[derive(Clone, Copy, Debug, PartialEq, Eq, Structural)]
pub enum FilterKind {
    /// Passes what lies below the cutoff.
    Lowpass,
    /// Passes what lies above the cutoff.
    Highpass,
    /// Passes a band around the center.
    Bandpass,
    /// Rejects a band around the center.
    Notch,
    /// Boosts or cuts a band around the center.
    Peak,
    /// Boosts or cuts what lies below the corner.
    LowShelf,
    /// Boosts or cuts what lies above the corner.
    HighShelf,
}

/// The kind that a code stands for. Codes that stand for none give a peak.
pub open spec fn kind_of(code: int) -> FilterKind {
    if code == 1 {
        FilterKind::LowShelf
    } else if code == 2 {
        FilterKind::HighShelf
    } else if code == 3 {
        FilterKind::Lowpass
    } else if code == 4 {
        FilterKind::Highpass
    } else if code == 5 {
        FilterKind::Bandpass
    } else if code == 6 {
        FilterKind::Notch
    } else {
        FilterKind::Peak
    }
}

impl FilterKind {
    /// The kind for a code: 0 peak, 1 low shelf, 2 high shelf, 3 low-pass, 4 high-pass,
    /// 5 band-pass, 6 notch. Any other code is a peak.
    pub fn from_code(code: u8) -> (r: Self)
        ensures
            r == kind_of(code as int),
    {
        match code {
            1 => FilterKind::LowShelf,
            2 => FilterKind::HighShelf,
            3 => FilterKind::Lowpass,
            4 => FilterKind::Highpass,
            5 => FilterKind::Bandpass,
            6 => FilterKind::Notch,
            _ => FilterKind::Peak,
        }
    }
}

/// The coefficients of a filter, scaled so that the leading feedback coefficient is one.
#[derive(Clone, Copy, Debug, PartialEq, Eq, Structural)]
pub struct BiquadCoeffs {
    pub b0: Single,
    pub b1: Single,
    pub b2: Single,
    pub a1: Single,
    pub a2: Single,
}

/// What coefficients are computed from, inside the range in which the formulas are sound.
#[derive(Clone, Copy, Debug, PartialEq, Eq, Structural)]
pub struct FilterInputs {
    pub freq_hz: Single,
    pub q: Single,
    pub gain_db: Single,
}

/// A frequency held to at least 1 Hz and at most `ceiling`. Where the rate is so low that these are
/// the wrong way round, it is held to `ceiling`.
pub open spec fn freq_held(freq_hz: Single, ceiling: Single) -> Single {
    if Single::of(ONE).at_most(ceiling) {
        freq_hz.clamped(Single::of(ONE), ceiling)
    } else if freq_hz.nan() {
        freq_hz
    } else {
        ceiling
    }
}

impl FilterInputs {
    /// Inputs held to the range in which the formulas are sound.
    pub open spec fn held(self, ceiling: Single) -> FilterInputs {
        FilterInputs {
            freq_hz: freq_held(self.freq_hz, ceiling),
            q: self.q.clamped(Single::of(MIN_Q), Single::of(MAX_Q)),
            gain_db: self.gain_db.clamped(Single::of(MIN_BAND_DB), Single::of(MAX_BAND_DB)),
        }
    }
}

impl BiquadCoeffs {
    /// The coefficients that pass a signal through.
    pub open spec fn pass_through() -> BiquadCoeffs {
        BiquadCoeffs {
            b0: Single::of(ONE),
            b1: Single::of(0),
            b2: Single::of(0),
            a1: Single::of(0),
            a2: Single::of(0),
        }
    }

    /// The coefficients that pass a signal through.
    pub fn identity() -> (r: Self)
        ensures
            r == BiquadCoeffs::pass_through(),
    {
        BiquadCoeffs {
            b0: Single::of(ONE),
            b1: Single::of(0),
            b2: Single::of(0),
            a1: Single::of(0),
            a2: Single::of(0),
        }
    }

    /// The inputs that coefficients are computed from, or `None` where the sample rate is not
    /// positive and the filter is to pass its signal through. `ceiling` is the highest frequency
    /// that the rate can carry, a little below half of it.
    pub fn inputs(
        sample_rate: Single,
        ceiling: Single,
        freq_hz: Single,
        q: Single,
        gain_db: Single,
    ) -> (r: Option<FilterInputs>)
        ensures
            r == (if sample_rate.at_most(Single::of(0)) {
                None
            } else {
                Some((FilterInputs { freq_hz, q, gain_db }).held(ceiling))
            }),
    {
        if sample_rate.le(Single::of(0)) {
            return None;
        }
        let freq_hz: Single = if Single::of(ONE).le(ceiling) {
            freq_hz.clamp(Single::of(ONE), ceiling)
        } else if freq_hz.is_nan() {
            freq_hz
        } else {
            ceiling
        };
        Some(
            FilterInputs {
                freq_hz,
                q: q.clamp(Single::of(MIN_Q), Single::of(MAX_Q)),
                gain_db: gain_db.clamp(Single::of(MIN_BAND_DB), Single::of(MAX_BAND_DB)),
            },
        )
    }

    /// The coefficients that become of what was computed.
    pub open spec fn of(computed: Option<(Single, BiquadCoeffs)>) -> BiquadCoeffs {
        match computed {
            Some((a0, scaled)) => if a0.magnitude() < MIN_POSITIVE {
                BiquadCoeffs::pass_through()
            } else {
                scaled
            },
            None => BiquadCoeffs::pass_through(),
        }
    }

    /// The coefficients of a filter, from the leading feedback coefficient and the others divided
    /// by it. Where there was nothing to compute them from, or the leading one is too small to
    /// divide by, the filter passes its signal through.
    pub fn new(computed: Option<(Single, BiquadCoeffs)>) -> (r: Self)
        ensures
            r == BiquadCoeffs::of(computed),
    {
        match computed {
            Some((a0, scaled)) => if a0.abs().bits < MIN_POSITIVE {
                BiquadCoeffs::identity()
            } else {
                scaled
            },
            None => BiquadCoeffs::identity(),
        }
    }

    /// The coefficients of a filter of the given kind, by whatever formula: the leading feedback
    /// coefficient and the others divided by it, as a function of the kind, the rate and the
    /// inputs.
    pub open spec fn designed(
        formula: spec_fn(FilterKind, Single, FilterInputs) -> (Single, BiquadCoeffs),
        kind: FilterKind,
        sample_rate: Single,
        ceiling: Single,
        inputs: FilterInputs,
    ) -> BiquadCoeffs {
        if sample_rate.at_most(Single::of(0)) {
            BiquadCoeffs::of(None)
        } else {
            BiquadCoeffs::of(Some(formula(kind, sample_rate, inputs.held(ceiling))))
        }
    }
}

/// Inputs that are held already stay as they are, so they give the same filter, by whatever formula.
/// Whatever lies beyond the range acts as the end of the range.
pub proof fn held_inputs_give_the_same_filter(
    formula: spec_fn(FilterKind, Single, FilterInputs) -> (Single, BiquadCoeffs),
    kind: FilterKind,
    sample_rate: Single,
    ceiling: Single,
    inputs: FilterInputs,
)
    ensures
        inputs.held(ceiling).held(ceiling) == inputs.held(ceiling),
        BiquadCoeffs::designed(formula, kind, sample_rate, ceiling, inputs)
            == BiquadCoeffs::designed(
            formula,
            kind,
            sample_rate,
            ceiling,
            inputs.held(ceiling),
        ),
        ceiling.below(inputs.freq_hz) ==> inputs.held(ceiling) == (FilterInputs {
            freq_hz: ceiling,
            ..inputs
        }).held(ceiling),
        inputs.q.below(Single::of(MIN_Q)) ==> inputs.held(ceiling).q == Single::of(MIN_Q),
        Single::of(MAX_Q).below(inputs.q) ==> inputs.held(ceiling).q == Single::of(MAX_Q),
        inputs.gain_db.below(Single::of(MIN_BAND_DB)) ==> inputs.held(ceiling).gain_db
            == Single::of(MIN_BAND_DB),
        Single::of(MAX_BAND_DB).below(inputs.gain_db) ==> inputs.held(ceiling).gain_db
            == Single::of(MAX_BAND_DB),
{
    if Single::of(ONE).at_most(ceiling) {
        crate::single::clamping_settles(inputs.freq_hz, Single::of(ONE), ceiling);
    }
    crate::single::clamping_settles(inputs.q, Single::of(MIN_Q), Single::of(MAX_Q));
    crate::single::clamping_settles(
        inputs.gain_db,
        Single::of(MIN_BAND_DB),
        Single::of(MAX_BAND_DB),
    );
}

/// The memory of a filter for one channel.
#[derive(Clone, Copy, Debug, PartialEq, Eq, Structural)]
pub struct Memory {
    pub z1: Single,
    pub z2: Single,
}

/// A filter for two channels, which share the coefficients and nothing else.
#[derive(Clone, Copy, Debug, PartialEq, Eq, Structural)]
pub struct Biquad {
    pub coeffs: BiquadCoeffs,
    pub left: Memory,
    pub right: Memory,
}

impl Memory {
    /// The memory of a filter that has heard nothing.
    pub open spec fn blank() -> Memory {
        Memory { z1: Single::of(0), z2: Single::of(0) }
    }
}

impl Biquad {
    /// A filter that has heard nothing.
    pub open spec fn fresh(coeffs: BiquadCoeffs) -> Biquad {
        Biquad { coeffs, left: Memory::blank(), right: Memory::blank() }
    }

    /// The memory of a channel: 0 is left, anything else right.
    pub open spec fn channel(self, ch: int) -> Memory {
        if ch == 0 {
            self.left
        } else {
            self.right
        }
    }

    /// The filter with the memory of one channel replaced.
    pub open spec fn with_channel(self, ch: int, memory: Memory) -> Biquad {
        if ch == 0 {
            Biquad { left: memory, ..self }
        } else {
            Biquad { right: memory, ..self }
        }
    }

    /// A filter with the given coefficients that has heard nothing.
    pub fn new(coeffs: BiquadCoeffs) -> (r: Self)
        ensures
            r == Biquad::fresh(coeffs),
    {
        let blank = Memory { z1: Single::of(0), z2: Single::of(0) };
        Biquad { coeffs, left: blank, right: blank }
    }

    /// A filter that passes its signal through.
    pub fn identity() -> (r: Self)
        ensures
            r == Biquad::fresh(BiquadCoeffs::pass_through()),
    {
        Biquad::new(BiquadCoeffs::identity())
    }

    /// Replace the coefficients and keep the memory.
    pub fn set_coeffs(&mut self, coeffs: BiquadCoeffs)
        ensures
            *final(self) == (Biquad { coeffs, ..*old(self) }),
    {
        self.coeffs = coeffs;
    }

    /// The coefficients.
    pub fn coeffs(&self) -> (r: BiquadCoeffs)
        ensures
            r == self.coeffs,
    {
        self.coeffs
    }

    /// The memory of a channel.
    pub fn memory(&self, ch: usize) -> (r: Memory)
        requires
            ch < 2,
        ensures
            r == self.channel(ch as int),
    {
        if ch == 0 {
            self.left
        } else {
            self.right
        }
    }

    /// Move a channel past one sample. With `x` the sample, `y = b0 * x + z1` what comes out and
    /// `z1`, `z2` the old memory, the new memory is `b1 * x - a1 * y + z2` and `b2 * x - a2 * y`.
    /// Numbers too small to be normal are kept as zero.
    pub fn process_sample(&mut self, ch: usize, z1: Single, z2: Single)
        requires
            ch < 2,
        ensures
            *final(self) == old(self).with_channel(
                ch as int,
                Memory { z1: z1.flushed(), z2: z2.flushed() },
            ),
    {
        let memory = Memory { z1: z1.flush_denorm(), z2: z2.flush_denorm() };
        if ch == 0 {
            self.left = memory;
        } else {
            self.right = memory;
        }
    }

    /// Forget what was heard.
    pub fn reset(&mut self)
        ensures
            *final(self) == Biquad::fresh(old(self).coeffs),
    {
        *self = Biquad::new(self.coeffs);
    }
}

/// Filtering one channel leaves the other as it was, and no memory word is ever a number too small
/// to be normal.
pub proof fn channels_stay_apart(filter: Biquad, ch: int, other: int, z1: Single, z2: Single)
    requires
        0 <= ch < 2,
        0 <= other < 2,
        ch != other,
    ensures
        ({
            let after = filter.with_channel(ch, Memory { z1: z1.flushed(), z2: z2.flushed() });
            &&& after.channel(other) == filter.channel(other)
            &&& after.coeffs == filter.coeffs
            &&& after.channel(ch).z1.magnitude() == 0 || after.channel(ch).z1.magnitude()
                >= MIN_POSITIVE
            &&& after.channel(ch).z2.magnitude() == 0 || after.channel(ch).z2.magnitude()
                >= MIN_POSITIVE
        }),
{
}

/// Filters are computed for frequencies from 1 Hz to just below half the rate, bandwidths from 0.05
/// to 40 and boosts from -24 to +24 dB. Inputs in that range are taken as they are. Numbers are
/// compared as whole numbers: `scaled` is `2^149` times the number.
pub proof fn ordinary_inputs_are_taken_as_they_are(inputs: FilterInputs, ceiling: Single)
    requires
        !inputs.freq_hz.nan(),
        !inputs.q.nan(),
        !inputs.gain_db.nan(),
        !ceiling.nan(),
    ensures
        ({
            let unit = vstd::arithmetic::power2::pow2(149) as int;
            let held = inputs.held(ceiling);
            &&& unit <= inputs.freq_hz.scaled() <= ceiling.scaled() ==> held.freq_hz
                == inputs.freq_hz
            &&& inputs.freq_hz.scaled() < unit <= ceiling.scaled() ==> held.freq_hz.scaled() == unit
            &&& inputs.freq_hz.scaled() > ceiling.scaled() ==> held.freq_hz == ceiling
            &&& ceiling.scaled() < unit ==> held.freq_hz == ceiling
            &&& unit < 20 * inputs.q.scaled() - unit / 1_000 && inputs.q.scaled() <= 40 * unit
                ==> held.q == inputs.q
            &&& inputs.q.scaled() > 40 * unit ==> held.q.scaled() == 40 * unit
            &&& inputs.q.scaled() <= 0 ==> {
                &&& 999 * unit <= 20_000 * held.q.scaled()
                &&& 20_000 * held.q.scaled() <= 1_001 * unit
            }
            &&& -24 * unit <= inputs.gain_db.scaled() <= 24 * unit ==> held.gain_db
                == inputs.gain_db
            &&& inputs.gain_db.scaled() > 24 * unit ==> held.gain_db.scaled() == 24 * unit
            &&& inputs.gain_db.scaled() < -24 * unit ==> held.gain_db.scaled() == -24 * unit
        }),
{
    vstd::arithmetic::power2::lemma2_to64();
    vstd::arithmetic::power2::lemma_pow2_pos(149);
    crate::single::values_follow_from_bits(ONE, 23, 0x80_0000, 0x80_0000);
    crate::single::values_follow_from_bits(MIN_Q, 28, 0x1000_0000, 0xcc_cccd);
    crate::single::values_follow_from_bits(MAX_Q, 18, 0x4_0000, 0xa0_0000);
    crate::single::values_follow_from_bits(MAX_BAND_DB, 19, 0x8_0000, 0xc0_0000);
    let unit = vstd::arithmetic::power2::pow2(149) as int;
    assert(Single::of(ONE).scaled() == unit);
    assert(Single::of(MAX_Q).scaled() == 40 * unit);
    assert(Single::of(MAX_BAND_DB).scaled() == 24 * unit);
    assert(Single::of(MIN_BAND_DB).scaled() == -24 * unit);
    assert(999 * unit <= 20_000 * Single::of(MIN_Q).scaled() <= 1_001 * unit);
    assert(20 * Single::of(MIN_Q).scaled() <= unit + unit / 1_000);
    crate::single::order_is_numeric(Single::of(ONE), ceiling);
    crate::single::order_is_numeric(inputs.freq_hz, Single::of(ONE));
    crate::single::order_is_numeric(ceiling, inputs.freq_hz);
    crate::single::order_is_numeric(inputs.q, Single::of(MIN_Q));
    crate::single::order_is_numeric(Single::of(MAX_Q), inputs.q);
    crate::single::order_is_numeric(inputs.gain_db, Single::of(MIN_BAND_DB));
    crate::single::order_is_numeric(Single::of(MAX_BAND_DB), inputs.gain_db);
}

/// Coefficients that were computed are used as they are, unless the leading one is too small to
/// divide by; then, and where there was nothing to compute, the output is the input.
pub proof fn computed_coefficients_are_used(a0: Single, scaled: BiquadCoeffs)
    ensures
        a0.unsigned().bits >= MIN_POSITIVE ==> BiquadCoeffs::of(Some((a0, scaled))) == scaled,
        a0.unsigned().bits < MIN_POSITIVE ==> BiquadCoeffs::of(Some((a0, scaled)))
            == BiquadCoeffs::of(None),
        BiquadCoeffs::of(None).b0.bits == 0x3f80_0000,
        BiquadCoeffs::of(None).b1.bits == 0,
        BiquadCoeffs::of(None).b2.bits == 0,
        BiquadCoeffs::of(None).a1.bits == 0,
        BiquadCoeffs::of(None).a2.bits == 0,
{
}

/// What a filter remembers of a channel is what it was last given for that channel, but for numbers
/// too small to be normal, which are zero. A filter that is new remembers nothing.
pub proof fn filters_remember_what_they_are_given(
    filter: Biquad,
    ch: int,
    z1: Single,
    z2: Single,
    coeffs: BiquadCoeffs,
)
    requires
        0 <= ch < 2,
    ensures
        filter.with_channel(ch, Memory { z1, z2 }).channel(ch) == (Memory { z1, z2 }),
        filter.with_channel(ch, Memory { z1, z2 }).channel(1 - ch) == filter.channel(1 - ch),
        filter.channel(0) == filter.left,
        filter.channel(1) == filter.right,
        Biquad::fresh(coeffs).coeffs == coeffs,
        Biquad::fresh(coeffs).channel(ch).z1.bits == 0,
        Biquad::fresh(coeffs).channel(ch).z2.bits == 0,
{
}

} // verus!
