//! [`Eq`]: a four-band equalizer.
//!
//! Coefficients are expensive to compute, so they are held for [`CONTROL_BLOCK`] samples at a time,
//! and are computed only for bands whose parameters are still gliding.

use vstd::prelude::*;
use crate::dsp::biquad::{Biquad, BiquadCoeffs, FilterKind, Memory};
use crate::dsp::smooth::SmoothedParam;
use crate::single::Single;

verus! {

/// The number of bands.
pub const NUM_BANDS: usize = 4;

/// The number of samples that share their coefficients.
pub const CONTROL_BLOCK: usize = 16;

/// The time constant of a parameter, 20 ms.
pub const SMOOTH_SECS: u32 = 0x3ca3_d70a;

/// 120 Hz, the corner of the low shelf.
pub const LOW_HZ: u32 = 0x42f0_0000;

/// 500 Hz, the center of the lower bell.
pub const LOW_MID_HZ: u32 = 0x43fa_0000;

/// 3 kHz, the center of the upper bell.
pub const HIGH_MID_HZ: u32 = 0x453b_8000;

/// 8 kHz, the corner of the high shelf.
pub const HIGH_HZ: u32 = 0x45fa_0000;

/// 0.707, the bandwidth of the shelves.
pub const SHELF_Q: u32 = 0x3f34_fdf4;

/// 1, the bandwidth of the bells.
pub const BELL_Q: u32 = 0x3f80_0000;

/// One band: a filter and the parameters that feed it.
#[derive(Clone, Copy, Debug, PartialEq, Structural)]
pub struct Band {
    pub kind: FilterKind,
    pub enabled: bool,
    pub freq: SmoothedParam,
    pub q: SmoothedParam,
    pub gain_db: SmoothedParam,
    pub filter: Biquad,
    /// Whether the coefficients are still to follow the parameters.
    pub needs_coeffs: bool,
}

/// What a band is heading for.
#[derive(Clone, Copy, Debug, PartialEq, Eq, Structural)]
pub struct Target {
    pub kind: FilterKind,
    pub freq_hz: Single,
    pub q: Single,
    pub gain_db: Single,
}

/// One step of a parameter, as the caller computed it.
#[derive(Clone, Copy, Debug, PartialEq, Eq, Structural)]
pub struct Glide {
    /// The value after the step.
    pub moved: Single,
    /// How far it then is from the target.
    pub distance: Single,
    /// The distance that counts as nothing.
    pub tolerance: Single,
}

impl Glide {
    /// Whether the step arrives.
    pub open spec fn arrives(self) -> bool {
        self.distance.unsigned().at_most(self.tolerance)
    }
}

impl SmoothedParam {
    /// The parameter after a step: on its target, if the band has settled.
    pub open spec fn glided(self, step: Glide, settled: bool) -> SmoothedParam {
        SmoothedParam {
            current: if settled {
                self.target
            } else {
                step.moved
            },
            ..self
        }
    }
}

impl Band {
    /// A band as it is built: on, at rest, with the coefficients of its parameters.
    pub open spec fn resting(
        coeff: Single,
        kind: FilterKind,
        freq_hz: Single,
        q: Single,
        gain_db: Single,
        coeffs: BiquadCoeffs,
    ) -> Band {
        Band {
            kind,
            enabled: true,
            freq: SmoothedParam::resting(coeff, freq_hz),
            q: SmoothedParam::resting(coeff, q),
            gain_db: SmoothedParam::resting(coeff, gain_db),
            filter: Biquad::fresh(coeffs),
            needs_coeffs: false,
        }
    }

    /// What the band is heading for.
    pub open spec fn aim(self) -> Target {
        Target {
            kind: self.kind,
            freq_hz: self.freq.target,
            q: self.q.target,
            gain_db: self.gain_db.target,
        }
    }

    /// Whether the coefficients are to be computed for the next block of samples.
    pub open spec fn moving(self) -> bool {
        self.enabled && self.needs_coeffs
    }

    /// The band after a step of its parameters. Once all three have arrived, they are put onto
    /// their targets and the band comes to rest.
    pub open spec fn stepped(
        self,
        freq: Glide,
        q: Glide,
        gain_db: Glide,
        coeffs: BiquadCoeffs,
    ) -> Band {
        let settled = freq.arrives() && q.arrives() && gain_db.arrives();
        Band {
            freq: self.freq.glided(freq, settled),
            q: self.q.glided(q, settled),
            gain_db: self.gain_db.glided(gain_db, settled),
            filter: Biquad { coeffs, ..self.filter },
            needs_coeffs: !settled,
            ..self
        }
    }

    /// The band after a step, if it is moving. A band at rest, or off, is left alone.
    pub open spec fn advanced(
        self,
        freq: Glide,
        q: Glide,
        gain_db: Glide,
        coeffs: BiquadCoeffs,
    ) -> Band {
        if self.moving() {
            self.stepped(freq, q, gain_db, coeffs)
        } else {
            self
        }
    }

    /// The band past one sample of channel `ch`, with the memory that the sample leaves behind. A
    /// band that is off hears nothing.
    pub open spec fn past(self, ch: int, z1: Single, z2: Single) -> Band {
        if self.enabled {
            Band {
                filter: self.filter.with_channel(
                    ch,
                    Memory { z1: z1.flushed(), z2: z2.flushed() },
                ),
                ..self
            }
        } else {
            self
        }
    }

    /// The band after it was switched on or off. Switching it on makes it forget what it heard
    /// before it was off.
    pub open spec fn switched(self, on: bool) -> Band {
        if on && !self.enabled {
            Band {
                enabled: true,
                filter: Biquad::fresh(self.filter.coeffs),
                needs_coeffs: true,
                ..self
            }
        } else {
            Band { enabled: on, ..self }
        }
    }

    fn new(
        control_rate: Single,
        pole: Single,
        kind: FilterKind,
        freq_hz: Single,
        q: Single,
        coeffs: BiquadCoeffs,
    ) -> (r: Self)
        ensures
            r == Band::resting(
                crate::dsp::smooth::glide_coeff(control_rate, Single::of(SMOOTH_SECS), pole),
                kind,
                freq_hz,
                q,
                Single::of(0),
                coeffs,
            ),
    {
        let time = Single::of(SMOOTH_SECS);
        Band {
            kind,
            enabled: true,
            freq: SmoothedParam::new(control_rate, time, pole, freq_hz),
            q: SmoothedParam::new(control_rate, time, pole, q),
            gain_db: SmoothedParam::new(control_rate, time, pole, Single::of(0)),
            filter: Biquad::new(coeffs),
            needs_coeffs: false,
        }
    }
}

/// A four-band equalizer.
#[derive(Clone, Copy, Debug)]
pub struct Eq {
    pub bands: [Band; 4],
}

/// The kind of band `i` as it is built.
pub open spec fn default_kind(i: int) -> FilterKind {
    if i == 0 {
        FilterKind::LowShelf
    } else if i == 3 {
        FilterKind::HighShelf
    } else {
        FilterKind::Peak
    }
}

/// The frequency of band `i` as it is built.
pub open spec fn default_freq(i: int) -> Single {
    if i == 0 {
        Single::of(LOW_HZ)
    } else if i == 1 {
        Single::of(LOW_MID_HZ)
    } else if i == 2 {
        Single::of(HIGH_MID_HZ)
    } else {
        Single::of(HIGH_HZ)
    }
}

/// The bandwidth of band `i` as it is built.
pub open spec fn default_q(i: int) -> Single {
    if i == 0 || i == 3 {
        Single::of(SHELF_Q)
    } else {
        Single::of(BELL_Q)
    }
}

impl Eq {
    /// The bands as they are built: a low shelf, two bells and a high shelf, all flat.
    pub open spec fn flat(
        control_rate: Single,
        pole: Single,
        coeffs: Seq<BiquadCoeffs>,
    ) -> Seq<Band> {
        Seq::new(
            4,
            |i: int|
                Band::resting(
                    crate::dsp::smooth::glide_coeff(control_rate, Single::of(SMOOTH_SECS), pole),
                    default_kind(i),
                    default_freq(i),
                    default_q(i),
                    Single::of(0),
                    coeffs[i],
                ),
        )
    }

    /// The bands after one of them was changed. A band that does not exist has nothing to change.
    pub open spec fn edited(bands: Seq<Band>, i: int, edit: spec_fn(Band) -> Band) -> Seq<Band> {
        if 0 <= i < bands.len() {
            bands.update(i, edit(bands[i]))
        } else {
            bands
        }
    }

    /// A flat equalizer. `control_rate` is the sample rate over [`CONTROL_BLOCK`], `pole` the
    /// one-pole coefficient of [`SMOOTH_SECS`] at that rate, and `coeffs` are the coefficients of
    /// the four bands.
    pub fn new(control_rate: Single, pole: Single, coeffs: [BiquadCoeffs; 4]) -> (r: Self)
        ensures
            r.bands@ == Eq::flat(control_rate, pole, coeffs@),
    {
        let low = Band::new(
            control_rate,
            pole,
            FilterKind::LowShelf,
            Single::of(LOW_HZ),
            Single::of(SHELF_Q),
            coeffs[0],
        );
        let low_mid = Band::new(
            control_rate,
            pole,
            FilterKind::Peak,
            Single::of(LOW_MID_HZ),
            Single::of(BELL_Q),
            coeffs[1],
        );
        let high_mid = Band::new(
            control_rate,
            pole,
            FilterKind::Peak,
            Single::of(HIGH_MID_HZ),
            Single::of(BELL_Q),
            coeffs[2],
        );
        let high = Band::new(
            control_rate,
            pole,
            FilterKind::HighShelf,
            Single::of(HIGH_HZ),
            Single::of(SHELF_Q),
            coeffs[3],
        );
        let r = Eq { bands: [low, low_mid, high_mid, high] };
        assert(r.bands@ =~= Eq::flat(control_rate, pole, coeffs@));
        r
    }

    /// Choose the filter of a band. This cannot glide.
    pub fn set_band_kind(&mut self, i: usize, kind: FilterKind)
        ensures
            final(self).bands@ == Eq::edited(
                old(self).bands@,
                i as int,
                |b: Band| (Band { kind, needs_coeffs: true, ..b }),
            ),
    {
        if i < NUM_BANDS {
            let mut band = self.bands[i];
            band.kind = kind;
            band.needs_coeffs = true;
            self.bands[i] = band;
        }
    }

    /// Aim the frequency of a band, in Hz.
    pub fn set_band_freq(&mut self, i: usize, hz: Single)
        ensures
            final(self).bands@ == Eq::edited(
                old(self).bands@,
                i as int,
                |b: Band|
                    (Band {
                        freq: SmoothedParam { target: hz, ..b.freq },
                        needs_coeffs: true,
                        ..b
                    }),
            ),
    {
        if i < NUM_BANDS {
            let mut band = self.bands[i];
            band.freq.set_target(hz);
            band.needs_coeffs = true;
            self.bands[i] = band;
        }
    }

    /// Aim the bandwidth of a band.
    pub fn set_band_q(&mut self, i: usize, q: Single)
        ensures
            final(self).bands@ == Eq::edited(
                old(self).bands@,
                i as int,
                |b: Band|
                    (Band { q: SmoothedParam { target: q, ..b.q }, needs_coeffs: true, ..b }),
            ),
    {
        if i < NUM_BANDS {
            let mut band = self.bands[i];
            band.q.set_target(q);
            band.needs_coeffs = true;
            self.bands[i] = band;
        }
    }

    /// Aim the boost or cut of a band, in decibels.
    pub fn set_band_gain_db(&mut self, i: usize, db: Single)
        ensures
            final(self).bands@ == Eq::edited(
                old(self).bands@,
                i as int,
                |b: Band|
                    (Band {
                        gain_db: SmoothedParam { target: db, ..b.gain_db },
                        needs_coeffs: true,
                        ..b
                    }),
            ),
    {
        if i < NUM_BANDS {
            let mut band = self.bands[i];
            band.gain_db.set_target(db);
            band.needs_coeffs = true;
            self.bands[i] = band;
        }
    }

    /// Switch a band on or off. A band that is off is left out.
    pub fn set_band_enabled(&mut self, i: usize, on: bool)
        ensures
            final(self).bands@ == Eq::edited(
                old(self).bands@,
                i as int,
                |b: Band| b.switched(on),
            ),
    {
        if i < NUM_BANDS {
            let mut band = self.bands[i];
            if on && !band.enabled {
                band.filter.reset();
                band.needs_coeffs = true;
            }
            band.enabled = on;
            self.bands[i] = band;
        }
    }

    /// What bands are heading for, as far as they are on: what a response curve is drawn of.
    pub open spec fn aims(bands: Seq<Band>) -> Seq<Target>
        decreases bands.len(),
    {
        if bands.len() == 0 {
            Seq::empty()
        } else if bands.last().enabled {
            Eq::aims(bands.drop_last()).push(bands.last().aim())
        } else {
            Eq::aims(bands.drop_last())
        }
    }

    /// What the bands that are on are heading for, in order.
    pub fn targets(&self) -> (r: Vec<Target>)
        ensures
            r@ == Eq::aims(self.bands@),
    {
        let mut r: Vec<Target> = Vec::with_capacity(NUM_BANDS);
        for i in 0..NUM_BANDS
            invariant
                r@ == Eq::aims(self.bands@.take(i as int)),
        {
            let band = self.bands[i];
            proof {
                let longer = self.bands@.take(i + 1);
                assert(longer.drop_last() =~= self.bands@.take(i as int));
                assert(longer.last() == band);
            }
            if band.enabled {
                r.push(
                    Target {
                        kind: band.kind,
                        freq_hz: band.freq.target(),
                        q: band.q.target(),
                        gain_db: band.gain_db.target(),
                    },
                );
            }
        }
        assert(self.bands@.take(NUM_BANDS as int) =~= self.bands@);
        r
    }

    /// The length of the piece of a block, from frame `off` on, over which coefficients are held.
    pub fn sub_block(frames: usize, off: usize) -> (r: usize)
        requires
            off <= frames,
        ensures
            r == (if frames - off < CONTROL_BLOCK {
                frames - off
            } else {
                CONTROL_BLOCK as int
            }),
    {
        if frames - off < CONTROL_BLOCK {
            frames - off
        } else {
            CONTROL_BLOCK
        }
    }

    /// Whether the next step of a band is to be computed, and handed to [`Eq::advance_band`],
    /// before the next piece of a block.
    pub fn band_moving(&self, i: usize) -> (r: bool)
        requires
            i < NUM_BANDS,
        ensures
            r == self.bands@[i as int].moving(),
    {
        self.bands[i].enabled && self.bands[i].needs_coeffs
    }

    /// Take a step in the parameters of a band, with the coefficients that go with it. A band at
    /// rest, or off, is left alone.
    pub fn advance_band(
        &mut self,
        i: usize,
        freq: Glide,
        q: Glide,
        gain_db: Glide,
        coeffs: BiquadCoeffs,
    )
        requires
            i < NUM_BANDS,
        ensures
            final(self).bands@ == old(self).bands@.update(
                i as int,
                old(self).bands@[i as int].advanced(freq, q, gain_db, coeffs),
            ),
    {
        let mut band = self.bands[i];
        if band.enabled && band.needs_coeffs {
            band.freq.next(freq.moved);
            band.q.next(q.moved);
            band.gain_db.next(gain_db.moved);
            band.filter.set_coeffs(coeffs);
            if band.freq.settled(freq.distance, freq.tolerance) && band.q.settled(
                q.distance,
                q.tolerance,
            ) && band.gain_db.settled(gain_db.distance, gain_db.tolerance) {
                band.freq.snap();
                band.q.snap();
                band.gain_db.snap();
                band.needs_coeffs = false;
            }
            self.bands[i] = band;
        }
        assert(self.bands@ =~= old(self).bands@.update(
            i as int,
            old(self).bands@[i as int].advanced(freq, q, gain_db, coeffs),
        ));
    }

    /// Move a band past one sample of channel `ch`; see [`Biquad::process_sample`]. A band that is
    /// off hears nothing.
    pub fn filter_sample(&mut self, i: usize, ch: usize, z1: Single, z2: Single)
        requires
            i < NUM_BANDS,
            ch < 2,
        ensures
            final(self).bands@ == old(self).bands@.update(
                i as int,
                old(self).bands@[i as int].past(ch as int, z1, z2),
            ),
    {
        let mut band = self.bands[i];
        if band.enabled {
            band.filter.process_sample(ch, z1, z2);
            self.bands[i] = band;
        }
        assert(self.bands@ =~= old(self).bands@.update(
            i as int,
            old(self).bands@[i as int].past(ch as int, z1, z2),
        ));
    }
}

/// What is to be computed next for a block that runs through an equalizer.
#[derive(Clone, Copy, Debug, PartialEq, Eq, Structural)]
pub enum EqAction {
    /// Take a step in the parameters of a band: see [`Eq::advance_band`].
    Advance { band: usize },
    /// Run the frames `from..to` of a channel through a band: see [`Eq::filter_sample`].
    Filter { ch: usize, band: usize, from: usize, to: usize },
    /// Nothing: the block is done.
    Done,
}

/// A block on its way through an equalizer. It is worked through in pieces of [`CONTROL_BLOCK`]
/// frames. For each piece, first the bands that are moving take a step; then each channel runs
/// through the bands that are on, one after the other.
#[derive(Clone, Copy, Debug, PartialEq, Eq, Structural)]
pub struct EqWalk {
    pub frames: usize,
    pub channels: usize,
    /// The first frame of the current piece.
    pub off: usize,
    /// How far the current piece has come: the steps of the bands, then the bands of each channel.
    pub stage: usize,
}

/// The end of the piece that starts at `off`.
pub open spec fn piece_end(frames: int, off: int) -> int {
    if frames - off < CONTROL_BLOCK {
        frames
    } else {
        off + CONTROL_BLOCK
    }
}

impl EqWalk {
    /// What every walk satisfies. Only two channels are filtered.
    pub open spec fn wf(self) -> bool {
        &&& self.off <= self.frames
        &&& self.channels <= 2
        &&& self.stage <= self.stages()
    }

    /// The number of stages of a piece.
    pub open spec fn stages(self) -> int {
        4 + 4 * self.channels
    }

    /// Whether there is anything to do at the current stage.
    pub open spec fn busy(self, bands: Seq<Band>) -> bool {
        if self.stage < 4 {
            bands[self.stage as int].moving()
        } else {
            bands[(self.stage - 4) % 4].enabled
        }
    }

    /// What there is to do at the current stage.
    pub open spec fn action(self) -> EqAction {
        if self.stage < 4 {
            EqAction::Advance { band: self.stage }
        } else {
            EqAction::Filter {
                ch: ((self.stage - 4) / 4) as usize,
                band: ((self.stage - 4) % 4) as usize,
                from: self.off,
                to: piece_end(self.frames as int, self.off as int) as usize,
            }
        }
    }

    /// The walk one stage further, or one piece further after the last stage.
    pub open spec fn further(self) -> EqWalk {
        if self.stage < self.stages() {
            EqWalk { stage: (self.stage + 1) as usize, ..self }
        } else {
            EqWalk {
                off: piece_end(self.frames as int, self.off as int) as usize,
                stage: 0,
                ..self
            }
        }
    }

    /// What is to be done next, and the walk after it: the first stage from here on at which there
    /// is anything to do.
    pub open spec fn upcoming(self, bands: Seq<Band>) -> (EqAction, EqWalk)
        decreases self.frames - self.off, self.stages() - self.stage,
    {
        if !self.wf() || self.off >= self.frames {
            (EqAction::Done, self)
        } else if self.stage < self.stages() && self.busy(bands) {
            (self.action(), self.further())
        } else {
            self.further().upcoming(bands)
        }
    }

    /// A block at its start. Of more than two channels, only the first two are filtered.
    pub fn new(frames: usize, channels: usize) -> (r: Self)
        ensures
            r.wf(),
            r.frames == frames,
            r.channels == (if channels < 2 {
                channels as int
            } else {
                2
            }),
            r.off == 0,
            r.stage == 0,
    {
        let channels: usize = if channels < 2 {
            channels
        } else {
            2
        };
        EqWalk { frames, channels, off: 0, stage: 0 }
    }

    /// Say what is to be computed next, and move on.
    pub fn next(&mut self, eq: &Eq) -> (r: EqAction)
        requires
            old(self).wf(),
        ensures
            final(self).wf(),
            (r, *final(self)) == old(self).upcoming(eq.bands@),
    {
        let stages: usize = 4 + 4 * self.channels;
        while self.off < self.frames
            invariant
                self.wf(),
                stages == self.stages(),
                self.upcoming(eq.bands@) == old(self).upcoming(eq.bands@),
            decreases self.frames - self.off, stages - self.stage,
        {
            let stage: usize = self.stage;
            if stage >= stages {
                self.off = self.off + Eq::sub_block(self.frames, self.off);
                self.stage = 0;
            } else {
                let before = *self;
                self.stage = stage + 1;
                if stage < 4 {
                    if eq.band_moving(stage) {
                        return EqAction::Advance { band: stage };
                    }
                } else {
                    let band: usize = (stage - 4) % 4;
                    if eq.bands[band].enabled {
                        let to: usize = self.off + Eq::sub_block(self.frames, self.off);
                        return EqAction::Filter { ch: (stage - 4) / 4, band, from: self.off, to };
                    }
                }
                assert(*self == before.further());
            }
        }
        EqAction::Done
    }
}

/// Whatever a walk asks for makes sense: only bands that are moving take steps, only bands that are
/// on filter, pieces are not empty, not longer than [`CONTROL_BLOCK`], and inside the block, and
/// each ends where the next one starts.
pub proof fn walks_ask_for_what_makes_sense(walk: EqWalk, bands: Seq<Band>)
    requires
        walk.wf(),
        bands.len() == 4,
    ensures
        match walk.upcoming(bands).0 {
            EqAction::Advance { band } => band < 4 && bands[band as int].moving(),
            EqAction::Filter { ch, band, from, to } => {
                &&& ch < walk.channels
                &&& band < 4
                &&& bands[band as int].enabled
                &&& walk.off <= from < to <= walk.frames
                &&& to - from <= CONTROL_BLOCK
                &&& to == walk.frames || to == from + CONTROL_BLOCK
            },
            EqAction::Done => walk.upcoming(bands).1.off == walk.frames,
        },
        walk.upcoming(bands).1.wf(),
        walk.upcoming(bands).1.off >= walk.off,
    decreases walk.frames - walk.off, walk.stages() - walk.stage,
{
    if walk.off < walk.frames && !(walk.stage < walk.stages() && walk.busy(bands)) {
        walks_ask_for_what_makes_sense(walk.further(), bands);
    }
}

/// 1 where an action runs frame `frame` of channel `ch` through band `band`, and 0 otherwise.
pub open spec fn touches(action: EqAction, ch: int, band: int, frame: int) -> nat {
    match action {
        EqAction::Filter { ch: c, band: b, from, to } => if c == ch && b == band && from <= frame
            < to {
            1
        } else {
            0
        },
        _ => 0,
    }
}

impl EqWalk {
    /// How often, from here on, the walk runs a frame of a channel through a band.
    pub open spec fn visits(self, bands: Seq<Band>, ch: int, band: int, frame: int) -> nat
        decreases self.frames - self.off, self.stages() - self.stage,
    {
        if !self.wf() || self.off >= self.frames {
            0
        } else {
            let now = if self.stage < self.stages() && self.busy(bands) {
                touches(self.action(), ch, band, frame)
            } else {
                0
            };
            now + self.further().visits(bands, ch, band, frame)
        }
    }
}

/// Counting the visits of a walk is counting those of what it asks for, one after the other.
pub proof fn visits_add_up(walk: EqWalk, bands: Seq<Band>, ch: int, band: int, frame: int)
    requires
        walk.wf(),
    ensures
        walk.visits(bands, ch, band, frame) == touches(walk.upcoming(bands).0, ch, band, frame)
            + walk.upcoming(bands).1.visits(bands, ch, band, frame),
    decreases walk.frames - walk.off, walk.stages() - walk.stage,
{
    if walk.off < walk.frames && !(walk.stage < walk.stages() && walk.busy(bands)) {
        visits_add_up(walk.further(), bands, ch, band, frame);
    }
}

/// The visits of a walk depend on which bands are on, and on nothing else about them: that bands
/// take steps in between does not matter.
pub proof fn visits_depend_on_switches(
    walk: EqWalk,
    bands: Seq<Band>,
    others: Seq<Band>,
    ch: int,
    band: int,
    frame: int,
)
    requires
        walk.wf(),
        forall|i: int| 0 <= i < 4 ==> (#[trigger] bands[i]).enabled == others[i].enabled,
    ensures
        walk.visits(bands, ch, band, frame) == walk.visits(others, ch, band, frame),
    decreases walk.frames - walk.off, walk.stages() - walk.stage,
{
    if walk.off < walk.frames {
        if walk.stage >= 4 {
            assert(bands[(walk.stage - 4) % 4].enabled == others[(walk.stage - 4) % 4].enabled);
        }
        visits_depend_on_switches(walk.further(), bands, others, ch, band, frame);
    }
}

/// A block runs, frame for frame and channel for channel, exactly once through every band that is
/// on, and not at all through a band that is off.
pub proof fn every_band_hears_every_frame_once(
    walk: EqWalk,
    bands: Seq<Band>,
    ch: int,
    band: int,
    frame: int,
)
    requires
        walk.wf(),
        walk.stage == 0,
        0 <= ch < walk.channels,
        0 <= band < 4,
        walk.off <= frame < walk.frames,
    ensures
        walk.visits(bands, ch, band, frame) == (if bands[band].enabled {
            1nat
        } else {
            0
        }),
{
    lemma_visits(walk, bands, ch, band, frame);
}

proof fn lemma_visits(walk: EqWalk, bands: Seq<Band>, ch: int, band: int, frame: int)
    requires
        walk.wf(),
        0 <= ch < walk.channels,
        0 <= band < 4,
    ensures
        ({
            let here = walk.off <= frame < piece_end(walk.frames as int, walk.off as int);
            let later = piece_end(walk.frames as int, walk.off as int) <= frame < walk.frames;
            walk.visits(bands, ch, band, frame) == (if walk.off < walk.frames
                && bands[band].enabled && (later || here && walk.stage <= 4 + 4 * ch + band) {
                1nat
            } else {
                0
            })
        }),
    decreases walk.frames - walk.off, walk.stages() - walk.stage,
{
    if walk.off < walk.frames {
        lemma_visits(walk.further(), bands, ch, band, frame);
    }
}

/// A step that arrives brings a band to rest on its targets, where it stays, uncomputed, until it
/// is changed; a step that does not arrive leaves it moving.
pub proof fn settled_bands_rest(
    band: Band,
    freq: Glide,
    q: Glide,
    gain_db: Glide,
    coeffs: BiquadCoeffs,
)
    requires
        band.moving(),
    ensures
        ({
            let after = band.stepped(freq, q, gain_db, coeffs);
            &&& after.moving() <==> !(freq.arrives() && q.arrives() && gain_db.arrives())
            &&& !after.moving() ==> {
                &&& after.freq.current == band.freq.target
                &&& after.q.current == band.q.target
                &&& after.gain_db.current == band.gain_db.target
            }
            &&& after.filter.left == band.filter.left
            &&& after.filter.right == band.filter.right
        }),
{
}

/// A band that was off and is switched on again has forgotten everything it heard, is computed
/// anew, and keeps the parameters it had.
pub proof fn switching_on_forgets(band: Band)
    requires
        !band.enabled,
    ensures
        band.switched(true).filter == Biquad::fresh(band.filter.coeffs),
        band.switched(true).moving(),
        band.switched(true).freq == band.freq,
        band.switched(true).q == band.q,
        band.switched(true).gain_db == band.gain_db,
        band.switched(true).kind == band.kind,
{
}

/// A step moves a band that is on and has not come to rest, and no other. Its parameters take the
/// values that were computed, unless all three have arrived: then they take their targets. It takes
/// the coefficients that were computed with them either way, and keeps everything else.
pub proof fn steps_move_what_is_moving(
    band: Band,
    freq: Glide,
    q: Glide,
    gain_db: Glide,
    coeffs: BiquadCoeffs,
)
    ensures
        ({
            let after = band.advanced(freq, q, gain_db, coeffs);
            let there = |g: Glide| g.distance.unsigned().at_most(g.tolerance);
            let all = there(freq) && there(q) && there(gain_db);
            let put = |p: SmoothedParam, g: Glide|
                (SmoothedParam {
                    current: if all {
                        p.target
                    } else {
                        g.moved
                    },
                    ..p
                });
            &&& !band.enabled || !band.needs_coeffs ==> after == band
            &&& band.enabled && band.needs_coeffs ==> after == (Band {
                freq: put(band.freq, freq),
                q: put(band.q, q),
                gain_db: put(band.gain_db, gain_db),
                filter: Biquad { coeffs, ..band.filter },
                needs_coeffs: !all,
                ..band
            })
        }),
{
}

/// A sample changes what a band that is on remembers of its channel, and nothing else of it.
pub proof fn samples_change_one_memory(band: Band, ch: int, z1: Single, z2: Single)
    requires
        0 <= ch < 2,
    ensures
        ({
            let after = band.past(ch, z1, z2);
            &&& !band.enabled ==> after == band
            &&& band.enabled ==> {
                &&& after.filter.channel(ch).z1 == z1.flushed()
                &&& after.filter.channel(ch).z2 == z2.flushed()
                &&& after.filter.channel(1 - ch) == band.filter.channel(1 - ch)
                &&& after == (Band {
                    filter: Biquad {
                        left: after.filter.left,
                        right: after.filter.right,
                        ..band.filter
                    },
                    ..band
                })
            }
        }),
{
}

/// A response curve is drawn of the bands that are on, in order, each by where it is heading.
pub proof fn curves_show_where_bands_are_heading(bands: Seq<Band>)
    ensures
        Eq::aims(bands) == bands.filter(|b: Band| b.enabled).map_values(
            |b: Band|
                (Target {
                    kind: b.kind,
                    freq_hz: b.freq.target,
                    q: b.q.target,
                    gain_db: b.gain_db.target,
                }),
        ),
    decreases bands.len(),
{
    let on = |b: Band| b.enabled;
    let aim = |b: Band|
        (Target {
            kind: b.kind,
            freq_hz: b.freq.target,
            q: b.q.target,
            gain_db: b.gain_db.target,
        });
    reveal_with_fuel(Seq::filter, 2);
    if bands.len() > 0 {
        curves_show_where_bands_are_heading(bands.drop_last());
        let before = bands.drop_last().filter(on);
        if bands.last().enabled {
            assert(bands.filter(on) =~= before.push(bands.last()));
            assert(before.push(bands.last()).map_values(aim) =~= before.map_values(aim).push(
                aim(bands.last()),
            ));
        }
    } else {
        assert(Eq::aims(bands) =~= bands.filter(on).map_values(aim));
    }
}

/// An equalizer is built with a low shelf at 120 Hz, bells at 500 Hz and 3 kHz and a high shelf at
/// 8 kHz; the shelves have a bandwidth of 0.707 and the bells of 1. All are flat, on and at rest.
/// Numbers are compared as whole numbers: `scaled` is `2^149` times the number.
pub proof fn equalizers_are_built_as_on_a_console(
    control_rate: Single,
    pole: Single,
    coeffs: Seq<BiquadCoeffs>,
    i: int,
)
    requires
        0 <= i < 4,
        coeffs.len() == 4,
    ensures
        ({
            let bands = Eq::flat(control_rate, pole, coeffs);
            let unit = vstd::arithmetic::power2::pow2(149) as int;
            let hz = if i == 0 {
                120int
            } else if i == 1 {
                500
            } else if i == 2 {
                3_000
            } else {
                8_000
            };
            &&& bands.len() == 4
            &&& bands[0].kind == FilterKind::LowShelf
            &&& bands[1].kind == FilterKind::Peak
            &&& bands[2].kind == FilterKind::Peak
            &&& bands[3].kind == FilterKind::HighShelf
            &&& bands[i].freq.target.scaled() == hz * unit
            &&& bands[i].freq.current == bands[i].freq.target
            &&& i == 1 || i == 2 ==> bands[i].q.target.scaled() == unit
            &&& i == 0 || i == 3 ==> 7_069 * unit <= 10_000 * bands[i].q.target.scaled() <= 7_071
                * unit
            &&& bands[i].q.current == bands[i].q.target
            &&& bands[i].gain_db.target.bits == 0
            &&& bands[i].gain_db.current.bits == 0
            &&& bands[i].enabled
            &&& !bands[i].needs_coeffs
            &&& bands[i].filter.coeffs == coeffs[i]
            &&& 19_999 * unit <= 1_000_000 * Single::of(SMOOTH_SECS).scaled() <= 20_001 * unit
        }),
{
    vstd::arithmetic::power2::lemma2_to64();
    vstd::arithmetic::power2::lemma_pow2_pos(149);
    crate::single::values_follow_from_bits(LOW_HZ, 17, 0x2_0000, 0xf0_0000);
    crate::single::values_follow_from_bits(LOW_MID_HZ, 15, 0x8000, 0xfa_0000);
    crate::single::values_follow_from_bits(HIGH_MID_HZ, 12, 0x1000, 0xbb_8000);
    crate::single::values_follow_from_bits(HIGH_HZ, 11, 0x800, 0xfa_0000);
    crate::single::values_follow_from_bits(BELL_Q, 23, 0x80_0000, 0x80_0000);
    crate::single::values_follow_from_bits(SHELF_Q, 24, 0x100_0000, 0xb4_fdf4);
    crate::single::values_follow_from_bits(SMOOTH_SECS, 29, 0x2000_0000, 0xa3_d70a);
    let unit = vstd::arithmetic::power2::pow2(149) as int;
    assert(Single::of(LOW_HZ).scaled() == 120 * unit);
    assert(Single::of(LOW_MID_HZ).scaled() == 500 * unit);
    assert(Single::of(HIGH_MID_HZ).scaled() == 3_000 * unit);
    assert(Single::of(HIGH_HZ).scaled() == 8_000 * unit);
    assert(Single::of(BELL_Q).scaled() == unit);
    assert(7_069 * unit <= 10_000 * Single::of(SHELF_Q).scaled() <= 7_071 * unit);
}

/// Where in the work on a piece an action has its place: first the steps of the bands, in order, then
/// the first channel through the bands, in order, then the second.
pub open spec fn place(action: EqAction) -> int {
    match action {
        EqAction::Advance { band } => band as int,
        EqAction::Filter { ch, band, .. } => 4 + 4 * ch + band,
        EqAction::Done => 12,
    }
}

/// A block is worked through piece by piece, each of [`CONTROL_BLOCK`] frames, and in each piece in
/// order: what is asked for next has a later place in the same piece, or is in a later one. That
/// holds whatever becomes of the bands in between.
pub proof fn pieces_are_worked_through_in_order(
    walk: EqWalk,
    bands: Seq<Band>,
    later: Seq<Band>,
)
    requires
        walk.wf(),
        !(walk.upcoming(bands).0 is Done),
    ensures
        ({
            let (action, after) = walk.upcoming(bands);
            let (next, _) = after.upcoming(later);
            let start = |w: EqWalk, a: EqAction| match a {
                EqAction::Filter { from, .. } => from as int,
                _ => w.off as int,
            };
            &&& after.upcoming(later).1.off >= after.off
            &&& action is Filter ==> after.off == action->from
            &&& !(next is Done) ==> {
                ||| place(next) > place(action) && after.upcoming(later).1.off == after.off
                ||| after.upcoming(later).1.off >= piece_end(walk.frames as int, after.off as int)
            }
            &&& next is Filter ==> next->from == after.upcoming(later).1.off
        }),
{
    lemma_upcoming_place(walk, bands);
    let after = walk.upcoming(bands).1;
    walks_ask_for_what_makes_sense_anyway(walk, bands);
    lemma_upcoming_place(after, later);
}

proof fn walks_ask_for_what_makes_sense_anyway(walk: EqWalk, bands: Seq<Band>)
    requires
        walk.wf(),
    ensures
        walk.upcoming(bands).1.wf(),
        walk.upcoming(bands).1.frames == walk.frames,
        walk.upcoming(bands).1.channels == walk.channels,
    decreases walk.frames - walk.off, walk.stages() - walk.stage,
{
    if walk.off < walk.frames && !(walk.stage < walk.stages() && walk.busy(bands)) {
        walks_ask_for_what_makes_sense_anyway(walk.further(), bands);
    }
}

proof fn lemma_upcoming_place(walk: EqWalk, bands: Seq<Band>)
    requires
        walk.wf(),
    ensures
        ({
            let (action, after) = walk.upcoming(bands);
            &&& after.off >= walk.off
            &&& !(action is Done) ==> {
                &&& place(action) == after.stage - 1
                &&& after.off == walk.off && after.stage > walk.stage || after.off >= piece_end(
                    walk.frames as int,
                    walk.off as int,
                )
                &&& action is Filter ==> action->from == after.off
            }
        }),
    decreases walk.frames - walk.off, walk.stages() - walk.stage,
{
    if walk.off < walk.frames && !(walk.stage < walk.stages() && walk.busy(bands)) {
        lemma_upcoming_place(walk.further(), bands);
    }
}

/// No band that is moving is passed over: of those whose turn is still to come in a piece, the first
/// that is moving takes its step next.
pub proof fn moving_bands_take_their_steps(walk: EqWalk, bands: Seq<Band>, i: int)
    requires
        walk.wf(),
        walk.off < walk.frames,
        walk.stage <= i < 4,
        bands[i].enabled,
        bands[i].needs_coeffs,
    ensures
        walk.upcoming(bands).0 matches EqAction::Advance { band } && {
            &&& walk.stage <= band <= i
            &&& bands[band as int].enabled && bands[band as int].needs_coeffs
            &&& forall|k: int|
                walk.stage <= k < band ==> !((#[trigger] bands[k]).enabled && bands[k].needs_coeffs)
            &&& walk.upcoming(bands).1 == (EqWalk { stage: (band + 1) as usize, ..walk })
        },
    decreases 4 - walk.stage,
{
    if !walk.busy(bands) {
        moving_bands_take_their_steps(walk.further(), bands, i);
    }
}

/// After the last stage of a piece the next one starts with its first, at most [`CONTROL_BLOCK`]
/// frames further on and not beyond the block.
pub proof fn pieces_follow_each_other(walk: EqWalk)
    requires
        walk.wf(),
        walk.off < walk.frames,
        walk.stage == 4 + 4 * walk.channels,
    ensures
        walk.further().stage == 0,
        walk.further().frames == walk.frames,
        walk.further().channels == walk.channels,
        walk.further().off == (if walk.frames - walk.off < 16 {
            walk.frames as int
        } else {
            walk.off + 16
        }),
{
}

} // verus!
