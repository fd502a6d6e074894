//! Running whole blocks through an equalizer, and cutting them.
//!
//! What a block becomes depends on arithmetic that the caller does. Here that arithmetic is a
//! parameter, [`Rules`]: whatever it is, as long as the same numbers give the same results, a block
//! may be cut between two pieces of [`CONTROL_BLOCK`] frames, and anywhere while no band is moving.

use vstd::prelude::*;
use crate::dsp::biquad::{Biquad, BiquadCoeffs, Memory};
use crate::dsp::eq::{Band, EqAction, EqWalk, Glide, CONTROL_BLOCK};
use crate::single::Single;

verus! {

/// The arithmetic of an equalizer.
pub ghost struct Rules {
    /// A step of the three parameters of a band, and the coefficients after it.
    pub step: spec_fn(Band) -> (Glide, Glide, Glide, BiquadCoeffs),
    /// What comes out of a filter for one sample, and the two memory words that stay behind.
    pub sample: spec_fn(BiquadCoeffs, Memory, Single) -> (Single, Single, Single),
}

/// An equalizer and the block that runs through it: `block[channel][frame]`.
#[verifier::ext_equal]
pub ghost struct Run {
    pub bands: Seq<Band>,
    pub block: Seq<Seq<Single>>,
}

/// A band and some samples of channel `ch`, after the frames `from..to` ran through the band.
pub open spec fn filtered(
    rules: Rules,
    band: Band,
    ch: int,
    samples: Seq<Single>,
    from: int,
    to: int,
) -> (Band, Seq<Single>)
    decreases to - from,
{
    if from >= to {
        (band, samples)
    } else {
        let (y, z1, z2) = (rules.sample)(
            band.filter.coeffs,
            band.filter.channel(ch),
            samples[from],
        );
        filtered(rules, band.past(ch, z1, z2), ch, samples.update(from, y), from + 1, to)
    }
}

impl Run {
    /// What every run over `channels` channels of `frames` frames satisfies.
    pub open spec fn wf(self, channels: int, frames: int) -> bool {
        &&& self.bands.len() == 4
        &&& self.block.len() == channels
        &&& forall|c: int| 0 <= c < channels ==> (#[trigger] self.block[c]).len() == frames
    }

    /// The run after what a walk asked for was done.
    pub open spec fn done(self, rules: Rules, action: EqAction) -> Run {
        match action {
            EqAction::Advance { band } => {
                let b = self.bands[band as int];
                let (freq, q, gain_db, coeffs) = (rules.step)(b);
                Run {
                    bands: self.bands.update(band as int, b.advanced(freq, q, gain_db, coeffs)),
                    ..self
                }
            },
            EqAction::Filter { ch, band, from, to } => {
                let (b, samples) = filtered(
                    rules,
                    self.bands[band as int],
                    ch as int,
                    self.block[ch as int],
                    from as int,
                    to as int,
                );
                Run {
                    bands: self.bands.update(band as int, b),
                    block: self.block.update(ch as int, samples),
                }
            },
            EqAction::Done => self,
        }
    }

    /// The frames `lo..hi` alone.
    pub open spec fn part(self, lo: int, hi: int) -> Run {
        Run { block: self.block.map_values(|row: Seq<Single>| row.subrange(lo, hi)), ..self }
    }

    /// The run with what became of the frames `lo..hi` put back.
    pub open spec fn patched(self, part: Run, lo: int, hi: int) -> Run {
        Run {
            bands: part.bands,
            block: Seq::new(
                self.block.len(),
                |c: int|
                    self.block[c].take(lo) + part.block[c] + self.block[c].skip(hi),
            ),
        }
    }

    /// Two runs behind each other: the bands are those of the later one.
    pub open spec fn followed_by(self, later: Run) -> Run {
        Run {
            bands: later.bands,
            block: Seq::new(self.block.len(), |c: int| self.block[c] + later.block[c]),
        }
    }
}

impl EqWalk {
    /// A block of `frames` frames at its start.
    pub open spec fn over(frames: int, channels: int) -> EqWalk {
        EqWalk { frames: frames as usize, channels: channels as usize, off: 0, stage: 0 }
    }

    /// What becomes of a run, from here to the end of the walk.
    pub open spec fn run(self, rules: Rules, state: Run) -> Run
        decreases self.frames - self.off, self.stages() - self.stage,
    {
        if !self.wf() || self.off >= self.frames {
            state
        } else {
            let now = if self.stage < self.stages() && self.busy(state.bands) {
                state.done(rules, self.action())
            } else {
                state
            };
            self.further().run(rules, now)
        }
    }
}

/// Doing what a walk asks for, one after the other, is what a run is.
pub proof fn runs_follow_the_walk(walk: EqWalk, rules: Rules, state: Run)
    requires
        walk.wf(),
    ensures
        ({
            let (action, after) = walk.upcoming(state.bands);
            &&& walk.run(rules, state) == after.run(rules, state.done(rules, action))
            &&& action is Done ==> walk.run(rules, state) == state
        }),
    decreases walk.frames - walk.off, walk.stages() - walk.stage,
{
    if walk.off < walk.frames && !(walk.stage < walk.stages() && walk.busy(state.bands)) {
        runs_follow_the_walk(walk.further(), rules, state);
    }
}

/// A block may be cut between two pieces: running its first `k` frames and then the rest gives the
/// same samples, and leaves the same bands behind, as running it whole.
pub proof fn blocks_may_be_cut_between_pieces(
    rules: Rules,
    state: Run,
    channels: int,
    n: int,
    k: int,
)
    requires
        0 <= channels <= 2,
        0 <= k <= n <= usize::MAX,
        k % (CONTROL_BLOCK as int) == 0,
        state.wf(channels, n),
    ensures
        ({
            let first = EqWalk::over(k, channels).run(rules, state.part(0, k));
            let rest = Run { bands: first.bands, ..state.part(k, n) };
            let second = EqWalk::over(n - k, channels).run(rules, rest);
            EqWalk::over(n, channels).run(rules, state) == first.followed_by(second)
        }),
{
    let whole = EqWalk::over(n, channels);
    let first = EqWalk::over(k, channels).run(rules, state.part(0, k));
    lemma_part(whole, rules, state, 0, k);
    let mid = state.patched(first, 0, k);
    let later = EqWalk { off: k as usize, ..whole };
    let rest = Run { bands: first.bands, ..state.part(k, n) };
    assert(mid.part(k, n) =~= rest) by {
        assert forall|c: int| 0 <= c < channels implies mid.part(k, n).block[c]
            =~= rest.block[c] by {}
    }
    lemma_part(later, rules, mid, k, n);
    let second = EqWalk::over(n - k, channels).run(rules, rest);
    let end = mid.patched(second, k, n);
    assert(end =~= first.followed_by(second)) by {
        assert forall|c: int| 0 <= c < channels implies end.block[c] =~= first.followed_by(
            second,
        ).block[c] by {}
    }
}

/// One channel of a run: what each band remembers of it, and its samples.
#[verifier::ext_equal]
pub ghost struct Lane {
    pub memories: Seq<Memory>,
    pub row: Seq<Single>,
}

impl Run {
    /// Channel `c` of the run.
    pub open spec fn lane(self, c: int) -> Lane {
        Lane {
            memories: self.bands.map_values(|b: Band| b.filter.channel(c)),
            row: self.block[c],
        }
    }

    /// Whether no band has a step to take.
    pub open spec fn at_rest(self) -> bool {
        forall|i: int| 0 <= i < self.bands.len() ==> !(#[trigger] self.bands[i]).moving()
    }
}

impl Lane {
    /// The lane after frame `f` ran through band `j`.
    pub open spec fn one(self, rules: Rules, bands: Seq<Band>, j: int, f: int) -> Lane {
        if bands[j].enabled {
            let (y, z1, z2) = (rules.sample)(
                bands[j].filter.coeffs,
                self.memories[j],
                self.row[f],
            );
            Lane {
                memories: self.memories.update(j, Memory { z1: z1.flushed(), z2: z2.flushed() }),
                row: self.row.update(f, y),
            }
        } else {
            self
        }
    }

    /// The lane after the frames `a..b` ran through band `j`.
    pub open spec fn along(self, rules: Rules, bands: Seq<Band>, j: int, a: int, b: int) -> Lane
        decreases b - a,
    {
        if a >= b {
            self
        } else {
            self.one(rules, bands, j, a).along(rules, bands, j, a + 1, b)
        }
    }

    /// The lane after the frames `a..b` ran through the bands from `j` on, one band at a time.
    pub open spec fn by_bands(self, rules: Rules, bands: Seq<Band>, j: int, a: int, b: int) -> Lane
        decreases 4 - j,
    {
        if j >= 4 {
            self
        } else {
            self.along(rules, bands, j, a, b).by_bands(rules, bands, j + 1, a, b)
        }
    }

    /// The lane after frame `f` ran through the bands from `j` on.
    pub open spec fn across(self, rules: Rules, bands: Seq<Band>, j: int, f: int) -> Lane
        decreases 4 - j,
    {
        if j >= 4 {
            self
        } else {
            self.one(rules, bands, j, f).across(rules, bands, j + 1, f)
        }
    }

    /// The lane after the frames `a..b` ran through all bands, one frame at a time.
    pub open spec fn by_frames(self, rules: Rules, bands: Seq<Band>, a: int, b: int) -> Lane
        decreases b - a,
    {
        if a >= b {
            self
        } else {
            self.across(rules, bands, 0, a).by_frames(rules, bands, a + 1, b)
        }
    }

    /// The frames `lo..hi` alone.
    pub open spec fn part(self, lo: int, hi: int) -> Lane {
        Lane { row: self.row.subrange(lo, hi), ..self }
    }
}

proof fn lemma_across_one(rules: Rules, bands: Seq<Band>, l: Lane, i: int, f: int, j: int, g: int)
    requires
        0 <= j < i <= 4,
        f != g,
        0 <= f < l.row.len(),
        0 <= g < l.row.len(),
        l.memories.len() == 4,
    ensures
        l.one(rules, bands, j, g).across(rules, bands, i, f) == l.across(rules, bands, i, f).one(
            rules,
            bands,
            j,
            g,
        ),
    decreases 4 - i,
{
    if i < 4 {
        let a = l.one(rules, bands, j, g).one(rules, bands, i, f);
        let b = l.one(rules, bands, i, f).one(rules, bands, j, g);
        assert(a.memories =~= b.memories);
        assert(a.row =~= b.row);
        lemma_across_one(rules, bands, l.one(rules, bands, i, f), i + 1, f, j, g);
    }
}

proof fn lemma_sizes(rules: Rules, bands: Seq<Band>, l: Lane, j: int, f: int)
    requires
        0 <= j,
        0 <= f < l.row.len(),
        l.memories.len() == 4,
    ensures
        l.across(rules, bands, j, f).row.len() == l.row.len(),
        l.across(rules, bands, j, f).memories.len() == 4,
    decreases 4 - j,
{
    if j < 4 {
        lemma_sizes(rules, bands, l.one(rules, bands, j, f), j + 1, f);
    }
}

proof fn lemma_across_along(
    rules: Rules,
    bands: Seq<Band>,
    l: Lane,
    i: int,
    f: int,
    j: int,
    a: int,
    b: int,
)
    requires
        0 <= j < i <= 4,
        0 <= f < a,
        b <= l.row.len(),
        f < l.row.len(),
        l.memories.len() == 4,
    ensures
        l.along(rules, bands, j, a, b).across(rules, bands, i, f) == l.across(
            rules,
            bands,
            i,
            f,
        ).along(rules, bands, j, a, b),
    decreases b - a,
{
    if a < b {
        lemma_across_one(rules, bands, l, i, f, j, a);
        lemma_across_along(rules, bands, l.one(rules, bands, j, a), i, f, j, a + 1, b);
    }
}

proof fn lemma_no_frames(rules: Rules, bands: Seq<Band>, l: Lane, j: int, a: int)
    ensures
        l.by_bands(rules, bands, j, a, a) == l,
    decreases 4 - j,
{
    if j < 4 {
        lemma_no_frames(rules, bands, l, j + 1, a);
    }
}

proof fn lemma_first_frame(rules: Rules, bands: Seq<Band>, l: Lane, j: int, a: int, b: int)
    requires
        0 <= j,
        0 <= a < b <= l.row.len(),
        l.memories.len() == 4,
    ensures
        l.by_bands(rules, bands, j, a, b) == l.across(rules, bands, j, a).by_bands(
            rules,
            bands,
            j,
            a + 1,
            b,
        ),
    decreases 4 - j,
{
    if j < 4 {
        let first = l.one(rules, bands, j, a);
        lemma_along_sizes(rules, bands, l, j, a, b);
        lemma_first_frame(rules, bands, l.along(rules, bands, j, a, b), j + 1, a, b);
        lemma_across_along(rules, bands, first, j + 1, a, j, a + 1, b);
    }
}

proof fn lemma_along_sizes(rules: Rules, bands: Seq<Band>, l: Lane, j: int, a: int, b: int)
    requires
        0 <= j < 4,
        0 <= a,
        b <= l.row.len(),
        l.memories.len() == 4,
    ensures
        l.along(rules, bands, j, a, b).row.len() == l.row.len(),
        l.along(rules, bands, j, a, b).memories.len() == 4,
    decreases b - a,
{
    if a < b {
        lemma_along_sizes(rules, bands, l.one(rules, bands, j, a), j, a + 1, b);
    }
}

proof fn lemma_bands_or_frames(rules: Rules, bands: Seq<Band>, l: Lane, a: int, b: int)
    requires
        0 <= a <= b <= l.row.len(),
        l.memories.len() == 4,
    ensures
        l.by_bands(rules, bands, 0, a, b) == l.by_frames(rules, bands, a, b),
    decreases b - a,
{
    if a < b {
        lemma_first_frame(rules, bands, l, 0, a, b);
        lemma_sizes(rules, bands, l, 0, a);
        lemma_bands_or_frames(rules, bands, l.across(rules, bands, 0, a), a + 1, b);
    } else {
        lemma_no_frames(rules, bands, l, 0, a);
    }
}

proof fn lemma_frames_join(rules: Rules, bands: Seq<Band>, l: Lane, a: int, b: int, c: int)
    requires
        a <= b <= c,
    ensures
        l.by_frames(rules, bands, a, c) == l.by_frames(rules, bands, a, b).by_frames(
            rules,
            bands,
            b,
            c,
        ),
    decreases b - a,
{
    if a < b {
        lemma_frames_join(rules, bands, l.across(rules, bands, 0, a), a + 1, b, c);
    }
}

proof fn lemma_across_part(
    rules: Rules,
    bands: Seq<Band>,
    l: Lane,
    j: int,
    f: int,
    lo: int,
    hi: int,
)
    requires
        0 <= lo <= f < hi <= l.row.len(),
    ensures
        ({
            let all = l.across(rules, bands, j, f);
            &&& l.part(lo, hi).across(rules, bands, j, f - lo) == all.part(lo, hi)
            &&& all.row.take(lo) == l.row.take(lo)
            &&& all.row.skip(hi) == l.row.skip(hi)
            &&& all.row.len() == l.row.len()
        }),
    decreases 4 - j,
{
    if j < 4 {
        let next = l.one(rules, bands, j, f);
        let inner = l.part(lo, hi).one(rules, bands, j, f - lo);
        assert(inner.row =~= next.part(lo, hi).row);
        assert(next.row.take(lo) =~= l.row.take(lo));
        assert(next.row.skip(hi) =~= l.row.skip(hi));
        assert(inner == next.part(lo, hi));
        lemma_across_part(rules, bands, next, j + 1, f, lo, hi);
    }
}

proof fn lemma_frames_part(
    rules: Rules,
    bands: Seq<Band>,
    l: Lane,
    a: int,
    b: int,
    lo: int,
    hi: int,
)
    requires
        0 <= lo <= a <= b <= hi <= l.row.len(),
    ensures
        ({
            let all = l.by_frames(rules, bands, a, b);
            &&& l.part(lo, hi).by_frames(rules, bands, a - lo, b - lo) == all.part(lo, hi)
            &&& all.row.take(lo) == l.row.take(lo)
            &&& all.row.skip(hi) == l.row.skip(hi)
            &&& all.row.len() == l.row.len()
        }),
    decreases b - a,
{
    if a < b {
        lemma_across_part(rules, bands, l, 0, a, lo, hi);
        lemma_frames_part(rules, bands, l.across(rules, bands, 0, a), a + 1, b, lo, hi);
    }
}

/// Two bands that differ at most in what they remember of the first `channels` channels.
pub open spec fn alike(one: Band, other: Band, channels: int) -> bool {
    &&& other == (Band {
        filter: Biquad { left: other.filter.left, right: other.filter.right, ..one.filter },
        ..one
    })
    &&& channels <= 0 ==> other.filter.left == one.filter.left
    &&& channels <= 1 ==> other.filter.right == one.filter.right
}

proof fn lemma_filtered_lane(
    rules: Rules,
    bands: Seq<Band>,
    band: Band,
    l: Lane,
    j: int,
    ch: int,
    a: int,
    b: int,
    channels: int,
)
    requires
        0 <= j < 4,
        0 <= ch < channels <= 2,
        0 <= a <= b <= l.row.len(),
        l.memories.len() == 4,
        bands[j].enabled,
        alike(bands[j], band, channels),
        l.memories[j] == band.filter.channel(ch),
    ensures
        ({
            let (after, row) = filtered(rules, band, ch, l.row, a, b);
            let lane = l.along(rules, bands, j, a, b);
            &&& alike(bands[j], after, channels)
            &&& lane.row == row
            &&& lane.memories == l.memories.update(j, after.filter.channel(ch))
            &&& after.filter.channel(1 - ch) == band.filter.channel(1 - ch)
            &&& row.len() == l.row.len()
        }),
    decreases b - a,
{
    if a < b {
        let (y, z1, z2) = (rules.sample)(band.filter.coeffs, band.filter.channel(ch), l.row[a]);
        let next = l.one(rules, bands, j, a);
        lemma_filtered_lane(
            rules,
            bands,
            band.past(ch, z1, z2),
            next,
            j,
            ch,
            a + 1,
            b,
            channels,
        );
        assert(l.along(rules, bands, j, a, b).memories =~= l.memories.update(
            j,
            filtered(rules, band, ch, l.row, a, b).0.filter.channel(ch),
        ));
    } else {
        assert(l.memories =~= l.memories.update(j, band.filter.channel(ch)));
    }
}

proof fn lemma_rest(walk: EqWalk, rules: Rules, bands: Seq<Band>, state: Run, c: int)
    requires
        walk.wf(),
        state.wf(walk.channels as int, walk.frames as int),
        state.at_rest(),
        bands.len() == 4,
        forall|i: int|
            0 <= i < 4 ==> alike(#[trigger] bands[i], state.bands[i], walk.channels as int),
    ensures
        ({
            let after = walk.run(rules, state);
            let end = crate::dsp::eq::piece_end(walk.frames as int, walk.off as int);
            let j = if walk.stage <= 4 + 4 * c {
                0
            } else {
                walk.stage - 4 - 4 * c
            };
            &&& after.wf(walk.channels as int, walk.frames as int)
            &&& forall|i: int|
                0 <= i < 4 ==> alike(#[trigger] bands[i], after.bands[i], walk.channels as int)
            &&& walk.off < walk.frames && 0 <= c < walk.channels ==> after.lane(c) == state.lane(
                c,
            ).by_bands(rules, bands, j, walk.off as int, end).by_frames(rules, bands, end, walk.frames as int)
            &&& walk.off == walk.frames ==> after == state
        }),
    decreases walk.frames - walk.off, walk.stages() - walk.stage,
{
    let n = walk.frames as int;
    if walk.off < walk.frames {
        let end = crate::dsp::eq::piece_end(n, walk.off as int);
        let channels = walk.channels as int;
        if walk.stage >= walk.stages() {
            lemma_rest(walk.further(), rules, bands, state, c);
            if end < n && 0 <= c < channels {
                let next = crate::dsp::eq::piece_end(n, end);
                lemma_bands_or_frames(rules, bands, state.lane(c), end, next);
                lemma_frames_join(rules, bands, state.lane(c), end, next, n);
            }
        } else if walk.stage < 4 {
            assert(!state.bands[walk.stage as int].moving());
            lemma_rest(walk.further(), rules, bands, state, c);
        } else {
            let ch = (walk.stage - 4) / 4;
            let band = (walk.stage - 4) % 4;
            assert(alike(bands[band], state.bands[band], channels));
            if state.bands[band].enabled {
                let now = state.done(rules, walk.action());
                lemma_filtered_lane(
                    rules,
                    bands,
                    state.bands[band],
                    state.lane(ch),
                    band,
                    ch,
                    walk.off as int,
                    end,
                    channels,
                );
                let there = state.lane(ch).along(rules, bands, band, walk.off as int, end);
                assert forall|i: int| 0 <= i < 4 implies alike(
                    #[trigger] bands[i],
                    now.bands[i],
                    channels,
                ) by {
                    assert(alike(bands[i], state.bands[i], channels));
                }
                assert forall|i: int| 0 <= i < now.bands.len() implies !(
                #[trigger] now.bands[i]).moving() by {
                    assert(!state.bands[i].moving());
                    assert(alike(bands[i], state.bands[i], channels));
                    assert(alike(bands[i], now.bands[i], channels));
                }
                if ch == c {
                    assert(now.lane(c).memories =~= there.memories);
                    assert(now.lane(c) == there);
                } else if 0 <= c < channels {
                    assert(now.lane(c).memories =~= state.lane(c).memories);
                    assert(now.lane(c) == state.lane(c));
                }
                lemma_rest(walk.further(), rules, bands, now, c);
            } else {
                lemma_still(rules, bands, state.lane(c), band, walk.off as int, end);
                lemma_rest(walk.further(), rules, bands, state, c);
            }
        }
    }
}

proof fn lemma_still(rules: Rules, bands: Seq<Band>, l: Lane, j: int, a: int, b: int)
    requires
        !bands[j].enabled,
    ensures
        l.along(rules, bands, j, a, b) == l,
    decreases b - a,
{
    if a < b {
        lemma_still(rules, bands, l, j, a + 1, b);
    }
}

proof fn lemma_whole_lane(
    rules: Rules,
    bands: Seq<Band>,
    state: Run,
    channels: int,
    n: int,
    c: int,
)
    requires
        0 <= channels <= 2,
        0 <= n <= usize::MAX,
        state.wf(channels, n),
        state.at_rest(),
        bands.len() == 4,
        forall|i: int| 0 <= i < 4 ==> alike(#[trigger] bands[i], state.bands[i], channels),
    ensures
        ({
            let after = EqWalk::over(n, channels).run(rules, state);
            &&& after.wf(channels, n)
            &&& forall|i: int| 0 <= i < 4 ==> alike(#[trigger] bands[i], after.bands[i], channels)
            &&& 0 <= c < channels ==> after.lane(c) == state.lane(c).by_frames(rules, bands, 0, n)
        }),
{
    let walk = EqWalk::over(n, channels);
    lemma_rest(walk, rules, bands, state, c);
    if n > 0 && 0 <= c < channels {
        let end = crate::dsp::eq::piece_end(n, 0);
        lemma_bands_or_frames(rules, bands, state.lane(c), 0, end);
        lemma_frames_join(rules, bands, state.lane(c), 0, end, n);
    }
}

proof fn lemma_cut_lane(rules: Rules, state: Run, channels: int, n: int, k: int, c: int)
    requires
        0 <= channels <= 2,
        0 <= k <= n <= usize::MAX,
        state.wf(channels, n),
        state.at_rest(),
    ensures
        ({
            let whole = EqWalk::over(n, channels).run(rules, state);
            let first = EqWalk::over(k, channels).run(rules, state.part(0, k));
            let rest = Run { bands: first.bands, ..state.part(k, n) };
            let second = EqWalk::over(n - k, channels).run(rules, rest);
            &&& whole.wf(channels, n)
            &&& first.wf(channels, k)
            &&& second.wf(channels, n - k)
            &&& forall|i: int|
                0 <= i < 4 ==> alike(#[trigger] state.bands[i], whole.bands[i], channels) && alike(
                    state.bands[i],
                    second.bands[i],
                    channels,
                )
            &&& 0 <= c < channels ==> {
                &&& whole.lane(c).memories == second.lane(c).memories
                &&& whole.block[c] == first.block[c] + second.block[c]
            }
        }),
{
    let bands = state.bands;
    let whole = EqWalk::over(n, channels).run(rules, state);
    let first = EqWalk::over(k, channels).run(rules, state.part(0, k));
    let rest = Run { bands: first.bands, ..state.part(k, n) };
    let second = EqWalk::over(n - k, channels).run(rules, rest);
    lemma_whole_lane(rules, bands, state, channels, n, c);
    lemma_whole_lane(rules, bands, state.part(0, k), channels, k, c);
    assert forall|i: int| 0 <= i < rest.bands.len() implies !(
    #[trigger] rest.bands[i]).moving() by {
        assert(alike(bands[i], first.bands[i], channels));
        assert(!bands[i].moving());
    }
    lemma_whole_lane(rules, bands, rest, channels, n - k, c);
    if 0 <= c < channels {
        let l = state.lane(c);
        let mid = l.by_frames(rules, bands, 0, k);
        let end = mid.by_frames(rules, bands, k, n);
        lemma_frames_join(rules, bands, l, 0, k, n);
        lemma_frames_part(rules, bands, l, 0, k, 0, k);
        lemma_frames_part(rules, bands, mid, k, n, k, n);
        assert(state.part(0, k).lane(c) == l.part(0, k));
        assert(mid.row.subrange(k, n) =~= mid.row.skip(k));
        assert(l.row.subrange(k, n) =~= l.row.skip(k));
        assert(rest.lane(c).memories =~= first.lane(c).memories);
        assert(rest.lane(c) == mid.part(k, n));
        assert(mid.row.subrange(0, k) =~= mid.row.take(k));
        assert(end.row =~= end.row.take(k) + end.row.subrange(k, n));
        assert(whole.block[c] == whole.lane(c).row);
        assert(first.block[c] == first.lane(c).row);
        assert(second.block[c] == second.lane(c).row);
    }
}

/// While no band is moving, a block may be cut anywhere: running its first `k` frames and then the
/// rest gives the same samples, and leaves the same bands behind, as running it whole.
pub proof fn resting_blocks_may_be_cut_anywhere(
    rules: Rules,
    state: Run,
    channels: int,
    n: int,
    k: int,
)
    requires
        0 <= channels <= 2,
        0 <= k <= n <= usize::MAX,
        state.wf(channels, n),
        state.at_rest(),
    ensures
        ({
            let first = EqWalk::over(k, channels).run(rules, state.part(0, k));
            let rest = Run { bands: first.bands, ..state.part(k, n) };
            let second = EqWalk::over(n - k, channels).run(rules, rest);
            EqWalk::over(n, channels).run(rules, state) == first.followed_by(second)
        }),
{
    let whole = EqWalk::over(n, channels).run(rules, state);
    let first = EqWalk::over(k, channels).run(rules, state.part(0, k));
    let rest = Run { bands: first.bands, ..state.part(k, n) };
    let second = EqWalk::over(n - k, channels).run(rules, rest);
    lemma_cut_lane(rules, state, channels, n, k, 0);
    lemma_cut_lane(rules, state, channels, n, k, 1);
    assert forall|i: int| 0 <= i < 4 implies whole.bands[i] == second.bands[i] by {
        assert(alike(state.bands[i], whole.bands[i], channels));
        assert(alike(state.bands[i], second.bands[i], channels));
        if channels > 0 {
            assert(whole.lane(0).memories[i] == second.lane(0).memories[i]);
        }
        if channels > 1 {
            assert(whole.lane(1).memories[i] == second.lane(1).memories[i]);
        }
    }
    assert(whole.bands =~= second.bands);
    assert(whole.block =~= first.followed_by(second).block);
}

proof fn lemma_part(walk: EqWalk, rules: Rules, state: Run, lo: int, hi: int)
    requires
        walk.wf(),
        0 <= lo <= walk.off <= hi <= walk.frames,
        hi == walk.frames || (hi - lo) % (CONTROL_BLOCK as int) == 0,
        walk.off == hi || (walk.off - lo) % (CONTROL_BLOCK as int) == 0,
        walk.off == hi ==> walk.stage == 0,
        state.wf(walk.channels as int, walk.frames as int),
    ensures
        ({
            let inner = EqWalk {
                frames: (hi - lo) as usize,
                off: (walk.off - lo) as usize,
                ..walk
            };
            let after = inner.run(rules, state.part(lo, hi));
            &&& after.wf(walk.channels as int, hi - lo)
            &&& state.patched(after, lo, hi).wf(walk.channels as int, walk.frames as int)
            &&& walk.run(rules, state) == EqWalk { off: hi as usize, stage: 0, ..walk }.run(
                rules,
                state.patched(after, lo, hi),
            )
        }),
    decreases walk.frames - walk.off, walk.stages() - walk.stage,
{
    let n = walk.frames as int;
    let inner = EqWalk { frames: (hi - lo) as usize, off: (walk.off - lo) as usize, ..walk };
    let part = state.part(lo, hi);
    if walk.off == hi {
        assert(state.patched(part, lo, hi) =~= state) by {
            assert forall|c: int| 0 <= c < walk.channels implies state.patched(
                part,
                lo,
                hi,
            ).block[c] =~= state.block[c] by {}
        }
    } else {
        let end = crate::dsp::eq::piece_end(n, walk.off as int);
        assert(end == crate::dsp::eq::piece_end(hi - lo, walk.off - lo) + lo);
        let acts = walk.stage < walk.stages() && walk.busy(state.bands);
        let now = if acts {
            state.done(rules, walk.action())
        } else {
            state
        };
        let inner_now = if acts {
            part.done(rules, inner.action())
        } else {
            part
        };
        if acts && walk.stage >= 4 {
            let ch = (walk.stage - 4) / 4;
            let band = (walk.stage - 4) % 4;
            lemma_filtered_part(
                rules,
                state.bands[band],
                ch,
                state.block[ch],
                walk.off as int,
                end,
                lo,
                hi,
            );
        }
        assert(now.part(lo, hi) =~= inner_now) by {
            assert forall|c: int| 0 <= c < walk.channels implies now.part(lo, hi).block[c]
                =~= inner_now.block[c] by {}
        }
        lemma_part(walk.further(), rules, now, lo, hi);
        let after = inner.run(rules, part);
        assert(state.patched(after, lo, hi) =~= now.patched(after, lo, hi)) by {
            assert forall|c: int| 0 <= c < walk.channels implies state.patched(
                after,
                lo,
                hi,
            ).block[c] =~= now.patched(after, lo, hi).block[c] by {}
        }
    }
}

proof fn lemma_filtered_part(
    rules: Rules,
    band: Band,
    ch: int,
    samples: Seq<Single>,
    from: int,
    to: int,
    lo: int,
    hi: int,
)
    requires
        0 <= lo <= from <= to <= hi <= samples.len(),
    ensures
        ({
            let (b, all) = filtered(rules, band, ch, samples, from, to);
            &&& filtered(rules, band, ch, samples.subrange(lo, hi), from - lo, to - lo) == (
                b,
                all.subrange(lo, hi),
            )
            &&& all.len() == samples.len()
            &&& all.take(lo) == samples.take(lo)
            &&& all.skip(hi) == samples.skip(hi)
        }),
    decreases to - from,
{
    if from < to {
        let (y, z1, z2) = (rules.sample)(
            band.filter.coeffs,
            band.filter.channel(ch),
            samples[from],
        );
        let next = samples.update(from, y);
        assert(next.subrange(lo, hi) =~= samples.subrange(lo, hi).update(from - lo, y));
        assert(next.take(lo) =~= samples.take(lo));
        assert(next.skip(hi) =~= samples.skip(hi));
        lemma_filtered_part(rules, band.past(ch, z1, z2), ch, next, from + 1, to, lo, hi);
    }
}

} // verus!
