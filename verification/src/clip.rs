//! [`AudioClip`]: decoded audio held in memory, and the summary of it that a waveform display draws.

use vstd::prelude::*;
use crate::single::{Single, INFINITY, NEG_INFINITY};

verus! {

/// Decoded audio. It does not change once it is built, so threads share it without locks.
#[derive(Debug, Clone)]
pub struct AudioClip {
    /// Frames per second of the recording.
    pub sample_rate: u32,
    /// Number of channels.
    pub channels: usize,
    /// Number of frames, that is of samples per channel.
    pub frames: usize,
    /// The samples: `data[channel][frame]`.
    pub data: Vec<Vec<Single>>,
}

/// A quotient that is left to the caller to round.
#[derive(Clone, Copy, Debug, PartialEq, Eq, Structural)]
pub struct Fraction {
    pub num: i128,
    pub den: u64,
}

/// The extremes of a signal in each column of a display.
#[derive(Debug)]
pub struct Waveform {
    pub min: Vec<Single>,
    pub max: Vec<Single>,
}

/// Whether all channels have the length of the first.
pub open spec fn even(data: Seq<Vec<Single>>) -> bool {
    forall|c: int| 0 <= c < data.len() ==> (#[trigger] data[c])@.len() == data[0]@.len()
}

/// The smallest of the samples, or positive infinity where there is none.
pub open spec fn lowest(samples: Seq<Single>) -> Single
    decreases samples.len(),
{
    if samples.len() == 0 {
        Single::of(INFINITY)
    } else {
        lowest(samples.drop_last()).smaller(samples.last())
    }
}

/// The largest of the samples, or negative infinity where there is none.
pub open spec fn highest(samples: Seq<Single>) -> Single
    decreases samples.len(),
{
    if samples.len() == 0 {
        Single::of(NEG_INFINITY)
    } else {
        highest(samples.drop_last()).larger(samples.last())
    }
}

/// The number of columns for a wish of `buckets`: none is empty.
pub open spec fn columns(frames: int, buckets: int) -> int {
    if buckets <= frames {
        buckets
    } else {
        frames
    }
}

/// The first frame of column `b` out of `count`.
pub open spec fn column_start(b: int, frames: int, count: int) -> int {
    b * frames / count
}

/// The samples that column `b` out of `count` stands for.
pub open spec fn column(mono: Seq<Single>, b: int, count: int) -> Seq<Single> {
    mono.subrange(
        column_start(b, mono.len() as int, count),
        column_start(b + 1, mono.len() as int, count),
    )
}

impl AudioClip {
    /// What every clip satisfies: there are channels, and all are `frames` long.
    pub open spec fn wf(self) -> bool {
        &&& self.channels == self.data@.len()
        &&& self.channels > 0
        &&& self.frames == self.data@[0]@.len()
        &&& even(self.data@)
    }

    /// Build a clip from its channels. Channels of different lengths, and none at all, are
    /// refused.
    pub fn new(sample_rate: u32, data: Vec<Vec<Single>>) -> (r: Result<Self, String>)
        ensures
            r is Ok <==> data@.len() > 0 && even(data@),
            r matches Ok(clip) ==> clip.wf() && clip.sample_rate == sample_rate && clip.data
                == data,
            r matches Err(e) ==> e@ == (if data@.len() == 0 {
                "audio clip has no channels"@
            } else {
                "audio clip channels have mismatched lengths"@
            }),
    {
        let channels: usize = data.len();
        if channels == 0 {
            return Err("audio clip has no channels".to_owned());
        }
        let frames: usize = data[0].len();
        for c in 0..channels
            invariant
                channels == data@.len(),
                channels > 0,
                frames == data@[0]@.len(),
                forall|k: int| 0 <= k < c ==> (#[trigger] data@[k])@.len() == frames,
        {
            if data[c].len() != frames {
                return Err("audio clip channels have mismatched lengths".to_owned());
            }
        }
        Ok(AudioClip { sample_rate, channels, frames, data })
    }

    /// Whether the clip has channels, all of the length it claims.
    pub fn is_sound(&self) -> (r: bool)
        ensures
            r == self.wf(),
    {
        let channels: usize = self.data.len();
        if channels == 0 || channels != self.channels {
            return false;
        }
        for c in 0..channels
            invariant
                channels == self.data@.len(),
                channels == self.channels,
                channels > 0,
                forall|k: int| 0 <= k < c ==> (#[trigger] self.data@[k])@.len() == self.frames,
        {
            if self.data[c].len() != self.frames {
                proof {
                    assert(self.wf() ==> self.data@[c as int]@.len() == self.data@[0]@.len());
                }
                return false;
            }
        }
        true
    }

    /// The channels that are heard left and right: a clip with one channel is heard on both sides,
    /// and of several the first two are heard.
    pub fn sides(&self) -> (r: (usize, usize))
        requires
            self.wf(),
        ensures
            r == (if self.channels == 1 {
                (0usize, 0usize)
            } else {
                (0usize, 1usize)
            }),
            r.0 < self.data@.len(),
            r.1 < self.data@.len(),
    {
        if self.channels == 1 {
            (0, 0)
        } else {
            (0, 1)
        }
    }

    /// The length in seconds, as frames over rate. A clip without a rate has no length.
    pub fn duration_secs(&self) -> (r: Fraction)
        ensures
            r.den > 0,
            r == (if self.sample_rate == 0 {
                Fraction { num: 0, den: 1 }
            } else {
                Fraction { num: self.frames as i128, den: self.sample_rate as u64 }
            }),
    {
        if self.sample_rate == 0 {
            return Fraction { num: 0, den: 1 };
        }
        Fraction { num: self.frames as i128, den: self.sample_rate as u64 }
    }

    /// Summarize the clip in at most `buckets` columns. `mono` is the average of the channels,
    /// frame by frame.
    pub fn waveform(&self, mono: &[Single], buckets: usize) -> (r: Waveform)
        requires
            mono@.len() == self.frames,
        ensures
            r.min@.len() == columns(self.frames as int, buckets as int),
            r.max@.len() == r.min@.len(),
            forall|b: int|
                0 <= b < r.min@.len() ==> #[trigger] r.min@[b] == lowest(
                    column(mono@, b, r.min@.len() as int),
                ),
            forall|b: int|
                0 <= b < r.max@.len() ==> #[trigger] r.max@[b] == highest(
                    column(mono@, b, r.max@.len() as int),
                ),
    {
        let mut min: Vec<Single> = Vec::new();
        let mut max: Vec<Single> = Vec::new();
        let frames: usize = self.frames;
        let count: usize = if buckets <= frames {
            buckets
        } else {
            frames
        };
        for b in 0..count
            invariant
                mono@.len() == frames,
                count <= frames,
                min@.len() == b,
                max@.len() == b,
                forall|k: int|
                    0 <= k < b ==> #[trigger] min@[k] == lowest(column(mono@, k, count as int)),
                forall|k: int|
                    0 <= k < b ==> #[trigger] max@[k] == highest(column(mono@, k, count as int)),
        {
            proof {
                lemma_column_bounds(b as int, frames as int, count as int);
                lemma_product_fits(b as int, frames as int);
                lemma_product_fits(b + 1, frames as int);
            }
            let start: usize = (b as u128 * frames as u128 / count as u128) as usize;
            let end: usize = ((b as u128 + 1) * frames as u128 / count as u128) as usize;
            let mut lo = Single::of(INFINITY);
            let mut hi = Single::of(NEG_INFINITY);
            assert(mono@.subrange(start as int, start as int) =~= Seq::<Single>::empty());
            for f in start..end
                invariant
                    start <= f <= end <= mono@.len(),
                    lo == lowest(mono@.subrange(start as int, f as int)),
                    hi == highest(mono@.subrange(start as int, f as int)),
            {
                proof {
                    let longer = mono@.subrange(start as int, f + 1);
                    assert(longer.drop_last() =~= mono@.subrange(start as int, f as int));
                    assert(longer.last() == mono@[f as int]);
                }
                lo = lo.min(mono[f]);
                hi = hi.max(mono[f]);
            }
            min.push(lo);
            max.push(hi);
        }
        Waveform { min, max }
    }
}

proof fn lemma_product_fits(a: int, b: int)
    requires
        0 <= a <= u64::MAX,
        0 <= b <= u64::MAX,
    ensures
        0 <= a * b <= u128::MAX,
{
    assert(0 <= a * b <= u64::MAX * u64::MAX) by (nonlinear_arith)
        requires
            0 <= a <= u64::MAX,
            0 <= b <= u64::MAX,
    ;
}

proof fn lemma_column_bounds(b: int, frames: int, count: int)
    requires
        0 <= b < count <= frames,
    ensures
        0 <= column_start(b, frames, count) < column_start(b + 1, frames, count) <= frames,
{
    let x = b * frames;
    let y = (b + 1) * frames;
    assert(0 <= x && x + count <= y && y <= frames * count) by (nonlinear_arith)
        requires
            x == b * frames,
            y == (b + 1) * frames,
            0 <= b < count <= frames,
    ;
    vstd::arithmetic::div_mod::lemma_div_pos_is_pos(x, count);
    vstd::arithmetic::div_mod::lemma_div_is_ordered(x + count, y, count);
    vstd::arithmetic::div_mod::lemma_div_plus_one(x, count);
    vstd::arithmetic::div_mod::lemma_div_is_ordered(y, frames * count, count);
    vstd::arithmetic::div_mod::lemma_div_by_multiple(frames, count);
}

/// The columns of a waveform cut the clip into pieces: the first starts at the first frame, each
/// ends where the next one starts, the last ends with the clip, and none is empty.
pub proof fn columns_partition_the_clip(b: int, frames: int, count: int)
    requires
        0 <= b < count <= frames,
    ensures
        column_start(0, frames, count) == 0,
        column_start(count, frames, count) == frames,
        column_start(b, frames, count) < column_start(b + 1, frames, count),
{
    lemma_column_bounds(b, frames, count);
    assert(0 * frames / count == 0) by (nonlinear_arith)
        requires
            count > 0,
    ;
    vstd::arithmetic::div_mod::lemma_div_by_multiple(frames, count);
    assert(count * frames == frames * count) by (nonlinear_arith);
}

/// The extremes of a stretch of samples bracket every sample of it that is a number, and are
/// themselves numbers.
pub proof fn extremes_bracket(samples: Seq<Single>, i: int)
    requires
        0 <= i < samples.len(),
    ensures
        !samples[i].nan() ==> lowest(samples).at_most(samples[i]) && samples[i].at_most(
            highest(samples),
        ),
        !lowest(samples).nan(),
        !highest(samples).nan(),
    decreases samples.len(),
{
    reveal_with_fuel(lowest, 2);
    reveal_with_fuel(highest, 2);
    let rest = samples.drop_last();
    if rest.len() > 0 {
        if i < rest.len() {
            extremes_bracket(rest, i);
        } else {
            extremes_bracket(rest, 0);
        }
    }
}

/// The extremes of some samples are among them, as long as one of them is a number, and are numbers.
pub proof fn extremes_are_samples(samples: Seq<Single>, i: int)
    requires
        0 <= i < samples.len(),
        !samples[i].nan(),
    ensures
        samples.contains(lowest(samples)),
        samples.contains(highest(samples)),
        !lowest(samples).nan(),
        !highest(samples).nan(),
{
    lemma_extremes(samples);
    extremes_bracket(samples, i);
    assert(samples.contains(samples[i]));
}

/// A column holds the samples of its frames, in order, and so all columns together hold all of them.
pub proof fn columns_hold_their_frames(mono: Seq<Single>, b: int, count: int, i: int)
    requires
        0 <= b < count <= mono.len(),
        b * mono.len() / count <= i < (b + 1) * mono.len() / count,
    ensures
        ({
            let start = b * mono.len() / count;
            &&& 0 <= i < mono.len()
            &&& 0 <= i - start < column(mono, b, count).len()
            &&& column(mono, b, count)[i - start] == mono[i]
            &&& column(mono, b, count).len() == (b + 1) * mono.len() / count - start
        }),
{
    columns_partition_the_clip(b, mono.len() as int, count);
    lemma_column_bounds(b, mono.len() as int, count);
}

proof fn lemma_extremes(samples: Seq<Single>)
    ensures
        samples.contains(lowest(samples)) || lowest(samples) == Single::of(INFINITY),
        samples.contains(highest(samples)) || highest(samples) == Single::of(
            crate::single::NEG_INFINITY,
        ),
        !lowest(samples).nan(),
        !highest(samples).nan(),
    decreases samples.len(),
{
    if samples.len() > 0 {
        let rest = samples.drop_last();
        lemma_extremes(rest);
        assert(samples[samples.len() - 1] == samples.last());
        if rest.contains(lowest(rest)) {
            let i = choose|i: int| 0 <= i < rest.len() && rest[i] == lowest(rest);
            assert(samples[i] == lowest(rest));
        }
        if rest.contains(highest(rest)) {
            let i = choose|i: int| 0 <= i < rest.len() && rest[i] == highest(rest);
            assert(samples[i] == highest(rest));
        }
    }
}

/// Columns divide a clip evenly: there are as many as were asked for, but no more than frames, and
/// the first frame of column `b` is the first at or after `b / count` of the way, rounded down.
pub proof fn columns_are_even(b: int, frames: int, buckets: int)
    requires
        0 < frames,
        0 < buckets,
        0 <= b <= columns(frames, buckets),
    ensures
        ({
            let count = columns(frames, buckets);
            let start = column_start(b, frames, count);
            &&& count <= frames
            &&& count <= buckets
            &&& count == frames || count == buckets
            &&& start * count <= b * frames
            &&& b * frames < (start + 1) * count
        }),
{
    let count = columns(frames, buckets);
    let start = column_start(b, frames, count);
    vstd::arithmetic::div_mod::lemma_fundamental_div_mod(b * frames, count);
    vstd::arithmetic::div_mod::lemma_mod_division_less_than_divisor(b * frames, count);
    assert(count * start == start * count) by (nonlinear_arith);
    assert((start + 1) * count == start * count + count) by (nonlinear_arith);
}

/// A clip is sound where it has channels, as many as it claims, each of the length that it claims.
pub proof fn sound_clips_are_as_they_claim(clip: AudioClip)
    ensures
        clip.wf() <==> {
            &&& clip.channels > 0
            &&& clip.data@.len() == clip.channels
            &&& forall|c: int|
                0 <= c < clip.data@.len() ==> (#[trigger] clip.data@[c])@.len() == clip.frames
        },
{
}

/// Channels are even where any two of them are equally long.
pub proof fn even_channels_are_equally_long(data: Seq<Vec<Single>>)
    ensures
        even(data) <==> forall|c: int, d: int|
            0 <= c < data.len() && 0 <= d < data.len() ==> (#[trigger] data[c])@.len() == (
            #[trigger] data[d])@.len(),
{
}

} // verus!
