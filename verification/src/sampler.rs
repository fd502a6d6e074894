//! [`Sampler`]: the clips that a track has on the timeline.
//!
//! The timeline is counted in device frames. A track has a fixed number of slots, each of which can
//! hold one clip with its place on the timeline; where clips overlap, they add up. Where a clip is
//! read follows from the timeline frame alone, so nothing is carried from one block to the next.
//!
//! As in [`crate::player`], no samples are touched here: a block is answered by the spans of it in
//! which clips are to be read, and where.

use std::sync::Arc;

use vstd::prelude::*;
use crate::clip::AudioClip;
use crate::player::Tap;

verus! {

/// The number of clips that a track can have on the timeline.
pub const MAX_CLIPS_PER_TRACK: usize = 64;

/// A clip with its place on the timeline.
#[derive(Clone)]
pub struct TimelineClip {
    /// What is played.
    pub clip: Arc<AudioClip>,
    /// The device frame on the timeline where it starts.
    pub start_frame: i64,
    /// The number of device frames that it lasts.
    pub length_frames: u32,
    /// The frame of the clip that it starts with.
    pub source_offset_frames: u32,
}

/// A stretch of a block in which one clip is read.
#[derive(Clone, Copy, Debug, PartialEq, Eq, Structural)]
pub struct Span {
    /// The slot of the clip.
    pub slot: usize,
    /// The first frame of the block in which it is read.
    pub start: usize,
    /// The frame of the block before which it ends.
    pub end: usize,
    /// The position in the clip at `start`, in parts of a clip frame.
    pub origin: u128,
    /// The parts by which the position advances from one frame of the block to the next.
    pub step: u32,
    /// The number of parts in a clip frame.
    pub whole: u32,
    /// The number of frames of the clip.
    pub frames: usize,
}

/// The read position `pos`, in parts of which `whole` make a frame, in a clip of `frames` frames.
/// The last frame has no next one and is read as it is.
pub open spec fn tap_at(pos: int, whole: int, frames: int) -> Tap {
    let frame = pos / whole;
    Tap::Read {
        frame: frame as usize,
        next: if frame + 1 < frames {
            (frame + 1) as usize
        } else {
            (frames - 1) as usize
        },
        part: (pos % whole) as u64,
        whole: whole as u64,
    }
}

/// How many device frames it takes to play a whole clip: its frames times the rate of the device
/// over its own rate, rounded up. It is as long as can be where a rate is not known.
pub open spec fn full_length(clip: AudioClip, device_rate: int) -> int {
    if clip.sample_rate == 0 || device_rate == 0 {
        u32::MAX as int
    } else {
        let length = (clip.frames * device_rate + clip.sample_rate - 1) / (clip.sample_rate as int);
        if length < u32::MAX {
            length
        } else {
            u32::MAX as int
        }
    }
}

/// The number of device frames it takes to play a whole clip.
pub fn whole_length(clip: &AudioClip, device_rate: u32) -> (r: u32)
    ensures
        r == full_length(*clip, device_rate as int),
{
    if clip.sample_rate == 0 || device_rate == 0 {
        return u32::MAX;
    }
    proof {
        let frames = clip.frames as int;
        let dev = device_rate as int;
        assert(0 <= frames * dev <= u64::MAX * u32::MAX) by (nonlinear_arith)
            requires
                0 <= frames <= u64::MAX,
                0 <= dev <= u32::MAX,
        ;
    }
    let parts: u128 = clip.frames as u128 * device_rate as u128 + (clip.sample_rate - 1) as u128;
    let length: u128 = parts / clip.sample_rate as u128;
    if length < u32::MAX as u128 {
        length as u32
    } else {
        u32::MAX
    }
}

impl TimelineClip {
    /// What every placed clip satisfies.
    pub open spec fn wf(self) -> bool {
        self.clip.wf()
    }

    /// The timeline frame before which the clip ends.
    pub open spec fn end_frame(self) -> int {
        if self.start_frame + self.length_frames < i64::MAX {
            self.start_frame + self.length_frames
        } else {
            i64::MAX as int
        }
    }

    /// The position in the source at timeline frame `g`, in parts of which `device_rate` make a
    /// source frame.
    pub open spec fn source_pos(self, device_rate: int, g: int) -> int {
        self.source_offset_frames * device_rate + (g - self.start_frame) * self.clip.sample_rate
    }

    /// Whether the clip is heard at timeline frame `g`: the frame lies inside its place, and there
    /// is source left to read. A clip of one frame is too short to read.
    pub open spec fn live(self, device_rate: int, g: int) -> bool {
        &&& self.start_frame <= g < self.end_frame()
        &&& device_rate > 0
        &&& self.clip.sample_rate > 0
        &&& self.clip.frames >= 2
        &&& self.source_pos(device_rate, g) < self.clip.frames * device_rate
    }

    /// Where the clip is read at timeline frame `g`.
    pub open spec fn tap(self, device_rate: int, g: int) -> Tap {
        tap_at(self.source_pos(device_rate, g), device_rate, self.clip.frames as int)
    }

    /// The whole of a clip, placed at `start_frame`. As long as the rate of the device is not known,
    /// it is as long as can be: the clip ends where its source does.
    pub fn whole(clip: Arc<AudioClip>, start_frame: i64) -> (r: Self)
        ensures
            r.clip == clip,
            r.start_frame == start_frame,
            r.length_frames == u32::MAX,
            r.source_offset_frames == 0,
    {
        TimelineClip { clip, start_frame, length_frames: u32::MAX, source_offset_frames: 0 }
    }
}

impl Span {
    /// What every span satisfies: its positions lie inside the clip.
    pub open spec fn wf(self) -> bool {
        &&& self.start < self.end
        &&& self.whole > 0
        &&& self.frames >= 2
        &&& self.pos(self.end - 1) < self.frames * self.whole
    }

    /// Whether the clip is read at frame `f` of the block.
    pub open spec fn covers(self, f: int) -> bool {
        self.start <= f < self.end
    }

    /// The position at frame `f` of the block.
    pub open spec fn pos(self, f: int) -> int {
        self.origin + (f - self.start) * self.step
    }

    /// Where the clip is read at frame `f` of the block.
    pub open spec fn reads(self, f: int) -> Tap {
        tap_at(self.pos(f), self.whole as int, self.frames as int)
    }

    /// Where the clip is read at frame `f` of the block.
    pub fn tap(&self, f: usize) -> (r: Tap)
        requires
            self.wf(),
            self.covers(f as int),
        ensures
            r == self.reads(f as int),
            r matches Tap::Read { frame, next, part, whole } ==> frame < self.frames && next
                < self.frames && part < whole,
    {
        proof {
            lemma_span(*self, f as int);
        }
        let pos: u128 = self.origin + (f - self.start) as u128 * self.step as u128;
        let frame: usize = (pos / self.whole as u128) as usize;
        let next: usize = if frame < self.frames - 1 {
            frame + 1
        } else {
            self.frames - 1
        };
        Tap::Read { frame, next, part: (pos % self.whole as u128) as u64, whole: self.whole as u64 }
    }
}

/// What is heard at timeline frame `g`: the slots that are live there and where each is read, in
/// the order of the slots.
pub open spec fn contributions(
    slots: Seq<Option<TimelineClip>>,
    device_rate: int,
    g: int,
) -> Seq<(int, Tap)>
    decreases slots.len(),
{
    if slots.len() == 0 {
        Seq::empty()
    } else {
        let before = contributions(slots.drop_last(), device_rate, g);
        match slots.last() {
            Some(tc) => if tc.live(device_rate, g) {
                before.push((slots.len() - 1, tc.tap(device_rate, g)))
            } else {
                before
            },
            None => before,
        }
    }
}

/// What is heard at frame `f` of a block that is answered by `spans`.
pub open spec fn heard(spans: Seq<Span>, f: int) -> Seq<(int, Tap)>
    decreases spans.len(),
{
    if spans.len() == 0 {
        Seq::empty()
    } else {
        let before = heard(spans.drop_last(), f);
        let span = spans.last();
        if span.covers(f) {
            before.push((span.slot as int, span.reads(f)))
        } else {
            before
        }
    }
}

/// Whether `spans` answer the block of `frames` frames from timeline frame `global_start` on.
pub open spec fn answers(
    slots: Seq<Option<TimelineClip>>,
    device_rate: int,
    global_start: int,
    frames: int,
    spans: Seq<Span>,
) -> bool {
    &&& forall|k: int|
        0 <= k < spans.len() ==> {
            let span = #[trigger] spans[k];
            &&& span.wf()
            &&& span.end <= frames
            &&& span.slot < slots.len()
            &&& slots[span.slot as int] is Some
            &&& span.frames == slots[span.slot as int]->0.clip.frames
        }
    &&& forall|f: int|
        0 <= f < frames ==> #[trigger] heard(spans, f) == contributions(
            slots,
            device_rate,
            global_start + f,
        )
}

/// The clips in the slots, in order.
pub open spec fn placed(slots: Seq<Option<TimelineClip>>) -> Seq<TimelineClip>
    decreases slots.len(),
{
    if slots.len() == 0 {
        Seq::empty()
    } else {
        let before = placed(slots.drop_last());
        match slots.last() {
            Some(tc) => before.push(tc),
            None => before,
        }
    }
}

/// The slots after the first `count` clips were taken out.
pub open spec fn cleared(slots: Seq<Option<TimelineClip>>, count: int) -> Seq<
    Option<TimelineClip>,
> {
    Seq::new(
        slots.len(),
        |i: int|
            if placed(slots.take(i)).len() < count {
                None
            } else {
                slots[i]
            },
    )
}

/// The clips that a track has on the timeline.
pub struct Sampler {
    /// Frames per second of the output device.
    pub device_rate: u32,
    /// The slots. Their number does not change.
    pub slots: Vec<Option<TimelineClip>>,
}

impl Sampler {
    /// What every sampler satisfies.
    pub open spec fn wf(self) -> bool {
        &&& self.slots@.len() == MAX_CLIPS_PER_TRACK
        &&& forall|i: int|
            0 <= i < self.slots@.len() ==> (#[trigger] self.slots@[i] matches Some(tc) ==> tc.wf())
    }

    /// No clip in any slot.
    pub open spec fn empty_slots() -> Seq<Option<TimelineClip>> {
        Seq::new(MAX_CLIPS_PER_TRACK as nat, |i: int| None)
    }

    /// A sampler without clips, for a device of the given rate.
    pub fn new(device_rate: u32) -> (r: Self)
        ensures
            r.wf(),
            r.device_rate == device_rate,
            r.slots@ == Sampler::empty_slots(),
    {
        let mut slots: Vec<Option<TimelineClip>> = Vec::with_capacity(MAX_CLIPS_PER_TRACK);
        for i in 0..MAX_CLIPS_PER_TRACK
            invariant
                slots@.len() == i,
                forall|k: int| 0 <= k < i ==> #[trigger] slots@[k] is None,
        {
            slots.push(None);
        }
        assert(slots@ =~= Sampler::empty_slots());
        Sampler { device_rate, slots }
    }

    /// The number of slots.
    pub fn capacity(&self) -> (r: usize)
        requires
            self.wf(),
        ensures
            r == MAX_CLIPS_PER_TRACK,
    {
        self.slots.len()
    }

    /// The number of slots that hold a clip.
    pub fn active_count(&self) -> (r: usize)
        ensures
            r == placed(self.slots@).len(),
    {
        let mut count: usize = 0;
        let n: usize = self.slots.len();
        assert(self.slots@.take(0) =~= Seq::empty());
        for i in 0..n
            invariant
                n == self.slots@.len(),
                count <= i,
                count == placed(self.slots@.take(i as int)).len(),
        {
            proof {
                let longer = self.slots@.take(i + 1);
                assert(longer.drop_last() =~= self.slots@.take(i as int));
                assert(longer.last() == self.slots@[i as int]);
            }
            if self.slots[i].is_some() {
                count = count + 1;
            }
        }
        assert(self.slots@.take(n as int) =~= self.slots@);
        count
    }

    /// Put a clip into a slot. The clip that was there is handed back and not freed. A slot that
    /// does not exist takes nothing and gives nothing back.
    pub fn set_clip(&mut self, slot: usize, tc: TimelineClip) -> (r: Option<TimelineClip>)
        requires
            old(self).wf(),
            tc.wf(),
        ensures
            final(self).wf(),
            final(self).device_rate == old(self).device_rate,
            slot < MAX_CLIPS_PER_TRACK ==> {
                &&& r == old(self).slots@[slot as int]
                &&& final(self).slots@ == old(self).slots@.update(slot as int, Some(tc))
            },
            slot >= MAX_CLIPS_PER_TRACK ==> r is None && final(self).slots@ == old(self).slots@,
    {
        if slot >= self.slots.len() {
            return None;
        }
        let displaced = self.slots[slot].take();
        self.slots[slot] = Some(tc);
        displaced
    }

    /// Take the clip out of a slot, if there is one, and hand it back.
    pub fn clear_clip(&mut self, slot: usize) -> (r: Option<TimelineClip>)
        requires
            old(self).wf(),
        ensures
            final(self).wf(),
            final(self).device_rate == old(self).device_rate,
            slot < MAX_CLIPS_PER_TRACK ==> {
                &&& r == old(self).slots@[slot as int]
                &&& final(self).slots@ == old(self).slots@.update(slot as int, None)
            },
            slot >= MAX_CLIPS_PER_TRACK ==> r is None && final(self).slots@ == old(self).slots@,
    {
        if slot >= self.slots.len() {
            return None;
        }
        self.slots[slot].take()
    }

    /// The slots after the clip in one of them was changed. An empty slot, and one that does not
    /// exist, has nothing to change.
    pub open spec fn edited(
        slots: Seq<Option<TimelineClip>>,
        slot: int,
        edit: spec_fn(TimelineClip) -> TimelineClip,
    ) -> Seq<Option<TimelineClip>> {
        if 0 <= slot < slots.len() && slots[slot] is Some {
            slots.update(slot, Some(edit(slots[slot]->0)))
        } else {
            slots
        }
    }

    /// Move a clip on the timeline.
    pub fn set_clip_start(&mut self, slot: usize, start_frame: i64)
        requires
            old(self).wf(),
        ensures
            final(self).wf(),
            final(self).device_rate == old(self).device_rate,
            final(self).slots@ == Sampler::edited(
                old(self).slots@,
                slot as int,
                |tc: TimelineClip| (TimelineClip { start_frame, ..tc }),
            ),
    {
        if slot < self.slots.len() {
            if let Some(tc) = &mut self.slots[slot] {
                tc.start_frame = start_frame;
            }
        }
    }

    /// Change how long a clip lasts on the timeline.
    pub fn set_clip_length(&mut self, slot: usize, length_frames: u32)
        requires
            old(self).wf(),
        ensures
            final(self).wf(),
            final(self).device_rate == old(self).device_rate,
            final(self).slots@ == Sampler::edited(
                old(self).slots@,
                slot as int,
                |tc: TimelineClip| (TimelineClip { length_frames, ..tc }),
            ),
    {
        if slot < self.slots.len() {
            if let Some(tc) = &mut self.slots[slot] {
                tc.length_frames = length_frames;
            }
        }
    }

    /// Change the source frame that a clip starts with.
    pub fn set_clip_source_offset(&mut self, slot: usize, source_offset_frames: u32)
        requires
            old(self).wf(),
        ensures
            final(self).wf(),
            final(self).device_rate == old(self).device_rate,
            final(self).slots@ == Sampler::edited(
                old(self).slots@,
                slot as int,
                |tc: TimelineClip| (TimelineClip { source_offset_frames, ..tc }),
            ),
    {
        if slot < self.slots.len() {
            if let Some(tc) = &mut self.slots[slot] {
                tc.source_offset_frames = source_offset_frames;
            }
        }
    }

    /// Look at the clip in a slot.
    pub fn slot(&self, slot: usize) -> (r: Option<&TimelineClip>)
        ensures
            r is Some <==> slot < self.slots@.len() && self.slots@[slot as int] is Some,
            r matches Some(tc) ==> *tc == self.slots@[slot as int]->0,
    {
        if slot < self.slots.len() {
            self.slots[slot].as_ref()
        } else {
            None
        }
    }

    /// Take clips out of their slots, in order, into `out`, until either runs out. The rest of
    /// `out` is left as it is.
    pub fn clear_all_into(&mut self, out: &mut [Option<TimelineClip>])
        requires
            old(self).wf(),
        ensures
            final(self).wf(),
            final(self).device_rate == old(self).device_rate,
            final(self).slots@ == cleared(old(self).slots@, old(out)@.len() as int),
            final(out)@.len() == old(out)@.len(),
            forall|i: int|
                0 <= i < final(out)@.len() ==> #[trigger] final(out)@[i] == (if i < placed(
                    old(self).slots@,
                ).len() {
                    Some(placed(old(self).slots@)[i])
                } else {
                    old(out)@[i]
                }),
    {
        let n: usize = self.slots.len();
        let room: usize = out.len();
        let ghost before = self.slots@;
        let ghost spare = out@;
        let mut i: usize = 0;
        assert(before.take(0) =~= Seq::empty());
        for s in 0..n
            invariant
                n == before.len(),
                n == self.slots@.len(),
                n == MAX_CLIPS_PER_TRACK,
                room == out@.len(),
                room == spare.len(),
                self.device_rate == old(self).device_rate,
                i == (if placed(before.take(s as int)).len() < room {
                    placed(before.take(s as int)).len()
                } else {
                    room as nat
                }),
                forall|k: int| s <= k < n ==> self.slots@[k] == #[trigger] before[k],
                forall|k: int|
                    0 <= k < s ==> #[trigger] self.slots@[k] == cleared(before, room as int)[k],
                forall|k: int| 0 <= k < i ==> #[trigger] out@[k] == Some(
                    placed(before.take(s as int))[k],
                ),
                forall|k: int| i <= k < room ==> #[trigger] out@[k] == spare[k],
                self.wf(),
        {
            proof {
                let longer = before.take(s + 1);
                assert(longer.drop_last() =~= before.take(s as int));
                assert(longer.last() == before[s as int]);
            }
            if i < room {
                let taken = self.slots[s].take();
                if taken.is_some() {
                    out[i] = taken;
                    i = i + 1;
                }
            }
        }
        assert(before.take(n as int) =~= before);
        assert(self.slots@ =~= cleared(before, room as int));
    }

    /// Answer a block: say in which stretches of it which clips are read, and where. `spans` is
    /// overwritten. The first frame of the block is timeline frame `global_start_frame`.
    pub fn render(&self, global_start_frame: i64, frames: usize, spans: &mut Vec<Span>)
        requires
            self.wf(),
            frames <= i64::MAX,
        ensures
            answers(
                self.slots@,
                self.device_rate as int,
                global_start_frame as int,
                frames as int,
                final(spans)@,
            ),
    {
        spans.clear();
        let n: usize = self.slots.len();
        assert(self.slots@.take(0) =~= Seq::empty());
        for i in 0..n
            invariant
                self.wf(),
                n == self.slots@.len(),
                frames <= i64::MAX,
                answers(
                    self.slots@.take(i as int),
                    self.device_rate as int,
                    global_start_frame as int,
                    frames as int,
                    spans@,
                ),
        {
            let ghost shorter = self.slots@.take(i as int);
            let ghost longer = self.slots@.take(i + 1);
            let ghost before = spans@;
            proof {
                assert(longer.drop_last() =~= shorter);
                assert(longer.last() == self.slots@[i as int]);
            }
            if let Some(tc) = &self.slots[i] {
                if let Some(span) = tc.span(i, self.device_rate, global_start_frame, frames) {
                    spans.push(span);
                    assert(spans@.drop_last() =~= before);
                }
            }
            proof {
                assert forall|f: int| 0 <= f < frames implies #[trigger] heard(spans@, f)
                    == contributions(
                    longer,
                    self.device_rate as int,
                    global_start_frame + f,
                ) by {
                    assert(heard(before, f) == contributions(
                        shorter,
                        self.device_rate as int,
                        global_start_frame + f,
                    ));
                }
                assert forall|k: int| 0 <= k < spans@.len() implies ({
                    let span = #[trigger] spans@[k];
                    &&& span.wf()
                    &&& span.end <= frames
                    &&& span.slot < longer.len()
                    &&& longer[span.slot as int] is Some
                    &&& span.frames == longer[span.slot as int]->0.clip.frames
                }) by {
                    if k < before.len() {
                        assert(spans@[k] == before[k]);
                    }
                }
            }
        }
        assert(self.slots@.take(n as int) =~= self.slots@);
    }
}

impl TimelineClip {
    /// The stretch of a block in which the clip is heard, if there is one. The first frame of the
    /// block is timeline frame `global_start`.
    fn span(&self, slot: usize, device_rate: u32, global_start: i64, frames: usize) -> (r: Option<
        Span,
    >)
        requires
            self.wf(),
            frames <= i64::MAX,
        ensures
            r matches Some(span) ==> {
                &&& span.wf()
                &&& span.end <= frames
                &&& span.slot == slot
                &&& span.frames == self.clip.frames
            },
            forall|f: int|
                0 <= f < frames ==> (#[trigger] self.live(device_rate as int, global_start + f)
                    <==> r is Some && r->0.covers(f)),
            forall|f: int|
                0 <= f < frames && #[trigger] self.live(device_rate as int, global_start + f)
                    ==> r->0.reads(f) == self.tap(device_rate as int, global_start + f),
    {
        let rate: u32 = self.clip.sample_rate;
        let source: usize = self.clip.frames;
        if device_rate == 0 || rate == 0 || source < 2 {
            return None;
        }
        let block_start: i128 = global_start as i128;
        let block_end: i128 = block_start + frames as i128;
        let place_start: i128 = self.start_frame as i128;
        let place_limit: i128 = place_start + self.length_frames as i128;
        let place_end: i128 = if place_limit < i64::MAX as i128 {
            place_limit
        } else {
            i64::MAX as i128
        };
        let from: i128 = if place_start > block_start {
            place_start
        } else {
            block_start
        };
        let to: i128 = if place_end < block_end {
            place_end
        } else {
            block_end
        };
        if from >= to {
            return None;
        }
        let start: usize = (from - block_start) as usize;
        let cut: usize = (to - block_start) as usize;
        let into: u64 = (from - place_start) as u64;
        proof {
            lemma_origin(
                self.source_offset_frames as int,
                device_rate as int,
                into as int,
                rate as int,
                source as int,
            );
        }
        let origin: u128 = self.source_offset_frames as u128 * device_rate as u128 + into as u128
            * rate as u128;
        let limit: u128 = source as u128 * device_rate as u128;
        if origin >= limit {
            proof {
                assert forall|f: int| 0 <= f < frames implies !(#[trigger] self.live(
                    device_rate as int,
                    global_start + f,
                )) by {
                    if from <= global_start + f < to {
                        lemma_advance(*self, device_rate as int, from as int, global_start + f);
                    }
                }
            }
            return None;
        }
        let left: u128 = limit - origin;
        let count: u128 = (left - 1) / rate as u128 + 1;
        let end: usize = if ((cut - start) as u128) <= count {
            cut
        } else {
            start + count as usize
        };
        let span = Span { slot, start, end, origin, step: rate, whole: device_rate, frames: source };
        proof {
            assert forall|f: int| start <= f < cut implies {
                &&& span.pos(f) == self.source_pos(device_rate as int, global_start + f)
                &&& (span.pos(f) < limit <==> f < start + count)
            } by {
                lemma_advance(*self, device_rate as int, from as int, global_start + f);
                lemma_count(f - start, rate as int, left as int);
            }
            assert(span.pos(end - 1) < limit);
            assert forall|f: int| 0 <= f < frames implies (#[trigger] self.live(
                device_rate as int,
                global_start + f,
            ) <==> span.covers(f)) by {
                if start <= f < cut {
                    assert(span.pos(f) == self.source_pos(device_rate as int, global_start + f));
                }
            }
        }
        Some(span)
    }
}

/// Rendering a stretch of the timeline in two blocks is rendering it in one: every frame is
/// answered alike, so nothing is reset at the seam and nothing drifts.
pub proof fn split_render_matches_single_render(
    slots: Seq<Option<TimelineClip>>,
    device_rate: int,
    global_start: int,
    n: int,
    m: int,
    whole: Seq<Span>,
    first: Seq<Span>,
    second: Seq<Span>,
)
    requires
        0 <= n,
        0 <= m,
        answers(slots, device_rate, global_start, n + m, whole),
        answers(slots, device_rate, global_start, n, first),
        answers(slots, device_rate, global_start + n, m, second),
    ensures
        forall|f: int| 0 <= f < n ==> #[trigger] heard(first, f) == heard(whole, f),
        forall|f: int| 0 <= f < m ==> #[trigger] heard(second, f) == heard(whole, n + f),
{
    assert forall|f: int| 0 <= f < n implies #[trigger] heard(first, f) == heard(whole, f) by {
        assert(heard(whole, f) == contributions(slots, device_rate, global_start + f));
    }
    assert forall|f: int| 0 <= f < m implies #[trigger] heard(second, f) == heard(
        whole,
        n + f,
    ) by {
        assert(heard(whole, n + f) == contributions(slots, device_rate, global_start + (n + f)));
        assert(global_start + n + f == global_start + (n + f));
    }
}

/// A clip contributes at a timeline frame exactly where it is live there, whatever the other slots
/// hold: overlapping clips add up.
pub proof fn heard_where_live(
    slots: Seq<Option<TimelineClip>>,
    device_rate: int,
    g: int,
    slot: int,
    tap: Tap,
)
    ensures
        contributions(slots, device_rate, g).contains((slot, tap)) <==> {
            &&& 0 <= slot < slots.len()
            &&& slots[slot] is Some
            &&& slots[slot]->0.live(device_rate, g)
            &&& tap == slots[slot]->0.tap(device_rate, g)
        },
    decreases slots.len(),
{
    if slots.len() > 0 {
        let rest = slots.drop_last();
        heard_where_live(rest, device_rate, g, slot, tap);
        let before = contributions(rest, device_rate, g);
        let now = contributions(slots, device_rate, g);
        if now.len() > before.len() {
            let added = now.last();
            assert(now =~= before.push(added));
            assert(now[before.len() as int] == added);
            if before.contains((slot, tap)) {
                let k = choose|k: int| 0 <= k < before.len() && before[k] == (slot, tap);
                assert(now[k] == (slot, tap));
            }
        }
    }
}

/// No slot contributes twice to a frame, and slots contribute in order.
pub proof fn contributions_are_in_slot_order(
    slots: Seq<Option<TimelineClip>>,
    device_rate: int,
    g: int,
    i: int,
    j: int,
)
    requires
        0 <= i < j < contributions(slots, device_rate, g).len(),
    ensures
        contributions(slots, device_rate, g)[i].0 < contributions(slots, device_rate, g)[j].0
            < slots.len(),
    decreases slots.len(),
{
    let rest = slots.drop_last();
    let before = contributions(rest, device_rate, g);
    if j < before.len() {
        contributions_are_in_slot_order(rest, device_rate, g, i, j);
    } else {
        assert(before.contains(before[i]));
        heard_where_live(rest, device_rate, g, before[i].0, before[i].1);
    }
}

/// Placement is exact to the frame. A clip of the device's own rate is silent before its start, and
/// `k` frames after its start it is read at exactly the frame `k` after the one it starts with, for
/// as long as its place on the timeline and its source last.
pub proof fn placement_is_exact(tc: TimelineClip, device_rate: int, k: int)
    requires
        tc.clip.sample_rate == device_rate,
        0 < device_rate <= u32::MAX,
        tc.clip.frames >= 2,
        tc.start_frame + k < i64::MAX,
    ensures
        tc.live(device_rate, tc.start_frame + k) <==> {
            &&& 0 <= k < tc.length_frames
            &&& tc.source_offset_frames + k < tc.clip.frames
        },
        tc.live(device_rate, tc.start_frame + k) ==> {
            &&& tc.tap(device_rate, tc.start_frame + k) matches Tap::Read { frame, part, .. }
            &&& frame == tc.source_offset_frames + k
            &&& part == 0
        },
{
    let frame = tc.source_offset_frames + k;
    let pos = tc.source_pos(device_rate, tc.start_frame + k);
    assert(pos == frame * device_rate) by (nonlinear_arith)
        requires
            pos == tc.source_offset_frames * device_rate + k * device_rate,
            frame == tc.source_offset_frames + k,
    ;
    assert(pos < tc.clip.frames * device_rate <==> frame < tc.clip.frames) by (nonlinear_arith)
        requires
            pos == frame * device_rate,
            device_rate > 0,
    ;
    if frame >= 0 {
        vstd::arithmetic::div_mod::lemma_div_by_multiple(frame, device_rate);
        vstd::arithmetic::div_mod::lemma_mod_multiples_basic(frame, device_rate);
    }
}

/// A clip that was placed whole is heard as long as there is source left to read, at whatever rate
/// the device runs: its place never ends before its source does.
pub proof fn whole_clips_play_to_their_end(tc: TimelineClip, device_rate: int, g: int)
    requires
        tc.length_frames == full_length(*tc.clip, device_rate) || tc.length_frames == u32::MAX,
        device_rate > 0,
        tc.clip.sample_rate > 0,
        tc.clip.frames >= 2,
        tc.clip.frames * device_rate <= u32::MAX * tc.clip.sample_rate,
        tc.start_frame + tc.length_frames < i64::MAX,
    ensures
        tc.live(device_rate, g) <==> tc.start_frame <= g && tc.source_pos(device_rate, g)
            < tc.clip.frames * device_rate,
{
    let rate = tc.clip.sample_rate as int;
    let total = tc.clip.frames * device_rate;
    let length = tc.length_frames as int;
    let exact = (total + rate - 1) / rate;
    vstd::arithmetic::div_mod::lemma_fundamental_div_mod(total + rate - 1, rate);
    vstd::arithmetic::div_mod::lemma_mod_division_less_than_divisor(total + rate - 1, rate);
    assert(rate * exact == exact * rate) by (nonlinear_arith);
    assert(exact * rate >= total);
    assert(length * rate >= total);
    if tc.start_frame <= g && tc.source_pos(device_rate, g) < total {
        let played = g - tc.start_frame;
        let skipped = tc.source_offset_frames * device_rate;
        assert(skipped >= 0) by (nonlinear_arith)
            requires
                device_rate > 0,
                tc.source_offset_frames >= 0,
                skipped == tc.source_offset_frames * device_rate,
        ;
        assert(played < length) by (nonlinear_arith)
            requires
                played * rate < length * rate,
                rate > 0,
        ;
    }
}

/// Nothing of a clip is heard outside its place on the timeline, however much source it has.
pub proof fn silent_outside_its_place(tc: TimelineClip, device_rate: int, g: int)
    requires
        g < tc.start_frame || g >= tc.start_frame + tc.length_frames,
    ensures
        !tc.live(device_rate, g),
{
}

/// Wherever a clip is heard, it is read inside its source.
pub proof fn reads_lie_inside(tc: TimelineClip, device_rate: u32, g: int)
    requires
        tc.live(device_rate as int, g),
    ensures
        tc.tap(device_rate as int, g) matches Tap::Read { frame, next, part, whole } && frame
            < tc.clip.frames && frame <= next < tc.clip.frames && part < whole,
{
    let dev = device_rate as int;
    let pos = tc.source_pos(dev, g);
    let offset = tc.source_offset_frames as int;
    let into = g - tc.start_frame;
    let rate = tc.clip.sample_rate as int;
    assert(offset * dev >= 0 && into * rate >= 0) by (nonlinear_arith)
        requires
            offset >= 0,
            dev >= 0,
            into >= 0,
            rate >= 0,
    ;
    lemma_quotient(pos, tc.clip.frames as int, dev);
}

/// Taking clips out empties the slots and loses none, as long as there is room for all of them.
pub proof fn clearing_is_complete(slots: Seq<Option<TimelineClip>>, room: int, i: int)
    requires
        slots.len() <= room,
        0 <= i < slots.len(),
    ensures
        placed(slots).len() <= slots.len(),
        cleared(slots, room)[i] is None,
{
    placed_fits(slots);
    placed_fits(slots.take(i));
}

/// There are no more clips than slots.
pub proof fn placed_fits(slots: Seq<Option<TimelineClip>>)
    ensures
        placed(slots).len() <= slots.len(),
    decreases slots.len(),
{
    if slots.len() > 0 {
        placed_fits(slots.drop_last());
    }
}

proof fn lemma_origin(offset: int, device_rate: int, into: int, rate: int, source: int)
    requires
        0 <= offset <= u32::MAX,
        0 <= device_rate <= u32::MAX,
        0 <= into <= u64::MAX,
        0 <= rate <= u32::MAX,
        0 <= source <= u64::MAX,
    ensures
        0 <= offset * device_rate <= u32::MAX * u32::MAX,
        0 <= into * rate <= u64::MAX * u32::MAX,
        0 <= source * device_rate <= u64::MAX * u32::MAX,
{
    assert(0 <= offset * device_rate <= u32::MAX * u32::MAX) by (nonlinear_arith)
        requires
            0 <= offset <= u32::MAX,
            0 <= device_rate <= u32::MAX,
    ;
    assert(0 <= into * rate <= u64::MAX * u32::MAX) by (nonlinear_arith)
        requires
            0 <= into <= u64::MAX,
            0 <= rate <= u32::MAX,
    ;
    assert(0 <= source * device_rate <= u64::MAX * u32::MAX) by (nonlinear_arith)
        requires
            0 <= source <= u64::MAX,
            0 <= device_rate <= u32::MAX,
    ;
}

proof fn lemma_advance(tc: TimelineClip, device_rate: int, from: int, g: int)
    requires
        from <= g,
    ensures
        tc.source_pos(device_rate, g) == tc.source_pos(device_rate, from) + (g - from)
            * tc.clip.sample_rate,
        tc.source_pos(device_rate, g) >= tc.source_pos(device_rate, from),
{
    let a = from - tc.start_frame;
    let d = g - from;
    let rate = tc.clip.sample_rate as int;
    assert((a + d) * rate == a * rate + d * rate) by (nonlinear_arith);
    assert(d * rate >= 0) by (nonlinear_arith)
        requires
            d >= 0,
            rate >= 0,
    ;
}

proof fn lemma_count(k: int, rate: int, left: int)
    requires
        0 <= k,
        rate > 0,
        left > 0,
    ensures
        k * rate < left <==> k < (left - 1) / rate + 1,
{
    let q = (left - 1) / rate;
    let r = (left - 1) % rate;
    vstd::arithmetic::div_mod::lemma_fundamental_div_mod(left - 1, rate);
    vstd::arithmetic::div_mod::lemma_mod_division_less_than_divisor(left - 1, rate);
    assert(k * rate < left <==> k < q + 1) by (nonlinear_arith)
        requires
            left - 1 == rate * q + r,
            0 <= r < rate,
            rate > 0,
    ;
}

proof fn lemma_span(span: Span, f: int)
    requires
        span.wf(),
        span.covers(f),
    ensures
        0 <= (f - span.start) * span.step <= u128::MAX,
        0 <= span.pos(f) < span.frames * span.whole <= u128::MAX,
        0 <= span.pos(f) / (span.whole as int) < span.frames,
        0 <= span.pos(f) % (span.whole as int) < span.whole,
{
    let d = f - span.start;
    let e = span.end - 1 - span.start;
    assert(0 <= d * span.step <= e * span.step) by (nonlinear_arith)
        requires
            0 <= d <= e,
            0 <= span.step,
    ;
    let bound = span.frames * span.whole;
    assert(bound <= u64::MAX * u32::MAX) by (nonlinear_arith)
        requires
            bound == span.frames * span.whole,
            0 <= span.frames <= u64::MAX,
            0 <= span.whole <= u32::MAX,
    ;
    lemma_quotient(span.pos(f), span.frames as int, span.whole as int);
}

proof fn lemma_quotient(pos: int, frames: int, whole: int)
    requires
        0 <= pos < frames * whole,
        whole > 0,
    ensures
        0 <= pos / whole < frames,
        0 <= pos % whole < whole,
{
    assert(frames * whole == whole * frames) by (nonlinear_arith);
    vstd::arithmetic::div_mod::lemma_div_pos_is_pos(pos, whole);
    vstd::arithmetic::div_mod::lemma_multiply_divide_lt(pos, whole, frames);
    vstd::arithmetic::div_mod::lemma_mod_division_less_than_divisor(pos, whole);
}

/// Wherever a clip is heard, it is read at its source offset plus what has passed since its start,
/// at whatever rates: `k` device frames after its start it is read at source frame
/// `source_offset_frames + k * sample_rate / device_rate`, in parts of which `device_rate` make a
/// frame, and at its very start exactly at its offset. The last source frame stands for the one
/// that would follow it.
pub proof fn clips_are_read_from_their_offset(tc: TimelineClip, device_rate: u32, k: int)
    requires
        tc.live(device_rate as int, tc.start_frame + k),
    ensures
        tc.tap(device_rate as int, tc.start_frame + k) matches Tap::Read {
            frame,
            next,
            part,
            whole,
        } && {
            &&& whole == device_rate
            &&& part < whole
            &&& frame * whole + part == tc.source_offset_frames * device_rate + k
                * tc.clip.sample_rate
            &&& frame < tc.clip.frames
            &&& next == (if frame + 1 < tc.clip.frames {
                frame + 1
            } else {
                tc.clip.frames - 1
            })
            &&& k == 0 ==> frame == tc.source_offset_frames && part == 0
        },
{
    let dev = device_rate as int;
    let g = tc.start_frame + k;
    let pos = tc.source_pos(dev, g);
    let offset = tc.source_offset_frames as int;
    reads_lie_inside(tc, device_rate, g);
    assert(offset * dev >= 0 && k * tc.clip.sample_rate >= 0) by (nonlinear_arith)
        requires
            offset >= 0,
            dev >= 0,
            k >= 0,
            tc.clip.sample_rate >= 0,
    ;
    lemma_quotient(pos, tc.clip.frames as int, dev);
    vstd::arithmetic::div_mod::lemma_fundamental_div_mod(pos, dev);
    assert(dev * (pos / dev) == (pos / dev) * dev) by (nonlinear_arith);
    if k == 0 {
        assert(0 * tc.clip.sample_rate == 0);
        vstd::arithmetic::div_mod::lemma_div_by_multiple(offset, dev);
        vstd::arithmetic::div_mod::lemma_mod_multiples_basic(offset, dev);
    }
}

/// A clip is heard from its start until its length is over or its source has run out, whichever
/// comes first, as far as the timeline can be counted. It takes two rates and two source frames to
/// read it at all.
pub proof fn clips_are_heard_until_they_end(tc: TimelineClip, device_rate: u32, g: int)
    ensures
        tc.live(device_rate as int, g) <==> {
            &&& device_rate > 0
            &&& tc.clip.sample_rate > 0
            &&& tc.clip.frames >= 2
            &&& tc.start_frame <= g
            &&& g < tc.start_frame + tc.length_frames
            &&& g < i64::MAX
            &&& tc.source_offset_frames * device_rate + (g - tc.start_frame) * tc.clip.sample_rate
                < tc.clip.frames * device_rate
        },
{
}

proof fn lemma_covered_is_heard(spans: Seq<Span>, f: int, k: int)
    requires
        0 <= k < spans.len(),
        spans[k].start <= f < spans[k].end,
    ensures
        heard(spans, f).contains((spans[k].slot as int, spans[k].reads(f))),
    decreases spans.len(),
{
    let rest = spans.drop_last();
    let before = heard(rest, f);
    let now = heard(spans, f);
    let this = (spans[k].slot as int, spans[k].reads(f));
    if k < rest.len() {
        lemma_covered_is_heard(rest, f, k);
        let i = choose|i: int| 0 <= i < before.len() && before[i] == this;
        assert(now[i] == this);
    } else {
        assert(now[before.len() as int] == this);
    }
}

proof fn lemma_heard_is_covered(spans: Seq<Span>, f: int, i: int)
    requires
        0 <= i < heard(spans, f).len(),
    ensures
        exists|k: int|
            0 <= k < spans.len() && (#[trigger] spans[k]).start <= f < spans[k].end
                && spans[k].slot == heard(spans, f)[i].0,
    decreases spans.len(),
{
    let rest = spans.drop_last();
    let before = heard(rest, f);
    if i < before.len() {
        lemma_heard_is_covered(rest, f, i);
        let k = choose|k: int|
            0 <= k < rest.len() && (#[trigger] rest[k]).start <= f < rest[k].end && rest[k].slot
                == before[i].0;
        assert(spans[k] == rest[k]);
    } else {
        let last = spans.len() - 1;
        assert(spans[last].start <= f < spans[last].end);
    }
}

/// Whatever a span of a block says is read at a frame is what the clip in its slot has there: the
/// frame lies in its place on the timeline, and is read at its source offset plus what has passed
/// since its start.
pub proof fn blocks_read_what_is_placed(
    slots: Seq<Option<TimelineClip>>,
    device_rate: u32,
    global_start: int,
    frames: int,
    spans: Seq<Span>,
    k: int,
    f: int,
)
    requires
        answers(slots, device_rate as int, global_start, frames, spans),
        0 <= k < spans.len(),
        0 <= f < frames,
        spans[k].start <= f < spans[k].end,
    ensures
        spans[k].slot < slots.len(),
        slots[spans[k].slot as int] matches Some(tc) && {
            let passed = global_start + f - tc.start_frame;
            &&& 0 <= passed < tc.length_frames
            &&& spans[k].reads(f) matches Tap::Read { frame, next, part, whole } && {
                &&& whole == device_rate
                &&& part < whole
                &&& frame * whole + part == tc.source_offset_frames * device_rate + passed
                    * tc.clip.sample_rate
                &&& frame < tc.clip.frames
                &&& next == (if frame + 1 < tc.clip.frames {
                    frame + 1
                } else {
                    tc.clip.frames - 1
                })
            }
        },
{
    let g = global_start + f;
    let slot = spans[k].slot as int;
    lemma_covered_is_heard(spans, f, k);
    assert(heard(spans, f) == contributions(slots, device_rate as int, g));
    heard_where_live(slots, device_rate as int, g, slot, spans[k].reads(f));
    let tc = slots[slot]->0;
    let passed = g - tc.start_frame;
    assert(tc.start_frame + passed == g);
    clips_are_heard_until_they_end(tc, device_rate, g);
    clips_are_read_from_their_offset(tc, device_rate, passed);
}

/// No clip is left out of a block: one that lasts at a frame, and has source left there, is read
/// there by a span of the block.
pub proof fn blocks_leave_no_clip_out(
    slots: Seq<Option<TimelineClip>>,
    device_rate: u32,
    global_start: int,
    frames: int,
    spans: Seq<Span>,
    slot: int,
    f: int,
)
    requires
        answers(slots, device_rate as int, global_start, frames, spans),
        0 <= f < frames,
        0 <= slot < slots.len(),
        slots[slot] matches Some(tc) && {
            let passed = global_start + f - tc.start_frame;
            &&& device_rate > 0
            &&& tc.clip.sample_rate > 0
            &&& tc.clip.frames >= 2
            &&& 0 <= passed < tc.length_frames
            &&& global_start + f < i64::MAX
            &&& tc.source_offset_frames * device_rate + passed * tc.clip.sample_rate
                < tc.clip.frames * device_rate
        },
    ensures
        exists|k: int|
            0 <= k < spans.len() && (#[trigger] spans[k]).start <= f < spans[k].end
                && spans[k].slot == slot,
{
    let g = global_start + f;
    let dev = device_rate as int;
    let tc = slots[slot]->0;
    let all = contributions(slots, dev, g);
    clips_are_heard_until_they_end(tc, device_rate, g);
    heard_where_live(slots, dev, g, slot, tc.tap(dev, g));
    let i = choose|i: int| 0 <= i < all.len() && all[i] == (slot, tc.tap(dev, g));
    assert(heard(spans, f) == all);
    lemma_heard_is_covered(spans, f, i);
}

/// No clip is read twice at a frame of a block, and clips are read in the order of their slots.
pub proof fn blocks_read_no_clip_twice(
    slots: Seq<Option<TimelineClip>>,
    device_rate: u32,
    global_start: int,
    frames: int,
    spans: Seq<Span>,
    i: int,
    j: int,
    f: int,
)
    requires
        answers(slots, device_rate as int, global_start, frames, spans),
        0 <= f < frames,
        0 <= i < j < spans.len(),
        spans[i].start <= f < spans[i].end,
        spans[j].start <= f < spans[j].end,
    ensures
        spans[i].slot < spans[j].slot,
{
    let all = heard(spans, f);
    assert(all == contributions(slots, device_rate as int, global_start + f));
    assert forall|a: int, b: int| 0 <= a < b < all.len() implies all[a].0 < all[b].0 by {
        contributions_are_in_slot_order(slots, device_rate as int, global_start + f, a, b);
    }
    lemma_spans_in_order(spans, i, j, f);
}

proof fn lemma_spans_in_order(spans: Seq<Span>, i: int, j: int, f: int)
    requires
        0 <= i < j < spans.len(),
        spans[i].start <= f < spans[i].end,
        spans[j].start <= f < spans[j].end,
        forall|a: int, b: int|
            0 <= a < b < heard(spans, f).len() ==> heard(spans, f)[a].0 < heard(spans, f)[b].0,
    ensures
        spans[i].slot < spans[j].slot,
    decreases spans.len(),
{
    let rest = spans.drop_last();
    let before = heard(rest, f);
    let all = heard(spans, f);
    assert forall|a: int, b: int| 0 <= a < b < before.len() implies before[a].0 < before[b].0 by {
        assert(all[a] == before[a] && all[b] == before[b]);
    }
    if j < rest.len() {
        lemma_spans_in_order(rest, i, j, f);
    } else {
        lemma_covered_is_heard(rest, f, i);
        let this = (rest[i].slot as int, rest[i].reads(f));
        let a = choose|a: int| 0 <= a < before.len() && before[a] == this;
        assert(all[a] == before[a]);
        assert(all[before.len() as int].0 == spans[j].slot);
    }
}

/// Changing the clip in a slot changes that clip, as it is told to, and nothing else. Where there is
/// no clip, nothing changes.
pub proof fn edits_reach_one_clip(
    slots: Seq<Option<TimelineClip>>,
    slot: int,
    edit: spec_fn(TimelineClip) -> TimelineClip,
    i: int,
)
    requires
        0 <= i < slots.len(),
    ensures
        Sampler::edited(slots, slot, edit).len() == slots.len(),
        i != slot ==> Sampler::edited(slots, slot, edit)[i] == slots[i],
        i == slot && slots[i] is Some ==> Sampler::edited(slots, slot, edit)[i] == Some(
            edit(slots[i]->0),
        ),
        slots[i] is None ==> Sampler::edited(slots, slot, edit)[i] is None,
{
}

/// The clips that are placed are those in the slots that hold one, in the order of the slots.
pub proof fn placed_clips_are_those_in_the_slots(slots: Seq<Option<TimelineClip>>)
    ensures
        placed(slots) == slots.filter(|s: Option<TimelineClip>| s is Some).map_values(
            |s: Option<TimelineClip>| s->0,
        ),
    decreases slots.len(),
{
    let held = |s: Option<TimelineClip>| s is Some;
    let inner = |s: Option<TimelineClip>| s->0;
    reveal_with_fuel(Seq::filter, 2);
    if slots.len() > 0 {
        placed_clips_are_those_in_the_slots(slots.drop_last());
        let before = slots.drop_last().filter(held);
        if slots.last() is Some {
            assert(slots.filter(held) =~= before.push(slots.last()));
            assert(before.push(slots.last()).map_values(inner) =~= before.map_values(inner).push(
                slots.last()->0,
            ));
        }
    } else {
        assert(placed(slots) =~= slots.filter(held).map_values(inner));
    }
}

/// Clips are taken out of the first slots that hold one, as many as there is room for, and the
/// others stay.
pub proof fn clips_are_taken_out_in_order(slots: Seq<Option<TimelineClip>>, room: int, i: int)
    requires
        0 <= i < slots.len(),
    ensures
        cleared(slots, room).len() == slots.len(),
        slots[i] is None ==> cleared(slots, room)[i] is None,
        slots[i] is Some ==> cleared(slots, room)[i] == (if slots.take(i).filter(
            |s: Option<TimelineClip>| s is Some,
        ).len() < room {
            None
        } else {
            slots[i]
        }),
{
    placed_clips_are_those_in_the_slots(slots.take(i));
}

/// The length of a whole clip is the least number of device frames in which all of its source
/// passes, unless that is more than can be counted; without two rates it is as long as can be.
pub proof fn whole_lengths_fit_the_source(clip: AudioClip, device_rate: u32)
    ensures
        ({
            let length = full_length(clip, device_rate as int);
            &&& 0 <= length <= u32::MAX
            &&& clip.sample_rate == 0 || device_rate == 0 ==> length == u32::MAX
            &&& clip.sample_rate > 0 && device_rate > 0 ==> {
                &&& length < u32::MAX ==> length * clip.sample_rate >= clip.frames * device_rate
                &&& length > 0 ==> (length - 1) * clip.sample_rate < clip.frames * device_rate
            }
        }),
{
    let rate = clip.sample_rate as int;
    let dev = device_rate as int;
    if rate > 0 && dev > 0 {
        let total = clip.frames * dev;
        let exact = (total + rate - 1) / rate;
        let rest = (total + rate - 1) % rate;
        let length = full_length(clip, dev);
        assert(total >= 0) by (nonlinear_arith)
            requires
                total == clip.frames * dev,
                clip.frames >= 0,
                dev > 0,
        ;
        vstd::arithmetic::div_mod::lemma_fundamental_div_mod(total + rate - 1, rate);
        vstd::arithmetic::div_mod::lemma_mod_division_less_than_divisor(total + rate - 1, rate);
        vstd::arithmetic::div_mod::lemma_div_pos_is_pos(total + rate - 1, rate);
        assert(rate * exact == exact * rate) by (nonlinear_arith);
        assert((exact - 1) * rate == exact * rate - rate) by (nonlinear_arith);
        assert((length - 1) * rate <= (exact - 1) * rate) by (nonlinear_arith)
            requires
                length <= exact,
                rate > 0,
        ;
    }
}

} // verus!
