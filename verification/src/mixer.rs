//! [`Mixer`]: a fixed pool of tracks, a master chain, and the transport that drives them.
//!
//! The tracks are built once; a track that is not in use is a strip without clips. Commands and
//! clips for a track that does not exist are ignored.

use std::sync::Arc;

use rtrb::Producer;
use vstd::prelude::*;
use crate::clip::AudioClip;
use crate::commands::Command;
use crate::dsp::biquad::{Biquad, FilterKind, Memory};
use crate::dsp::chain::{Chain, ChainSetup, ChainView};
use crate::dsp::eq::Band;
use crate::dsp::smooth::SmoothedParam;
use crate::player::{Placement, Tap, WavPlayer};
use crate::rings::push_sample;
use crate::sampler::{Sampler, Span, TimelineClip};
use crate::single::Single;
use crate::strip::{Strip, StripView, MAX_BLOCK};

verus! {

/// The number of tracks.
pub const MAX_TRACKS: usize = 8;

/// The mixer.
pub struct Mixer {
    /// Frames per second of the output device.
    pub device_rate: u32,
    pub strips: Vec<Strip>,
    /// The chain that the sum of all tracks runs through.
    pub master: Chain,
    /// The level after the master chain.
    pub master_peak_l: Single,
    pub master_peak_r: Single,
    /// The device frame on the timeline that comes next.
    pub playhead: i64,
    /// Whether the timeline advances.
    pub rolling: bool,
}

/// The state of the mixer.
#[verifier::ext_equal]
pub struct MixerView {
    pub device_rate: u32,
    pub strips: Seq<StripView>,
    pub master: ChainView,
    pub master_peak_l: Single,
    pub master_peak_r: Single,
    pub playhead: i64,
    pub rolling: bool,
}

impl View for Mixer {
    type V = MixerView;

    open spec fn view(&self) -> MixerView {
        MixerView {
            device_rate: self.device_rate,
            strips: Seq::new(self.strips@.len(), |t: int| self.strips@[t]@),
            master: self.master@,
            master_peak_l: self.master_peak_l,
            master_peak_r: self.master_peak_r,
            playhead: self.playhead,
            rolling: self.rolling,
        }
    }
}

/// The timeline frame of a time, as far as it can be counted.
pub open spec fn frame_at(secs: Single, device_rate: int) -> int {
    if secs.floor_times(device_rate, 0) < i64::MAX {
        secs.floor_times(device_rate, 0)
    } else {
        i64::MAX as int
    }
}

impl MixerView {
    /// A mixer as it is built: fresh tracks, a transparent master, the timeline at its start.
    pub open spec fn fresh(device_rate: u32, setup: ChainSetup) -> MixerView {
        MixerView {
            device_rate,
            strips: Seq::new(MAX_TRACKS as nat, |t: int| StripView::fresh(device_rate, setup)),
            master: ChainView::fresh(setup),
            master_peak_l: Single::of(0),
            master_peak_r: Single::of(0),
            playhead: 0,
            rolling: false,
        }
    }

    /// The mixer after one of its tracks was changed. A track that does not exist has nothing to
    /// change.
    pub open spec fn with_strip(self, t: int, edit: spec_fn(StripView) -> StripView) -> MixerView {
        if 0 <= t < self.strips.len() {
            MixerView { strips: self.strips.update(t, edit(self.strips[t])), ..self }
        } else {
            self
        }
    }

    /// The mixer after the chain of one of its tracks was changed.
    pub open spec fn with_chain(self, t: int, edit: spec_fn(ChainView) -> ChainView) -> MixerView {
        self.with_strip(t, |s: StripView| (StripView { chain: edit(s.chain), ..s }))
    }

    /// The mixer after a clip on the timeline of one of its tracks was changed.
    pub open spec fn with_clip(
        self,
        t: int,
        slot: int,
        edit: spec_fn(TimelineClip) -> TimelineClip,
    ) -> MixerView {
        self.with_strip(
            t,
            |s: StripView| (StripView { slots: Sampler::edited(s.slots, slot, edit), ..s }),
        )
    }

    /// The mixer after a transport command. It reaches every track, and the timeline.
    pub open spec fn transported(self, cmd: Command) -> MixerView {
        MixerView {
            strips: self.strips.map_values(|s: StripView| s.handled(cmd)),
            playhead: match cmd {
                Command::Stop => 0,
                Command::Seek(secs) => frame_at(secs, self.device_rate as int) as i64,
                _ => self.playhead,
            },
            rolling: match cmd {
                Command::Play => true,
                Command::Pause => false,
                Command::Stop => false,
                _ => self.rolling,
            },
            ..self
        }
    }

    /// The mixer after a command. Commands that take a clip away are not followed here, since the
    /// clip has to be handed to someone: see [`Mixer::clear_track`] and [`Mixer::remove_clip`].
    pub open spec fn handled(self, cmd: Command) -> MixerView {
        match cmd {
            Command::Play => self.transported(cmd),
            Command::Pause => self.transported(cmd),
            Command::Stop => self.transported(cmd),
            Command::Seek(_) => self.transported(cmd),
            Command::SetLooping(_) => self.transported(cmd),
            Command::ClearTrack(_) => self,
            Command::RemoveClip(_, _) => self,
            Command::MoveClip(t, slot, start_frame) => self.with_clip(
                t as int,
                slot as int,
                |tc: TimelineClip| (TimelineClip { start_frame, ..tc }),
            ),
            Command::ResizeClip(t, slot, length_frames) => self.with_clip(
                t as int,
                slot as int,
                |tc: TimelineClip| (TimelineClip { length_frames, ..tc }),
            ),
            Command::SetClipSourceOffset(t, slot, source_offset_frames) => self.with_clip(
                t as int,
                slot as int,
                |tc: TimelineClip| (TimelineClip { source_offset_frames, ..tc }),
            ),
            Command::SetTrackGainDb(t, db) => self.with_chain(
                t as int,
                |c: ChainView| (ChainView { gain: c.gain.at_db(db), ..c }),
            ),
            Command::SetTrackGainLinear(t, linear) => self.with_chain(
                t as int,
                |c: ChainView| (ChainView { gain: c.gain.at_linear(linear), ..c }),
            ),
            Command::SetTrackPan(t, pan) => self.with_chain(
                t as int,
                |c: ChainView| (ChainView { pan: c.pan.at(pan), ..c }),
            ),
            Command::SetTrackEqBandKind(t, b, code) => self.with_chain(
                t as int,
                |c: ChainView| c.with_kind(b as int, code as int),
            ),
            Command::SetTrackEqBandFreq(t, b, hz) => self.with_chain(
                t as int,
                |c: ChainView| c.with_freq(b as int, hz),
            ),
            Command::SetTrackEqBandQ(t, b, q) => self.with_chain(
                t as int,
                |c: ChainView| c.with_q(b as int, q),
            ),
            Command::SetTrackEqBandGainDb(t, b, db) => self.with_chain(
                t as int,
                |c: ChainView| c.with_gain_db(b as int, db),
            ),
            Command::SetTrackEqBandEnabled(t, b, on) => self.with_chain(
                t as int,
                |c: ChainView| c.with_enabled(b as int, on),
            ),
            Command::SetMasterGainDb(db) => MixerView {
                master: ChainView { gain: self.master.gain.at_db(db), ..self.master },
                ..self
            },
            Command::SetMasterGainLinear(linear) => MixerView {
                master: ChainView { gain: self.master.gain.at_linear(linear), ..self.master },
                ..self
            },
            Command::SetMasterPan(pan) => MixerView {
                master: ChainView { pan: self.master.pan.at(pan), ..self.master },
                ..self
            },
        }
    }
}

impl MixerView {
    /// The mixer after a clip was loaded into the player of a track.
    pub open spec fn loaded(self, t: int, clip: Arc<AudioClip>) -> MixerView {
        self.with_strip(
            t,
            |s: StripView|
                (StripView {
                    player: WavPlayer { clip: Some(clip), pos: 0, playing: false, ..s.player },
                    ..s
                }),
        )
    }

    /// The clip in a slot of the timeline of a track.
    pub open spec fn clip_at(self, t: int, slot: int) -> Option<TimelineClip> {
        if 0 <= t < self.strips.len() && 0 <= slot < self.strips[t].slots.len() {
            self.strips[t].slots[slot]
        } else {
            None
        }
    }

    /// The mixer after a slot of the timeline of a track was filled or emptied. A slot that does
    /// not exist stays that way.
    pub open spec fn with_slot(self, t: int, slot: int, tc: Option<TimelineClip>) -> MixerView {
        self.with_strip(
            t,
            |s: StripView|
                (StripView {
                    slots: if 0 <= slot < s.slots.len() {
                        s.slots.update(slot, tc)
                    } else {
                        s.slots
                    },
                    ..s
                }),
        )
    }

    /// The mixer after a track was set back to the state it was built in.
    pub open spec fn with_fresh_strip(self, t: int) -> MixerView {
        self.with_strip(t, |s: StripView| StripView::fresh(s.player.device_rate, s.chain.setup))
    }

    /// The rate of the clip that the position of the transport is counted in, or 0 where the first
    /// track has none.
    pub open spec fn pos_rate(self) -> int {
        match self.strips[0].player.clip {
            Some(clip) => clip.sample_rate as int,
            None => 0,
        }
    }

    /// Whether the player of any track advances.
    pub open spec fn playing(self) -> bool {
        exists|t: int| 0 <= t < self.strips.len() && (#[trigger] self.strips[t]).player.playing
    }

    /// The timeline frame that comes after a block.
    pub open spec fn playhead_after(self, frames: int) -> int {
        if !self.rolling {
            self.playhead as int
        } else if self.playhead + frames > i64::MAX {
            i64::MAX as int
        } else {
            self.playhead + frames
        }
    }
}

/// A clip with its place on the timeline.
pub open spec fn placed_clip(clip: Arc<AudioClip>, at: Placement) -> TimelineClip {
    TimelineClip {
        clip,
        start_frame: at.start_frame,
        length_frames: at.length_frames,
        source_offset_frames: at.source_offset_frames,
    }
}

/// The frames of the next block of an interleaved buffer with `samples` samples left.
pub open spec fn block_frames(samples: int, channels: int) -> int {
    if channels <= 0 {
        0
    } else if samples / channels < MAX_BLOCK {
        samples / channels
    } else {
        MAX_BLOCK as int
    }
}

/// A frame of the mix on a device with the given number of channels: mono on one channel, and the
/// two sides on the first two of several.
pub open spec fn device_frame(l: Single, r: Single, mono: Single, channels: nat) -> Seq<Single> {
    Seq::new(
        channels,
        |c: int|
            if channels == 1 {
                mono
            } else if c == 0 {
                l
            } else if c == 1 {
                r
            } else {
                Single::of(0)
            },
    )
}

impl Mixer {
    /// What every mixer satisfies.
    pub open spec fn wf(self) -> bool {
        &&& self.strips@.len() == MAX_TRACKS
        &&& forall|t: int|
            0 <= t < MAX_TRACKS ==> (#[trigger] self.strips@[t]).wf()
                && self.strips@[t].player.device_rate == self.device_rate
    }

    /// A mixer for a device of the given rate.
    pub fn new(device_rate: u32, setup: ChainSetup) -> (r: Self)
        ensures
            r.wf(),
            r@ == MixerView::fresh(device_rate, setup),
    {
        let mut strips: Vec<Strip> = Vec::with_capacity(MAX_TRACKS);
        for t in 0..MAX_TRACKS
            invariant
                strips@.len() == t,
                forall|k: int|
                    0 <= k < t ==> (#[trigger] strips@[k]).wf() && strips@[k]@ == StripView::fresh(
                        device_rate,
                        setup,
                    ),
        {
            strips.push(Strip::new(device_rate, setup));
        }
        let r = Mixer {
            device_rate,
            strips,
            master: Chain::new(setup),
            master_peak_l: Single::zero(),
            master_peak_r: Single::zero(),
            playhead: 0,
            rolling: false,
        };
        assert(r@.strips =~= MixerView::fresh(device_rate, setup).strips);
        r
    }

    /// The number of tracks.
    pub fn track_count(&self) -> (r: usize)
        requires
            self.wf(),
        ensures
            r == MAX_TRACKS,
    {
        self.strips.len()
    }

    fn transport(&mut self, cmd: Command)
        requires
            old(self).wf(),
        ensures
            final(self).wf(),
            final(self)@ == (MixerView {
                strips: old(self)@.strips.map_values(|s: StripView| s.handled(cmd)),
                ..old(self)@
            }),
    {
        let n: usize = self.strips.len();
        for t in 0..n
            invariant
                n == MAX_TRACKS,
                self.wf(),
                self@ == (MixerView { strips: self@.strips, ..old(self)@ }),
                old(self).wf(),
                forall|k: int|
                    0 <= k < t ==> #[trigger] self.strips@[k]@ == old(self).strips@[k]@.handled(
                        cmd,
                    ),
                forall|k: int|
                    t <= k < n ==> #[trigger] self.strips@[k]@ == old(self).strips@[k]@,
        {
            self.strips[t].handle_transport(cmd);
        }
        assert(self@.strips =~= old(self)@.strips.map_values(|s: StripView| s.handled(cmd)));
    }

    /// Follow a command: transport commands reach every track and the timeline, commands for a
    /// track reach that track, and commands for the master reach the master.
    pub fn handle(&mut self, cmd: Command)
        requires
            old(self).wf(),
        ensures
            final(self).wf(),
            final(self)@ == old(self)@.handled(cmd),
    {
        match cmd {
            Command::Play => {
                self.transport(cmd);
                self.rolling = true;
            },
            Command::Pause => {
                self.transport(cmd);
                self.rolling = false;
            },
            Command::Stop => {
                self.transport(cmd);
                self.rolling = false;
                self.playhead = 0;
            },
            Command::Seek(secs) => {
                self.transport(cmd);
                self.playhead = self.timeline_frame(secs);
            },
            Command::SetLooping(_) => {
                self.transport(cmd);
            },
            Command::ClearTrack(_) => {},
            Command::RemoveClip(_, _) => {},
            Command::MoveClip(t, slot, start_frame) => {
                if (t as usize) < self.strips.len() {
                    self.strips[t as usize].timeline.set_clip_start(slot as usize, start_frame);
                }
            },
            Command::ResizeClip(t, slot, length_frames) => {
                if (t as usize) < self.strips.len() {
                    self.strips[t as usize].timeline.set_clip_length(slot as usize, length_frames);
                }
            },
            Command::SetClipSourceOffset(t, slot, source_offset_frames) => {
                if (t as usize) < self.strips.len() {
                    self.strips[t as usize].timeline.set_clip_source_offset(
                        slot as usize,
                        source_offset_frames,
                    );
                }
            },
            Command::SetTrackGainDb(t, db) => {
                if (t as usize) < self.strips.len() {
                    self.strips[t as usize].chain.set_gain_db(db);
                }
            },
            Command::SetTrackGainLinear(t, linear) => {
                if (t as usize) < self.strips.len() {
                    self.strips[t as usize].chain.set_gain_linear(linear);
                }
            },
            Command::SetTrackPan(t, pan) => {
                if (t as usize) < self.strips.len() {
                    self.strips[t as usize].chain.set_pan(pan);
                }
            },
            Command::SetTrackEqBandKind(t, b, code) => {
                if (t as usize) < self.strips.len() {
                    self.strips[t as usize].chain.set_eq_band_kind(b, code);
                }
            },
            Command::SetTrackEqBandFreq(t, b, hz) => {
                if (t as usize) < self.strips.len() {
                    self.strips[t as usize].chain.set_eq_band_freq(b, hz);
                }
            },
            Command::SetTrackEqBandQ(t, b, q) => {
                if (t as usize) < self.strips.len() {
                    self.strips[t as usize].chain.set_eq_band_q(b, q);
                }
            },
            Command::SetTrackEqBandGainDb(t, b, db) => {
                if (t as usize) < self.strips.len() {
                    self.strips[t as usize].chain.set_eq_band_gain_db(b, db);
                }
            },
            Command::SetTrackEqBandEnabled(t, b, on) => {
                if (t as usize) < self.strips.len() {
                    self.strips[t as usize].chain.set_eq_band_enabled(b, on);
                }
            },
            Command::SetMasterGainDb(db) => {
                self.master.set_gain_db(db);
            },
            Command::SetMasterGainLinear(linear) => {
                self.master.set_gain_linear(linear);
            },
            Command::SetMasterPan(pan) => {
                self.master.set_pan(pan);
            },
        }
        assert(self@.strips =~= old(self)@.handled(cmd).strips);
    }

    fn timeline_frame(&self, secs: Single) -> (r: i64)
        ensures
            r == frame_at(secs, self.device_rate as int),
    {
        secs.times(self.device_rate as u64, 0, i64::MAX as u128) as i64
    }

    /// Load a clip into the player of a track. The clip that was there is handed back and not
    /// freed.
    pub fn set_clip(&mut self, t: u8, clip: Arc<AudioClip>) -> (r: Option<Arc<AudioClip>>)
        requires
            old(self).wf(),
            clip.wf(),
        ensures
            final(self).wf(),
            r == (if t < MAX_TRACKS {
                old(self)@.strips[t as int].player.clip
            } else {
                None
            }),
            final(self)@ == old(self)@.loaded(t as int, clip),
    {
        if (t as usize) < self.strips.len() {
            let displaced = self.strips[t as usize].set_clip(clip);
            assert(self@.strips =~= old(self)@.loaded(t as int, clip).strips);
            displaced
        } else {
            None
        }
    }

    /// Put a clip onto the timeline of a track. The clip that was in its slot is handed back and
    /// not freed.
    pub fn place_clip(&mut self, t: u8, clip: Arc<AudioClip>, at: Placement) -> (r: Option<
        TimelineClip,
    >)
        requires
            old(self).wf(),
            clip.wf(),
        ensures
            final(self).wf(),
            r == old(self)@.clip_at(t as int, at.slot as int),
            final(self)@ == old(self)@.with_slot(
                t as int,
                at.slot as int,
                Some(placed_clip(clip, at)),
            ),
    {
        let tc = TimelineClip {
            clip,
            start_frame: at.start_frame,
            length_frames: at.length_frames,
            source_offset_frames: at.source_offset_frames,
        };
        if (t as usize) < self.strips.len() {
            let displaced = self.strips[t as usize].timeline.set_clip(at.slot as usize, tc);
            assert(self@.strips =~= old(self)@.with_slot(
                t as int,
                at.slot as int,
                Some(placed_clip(clip, at)),
            ).strips);
            displaced
        } else {
            None
        }
    }

    /// Take a clip off the timeline of a track and hand it back.
    pub fn remove_clip(&mut self, t: u8, slot: u8) -> (r: Option<TimelineClip>)
        requires
            old(self).wf(),
        ensures
            final(self).wf(),
            r == old(self)@.clip_at(t as int, slot as int),
            final(self)@ == old(self)@.with_slot(t as int, slot as int, None),
    {
        if (t as usize) < self.strips.len() {
            let displaced = self.strips[t as usize].timeline.clear_clip(slot as usize);
            assert(self@.strips =~= old(self)@.with_slot(t as int, slot as int, None).strips);
            displaced
        } else {
            None
        }
    }

    /// Set a track back to the state it was built in. The clip of its player is handed back, and
    /// those of its timeline are put into `out`; none is freed.
    pub fn clear_track(&mut self, t: u8, out: &mut [Option<TimelineClip>]) -> (r: Option<
        Arc<AudioClip>,
    >)
        requires
            old(self).wf(),
            old(out)@.len() >= crate::sampler::MAX_CLIPS_PER_TRACK,
        ensures
            final(self).wf(),
            final(self)@ == old(self)@.with_fresh_strip(t as int),
            final(out)@.len() == old(out)@.len(),
            r == (if t < MAX_TRACKS {
                old(self)@.strips[t as int].player.clip
            } else {
                None
            }),
            forall|i: int|
                0 <= i < final(out)@.len() ==> #[trigger] final(out)@[i] == (if t < MAX_TRACKS && i
                    < crate::sampler::placed(old(self)@.strips[t as int].slots).len() {
                    Some(crate::sampler::placed(old(self)@.strips[t as int].slots)[i])
                } else {
                    old(out)@[i]
                }),
    {
        if (t as usize) < self.strips.len() {
            let displaced = self.strips[t as usize].clear(out);
            assert(self@.strips =~= old(self)@.with_fresh_strip(t as int).strips);
            displaced
        } else {
            None
        }
    }

    /// The position of the transport: that of the player of the first track.
    pub fn pos_frames(&self) -> (r: i64)
        requires
            self.wf(),
        ensures
            r == self@.strips[0].player.whole_frames(),
    {
        self.strips[0].pos_frames()
    }

    /// The rate of the clip that the position of the transport is counted in, or 0 where the first
    /// track has none.
    pub fn pos_rate(&self) -> (r: u32)
        requires
            self.wf(),
        ensures
            r == self@.pos_rate(),
    {
        match &self.strips[0].player.clip {
            Some(clip) => clip.sample_rate,
            None => 0,
        }
    }

    /// Whether the player of any track advances.
    pub fn is_playing(&self) -> (r: bool)
        requires
            self.wf(),
        ensures
            r == self@.playing(),
    {
        let n: usize = self.strips.len();
        for t in 0..n
            invariant
                n == MAX_TRACKS,
                self.wf(),
                forall|k: int| 0 <= k < t ==> !(#[trigger] self@.strips[k]).player.playing,
        {
            if self.strips[t].is_playing() {
                assert(self@.strips[t as int].player.playing);
                return true;
            }
        }
        false
    }

    /// The level of the left channel of a track, or zero where there is no such track.
    pub fn track_peak_left(&self, t: usize) -> (r: Single)
        requires
            self.wf(),
        ensures
            r == (if t < MAX_TRACKS {
                self@.strips[t as int].peak_l
            } else {
                Single::of(0)
            }),
    {
        if t < self.strips.len() {
            self.strips[t].peak_left()
        } else {
            Single::zero()
        }
    }

    /// The level of the right channel of a track, or zero where there is no such track.
    pub fn track_peak_right(&self, t: usize) -> (r: Single)
        requires
            self.wf(),
        ensures
            r == (if t < MAX_TRACKS {
                self@.strips[t as int].peak_r
            } else {
                Single::of(0)
            }),
    {
        if t < self.strips.len() {
            self.strips[t].peak_right()
        } else {
            Single::zero()
        }
    }

    /// The level of the left channel of the master.
    pub fn master_peak_left(&self) -> (r: Single)
        ensures
            r == self@.master_peak_l,
    {
        self.master_peak_l
    }

    /// The level of the right channel of the master.
    pub fn master_peak_right(&self) -> (r: Single)
        ensures
            r == self@.master_peak_r,
    {
        self.master_peak_r
    }

    /// The frames to render next when `samples` samples of an interleaved buffer are left: as many
    /// as fit a block. None are left at the end, nor where there are no channels.
    pub fn next_block(samples: usize, channels: usize) -> (r: usize)
        ensures
            r == block_frames(samples as int, channels as int),
    {
        if channels == 0 {
            return 0;
        }
        let frames: usize = samples / channels;
        if frames < MAX_BLOCK {
            frames
        } else {
            MAX_BLOCK
        }
    }

    /// Say where the sources of a track are read for a block of `taps.len()` frames, and move the
    /// player of the track past it. See [`Strip::plan_block`].
    pub fn plan_track(&mut self, t: usize, taps: &mut [Tap], spans: &mut Vec<Span>)
        requires
            old(self).wf(),
            t < MAX_TRACKS,
            old(taps)@.len() <= MAX_BLOCK,
        ensures
            final(self).wf(),
            final(self)@ == old(self)@.with_strip(
                t as int,
                |s: StripView| (StripView { player: s.player.after(old(taps)@.len()), ..s }),
            ),
            final(taps)@.len() == old(taps)@.len(),
            forall|i: int|
                0 <= i < final(taps)@.len() ==> #[trigger] final(taps)@[i]
                    == old(self)@.strips[t as int].player.after(i as nat).tap(),
            old(self)@.rolling ==> crate::sampler::answers(
                old(self)@.strips[t as int].slots,
                old(self)@.device_rate as int,
                old(self)@.playhead as int,
                old(taps)@.len() as int,
                final(spans)@,
            ),
            !old(self)@.rolling ==> final(spans)@.len() == 0,
    {
        let playhead: i64 = self.playhead;
        let rolling: bool = self.rolling;
        let ghost n = taps@.len();
        proof {
            crate::player::taps_lie_inside(self.strips@[t as int].player, n);
        }
        self.strips[t].plan_block(playhead, rolling, taps, spans);
        assert(self@.strips =~= old(self)@.with_strip(
            t as int,
            |s: StripView| (StripView { player: s.player.after(n), ..s }),
        ).strips);
    }

    /// Meter one frame of a track after its chain. See [`Strip::meter`].
    pub fn meter_track(
        &mut self,
        t: usize,
        decayed_l: Single,
        decayed_r: Single,
        l: Single,
        r: Single,
    )
        requires
            old(self).wf(),
            t < MAX_TRACKS,
        ensures
            final(self).wf(),
            final(self)@ == old(self)@.with_strip(
                t as int,
                |s: StripView|
                    (StripView {
                        peak_l: crate::strip::metered(decayed_l, l),
                        peak_r: crate::strip::metered(decayed_r, r),
                        ..s
                    }),
            ),
    {
        self.strips[t].meter(decayed_l, decayed_r, l, r);
        assert(self@.strips =~= old(self)@.with_strip(
            t as int,
            |s: StripView|
                (StripView {
                    peak_l: crate::strip::metered(decayed_l, l),
                    peak_r: crate::strip::metered(decayed_r, r),
                    ..s
                }),
        ).strips);
    }

    /// Put one frame of the mix out: meter it, spread it over the channels of the device, and send
    /// it to the oscilloscope, which drops it when it has fallen behind. `l` and `r` are the two
    /// sides after the master chain, `mono` is their average, and `decayed_l` and `decayed_r` are
    /// the levels after the release of one frame.
    pub fn emit_frame(
        &mut self,
        l: Single,
        r: Single,
        mono: Single,
        decayed_l: Single,
        decayed_r: Single,
        frame: &mut [Single],
        scope_tx: &mut Producer<Single>,
    )
        requires
            old(self).wf(),
        ensures
            final(self).wf(),
            final(self)@ == (MixerView {
                master_peak_l: crate::strip::metered(decayed_l, l),
                master_peak_r: crate::strip::metered(decayed_r, r),
                ..old(self)@
            }),
            final(frame)@ == device_frame(l, r, mono, old(frame)@.len()),
            crate::scope::sends_sample(*old(scope_tx), *final(scope_tx), mono),
    {
        self.master_peak_l = decayed_l.max(l.abs());
        self.master_peak_r = decayed_r.max(r.abs());
        let channels: usize = frame.len();
        if channels == 1 {
            frame[0] = mono;
        } else {
            for c in 0..channels
                invariant
                    channels == frame@.len(),
                    channels != 1,
                    forall|k: int|
                        0 <= k < c ==> #[trigger] frame@[k] == device_frame(
                            l,
                            r,
                            mono,
                            channels as nat,
                        )[k],
            {
                frame[c] = match c {
                    0 => l,
                    1 => r,
                    _ => Single::zero(),
                };
            }
        }
        assert(frame@ =~= device_frame(l, r, mono, channels as nat));
        let _dropped = push_sample(scope_tx, mono);
        assert(self@.strips =~= old(self)@.strips);
    }

    /// Move the timeline past a block that was rendered.
    pub fn finish_block(&mut self, frames: usize)
        requires
            old(self).wf(),
            frames <= MAX_BLOCK,
        ensures
            final(self).wf(),
            final(self)@ == (MixerView {
                playhead: old(self)@.playhead_after(frames as int) as i64,
                ..old(self)@
            }),
    {
        if self.rolling {
            if self.playhead > i64::MAX - frames as i64 {
                self.playhead = i64::MAX;
            } else {
                self.playhead = self.playhead + frames as i64;
            }
        }
        assert(self@.strips =~= old(self)@.strips);
    }
}

/// What is to be computed next for an interleaved device buffer.
#[derive(Clone, Copy, Debug, PartialEq, Eq, Structural)]
pub enum MixAction {
    /// Render a block of a track, run it through the chain of the track, meter it, and add it to
    /// the mix: see [`Mixer::plan_track`] and [`Mixer::meter_track`].
    Track { t: usize, frames: usize },
    /// Run the mix through the master chain.
    Master { frames: usize },
    /// Put the mix out, from sample `at` of the buffer on: see [`Mixer::emit_frame`].
    Emit { at: usize, frames: usize },
    /// Nothing: every whole frame of the buffer is filled.
    Done,
}

/// A device buffer that is being filled. It is worked through in blocks; for each block, all tracks
/// are rendered, in order, then the master chain runs, then the mix is put out.
#[derive(Clone, Copy, Debug, PartialEq, Eq, Structural)]
pub struct MixWalk {
    /// The number of samples of the buffer.
    pub samples: usize,
    pub channels: usize,
    /// The number of samples that are done.
    pub at: usize,
    /// How far the current block has come: the tracks, then the master, then the output.
    pub stage: usize,
}

impl MixWalk {
    /// What every walk satisfies.
    pub open spec fn wf(self) -> bool {
        &&& self.at <= self.samples
        &&& self.stage <= MAX_TRACKS + 1
    }

    /// Whether nothing is left to do: no whole frame is left.
    pub open spec fn finished(self) -> bool {
        self.channels == 0 || self.samples - self.at < self.channels
    }

    /// The frames of the current block.
    pub open spec fn block(self) -> int {
        block_frames(self.samples - self.at, self.channels as int)
    }

    /// What is to be done next.
    pub open spec fn action(self) -> MixAction {
        if self.finished() {
            MixAction::Done
        } else if self.stage < MAX_TRACKS {
            MixAction::Track { t: self.stage, frames: self.block() as usize }
        } else if self.stage == MAX_TRACKS {
            MixAction::Master { frames: self.block() as usize }
        } else {
            MixAction::Emit { at: self.at, frames: self.block() as usize }
        }
    }

    /// The walk after that.
    pub open spec fn further(self) -> MixWalk {
        if self.finished() {
            self
        } else if self.stage <= MAX_TRACKS {
            MixWalk { stage: (self.stage + 1) as usize, ..self }
        } else {
            MixWalk {
                at: (self.at + self.block() * self.channels) as usize,
                stage: 0,
                ..self
            }
        }
    }

    /// A buffer of `samples` samples at its start. What is left over at its end and makes no whole
    /// frame is left alone, and a device without channels gets nothing.
    pub fn new(samples: usize, channels: usize) -> (r: Self)
        ensures
            r.wf(),
            r == (MixWalk { samples, channels, at: 0, stage: 0 }),
    {
        MixWalk { samples, channels, at: 0, stage: 0 }
    }

    /// Say what is to be computed next, and move on. The timeline moves past a block when it is put
    /// out.
    pub fn next(&mut self, mixer: &mut Mixer) -> (r: MixAction)
        requires
            old(self).wf(),
            old(mixer).wf(),
        ensures
            final(self).wf(),
            final(mixer).wf(),
            r == old(self).action(),
            *final(self) == old(self).further(),
            r matches MixAction::Track { t, frames } ==> t < MAX_TRACKS && 0 < frames <= MAX_BLOCK,
            r matches MixAction::Master { frames } ==> 0 < frames <= MAX_BLOCK,
            r matches MixAction::Emit { at, frames } ==> {
                &&& 0 < frames <= MAX_BLOCK
                &&& at + frames * old(self).channels <= old(self).samples
            },
            final(mixer)@ == (if r is Emit {
                MixerView {
                    playhead: old(mixer)@.playhead_after(old(self).block()) as i64,
                    ..old(mixer)@
                }
            } else {
                old(mixer)@
            }),
    {
        if self.channels == 0 || self.samples - self.at < self.channels {
            return MixAction::Done;
        }
        proof {
            blocks_use_up_the_buffer(self.samples - self.at, self.channels as int);
            lemma_product_bound(self.block(), self.channels as int, self.samples - self.at);
        }
        let frames: usize = Mixer::next_block(self.samples - self.at, self.channels);
        let stage: usize = self.stage;
        if stage < MAX_TRACKS {
            self.stage = stage + 1;
            MixAction::Track { t: stage, frames }
        } else if stage == MAX_TRACKS {
            self.stage = stage + 1;
            MixAction::Master { frames }
        } else {
            let at: usize = self.at;
            self.at = at + frames * self.channels;
            self.stage = 0;
            mixer.finish_block(frames);
            MixAction::Emit { at, frames }
        }
    }
}

proof fn lemma_product_bound(a: int, b: int, bound: int)
    requires
        0 <= a,
        0 <= b,
        0 <= bound - a * b,
    ensures
        0 <= a * b <= bound,
{
    assert(0 <= a * b) by (nonlinear_arith)
        requires
            0 <= a,
            0 <= b,
    ;
}

/// The track that a command is for, if it is for one.
pub open spec fn addressee(cmd: Command) -> Option<int> {
    match cmd {
        Command::ClearTrack(t) => Some(t as int),
        Command::RemoveClip(t, _) => Some(t as int),
        Command::MoveClip(t, _, _) => Some(t as int),
        Command::ResizeClip(t, _, _) => Some(t as int),
        Command::SetClipSourceOffset(t, _, _) => Some(t as int),
        Command::SetTrackGainDb(t, _) => Some(t as int),
        Command::SetTrackGainLinear(t, _) => Some(t as int),
        Command::SetTrackPan(t, _) => Some(t as int),
        Command::SetTrackEqBandKind(t, _, _) => Some(t as int),
        Command::SetTrackEqBandFreq(t, _, _) => Some(t as int),
        Command::SetTrackEqBandQ(t, _, _) => Some(t as int),
        Command::SetTrackEqBandGainDb(t, _, _) => Some(t as int),
        Command::SetTrackEqBandEnabled(t, _, _) => Some(t as int),
        _ => None,
    }
}

/// A command for a track changes nothing but that track, and a command for a track that does not
/// exist changes nothing at all.
pub proof fn commands_reach_their_track(mixer: MixerView, cmd: Command, other: int)
    requires
        addressee(cmd) is Some,
        0 <= other < mixer.strips.len(),
        other != addressee(cmd)->0,
    ensures
        mixer.handled(cmd).strips[other] == mixer.strips[other],
        mixer.handled(cmd).strips.len() == mixer.strips.len(),
        mixer.handled(cmd).master == mixer.master,
        mixer.handled(cmd).playhead == mixer.playhead,
        mixer.handled(cmd).rolling == mixer.rolling,
        addressee(cmd)->0 >= mixer.strips.len() ==> mixer.handled(cmd) == mixer,
{
}

/// A transport command moves every track by the same command, and leaves every chain, every meter
/// and every clip on the timeline as it is.
pub proof fn transport_reaches_every_track(mixer: MixerView, cmd: Command, t: int)
    requires
        cmd is Play || cmd is Pause || cmd is Stop || cmd is Seek || cmd is SetLooping,
        0 <= t < mixer.strips.len(),
    ensures
        mixer.handled(cmd).strips[t] == (StripView {
            player: mixer.strips[t].player.handled(cmd),
            ..mixer.strips[t]
        }),
        mixer.handled(cmd).master == mixer.master,
{
}

/// Starting the transport makes the mixer play exactly where some track has a clip to play.
pub proof fn playing_takes_a_clip(mixer: MixerView)
    requires
        forall|t: int| 0 <= t < mixer.strips.len() ==> (#[trigger] mixer.strips[t]).player.wf(),
    ensures
        mixer.handled(Command::Play).playing() <==> exists|t: int|
            0 <= t < mixer.strips.len() && (#[trigger] mixer.strips[t]).player.clip is Some,
        mixer.playing() ==> exists|t: int|
            0 <= t < mixer.strips.len() && (#[trigger] mixer.strips[t]).player.clip is Some,
{
    let after = mixer.handled(Command::Play);
    assert forall|t: int| 0 <= t < mixer.strips.len() implies (
    #[trigger] after.strips[t]).player.playing == (mixer.strips[t].player.clip is Some) by {
        assert(mixer.strips[t].player.wf());
    }
    if exists|t: int|
        0 <= t < mixer.strips.len() && (#[trigger] mixer.strips[t]).player.clip is Some {
        let t = choose|t: int|
            0 <= t < mixer.strips.len() && (#[trigger] mixer.strips[t]).player.clip is Some;
        assert(after.strips[t].player.playing);
    }
}

/// A command for an equalizer band that does not exist, or for a clip slot that does not exist or
/// is empty, changes nothing.
pub proof fn commands_for_nothing_do_nothing(mixer: MixerView, cmd: Command)
    requires
        match cmd {
            Command::MoveClip(t, slot, _) => mixer.clip_at(t as int, slot as int) is None,
            Command::ResizeClip(t, slot, _) => mixer.clip_at(t as int, slot as int) is None,
            Command::SetClipSourceOffset(t, slot, _) => mixer.clip_at(
                t as int,
                slot as int,
            ) is None,
            Command::SetTrackEqBandKind(t, b, _) => b >= 4,
            Command::SetTrackEqBandFreq(t, b, _) => b >= 4,
            Command::SetTrackEqBandQ(t, b, _) => b >= 4,
            Command::SetTrackEqBandGainDb(t, b, _) => b >= 4,
            Command::SetTrackEqBandEnabled(t, b, _) => b >= 4,
            _ => false,
        },
        forall|t: int|
            0 <= t < mixer.strips.len() ==> (#[trigger] mixer.strips[t]).chain.bands.len() == 4,
    ensures
        mixer.handled(cmd) == mixer,
{
    assert(mixer.handled(cmd).strips =~= mixer.strips);
}

/// A track that was cleared is as it was built, whatever happened to it before, and the other
/// tracks do not notice.
pub proof fn cleared_tracks_are_fresh(mixer: MixerView, t: int, other: int)
    requires
        0 <= t < mixer.strips.len(),
        0 <= other < mixer.strips.len(),
    ensures
        mixer.with_fresh_strip(t).strips[other] == (if other == t {
            StripView::fresh(mixer.strips[t].player.device_rate, mixer.strips[t].chain.setup)
        } else {
            mixer.strips[other]
        }),
        mixer.with_fresh_strip(t).master == mixer.master,
        mixer.with_fresh_strip(t).playhead == mixer.playhead,
{
}

/// Taking a clip off the timeline undoes placing it in an empty slot.
pub proof fn removing_undoes_placing(mixer: MixerView, t: int, clip: Arc<AudioClip>, at: Placement)
    requires
        mixer.clip_at(t, at.slot as int) is None,
    ensures
        mixer.with_slot(t, at.slot as int, Some(placed_clip(clip, at))).with_slot(
            t,
            at.slot as int,
            None,
        ) == mixer,
        0 <= t < mixer.strips.len() && at.slot < mixer.strips[t].slots.len()
            ==> mixer.with_slot(t, at.slot as int, Some(placed_clip(clip, at))).clip_at(
            t,
            at.slot as int,
        ) == Some(placed_clip(clip, at)),
{
    let slot = at.slot as int;
    let there = mixer.with_slot(t, slot, Some(placed_clip(clip, at)));
    let back = there.with_slot(t, slot, None);
    if 0 <= t < mixer.strips.len() {
        assert(back.strips[t].slots =~= mixer.strips[t].slots);
        assert(back.strips =~= mixer.strips);
    }
}

/// The blocks of a buffer use up its whole frames: each is at least one frame and at most
/// [`MAX_BLOCK`], and what is left over at the end stays the same.
pub proof fn blocks_use_up_the_buffer(samples: int, channels: int)
    requires
        channels > 0,
        samples >= channels,
    ensures
        0 < block_frames(samples, channels) <= MAX_BLOCK,
        samples % channels <= samples - block_frames(samples, channels) * channels < samples,
        (samples - block_frames(samples, channels) * channels) % channels == samples % channels,
{
    let whole = samples / channels;
    let n = block_frames(samples, channels);
    vstd::arithmetic::div_mod::lemma_fundamental_div_mod(samples, channels);
    let over = samples % channels;
    vstd::arithmetic::div_mod::lemma_mod_division_less_than_divisor(samples, channels);
    assert(whole > 0) by (nonlinear_arith)
        requires
            samples == channels * whole + over,
            samples >= channels,
            over < channels,
            channels > 0,
    ;
    assert(0 < n * channels <= samples - over) by (nonlinear_arith)
        requires
            samples == channels * whole + over,
            over >= 0,
            0 < n <= whole,
            channels > 0,
    ;
    vstd::arithmetic::div_mod::lemma_mod_multiples_vanish(-n, samples, channels);
    assert(channels * (-n) + samples == samples - n * channels) by (nonlinear_arith);
}

/// A walk over a buffer comes to its end: every step either finishes a block, and with it some of
/// the buffer, or gets further within the block.
pub proof fn walks_come_to_an_end(walk: MixWalk)
    requires
        walk.wf(),
        !walk.finished(),
    ensures
        walk.further().wf(),
        walk.further().at > walk.at || walk.further().at == walk.at && walk.further().stage
            > walk.stage,
{
    blocks_use_up_the_buffer(walk.samples - walk.at, walk.channels as int);
}

impl MixWalk {
    /// How often, from here on, the walk puts out a sample of the buffer.
    pub open spec fn outputs(self, sample: int) -> nat
        decreases self.samples - self.at, MAX_TRACKS + 1 - self.stage,
    {
        if !self.wf() || self.finished() {
            0
        } else {
            proof {
                walks_come_to_an_end(self);
            }
            let now = match self.action() {
                MixAction::Emit { at, frames } => if at <= sample < at + frames * self.channels {
                    1nat
                } else {
                    0
                },
                _ => 0,
            };
            now + self.further().outputs(sample)
        }
    }
}

/// Every sample of a whole frame of a buffer is put out exactly once, and what is left over at its
/// end never.
pub proof fn every_sample_is_put_out_once(walk: MixWalk, sample: int)
    requires
        walk.wf(),
        walk.channels > 0,
        walk.at <= sample < walk.samples,
    ensures
        walk.outputs(sample) == (if sample < walk.samples - (walk.samples - walk.at) % (
        walk.channels as int) {
            1nat
        } else {
            0
        }),
{
    lemma_outputs(walk, sample);
}

proof fn lemma_outputs(walk: MixWalk, sample: int)
    requires
        walk.wf(),
        walk.channels > 0,
    ensures
        walk.outputs(sample) == (if walk.at <= sample < walk.samples - (walk.samples - walk.at) % (
        walk.channels as int) {
            1nat
        } else {
            0
        }),
    decreases walk.samples - walk.at, MAX_TRACKS + 1 - walk.stage,
{
    if !walk.finished() {
        walks_come_to_an_end(walk);
        blocks_use_up_the_buffer(walk.samples - walk.at, walk.channels as int);
        lemma_outputs(walk.further(), sample);
    } else {
        vstd::arithmetic::div_mod::lemma_small_mod(
            (walk.samples - walk.at) as nat,
            walk.channels as nat,
        );
    }
}

/// Moving the timeline past two blocks is moving it past one of their joint length.
pub proof fn timeline_blocks_join(mixer: MixerView, n: int, m: int)
    requires
        0 <= n,
        0 <= m,
    ensures
        (MixerView { playhead: mixer.playhead_after(n) as i64, ..mixer }).playhead_after(m)
            == mixer.playhead_after(n + m),
{
}

/// What is heard of a track does not depend on how the device cuts its buffers: rendering `n` frames
/// and then `m` more reads, frame for frame, what rendering all of them at once reads, from the
/// player and from the timeline.
pub proof fn buffers_may_be_cut_anywhere(
    mixer: MixerView,
    t: int,
    n: nat,
    m: nat,
    whole: Seq<Span>,
    first: Seq<Span>,
    second: Seq<Span>,
)
    requires
        0 <= t < mixer.strips.len(),
        mixer.rolling,
        mixer.playhead + n + m <= i64::MAX,
        crate::sampler::answers(
            mixer.strips[t].slots,
            mixer.device_rate as int,
            mixer.playhead as int,
            (n + m) as int,
            whole,
        ),
        crate::sampler::answers(
            mixer.strips[t].slots,
            mixer.device_rate as int,
            mixer.playhead as int,
            n as int,
            first,
        ),
        crate::sampler::answers(
            mixer.strips[t].slots,
            mixer.device_rate as int,
            mixer.playhead_after(n as int),
            m as int,
            second,
        ),
    ensures
        mixer.strips[t].player.after(n).after(m) == mixer.strips[t].player.after(n + m),
        forall|i: nat|
            i < m ==> #[trigger] mixer.strips[t].player.after(n).after(i).tap()
                == mixer.strips[t].player.after(n + i).tap(),
        forall|f: int|
            0 <= f < n ==> #[trigger] crate::sampler::heard(first, f) == crate::sampler::heard(
                whole,
                f,
            ),
        forall|f: int|
            0 <= f < m ==> #[trigger] crate::sampler::heard(second, f) == crate::sampler::heard(
                whole,
                n + f,
            ),
{
    let player = mixer.strips[t].player;
    crate::player::blocks_join(player, n, m);
    assert forall|i: nat| i < m implies #[trigger] player.after(n).after(i).tap() == player.after(
        n + i,
    ).tap() by {
        crate::player::blocks_join(player, n, i);
    }
    crate::sampler::split_render_matches_single_render(
        mixer.strips[t].slots,
        mixer.device_rate as int,
        mixer.playhead as int,
        n as int,
        m as int,
        whole,
        first,
        second,
    );
}

/// A frame of the mix goes onto the device as it is heard: with two channels or more, the left side
/// is on the first and the right side on the second, however many there are, and the others are
/// silent; with one, it is the mono mix.
pub proof fn sides_stay_on_their_channel(
    l: Single,
    r: Single,
    mono: Single,
    channels: nat,
    c: int,
)
    requires
        0 <= c < channels,
    ensures
        device_frame(l, r, mono, channels).len() == channels,
        channels == 1 ==> device_frame(l, r, mono, channels)[0] == mono,
        channels >= 2 ==> device_frame(l, r, mono, channels)[0] == l,
        channels >= 2 ==> device_frame(l, r, mono, channels)[1] == r,
        c >= 2 ==> device_frame(l, r, mono, channels)[c].bits == 0,
{
}

/// What moving the fader or the pan of a track leaves behind. A level of -60 dB or less is silence;
/// any other waits, as it was asked for but at most +12 dB, for its multiplier; what is no number
/// counts as the top. A multiplier, and a
/// position, is aimed at as it was asked for, held to its range. Nothing jumps, nothing else of the
/// track changes, and no other track does.
pub proof fn faders_go_where_they_are_moved(mixer: MixerView, t: u8, x: Single, other: int)
    requires
        t < mixer.strips.len(),
        0 <= other < mixer.strips.len(),
    ensures
        ({
            let before = mixer.strips[t as int];
            let by_db = mixer.handled(Command::SetTrackGainDb(t, x));
            let by_factor = mixer.handled(Command::SetTrackGainLinear(t, x));
            let by_pan = mixer.handled(Command::SetTrackPan(t, x));
            let low = Single::of(crate::dsp::gain::MIN_DB);
            let high = Single::of(crate::dsp::gain::MAX_DB);
            let top = Single::of(crate::dsp::gain::MAX_LINEAR);
            let left = Single::of(crate::dsp::pan::LEFT);
            let right = Single::of(crate::single::ONE);
            let zero = Single::of(0);
            let level = by_db.strips[t as int].chain.gain;
            let factor = by_factor.strips[t as int].chain.gain;
            let pan = by_pan.strips[t as int].chain.pan.pos;
            &&& x.at_most(low) ==> level.gain.target == zero && level.pending_db is None
            &&& low.below(x) && x.at_most(high) ==> level.pending_db == Some(x)
            &&& high.below(x) || x.nan() ==> level.pending_db == Some(high)
            &&& !x.at_most(low) ==> level.gain == before.chain.gain.gain
            &&& level.gain.current == before.chain.gain.gain.current
            &&& level.gain.coeff == before.chain.gain.gain.coeff
            &&& x.below(zero) ==> factor.gain.target == zero
            &&& zero.at_most(x) && x.at_most(top) ==> factor.gain.target == x
            &&& top.below(x) ==> factor.gain.target == top
            &&& x.nan() ==> factor.gain.target == x
            &&& factor.pending_db is None
            &&& factor.gain.current == before.chain.gain.gain.current
            &&& factor.gain.coeff == before.chain.gain.gain.coeff
            &&& x.below(left) ==> pan.target == left
            &&& left.at_most(x) && x.at_most(right) ==> pan.target == x
            &&& right.below(x) ==> pan.target == right
            &&& x.nan() ==> pan.target == x
            &&& pan.current == before.chain.pan.pos.current
            &&& pan.coeff == before.chain.pan.pos.coeff
            &&& by_db == (MixerView {
                strips: mixer.strips.update(
                    t as int,
                    StripView { chain: ChainView { gain: level, ..before.chain }, ..before },
                ),
                ..mixer
            })
            &&& by_factor == (MixerView {
                strips: mixer.strips.update(
                    t as int,
                    StripView { chain: ChainView { gain: factor, ..before.chain }, ..before },
                ),
                ..mixer
            })
            &&& by_pan == (MixerView {
                strips: mixer.strips.update(
                    t as int,
                    StripView {
                        chain: ChainView { pan: crate::dsp::pan::Pan { pos: pan }, ..before.chain },
                        ..before
                    },
                ),
                ..mixer
            })
            &&& other != t ==> by_db.strips[other] == mixer.strips[other]
        }),
{
}

/// What moving the master fader or pan leaves behind: the same as for a track, and no track changes.
pub proof fn master_faders_go_where_they_are_moved(mixer: MixerView, x: Single)
    ensures
        ({
            let by_db = mixer.handled(Command::SetMasterGainDb(x));
            let by_factor = mixer.handled(Command::SetMasterGainLinear(x));
            let by_pan = mixer.handled(Command::SetMasterPan(x));
            let low = Single::of(crate::dsp::gain::MIN_DB);
            let high = Single::of(crate::dsp::gain::MAX_DB);
            let top = Single::of(crate::dsp::gain::MAX_LINEAR);
            let left = Single::of(crate::dsp::pan::LEFT);
            let right = Single::of(crate::single::ONE);
            let zero = Single::of(0);
            let level = by_db.master.gain;
            let factor = by_factor.master.gain;
            let pan = by_pan.master.pan.pos;
            &&& x.at_most(low) ==> level.gain.target == zero && level.pending_db is None
            &&& low.below(x) && x.at_most(high) ==> level.pending_db == Some(x)
            &&& high.below(x) || x.nan() ==> level.pending_db == Some(high)
            &&& !x.at_most(low) ==> level.gain == mixer.master.gain.gain
            &&& level.gain.current == mixer.master.gain.gain.current
            &&& level.gain.coeff == mixer.master.gain.gain.coeff
            &&& x.below(zero) ==> factor.gain.target == zero
            &&& zero.at_most(x) && x.at_most(top) ==> factor.gain.target == x
            &&& top.below(x) ==> factor.gain.target == top
            &&& x.nan() ==> factor.gain.target == x
            &&& factor.pending_db is None
            &&& factor.gain.current == mixer.master.gain.gain.current
            &&& factor.gain.coeff == mixer.master.gain.gain.coeff
            &&& x.below(left) ==> pan.target == left
            &&& left.at_most(x) && x.at_most(right) ==> pan.target == x
            &&& right.below(x) ==> pan.target == right
            &&& x.nan() ==> pan.target == x
            &&& pan.current == mixer.master.pan.pos.current
            &&& pan.coeff == mixer.master.pan.pos.coeff
            &&& by_db == (MixerView {
                master: ChainView { gain: level, ..mixer.master },
                ..mixer
            })
            &&& by_factor == (MixerView {
                master: ChainView { gain: factor, ..mixer.master },
                ..mixer
            })
            &&& by_pan == (MixerView {
                master: ChainView { pan: crate::dsp::pan::Pan { pos: pan }, ..mixer.master },
                ..mixer
            })
        }),
{
}

/// What changing a band of the equalizer of a track leaves behind: the target that was asked for is
/// the very number that was asked for, sign included, and the band is to be computed anew. Nothing
/// else of the band changes, nor anything else of the mixer.
pub proof fn bands_are_aimed_as_asked(mixer: MixerView, t: u8, b: u8, x: Single)
    requires
        t < mixer.strips.len(),
        b < mixer.strips[t as int].chain.bands.len(),
    ensures
        ({
            let strip = mixer.strips[t as int];
            let band = strip.chain.bands[b as int];
            let put = |after: Band|
                (MixerView {
                    strips: mixer.strips.update(
                        t as int,
                        StripView {
                            chain: ChainView {
                                bands: strip.chain.bands.update(b as int, after),
                                ..strip.chain
                            },
                            ..strip
                        },
                    ),
                    ..mixer
                });
            &&& mixer.handled(Command::SetTrackEqBandFreq(t, b, x)) == put(
                Band {
                    freq: SmoothedParam { target: x, ..band.freq },
                    needs_coeffs: true,
                    ..band
                },
            )
            &&& mixer.handled(Command::SetTrackEqBandQ(t, b, x)) == put(
                Band { q: SmoothedParam { target: x, ..band.q }, needs_coeffs: true, ..band },
            )
            &&& mixer.handled(Command::SetTrackEqBandGainDb(t, b, x)) == put(
                Band {
                    gain_db: SmoothedParam { target: x, ..band.gain_db },
                    needs_coeffs: true,
                    ..band
                },
            )
        }),
{
}

/// What choosing the filter of a band, or switching it, leaves behind. The codes are 0 for a peak, 1
/// and 2 for the shelves, 3 for low-pass, 4 for high-pass, 5 for band-pass and 6 for notch, and any
/// other is a peak. A band that is switched on starts anew, and one that is switched off keeps what
/// it has.
pub proof fn bands_are_chosen_and_switched(mixer: MixerView, t: u8, b: u8, code: u8, on: bool)
    requires
        t < mixer.strips.len(),
        b < mixer.strips[t as int].chain.bands.len(),
    ensures
        ({
            let strip = mixer.strips[t as int];
            let band = strip.chain.bands[b as int];
            let put = |after: Band|
                (MixerView {
                    strips: mixer.strips.update(
                        t as int,
                        StripView {
                            chain: ChainView {
                                bands: strip.chain.bands.update(b as int, after),
                                ..strip.chain
                            },
                            ..strip
                        },
                    ),
                    ..mixer
                });
            let chosen = mixer.handled(Command::SetTrackEqBandKind(t, b, code));
            let kind = chosen.strips[t as int].chain.bands[b as int].kind;
            let blank = Memory { z1: Single::of(0), z2: Single::of(0) };
            &&& chosen == put(Band { kind, needs_coeffs: true, ..band })
            &&& kind == FilterKind::LowShelf <==> code == 1
            &&& kind == FilterKind::HighShelf <==> code == 2
            &&& kind == FilterKind::Lowpass <==> code == 3
            &&& kind == FilterKind::Highpass <==> code == 4
            &&& kind == FilterKind::Bandpass <==> code == 5
            &&& kind == FilterKind::Notch <==> code == 6
            &&& kind == FilterKind::Peak <==> code == 0 || code > 6
            &&& mixer.handled(Command::SetTrackEqBandEnabled(t, b, on)) == put(
                if on && !band.enabled {
                    Band {
                        enabled: true,
                        filter: Biquad { left: blank, right: blank, ..band.filter },
                        needs_coeffs: true,
                        ..band
                    }
                } else {
                    Band { enabled: on, ..band }
                },
            )
        }),
{
}

/// What moving, resizing or shifting a clip on the timeline leaves behind: the clip has the start,
/// the length or the offset that was asked for, and keeps everything else; so does the mixer.
pub proof fn clips_are_edited_as_asked(
    mixer: MixerView,
    t: u8,
    slot: u8,
    start_frame: i64,
    frames: u32,
)
    requires
        t < mixer.strips.len(),
        slot < mixer.strips[t as int].slots.len(),
        mixer.strips[t as int].slots[slot as int] is Some,
    ensures
        ({
            let strip = mixer.strips[t as int];
            let tc = strip.slots[slot as int]->0;
            let put = |after: TimelineClip|
                (MixerView {
                    strips: mixer.strips.update(
                        t as int,
                        StripView { slots: strip.slots.update(slot as int, Some(after)), ..strip },
                    ),
                    ..mixer
                });
            &&& mixer.handled(Command::MoveClip(t, slot, start_frame)) == put(
                TimelineClip { start_frame, ..tc },
            )
            &&& mixer.handled(Command::ResizeClip(t, slot, frames)) == put(
                TimelineClip { length_frames: frames, ..tc },
            )
            &&& mixer.handled(Command::SetClipSourceOffset(t, slot, frames)) == put(
                TimelineClip { source_offset_frames: frames, ..tc },
            )
        }),
{
}

/// What each transport command does to the timeline: starting and pausing leave it where it is,
/// stopping rewinds it, and only starting makes it move. Looping is no concern of it.
pub proof fn transport_moves_the_timeline(mixer: MixerView, secs: Single, on: bool)
    ensures
        mixer.handled(Command::Play).rolling,
        mixer.handled(Command::Play).playhead == mixer.playhead,
        !mixer.handled(Command::Pause).rolling,
        mixer.handled(Command::Pause).playhead == mixer.playhead,
        !mixer.handled(Command::Stop).rolling,
        mixer.handled(Command::Stop).playhead == 0,
        mixer.handled(Command::Seek(secs)).rolling == mixer.rolling,
        mixer.handled(Command::SetLooping(on)).rolling == mixer.rolling,
        mixer.handled(Command::SetLooping(on)).playhead == mixer.playhead,
{
}

/// Seeking moves the timeline to the last device frame at or before the time, counted from the
/// start of the project, as far as it can be counted. A time that is negative, or no number, is the
/// start. Times are compared as whole numbers: `scaled` is `2^149` times the time.
pub proof fn seeking_the_timeline_is_exact(mixer: MixerView, secs: Single)
    ensures
        ({
            let frame = mixer.handled(Command::Seek(secs)).playhead as int;
            let time = secs.scaled() * mixer.device_rate;
            let unit = vstd::arithmetic::power2::pow2(149) as int;
            &&& frame >= 0
            &&& secs.nan() || secs.key() <= 0 ==> frame == 0
            &&& !secs.nan() && secs.key() > 0 ==> frame * unit <= time
            &&& !secs.nan() && secs.key() > 0 && frame < i64::MAX ==> time < (frame + 1) * unit
        }),
{
    if !secs.nan() && secs.key() > 0 {
        let frame = frame_at(secs, mixer.device_rate as int);
        let whole = secs.floor_times(mixer.device_rate as int, 0);
        let unit = vstd::arithmetic::power2::pow2(149) as int;
        crate::single::whole_parts_are_exact(secs, mixer.device_rate as int, 0);
        vstd::arithmetic::power2::lemma2_to64();
        vstd::arithmetic::power2::lemma_pow2_pos(149);
        assert(secs.scaled() * mixer.device_rate * 1 == secs.scaled() * mixer.device_rate);
        assert(frame * unit <= whole * unit) by (nonlinear_arith)
            requires
                frame <= whole,
                unit > 0,
        ;
    }
}

/// The timeline moves past exactly as many frames as were rendered, as far as it can be counted, and
/// not at all while it does not roll.
pub proof fn the_timeline_moves_by_what_was_rendered(mixer: MixerView, frames: int)
    requires
        frames >= 0,
    ensures
        !mixer.rolling ==> mixer.playhead_after(frames) == mixer.playhead,
        mixer.rolling && mixer.playhead + frames <= i64::MAX ==> mixer.playhead_after(frames)
            - mixer.playhead == frames,
        mixer.rolling && mixer.playhead + frames > i64::MAX ==> mixer.playhead_after(frames)
            == i64::MAX,
{
}

/// A mixer as it is built has eight tracks without clips, whose chains and whose master leave the
/// signal as it is: faders at one, pans in the center, bands flat. Every meter is at zero, and the
/// timeline stands at its start.
pub proof fn mixers_start_transparent(device_rate: u32, setup: ChainSetup, t: int, slot: int)
    requires
        0 <= t < 8,
        0 <= slot < 64,
    ensures
        ({
            let mixer = MixerView::fresh(device_rate, setup);
            let strip = mixer.strips[t];
            &&& mixer.device_rate == device_rate
            &&& mixer.strips.len() == 8
            &&& strip.player == WavPlayer::fresh(device_rate)
            &&& strip.slots.len() == 64
            &&& strip.slots[slot] is None
            &&& strip.peak_l.bits == 0
            &&& strip.peak_r.bits == 0
            &&& transparent(strip.chain, setup)
            &&& transparent(mixer.master, setup)
            &&& mixer.master_peak_l.bits == 0
            &&& mixer.master_peak_r.bits == 0
            &&& mixer.playhead == 0
            &&& !mixer.rolling
        }),
{
}

/// Whether a chain leaves the signal as it is and rests there, with its parameters as they are
/// built.
pub open spec fn transparent(chain: ChainView, setup: ChainSetup) -> bool {
    let one = Single::of(0x3f80_0000);
    &&& chain.setup == setup
    &&& chain.gain.gain.current == one && chain.gain.gain.target == one
    &&& chain.gain.pending_db is None
    &&& chain.pan.pos.current.bits == 0 && chain.pan.pos.target.bits == 0
    &&& chain.bands.len() == 4
    &&& forall|i: int|
        0 <= i < 4 ==> {
            let band = #[trigger] chain.bands[i];
            &&& band.enabled && !band.needs_coeffs
            &&& band.gain_db.current.bits == 0 && band.gain_db.target.bits == 0
            &&& band.freq.current == band.freq.target
            &&& band.q.current == band.q.target
            &&& band.filter.coeffs == setup.flat@[i]
            &&& band.filter.left.z1.bits == 0 && band.filter.left.z2.bits == 0
            &&& band.filter.right.z1.bits == 0 && band.filter.right.z2.bits == 0
        }
}

/// A clip that is loaded into a track is in its player, at the start and stopped; a clip that is
/// placed is in its slot, with the start, the length and the offset that were asked for; and a clip
/// that is removed is gone. Nothing else of the mixer changes.
pub proof fn clips_go_where_they_are_sent(
    mixer: MixerView,
    t: int,
    clip: Arc<AudioClip>,
    at: Placement,
)
    requires
        0 <= t < mixer.strips.len(),
        at.slot < mixer.strips[t].slots.len(),
    ensures
        ({
            let strip = mixer.strips[t];
            let placed = TimelineClip {
                clip,
                start_frame: at.start_frame,
                length_frames: at.length_frames,
                source_offset_frames: at.source_offset_frames,
            };
            let slot = at.slot as int;
            &&& mixer.loaded(t, clip) == (MixerView {
                strips: mixer.strips.update(
                    t,
                    StripView {
                        player: WavPlayer {
                            clip: Some(clip),
                            pos: 0,
                            playing: false,
                            ..strip.player
                        },
                        ..strip
                    },
                ),
                ..mixer
            })
            &&& mixer.with_slot(t, slot, Some(placed_clip(clip, at))) == (MixerView {
                strips: mixer.strips.update(
                    t,
                    StripView { slots: strip.slots.update(slot, Some(placed)), ..strip },
                ),
                ..mixer
            })
            &&& mixer.with_slot(t, slot, None) == (MixerView {
                strips: mixer.strips.update(
                    t,
                    StripView { slots: strip.slots.update(slot, None), ..strip },
                ),
                ..mixer
            })
            &&& mixer.clip_at(t, slot) == strip.slots[slot]
        }),
{
}

impl MixWalk {
    /// The walk after `n` steps.
    pub open spec fn ahead(self, n: nat) -> MixWalk
        decreases n,
    {
        if n == 0 {
            self
        } else {
            self.ahead((n - 1) as nat).further()
        }
    }
}

/// A block is worked through in order: all tracks, from the first to the last, then the master, then
/// the output, from where the buffer is filled to; all of them for the same frames, which are as
/// many as are left, but no more than a block holds. Then the walk stands at the next block.
pub proof fn blocks_are_mixed_before_they_are_put_out(walk: MixWalk, n: nat)
    requires
        walk.wf(),
        walk.stage == 0,
        walk.channels > 0,
        walk.samples - walk.at >= walk.channels,
        n <= 10,
    ensures
        ({
            let left = (walk.samples - walk.at) / (walk.channels as int);
            let frames = if left < 4096 {
                left
            } else {
                4096
            };
            let action = walk.ahead(n).action();
            &&& n < 8 ==> action == (MixAction::Track { t: n as usize, frames: frames as usize })
            &&& n == 8 ==> action == (MixAction::Master { frames: frames as usize })
            &&& n == 9 ==> action == (MixAction::Emit { at: walk.at, frames: frames as usize })
            &&& n == 10 ==> walk.ahead(n) == (MixWalk {
                at: (walk.at + frames * walk.channels) as usize,
                ..walk
            })
        }),
{
    lemma_stages(walk, n);
    blocks_use_up_the_buffer(walk.samples - walk.at, walk.channels as int);
}

proof fn lemma_stages(walk: MixWalk, n: nat)
    requires
        walk.wf(),
        walk.stage == 0,
        !walk.finished(),
        n <= 10,
    ensures
        n < 10 ==> walk.ahead(n) == (MixWalk { stage: n as usize, ..walk }),
        n == 10 ==> walk.ahead(n) == (MixWalk {
            at: (walk.at + walk.block() * walk.channels) as usize,
            ..walk
        }),
    decreases n,
{
    if n > 0 {
        lemma_stages(walk, (n - 1) as nat);
    }
}

/// The mixer plays as soon as one of its tracks does, whichever it is, and only then.
pub proof fn one_track_is_enough_to_play(mixer: MixerView, t: int)
    requires
        0 <= t < mixer.strips.len(),
    ensures
        mixer.strips[t].player.playing ==> mixer.playing(),
        (forall|i: int| 0 <= i < mixer.strips.len() ==> !(#[trigger] mixer.strips[i]).player.playing)
            ==> !mixer.playing(),
{
}

/// A transport command touches the players and the timeline, and nothing else of the mixer.
pub proof fn transport_touches_nothing_else(mixer: MixerView, cmd: Command, t: int)
    requires
        cmd is Play || cmd is Pause || cmd is Stop || cmd is Seek || cmd is SetLooping,
        0 <= t < mixer.strips.len(),
    ensures
        ({
            let after = mixer.handled(cmd);
            &&& after == (MixerView {
                strips: after.strips,
                playhead: after.playhead,
                rolling: after.rolling,
                ..mixer
            })
            &&& after.strips.len() == mixer.strips.len()
            &&& after.strips[t] == (StripView {
                player: after.strips[t].player,
                ..mixer.strips[t]
            })
            &&& after.strips[t].player == mixer.strips[t].player.handled(cmd)
        }),
{
}

} // verus!
