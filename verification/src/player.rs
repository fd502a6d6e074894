//! [`WavPlayer`]: plays one clip from its start, at the rate of the output device.
//!
//! The player does not touch samples. For each output frame it says where in the clip to read, as a
//! [`Tap`], and the caller interpolates there.
//!
//! The position in the clip is exact: it is counted in units so small that both a device frame and
//! a clip frame are whole numbers of them, so a long playback does not drift.

use std::sync::Arc;

use rtrb::{Consumer, Producer};
use vstd::prelude::*;
use crate::clip::AudioClip;
use crate::commands::Command;
use crate::mixer::MAX_TRACKS;
use crate::rings::{new_clip_ring, new_retired_clip_ring};
use crate::sampler::MAX_CLIPS_PER_TRACK;
use crate::single::{Single, INFINITY};

verus! {

/// Where an output frame is read from.
#[derive(Clone, Copy, Debug, PartialEq, Eq, Structural)]
pub enum Tap {
    /// Nowhere: the frame is silent.
    Silence,
    /// Between the frames `frame` and `next` of a clip, `part / whole` of the way.
    Read { frame: usize, next: usize, part: u64, whole: u64 },
}

/// Plays one clip.
pub struct WavPlayer {
    /// Frames per second of the output device.
    pub device_rate: u32,
    /// The clip, if one is loaded.
    pub clip: Option<Arc<AudioClip>>,
    /// The position in the clip, in units of a clip frame over `device_rate * 2^31`, or over `2^31`
    /// where the device has no rate.
    pub pos: u128,
    /// Whether the position advances.
    pub playing: bool,
    /// Whether the clip starts over at its end.
    pub looping: bool,
}

/// A place on the timeline, for a clip that is sent to a track.
#[derive(Clone, Copy, Debug, PartialEq, Eq, Structural)]
pub struct Placement {
    /// The clip slot of the track.
    pub slot: u8,
    /// The device frame where the clip starts.
    pub start_frame: i64,
    /// The number of device frames that it lasts.
    pub length_frames: u32,
    /// The frame of the clip that it starts with.
    pub source_offset_frames: u32,
}

/// A clip on its way to a track: to the player of the track, or to a place on its timeline.
pub struct TrackedClip {
    pub track: u8,
    pub clip: Arc<AudioClip>,
    pub placement: Option<Placement>,
}

/// How finely positions are counted between the frames of a clip, besides the rate of the device.
pub const GRAIN: u64 = 0x8000_0000;

impl WavPlayer {
    /// What every player satisfies.
    pub open spec fn wf(self) -> bool {
        &&& self.clip matches Some(clip) ==> clip.wf()
        &&& self.playing ==> self.clip is Some
    }

    /// The rate that positions are counted by: that of the device, if it has one.
    pub open spec fn base(self) -> int {
        if self.device_rate == 0 {
            1
        } else {
            self.device_rate as int
        }
    }

    /// Position units per clip frame.
    pub open spec fn unit(self) -> int {
        self.base() * GRAIN
    }

    /// Position units per output frame: the clip advances by its rate over the device's rate.
    pub open spec fn step(self) -> int {
        self.clip->0.sample_rate * GRAIN
    }

    /// The position of the last frame of the clip. A clip without frames ends before it starts.
    pub open spec fn last(self) -> int {
        (self.clip->0.frames - 1) * self.unit()
    }

    /// Whether the position is at the end: there is no frame after it to interpolate to.
    pub open spec fn at_end(self) -> bool {
        self.pos >= self.last()
    }

    /// Whether the position is to advance at all.
    pub open spec fn running(self) -> bool {
        self.clip is Some && self.playing && self.clip->0.sample_rate > 0
    }

    /// The position after an output frame that is read at `pos`. Where the device has no rate, one
    /// step goes beyond the end of any clip.
    pub open spec fn advanced(self, pos: int) -> int {
        if self.device_rate == 0 {
            u128::MAX as int
        } else {
            pos + self.step()
        }
    }

    /// Whether the clip starts over at its end. One frame is too short for that.
    pub open spec fn wraps(self) -> bool {
        self.looping && self.clip->0.frames > 1
    }

    /// Whether the next output frame is read from the clip.
    pub open spec fn sounds(self) -> bool {
        self.running() && (!self.at_end() || self.wraps())
    }

    /// The position that the next output frame is read at. At the end of a clip that starts over,
    /// what the position overshot by is kept, unless it is more than the clip holds.
    pub open spec fn read_pos(self) -> int {
        if !self.at_end() {
            self.pos as int
        } else if self.pos - self.last() < self.last() {
            self.pos - self.last()
        } else {
            0
        }
    }

    /// Where the next output frame is read.
    pub open spec fn tap(self) -> Tap {
        if self.sounds() {
            Tap::Read {
                frame: (self.read_pos() / self.unit()) as usize,
                next: (self.read_pos() / self.unit() + 1) as usize,
                part: (self.read_pos() % self.unit()) as u64,
                whole: self.unit() as u64,
            }
        } else {
            Tap::Silence
        }
    }

    /// The player after one output frame.
    pub open spec fn after_frame(self) -> WavPlayer {
        if self.sounds() {
            WavPlayer { pos: self.advanced(self.read_pos()) as u128, ..self }
        } else if self.running() {
            WavPlayer { playing: false, ..self }
        } else {
            self
        }
    }

    /// The player after `n` output frames.
    pub open spec fn after(self, n: nat) -> WavPlayer
        decreases n,
    {
        if n == 0 {
            self
        } else {
            self.after((n - 1) as nat).after_frame()
        }
    }

    /// The player after a transport command. Other commands are not its concern.
    pub open spec fn handled(self, cmd: Command) -> WavPlayer {
        match cmd {
            Command::Play => if self.clip is Some {
                WavPlayer {
                    pos: if self.at_end() {
                        0
                    } else {
                        self.pos
                    },
                    playing: true,
                    ..self
                }
            } else {
                self
            },
            Command::Pause => WavPlayer { playing: false, ..self },
            Command::Stop => WavPlayer { playing: false, pos: 0, ..self },
            Command::Seek(secs) => if self.clip is Some {
                WavPlayer { pos: self.seek_pos(secs) as u128, ..self }
            } else {
                self
            },
            Command::SetLooping(on) => WavPlayer { looping: on, ..self },
            _ => self,
        }
    }

    /// The position of a time in the clip, held to its last frame. The time is multiplied by both
    /// rates before anything is cut off. A time without end is the end of any clip.
    pub open spec fn seek_pos(self, secs: Single) -> int {
        let target = secs.floor_times(self.clip->0.sample_rate * self.base(), 31);
        let end = if self.clip->0.frames == 0 {
            0
        } else {
            self.last()
        };
        if target < end && secs.bits != INFINITY {
            target
        } else {
            end
        }
    }

    /// A player as it is built: empty and stopped.
    pub open spec fn fresh(device_rate: u32) -> WavPlayer {
        WavPlayer { device_rate, clip: None, pos: 0, playing: false, looping: false }
    }

    /// The whole clip frames before the position, as far as they can be counted.
    pub open spec fn whole_frames(self) -> int {
        if self.pos as int / self.unit() > i64::MAX {
            i64::MAX as int
        } else {
            self.pos as int / self.unit()
        }
    }

    /// A player for a device of the given rate: empty and stopped.
    pub fn new(device_rate: u32) -> (r: Self)
        ensures
            r == WavPlayer::fresh(device_rate),
            r.wf(),
    {
        WavPlayer { device_rate, clip: None, pos: 0, playing: false, looping: false }
    }

    /// Load a clip, rewind and stop. The clip that was there is handed back and not freed.
    pub fn set_clip(&mut self, clip: Arc<AudioClip>) -> (r: Option<Arc<AudioClip>>)
        requires
            old(self).wf(),
            clip.wf(),
        ensures
            r == old(self).clip,
            *final(self) == (WavPlayer { clip: Some(clip), pos: 0, playing: false, ..*old(self) }),
            final(self).wf(),
    {
        let displaced = self.clip.take();
        self.clip = Some(clip);
        self.pos = 0;
        self.playing = false;
        displaced
    }

    /// Go back to the state the player was built in. The clip that was there is handed back and
    /// not freed.
    pub fn clear(&mut self) -> (r: Option<Arc<AudioClip>>)
        requires
            old(self).wf(),
        ensures
            r == old(self).clip,
            *final(self) == WavPlayer::fresh(old(self).device_rate),
            final(self).wf(),
    {
        self.pos = 0;
        self.playing = false;
        self.looping = false;
        self.clip.take()
    }

    /// Follow a transport command.
    pub fn handle(&mut self, cmd: Command)
        requires
            old(self).wf(),
        ensures
            *final(self) == old(self).handled(cmd),
            final(self).wf(),
    {
        match cmd {
            Command::Play => {
                if self.clip.is_some() {
                    if self.is_at_end() {
                        self.pos = 0;
                    }
                    self.playing = true;
                }
            },
            Command::Pause => {
                self.playing = false;
            },
            Command::Stop => {
                self.playing = false;
                self.pos = 0;
            },
            Command::Seek(secs) => {
                if self.clip.is_some() {
                    self.seek(secs);
                }
            },
            Command::SetLooping(on) => {
                self.looping = on;
            },
            _ => {},
        }
    }

    fn seek(&mut self, secs: Single)
        requires
            old(self).wf(),
            old(self).clip is Some,
        ensures
            *final(self) == (WavPlayer { pos: old(self).seek_pos(secs) as u128, ..*old(self) }),
            0 <= old(self).seek_pos(secs) <= u128::MAX,
    {
        let unit: u128 = self.frame_unit();
        let dev: u32 = if self.device_rate == 0 {
            1
        } else {
            self.device_rate
        };
        if let Some(clip) = &self.clip {
            let rate: u32 = clip.sample_rate;
            let frames: usize = clip.frames;
            proof {
                lemma_clip_fits(frames as int, dev as int);
                assert(0 <= rate * dev <= u32::MAX * u32::MAX) by (nonlinear_arith)
                    requires
                        0 <= rate <= u32::MAX,
                        0 <= dev <= u32::MAX,
                ;
            }
            let end: u128 = if frames == 0 {
                0
            } else {
                (frames - 1) as u128 * unit
            };
            let target: u128 = if secs.bits == INFINITY {
                end
            } else {
                secs.times(rate as u64 * dev as u64, 31, end)
            };
            proof {
                crate::single::scaling_keeps_whole_parts(secs, rate as int, dev as int, 31);
                lemma_not_negative(secs, rate * dev, 31);
            }
            self.pos = target;
        }
    }

    fn frame_unit(&self) -> (r: u128)
        ensures
            r == self.unit(),
            0 < r <= i64::MAX,
    {
        proof {
            lemma_clip_fits(0, self.base());
        }
        if self.device_rate == 0 {
            GRAIN as u128
        } else {
            self.device_rate as u128 * GRAIN as u128
        }
    }

    /// The position in whole clip frames.
    pub fn pos_frames(&self) -> (r: i64)
        requires
            self.wf(),
        ensures
            r == self.whole_frames(),
    {
        let unit: u128 = self.frame_unit();
        let whole: u128 = self.pos / unit;
        if whole > i64::MAX as u128 {
            i64::MAX
        } else {
            whole as i64
        }
    }

    /// Whether the position advances.
    pub fn is_playing(&self) -> (r: bool)
        ensures
            r == self.playing,
    {
        self.playing
    }

    fn is_at_end(&self) -> (r: bool)
        requires
            self.wf(),
            self.clip is Some,
        ensures
            r == self.at_end(),
    {
        match &self.clip {
            None => true,
            Some(clip) => {
                if clip.frames == 0 {
                    proof {
                        assert((0 - 1) * self.unit() < 0) by (nonlinear_arith)
                            requires
                                self.unit() > 0,
                        ;
                    }
                    true
                } else {
                    proof {
                        lemma_clip_fits(clip.frames as int, self.base());
                    }
                    let unit: u128 = self.frame_unit();
                    self.pos >= (clip.frames - 1) as u128 * unit
                }
            },
        }
    }

    /// Play one output frame: say where it is read, and move past it.
    pub fn next_frame(&mut self) -> (r: Tap)
        requires
            old(self).wf(),
        ensures
            r == old(self).tap(),
            *final(self) == old(self).after_frame(),
            final(self).wf(),
    {
        let (rate, frames): (u32, usize) = match &self.clip {
            Some(clip) if self.playing => (clip.sample_rate, clip.frames),
            _ => (0, 0),
        };
        if rate == 0 {
            return Tap::Silence;
        }
        let unit: u128 = self.frame_unit();
        let mut pos: u128 = self.pos;
        proof {
            lemma_clip_fits(frames as int, self.base());
        }
        if self.is_at_end() {
            if self.looping && frames > 1 {
                let last: u128 = (frames - 1) as u128 * unit;
                pos = pos - last;
                if pos >= last {
                    pos = 0;
                }
            } else {
                self.playing = false;
                return Tap::Silence;
            }
        }
        proof {
            lemma_tap_in_range(pos as int, frames as int, unit as int);
        }
        let frame: usize = (pos / unit) as usize;
        let part: u64 = (pos % unit) as u64;
        self.pos = if self.device_rate == 0 {
            u128::MAX
        } else {
            pos + rate as u128 * GRAIN as u128
        };
        Tap::Read { frame, next: frame + 1, part, whole: unit as u64 }
    }

    /// Play one block: say for each of its frames where it is read, and move past it.
    pub fn render(&mut self, taps: &mut [Tap])
        requires
            old(self).wf(),
        ensures
            final(taps)@.len() == old(taps)@.len(),
            forall|i: int|
                0 <= i < final(taps)@.len() ==> #[trigger] final(taps)@[i] == old(self).after(
                    i as nat,
                ).tap(),
            *final(self) == old(self).after(old(taps)@.len()),
            final(self).wf(),
    {
        let n: usize = taps.len();
        for f in 0..n
            invariant
                n == taps@.len(),
                n == old(taps)@.len(),
                self.wf(),
                *self == old(self).after(f as nat),
                forall|i: int|
                    0 <= i < f ==> #[trigger] taps@[i] == old(self).after(i as nat).tap(),
        {
            let tap = self.next_frame();
            taps[f] = tap;
        }
    }
}

/// The number of clips that can be under way to the audio thread.
pub const CLIP_RING_CAPACITY: usize = 16;

/// The number of clips that can be under way back. There is room for every clip that the audio
/// thread can hold, and for all that can be under way to it.
pub const RETIRE_RING_CAPACITY: usize = MAX_TRACKS * (MAX_CLIPS_PER_TRACK + 1)
    + CLIP_RING_CAPACITY;

/// A ring for clips on their way to the audio thread.
pub fn clip_channel() -> (r: (Producer<TrackedClip>, Consumer<TrackedClip>))
    ensures
        crate::rings::clips_sent(r.0) == Seq::<TrackedClip>::empty(),
        crate::rings::clips_room(r.0) == CLIP_RING_CAPACITY,
        crate::rings::clips_taken(r.1) == Seq::<TrackedClip>::empty(),
        crate::rings::clips_linked(r.0, r.1),
{
    new_clip_ring(CLIP_RING_CAPACITY)
}

/// A ring for clips on their way back, to be freed by the control thread.
pub fn retire_channel() -> (r: (Producer<Arc<AudioClip>>, Consumer<Arc<AudioClip>>))
    ensures
        crate::rings::retired_sent(r.0) == Seq::<Arc<AudioClip>>::empty(),
        crate::rings::retired_room(r.0) == RETIRE_RING_CAPACITY,
        crate::rings::retired_taken(r.1) == Seq::<Arc<AudioClip>>::empty(),
        crate::rings::retired_linked(r.0, r.1),
{
    new_retired_clip_ring(RETIRE_RING_CAPACITY)
}

/// Playing a block in two pieces is playing it in one: what is heard does not depend on how the
/// device cuts its buffers.
pub proof fn blocks_join(player: WavPlayer, n: nat, m: nat)
    ensures
        player.after(n).after(m) == player.after(n + m),
    decreases m,
{
    if m > 0 {
        blocks_join(player, n, (m - 1) as nat);
    }
}

/// Every tap lies inside the clip: both frames that it reads exist, and it is a proper part of the
/// way between them.
pub proof fn taps_lie_inside(player: WavPlayer, n: nat)
    requires
        player.wf(),
    ensures
        player.after(n).wf(),
        player.after(n).clip == player.clip,
        player.after(n).device_rate == player.device_rate,
        player.after(n).tap() matches Tap::Read { frame, next, part, whole } ==> {
            &&& player.clip is Some
            &&& next == frame + 1
            &&& next < player.clip->0.frames
            &&& part < whole
            &&& whole == player.unit()
        },
    decreases n,
{
    if n > 0 {
        taps_lie_inside(player, (n - 1) as nat);
    }
    let now = player.after(n);
    if now.sounds() {
        lemma_clip_fits(now.clip->0.frames as int, now.base());
        lemma_tap_in_range(now.read_pos(), now.clip->0.frames as int, now.unit());
    }
}

/// A player that is not playing stays where it is and is silent.
pub proof fn silent_until_played(player: WavPlayer, n: nat)
    requires
        !player.playing,
    ensures
        player.after(n) == player,
        player.after(n).tap() == Tap::Silence,
    decreases n,
{
    if n > 0 {
        silent_until_played(player, (n - 1) as nat);
    }
}

/// As long as the end is not reached, every output frame moves the position by exactly the ratio of
/// the two rates: nothing is lost to rounding, however long the playback.
pub proof fn playback_does_not_drift(player: WavPlayer, n: nat)
    requires
        player.wf(),
        player.running(),
        player.device_rate > 0,
        player.pos + n * player.step() < player.last() + player.step(),
    ensures
        player.after(n) == (WavPlayer { pos: (player.pos + n * player.step()) as u128, ..player }),
        player.pos + n * player.step() <= u128::MAX,
    decreases n,
{
    let step = player.step();
    lemma_clip_fits(player.clip->0.frames as int, player.base());
    if player.clip->0.frames == 0 {
        assert((0 - 1) * player.unit() < 0) by (nonlinear_arith)
            requires
                player.unit() > 0,
        ;
    }
    if n > 0 {
        let m = (n - 1) as nat;
        assert(n * step == m * step + step) by (nonlinear_arith)
            requires
                n == m + 1,
        ;
        assert(0 <= m * step) by (nonlinear_arith)
            requires
                0 <= step,
        ;
        playback_does_not_drift(player, m);
        let now = player.after(m);
        assert(now.step() == step && now.last() == player.last());
    } else {
        assert(0 * step == 0);
    }
}

/// Tracks stay in sync: players that were rewound and started together are, after any number of
/// output frames, at the same time of their clips, as long as neither has reached its end. Times
/// are compared as positions over rates.
pub proof fn tracks_stay_in_sync(a: WavPlayer, b: WavPlayer, n: nat)
    requires
        a.wf(),
        b.wf(),
        a.device_rate == b.device_rate,
        a.device_rate > 0,
        a.clip is Some,
        b.clip is Some,
        a.clip->0.sample_rate > 0,
        b.clip->0.sample_rate > 0,
        n * a.step() < a.last() + a.step(),
        n * b.step() < b.last() + b.step(),
    ensures
        ({
            let x = a.handled(Command::Stop).handled(Command::Play).after(n);
            let y = b.handled(Command::Stop).handled(Command::Play).after(n);
            &&& x.pos == n * a.step()
            &&& y.pos == n * b.step()
            &&& x.pos * b.clip->0.sample_rate == y.pos * a.clip->0.sample_rate
        }),
{
    let x = a.handled(Command::Stop).handled(Command::Play);
    let y = b.handled(Command::Stop).handled(Command::Play);
    playback_does_not_drift(x, n);
    playback_does_not_drift(y, n);
    let ra = a.clip->0.sample_rate as int;
    let rb = b.clip->0.sample_rate as int;
    assert(n * (ra * GRAIN) * rb == n * (rb * GRAIN) * ra) by (nonlinear_arith);
}

/// A clip that does not start over stops at its end: playback ends, the position is held, and
/// everything from there on is silent.
pub proof fn playback_stops_and_holds(player: WavPlayer, n: nat)
    requires
        player.running(),
        player.at_end(),
        !player.wraps(),
        n > 0,
    ensures
        player.after(n) == (WavPlayer { playing: false, ..player }),
        player.tap() == Tap::Silence,
        player.after(n).tap() == Tap::Silence,
{
    let stopped = WavPlayer { playing: false, ..player };
    assert(player.after(0) == player);
    assert(player.after(1) == stopped);
    blocks_join(player, 1, (n - 1) as nat);
    silent_until_played(stopped, (n - 1) as nat);
}

/// A clip that starts over never stops and is never silent, and its position stays within one step
/// of its end, on a device that has a rate.
pub proof fn looping_never_stops(player: WavPlayer, n: nat)
    requires
        player.wf(),
        player.running(),
        player.wraps(),
    ensures
        player.after(n).running(),
        player.after(n).wraps(),
        player.after(n).sounds(),
        player.after(n).clip == player.clip,
        player.after(n).device_rate == player.device_rate,
        n > 0 && player.device_rate > 0 ==> player.after(n).pos < player.last() + player.step(),
    decreases n,
{
    if n > 0 {
        looping_never_stops(player, (n - 1) as nat);
        lemma_clip_fits(player.clip->0.frames as int, player.base());
    }
}

/// Whatever the state, seeking lands inside the clip, stopping rewinds, and starting a loaded clip
/// leaves it playing from inside the clip.
pub proof fn transport_lands_inside(player: WavPlayer, cmd: Command)
    requires
        player.wf(),
        player.clip is Some,
        player.clip->0.frames > 1,
    ensures
        cmd is Seek ==> 0 <= player.handled(cmd).pos <= player.last(),
        cmd is Stop ==> player.handled(cmd).pos == 0 && !player.handled(cmd).playing,
        cmd is Play ==> player.handled(cmd).playing && !player.handled(cmd).at_end(),
        player.handled(cmd).clip == player.clip,
{
    let clip = player.clip->0;
    lemma_clip_fits(clip.frames as int, player.base());
    if let Command::Seek(secs) = cmd {
        lemma_not_negative(secs, clip.sample_rate * player.base(), 31);
    }
}

/// Seeking is exact: the whole frames before the new position are the whole part of the time, as
/// given, times the rate of the clip, held to the last frame. A negative time, or one that is not a
/// number, is the start, and a time without end is the last frame. Whether the player plays does
/// not change, and without a clip nothing does.
pub proof fn seeking_is_exact(player: WavPlayer, secs: Single)
    requires
        player.wf(),
    ensures
        player.clip is None ==> player.handled(Command::Seek(secs)) == player,
        player.handled(Command::Seek(secs)).playing == player.playing,
        player.clip matches Some(clip) ==> {
            let frame = secs.floor_times(clip.sample_rate as int, 0);
            let last = if clip.frames == 0 {
                0
            } else {
                clip.frames - 1
            };
            let held = if frame < last && secs.bits != INFINITY {
                frame
            } else {
                last
            };
            player.handled(Command::Seek(secs)).whole_frames() == if held < i64::MAX {
                held
            } else {
                i64::MAX as int
            }
        },
        secs.nan() || secs.key() <= 0 ==> secs.floor_times(
            player.clip->0.sample_rate as int,
            0,
        ) == 0,
{
    if let Some(clip) = player.clip {
        let rate = clip.sample_rate as int;
        let unit = player.unit();
        let target = secs.floor_times(rate * player.base(), 31);
        lemma_clip_fits(clip.frames as int, player.base());
        assert(0 <= rate * player.base()) by (nonlinear_arith)
            requires
                0 <= rate,
                0 <= player.base(),
        ;
        lemma_not_negative(secs, rate * player.base(), 31);
        vstd::arithmetic::power2::lemma2_to64();
        crate::single::scaling_keeps_whole_parts(secs, rate, player.base(), 31);
        let last = if clip.frames == 0 {
            0
        } else {
            clip.frames - 1
        };
        assert(0 * unit == 0);
        vstd::arithmetic::div_mod::lemma_div_by_multiple(last, unit);
        if target < last * unit && secs.bits != INFINITY {
            lemma_tap_in_range(target, last + 1, unit);
        } else if secs.bits != INFINITY {
            vstd::arithmetic::div_mod::lemma_div_is_ordered(last * unit, target, unit);
        }
    }
}

proof fn lemma_not_negative(secs: Single, factor: int, bits: nat)
    requires
        factor >= 0,
    ensures
        secs.floor_times(factor, bits) >= 0,
{
    if !secs.nan() && secs.key() > 0 {
        crate::single::order_is_numeric(Single::of(0), secs);
        vstd::arithmetic::power2::lemma_pow2_pos(bits);
        vstd::arithmetic::power2::lemma_pow2_pos(149);
        let p = vstd::arithmetic::power2::pow2(bits) as int;
        let part = secs.scaled() * factor;
        assert(part >= 0) by (nonlinear_arith)
            requires
                secs.scaled() >= 0,
                factor >= 0,
                part == secs.scaled() * factor,
        ;
        assert(part * p >= 0) by (nonlinear_arith)
            requires
                part >= 0,
                p > 0,
        ;
        vstd::arithmetic::div_mod::lemma_div_pos_is_pos(
            part * p,
            vstd::arithmetic::power2::pow2(149) as int,
        );
    }
}

proof fn lemma_clip_fits(frames: int, dev: int)
    requires
        0 <= frames <= u64::MAX,
        0 < dev <= u32::MAX,
    ensures
        0 < dev * GRAIN <= i64::MAX,
        frames > 0 ==> 0 <= (frames - 1) * (dev * GRAIN) <= u64::MAX * (u32::MAX * GRAIN),
        frames > 1 ==> 0 < (frames - 1) * (dev * GRAIN),
        u64::MAX * (u32::MAX * GRAIN) + u32::MAX * GRAIN <= u128::MAX,
{
    if frames > 0 {
        let unit = dev * GRAIN;
        assert(0 <= (frames - 1) * unit <= u64::MAX * (u32::MAX * GRAIN)) by (nonlinear_arith)
            requires
                0 < frames <= u64::MAX,
                0 < unit <= u32::MAX * GRAIN,
        ;
        assert(frames > 1 ==> 0 < (frames - 1) * unit) by (nonlinear_arith)
            requires
                unit > 0,
        ;
    }
}

proof fn lemma_tap_in_range(pos: int, frames: int, unit: int)
    requires
        0 <= pos < (frames - 1) * unit,
        unit > 0,
    ensures
        0 <= pos / unit < frames - 1,
        0 <= pos % unit < unit,
{
    vstd::arithmetic::div_mod::lemma_div_pos_is_pos(pos, unit);
    assert((frames - 1) * unit == unit * (frames - 1)) by (nonlinear_arith);
    vstd::arithmetic::div_mod::lemma_multiply_divide_lt(pos, unit, frames - 1);
    vstd::arithmetic::div_mod::lemma_mod_division_less_than_divisor(pos, unit);
}

/// Playback keeps time. A clip that was rewound and started is, `n` output frames later, read exactly
/// `n * sample_rate / device_rate` clip frames after its first one: between the frame at or before
/// that place and the one after it, as far into the gap as the place is.
pub proof fn playback_keeps_time(player: WavPlayer, n: nat)
    requires
        player.wf(),
        player.clip is Some,
        player.clip->0.sample_rate > 0,
        player.device_rate > 0,
        n * player.clip->0.sample_rate < (player.clip->0.frames - 1) * player.device_rate,
    ensures
        player.handled(Command::Stop).handled(Command::Play).after(n).tap() matches Tap::Read {
            frame,
            next,
            part,
            whole,
        } && {
            &&& part < whole
            &&& next == frame + 1
            &&& next < player.clip->0.frames
            &&& (frame * whole + part) * player.device_rate == n * player.clip->0.sample_rate
                * whole
        },
        player.handled(Command::Stop).handled(Command::Play).after(n).playing,
{
    let rate = player.clip->0.sample_rate as int;
    let dev = player.device_rate as int;
    let last = player.clip->0.frames - 1;
    let start = player.handled(Command::Stop).handled(Command::Play);
    let unit = start.unit();
    let pos = n * start.step();
    lemma_clip_fits(player.clip->0.frames as int, dev);
    assert(n * rate >= 0) by (nonlinear_arith)
        requires
            rate >= 0,
            n >= 0,
    ;
    assert(pos == n * rate * GRAIN) by (nonlinear_arith)
        requires
            pos == n * (rate * GRAIN),
    ;
    assert(last * unit == last * dev * GRAIN) by (nonlinear_arith)
        requires
            unit == dev * GRAIN,
    ;
    assert(pos < last * unit);
    playback_does_not_drift(start, n);
    let now = start.after(n);
    lemma_tap_in_range(pos, player.clip->0.frames as int, unit);
    vstd::arithmetic::div_mod::lemma_fundamental_div_mod(pos, unit);
    let frame = pos / unit;
    let part = pos % unit;
    assert(unit * frame == frame * unit) by (nonlinear_arith);
    assert(pos * dev == n * rate * unit) by (nonlinear_arith)
        requires
            pos == n * rate * GRAIN,
            unit == dev * GRAIN,
    ;
}

/// Wherever playback is, one output frame later it is read `sample_rate / device_rate` clip frames
/// further on, as long as it does not reach the end.
pub proof fn every_frame_takes_a_step(player: WavPlayer)
    requires
        player.wf(),
        player.running(),
        player.device_rate > 0,
        player.tap() is Read,
        player.after_frame().tap() is Read,
        !player.at_end(),
        !player.after_frame().at_end(),
    ensures
        player.tap() matches Tap::Read { frame, part, whole, .. } && {
            &&& player.after_frame().tap() matches Tap::Read {
                frame: frame2,
                part: part2,
                whole: whole2,
                ..
            } && {
                &&& whole2 == whole
                &&& (frame2 * whole + part2 - (frame * whole + part)) * player.device_rate
                    == player.clip->0.sample_rate * whole
            }
        },
{
    let rate = player.clip->0.sample_rate as int;
    let dev = player.device_rate as int;
    let unit = player.unit();
    let next = player.after_frame();
    lemma_clip_fits(player.clip->0.frames as int, dev);
    lemma_tap_in_range(player.pos as int, player.clip->0.frames as int, unit);
    lemma_tap_in_range(next.pos as int, player.clip->0.frames as int, unit);
    vstd::arithmetic::div_mod::lemma_fundamental_div_mod(player.pos as int, unit);
    vstd::arithmetic::div_mod::lemma_fundamental_div_mod(next.pos as int, unit);
    let a = player.pos as int / unit;
    let b = next.pos as int / unit;
    assert(unit * a == a * unit && unit * b == b * unit) by (nonlinear_arith);
    assert((rate * GRAIN) * dev == rate * unit) by (nonlinear_arith)
        requires
            unit == dev * GRAIN,
    ;
}

/// The position that is reported is the frame that is read next, as far as it can be counted.
pub proof fn reported_positions_are_read(player: WavPlayer)
    requires
        player.wf(),
        player.running(),
        !player.at_end(),
        player.clip->0.frames <= i64::MAX,
    ensures
        player.tap() matches Tap::Read { frame, .. } && frame == player.whole_frames(),
{
    lemma_clip_fits(player.clip->0.frames as int, player.base());
    lemma_tap_in_range(player.pos as int, player.clip->0.frames as int, player.unit());
}

/// A clip that starts over continues past its end where it overshot to: reading goes on as far from
/// the first frame as the position was beyond the last one. Only a step longer than the whole clip
/// starts over at the first frame itself.
pub proof fn loops_keep_the_overshoot(player: WavPlayer)
    requires
        player.wf(),
        player.playing,
        player.looping,
        player.clip->0.sample_rate > 0,
        player.clip->0.frames > 1,
        player.pos >= (player.clip->0.frames - 1) * player.unit(),
    ensures
        player.tap() matches Tap::Read { frame, next, part, whole } && {
            let over = player.pos - (player.clip->0.frames - 1) * whole;
            &&& part < whole
            &&& next == frame + 1
            &&& frame * whole + part == (if over < (player.clip->0.frames - 1) * whole {
                over
            } else {
                0
            })
        },
{
    let unit = player.unit();
    let frames = player.clip->0.frames as int;
    lemma_clip_fits(frames, player.base());
    lemma_tap_in_range(player.read_pos(), frames, unit);
    vstd::arithmetic::div_mod::lemma_fundamental_div_mod(player.read_pos(), unit);
    let a = player.read_pos() / unit;
    assert(unit * a == a * unit) by (nonlinear_arith);
}

/// What each transport command does to a player: starting resumes at the position, or at the start
/// once the last frame was reached, and takes a clip; pausing holds the position; stopping rewinds;
/// looping is switched and nothing else; seeking moves the position and nothing else. None of them
/// touches the clip, and no other command touches the player.
pub proof fn transport_does_what_it_says(
    player: WavPlayer,
    on: bool,
    secs: Single,
    other: Command,
)
    requires
        player.wf(),
    ensures
        player.handled(Command::Pause) == (WavPlayer { playing: false, ..player }),
        player.handled(Command::Stop) == (WavPlayer { playing: false, pos: 0, ..player }),
        player.handled(Command::SetLooping(on)) == (WavPlayer { looping: on, ..player }),
        player.handled(Command::Seek(secs)) == (WavPlayer {
            pos: player.handled(Command::Seek(secs)).pos,
            ..player
        }),
        !(other is Play) && !(other is Pause) && !(other is Stop) && !(other is Seek) && !(
        other is SetLooping) ==> player.handled(other) == player,
        player.clip is None ==> player.handled(Command::Play) == player,
        player.clip matches Some(clip) ==> {
            let beyond = player.pos >= (clip.frames - 1) * player.unit();
            player.handled(Command::Play) == (WavPlayer {
                playing: true,
                pos: if beyond {
                    0
                } else {
                    player.pos
                },
                ..player
            })
        },
{
}

/// A player as it is built holds no clip, stands at the start and does not play.
pub proof fn players_start_empty(device_rate: u32)
    ensures
        ({
            let player = WavPlayer::fresh(device_rate);
            &&& player.device_rate == device_rate
            &&& player.clip is None
            &&& player.pos == 0
            &&& !player.playing
            &&& !player.looping
            &&& player.tap() == Tap::Silence
        }),
{
}

/// Playback ends at the last frame: a clip that was rewound and started, and does not start over, is
/// silent from the first output frame on that would be read at its last frame or beyond.
pub proof fn playback_ends_at_the_last_frame(player: WavPlayer, n: nat)
    requires
        player.wf(),
        player.clip is Some,
        player.clip->0.sample_rate > 0,
        player.device_rate > 0,
        !player.looping,
        n * player.clip->0.sample_rate >= (player.clip->0.frames - 1) * player.device_rate,
    ensures
        player.handled(Command::Stop).handled(Command::Play).after(n).tap() == Tap::Silence,
    decreases n,
{
    let rate = player.clip->0.sample_rate as int;
    let dev = player.device_rate as int;
    let last = player.clip->0.frames - 1;
    let start = player.handled(Command::Stop).handled(Command::Play);
    let unit = start.unit();
    lemma_clip_fits(player.clip->0.frames as int, dev);
    assert(last * unit == last * dev * GRAIN) by (nonlinear_arith)
        requires
            unit == dev * GRAIN,
    ;
    if n == 0 {
        assert(0 * rate == 0);
        assert(last * unit <= 0);
    } else {
        let m = (n - 1) as nat;
        assert(n * rate == m * rate + rate) by (nonlinear_arith)
            requires
                n == m + 1,
        ;
        if m * rate >= last * dev {
            playback_ends_at_the_last_frame(player, m);
        } else {
            let pos = n * start.step();
            assert(pos == n * rate * GRAIN) by (nonlinear_arith)
                requires
                    pos == n * (rate * GRAIN),
            ;
            playback_does_not_drift(start, n);
            assert(start.after(n).at_end());
        }
    }
}

/// Seeking lands between frames too, as close to the time as positions are counted, and from below:
/// the place that is read next is the time, as given, times the rate of the clip, but for less than a
/// part of a frame that is one over the device's rate times `2^31`; or it is the last frame, where
/// the time is not before that. Times are compared as whole numbers: `scaled` is `2^149` times the
/// time.
pub proof fn seeking_lands_between_frames(player: WavPlayer, secs: Single)
    requires
        player.wf(),
        player.clip is Some,
        player.clip->0.frames > 0,
        !secs.nan(),
        secs.key() > 0,
        secs.bits != INFINITY,
    ensures
        ({
            let clip = player.clip->0;
            let unit = player.unit();
            let pos = player.handled(Command::Seek(secs)).pos as int;
            let last = (clip.frames - 1) * unit;
            let time = secs.scaled() * clip.sample_rate * unit;
            let scale = vstd::arithmetic::power2::pow2(149) as int;
            &&& unit >= player.device_rate * 0x8000_0000
            &&& 0 <= pos <= last
            &&& pos * scale <= time
            &&& pos < last ==> time < (pos + 1) * scale
        }),
{
    let rate = player.clip->0.sample_rate as int;
    let base = player.base();
    let unit = player.unit();
    let scale = vstd::arithmetic::power2::pow2(149) as int;
    lemma_clip_fits(player.clip->0.frames as int, base);
    vstd::arithmetic::power2::lemma2_to64();
    vstd::arithmetic::power2::lemma_pow2_pos(149);
    assert(rate * base >= 0) by (nonlinear_arith)
        requires
            rate >= 0,
            base >= 0,
    ;
    lemma_not_negative(secs, rate * base, 31);
    crate::single::whole_parts_are_exact(secs, rate * base, 31);
    let target = secs.floor_times(rate * base, 31);
    let pos = player.handled(Command::Seek(secs)).pos as int;
    let value = secs.scaled();
    assert(value * (rate * base) * 0x8000_0000 == value * rate * unit) by (nonlinear_arith)
        requires
            unit == base * 0x8000_0000,
    ;
    assert(pos * scale <= target * scale) by (nonlinear_arith)
        requires
            pos <= target,
            scale > 0,
    ;
}

/// A clip without a rate is silent and stays where it is. On a device without a rate one frame of a
/// clip is read and then, as if the step were without end, the clip is over; one that starts over is
/// read at its first frame from then on.
pub proof fn missing_rates_do_no_harm(player: WavPlayer)
    requires
        player.wf(),
        player.playing,
        player.clip is Some,
    ensures
        player.clip->0.sample_rate == 0 ==> player.tap() == Tap::Silence && player.after_frame()
            == player,
        player.clip->0.sample_rate > 0 && player.device_rate == 0 && player.tap() is Read ==> {
            let next = player.after_frame();
            &&& player.looping && player.clip->0.frames > 1 ==> (next.tap() matches Tap::Read {
                frame,
                part,
                ..
            } && frame == 0 && part == 0)
            &&& !player.looping ==> next.tap() == Tap::Silence && !next.after_frame().playing
        },
{
    let frames = player.clip->0.frames as int;
    lemma_clip_fits(frames, player.base());
    if player.clip->0.sample_rate > 0 && player.device_rate == 0 && player.tap() is Read {
        let next = player.after_frame();
        assert(next.pos == u128::MAX);
        assert(next.last() == player.last());
        if player.looping && frames > 1 {
            assert(u64::MAX * (u32::MAX * GRAIN) * 2 <= u128::MAX);
            assert(next.read_pos() == 0);
            assert(next.sounds());
            vstd::arithmetic::div_mod::lemma_basic_div(0, player.unit());
            vstd::arithmetic::div_mod::lemma_small_mod(0, player.unit() as nat);
        }
        if !player.looping {
            assert(frames > 0);
            assert(next.at_end());
        }
    }
}

/// The position that is reported is the number of whole frames before it, whether the clip plays or
/// not, as far as it can be counted.
pub proof fn reported_positions_are_whole_frames(player: WavPlayer)
    ensures
        ({
            let frames = player.whole_frames();
            &&& 0 <= frames <= i64::MAX
            &&& frames * player.unit() <= player.pos
            &&& frames < i64::MAX ==> player.pos < (frames + 1) * player.unit()
        }),
{
    let unit = player.unit();
    let pos = player.pos as int;
    let whole = pos / unit;
    let frames = player.whole_frames();
    lemma_clip_fits(0, player.base());
    vstd::arithmetic::div_mod::lemma_fundamental_div_mod(pos, unit);
    vstd::arithmetic::div_mod::lemma_mod_division_less_than_divisor(pos, unit);
    vstd::arithmetic::div_mod::lemma_div_pos_is_pos(pos, unit);
    assert(unit * whole == whole * unit) by (nonlinear_arith);
    assert((whole + 1) * unit == whole * unit + unit) by (nonlinear_arith);
    assert(frames * unit <= whole * unit) by (nonlinear_arith)
        requires
            frames <= whole,
            unit > 0,
    ;
}

} // verus!
