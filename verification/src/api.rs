//! What a user interface asks of the engine, and the values that it gets to see.
//!
//! A user interface counts tracks, slots and bands in 32 bits, the engine in 8. An index that is too
//! large for the engine is capped, so that it stays too large and nothing happens; so is the code of
//! a filter, which then stays unknown and makes a peak.

use std::sync::Arc;

use vstd::prelude::*;
use crate::audio::{Engine, Snapshot};
use crate::clip::{AudioClip, Fraction};
use crate::commands::Command;
use crate::mixer::MAX_TRACKS;
use crate::player::{Placement, TrackedClip};
use crate::sampler::{whole_length, MAX_CLIPS_PER_TRACK};
use crate::single::Single;

verus! {

/// The number of columns that a waveform is summarized in.
pub const WAVEFORM_BUCKETS: usize = 2000;

/// The rate that is assumed as long as there is no device, in Hz.
pub const ASSUMED_RATE: u32 = 48_000;

/// What there is to know of a clip that was loaded.
pub struct LoadedClip {
    pub sample_rate: u32,
    pub channels: u32,
    pub frames: u64,
    pub duration_secs: Fraction,
    pub waveform_min: Vec<Single>,
    pub waveform_max: Vec<Single>,
}

/// The state of the transport.
#[derive(Clone, Copy, Debug, PartialEq, Eq, Structural)]
pub struct PlaybackStatus {
    /// The position of the transport in seconds from the start of the clip.
    pub position_secs: Fraction,
    /// Whether any track plays.
    pub playing: bool,
    /// The position of the timeline in seconds.
    pub timeline_secs: Fraction,
    /// Whether the timeline moves.
    pub rolling: bool,
}

/// The levels of all tracks and of the master.
pub struct MixerMeters {
    pub track_peaks_l: Vec<Single>,
    pub track_peaks_r: Vec<Single>,
    pub master_peak_l: Single,
    pub master_peak_r: Single,
}

/// The number of tracks.
pub fn max_tracks() -> (r: u32)
    ensures
        r == MAX_TRACKS,
{
    MAX_TRACKS as u32
}

/// The number of clips that a track can have on the timeline.
pub fn max_clips_per_track() -> (r: u32)
    ensures
        r == MAX_CLIPS_PER_TRACK,
{
    MAX_CLIPS_PER_TRACK as u32
}

/// An index for the engine that stays too large where it was too large.
pub open spec fn capped(index: u32) -> u8 {
    if index < 255 {
        index as u8
    } else {
        255
    }
}

/// An index for the engine. One that is too large stays too large for any track, slot or band.
pub fn capped_index(index: u32) -> (r: u8)
    ensures
        r == capped(index),
{
    if index < 255 {
        index as u8
    } else {
        255
    }
}

/// How long a clip that is placed lasts on the timeline.
pub open spec fn placed_length(length_frames: u32, clip: AudioClip, device_rate: u32) -> int {
    if length_frames == 0 {
        crate::sampler::full_length(clip, device_rate as int)
    } else {
        length_frames as int
    }
}

/// How long a clip that is placed lasts on the timeline: as long as was asked for, or, where
/// nothing was asked for, as long as it takes to play it whole.
pub fn effective_length(length_frames: u32, clip: &AudioClip, device_rate: u32) -> (r: u32)
    ensures
        r == placed_length(length_frames, *clip, device_rate),
{
    if length_frames == 0 {
        whole_length(clip, device_rate)
    } else {
        length_frames
    }
}

/// An index never stands for another one: one that is too large for a pool of `n` stays too large,
/// and the others stay what they are.
pub proof fn indices_are_never_mistaken(index: u32, n: int)
    requires
        0 <= n <= 255,
    ensures
        capped(index) < n <==> index < n,
        index < n ==> capped(index) == index,
{
}

/// The rate that the engine runs at, or the one that is assumed while it does not run.
pub fn engine_sample_rate(engine: Option<&Engine>) -> (r: u32)
    ensures
        r == (match engine {
            Some(e) => e.device_rate,
            None => ASSUMED_RATE,
        }),
{
    match engine {
        Some(e) => e.sample_rate(),
        None => ASSUMED_RATE,
    }
}

impl LoadedClip {
    /// Whether this is the description of a clip whose channels have the average `mono`.
    pub open spec fn describes(self, clip: AudioClip, mono: Seq<Single>) -> bool {
        let count = crate::clip::columns(clip.frames as int, WAVEFORM_BUCKETS as int);
        &&& self.sample_rate == clip.sample_rate
        &&& self.channels == clip.channels as int % 0x1_0000_0000
        &&& self.frames == clip.frames
        &&& self.duration_secs == (if clip.sample_rate == 0 {
            Fraction { num: 0, den: 1 }
        } else {
            Fraction { num: clip.frames as i128, den: clip.sample_rate as u64 }
        })
        &&& self.waveform_min@ == Seq::new(
            count as nat,
            |b: int| crate::clip::lowest(crate::clip::column(mono, b, count)),
        )
        &&& self.waveform_max@ == Seq::new(
            count as nat,
            |b: int| crate::clip::highest(crate::clip::column(mono, b, count)),
        )
    }

    /// Describe a clip. `mono` is the average of its channels, frame by frame.
    pub fn describe(clip: &AudioClip, mono: &[Single]) -> (r: LoadedClip)
        requires
            mono@.len() == clip.frames,
        ensures
            r.describes(*clip, mono@),
    {
        let waveform = clip.waveform(mono, WAVEFORM_BUCKETS);
        proof {
            let count = crate::clip::columns(clip.frames as int, WAVEFORM_BUCKETS as int);
            assert(waveform.min@ =~= Seq::new(
                count as nat,
                |b: int| crate::clip::lowest(crate::clip::column(mono@, b, count)),
            ));
            assert(waveform.max@ =~= Seq::new(
                count as nat,
                |b: int| crate::clip::highest(crate::clip::column(mono@, b, count)),
            ));
        }
        LoadedClip {
            sample_rate: clip.sample_rate,
            channels: (clip.channels as u64 % 0x1_0000_0000) as u32,
            frames: clip.frames as u64,
            duration_secs: clip.duration_secs(),
            waveform_min: waveform.min,
            waveform_max: waveform.max,
        }
    }
}

impl PlaybackStatus {
    /// The state of the transport of an engine, from what its audio thread published. Where no
    /// engine runs, nothing moves.
    pub fn of(engine: Option<&Engine>, published: &Snapshot) -> (r: PlaybackStatus)
        ensures
            engine is None ==> r == (PlaybackStatus {
                position_secs: Fraction { num: 0, den: 1 },
                playing: false,
                timeline_secs: Fraction { num: 0, den: 1 },
                rolling: false,
            }),
            engine matches Some(e) ==> r == (PlaybackStatus {
                position_secs: published.position(),
                playing: published.playing,
                timeline_secs: if e.device_rate == 0 {
                    Fraction { num: 0, den: 1 }
                } else {
                    Fraction { num: published.timeline as i128, den: e.device_rate as u64 }
                },
                rolling: published.rolling,
            }),
    {
        match engine {
            None => PlaybackStatus {
                position_secs: Fraction { num: 0, den: 1 },
                playing: false,
                timeline_secs: Fraction { num: 0, den: 1 },
                rolling: false,
            },
            Some(e) => PlaybackStatus {
                position_secs: e.playhead_secs(published),
                playing: published.playing,
                timeline_secs: e.timeline_secs(published),
                rolling: published.rolling,
            },
        }
    }
}

/// Look after a running engine: free the clips that came back, and tell the state of the transport
/// from what the audio thread published.
pub fn poll_status(engine: &mut Engine, published: &Snapshot) -> (r: PlaybackStatus)
    ensures
        crate::audio::collects(old(engine).retired, final(engine).retired),
        *final(engine) == (Engine { retired: final(engine).retired, ..*old(engine) }),
        r.position_secs == published.position(),
        r.playing == published.playing,
        r.timeline_secs == (if old(engine).device_rate == 0 {
            Fraction { num: 0, den: 1 }
        } else {
            Fraction { num: published.timeline as i128, den: old(engine).device_rate as u64 }
        }),
        r.rolling == published.rolling,
{
    engine.collect_garbage();
    PlaybackStatus::of(Some(&*engine), published)
}

impl MixerMeters {
    /// The levels that an audio thread published.
    pub fn of(published: &Snapshot) -> (r: MixerMeters)
        ensures
            r.track_peaks_l@ == published.track_peaks_l@,
            r.track_peaks_r@ == published.track_peaks_r@,
            r.master_peak_l == published.master_peak_l,
            r.master_peak_r == published.master_peak_r,
    {
        let mut track_peaks_l: Vec<Single> = Vec::with_capacity(MAX_TRACKS);
        let mut track_peaks_r: Vec<Single> = Vec::with_capacity(MAX_TRACKS);
        for t in 0..MAX_TRACKS
            invariant
                track_peaks_l@ == published.track_peaks_l@.take(t as int),
                track_peaks_r@ == published.track_peaks_r@.take(t as int),
        {
            let (l, r) = published.track_peak_levels(t);
            track_peaks_l.push(l);
            track_peaks_r.push(r);
            proof {
                assert(published.track_peaks_l@.take(t + 1) =~= published.track_peaks_l@.take(
                    t as int,
                ).push(l));
                assert(published.track_peaks_r@.take(t + 1) =~= published.track_peaks_r@.take(
                    t as int,
                ).push(r));
            }
        }
        let (master_peak_l, master_peak_r) = published.master_peak_levels();
        MixerMeters { track_peaks_l, track_peaks_r, master_peak_l, master_peak_r }
    }
}

/// Load a clip into a track and describe it. Every track is stopped and rewound. `mono` is the
/// average of the channels of the clip, frame by frame.
pub fn load_wav(
    engine: &mut Engine,
    track: u32,
    clip: AudioClip,
    mono: &[Single],
) -> (r: LoadedClip)
    requires
        mono@.len() == clip.frames,
    ensures
        r.describes(clip, mono@),
        crate::audio::collects(old(engine).retired, final(engine).retired),
        crate::audio::sends_command(
            old(engine).commands,
            final(engine).commands,
            Command::Stop,
        ),
        crate::audio::sends_clip(
            old(engine).clips,
            final(engine).clips,
            (TrackedClip { track: capped(track), clip: Arc::new(clip), placement: None }),
        ),
        final(engine).device_rate == old(engine).device_rate,
        final(engine).scope == old(engine).scope,
{
    let described = LoadedClip::describe(&clip, mono);
    engine.load_clip(capped_index(track), Arc::new(clip));
    described
}

/// Put a clip onto the timeline of a track and describe it, without stopping. `mono` is the average
/// of the channels of the clip, frame by frame, and a length of 0 is as long as it takes to
/// play it whole.
pub fn place_clip_on_track(
    engine: &mut Engine,
    track: u32,
    slot: u32,
    clip: AudioClip,
    mono: &[Single],
    start_frame: i64,
    length_frames: u32,
    source_offset_frames: u32,
) -> (r: LoadedClip)
    requires
        mono@.len() == clip.frames,
    ensures
        r.describes(clip, mono@),
        crate::audio::collects(old(engine).retired, final(engine).retired),
        final(engine).commands == old(engine).commands,
        crate::audio::sends_clip(
            old(engine).clips,
            final(engine).clips,
            (TrackedClip {
                track: capped(track),
                clip: Arc::new(clip),
                placement: Some(
                    Placement {
                        slot: capped(slot),
                        start_frame,
                        length_frames: placed_length(
                            length_frames,
                            clip,
                            old(engine).device_rate,
                        ) as u32,
                        source_offset_frames,
                    },
                ),
            }),
        ),
        final(engine).device_rate == old(engine).device_rate,
        final(engine).scope == old(engine).scope,
{
    let described = LoadedClip::describe(&clip, mono);
    let at = Placement {
        slot: capped_index(slot),
        start_frame,
        length_frames: effective_length(length_frames, &clip, engine.device_rate),
        source_offset_frames,
    };
    engine.place_clip(capped_index(track), Arc::new(clip), at);
    described
}

/// Start or resume every track.
pub fn play(engine: &mut Engine)
    ensures
        crate::audio::asks(*old(engine), *final(engine), Command::Play),
{
    engine.play();
}

/// Hold every track where it is.
pub fn pause(engine: &mut Engine)
    ensures
        crate::audio::asks(*old(engine), *final(engine), Command::Pause),
{
    engine.pause();
}

/// Stop every track and rewind it.
pub fn stop(engine: &mut Engine)
    ensures
        crate::audio::asks(*old(engine), *final(engine), Command::Stop),
{
    engine.stop_playback();
}

/// Move every track to a time in seconds.
pub fn seek(engine: &mut Engine, secs: Single)
    ensures
        crate::audio::asks(*old(engine), *final(engine), Command::Seek(secs)),
{
    engine.seek(secs);
}

/// Choose whether tracks start over at their end.
pub fn set_looping(engine: &mut Engine, looping: bool)
    ensures
        crate::audio::asks(*old(engine), *final(engine), Command::SetLooping(looping)),
{
    engine.set_looping(looping);
}

/// Move the fader of a track, in decibels.
pub fn set_track_gain_db(engine: &mut Engine, track: u32, db: Single)
    ensures
        crate::audio::asks(
            *old(engine),
            *final(engine),
            Command::SetTrackGainDb(capped(track), db),
        ),
{
    engine.set_track_gain_db(capped_index(track), db);
}

/// Move the fader of a track, as a multiplier.
pub fn set_track_gain_linear(engine: &mut Engine, track: u32, linear: Single)
    ensures
        crate::audio::asks(
            *old(engine),
            *final(engine),
            Command::SetTrackGainLinear(capped(track), linear),
        ),
{
    engine.set_track_gain_linear(capped_index(track), linear);
}

/// Move a track in the stereo field.
pub fn set_track_pan(engine: &mut Engine, track: u32, pan: Single)
    ensures
        crate::audio::asks(*old(engine), *final(engine), Command::SetTrackPan(capped(track), pan)),
{
    engine.set_track_pan(capped_index(track), pan);
}

/// Choose the filter of an equalizer band, by its code.
pub fn set_track_eq_band_kind(engine: &mut Engine, track: u32, band: u32, kind: u32)
    ensures
        crate::audio::asks(
            *old(engine),
            *final(engine),
            Command::SetTrackEqBandKind(capped(track), capped(band), capped(kind)),
        ),
{
    engine.set_track_eq_band_kind(capped_index(track), capped_index(band), kind);
}

/// Move an equalizer band, in Hz.
pub fn set_track_eq_band_freq(engine: &mut Engine, track: u32, band: u32, hz: Single)
    ensures
        crate::audio::asks(
            *old(engine),
            *final(engine),
            Command::SetTrackEqBandFreq(capped(track), capped(band), hz),
        ),
{
    engine.set_track_eq_band_freq(capped_index(track), capped_index(band), hz);
}

/// Change the bandwidth of an equalizer band.
pub fn set_track_eq_band_q(engine: &mut Engine, track: u32, band: u32, q: Single)
    ensures
        crate::audio::asks(
            *old(engine),
            *final(engine),
            Command::SetTrackEqBandQ(capped(track), capped(band), q),
        ),
{
    engine.set_track_eq_band_q(capped_index(track), capped_index(band), q);
}

/// Change the boost or cut of an equalizer band, in decibels.
pub fn set_track_eq_band_gain_db(engine: &mut Engine, track: u32, band: u32, db: Single)
    ensures
        crate::audio::asks(
            *old(engine),
            *final(engine),
            Command::SetTrackEqBandGainDb(capped(track), capped(band), db),
        ),
{
    engine.set_track_eq_band_gain_db(capped_index(track), capped_index(band), db);
}

/// Switch an equalizer band on or off.
pub fn set_track_eq_band_enabled(engine: &mut Engine, track: u32, band: u32, on: bool)
    ensures
        crate::audio::asks(
            *old(engine),
            *final(engine),
            Command::SetTrackEqBandEnabled(capped(track), capped(band), on),
        ),
{
    engine.set_track_eq_band_enabled(capped_index(track), capped_index(band), on);
}

/// Move the master fader, in decibels.
pub fn set_master_gain_db(engine: &mut Engine, db: Single)
    ensures
        crate::audio::asks(*old(engine), *final(engine), Command::SetMasterGainDb(db)),
{
    engine.set_master_gain_db(db);
}

/// Move the master fader, as a multiplier.
pub fn set_master_gain_linear(engine: &mut Engine, linear: Single)
    ensures
        crate::audio::asks(*old(engine), *final(engine), Command::SetMasterGainLinear(linear)),
{
    engine.set_master_gain_linear(linear);
}

/// Move the master bus in the stereo field.
pub fn set_master_pan(engine: &mut Engine, pan: Single)
    ensures
        crate::audio::asks(*old(engine), *final(engine), Command::SetMasterPan(pan)),
{
    engine.set_master_pan(pan);
}

/// Move a clip on the timeline.
pub fn move_clip(engine: &mut Engine, track: u32, slot: u32, start_frame: i64)
    ensures
        crate::audio::asks(
            *old(engine),
            *final(engine),
            Command::MoveClip(capped(track), capped(slot), start_frame),
        ),
{
    engine.move_clip(capped_index(track), capped_index(slot), start_frame);
}

/// Change how long a clip lasts on the timeline.
pub fn resize_clip(engine: &mut Engine, track: u32, slot: u32, length_frames: u32)
    ensures
        crate::audio::asks(
            *old(engine),
            *final(engine),
            Command::ResizeClip(capped(track), capped(slot), length_frames),
        ),
{
    engine.resize_clip(capped_index(track), capped_index(slot), length_frames);
}

/// Change the source frame that a clip on the timeline starts with.
pub fn set_clip_source_offset(engine: &mut Engine, track: u32, slot: u32, source_offset_frames: u32)
    ensures
        crate::audio::asks(
            *old(engine),
            *final(engine),
            Command::SetClipSourceOffset(capped(track), capped(slot), source_offset_frames),
        ),
{
    engine.set_clip_source_offset(capped_index(track), capped_index(slot), source_offset_frames);
}

/// Take the clips off a track and set its strip back. Retired clips are collected first.
pub fn clear_track(engine: &mut Engine, track: u32)
    ensures
        crate::audio::collects(old(engine).retired, final(engine).retired),
        crate::audio::sends_command(
            old(engine).commands,
            final(engine).commands,
            Command::ClearTrack(capped(track)),
        ),
        final(engine).clips == old(engine).clips,
        final(engine).device_rate == old(engine).device_rate,
        final(engine).scope == old(engine).scope,
{
    engine.clear_track(capped_index(track));
}

/// Take a clip off the timeline of a track. Retired clips are collected first.
pub fn remove_clip(engine: &mut Engine, track: u32, slot: u32)
    ensures
        crate::audio::collects(old(engine).retired, final(engine).retired),
        crate::audio::sends_command(
            old(engine).commands,
            final(engine).commands,
            Command::RemoveClip(capped(track), capped(slot)),
        ),
        final(engine).clips == old(engine).clips,
        final(engine).device_rate == old(engine).device_rate,
        final(engine).scope == old(engine).scope,
{
    engine.remove_clip(capped_index(track), capped_index(slot));
}

/// A clip lasts on the timeline as long as was asked for; where nothing was asked for, just as long
/// as it takes for all of its source to pass, if that can be counted.
pub proof fn lengths_are_as_asked(length_frames: u32, clip: AudioClip, device_rate: u32)
    ensures
        length_frames > 0 ==> placed_length(length_frames, clip, device_rate) == length_frames,
        length_frames == 0 ==> {
            let length = placed_length(0, clip, device_rate);
            &&& 0 <= length <= u32::MAX
            &&& clip.sample_rate == 0 || device_rate == 0 ==> length == u32::MAX
            &&& clip.sample_rate > 0 && device_rate > 0 ==> {
                &&& length < u32::MAX ==> length * clip.sample_rate >= clip.frames * device_rate
                &&& length > 0 ==> (length - 1) * clip.sample_rate < clip.frames * device_rate
            }
        },
{
    crate::sampler::whole_lengths_fit_the_source(clip, device_rate);
}

/// A description says of a clip what it is: its rate, its frames, its length in seconds as frames
/// over rate, and a waveform of at most 2000 columns, in which the column of a frame is at most as
/// low, and at least as high, as the clip is there.
pub proof fn descriptions_are_true(
    described: LoadedClip,
    clip: AudioClip,
    mono: Seq<Single>,
    b: int,
    i: int,
)
    requires
        described.describes(clip, mono),
        mono.len() == clip.frames,
        0 <= b < described.waveform_min@.len(),
        b * mono.len() / (described.waveform_min@.len() as int) <= i < (b + 1) * mono.len() / (
        described.waveform_min@.len() as int),
        !mono[i].nan(),
    ensures
        described.sample_rate == clip.sample_rate,
        described.frames == clip.frames,
        clip.channels <= u32::MAX ==> described.channels == clip.channels,
        clip.sample_rate > 0 ==> described.duration_secs.num == clip.frames
            && described.duration_secs.den == clip.sample_rate,
        clip.sample_rate == 0 ==> described.duration_secs.num == 0,
        described.waveform_min@.len() == described.waveform_max@.len(),
        described.waveform_min@.len() <= 2_000,
        described.waveform_min@.len() == 2_000 || described.waveform_min@.len() == clip.frames,
        described.waveform_min@[b].at_most(mono[i]),
        mono[i].at_most(described.waveform_max@[b]),
        mono.contains(described.waveform_min@[b]),
        mono.contains(described.waveform_max@[b]),
{
    let count = described.waveform_min@.len() as int;
    crate::clip::columns_hold_their_frames(mono, b, count, i);
    let column = crate::clip::column(mono, b, count);
    let start = b * mono.len() / count;
    crate::clip::extremes_bracket(column, i - start);
    crate::clip::extremes_are_samples(column, i - start);
    crate::clip::columns_are_even(b, mono.len() as int, WAVEFORM_BUCKETS as int);
    assert forall|x: Single| column.contains(x) implies mono.contains(x) by {
        let k = choose|k: int| 0 <= k < column.len() && column[k] == x;
        crate::clip::columns_hold_their_frames(mono, b, count, start + k);
        assert(column[k] == mono[start + k]);
    }
}

} // verus!
