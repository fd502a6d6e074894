use std::sync::Arc;

use daw_engine::api::{
    self, capped_index, effective_length, engine_sample_rate, max_clips_per_track, max_tracks,
    LoadedClip, MixerMeters, PlaybackStatus,
};
use daw_engine::audio::{Engine, Snapshot};
use daw_engine::clip::{AudioClip, Fraction};
use daw_engine::commands::Command;
use daw_engine::single::Single;

fn s(x: f32) -> Single {
    Single { bits: x.to_bits() }
}

#[test]
fn sizes_of_the_pools() {
    assert_eq!(max_tracks(), 8);
    assert_eq!(max_clips_per_track(), 64);
}

#[test]
fn indices_are_capped() {
    assert_eq!((capped_index(3), capped_index(255), capped_index(256), capped_index(u32::MAX)), (3, 255, 255, 255));
}

#[test]
fn a_length_of_zero_is_the_whole_clip() {
    let clip = AudioClip::new(44_100, vec![vec![s(0.0); 123]]).unwrap();
    assert_eq!(effective_length(0, &clip, 44_100), 123);
    assert_eq!(effective_length(0, &clip, 48_000), 134);
    assert_eq!(effective_length(0, &clip, 22_050), 62);
    assert_eq!(effective_length(0, &clip, 0), u32::MAX);
    assert_eq!(effective_length(7, &clip, 48_000), 7);
}

#[test]
fn a_loaded_clip_is_described() {
    let mono: Vec<Single> = (0..4000).map(|i| s(i as f32)).collect();
    let clip = AudioClip::new(44_100, vec![mono.clone(), mono.clone()]).unwrap();
    let described = LoadedClip::describe(&clip, &mono);
    assert_eq!((described.sample_rate, described.channels, described.frames), (44_100, 2, 4000));
    assert_eq!(described.duration_secs, Fraction { num: 4000, den: 44_100 });
    assert_eq!(described.waveform_min.len(), 2000);
    assert_eq!((described.waveform_min[1], described.waveform_max[1]), (s(2.0), s(3.0)));
}

#[test]
fn the_status_of_no_engine_is_rest() {
    let mut published = Snapshot::silent();
    published.playhead = 96_000;
    published.playhead_rate = 32_000;
    published.playing = true;
    published.timeline = 88_200;
    published.rolling = true;
    let nowhere = Fraction { num: 0, den: 1 };
    let rest = PlaybackStatus { position_secs: nowhere, playing: false, timeline_secs: nowhere, rolling: false };
    assert_eq!(PlaybackStatus::of(None, &published), rest);
    assert_eq!(engine_sample_rate(None), 48_000);
    let (mut engine, _rings) = Engine::connect();
    engine.set_device_rate(44_100);
    let running = PlaybackStatus {
        position_secs: Fraction { num: 96_000, den: 32_000 },
        playing: true,
        timeline_secs: Fraction { num: 88_200, den: 44_100 },
        rolling: true,
    };
    assert_eq!(PlaybackStatus::of(Some(&engine), &published), running);
    assert_eq!(api::poll_status(&mut engine, &published), running);
    assert_eq!(engine_sample_rate(Some(&engine)), 44_100);
}

#[test]
fn meters_show_every_track() {
    let mut published = Snapshot::silent();
    published.track_peaks_l[2] = s(0.5);
    published.track_peaks_r[7] = s(0.25);
    published.master_peak_l = s(1.5);
    let meters = MixerMeters::of(&published);
    assert_eq!((meters.track_peaks_l.len(), meters.track_peaks_r.len()), (8, 8));
    assert_eq!((meters.track_peaks_l[2], meters.track_peaks_r[7]), (s(0.5), s(0.25)));
    assert_eq!((meters.master_peak_l, meters.master_peak_r), (s(1.5), s(0.0)));
}

#[test]
fn requests_carry_the_right_indices() {
    let (mut engine, mut rings) = Engine::connect();
    let e = &mut engine;
    api::play(e);
    api::pause(e);
    api::stop(e);
    api::seek(e, s(1.5));
    api::set_looping(e, true);
    api::set_track_gain_db(e, 257, s(-6.0));
    api::set_track_gain_linear(e, 2, s(0.5));
    api::set_track_pan(e, 3, s(-1.0));
    api::set_track_eq_band_kind(e, 4, 256, 258);
    api::set_track_eq_band_freq(e, 4, 1, s(100.0));
    api::set_track_eq_band_q(e, 4, 1, s(2.0));
    api::set_track_eq_band_gain_db(e, 4, 1, s(3.0));
    api::set_track_eq_band_enabled(e, 4, 1, false);
    api::set_master_gain_db(e, s(-1.0));
    api::set_master_gain_linear(e, s(0.9));
    api::set_master_pan(e, s(0.1));
    api::clear_track(e, 256);
    api::move_clip(e, 1, 300, -5);
    api::resize_clip(e, 1, 2, 9);
    api::set_clip_source_offset(e, 1, 2, 8);
    api::remove_clip(e, 1, 2);
    let mut got = Vec::new();
    while let Ok(cmd) = rings.commands.pop() {
        got.push(cmd);
    }
    assert_eq!(
        got,
        vec![
            Command::Play,
            Command::Pause,
            Command::Stop,
            Command::Seek(s(1.5)),
            Command::SetLooping(true),
            Command::SetTrackGainDb(255, s(-6.0)),
            Command::SetTrackGainLinear(2, s(0.5)),
            Command::SetTrackPan(3, s(-1.0)),
            Command::SetTrackEqBandKind(4, 255, 255),
            Command::SetTrackEqBandFreq(4, 1, s(100.0)),
            Command::SetTrackEqBandQ(4, 1, s(2.0)),
            Command::SetTrackEqBandGainDb(4, 1, s(3.0)),
            Command::SetTrackEqBandEnabled(4, 1, false),
            Command::SetMasterGainDb(s(-1.0)),
            Command::SetMasterGainLinear(s(0.9)),
            Command::SetMasterPan(s(0.1)),
            Command::ClearTrack(255),
            Command::MoveClip(1, 255, -5),
            Command::ResizeClip(1, 2, 9),
            Command::SetClipSourceOffset(1, 2, 8),
            Command::RemoveClip(1, 2),
        ]
    );
}

#[test]
fn loading_stops_and_placing_does_not() {
    let (mut engine, mut rings) = Engine::connect();
    engine.set_device_rate(48_000);
    let mono = vec![s(0.5); 10];
    let clip = || AudioClip::new(44_100, vec![mono.clone()]).unwrap();
    let described = api::load_wav(&mut engine, 3, clip(), &mono);
    assert_eq!(described.frames, 10);
    assert_eq!(rings.commands.pop().unwrap(), Command::Stop);
    let arrival = rings.clips.pop().unwrap();
    assert_eq!((arrival.track, arrival.placement), (3, None));
    assert_eq!(Arc::strong_count(&arrival.clip), 1);
    let _ = api::place_clip_on_track(&mut engine, 1, 5, clip(), &mono, 77, 0, 4);
    assert!(rings.commands.pop().is_err());
    let at = rings.clips.pop().unwrap().placement.unwrap();
    assert_eq!((at.slot, at.start_frame, at.length_frames, at.source_offset_frames), (5, 77, 11, 4));
}
