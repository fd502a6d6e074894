use std::sync::Arc;

use assert_no_alloc::assert_no_alloc;
use daw_engine::clip::AudioClip;
use daw_engine::commands::Command;
use daw_engine::player::{clip_channel, retire_channel, Tap, TrackedClip, WavPlayer};
use daw_engine::single::Single;

fn s(x: f32) -> Single {
    Single { bits: x.to_bits() }
}

fn test_clip(rate: u32, channels: usize, frames: usize) -> Arc<AudioClip> {
    let data: Vec<Vec<Single>> = (0..channels)
        .map(|c| {
            (0..frames)
                .map(|f| s(((f + c) as f32 / frames as f32) * 2.0 - 1.0))
                .collect()
        })
        .collect();
    Arc::new(AudioClip::new(rate, data).unwrap())
}

/// Interpolate a clip where a player said to read it.
fn read(clip: &AudioClip, tap: Tap) -> (f32, f32) {
    match tap {
        Tap::Silence => (0.0, 0.0),
        Tap::Read { frame, next, part, whole } => {
            let frac = (part as f64 / whole as f64) as f32;
            let lerp = |ch: &[Single]| {
                let a = f32::from_bits(ch[frame].bits);
                let b = f32::from_bits(ch[next].bits);
                a + (b - a) * frac
            };
            let (l, r) = clip.sides();
            (lerp(&clip.data[l]), lerp(&clip.data[r]))
        }
    }
}

fn render(player: &mut WavPlayer, frames: usize) -> (Vec<f32>, Vec<f32>) {
    let clip = player.clip.clone();
    let mut taps = vec![Tap::Silence; frames];
    player.render(&mut taps);
    taps.iter()
        .map(|&tap| match &clip {
            Some(clip) => read(clip, tap),
            None => (0.0, 0.0),
        })
        .unzip()
}

#[test]
fn silent_until_played() {
    let mut player = WavPlayer::new(48_000);
    player.set_clip(test_clip(48_000, 1, 1000));
    let (l, r) = render(&mut player, 256);
    assert!(
        l.iter().chain(r.iter()).all(|&x| x == 0.0),
        "loaded-but-paused must be silent"
    );
}

#[test]
fn play_advances_and_emits_audio() {
    let mut player = WavPlayer::new(48_000);
    player.set_clip(test_clip(48_000, 2, 10_000));
    player.handle(Command::Play);
    let (l, r) = render(&mut player, 256);
    assert!(player.is_playing());
    assert_eq!(player.pos_frames(), 256, "rate-matched playback advances 1:1");
    assert!(
        l.iter().chain(r.iter()).any(|&x| x != 0.0),
        "playing should emit audio"
    );
}

#[test]
fn mono_clip_broadcasts_to_both_channels() {
    let mut player = WavPlayer::new(48_000);
    player.set_clip(test_clip(48_000, 1, 10_000));
    player.handle(Command::Play);
    let (l, r) = render(&mut player, 128);
    for (a, b) in l.iter().zip(r.iter()) {
        assert!((a - b).abs() < 1e-7, "mono should be identical L/R");
    }
}

#[test]
fn resamples_when_rates_differ() {
    let mut player = WavPlayer::new(48_000);
    player.set_clip(test_clip(44_100, 1, 100_000));
    player.handle(Command::Play);
    let _ = render(&mut player, 480);
    let expected = (480.0 * 44_100.0 / 48_000.0) as i64;
    assert!(
        (player.pos_frames() - expected).abs() <= 1,
        "resampled position should be ~{expected}, got {}",
        player.pos_frames()
    );
    assert_eq!(player.pos_frames(), 441, "the position is exact");
}

#[test]
fn stops_and_holds_at_end_of_clip() {
    let mut player = WavPlayer::new(48_000);
    let frames = 300;
    player.set_clip(test_clip(48_000, 1, frames));
    player.handle(Command::Play);
    let (l, _) = render(&mut player, 512);
    assert!(!player.is_playing(), "playback should stop at the clip end");
    assert!(player.pos_frames() <= frames as i64);
    assert_eq!(player.pos_frames(), 299);
    assert!(l[299..].iter().all(|&x| x == 0.0));
}

#[test]
fn loops_at_end_instead_of_stopping() {
    let mut player = WavPlayer::new(48_000);
    let frames = 300;
    player.set_clip(test_clip(48_000, 1, frames));
    player.handle(Command::SetLooping(true));
    player.handle(Command::Play);
    let (l, r) = render(&mut player, 1000);
    assert!(player.is_playing(), "looping playback must not stop at the end");
    assert!(
        player.pos_frames() < frames as i64,
        "position should have wrapped, got {}",
        player.pos_frames()
    );
    assert!(
        l[l.len() - 1] != 0.0 || r[r.len() - 1] != 0.0 || l[l.len() - 2] != 0.0,
        "looping should keep emitting audio past the end"
    );
}

#[test]
fn seek_and_stop_move_the_playhead() {
    let mut player = WavPlayer::new(48_000);
    player.set_clip(test_clip(48_000, 1, 48_000));
    player.handle(Command::Seek(s(0.5)));
    assert!((player.pos_frames() - 24_000).abs() <= 1);
    assert_eq!(player.pos_frames(), 24_000);
    player.handle(Command::Seek(s(999.0)));
    assert!(player.pos_frames() <= 48_000);
    assert_eq!(player.pos_frames(), 47_999);
    player.handle(Command::Seek(s(-3.0)));
    assert_eq!(player.pos_frames(), 0);
    player.handle(Command::Seek(s(0.25)));
    player.handle(Command::Seek(s(f32::NAN)));
    assert_eq!(player.pos_frames(), 0);
    player.handle(Command::Seek(s(0.25)));
    player.handle(Command::Stop);
    assert_eq!(player.pos_frames(), 0, "stop rewinds to the start");
}

#[test]
fn playback_path_does_not_allocate() {
    let (mut clip_tx, mut clip_rx) = clip_channel();
    let (mut retire_tx, mut retire_rx) = retire_channel();
    let mut player = WavPlayer::new(48_000);
    let mut taps = [Tap::Silence; 512];
    let clips: Vec<Arc<AudioClip>> = (0..4).map(|_| test_clip(44_100, 2, 20_000)).collect();
    let mut clip_iter = clips.iter().cloned();

    assert_no_alloc(|| {
        for i in 0..1000 {
            if i % 250 == 0 {
                if let Some(c) = clip_iter.next() {
                    let _ = clip_tx.push(TrackedClip { track: 0, clip: c, placement: None });
                }
            }
            while let Ok(t) = clip_rx.pop() {
                if let Some(old) = player.set_clip(t.clip) {
                    if let Err(rtrb::PushError::Full(old)) = retire_tx.push(old) {
                        std::mem::forget(old);
                    }
                }
            }
            player.handle(Command::Play);
            player.render(&mut taps);
        }
    });

    let mut retired = 0;
    while retire_rx.pop().is_ok() {
        retired += 1;
    }
    assert_eq!(retired, 3);
}

#[test]
fn two_blocks_are_one_block() {
    let make = || {
        let mut player = WavPlayer::new(48_000);
        player.set_clip(test_clip(44_100, 1, 500));
        player.handle(Command::SetLooping(true));
        player.handle(Command::Play);
        player
    };
    let mut whole = make();
    let mut taps = vec![Tap::Silence; 1500];
    whole.render(&mut taps);
    let mut split = make();
    let mut pieces = vec![Tap::Silence; 1500];
    for (start, end) in [(0, 1), (1, 700), (700, 1500)] {
        split.render(&mut pieces[start..end]);
    }
    assert_eq!(taps, pieces);
    assert_eq!(whole.pos, split.pos);
}

#[test]
fn a_long_playback_does_not_drift() {
    let mut player = WavPlayer::new(48_000);
    player.set_clip(test_clip(44_100, 1, 1_000_000));
    player.handle(Command::Play);
    let mut taps = vec![Tap::Silence; 480_000];
    player.render(&mut taps);
    assert_eq!(player.pos_frames(), 441_000);
    assert_eq!(
        taps[160],
        Tap::Read { frame: 147, next: 148, part: 0, whole: 48_000 << 31 }
    );
    assert_eq!(
        taps[1],
        Tap::Read { frame: 0, next: 1, part: 44_100 << 31, whole: 48_000 << 31 }
    );
}

#[test]
fn play_at_the_end_starts_over() {
    let mut player = WavPlayer::new(48_000);
    player.set_clip(test_clip(48_000, 1, 10));
    player.handle(Command::Play);
    let _ = render(&mut player, 20);
    assert_eq!(player.pos_frames(), 9);
    player.handle(Command::Play);
    assert_eq!(player.pos_frames(), 0);
    assert!(player.is_playing());
}

#[test]
fn play_without_a_clip_does_nothing() {
    let mut player = WavPlayer::new(48_000);
    player.handle(Command::Play);
    assert!(!player.is_playing());
    let mut taps = [Tap::Silence; 4];
    player.render(&mut taps);
    assert_eq!(taps, [Tap::Silence; 4]);
}

#[test]
fn a_clip_without_a_rate_is_silent_and_stays_put() {
    let mut player = WavPlayer::new(48_000);
    player.set_clip(test_clip(0, 1, 10));
    player.handle(Command::Play);
    let (l, _) = render(&mut player, 8);
    assert!(l.iter().all(|&x| x == 0.0));
    assert!(player.is_playing());
    assert_eq!(player.pos_frames(), 0);
}

#[test]
fn a_loop_shorter_than_a_step_starts_at_its_beginning() {
    let mut player = WavPlayer::new(8_000);
    player.set_clip(test_clip(48_000, 1, 3));
    player.handle(Command::SetLooping(true));
    player.handle(Command::Play);
    let mut taps = [Tap::Silence; 4];
    player.render(&mut taps);
    for tap in taps {
        assert_eq!(tap, Tap::Read { frame: 0, next: 1, part: 0, whole: 8_000 << 31 });
    }
    assert!(player.is_playing());
}

#[test]
fn one_frame_cannot_be_looped() {
    let mut player = WavPlayer::new(48_000);
    player.set_clip(test_clip(48_000, 1, 1));
    player.handle(Command::SetLooping(true));
    player.handle(Command::Play);
    let _ = render(&mut player, 4);
    assert!(!player.is_playing());
}

#[test]
fn a_displaced_clip_is_handed_back() {
    let mut player = WavPlayer::new(48_000);
    let first = test_clip(48_000, 1, 10);
    let second = test_clip(48_000, 1, 20);
    assert!(player.set_clip(first.clone()).is_none());
    player.handle(Command::Play);
    let back = player.set_clip(second.clone()).unwrap();
    assert!(Arc::ptr_eq(&back, &first));
    assert!(!player.is_playing(), "a fresh clip does not start by itself");
    player.handle(Command::SetLooping(true));
    let back = player.clear().unwrap();
    assert!(Arc::ptr_eq(&back, &second));
    assert!(!player.looping);
    assert!(player.clear().is_none());
}

#[test]
fn seeking_is_exact_to_the_frame() {
    let mut player = WavPlayer::new(48_000);
    player.set_clip(test_clip(48_000, 1, 48_000));
    for (bits, frame) in [(0x37AEC33F_u32, 1), (0x37AEC33E, 0), (0x3F800000, 47_999), (0x3F000000, 24_000)] {
        player.handle(Command::Seek(daw_engine::single::Single { bits }));
        let exact = (f32::from_bits(bits) as f64 * 48_000.0) as i64;
        assert_eq!(player.pos_frames(), frame);
        assert_eq!(player.pos_frames(), exact.min(47_999));
        assert!(!player.is_playing());
    }
}

#[test]
fn a_device_without_a_rate_plays_one_frame() {
    let mut player = WavPlayer::new(0);
    player.set_clip(test_clip(48_000, 1, 100));
    player.handle(Command::Play);
    let (l, _) = render(&mut player, 16);
    assert_eq!(l[0], -1.0, "the first sample of the ramp");
    assert!(l[1..].iter().all(|&x| x == 0.0));
    assert!(!player.is_playing());
    assert_eq!(player.pos_frames(), i64::MAX);
    player.handle(Command::SetLooping(true));
    player.handle(Command::Play);
    let (l, _) = render(&mut player, 16);
    assert!(l.iter().all(|&x| x == -1.0), "every step wraps to the start");
}

#[test]
fn an_endless_time_is_the_last_frame() {
    let mut player = WavPlayer::new(48_000);
    player.set_clip(test_clip(0, 1, 100));
    player.handle(Command::Seek(daw_engine::single::Single { bits: f32::INFINITY.to_bits() }));
    assert_eq!(player.pos_frames(), 99);
    player.handle(Command::Seek(daw_engine::single::Single { bits: f32::MAX.to_bits() }));
    assert_eq!(player.pos_frames(), 0);
}
