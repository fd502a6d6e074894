use std::sync::Arc;

use assert_no_alloc::assert_no_alloc;
use daw_engine::clip::AudioClip;
use daw_engine::player::Tap;
use daw_engine::sampler::{whole_length, Sampler, Span, TimelineClip, MAX_CLIPS_PER_TRACK};
use daw_engine::single::Single;

const SR: u32 = 48_000;

fn s(x: f32) -> Single {
    Single { bits: x.to_bits() }
}

fn const_clip(rate: u32, channels: usize, frames: usize, value: f32) -> Arc<AudioClip> {
    let data = (0..channels).map(|_| vec![s(value); frames]).collect();
    Arc::new(AudioClip::new(rate, data).unwrap())
}

fn ramp_clip(rate: u32, frames: usize) -> Arc<AudioClip> {
    let l: Vec<Single> = (0..frames).map(|i| s(i as f32)).collect();
    let r: Vec<Single> = (0..frames).map(|i| s(-(i as f32))).collect();
    Arc::new(AudioClip::new(rate, vec![l, r]).unwrap())
}

fn read(clip: &AudioClip, tap: Tap) -> (f32, f32) {
    match tap {
        Tap::Silence => (0.0, 0.0),
        Tap::Read { frame, next, part, whole } => {
            let frac = (part as f64 / whole as f64) as f32;
            let lerp = |ch: &[Single]| {
                let a = f32::from_bits(ch[frame].bits);
                let b = f32::from_bits(ch[next].bits);
                a + (b - a) * frac
            };
            let (l, r) = clip.sides();
            (lerp(&clip.data[l]), lerp(&clip.data[r]))
        }
    }
}

/// Sum the clips of a sampler over a block, as its spans say.
fn render_with(sampler: &Sampler, start: i64, l: &mut [f32], r: &mut [f32], spans: &mut Vec<Span>) {
    l.fill(0.0);
    r.fill(0.0);
    sampler.render(start, l.len(), spans);
    for span in spans.iter() {
        let tc = sampler.slot(span.slot).unwrap();
        for f in span.start..span.end {
            let (a, b) = read(&tc.clip, span.tap(f));
            l[f] += a;
            r[f] += b;
        }
    }
}

fn render(sampler: &Sampler, start: i64, l: &mut [f32], r: &mut [f32]) {
    let mut spans = Vec::new();
    render_with(sampler, start, l, r, &mut spans);
}

fn placed(clip: Arc<AudioClip>, start_frame: i64, length_frames: u32, source_offset_frames: u32) -> TimelineClip {
    TimelineClip { clip, start_frame, length_frames, source_offset_frames }
}

#[test]
fn empty_pool_renders_silence() {
    let sampler = Sampler::new(SR);
    let mut l = [0.5_f32; 64];
    let mut r = [0.5_f32; 64];
    render(&sampler, 0, &mut l, &mut r);
    assert!(l.iter().chain(r.iter()).all(|&x| x == 0.0));
    render(&sampler, 1_000_000, &mut l, &mut r);
    assert!(l.iter().chain(r.iter()).all(|&x| x == 0.0));
}

#[test]
fn single_clip_at_origin_reads_one_to_one() {
    let mut sampler = Sampler::new(SR);
    sampler.set_clip(0, TimelineClip::whole(ramp_clip(SR, 1000), 0));
    let mut l = [0.0_f32; 32];
    let mut r = [0.0_f32; 32];
    render(&sampler, 0, &mut l, &mut r);
    for i in 0..32 {
        assert!((l[i] - i as f32).abs() < 1e-3, "L[{i}] = {}", l[i]);
        assert!((r[i] - -(i as f32)).abs() < 1e-3, "R[{i}] = {}", r[i]);
    }
}

#[test]
fn placement_offset_delays_audio_by_exactly_start_frame() {
    let mut sampler = Sampler::new(SR);
    sampler.set_clip(0, TimelineClip::whole(ramp_clip(SR, 200), 100));
    let mut l = [0.0_f32; 150];
    let mut r = [0.0_f32; 150];
    render(&sampler, 0, &mut l, &mut r);
    for i in 0..100 {
        assert_eq!(l[i], 0.0, "expected silence at frame {i}");
        assert_eq!(r[i], 0.0);
    }
    for i in 100..150 {
        let src_i = (i - 100) as f32;
        assert!((l[i] - src_i).abs() < 1e-3);
        assert!((r[i] - -src_i).abs() < 1e-3);
    }
}

#[test]
fn overlapping_clips_sum_in_their_overlap() {
    let mut sampler = Sampler::new(SR);
    sampler.set_clip(0, placed(const_clip(SR, 2, 100, 0.2), 0, 100, 0));
    sampler.set_clip(1, placed(const_clip(SR, 2, 100, 0.5), 50, 100, 0));
    let mut l = [0.0_f32; 160];
    let mut r = [0.0_f32; 160];
    render(&sampler, 0, &mut l, &mut r);
    for i in 0..50 {
        assert!((l[i] - 0.2).abs() < 1e-4, "A-only at {i}: {}", l[i]);
    }
    for i in 50..100 {
        assert!((l[i] - 0.7).abs() < 1e-4, "A+B at {i}: {}", l[i]);
    }
    for i in 100..150 {
        assert!((l[i] - 0.5).abs() < 1e-4, "B-only at {i}: {}", l[i]);
    }
    for i in 150..160 {
        assert_eq!(l[i], 0.0);
    }
}

#[test]
fn length_frames_truncates_the_placement() {
    let mut sampler = Sampler::new(SR);
    sampler.set_clip(0, placed(const_clip(SR, 2, 1000, 0.4), 0, 30, 0));
    let mut l = [0.0_f32; 64];
    let mut r = [0.0_f32; 64];
    render(&sampler, 0, &mut l, &mut r);
    for i in 0..30 {
        assert!((l[i] - 0.4).abs() < 1e-4);
    }
    for i in 30..64 {
        assert_eq!(l[i], 0.0, "past length must be silent at {i}");
    }
}

#[test]
fn source_offset_skips_into_the_source() {
    let mut sampler = Sampler::new(SR);
    sampler.set_clip(0, placed(ramp_clip(SR, 1000), 0, 50, 200));
    let mut l = [0.0_f32; 50];
    let mut r = [0.0_f32; 50];
    render(&sampler, 0, &mut l, &mut r);
    for i in 0..50 {
        assert!(
            (l[i] - (200 + i) as f32).abs() < 1e-3,
            "L[{i}] = {}, expected {}",
            l[i],
            200 + i
        );
    }
}

#[test]
fn rate_mismatch_resamples_linearly() {
    let mut sampler = Sampler::new(SR);
    sampler.set_clip(0, TimelineClip::whole(ramp_clip(44_100, 1000), 0));
    let mut l = [0.0_f32; 100];
    let mut r = [0.0_f32; 100];
    render(&sampler, 0, &mut l, &mut r);
    let expected = 50.0 * 44_100.0 / 48_000.0;
    assert!((l[50] - expected).abs() < 1e-3, "expected ~{expected}, got {}", l[50]);
}

#[test]
fn split_render_matches_single_render() {
    let make = || {
        let mut sampler = Sampler::new(SR);
        sampler.set_clip(0, TimelineClip::whole(ramp_clip(44_100, 5000), 17));
        sampler.set_clip(1, placed(const_clip(SR, 2, 500, 0.3), 200, 500, 50));
        sampler
    };
    let big = make();
    let mut big_l = vec![0.0; 300];
    let mut big_r = vec![0.0; 300];
    render(&big, 0, &mut big_l, &mut big_r);

    let split = make();
    let mut split_l = vec![0.0; 300];
    let mut split_r = vec![0.0; 300];
    for chunk in 0..3 {
        let start = chunk * 100;
        render(
            &split,
            start as i64,
            &mut split_l[start..start + 100],
            &mut split_r[start..start + 100],
        );
    }
    for i in 0..300 {
        assert!(
            (big_l[i] - split_l[i]).abs() < 1e-5,
            "L[{i}] differs: {} vs {}",
            big_l[i],
            split_l[i]
        );
        assert!((big_r[i] - split_r[i]).abs() < 1e-5);
    }
    assert_eq!(big_l, split_l, "to the last bit");
}

#[test]
fn golden_render_three_clips_at_known_offsets() {
    const TOTAL: usize = 400;
    let mut sampler = Sampler::new(SR);
    sampler.set_clip(0, placed(const_clip(SR, 2, 200, 0.1), 0, 200, 0));
    sampler.set_clip(1, placed(const_clip(SR, 2, 200, 0.2), 100, 200, 0));
    sampler.set_clip(2, placed(const_clip(SR, 2, 150, 0.4), 250, 150, 0));
    let mut got_l = vec![0.0_f32; TOTAL];
    let mut got_r = vec![0.0_f32; TOTAL];
    render(&sampler, 0, &mut got_l, &mut got_r);
    let mut want_l = vec![0.0_f32; TOTAL];
    for i in 0..TOTAL {
        let mut v = 0.0;
        if (0..200).contains(&i) {
            v += 0.1;
        }
        if (100..300).contains(&i) {
            v += 0.2;
        }
        if (250..400).contains(&i) {
            v += 0.4;
        }
        want_l[i] = v;
    }
    for i in 0..TOTAL {
        assert!(
            (got_l[i] - want_l[i]).abs() < 1e-4,
            "frame {i}: got {} want {}",
            got_l[i],
            want_l[i]
        );
        assert!((got_r[i] - want_l[i]).abs() < 1e-4);
    }
}

#[test]
fn render_starting_partway_into_the_timeline() {
    let mut sampler = Sampler::new(SR);
    sampler.set_clip(0, TimelineClip::whole(ramp_clip(SR, 500), 1000));
    let mut l = [0.0_f32; 100];
    let mut r = [0.0_f32; 100];
    render(&sampler, 950, &mut l, &mut r);
    for i in 0..50 {
        assert_eq!(l[i], 0.0, "before clip start at {i}");
    }
    for i in 50..100 {
        let src_i = (i - 50) as f32;
        assert!((l[i] - src_i).abs() < 1e-3, "L[{i}] = {}", l[i]);
    }
}

#[test]
fn out_of_range_setters_are_no_ops() {
    let mut sampler = Sampler::new(SR);
    assert!(sampler
        .set_clip(999, TimelineClip::whole(ramp_clip(SR, 10), 0))
        .is_none());
    assert!(sampler.clear_clip(999).is_none());
    sampler.set_clip_start(999, 12345);
    sampler.set_clip_length(999, 42);
    sampler.set_clip_source_offset(999, 7);
    assert_eq!(sampler.active_count(), 0);
    assert_eq!(sampler.capacity(), MAX_CLIPS_PER_TRACK);
}

#[test]
fn render_and_setter_churn_does_not_allocate() {
    let mut sampler = Sampler::new(SR);
    let mut l = vec![0.0_f32; 512];
    let mut r = vec![0.0_f32; 512];
    let mut spans: Vec<Span> = Vec::with_capacity(MAX_CLIPS_PER_TRACK);
    let clips: Vec<TimelineClip> = (0..8)
        .map(|i| placed(const_clip(SR, 2, 4_000, 0.1 * (i as f32 + 1.0)), (i as i64) * 500, 4_000, 0))
        .collect();
    let mut clip_iter = clips.into_iter();
    let mut retired: Option<TimelineClip> = None;

    assert_no_alloc(|| {
        let mut global = 0_i64;
        for tick in 0..1000 {
            if tick % 100 == 0 {
                if let Some(c) = clip_iter.next() {
                    let slot = (tick / 100) % MAX_CLIPS_PER_TRACK;
                    if let Some(old) = sampler.set_clip(slot, c) {
                        retired = Some(old);
                    }
                }
            }
            sampler.set_clip_start(tick % MAX_CLIPS_PER_TRACK, (tick as i64) * 7);
            render_with(&sampler, global, &mut l, &mut r, &mut spans);
            global += l.len() as i64;
        }
    });
    assert_eq!(spans.capacity(), MAX_CLIPS_PER_TRACK);
    drop(retired);
}

#[test]
fn the_last_frame_of_a_source_is_read() {
    let mut sampler = Sampler::new(SR);
    sampler.set_clip(0, TimelineClip::whole(ramp_clip(SR, 10), 0));
    let mut spans = Vec::new();
    sampler.render(0, 20, &mut spans);
    assert_eq!(spans.len(), 1);
    assert_eq!((spans[0].start, spans[0].end), (0, 10));
    assert_eq!(spans[0].tap(9), Tap::Read { frame: 9, next: 9, part: 0, whole: 48_000 });
    assert_eq!(spans[0].tap(8), Tap::Read { frame: 8, next: 9, part: 0, whole: 48_000 });
}

#[test]
fn a_source_that_ends_first_cuts_its_placement_short() {
    let mut sampler = Sampler::new(SR);
    sampler.set_clip(0, placed(const_clip(44_100, 1, 100, 0.5), 10, 1_000, 7));
    let mut spans = Vec::new();
    sampler.render(0, 500, &mut spans);
    // 93 source frames are left, and each output frame uses 0.91875 of one.
    assert_eq!((spans[0].start, spans[0].end), (10, 10 + 102));
}

#[test]
fn sources_that_cannot_be_read_are_silent() {
    let mut sampler = Sampler::new(SR);
    sampler.set_clip(0, TimelineClip::whole(const_clip(SR, 1, 1, 0.5), 0));
    sampler.set_clip(1, placed(const_clip(0, 1, 50, 0.5), 0, 50, 0));
    sampler.set_clip(2, placed(const_clip(SR, 1, 50, 0.5), 0, 50, 50));
    sampler.set_clip(3, placed(const_clip(SR, 1, 50, 0.5), 0, 0, 0));
    let mut spans = Vec::new();
    sampler.render(0, 100, &mut spans);
    assert!(spans.is_empty());
    let mut idle = Sampler::new(0);
    idle.set_clip(0, placed(const_clip(SR, 1, 50, 0.5), 0, 50, 0));
    idle.render(0, 100, &mut spans);
    assert!(spans.is_empty());
}

#[test]
fn placements_at_the_ends_of_time() {
    let mut sampler = Sampler::new(SR);
    sampler.set_clip(0, placed(const_clip(SR, 1, 50, 0.5), i64::MAX - 10, 50, 0));
    sampler.set_clip(1, placed(const_clip(SR, 1, 50, 0.5), -20, 50, 0));
    let mut spans = Vec::new();
    sampler.render(i64::MAX - 12, 100, &mut spans);
    assert_eq!(spans.len(), 1);
    assert_eq!((spans[0].slot, spans[0].start, spans[0].end), (0, 2, 12));
    sampler.render(0, 100, &mut spans);
    assert_eq!(spans.len(), 1);
    assert_eq!((spans[0].slot, spans[0].start, spans[0].end), (1, 0, 30));
    assert_eq!(spans[0].tap(0), Tap::Read { frame: 20, next: 21, part: 0, whole: 48_000 });
}

#[test]
fn slots_hand_their_clips_back() {
    let mut sampler = Sampler::new(SR);
    let a = const_clip(SR, 1, 10, 0.1);
    let b = const_clip(SR, 1, 20, 0.2);
    assert!(sampler.set_clip(5, TimelineClip::whole(a.clone(), 3)).is_none());
    assert_eq!(sampler.active_count(), 1);
    let back = sampler.set_clip(5, TimelineClip::whole(b.clone(), 4)).unwrap();
    assert!(Arc::ptr_eq(&back.clip, &a));
    sampler.set_clip_start(5, -7);
    sampler.set_clip_length(5, 9);
    sampler.set_clip_source_offset(5, 2);
    let tc = sampler.slot(5).unwrap();
    assert_eq!((tc.start_frame, tc.length_frames, tc.source_offset_frames), (-7, 9, 2));
    assert!(sampler.slot(4).is_none());
    assert!(sampler.slot(64).is_none());
    assert!(Arc::ptr_eq(&sampler.clear_clip(5).unwrap().clip, &b));
    assert!(sampler.clear_clip(5).is_none());
    assert_eq!(sampler.active_count(), 0);
}

#[test]
fn clearing_stops_when_there_is_no_room() {
    let mut sampler = Sampler::new(SR);
    for slot in [1, 5, 9] {
        sampler.set_clip(slot, TimelineClip::whole(const_clip(SR, 1, 10, 0.1), slot as i64));
    }
    let mut out: [Option<TimelineClip>; 2] = [None, None];
    sampler.clear_all_into(&mut out);
    assert_eq!(out[0].as_ref().unwrap().start_frame, 1);
    assert_eq!(out[1].as_ref().unwrap().start_frame, 5);
    assert_eq!(sampler.active_count(), 1);
    assert!(sampler.slot(9).is_some());
    let mut rest: [Option<TimelineClip>; 3] = [None, None, None];
    sampler.clear_all_into(&mut rest);
    assert_eq!(rest[0].as_ref().unwrap().start_frame, 9);
    assert!(rest[1].is_none());
    assert_eq!(sampler.active_count(), 0);
}

#[test]
fn a_whole_clip_plays_to_its_end_at_any_rate() {
    let mut sampler = Sampler::new(48_000);
    sampler.set_clip(0, TimelineClip::whole(const_clip(44_100, 1, 1000, 0.5), 0));
    let mut l = [0.0_f32; 1200];
    let mut r = [0.0_f32; 1200];
    render(&sampler, 0, &mut l, &mut r);
    assert!(l[..1089].iter().all(|&x| (x - 0.5).abs() < 1e-6), "1000 frames at 44.1 kHz last 1089 frames at 48 kHz");
    assert!(l[1089..].iter().all(|&x| x == 0.0));
    assert_eq!(whole_length(&const_clip(44_100, 1, 1000, 0.5), 48_000), 1089);
    assert_eq!(whole_length(&const_clip(48_000, 1, 1000, 0.5), 48_000), 1000);
}
