use std::f32::consts::{FRAC_PI_2, PI};
use std::sync::Arc;

use assert_no_alloc::assert_no_alloc;
use daw_engine::audio::{AudioRings, Callback, Engine, Snapshot};
use daw_engine::clip::AudioClip;
use daw_engine::commands::{Command, CAPACITY};
use daw_engine::dsp::biquad::{Biquad, BiquadCoeffs, FilterInputs, FilterKind};
use daw_engine::dsp::chain::{Chain, ChainSetup, LEVEL_SECS};
use daw_engine::dsp::eq::{self, EqAction, EqWalk, Glide, CONTROL_BLOCK, SMOOTH_SECS};
use daw_engine::dsp::gain::{Gain, MAX_DB, MAX_LINEAR, MIN_DB};
use daw_engine::dsp::pan::Pan;
use daw_engine::dsp::smooth::SmoothedParam;
use daw_engine::mixer::{MixAction, MixWalk, Mixer, MAX_TRACKS};
use daw_engine::player::{Placement, Tap, TrackedClip, RETIRE_RING_CAPACITY};
use daw_engine::sampler::{Span, TimelineClip, MAX_CLIPS_PER_TRACK};
use daw_engine::scope::scope_channel;
use daw_engine::single::Single;
use daw_engine::strip::{Strip, MAX_BLOCK};

const SR: f32 = 48_000.0;
const RATE: u32 = 48_000;

// Sample arithmetic, as a caller of the library does it.

fn s(x: f32) -> Single {
    Single { bits: x.to_bits() }
}

fn f(x: Single) -> f32 {
    f32::from_bits(x.bits)
}

fn one_pole(rate: f32, time: f32) -> f32 {
    1.0 - (-1.0 / (time * rate)).exp()
}

fn smoothed(rate: f32, time: f32, initial: f32) -> SmoothedParam {
    SmoothedParam::new(s(rate), s(time), s(one_pole(rate, time)), s(initial))
}

fn moved(p: &SmoothedParam) -> f32 {
    f(p.current()) + (f(p.target()) - f(p.current())) * f(p.coeff)
}

fn next(p: &mut SmoothedParam) -> f32 {
    let value = moved(p);
    f(p.next(s(value)))
}

fn glide(p: &SmoothedParam) -> Glide {
    let value = moved(p);
    Glide {
        moved: s(value),
        distance: s(value - f(p.target())),
        tolerance: s(1e-4 * f(p.scale())),
    }
}

fn coeffs(kind: FilterKind, rate: f32, freq: f32, q: f32, gain: f32) -> BiquadCoeffs {
    let inputs = BiquadCoeffs::inputs(s(rate), s(rate * 0.5 * 0.99), s(freq), s(q), s(gain));
    BiquadCoeffs::new(inputs.map(|inputs| formula(kind, rate, inputs)))
}

fn formula(kind: FilterKind, rate: f32, inputs: FilterInputs) -> (Single, BiquadCoeffs) {
    let a = 10.0_f32.powf(f(inputs.gain_db) / 40.0);
    let w0 = 2.0 * PI * f(inputs.freq_hz) / rate;
    let cos = w0.cos();
    let alpha = w0.sin() / (2.0 * f(inputs.q));
    let (ap1, am1) = (a + 1.0, a - 1.0);
    let t = 2.0 * a.sqrt() * alpha;
    let (b0, b1, b2, a0, a1, a2) = match kind {
        FilterKind::Lowpass => {
            let b1 = 1.0 - cos;
            (b1 * 0.5, b1, b1 * 0.5, 1.0 + alpha, -2.0 * cos, 1.0 - alpha)
        }
        FilterKind::Highpass => {
            let b = (1.0 + cos) * 0.5;
            (b, -(1.0 + cos), b, 1.0 + alpha, -2.0 * cos, 1.0 - alpha)
        }
        FilterKind::Bandpass => (alpha, 0.0, -alpha, 1.0 + alpha, -2.0 * cos, 1.0 - alpha),
        FilterKind::Notch => (1.0, -2.0 * cos, 1.0, 1.0 + alpha, -2.0 * cos, 1.0 - alpha),
        FilterKind::Peak => (
            1.0 + alpha * a,
            -2.0 * cos,
            1.0 - alpha * a,
            1.0 + alpha / a,
            -2.0 * cos,
            1.0 - alpha / a,
        ),
        FilterKind::LowShelf => (
            a * (ap1 - am1 * cos + t),
            2.0 * a * (am1 - ap1 * cos),
            a * (ap1 - am1 * cos - t),
            ap1 + am1 * cos + t,
            -2.0 * (am1 + ap1 * cos),
            ap1 + am1 * cos - t,
        ),
        FilterKind::HighShelf => (
            a * (ap1 + am1 * cos + t),
            -2.0 * a * (am1 + ap1 * cos),
            a * (ap1 + am1 * cos - t),
            ap1 - am1 * cos + t,
            2.0 * (am1 - ap1 * cos),
            ap1 - am1 * cos - t,
        ),
    };
    let inv = 1.0 / a0;
    (
        s(a0),
        BiquadCoeffs {
            b0: s(b0 * inv),
            b1: s(b1 * inv),
            b2: s(b2 * inv),
            a1: s(a1 * inv),
            a2: s(a2 * inv),
        },
    )
}

fn magnitude_db(c: &BiquadCoeffs, rate: f32, freq: f32) -> f32 {
    let w = 2.0 * PI * freq / rate;
    let (cos1, sin1, cos2, sin2) = (w.cos(), w.sin(), (2.0 * w).cos(), (2.0 * w).sin());
    let num_re = f(c.b0) + f(c.b1) * cos1 + f(c.b2) * cos2;
    let num_im = -(f(c.b1) * sin1 + f(c.b2) * sin2);
    let den_re = 1.0 + f(c.a1) * cos1 + f(c.a2) * cos2;
    let den_im = -(f(c.a1) * sin1 + f(c.a2) * sin2);
    let num = num_re * num_re + num_im * num_im;
    let den = den_re * den_re + den_im * den_im;
    10.0 * (num / den).log10()
}

fn response_db(eq: &eq::Eq, rate: f32, freq: f32) -> f32 {
    eq.targets()
        .iter()
        .map(|t| magnitude_db(&coeffs(t.kind, rate, f(t.freq_hz), f(t.q), f(t.gain_db)), rate, freq))
        .sum()
}

fn filtered(filter: &Biquad, ch: usize, x: f32) -> (f32, f32, f32) {
    let c = filter.coeffs();
    let z = filter.memory(ch);
    let y = f(c.b0) * x + f(z.z1);
    (y, f(c.b1) * x - f(c.a1) * y + f(z.z2), f(c.b2) * x - f(c.a2) * y)
}

fn process_sample(filter: &mut Biquad, ch: usize, x: f32) -> f32 {
    let (y, z1, z2) = filtered(filter, ch, x);
    filter.process_sample(ch, s(z1), s(z2));
    y
}

fn setup(rate: f32) -> ChainSetup {
    let control = rate / CONTROL_BLOCK as f32;
    let hz = |bits: u32| f32::from_bits(bits);
    ChainSetup {
        sample_rate: s(rate),
        control_rate: s(control),
        level_pole: s(one_pole(rate, hz(LEVEL_SECS))),
        band_pole: s(one_pole(control, hz(SMOOTH_SECS))),
        flat: [
            coeffs(FilterKind::LowShelf, rate, hz(eq::LOW_HZ), hz(eq::SHELF_Q), 0.0),
            coeffs(FilterKind::Peak, rate, hz(eq::LOW_MID_HZ), hz(eq::BELL_Q), 0.0),
            coeffs(FilterKind::Peak, rate, hz(eq::HIGH_MID_HZ), hz(eq::BELL_Q), 0.0),
            coeffs(FilterKind::HighShelf, rate, hz(eq::HIGH_HZ), hz(eq::SHELF_Q), 0.0),
        ],
    }
}

fn new_eq() -> eq::Eq {
    let set = setup(SR);
    eq::Eq::new(set.control_rate, set.band_pole, set.flat)
}

fn process_eq(eq: &mut eq::Eq, rate: f32, block: &mut [&mut [f32]]) {
    let mut walk = EqWalk::new(block.first().map_or(0, |c| c.len()), block.len());
    loop {
        match walk.next(eq) {
            EqAction::Advance { band } => {
                let b = eq.bands[band];
                let (freq, q, gain) = (glide(&b.freq), glide(&b.q), glide(&b.gain_db));
                let c = coeffs(b.kind, rate, f(freq.moved), f(q.moved), f(gain.moved));
                eq.advance_band(band, freq, q, gain, c);
            }
            EqAction::Filter { ch, band, from, to } => {
                for x in block[ch][from..to].iter_mut() {
                    let (y, z1, z2) = filtered(&eq.bands[band].filter, ch, *x);
                    eq.filter_sample(band, ch, s(z1), s(z2));
                    *x = y;
                }
            }
            EqAction::Done => break,
        }
    }
}

fn process_gain(gain: &mut Gain, block: &mut [&mut [f32]]) {
    if let Some(level) = gain.pending_db {
        gain.resolve(s(10.0_f32.powf(f(level) / 20.0)));
    }
    for i in 0..block[0].len() {
        let g = next(&mut gain.gain);
        for ch in block.iter_mut() {
            ch[i] *= g;
        }
    }
}

fn process_pan(pan: &mut Pan, block: &mut [&mut [f32]]) {
    for i in 0..block[0].len() {
        let value = moved(&pan.pos);
        let theta = (f(pan.next(s(value))) + 1.0) * 0.5 * FRAC_PI_2;
        block[0][i] *= theta.cos();
        block[1][i] *= theta.sin();
    }
}

fn process_chain(chain: &mut Chain, block: &mut [&mut [f32]]) {
    let rate = f(chain.setup.sample_rate);
    process_eq(&mut chain.eq, rate, block);
    process_gain(&mut chain.gain, block);
    process_pan(&mut chain.pan, block);
}

fn read(clip: &AudioClip, tap: Tap) -> (f32, f32) {
    match tap {
        Tap::Silence => (0.0, 0.0),
        Tap::Read { frame, next, part, whole } => {
            let frac = (part as f64 / whole as f64) as f32;
            let lerp = |ch: &[Single]| f(ch[frame]) + (f(ch[next]) - f(ch[frame])) * frac;
            let (l, r) = clip.sides();
            (lerp(&clip.data[l]), lerp(&clip.data[r]))
        }
    }
}

fn release() -> f32 {
    (-1.0 / (0.3 * SR)).exp()
}

struct Scratch {
    left: Vec<f32>,
    right: Vec<f32>,
    mix_l: Vec<f32>,
    mix_r: Vec<f32>,
    taps: Vec<Tap>,
    spans: Vec<Span>,
    frame: Vec<Single>,
}

fn scratch(channels: usize) -> Scratch {
    Scratch {
        left: vec![0.0; MAX_BLOCK],
        right: vec![0.0; MAX_BLOCK],
        mix_l: vec![0.0; MAX_BLOCK],
        mix_r: vec![0.0; MAX_BLOCK],
        taps: vec![Tap::Silence; MAX_BLOCK],
        spans: Vec::with_capacity(MAX_CLIPS_PER_TRACK),
        frame: vec![s(0.0); channels],
    }
}

fn render_strip(strip: &mut Strip, playhead: i64, rolling: bool, frames: usize, b: &mut Scratch) {
    strip.plan_block(playhead, rolling, &mut b.taps[..frames], &mut b.spans);
    finish_strip(strip, frames, b);
}

fn finish_strip(strip: &mut Strip, frames: usize, b: &mut Scratch) {
    let (left, right) = (&mut b.left[..frames], &mut b.right[..frames]);
    for i in 0..frames {
        (left[i], right[i]) = match &strip.player.clip {
            Some(clip) => read(clip, b.taps[i]),
            None => (0.0, 0.0),
        };
    }
    for span in &b.spans {
        let tc = strip.timeline.slot(span.slot).unwrap();
        for i in span.start..span.end {
            let (l, r) = read(&tc.clip, span.tap(i));
            left[i] += l;
            right[i] += r;
        }
    }
    process_chain(&mut strip.chain, &mut [&mut *left, &mut *right]);
    for i in 0..frames {
        let dl = f(strip.peak_left()) * release();
        let dr = f(strip.peak_right()) * release();
        strip.meter(s(dl), s(dr), s(left[i]), s(right[i]));
        b.mix_l[i] += left[i];
        b.mix_r[i] += right[i];
    }
}

fn process(
    mixer: &mut Mixer,
    data: &mut [f32],
    channels: usize,
    scope_tx: &mut rtrb::Producer<Single>,
    b: &mut Scratch,
) {
    let mut walk = MixWalk::new(data.len(), channels);
    loop {
        match walk.next(mixer) {
            MixAction::Track { t, frames } => {
                if t == 0 {
                    b.mix_l[..frames].fill(0.0);
                    b.mix_r[..frames].fill(0.0);
                }
                mixer.plan_track(t, &mut b.taps[..frames], &mut b.spans);
                finish_strip(&mut mixer.strips[t], frames, b);
            }
            MixAction::Master { frames } => process_chain(
                &mut mixer.master,
                &mut [&mut b.mix_l[..frames], &mut b.mix_r[..frames]],
            ),
            MixAction::Emit { at, frames } => {
                for i in 0..frames {
                    let (l, r) = (b.mix_l[i], b.mix_r[i]);
                    let dl = f(mixer.master_peak_left()) * release();
                    let dr = f(mixer.master_peak_right()) * release();
                    mixer.emit_frame(s(l), s(r), s((l + r) * 0.5), s(dl), s(dr), &mut b.frame, scope_tx);
                    for c in 0..channels {
                        data[at + i * channels + c] = f(b.frame[c]);
                    }
                }
            }
            MixAction::Done => break,
        }
    }
}

fn const_clip(amp: f32, frames: usize) -> Arc<AudioClip> {
    Arc::new(AudioClip::new(RATE, vec![vec![s(amp); frames], vec![s(amp); frames]]).unwrap())
}

fn sine(freq: f32, len: usize) -> Vec<f32> {
    (0..len).map(|n| (2.0 * PI * freq * n as f32 / SR).sin()).collect()
}

fn rms_db_tail(buf: &[f32]) -> f32 {
    let tail = &buf[buf.len() / 2..];
    let ms = tail.iter().map(|x| x * x).sum::<f32>() / tail.len() as f32;
    10.0 * ms.max(1e-30).log10()
}

/// The level of a buffer's tail, where a sine of amplitude one reads 0 dB.
fn level_db_tail(buf: &[f32]) -> f32 {
    rms_db_tail(buf) + 10.0 * 2.0_f32.log10()
}

fn run(c: BiquadCoeffs, freq: f32, len: usize) -> Vec<f32> {
    let mut bq = Biquad::new(c);
    sine(freq, len).iter().map(|&x| process_sample(&mut bq, 0, x)).collect()
}

fn run_mono(eq: &mut eq::Eq, input: &[f32]) -> Vec<f32> {
    let mut buf = input.to_vec();
    process_eq(eq, SR, &mut [&mut buf]);
    buf
}

// Smoothing.

#[test]
fn first_value_has_no_glide() {
    let mut p = smoothed(SR, 0.008, 0.5);
    assert!((next(&mut p) - 0.5).abs() < 1e-9, "no glide before a new target");
}

#[test]
fn ramps_toward_target_within_a_bounded_number_of_samples() {
    let mut p = smoothed(SR, 0.008, 0.0);
    p.set_target(s(1.0));
    let bound = (SR * 0.06) as usize;
    let mut settled_at = None;
    let mut last = 0.0_f32;
    for i in 0..bound {
        last = next(&mut p);
        if (last - 1.0).abs() < 2e-3 {
            settled_at = Some(i);
            break;
        }
    }
    assert!(settled_at.is_some(), "should settle within {bound} samples; got to {last}");
}

#[test]
fn glide_is_monotonic_and_has_no_discontinuities() {
    let mut p = smoothed(SR, 0.008, 0.0);
    p.set_target(s(1.0));
    let mut prev = 0.0_f32;
    let first_step = {
        let v = next(&mut p);
        let step = v - prev;
        prev = v;
        step
    };
    for _ in 0..2000 {
        let v = next(&mut p);
        let step = v - prev;
        assert!(step >= -1e-7, "must not overshoot/reverse (step {step})");
        assert!(
            step <= first_step + 1e-6,
            "no step may exceed the first (step {step} > {first_step})"
        );
        prev = v;
    }
}

#[test]
fn smoothing_does_not_allocate() {
    let mut p = smoothed(SR, 0.008, 0.0);
    assert_no_alloc(|| {
        for i in 0..10_000 {
            p.set_target(s((i % 2) as f32));
            let _ = next(&mut p);
        }
    });
}

#[test]
fn without_time_to_glide_a_parameter_jumps() {
    let mut p = SmoothedParam::new(s(SR), s(0.0), s(0.123), s(2.0));
    assert_eq!(p.coeff, s(1.0));
    p.set_target(s(5.0));
    assert_eq!(next(&mut p), 5.0);
    assert_eq!(SmoothedParam::new(s(0.0), s(0.01), s(0.123), s(2.0)).coeff, s(1.0));
    assert_eq!(SmoothedParam::new(s(SR), s(0.01), s(0.123), s(2.0)).coeff, s(0.123));
}

#[test]
fn settling_is_relative_to_the_size_of_the_target() {
    let mut p = smoothed(SR, 0.008, 1000.0);
    assert_eq!(p.scale(), s(1000.0));
    assert!(p.settled(s(-0.09), s(0.1)));
    assert!(!p.settled(s(0.11), s(0.1)));
    p.set_target(s(0.25));
    assert_eq!(p.scale(), s(1.0));
    p.snap();
    assert_eq!((p.current(), p.target()), (s(0.25), s(0.25)));
}

// Fader.

fn gain_at(db: f32) -> Gain {
    let linear = match Gain::db_to_linear(s(db)) {
        None => 0.0,
        Some(level) => 10.0_f32.powf(f(level) / 20.0),
    };
    Gain::new(s(one_pole(SR, 0.008)), s(linear))
}

fn last_of_ones(g: &mut Gain, len: usize) -> f32 {
    let mut l = vec![1.0_f32; len];
    let mut r = vec![1.0_f32; len];
    process_gain(g, &mut [&mut l, &mut r]);
    l[len - 1]
}

#[test]
fn minus_six_db_halves_amplitude() {
    let out = last_of_ones(&mut gain_at(-6.0206), 4096);
    assert!((out - 0.5).abs() < 1e-3, "-6 dB should halve amplitude, got {out}");
}

#[test]
fn zero_db_is_unity() {
    let out = last_of_ones(&mut gain_at(0.0), 4096);
    assert!((out - 1.0).abs() < 1e-4, "0 dB should be unity, got {out}");
}

#[test]
fn floor_is_a_hard_mute() {
    let out = last_of_ones(&mut gain_at(f32::from_bits(MIN_DB) - 10.0), 4096);
    assert_eq!(out, 0.0, "at/below the floor, gain must be exactly 0");
}

#[test]
fn set_linear_drives_and_clamps() {
    let mut g = gain_at(0.0);
    g.set_linear(s(0.5));
    assert!((last_of_ones(&mut g, 4096) - 0.5).abs() < 1e-3, "linear 0.5 should pass through");

    let max_db = f32::from_bits(MAX_DB);
    let ceiling = 10.0_f32.powf(max_db / 20.0);
    let mut g = gain_at(max_db);
    g.set_linear(s(100.0));
    assert!(
        (last_of_ones(&mut g, 4096) - ceiling).abs() < 1e-2,
        "linear gain should clamp to the {max_db} dB ceiling ({ceiling})"
    );
    assert_eq!(f32::from_bits(MAX_LINEAR), ceiling);
    g.set_linear(s(-1.0));
    assert_eq!(g.gain.target(), s(0.0));
}

#[test]
fn change_is_smoothed_not_stepped() {
    let mut g = gain_at(0.0);
    g.set_db(s(f32::from_bits(MIN_DB)));
    let mut l = vec![1.0_f32; 2048];
    let mut r = vec![1.0_f32; 2048];
    process_gain(&mut g, &mut [&mut l, &mut r]);
    let max_step = l.windows(2).map(|w| (w[0] - w[1]).abs()).fold(0.0, f32::max);
    assert!(max_step < 0.02, "gain change not smooth (max step {max_step})");
    assert!(l[l.len() - 1] < 0.5, "should be fading toward mute");
}

#[test]
fn gain_does_not_allocate() {
    let mut g = gain_at(0.0);
    let mut l = [0.5_f32; 512];
    let mut r = [0.5_f32; 512];
    assert_no_alloc(|| {
        for i in 0..1000 {
            g.set_db(s(-(i % 24) as f32));
            process_gain(&mut g, &mut [&mut l, &mut r]);
        }
    });
}

#[test]
fn levels_are_held_to_the_fader() {
    assert_eq!(Gain::db_to_linear(s(-60.0)), None);
    assert_eq!(Gain::db_to_linear(s(-59.5)), Some(s(-59.5)));
    assert_eq!(Gain::db_to_linear(s(40.0)), Some(s(12.0)));
    assert_eq!(Gain::db_to_linear(s(f32::NAN)), Some(s(12.0)));
    let mut g = gain_at(0.0);
    g.set_db(s(6.0));
    assert_eq!(g.pending_db, Some(s(6.0)));
    g.set_db(s(-120.0));
    assert_eq!(g.pending_db, None);
    assert_eq!(g.gain.target(), s(0.0));
    g.resolve(s(9.0));
    assert_eq!(g.gain.target(), s(0.0), "nothing is waiting");
}

// Pan.

fn steady_lr_at(pos: f32) -> (f32, f32) {
    let mut p = Pan::new(s(one_pole(SR, 0.008)), s(pos));
    let mut l = vec![1.0_f32; 2048];
    let mut r = vec![1.0_f32; 2048];
    process_pan(&mut p, &mut [&mut l, &mut r]);
    (l[2047], r[2047])
}

#[test]
fn center_is_minus_three_db_each_side() {
    let (l, r) = steady_lr_at(0.0);
    assert!((l - 0.70710677).abs() < 1e-4, "center L ~0.707, got {l}");
    assert!((r - 0.70710677).abs() < 1e-4, "center R ~0.707, got {r}");
}

#[test]
fn hard_left_silences_the_right() {
    let (l, r) = steady_lr_at(-1.0);
    assert!((l - 1.0).abs() < 1e-4, "hard left: L unity, got {l}");
    assert!(r.abs() < 1e-4, "hard left: R silent, got {r}");
}

#[test]
fn hard_right_silences_the_left() {
    let (l, r) = steady_lr_at(1.0);
    assert!(l.abs() < 1e-4, "hard right: L silent, got {l}");
    assert!((r - 1.0).abs() < 1e-4, "hard right: R unity, got {r}");
}

#[test]
fn total_power_is_constant_across_the_field() {
    for &pos in &[-1.0, -0.6, -0.2, 0.0, 0.3, 0.7, 1.0] {
        let (l, r) = steady_lr_at(pos);
        let power = l * l + r * r;
        assert!(
            (power - 1.0).abs() < 1e-3,
            "power should be constant (1.0) at pos {pos}, got {power}"
        );
    }
}

#[test]
fn pan_does_not_allocate() {
    let mut p = Pan::new(s(one_pole(SR, 0.008)), s(0.0));
    let mut l = [0.5_f32; 512];
    let mut r = [0.5_f32; 512];
    assert_no_alloc(|| {
        for i in 0..1000 {
            p.set_pos(s(((i % 200) as f32 / 100.0) - 1.0));
            process_pan(&mut p, &mut [&mut l, &mut r]);
        }
    });
}

#[test]
fn pan_is_held_to_the_field() {
    let mut p = Pan::new(s(0.5), s(-7.0));
    assert_eq!(p.pos.current(), s(-1.0));
    p.set_pos(s(3.0));
    assert_eq!(p.pos.target(), s(1.0));
    assert_eq!(p.next(s(1.5)), s(1.0));
    assert_eq!(p.pos.current(), s(1.5));
}

// Filters.

#[test]
fn lowpass_passes_lows_and_attenuates_highs() {
    let lp = coeffs(FilterKind::Lowpass, SR, 1_000.0, 0.707, 0.0);
    let low = level_db_tail(&run(lp, 100.0, 8192));
    assert!(low > -1.0, "100 Hz should pass a 1 kHz LP nearly untouched, got {low} dB");
    let high = rms_db_tail(&run(lp, 10_000.0, 8192));
    assert!(high < -20.0, "10 kHz should be attenuated >20 dB by a 1 kHz LP, got {high} dB");
}

#[test]
fn highpass_passes_highs_and_attenuates_lows() {
    let hp = coeffs(FilterKind::Highpass, SR, 1_000.0, 0.707, 0.0);
    assert!(level_db_tail(&run(hp, 10_000.0, 8192)) > -1.0, "10 kHz should pass a 1 kHz HP");
    let low = rms_db_tail(&run(hp, 100.0, 8192));
    assert!(low < -20.0, "100 Hz should be attenuated >20 dB by a 1 kHz HP, got {low} dB");
}

#[test]
fn bandpass_peaks_at_center_and_rejects_far_tones() {
    let bp = coeffs(FilterKind::Bandpass, SR, 1_000.0, 2.0, 0.0);
    let center = rms_db_tail(&run(bp, 1_000.0, 8192));
    let below = rms_db_tail(&run(bp, 100.0, 8192));
    let above = rms_db_tail(&run(bp, 10_000.0, 8192));
    assert!(
        center > below + 15.0 && center > above + 15.0,
        "band-pass should favor center: center {center}, below {below}, above {above}"
    );
}

#[test]
fn peak_boost_lifts_the_center_by_the_set_gain() {
    let bell = coeffs(FilterKind::Peak, SR, 1_000.0, 1.0, 12.0);
    let at_center = level_db_tail(&run(bell, 1_000.0, 16384));
    let far = level_db_tail(&run(bell, 100.0, 16384));
    assert!(
        (at_center - 12.0).abs() < 1.0,
        "peak should boost center by ~12 dB, got {at_center} dB"
    );
    assert!(far.abs() < 1.0, "peak should leave 100 Hz flat, got {far} dB");
}

#[test]
fn shelves_boost_their_side_and_leave_the_other_flat() {
    let ls = coeffs(FilterKind::LowShelf, SR, 1_000.0, 0.707, 12.0);
    assert!((level_db_tail(&run(ls, 80.0, 16384)) - 12.0).abs() < 1.5, "low shelf should lift lows ~12 dB");
    assert!(level_db_tail(&run(ls, 16_000.0, 16384)).abs() < 1.5, "low shelf should leave highs flat");
    let hs = coeffs(FilterKind::HighShelf, SR, 1_000.0, 0.707, 12.0);
    assert!((level_db_tail(&run(hs, 16_000.0, 16384)) - 12.0).abs() < 1.5, "high shelf should lift highs ~12 dB");
    assert!(level_db_tail(&run(hs, 80.0, 16384)).abs() < 1.5, "high shelf should leave lows flat");
}

#[test]
fn measured_response_matches_the_analytic_magnitude() {
    let cases = [
        (FilterKind::Lowpass, 1_000.0, 0.707, 0.0, 500.0),
        (FilterKind::Lowpass, 1_000.0, 0.707, 0.0, 3_000.0),
        (FilterKind::Peak, 2_000.0, 1.5, 9.0, 2_000.0),
        (FilterKind::Peak, 2_000.0, 1.5, -9.0, 2_000.0),
        (FilterKind::HighShelf, 4_000.0, 0.707, 6.0, 12_000.0),
    ];
    for (kind, f0, q, gain, probe) in cases {
        let c = coeffs(kind, SR, f0, q, gain);
        let measured = level_db_tail(&run(c, probe, 32768));
        let analytic = magnitude_db(&c, SR, probe);
        assert!(
            (measured - analytic).abs() < 0.6,
            "{kind:?} @ {probe} Hz: measured {measured:.2} dB vs analytic {analytic:.2} dB"
        );
    }
}

#[test]
fn identity_is_a_pass_through() {
    let input = sine(1_000.0, 1024);
    let out = run(BiquadCoeffs::identity(), 1_000.0, 1024);
    for (i, o) in input.iter().zip(out.iter()) {
        assert!((i - o).abs() < 1e-6, "identity must pass the signal through");
    }
    assert_eq!(Biquad::identity().coeffs(), BiquadCoeffs::identity());
}

#[test]
fn coefficients_are_stable_poles_inside_unit_circle() {
    for &f0 in &[20.0, 200.0, 2_000.0, 20_000.0] {
        for &q in &[0.1, 0.707, 8.0, 40.0] {
            for code in 0..7 {
                let kind = FilterKind::from_code(code);
                let c = coeffs(kind, SR, f0, q, 18.0);
                let (a1, a2) = (f(c.a1), f(c.a2));
                assert!(a2.abs() < 1.0, "{kind:?} f0={f0} q={q}: |a2| {a2} >= 1");
                assert!(
                    a1.abs() < 1.0 + a2 + 1e-4,
                    "{kind:?} f0={f0} q={q}: pole outside unit circle"
                );
                assert!(f(c.b0).is_finite() && a1.is_finite(), "coeffs must be finite");
            }
        }
    }
}

#[test]
fn ringing_state_flushes_to_zero_no_denormals_linger() {
    let mut bq = Biquad::new(coeffs(FilterKind::Bandpass, SR, 1_000.0, 20.0, 0.0));
    for &x in &sine(1_000.0, 2048) {
        process_sample(&mut bq, 0, x);
    }
    for _ in 0..200_000 {
        process_sample(&mut bq, 0, 0.0);
    }
    assert_eq!(bq.memory(0).z1, s(0.0), "z1 must flush to exactly 0");
    assert_eq!(bq.memory(0).z2, s(0.0), "z2 must flush to exactly 0");
}

#[test]
fn biquad_process_does_not_allocate() {
    let mut bq = Biquad::new(coeffs(FilterKind::Peak, SR, 1_000.0, 1.0, 6.0));
    let mut block = [[0.3_f32; 512]; 2];
    assert_no_alloc(|| {
        for i in 0..1000 {
            bq.set_coeffs(coeffs(FilterKind::Peak, SR, 1_000.0 + (i % 100) as f32, 1.0, 6.0));
            for ch in 0..2 {
                for x in block[ch].iter_mut() {
                    *x = process_sample(&mut bq, ch, *x);
                }
            }
        }
    });
}

#[test]
fn filter_inputs_are_clamped() {
    let wild = BiquadCoeffs::inputs(s(SR), s(23_760.0), s(90_000.0), s(0.0), s(100.0)).unwrap();
    assert_eq!((f(wild.freq_hz), f(wild.q), f(wild.gain_db)), (23_760.0, 0.05, 24.0));
    let wild = BiquadCoeffs::inputs(s(SR), s(23_760.0), s(-5.0), s(99.0), s(-100.0)).unwrap();
    assert_eq!((f(wild.freq_hz), f(wild.q), f(wild.gain_db)), (1.0, 40.0, -24.0));
    assert!(BiquadCoeffs::inputs(s(0.0), s(0.0), s(1.0), s(1.0), s(1.0)).is_none());
    let ones = BiquadCoeffs { b0: s(1.0), b1: s(1.0), b2: s(1.0), a1: s(1.0), a2: s(1.0) };
    assert_eq!(BiquadCoeffs::new(Some((s(1e-40), ones))), BiquadCoeffs::identity());
    assert_eq!(BiquadCoeffs::new(Some((s(2.0), ones))), ones);
    assert_eq!(BiquadCoeffs::new(None), BiquadCoeffs::identity());
    assert_eq!(coeffs(FilterKind::Lowpass, 0.0, 100.0, 1.0, 0.0), BiquadCoeffs::identity());
}

#[test]
fn held_inputs_give_the_same_filter() {
    let kinds = [FilterKind::Lowpass, FilterKind::Peak, FilterKind::HighShelf];
    for (rate, freq, q, gain) in [(SR, 90_000.0, 0.0, 100.0), (SR, -5.0, 99.0, -100.0), (SR, 440.0, 1.0, 3.0), (1.5, 10.0, -1.0, 30.0)] {
        let held = BiquadCoeffs::inputs(s(rate), s(rate * 0.5 * 0.99), s(freq), s(q), s(gain)).unwrap();
        for kind in kinds {
            let again = coeffs(kind, rate, f(held.freq_hz), f(held.q), f(held.gain_db));
            assert_eq!(coeffs(kind, rate, freq, q, gain), again);
        }
    }
    assert_eq!(coeffs(FilterKind::Peak, SR, 23_800.0, 1.0, 6.0), coeffs(FilterKind::Peak, SR, 1e9, 1.0, 6.0));
    assert_eq!(coeffs(FilterKind::Peak, SR, 440.0, -3.0, 99.0), coeffs(FilterKind::Peak, SR, 440.0, 0.05, 24.0));
}

#[test]
fn curves_are_drawn_of_the_bands_that_are_on() {
    let mut eq = new_eq();
    eq.set_band_enabled(1, false);
    eq.set_band_gain_db(2, s(5.0));
    let aims: Vec<(FilterKind, f32, f32)> = eq.targets().iter().map(|t| (t.kind, f(t.freq_hz), f(t.gain_db))).collect();
    assert_eq!(
        aims,
        vec![(FilterKind::LowShelf, 120.0, 0.0), (FilterKind::Peak, 3_000.0, 5.0), (FilterKind::HighShelf, 8_000.0, 0.0)]
    );
    assert!(Pan::applies_to(2) && !Pan::applies_to(1) && !Pan::applies_to(0));
}

#[test]
fn channels_of_a_filter_do_not_hear_each_other() {
    let mut bq = Biquad::new(coeffs(FilterKind::Lowpass, SR, 1_000.0, 0.707, 0.0));
    process_sample(&mut bq, 0, 1.0);
    assert_eq!(bq.memory(1).z1, s(0.0));
    assert!(bq.memory(0).z1 != s(0.0));
    bq.reset();
    assert_eq!(bq.memory(0), bq.memory(1));
}

// Equalizer.

#[test]
fn flat_eq_is_transparent() {
    let mut eq = new_eq();
    for &freq in &[100.0, 1_000.0, 8_000.0] {
        let out = run_mono(&mut eq, &sine(freq, 16384));
        assert!(
            level_db_tail(&out).abs() < 0.3,
            "flat EQ should pass {freq} Hz untouched, got {} dB",
            level_db_tail(&out)
        );
    }
}

#[test]
fn a_bell_boost_lifts_its_band_in_audio_and_curve() {
    let mut eq = new_eq();
    eq.set_band_gain_db(2, s(12.0));
    let _ = run_mono(&mut eq, &vec![0.0; 8192]);
    let out = level_db_tail(&run_mono(&mut eq, &sine(3_000.0, 16384)));
    assert!((out - 12.0).abs() < 1.5, "3 kHz should be lifted ~12 dB, got {out} dB");
    let curve = response_db(&eq, SR, 3_000.0);
    assert!((curve - 12.0).abs() < 1.0, "curve should read ~+12 dB at 3 kHz, got {curve}");
    assert!(response_db(&eq, SR, 100.0).abs() < 1.0, "100 Hz should stay flat");
}

#[test]
fn response_sums_across_bands() {
    let mut eq = new_eq();
    eq.set_band_freq(1, s(2_000.0));
    eq.set_band_gain_db(1, s(6.0));
    eq.set_band_freq(2, s(2_000.0));
    eq.set_band_gain_db(2, s(6.0));
    let at_2k = response_db(&eq, SR, 2_000.0);
    assert!(at_2k > 10.0, "two +6 dB bells at 2 kHz should sum to ~+12 dB, got {at_2k}");
}

#[test]
fn sweeping_a_cutoff_does_not_click() {
    let mut eq = new_eq();
    eq.set_band_kind(0, FilterKind::Lowpass);
    eq.set_band_freq(0, s(5_000.0));
    let block = 64;
    let mut prev = 0.0_f32;
    let mut max_jump = 0.0_f32;
    for k in 0..1000 {
        let cutoff = 5_000.0 - (k as f32 / 1000.0) * 4_700.0;
        eq.set_band_freq(0, s(cutoff));
        for &x in &run_mono(&mut eq, &sine(440.0, block)) {
            max_jump = max_jump.max((x - prev).abs());
            prev = x;
        }
    }
    assert!(max_jump < 0.2, "cutoff sweep should be click-free, max jump {max_jump}");
    assert!(prev.is_finite(), "output must stay finite through the sweep");
}

#[test]
fn disabled_band_is_a_true_bypass() {
    let mut eq = new_eq();
    eq.set_band_gain_db(2, s(12.0));
    eq.set_band_enabled(2, false);
    let _ = run_mono(&mut eq, &vec![0.0; 4096]);
    let out = level_db_tail(&run_mono(&mut eq, &sine(3_000.0, 16384)));
    assert!(out.abs() < 0.3, "disabled boost band should not affect audio, got {out} dB");
    assert!(response_db(&eq, SR, 3_000.0).abs() < 0.3, "disabled band drops out of the curve");
}

#[test]
fn eq_process_does_not_allocate() {
    let mut eq = new_eq();
    let mut l = [0.2_f32; 512];
    let mut r = [0.2_f32; 512];
    assert_no_alloc(|| {
        for i in 0..1000 {
            eq.set_band_freq(0, s(200.0 + (i % 400) as f32));
            eq.set_band_q(1, s(0.5 + (i % 8) as f32 * 0.5));
            eq.set_band_gain_db(2, s(-12.0 + (i % 24) as f32));
            eq.set_band_enabled(3, i % 2 == 0);
            eq.set_band_kind(1, if i % 3 == 0 { FilterKind::Notch } else { FilterKind::Peak });
            process_eq(&mut eq, SR, &mut [&mut l, &mut r]);
        }
    });
}

#[test]
fn a_band_comes_to_rest_on_its_targets() {
    let mut eq = new_eq();
    assert!(!eq.band_moving(1));
    eq.set_band_freq(1, s(700.0));
    assert!(eq.band_moving(1));
    let _ = run_mono(&mut eq, &vec![0.0; 48_000]);
    assert!(!eq.band_moving(1));
    assert_eq!(eq.bands[1].freq.current(), s(700.0));
    let held = eq.bands[1];
    let step = Glide { moved: s(1.0), distance: s(0.0), tolerance: s(1.0) };
    eq.advance_band(1, step, step, step, BiquadCoeffs::identity());
    assert!(eq.bands[1] == held, "a band at rest is left alone");
}

#[test]
fn switching_a_band_on_makes_it_forget() {
    let mut eq = new_eq();
    eq.set_band_gain_db(0, s(6.0));
    let _ = run_mono(&mut eq, &vec![1.0; 64]);
    assert!(eq.bands[0].filter.memory(0).z1 != s(0.0));
    eq.set_band_enabled(0, false);
    assert!(!eq.bands[0].enabled);
    eq.set_band_enabled(0, true);
    assert_eq!(eq.bands[0].filter.memory(0).z1, s(0.0));
    assert!(eq.band_moving(0));
}

fn noise(len: usize, seed: u32) -> Vec<f32> {
    let mut x = seed;
    (0..len)
        .map(|_| {
            x = x.wrapping_mul(1_664_525).wrapping_add(1_013_904_223);
            (x >> 8) as f32 / 8_388_608.0 - 1.0
        })
        .collect()
}

fn cut_matches_whole(mut eq: eq::Eq, frames: usize, k: usize) -> bool {
    let (mut l, mut r) = (noise(frames, 1), noise(frames, 2));
    let (mut first, mut second) = (l.clone(), r.clone());
    let mut cut = eq;
    process_eq(&mut eq, SR, &mut [&mut l, &mut r]);
    process_eq(&mut cut, SR, &mut [&mut first[..k], &mut second[..k]]);
    process_eq(&mut cut, SR, &mut [&mut first[k..], &mut second[k..]]);
    l == first && r == second && eq.bands == cut.bands
}

#[test]
fn gliding_blocks_may_be_cut_between_pieces() {
    let mut eq = new_eq();
    eq.set_band_gain_db(1, s(12.0));
    eq.set_band_freq(2, s(6_000.0));
    eq.set_band_enabled(3, false);
    for k in [0, 16, 48, 96, 100] {
        assert!(cut_matches_whole(eq, 100, k), "cut at {k}");
    }
    assert!(!cut_matches_whole(eq, 100, 5), "a cut inside a piece moves the steps");
}

#[test]
fn resting_blocks_may_be_cut_anywhere() {
    let mut eq = new_eq();
    eq.set_band_gain_db(1, s(12.0));
    eq.set_band_q(2, s(3.0));
    let mut silence = vec![0.0; 48_000];
    process_eq(&mut eq, SR, &mut [&mut silence]);
    assert!(eq.bands.iter().all(|b| !b.needs_coeffs));
    for k in [0, 1, 5, 16, 37, 99, 100] {
        assert!(cut_matches_whole(eq, 100, k), "cut at {k}");
    }
}

#[test]
fn a_walk_through_the_equalizer_goes_piece_by_piece() {
    let mut eq = new_eq();
    for band in 1..4 {
        eq.set_band_enabled(band, false);
    }
    eq.set_band_q(0, s(2.0));
    let mut walk = EqWalk::new(20, 5);
    assert_eq!(walk.next(&eq), EqAction::Advance { band: 0 });
    assert_eq!(walk.next(&eq), EqAction::Filter { ch: 0, band: 0, from: 0, to: 16 });
    assert_eq!(walk.next(&eq), EqAction::Filter { ch: 1, band: 0, from: 0, to: 16 });
    assert_eq!(walk.next(&eq), EqAction::Advance { band: 0 });
    assert_eq!(walk.next(&eq), EqAction::Filter { ch: 0, band: 0, from: 16, to: 20 });
    assert_eq!(walk.next(&eq), EqAction::Filter { ch: 1, band: 0, from: 16, to: 20 });
    assert_eq!(walk.next(&eq), EqAction::Done);
    assert_eq!(walk.next(&eq), EqAction::Done);
    assert_eq!(eq::Eq::sub_block(20, 16), 4);
    assert_eq!(eq::Eq::sub_block(100, 0), 16);
}

#[test]
fn bands_that_do_not_exist_change_nothing() {
    let mut eq = new_eq();
    let before = eq.bands;
    eq.set_band_kind(4, FilterKind::Notch);
    eq.set_band_freq(9, s(1.0));
    eq.set_band_q(255, s(1.0));
    eq.set_band_gain_db(4, s(1.0));
    eq.set_band_enabled(4, false);
    assert!(eq.bands == before);
}

#[test]
fn a_chain_goes_back_to_how_it_was_built() {
    let mut chain = Chain::new(setup(SR));
    let fresh = chain;
    chain.set_gain_db(s(-20.0));
    chain.set_pan(s(0.5));
    chain.set_eq_band_kind(0, 6);
    chain.set_eq_band_freq(1, s(900.0));
    chain.set_eq_band_q(1, s(3.0));
    chain.set_eq_band_gain_db(2, s(3.0));
    chain.set_eq_band_enabled(3, false);
    assert_eq!(chain.eq.bands[0].kind, FilterKind::Notch);
    let mut l = [0.4_f32; 64];
    let mut r = [0.4_f32; 64];
    process_chain(&mut chain, &mut [&mut l, &mut r]);
    chain.reset();
    assert!(chain.eq.bands == fresh.eq.bands);
    assert_eq!(chain.gain, fresh.gain);
    assert_eq!(chain.pan, fresh.pan);
    chain.set_gain_linear(s(0.25));
    assert_eq!(chain.gain.gain.target(), s(0.25));
}

// Strip.

fn new_strip() -> Strip {
    Strip::new(RATE, setup(SR))
}

#[test]
fn meter_responds_to_audio_then_decays() {
    let mut strip = new_strip();
    let mut b = scratch(2);
    strip.set_clip(const_clip(0.8, 96_000));
    strip.handle_transport(Command::Play);
    render_strip(&mut strip, 0, false, 512, &mut b);
    assert!(
        f(strip.peak_left()) > 0.5 && f(strip.peak_right()) > 0.5,
        "meter should rise with audio, got L={} R={}",
        f(strip.peak_left()),
        f(strip.peak_right())
    );
    strip.handle_transport(Command::Stop);
    for _ in 0..200 {
        render_strip(&mut strip, 0, false, 512, &mut b);
    }
    assert!(
        f(strip.peak_left()) < 0.01 && f(strip.peak_right()) < 0.01,
        "meter should decay to ~0 after silence, got L={} R={}",
        f(strip.peak_left()),
        f(strip.peak_right())
    );
}

#[test]
fn mute_drops_the_meter() {
    let mut strip = new_strip();
    let mut b = scratch(2);
    strip.set_clip(const_clip(0.8, 96_000));
    strip.handle_transport(Command::Play);
    strip.chain.set_gain_db(s(-120.0));
    for _ in 0..200 {
        b.mix_l.fill(0.0);
        b.mix_r.fill(0.0);
        render_strip(&mut strip, 0, false, 512, &mut b);
    }
    assert!(
        f(strip.peak_left()) < 0.01,
        "muted strip should meter ~0, got {}",
        f(strip.peak_left())
    );
    assert!(b.mix_l[511].abs() < 1e-3);
}

#[test]
fn hard_left_pan_silences_right_contribution() {
    let mut strip = new_strip();
    let mut b = scratch(2);
    strip.set_clip(const_clip(0.8, 96_000));
    strip.handle_transport(Command::Play);
    strip.chain.set_pan(s(-1.0));
    for _ in 0..50 {
        b.mix_l.fill(0.0);
        b.mix_r.fill(0.0);
        render_strip(&mut strip, 0, false, 1024, &mut b);
    }
    assert!(b.mix_l[1023].abs() > 0.3, "left should carry the signal, got {}", b.mix_l[1023]);
    assert!(
        b.mix_r[1023].abs() < 0.01,
        "hard-left pan should silence right, got {}",
        b.mix_r[1023]
    );
}

#[test]
fn strip_render_does_not_allocate() {
    let mut strip = new_strip();
    let clip = const_clip(0.7, 50_000);
    let mut b = scratch(2);
    assert_no_alloc(|| {
        strip.set_clip(clip);
        strip.handle_transport(Command::Play);
        for i in 0..1000 {
            strip.chain.set_gain_db(s(-(i % 24) as f32));
            strip.chain.set_pan(s(((i % 200) as f32 / 100.0) - 1.0));
            render_strip(&mut strip, 0, false, 512, &mut b);
        }
    });
}

#[test]
fn meters_jump_up_and_fall_slowly() {
    let mut strip = new_strip();
    strip.meter(s(0.0), s(0.0), s(-0.5), s(0.25));
    assert_eq!((strip.peak_left(), strip.peak_right()), (s(0.5), s(0.25)));
    strip.meter(s(0.4), s(0.2), s(0.1), s(f32::NAN));
    assert_eq!((strip.peak_left(), strip.peak_right()), (s(0.4), s(0.2)));
}

// Mixer.

fn new_mixer() -> Mixer {
    Mixer::new(RATE, setup(SR))
}

#[test]
fn two_tracks_sum_into_master() {
    let (mut scope_tx, _r) = scope_channel();
    let settle_blocks = 8;
    let mut data = vec![0.0_f32; 1024];
    let mut b = scratch(2);

    let mut solo = new_mixer();
    solo.set_clip(0, const_clip(0.4, 96_000));
    solo.handle(Command::Play);
    for _ in 0..settle_blocks {
        process(&mut solo, &mut data, 2, &mut scope_tx, &mut b);
    }
    let solo_master = f(solo.master_peak_left());

    let mut duo = new_mixer();
    duo.set_clip(0, const_clip(0.4, 96_000));
    duo.set_clip(1, const_clip(0.4, 96_000));
    duo.handle(Command::Play);
    for _ in 0..settle_blocks {
        process(&mut duo, &mut data, 2, &mut scope_tx, &mut b);
    }
    let duo_master = f(duo.master_peak_left());

    assert!(
        duo_master >= solo_master * 1.5,
        "two-track master {duo_master} should be >= 1.5x solo {solo_master}"
    );
    assert!(f(duo.track_peak_left(0)) > 0.05);
    assert!(f(duo.track_peak_left(1)) > 0.05);
    assert!(f(duo.master_peak_left()) > 0.1);
}

#[test]
fn muting_one_track_does_not_silence_the_other() {
    let (mut scope_tx, _r) = scope_channel();
    let mut mixer = new_mixer();
    let mut b = scratch(2);
    mixer.set_clip(0, const_clip(0.4, 96_000));
    mixer.set_clip(1, const_clip(0.4, 96_000));
    mixer.handle(Command::Play);
    mixer.handle(Command::SetTrackGainDb(1, s(-120.0)));
    let mut data = vec![0.0_f32; 1024];
    for _ in 0..200 {
        process(&mut mixer, &mut data, 2, &mut scope_tx, &mut b);
    }
    assert!(
        f(mixer.track_peak_left(0)) > 0.05,
        "track 0 should still meter, got {}",
        f(mixer.track_peak_left(0))
    );
    assert!(
        f(mixer.track_peak_left(1)) < 0.01,
        "track 1 should be muted, got {}",
        f(mixer.track_peak_left(1))
    );
    assert!(f(mixer.master_peak_left()) > 0.05, "master keeps reading from the un-muted track");
}

#[test]
fn master_gain_attenuates_the_sum() {
    let (mut scope_tx, _r) = scope_channel();
    let mut mixer = new_mixer();
    let mut b = scratch(2);
    mixer.set_clip(0, const_clip(0.5, 96_000));
    mixer.handle(Command::Play);
    mixer.handle(Command::SetMasterGainDb(s(-120.0)));
    let mut data = vec![0.0_f32; 1024];
    for _ in 0..200 {
        process(&mut mixer, &mut data, 2, &mut scope_tx, &mut b);
    }
    assert!(
        f(mixer.master_peak_left()) < 0.01,
        "master mute should silence output, got {}",
        f(mixer.master_peak_left())
    );
    assert!(
        f(mixer.track_peak_left(0)) > 0.05,
        "track meter is pre-master and should still read"
    );
}

#[test]
fn handles_blocks_larger_than_max_block_in_chunks() {
    let (mut scope_tx, _r) = scope_channel();
    let mut mixer = new_mixer();
    let mut b = scratch(2);
    mixer.set_clip(0, const_clip(0.5, MAX_BLOCK * 4));
    mixer.handle(Command::Play);
    let frames = MAX_BLOCK + 777;
    let mut data = vec![0.0_f32; frames * 2];
    process(&mut mixer, &mut data, 2, &mut scope_tx, &mut b);
    assert!(data.iter().any(|&x| x != 0.0), "oversized block should render");
    assert!(data[data.len() - 2] != 0.0, "to its last frame");
    assert_eq!(mixer.pos_frames(), frames as i64);
    assert_eq!(mixer.playhead, frames as i64);
}

#[test]
fn out_of_range_indices_are_no_ops() {
    let mut mixer = new_mixer();
    mixer.handle(Command::SetTrackGainDb(99, s(-6.0)));
    mixer.handle(Command::SetTrackPan(99, s(1.0)));
    mixer.handle(Command::SetTrackEqBandFreq(99, 0, s(1000.0)));
    mixer.handle(Command::MoveClip(99, 0, 5));
    assert!(mixer.set_clip(99, const_clip(0.1, 100)).is_none());
    assert!(mixer.remove_clip(99, 0).is_none());
    for strip in &mixer.strips {
        assert_eq!(strip.chain.gain.pending_db, None);
        assert_eq!(strip.chain.pan.pos.target(), s(0.0));
        assert!(strip.player.clip.is_none());
    }
    assert_eq!(mixer.track_peak_left(99), s(0.0));
    assert_eq!(mixer.track_peak_right(99), s(0.0));
    assert_eq!(mixer.track_count(), MAX_TRACKS);
}

#[test]
fn clear_track_does_not_allocate() {
    let (mut scope_tx, _r) = scope_channel();
    let mut mixer = new_mixer();
    let mut b = scratch(2);
    let clip = const_clip(0.4, 50_000);
    let mut data = vec![0.0_f32; 1024];
    let mut clip_slot = Some(clip);
    let mut out: Vec<Option<TimelineClip>> = (0..MAX_CLIPS_PER_TRACK).map(|_| None).collect();
    assert_no_alloc(|| {
        for _ in 0..200 {
            if let Some(c) = clip_slot.take() {
                mixer.set_clip(0, c);
            }
            mixer.handle(Command::Play);
            process(&mut mixer, &mut data, 2, &mut scope_tx, &mut b);
            clip_slot = mixer.clear_track(0, &mut out);
        }
    });
    assert!(clip_slot.is_some());
    assert!(mixer.strips[0].player.clip.is_none());
}

#[test]
fn mixer_process_does_not_allocate() {
    let (mut scope_tx, _r) = scope_channel();
    let mut mixer = new_mixer();
    let mut b = scratch(2);
    let clip0 = const_clip(0.3, 50_000);
    let clip1 = const_clip(0.3, 50_000);
    let mut data = vec![0.0_f32; 1024];
    assert_no_alloc(|| {
        mixer.set_clip(0, clip0);
        mixer.set_clip(1, clip1);
        mixer.handle(Command::Play);
        for i in 0..1000 {
            mixer.handle(Command::SetTrackGainDb(0, s(-(i % 24) as f32)));
            mixer.handle(Command::SetTrackPan(1, s(((i % 200) as f32 / 100.0) - 1.0)));
            mixer.handle(Command::SetMasterGainDb(s(-(i % 12) as f32)));
            process(&mut mixer, &mut data, 2, &mut scope_tx, &mut b);
        }
    });
}

#[test]
fn the_mix_is_spread_over_the_channels_of_the_device() {
    let (mut scope_tx, mut reader) = scope_channel();
    let mut mixer = new_mixer();
    let mut mono = [s(9.0)];
    let mut quad = [s(9.0); 4];
    mixer.emit_frame(s(0.5), s(-0.25), s(0.125), s(0.0), s(0.0), &mut mono, &mut scope_tx);
    assert_eq!(mono, [s(0.125)]);
    mixer.emit_frame(s(0.5), s(-0.25), s(0.125), s(0.4), s(0.4), &mut quad, &mut scope_tx);
    assert_eq!(quad, [s(0.5), s(-0.25), s(0.0), s(0.0)]);
    assert_eq!((mixer.master_peak_left(), mixer.master_peak_right()), (s(0.5), s(0.4)));
    assert_eq!(reader.frame(), vec![s(0.125), s(0.125)]);
}

#[test]
fn a_walk_over_a_buffer_visits_tracks_then_master_then_output() {
    let mut mixer = new_mixer();
    mixer.handle(Command::Play);
    let mut walk = MixWalk::new(3 * 10, 3);
    for t in 0..MAX_TRACKS {
        assert_eq!(walk.next(&mut mixer), MixAction::Track { t, frames: 10 });
    }
    assert_eq!(walk.next(&mut mixer), MixAction::Master { frames: 10 });
    assert_eq!(mixer.playhead, 0);
    assert_eq!(walk.next(&mut mixer), MixAction::Emit { at: 0, frames: 10 });
    assert_eq!(mixer.playhead, 10);
    assert_eq!(walk.next(&mut mixer), MixAction::Done);
    assert_eq!(MixWalk::new(8, 0).next(&mut mixer), MixAction::Done);
    assert_eq!(Mixer::next_block(100_000, 2), MAX_BLOCK);
    assert_eq!(Mixer::next_block(100, 2), 50);
    assert_eq!(Mixer::next_block(100, 0), 0);
}

#[test]
fn transport_drives_the_timeline() {
    let mut mixer = new_mixer();
    mixer.finish_block(100);
    assert_eq!(mixer.playhead, 0, "nothing moves before play");
    mixer.handle(Command::Play);
    mixer.finish_block(100);
    assert_eq!(mixer.playhead, 100);
    mixer.handle(Command::Pause);
    mixer.finish_block(100);
    assert_eq!(mixer.playhead, 100);
    mixer.handle(Command::Seek(s(1.5)));
    assert_eq!(mixer.playhead, 72_000);
    mixer.handle(Command::Seek(s(f32::INFINITY)));
    assert_eq!(mixer.playhead, i64::MAX, "times end where frames can no longer be counted");
    mixer.handle(Command::Stop);
    assert_eq!(mixer.playhead, 0);
    assert!(!mixer.is_playing());
}

#[test]
fn placed_clips_sound_where_they_are_placed() {
    let (mut scope_tx, _r) = scope_channel();
    let mut mixer = new_mixer();
    let mut b = scratch(2);
    let at = Placement { slot: 3, start_frame: 600, length_frames: 100, source_offset_frames: 0 };
    assert!(mixer.place_clip(2, const_clip(0.5, 1_000), at).is_none());
    let mut data = vec![0.0_f32; 2048];
    process(&mut mixer, &mut data, 2, &mut scope_tx, &mut b);
    assert!(data.iter().all(|&x| x == 0.0), "the timeline does not roll yet");
    mixer.handle(Command::Play);
    process(&mut mixer, &mut data, 2, &mut scope_tx, &mut b);
    assert!(data[..1200].iter().all(|&x| x == 0.0));
    assert!(data[1200].abs() > 0.1);
    mixer.handle(Command::Stop);
    mixer.handle(Command::MoveClip(2, 3, 100));
    mixer.handle(Command::ResizeClip(2, 3, 50));
    mixer.handle(Command::SetClipSourceOffset(2, 3, 7));
    let tc = mixer.strips[2].timeline.slot(3).unwrap();
    assert_eq!((tc.start_frame, tc.length_frames, tc.source_offset_frames), (100, 50, 7));
    assert!(mixer.remove_clip(2, 3).is_some());
    assert!(mixer.remove_clip(2, 3).is_none());
}

// Both sides.

fn pair() -> (Engine, Callback) {
    let (mut engine, rings) = Engine::connect();
    engine.set_device_rate(RATE);
    (engine, Callback::new(rings, RATE, setup(SR)))
}

#[test]
fn callback_does_not_allocate() {
    let (mut engine, mut callback) = pair();
    let mut b = scratch(2);
    let mut buf = [0.0_f32; 512];
    let clip = Arc::new(AudioClip::new(44_100, vec![vec![s(0.1); 20_000], vec![s(-0.1); 20_000]]).unwrap());
    let _ = engine.clips.push(TrackedClip { track: 0, clip, placement: None });
    let mut published = Snapshot::silent();
    for i in 0..1000 {
        match i % 5 {
            0 => engine.play(),
            1 => engine.seek(s((i % 10) as f32 * 0.01)),
            2 => engine.set_track_gain_db(0, s(-(i % 24) as f32)),
            3 => engine.set_track_pan(1, s(((i % 200) as f32 / 100.0) - 1.0)),
            _ => engine.set_master_gain_db(s(-(i % 12) as f32)),
        }
        assert_no_alloc(|| {
            callback.service();
            let AudioRings { scope, .. } = &mut callback.rings;
            process(&mut callback.mixer, &mut buf, 2, scope, &mut b);
            published = callback.snapshot();
        });
    }
    assert!(published.playing);
    assert!(f(published.master_peak_l) > 0.0);
    engine.collect_garbage();
}

#[test]
fn requests_reach_the_mixer_in_order() {
    let (mut engine, mut callback) = pair();
    engine.load_clip(1, const_clip(0.5, 1_000));
    engine.play();
    engine.set_looping(true);
    engine.set_track_gain_linear(1, s(0.5));
    engine.set_track_eq_band_kind(1, 2, 3);
    engine.set_track_eq_band_kind(1, 1, 256 + 3);
    engine.set_track_eq_band_freq(1, 2, s(440.0));
    engine.set_track_eq_band_q(1, 2, s(2.0));
    engine.set_track_eq_band_gain_db(1, 2, s(3.0));
    engine.set_track_eq_band_enabled(1, 3, false);
    engine.set_master_gain_linear(s(0.25));
    engine.set_master_pan(s(-0.5));
    callback.service();
    let strip = &callback.mixer.strips[1];
    assert!(strip.player.clip.is_some());
    assert!(!strip.player.playing, "the clip arrives after the commands, and stopped");
    assert!(strip.player.looping);
    assert_eq!(strip.chain.gain.gain.target(), s(0.5));
    let band = &strip.chain.eq.bands[2];
    assert_eq!(band.kind, FilterKind::Lowpass);
    assert_eq!(strip.chain.eq.bands[1].kind, FilterKind::Peak);
    assert_eq!((band.freq.target(), band.q.target(), band.gain_db.target()), (s(440.0), s(2.0), s(3.0)));
    assert!(!strip.chain.eq.bands[3].enabled);
    assert_eq!(callback.mixer.master.gain.gain.target(), s(0.25));
    assert_eq!(callback.mixer.master.pan.pos.target(), s(-0.5));
    engine.play();
    callback.service();
    assert!(callback.snapshot().playing);
    engine.pause();
    engine.stop_playback();
    callback.service();
    assert!(!callback.snapshot().playing);
}

#[test]
fn displaced_clips_come_back_to_be_freed() {
    let (mut engine, mut callback) = pair();
    let first = const_clip(0.1, 10);
    let second = const_clip(0.2, 10);
    engine.load_clip(0, first.clone());
    callback.service();
    assert_eq!(Arc::strong_count(&first), 2);
    engine.load_clip(0, second.clone());
    callback.service();
    assert_eq!(Arc::strong_count(&first), 2, "still in the retirement ring");
    engine.collect_garbage();
    assert_eq!(Arc::strong_count(&first), 1);
    engine.clear_track(0);
    callback.service();
    assert!(callback.mixer.strips[0].player.clip.is_none());
    engine.collect_garbage();
    assert_eq!(Arc::strong_count(&second), 1);
}

#[test]
fn clearing_a_track_retires_every_clip_on_it() {
    let (mut engine, mut callback) = pair();
    let clip = const_clip(0.1, 10);
    engine.load_clip(4, clip.clone());
    for slot in [0, 7, 63] {
        let at = Placement { slot, start_frame: 5, length_frames: 10, source_offset_frames: 0 };
        engine.place_clip(4, clip.clone(), at);
    }
    engine.set_track_pan(4, s(1.0));
    callback.service();
    assert_eq!(Arc::strong_count(&clip), 5);
    assert_eq!(callback.mixer.strips[4].timeline.active_count(), 3);
    engine.remove_clip(4, 7);
    callback.service();
    engine.collect_garbage();
    assert_eq!(Arc::strong_count(&clip), 4);
    engine.move_clip(4, 0, 77);
    engine.resize_clip(4, 0, 3);
    engine.set_clip_source_offset(4, 0, 2);
    callback.service();
    let tc = callback.mixer.strips[4].timeline.slot(0).unwrap();
    assert_eq!((tc.start_frame, tc.length_frames, tc.source_offset_frames), (77, 3, 2));
    engine.clear_track(4);
    callback.service();
    engine.collect_garbage();
    assert_eq!(Arc::strong_count(&clip), 1);
    assert_eq!(callback.mixer.strips[4].timeline.active_count(), 0);
    assert_eq!(callback.mixer.strips[4].chain.pan.pos.target(), s(0.0));
}

#[test]
fn a_clip_for_nobody_is_sent_back() {
    let (mut engine, mut callback) = pair();
    let clip = const_clip(0.1, 10);
    engine.load_clip(200, clip.clone());
    let at = Placement { slot: 64, start_frame: 0, length_frames: 1, source_offset_frames: 0 };
    engine.place_clip(0, clip.clone(), at);
    let mut odd = AudioClip::new(RATE, vec![vec![s(0.0); 4]]).unwrap();
    odd.frames = 9;
    let odd = Arc::new(odd);
    engine.load_clip(0, odd.clone());
    callback.service();
    assert!(callback.mixer.strips[0].player.clip.is_none());
    engine.collect_garbage();
    assert_eq!(Arc::strong_count(&clip), 1);
    assert_eq!(Arc::strong_count(&odd), 1);
}

#[test]
fn a_full_retirement_ring_leaks_rather_than_frees() {
    let (mut engine, mut callback) = pair();
    let clip = const_clip(0.1, 10);
    for _ in 0..40 {
        for _ in 0..15 {
            let _ = engine.clips.push(TrackedClip { track: 0, clip: clip.clone(), placement: None });
        }
        callback.service();
    }
    // Six hundred were handed over: one is held, as many as fit wait to be freed, the rest leaked.
    engine.collect_garbage();
    assert_eq!(Arc::strong_count(&clip), 1 + 600 - RETIRE_RING_CAPACITY);
}

#[test]
fn a_full_command_ring_loses_requests_until_it_is_emptied() {
    let (mut engine, mut callback) = pair();
    for _ in 0..CAPACITY {
        engine.pause();
    }
    engine.set_looping(true);
    callback.service();
    assert!(!callback.mixer.strips[0].player.looping, "the last request found no room");
    engine.set_looping(true);
    callback.service();
    assert!(callback.mixer.strips[0].player.looping);
}

#[test]
fn clearing_a_full_track_leaks_nothing() {
    let (mut engine, mut callback) = pair();
    let clip = const_clip(0.1, 10);
    engine.load_clip(2, clip.clone());
    callback.service();
    for slot in 0..MAX_CLIPS_PER_TRACK as u8 {
        let at = Placement { slot, start_frame: 0, length_frames: 10, source_offset_frames: 0 };
        engine.place_clip(2, clip.clone(), at);
        callback.service();
    }
    assert_eq!(Arc::strong_count(&clip), 1 + 1 + MAX_CLIPS_PER_TRACK);
    engine.clear_track(2);
    callback.service();
    engine.collect_garbage();
    assert_eq!(Arc::strong_count(&clip), 1);
}

#[test]
fn a_track_that_does_not_exist_is_left_alone() {
    let (mut engine, mut callback) = pair();
    let before = callback.mixer.strips[0].chain.gain.gain.target();
    daw_engine::api::set_track_gain_db(&mut engine, 256, s(-6.0));
    daw_engine::api::set_track_eq_band_freq(&mut engine, 0, 256, s(50.0));
    let freq = callback.mixer.strips[0].chain.eq.bands[0].freq.target();
    callback.service();
    assert_eq!(callback.mixer.strips[0].chain.gain.gain.target(), before);
    assert_eq!(callback.mixer.strips[0].chain.eq.bands[0].freq.target(), freq);
}

#[test]
fn the_mixer_plays_where_there_is_a_clip() {
    let mut mixer = new_mixer();
    mixer.handle(Command::Play);
    assert!(!mixer.is_playing());
    assert!(mixer.rolling);
    assert!(mixer.set_clip(3, const_clip(0.1, 10)).is_none());
    mixer.handle(Command::Play);
    assert!(mixer.is_playing());
}

#[test]
fn seeking_the_timeline_is_exact_and_saturates() {
    let mut mixer = new_mixer();
    mixer.handle(Command::Seek(s(f32::from_bits(0x37AEC33F))));
    assert_eq!(mixer.playhead, 1);
    mixer.handle(Command::Seek(s(1.5)));
    assert_eq!(mixer.playhead, 72_000);
    mixer.handle(Command::Seek(s(f32::INFINITY)));
    assert_eq!(mixer.playhead, i64::MAX);
    mixer.handle(Command::Seek(s(f32::NAN)));
    assert_eq!(mixer.playhead, 0);
}

#[test]
fn a_broken_frame_at_the_end_of_a_buffer_is_left_alone() {
    let (mut scope_tx, mut reader) = scope_channel();
    let mut mixer = new_mixer();
    let mut b = scratch(2);
    let mut data = [7.0_f32; 3];
    process(&mut mixer, &mut data, 2, &mut scope_tx, &mut b);
    assert_eq!(data, [0.0, 0.0, 7.0]);
    assert_eq!(reader.frame(), vec![s(0.0)]);
    assert_eq!(MixWalk::new(1, 2).next(&mut mixer), MixAction::Done);
}

#[test]
fn a_filter_at_a_very_low_rate_is_held_below_half_of_it() {
    let inputs = BiquadCoeffs::inputs(s(2.0), s(0.99), s(1_000.0), s(1.0), s(0.0)).unwrap();
    assert_eq!(f(inputs.freq_hz), 0.99);
    let c = coeffs(FilterKind::Lowpass, 2.0, 1_000.0, 1.0, 0.0);
    assert!([c.b0, c.b1, c.b2, c.a1, c.a2].iter().all(|&x| f(x).is_finite()));
}

#[test]
fn positions_in_seconds() {
    let (mut engine, _callback) = pair();
    let mut published = Snapshot::silent();
    published.playhead = 44_100;
    published.timeline = 24_000;
    let p = engine.playhead_secs(&published);
    assert_eq!((p.num, p.den), (0, 1));
    published.playhead_rate = 44_100;
    let p = engine.playhead_secs(&published);
    assert_eq!((p.num, p.den), (44_100, 44_100));
    let t = engine.timeline_secs(&published);
    assert_eq!((t.num, t.den), (24_000, 48_000));
    assert_eq!(engine.sample_rate(), RATE);
    engine.set_device_rate(0);
    let t = engine.timeline_secs(&published);
    assert_eq!((t.num, t.den), (0, 1));
}

#[test]
fn a_sought_time_reads_back() {
    let (mut engine, mut callback) = pair();
    let clip = Arc::new(AudioClip::new(44_100, vec![vec![s(0.1); 88_200]]).unwrap());
    engine.load_clip(0, clip);
    callback.service();
    engine.seek(s(1.0));
    callback.service();
    let published = callback.snapshot();
    assert_eq!((published.playhead, published.playhead_rate), (44_100, 44_100));
    assert_eq!((published.timeline, published.rolling), (48_000, false));
    let p = engine.playhead_secs(&published);
    assert_eq!(p.num as f64 / p.den as f64, 1.0);
}

#[test]
fn the_scope_sees_what_was_put_out() {
    let (mut engine, mut callback) = pair();
    let mut frame = [s(0.0); 2];
    for i in 0..3 {
        let AudioRings { scope, .. } = &mut callback.rings;
        callback.mixer.emit_frame(s(0.0), s(0.0), s(i as f32), s(0.0), s(0.0), &mut frame, scope);
    }
    assert_eq!(engine.scope_frame(), vec![s(0.0), s(1.0), s(2.0)]);
}

#[test]
fn levels_of_tracks_that_do_not_exist_are_silent() {
    let mut published = Snapshot::silent();
    published.track_peaks_l[7] = s(0.5);
    published.master_peak_r = s(0.25);
    assert_eq!(published.track_peak_levels(7), (s(0.5), s(0.0)));
    assert_eq!(published.track_peak_levels(8), (s(0.0), s(0.0)));
    assert_eq!(published.master_peak_levels(), (s(0.0), s(0.25)));
}

// Across calls.

#[test]
fn output_does_not_depend_on_buffer_sizes() {
    let make = || {
        let mut mixer = new_mixer();
        let ramp: Vec<Single> = (0..4_000).map(|i| s((i % 97) as f32 / 97.0 - 0.5)).collect();
        let clip = Arc::new(AudioClip::new(44_100, vec![ramp]).unwrap());
        mixer.set_clip(0, clip.clone());
        let at = Placement { slot: 0, start_frame: 700, length_frames: 1_000, source_offset_frames: 13 };
        mixer.place_clip(5, clip, at);
        mixer.handle(Command::SetLooping(true));
        mixer.handle(Command::Play);
        mixer
    };
    let (mut scope_tx, _r) = scope_channel();
    let mut b = scratch(2);
    let mut whole = vec![0.0_f32; 6_000];
    process(&mut make(), &mut whole, 2, &mut scope_tx, &mut b);
    let mut pieces = vec![0.0_f32; 6_000];
    let mut mixer = make();
    for (from, to) in [(0, 2), (2, 1_402), (1_402, 1_404), (1_404, 6_000)] {
        process(&mut mixer, &mut pieces[from..to], 2, &mut scope_tx, &mut b);
    }
    let bits = |v: &[f32]| v.iter().map(|x| x.to_bits()).collect::<Vec<u32>>();
    assert_eq!(bits(&whole), bits(&pieces));
    assert!(whole.iter().any(|&x| x != 0.0));
}

#[test]
fn transport_reaches_every_track_alike() {
    let mut mixer = new_mixer();
    for t in 0..MAX_TRACKS as u8 {
        let rate = 10_000 * (t as u32 + 1);
        let clip = AudioClip::new(rate, vec![vec![s(0.1); 200_000]]).unwrap();
        mixer.set_clip(t, Arc::new(clip));
    }
    mixer.handle(Command::Play);
    let mut taps = vec![Tap::Silence; 4_096];
    let mut spans = Vec::new();
    for _ in 0..3 {
        for t in 0..MAX_TRACKS {
            mixer.plan_track(t, &mut taps, &mut spans);
        }
    }
    // Every track has come equally far in time, whatever the rate of its clip.
    let first = mixer.strips[0].player.pos;
    for t in 0..MAX_TRACKS {
        assert_eq!(mixer.strips[t].player.pos, first * (t as u128 + 1));
    }
    mixer.handle(Command::Seek(s(1.0)));
    for t in 0..MAX_TRACKS {
        assert_eq!(mixer.strips[t].pos_frames(), 10_000 * (t as i64 + 1));
    }
    mixer.handle(Command::Stop);
    for strip in &mixer.strips {
        assert_eq!((strip.pos_frames(), strip.is_playing()), (0, false));
    }
}

#[test]
fn a_command_touches_its_own_track_only() {
    let mut mixer = new_mixer();
    let before: Vec<_> = mixer.strips.iter().map(|x| x.chain.eq.bands).collect();
    mixer.handle(Command::SetTrackEqBandKind(3, 1, 6));
    mixer.handle(Command::SetTrackEqBandFreq(3, 9, s(1.0)));
    for t in 0..MAX_TRACKS {
        assert_eq!(mixer.strips[t].chain.eq.bands == before[t], t != 3);
    }
    assert!(mixer.master.eq.bands == before[0]);
}

#[test]
fn placing_a_clip_does_not_stop_playback() {
    let (mut engine, mut callback) = pair();
    engine.load_clip(0, const_clip(0.1, 10_000));
    callback.service();
    engine.play();
    callback.service();
    let mut taps = vec![Tap::Silence; 100];
    let mut spans = Vec::new();
    callback.mixer.plan_track(0, &mut taps, &mut spans);
    let at = Placement { slot: 0, start_frame: 5, length_frames: 10, source_offset_frames: 0 };
    engine.place_clip(0, const_clip(0.2, 50), at);
    callback.service();
    assert!(callback.mixer.is_playing());
    assert_eq!(callback.mixer.pos_frames(), 100);
    engine.load_clip(1, const_clip(0.2, 50));
    callback.service();
    assert!(!callback.mixer.is_playing());
    assert_eq!(callback.mixer.pos_frames(), 0);
}

#[test]
fn commands_in_pieces_are_commands_at_once() {
    let cmds = [
        Command::SetTrackPan(1, s(0.5)),
        Command::SetTrackGainDb(1, s(-3.0)),
        Command::ClearTrack(1),
        Command::SetTrackGainLinear(1, s(0.75)),
        Command::SetMasterPan(s(-1.0)),
    ];
    let (_engine, mut at_once) = pair();
    for cmd in cmds {
        at_once.apply_command(cmd);
    }
    let (mut engine, mut in_pieces) = pair();
    for cmd in cmds {
        assert!(engine.commands.push(cmd).is_ok());
        if cmd == cmds[1] {
            in_pieces.service();
        }
    }
    in_pieces.service();
    for callback in [&at_once, &in_pieces] {
        let strip = &callback.mixer.strips[1];
        assert_eq!(strip.chain.pan.pos.target(), s(0.0), "cleared after the pan was set");
        assert_eq!(strip.chain.gain.gain.target(), s(0.75));
        assert_eq!(strip.chain.gain.pending_db, None);
        assert_eq!(callback.mixer.master.pan.pos.target(), s(-1.0));
    }
}

#[test]
fn every_band_that_is_on_hears_every_frame_once() {
    let mut eq = new_eq();
    eq.set_band_enabled(2, false);
    eq.set_band_freq(0, s(300.0));
    let frames = 53;
    let mut heard = vec![[[0; 4]; 2]; frames];
    let mut walk = EqWalk::new(frames, 2);
    loop {
        match walk.next(&eq) {
            EqAction::Advance { band } => assert_eq!(band, 0),
            EqAction::Filter { ch, band, from, to } => {
                for row in &mut heard[from..to] {
                    row[ch][band] += 1;
                }
            }
            EqAction::Done => break,
        }
    }
    assert!(heard.iter().all(|row| row.iter().all(|bands| *bands == [1, 1, 0, 1])));
}
