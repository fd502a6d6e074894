use assert_no_alloc::assert_no_alloc;
use daw_engine::scope::{scope_channel, HISTORY, SCOPE_CAPACITY, SCOPE_WINDOW};
use daw_engine::single::Single;

fn s(x: f32) -> Single {
    Single { bits: x.to_bits() }
}

fn f(x: Single) -> f32 {
    f32::from_bits(x.bits)
}

#[test]
fn pushing_to_the_tap_does_not_allocate() {
    let (mut tx, _reader) = scope_channel();
    assert_no_alloc(|| {
        for i in 0..512 {
            let _ = tx.push(s((i as f32 / 512.0) * 2.0 - 1.0));
        }
    });
}

#[test]
fn pushing_past_capacity_drops_instead_of_panicking() {
    let (mut tx, mut reader) = scope_channel();
    let mut sent = 0;
    for i in 0..(SCOPE_CAPACITY * 2) {
        if tx.push(s(i as f32)).is_ok() {
            sent += 1;
        }
    }
    assert_eq!(sent, SCOPE_CAPACITY);
    let _ = reader.frame();
    assert_eq!(f(*reader.history.last().unwrap()), (SCOPE_CAPACITY - 1) as f32);
}

#[test]
fn frame_is_aligned_to_a_rising_zero_crossing() {
    let (mut tx, mut reader) = scope_channel();
    let n = SCOPE_WINDOW * 2;
    let cycles = 8.0_f32;
    for i in 0..n {
        let phase = (i as f32 / n as f32) * cycles * std::f32::consts::TAU;
        let _ = tx.push(s(phase.sin()));
    }
    let frame = reader.frame();
    assert_eq!(frame.len(), SCOPE_WINDOW);
    assert!(
        f(frame[0]).abs() < 0.05,
        "frame should start near a zero crossing, got {}",
        f(frame[0])
    );
    assert!(f(frame[1]) > f(frame[0]), "frame should start on the rising edge");
}

#[test]
fn warmup_returns_what_is_available() {
    let (mut tx, mut reader) = scope_channel();
    for i in 0..100 {
        let _ = tx.push(s(i as f32));
    }
    let frame = reader.frame();
    assert_eq!(frame.len(), 100, "before a full window, return what we have");
    assert_eq!(f(frame[99]), 99.0);
}

#[test]
fn a_signal_that_never_rises_shows_its_newest_window() {
    let (mut tx, mut reader) = scope_channel();
    for i in 0..2000 {
        let _ = tx.push(s(1.0 + i as f32));
    }
    let frame = reader.frame();
    assert_eq!(frame.len(), SCOPE_WINDOW);
    assert_eq!(f(frame[0]), 1.0 + (2000 - SCOPE_WINDOW) as f32);
    assert_eq!(f(frame[SCOPE_WINDOW - 1]), 2000.0);
}

#[test]
fn the_latest_of_several_rises_is_taken() {
    let (mut tx, mut reader) = scope_channel();
    for i in 0..2000 {
        let _ = tx.push(s(if i % 100 < 50 { -1.0 } else { i as f32 }));
    }
    // The newest window starts at 976; the last rise before it is from 949 to 950.
    let frame = reader.frame();
    assert_eq!(f(frame[0]), -1.0);
    assert_eq!(f(frame[1]), 950.0);
}

#[test]
fn history_stays_bounded() {
    let (mut tx, mut reader) = scope_channel();
    for round in 0..5 {
        for i in 0..2000 {
            let _ = tx.push(s((round * 2000 + i) as f32));
        }
        let _ = reader.frame();
        assert!(reader.history.len() <= HISTORY);
    }
    assert_eq!(reader.history.len(), HISTORY);
    assert_eq!(f(reader.history[0]), (10_000 - HISTORY) as f32);
    assert_eq!(f(reader.history[HISTORY - 1]), 9_999.0);
}

#[test]
fn the_newest_start_is_searched_too() {
    let (mut tx, mut reader) = scope_channel();
    for i in 0..SCOPE_WINDOW + 2 {
        let _ = tx.push(s(if i == 1 || i >= 3 { 1.0 } else { -1.0 }));
    }
    let frame = reader.frame();
    assert_eq!(frame.len(), SCOPE_WINDOW);
    assert_eq!((f(frame[0]), f(frame[1]), f(frame[2])), (-1.0, 1.0, 1.0));
}
