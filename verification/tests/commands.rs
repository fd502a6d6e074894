use daw_engine::commands::{command_channel, Command, CAPACITY};
use daw_engine::single::Single;

fn s(x: f32) -> Single {
    Single { bits: x.to_bits() }
}

#[test]
fn messages_arrive_in_order_and_none_is_lost() {
    let (mut tx, mut rx) = command_channel();
    const N: usize = 200;
    let make = |i: usize| match i % 5 {
        0 => Command::Play,
        1 => Command::Pause,
        2 => Command::Stop,
        3 => Command::SetTrackGainDb((i % 8) as u8, s(i as f32 * -0.5)),
        _ => Command::SetMasterPan(s(((i % 200) as f32 / 100.0) - 1.0)),
    };
    let mut received = Vec::with_capacity(N);
    let mut sent = 0;
    while received.len() < N {
        for _ in 0..7 {
            if sent < N && tx.push(make(sent)).is_ok() {
                sent += 1;
            }
        }
        while let Ok(cmd) = rx.pop() {
            received.push(cmd);
        }
    }
    let expected: Vec<Command> = (0..N).map(make).collect();
    assert_eq!(received, expected, "messages lost or reordered");
}

#[test]
fn pop_on_empty_is_an_error_not_a_block() {
    let (_tx, mut rx) = command_channel();
    assert!(rx.pop().is_err());
}

#[test]
fn the_ring_is_full_after_its_capacity() {
    let (mut tx, mut rx) = command_channel();
    for _ in 0..CAPACITY {
        assert!(tx.push(Command::Play).is_ok());
    }
    assert!(tx.push(Command::Stop).is_err());
    assert_eq!(rx.pop().unwrap(), Command::Play);
    assert!(tx.push(Command::Stop).is_ok());
}
