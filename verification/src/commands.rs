//! [`Command`]: what the control thread asks of the audio thread.

use rtrb::{Consumer, Producer};
use vstd::prelude::*;
use crate::rings::new_command_ring;
use crate::single::Single;

verus! {

/// A request to the audio thread. Small and plain, so that it crosses a ring as a copy; clips,
/// which are large, have a ring of their own.
///
/// A leading `u8` is the index of a track, a second one of a clip slot or an equalizer band. An
/// index that is out of range makes a command do nothing.
#[derive(Clone, Copy, Debug, PartialEq, Eq, Structural)]
pub enum Command {
    /// Start or resume every track.
    Play,
    /// Hold every track where it is.
    Pause,
    /// Stop every track and rewind it.
    Stop,
    /// Move every track to a time in seconds, held to the length of its clip.
    Seek(Single),
    /// Whether tracks start over at their end.
    SetLooping(bool),
    /// Take the clips off a track and set its strip back to the state it was built in.
    ClearTrack(u8),
    /// Take one clip off the timeline of a track.
    RemoveClip(u8, u8),
    /// Move a clip on the timeline, to a start in device frames.
    MoveClip(u8, u8, i64),
    /// Change the length of a clip on the timeline, in device frames.
    ResizeClip(u8, u8, u32),
    /// Change where in its source a clip on the timeline begins, in source frames.
    SetClipSourceOffset(u8, u8, u32),
    /// Move the fader of a track, in decibels.
    SetTrackGainDb(u8, Single),
    /// Move the fader of a track, as a multiplier.
    SetTrackGainLinear(u8, Single),
    /// Move a track in the stereo field.
    SetTrackPan(u8, Single),
    /// Choose the filter of an equalizer band, by its code.
    SetTrackEqBandKind(u8, u8, u8),
    /// Move an equalizer band, in Hz.
    SetTrackEqBandFreq(u8, u8, Single),
    /// Change the bandwidth of an equalizer band.
    SetTrackEqBandQ(u8, u8, Single),
    /// Change the boost or cut of an equalizer band, in decibels.
    SetTrackEqBandGainDb(u8, u8, Single),
    /// Switch an equalizer band on or off.
    SetTrackEqBandEnabled(u8, u8, bool),
    /// Move the master fader, in decibels.
    SetMasterGainDb(Single),
    /// Move the master fader, as a multiplier.
    SetMasterGainLinear(Single),
    /// Move the master bus in the stereo field.
    SetMasterPan(Single),
}

/// The number of commands that can be under way.
pub const CAPACITY: usize = 256;

/// A ring for commands: the end of the control thread and the end of the audio thread.
pub fn command_channel() -> (r: (Producer<Command>, Consumer<Command>))
    ensures
        crate::rings::commands_sent(r.0) == Seq::<Command>::empty(),
        crate::rings::commands_room(r.0) == CAPACITY,
        crate::rings::commands_taken(r.1) == Seq::<Command>::empty(),
        crate::rings::commands_linked(r.0, r.1),
{
    new_command_ring(CAPACITY)
}

} // verus!
