# daw_engine

The engine of a digital audio workstation: clips, their place on a timeline, channel strips with
equalizer, fader and pan, a mixer, and the lock-free rings between the control thread and the audio
thread.

`src/` is a Verus library. It holds the state of the engine and the decisions that it takes, with
contracts that say exactly what each of them does, and with the laws that hold across them: rendering
does not depend on how the device cuts its buffers, clips sound exactly where they are placed, commands
reach the track they are meant for and no other, in the order in which they were sent, and no clip is
ever freed on the audio thread: a clip that is displaced goes back to the control thread, or is leaked
should the ring that takes it there be full. Positions are exact fractions, so nothing drifts.

Sample arithmetic is not part of the library. Numbers travel through it as the bits of an IEEE single;
it compares and clamps them, and says what is to be computed with them and what becomes of the result.
`app/` does the computing, and what else the library leaves out: the output device, files, threads and
the bridge to a user interface.

The rings are those of the `rtrb` crate, and audio files are read with `symphonia`. What the library
relies on of them is written down in `src/rings.rs` and `src/media.rs`; which files `symphonia` can be
handed, in `src/riff.rs`.
