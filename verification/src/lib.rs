//! A realtime audio engine: clips, their place on a timeline, channel strips, a mixer, and the
//! lock-free rings that join the control thread to the audio thread.
//!
//! The library holds the state of the engine and every decision that it takes. It does no sample
//! arithmetic: where a result depends on it, the library says what is to be computed, and fixes what
//! becomes of the result. Samples and parameters travel as [`single::Single`], the bits of an IEEE
//! single.
//!
//! - [`single`]: numbers by their bits, compared, clamped and classified exactly
//! - [`clip`]: decoded audio; [`riff`], [`media`] and [`decode`]: how it comes about
//! - [`player`] and [`sampler`]: where clips are read, in a track and on the timeline
//! - [`dsp`]: equalizer, fader and pan
//! - [`strip`] and [`mixer`]: tracks, and all of them together
//! - [`commands`], [`rings`] and [`audio`]: the two threads and what passes between them
//! - [`custody`]: that no clip gets lost on the way
//! - [`scope`]: the oscilloscope tap
//! - [`project`] and [`api`]: what is saved, and what a user interface sees

pub mod api;
pub mod audio;
pub mod clip;
pub mod commands;
pub mod custody;
pub mod decode;
pub mod dsp;
pub mod media;
pub mod mixer;
pub mod player;
pub mod project;
pub mod riff;
pub mod rings;
pub mod sampler;
pub mod scope;
pub mod single;
pub mod strip;
