//! The processing units of a channel: a four-band equalizer, a fader and a pan control.
//!
//! Each unit owns its state and decides what happens to it. The caller computes the sample
//! arithmetic between two states and hands the results back.

pub mod biquad;
pub mod smooth;
pub mod gain;
pub mod pan;
pub mod cuts;
pub mod eq;
pub mod chain;

pub use biquad::FilterKind;
pub use chain::Chain;
pub use gain::Gain;
pub use pan::Pan;
pub use smooth::SmoothedParam;
