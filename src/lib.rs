//! A fixed-point polyphonic synthesizer engine: wavetable oscillators with
//! frequency-modulation routing, ADSR amplifiers driven by note events, a
//! master mixer, and the control messages that edit all of them.
//!
//! Units used throughout: a sample or an amplitude is a Q16 fixed-point value
//! (`wave::ONE` stands for 1.0), a time is a count of microseconds, a
//! frequency is a count of milli-hertz, and a gain is given in whole decibels.
pub mod amp;
pub mod engine;
pub mod filter;
pub mod message;
pub mod midi;
pub mod mixer;
pub mod osc;
pub mod scope;
pub mod tuning;
pub mod wave;
