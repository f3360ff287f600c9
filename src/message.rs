//! The control messages that the user interface and the MIDI input send to
//! the engine.
use crate::mixer::SynthMode;
use crate::osc::Mode;
use crate::osc::OutputMode;
use crate::wave::Waveform;
use vstd::prelude::*;

verus! {

/// A control-plane edit. Most are aimed at one oscillator, named by its index
/// in the bank. Times are in microseconds, frequencies in milli-hertz, gains
/// in dB, the sustain level in Q16.
#[derive(Clone, Copy, Debug, PartialEq, Eq, Structural)]
pub enum Message {
    /// Sets the attack of the master envelope.
    Attack(u64),
    /// Sets whether an oscillator is bypassed.
    Bypass { oscillator: usize, bypass: bool },
    /// Sets an oscillator's coarse detune, in semitones.
    Coarse { oscillator: usize, coarse: i32 },
    /// Sets the decay of the master envelope.
    Decay(u64),
    /// Sets an oscillator's fine detune, in cents.
    Fine { oscillator: usize, fine: i32 },
    /// Sets an oscillator's FM depth, in hertz.
    FmRange { oscillator: usize, range: u16 },
    /// Sets an oscillator's frequency.
    Freq { oscillator: usize, freq: u64 },
    /// Sets the gain of an oscillator's amplifier.
    Gain { oscillator: usize, gain: i32 },
    /// Sets the master gain.
    Master(i32),
    /// Sets the mixer's mode.
    MixerMode(SynthMode),
    /// A MIDI note-on. The velocity is carried but does not shape the level.
    NoteOn { pitch: u8, velocity: u8 },
    /// A MIDI note-off.
    NoteOff { pitch: u8 },
    /// Sets where an oscillator's output goes.
    Output { oscillator: usize, mode: OutputMode },
    /// A MIDI pitch bend, as the two 7-bit halves of a 14-bit value.
    PitchBend { lsb: u8, msb: u8 },
    /// Sets an oscillator's pitch mode.
    PitchMode { oscillator: usize, mode: Mode },
    /// Sets the release of the master envelope.
    Release(u64),
    /// Asks the MIDI input to connect again.
    ResetMIDI,
    /// Sets the sustain level of the master envelope.
    Sustain(u32),
    /// Asks every task to shut down.
    Quit,
    /// Sets an oscillator's waveform.
    Waveform { oscillator: usize, waveform: Waveform },
}

} // verus!
