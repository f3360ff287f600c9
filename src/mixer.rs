//! The master mixer: a master gain and, in MIDI mode, a master envelope.
use crate::amp::Amplifier;
use crate::amp::Envelope;
use crate::tuning::db_amp;
use crate::tuning::db_to_amp;
use crate::wave::lemma_scale_bounds;
use crate::wave::scale;
use crate::wave::scale_by;
use crate::wave::ONE;
use vstd::prelude::*;

verus! {

/// Whether the mix follows the master envelope (MIDI) or sounds constantly.
#[derive(Clone, Copy, Debug, PartialEq, Eq, Structural)]
pub enum SynthMode {
    Constant,
    MIDI,
}

/// A mixer, as the contracts see it.
pub struct MixerView {
    pub amp: Amplifier,
    /// Master gain, Q16.
    pub gain: int,
    pub mode: SynthMode,
}

/// What the mixer outputs for the mixed sample `s` at `now`: through the
/// master envelope in MIDI mode, then times the master gain.
pub open spec fn mix_output(v: MixerView, s: int, now: int) -> int {
    if v.mode == SynthMode::MIDI {
        scale(v.amp.output(s, now), v.gain)
    } else {
        scale(s, v.gain)
    }
}

/// Manages the overall volume and the master envelope of the synthesizer.
pub struct Mixer {
    /// The overall Q16 gain factor, at most 1.0.
    master_gain: u32,
    /// Follows note events through the master envelope.
    amp: Amplifier,
    mode: SynthMode,
}

impl View for Mixer {
    type V = MixerView;

    closed spec fn view(&self) -> MixerView {
        MixerView { amp: self.amp, gain: self.master_gain as int, mode: self.mode }
    }
}

impl Mixer {
    pub closed spec fn wf(&self) -> bool {
        &&& self.amp.wf()
        &&& self.master_gain <= ONE
    }

    /// A mixer in MIDI mode with unity master gain and the default envelope.
    pub fn new() -> (m: Mixer)
        ensures
            m.wf(),
            m@.gain == ONE,
            m@.mode == SynthMode::MIDI,
            m@.amp.is_fresh(Envelope::default_spec()),
    {
        Mixer { master_gain: ONE as u32, amp: Amplifier::default(), mode: SynthMode::MIDI }
    }

    /// Shapes the mixed sample `sample_in` at `now`: through the master
    /// envelope in MIDI mode, then by the master gain.
    pub fn calc(&mut self, sample_in: i32, now: u64) -> (r: i32)
        requires
            old(self).wf(),
        ensures
            final(self).wf(),
            r == mix_output(old(self)@, sample_in as int, now as int),
            sample_in >= 0 ==> 0 <= r <= sample_in,
            sample_in < 0 ==> sample_in <= r <= 0,
            old(self)@.mode == SynthMode::MIDI ==> old(self)@.amp.after_calc(final(self)@.amp, now as int),
            old(self)@.mode == SynthMode::Constant ==> final(self)@.amp == old(self)@.amp,
            final(self)@.gain == old(self)@.gain,
            final(self)@.mode == old(self)@.mode,
    {
        let shaped = if self.mode == SynthMode::MIDI {
            self.amp.calc(sample_in, now)
        } else {
            sample_in
        };
        proof {
            lemma_scale_bounds(shaped as int, self.master_gain as int);
        }
        scale_by(shaped as i64, self.master_gain) as i32
    }

    /// Sets the master gain from a value in dB (held to `[MIN_DB, MAX_DB]`).
    pub fn set_gain(&mut self, gain_db: i32)
        requires
            old(self).wf(),
        ensures
            final(self).wf(),
            final(self)@ == (MixerView { gain: db_amp(gain_db as int), ..old(self)@ }),
    {
        self.master_gain = db_to_amp(gain_db);
    }

    /// Sets the mode.
    pub fn set_mode(&mut self, mode: SynthMode)
        requires
            old(self).wf(),
        ensures
            final(self).wf(),
            final(self)@ == (MixerView { mode: mode, ..old(self)@ }),
    {
        self.mode = mode;
    }

    /// A note-on for the master envelope.
    pub fn note_on(&mut self, pitch: u8, now: u64)
        requires
            old(self).wf(),
        ensures
            final(self).wf(),
            old(self)@.amp.after_note_on(final(self)@.amp, pitch, now),
            final(self)@ == (MixerView { amp: final(self)@.amp, ..old(self)@ }),
    {
        self.amp.note_on(pitch, now);
    }

    /// A note-off for the master envelope.
    pub fn note_off(&mut self, pitch: u8, now: u64)
        requires
            old(self).wf(),
        ensures
            final(self).wf(),
            old(self)@.amp.after_note_off(final(self)@.amp, pitch, now),
            final(self)@ == (MixerView { amp: final(self)@.amp, ..old(self)@ }),
    {
        self.amp.note_off(pitch, now);
    }

    /// The master envelope.
    pub fn adsr(&self) -> (r: Envelope)
        requires
            self.wf(),
        ensures
            r == self@.amp.envelope(),
            r.wf(),
    {
        self.amp.adsr()
    }

    /// Replaces the master envelope.
    pub fn set_adsr(&mut self, adsr: Envelope)
        requires
            old(self).wf(),
            adsr.wf(),
        ensures
            final(self).wf(),
            old(self)@.amp.after_set_envelope(final(self)@.amp, adsr),
            final(self)@ == (MixerView { amp: final(self)@.amp, ..old(self)@ }),
    {
        self.amp.set_adsr(adsr);
    }
}

} // verus!
