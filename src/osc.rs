//! The oscillator: a phase accumulator reading a waveform table, with pitch
//! tracking, detune, frequency-modulation inputs and an output target.
use crate::amp::Amplifier;
use crate::amp::Envelope;
use crate::tuning::cents_mhz;
use crate::tuning::cents_to_mhz;
use crate::tuning::db_amp;
use crate::tuning::MAX_CENTS;
use crate::tuning::MAX_PITCH;
use crate::wave::lemma_scale_bounds;
use crate::wave::scale;
use crate::wave::scale_by;
use crate::wave::wave_value;
use crate::wave::WaveTables;
use crate::wave::Waveform;
use crate::wave::MAX_SAMPLE;
use crate::wave::ONE;
use crate::wave::TABLE_LENGTH;
use vstd::arithmetic::div_mod::lemma_add_mod_noop_right;
use vstd::arithmetic::div_mod::lemma_mod_multiples_vanish;
use vstd::prelude::*;

verus! {

/// The number of oscillators in the bank, and of FM input slots on each.
pub const NUM_OSCS: usize = 4;

/// Phase units per table step.
pub const PHASE_ONE: u64 = 65536;

/// Phase units per cycle: `TABLE_LENGTH * PHASE_ONE`.
pub const PHASE_WRAP: u64 = 67108864;

/// The highest frequency an oscillator can be set to, in milli-hertz.
pub const MAX_FREQ: u64 = 24000000;

/// The widest coarse detune, in semitones either way.
pub const MAX_COARSE: i32 = 48;

/// The widest fine detune, in cents either way.
pub const MAX_FINE: i32 = 100;

/// The widest pitch bend, in cents either way.
pub const MAX_BEND: i32 = 200;

/// The frequency an oscillator starts at, in milli-hertz (440 Hz).
pub const DEFAULT_FREQ: u64 = 440000;

/// The FM depth an oscillator starts with, in hertz.
pub const DEFAULT_FM_RANGE: u16 = 100;

/// Whether an oscillator's frequency follows MIDI notes (and its output its
/// amplifier's envelope) or stays at the frequency the operator set.
#[derive(Clone, Copy, Debug, PartialEq, Eq, Structural)]
pub enum Mode {
    Constant,
    MIDI,
}

/// Where an oscillator's output goes: into the mix, or into the FM input of
/// another oscillator of the bank.
#[derive(Clone, Copy, Debug, PartialEq, Eq, Structural)]
pub enum OutputMode {
    Master,
    Osc(usize),
}

/// An oscillator, as the contracts see it.
pub struct OscView {
    pub amp: Amplifier,
    pub bypass: bool,
    /// Coarse detune, in semitones.
    pub coarse: int,
    /// Fine detune, in cents.
    pub fine: int,
    /// Pitch bend, in cents.
    pub bend: int,
    /// For each oscillator of the bank, whether it feeds this one, and the
    /// last sample it delivered.
    pub fm_slots: Seq<Option<i32>>,
    /// FM depth, in hertz.
    pub fm_range: int,
    /// In milli-hertz.
    pub frequency: int,
    /// Held MIDI pitches, most recent first.
    pub notes: Seq<u8>,
    pub mode: Mode,
    pub output: OutputMode,
    pub phase: int,
    pub waveform: Waveform,
}

/// The pitch in cents that MIDI pitch `p` plays at under the given detune and
/// bend, held to the range that has a frequency.
pub open spec fn tuned_cents(p: int, coarse: int, fine: int, bend: int) -> int {
    let c = 100 * p + 100 * coarse + fine + bend;
    if c < 0 {
        0
    } else if c > MAX_CENTS {
        MAX_CENTS as int
    } else {
        c
    }
}

/// The frequency, in milli-hertz, that `v` plays MIDI pitch `p` at.
pub open spec fn tuned(v: OscView, p: int) -> int {
    cents_mhz(tuned_cents(p, v.coarse, v.fine, v.bend))
}

/// The frequency offset, in milli-hertz, that the first `n` FM slots add:
/// each delivered sample times half the FM depth (`range * 1000 / 2`).
pub open spec fn fm_offset(slots: Seq<Option<i32>>, range: int, n: nat) -> int
    decreases n,
{
    if n == 0 {
        0
    } else {
        fm_offset(slots, range, (n - 1) as nat) + match slots[n - 1] {
            Some(s) => scale(s as int, range * 500),
            None => 0,
        }
    }
}

/// The phase advance for one sample at frequency `f` (milli-hertz, possibly
/// negative under FM) and sample rate `sample_rate`, rounded toward zero.
pub open spec fn phase_step(f: int, sample_rate: int) -> int {
    if f >= 0 {
        f * PHASE_WRAP / (1000 * sample_rate)
    } else {
        -((-f) * PHASE_WRAP / (1000 * sample_rate))
    }
}

/// The phase after one sample: noise moves one table step, a periodic
/// waveform moves by its modulated frequency; both wrap at the cycle.
pub open spec fn next_phase(v: OscView, sample_rate: int) -> int {
    if v.waveform == Waveform::Noise {
        (v.phase + PHASE_ONE) % (PHASE_WRAP as int)
    } else {
        (v.phase + phase_step(
            v.frequency + fm_offset(v.fm_slots, v.fm_range, v.fm_slots.len()),
            sample_rate,
        )) % (PHASE_WRAP as int)
    }
}

/// A raw sample `base` as `v` outputs it at `now`: through the amplifier in
/// MIDI mode, unshaped in constant mode.
pub open spec fn shape(v: OscView, base: int, now: int) -> int {
    if v.mode == Mode::MIDI {
        v.amp.output(base, now)
    } else {
        base
    }
}

/// `v` held to `[-limit, limit]`.
pub open spec fn clamp(v: int, limit: int) -> int {
    if v < -limit {
        -limit
    } else if v > limit {
        limit
    } else {
        v
    }
}

/// `v` with its frequency set from the front of its note stack, if any.
pub open spec fn retuned(v: OscView) -> OscView {
    OscView {
        frequency: if v.notes.len() > 0 {
            tuned(v, v.notes[0] as int)
        } else {
            v.frequency
        },
        ..v
    }
}

/// `new` is what a note-on of `pitch` at `now` leaves of `old`: the phase
/// restarts when no note was held, a new pitch goes to the front of the note
/// stack and sets the frequency, and the amplifier sees the note.
pub open spec fn osc_after_note_on(old: OscView, new: OscView, pitch: u8, now: u64) -> bool {
    &&& old.amp.after_note_on(new.amp, pitch, now)
    &&& new == (OscView {
        amp: new.amp,
        phase: if old.notes.len() == 0 {
            0
        } else {
            old.phase
        },
        notes: if old.notes.contains(pitch) {
            old.notes
        } else {
            seq![pitch] + old.notes
        },
        frequency: if old.notes.contains(pitch) {
            old.frequency
        } else {
            tuned(old, pitch as int)
        },
        ..old
    })
}

/// `new` is what a note-off of `pitch` at `now` leaves of `old`: the first
/// occurrence of the pitch leaves the note stack, the frequency follows the
/// new front if notes remain, and the amplifier sees the note-off.
pub open spec fn osc_after_note_off(old: OscView, new: OscView, pitch: u8, now: u64) -> bool {
    &&& old.amp.after_note_off(new.amp, pitch, now)
    &&& !old.notes.contains(pitch) ==> new.notes == old.notes
    &&& old.notes.contains(pitch) ==> exists|i: int|
        0 <= i < old.notes.len() && old.notes[i] == pitch && (forall|j: int|
            0 <= j < i ==> old.notes[j] != pitch) && new.notes == #[trigger] old.notes.remove(i)
    &&& new == (OscView {
        amp: new.amp,
        notes: new.notes,
        frequency: if new.notes.len() > 0 {
            tuned(old, new.notes[0] as int)
        } else {
            old.frequency
        },
        ..old
    })
}

/// `new` is what computing one sample at `now` and `sample_rate` leaves of
/// `old`, and `r` is the sample. A bypassed oscillator returns silence and
/// keeps its state. Otherwise the sample is the table value at the current
/// phase (a fresh draw for noise), through the amplifier in MIDI mode; the
/// phase advances by the frequency plus the delivered FM samples; in MIDI
/// mode the amplifier steps; nothing else changes.
pub open spec fn osc_stepped(old: OscView, new: OscView, r: int, sample_rate: int, now: int) -> bool {
    &&& -MAX_SAMPLE <= r <= MAX_SAMPLE
    &&& if old.bypass {
        r == 0 && new == old
    } else {
        &&& old.waveform != Waveform::Noise ==> r == shape(
            old,
            wave_value(old.waveform, old.phase / PHASE_ONE as int),
            now,
        )
        &&& old.waveform == Waveform::Noise ==> exists|b: int| -ONE <= b < ONE && r == #[trigger] shape(old, b, now)
        &&& new.phase == next_phase(old, sample_rate)
        &&& old.mode == Mode::MIDI ==> old.amp.after_calc(new.amp, now)
        &&& old.mode == Mode::Constant ==> new.amp == old.amp
        &&& new == (OscView { phase: new.phase, amp: new.amp, ..old })
    }
}

/// An oscillator as `Oscillator::new` makes it: bypassed, a sine at 440 Hz in
/// constant mode routed to the mix, phase 0, no note, no detune or bend, no
/// FM input, the default FM depth, and a fresh amplifier on the default
/// envelope.
pub open spec fn is_fresh_osc(o: OscView) -> bool {
    &&& o.amp.is_fresh(Envelope::default_spec())
    &&& o.bypass
    &&& o.coarse == 0 && o.fine == 0 && o.bend == 0
    &&& o.fm_slots == Seq::new(NUM_OSCS as nat, |i: int| None::<i32>)
    &&& o.fm_range == DEFAULT_FM_RANGE
    &&& o.frequency == DEFAULT_FREQ
    &&& o.notes.len() == 0
    &&& o.mode == Mode::Constant
    &&& o.output == OutputMode::Master
    &&& o.phase == 0
    &&& o.waveform == Waveform::Sine
}

pub struct Oscillator {
    amp: Amplifier,
    bypass: bool,
    coarse: i32,
    fine: i32,
    bend: i32,
    fm_in: Vec<Option<i32>>,
    fm_range: u16,
    frequency: u64,
    midi_notes: Vec<u8>,
    mode: Mode,
    output: OutputMode,
    phase: u64,
    waveform: Waveform,
}

impl View for Oscillator {
    type V = OscView;

    closed spec fn view(&self) -> OscView {
        OscView {
            amp: self.amp,
            bypass: self.bypass,
            coarse: self.coarse as int,
            fine: self.fine as int,
            bend: self.bend as int,
            fm_slots: self.fm_in@,
            fm_range: self.fm_range as int,
            frequency: self.frequency as int,
            notes: self.midi_notes@,
            mode: self.mode,
            output: self.output,
            phase: self.phase as int,
            waveform: self.waveform,
        }
    }
}

/// The view's bounds that every oscillator keeps.
pub open spec fn osc_wf(v: OscView) -> bool {
    &&& v.amp.wf()
    &&& v.fm_slots.len() == NUM_OSCS
    &&& 0 <= v.frequency <= MAX_FREQ
    &&& 0 <= v.phase < PHASE_WRAP
    &&& -MAX_COARSE <= v.coarse <= MAX_COARSE
    &&& -MAX_FINE <= v.fine <= MAX_FINE
    &&& -MAX_BEND <= v.bend <= MAX_BEND
    &&& 0 <= v.fm_range < 0x10000
    &&& forall|i: int| 0 <= i < v.notes.len() ==> v.notes[i] <= MAX_PITCH
}

/// One sample's phase advance, wrapped.
fn advance_phase(phase: u64, f: i64, sample_rate: u32) -> (r: u64)
    requires
        phase < PHASE_WRAP,
        -0x8000_0000_0000 < f < 0x8000_0000_0000,
        sample_rate > 0,
    ensures
        r == (phase + phase_step(f as int, sample_rate as int)) % (PHASE_WRAP as int),
{
    let den: u128 = 1000 * (sample_rate as u128);
    if f >= 0 {
        assert((f as int) * (PHASE_WRAP as int) <= 0x8000_0000_0000 * 67108864) by (nonlinear_arith)
            requires
                0 <= f < 0x8000_0000_0000,
        ;
        let step: u128 = (f as u128) * (PHASE_WRAP as u128) / den;
        let m: u64 = (step % (PHASE_WRAP as u128)) as u64;
        proof {
            lemma_add_mod_noop_right(phase as int, step as int, PHASE_WRAP as int);
        }
        (phase + m) % PHASE_WRAP
    } else {
        assert(((-f) as int) * (PHASE_WRAP as int) <= 0x8000_0000_0000 * 67108864) by (nonlinear_arith)
            requires
                0 < -f < 0x8000_0000_0000,
        ;
        let step: u128 = ((-f) as u128) * (PHASE_WRAP as u128) / den;
        let m: u64 = (step % (PHASE_WRAP as u128)) as u64;
        proof {
            let w = PHASE_WRAP as int;
            let q = (step as int) / w;
            vstd::arithmetic::div_mod::lemma_fundamental_div_mod(step as int, w);
            assert(phase + w - m == w * (q + 1) + (phase - step)) by (nonlinear_arith)
                requires
                    step == w * q + m,
            ;
            lemma_mod_multiples_vanish(q + 1, phase - step, w);
        }
        (phase + PHASE_WRAP - m) % PHASE_WRAP
    }
}

impl Oscillator {
    pub closed spec fn wf(&self) -> bool {
        osc_wf(self@)
    }

    /// A well-formed oscillator's view keeps the bounds of `osc_wf`.
    pub proof fn lemma_view(&self)
        requires
            self.wf(),
        ensures
            osc_wf(self@),
    {
    }

    proof fn lemma_wf(&self)
        requires
            self.wf(),
        ensures
            self.amp.wf(),
            self.fm_in@.len() == NUM_OSCS,
            self.frequency <= MAX_FREQ,
            self.phase < PHASE_WRAP,
            -MAX_COARSE <= self.coarse <= MAX_COARSE,
            -MAX_FINE <= self.fine <= MAX_FINE,
            -MAX_BEND <= self.bend <= MAX_BEND,
            forall|i: int| 0 <= i < self.midi_notes@.len() ==> self.midi_notes@[i] <= MAX_PITCH,
    {
        assert forall|i: int| 0 <= i < self.midi_notes@.len() implies self.midi_notes@[i] <= MAX_PITCH by {
            assert(self@.notes[i] <= MAX_PITCH);
        }
    }

    /// A bypassed sine oscillator at 440 Hz in constant mode, routed to the
    /// mix, with no FM input and the default amplifier.
    pub fn new() -> (o: Oscillator)
        ensures
            o.wf(),
            is_fresh_osc(o@),
    {
        let mut fm_in: Vec<Option<i32>> = Vec::new();
        let mut i: usize = 0;
        while i < NUM_OSCS
            invariant
                i <= NUM_OSCS,
                fm_in@ == Seq::new(i as nat, |k: int| None::<i32>),
            decreases NUM_OSCS - i,
        {
            fm_in.push(None);
            i = i + 1;
            assert(fm_in@ =~= Seq::new(i as nat, |k: int| None::<i32>));
        }
        Oscillator {
            amp: Amplifier::default(),
            bypass: true,
            coarse: 0,
            fine: 0,
            bend: 0,
            fm_in,
            fm_range: DEFAULT_FM_RANGE,
            frequency: DEFAULT_FREQ,
            midi_notes: Vec::new(),
            mode: Mode::Constant,
            output: OutputMode::Master,
            phase: 0,
            waveform: Waveform::Sine,
        }
    }

    /// The frequency offset that the registered FM inputs add.
    fn fm_offset_now(&self) -> (r: i64)
        requires
            self.wf(),
        ensures
            r == fm_offset(self.fm_in@, self.fm_range as int, NUM_OSCS as nat),
            -4 * 0x100_0000_0000 <= r <= 4 * 0x100_0000_0000,
    {
        let half: u32 = self.fm_range as u32 * 500;
        let mut offset: i64 = 0;
        let mut i: usize = 0;
        while i < NUM_OSCS
            invariant
                self.wf(),
                i <= NUM_OSCS,
                half == self.fm_range as int * 500,
                offset == fm_offset(self.fm_in@, self.fm_range as int, i as nat),
                -(i * 0x100_0000_0000) <= offset <= i * 0x100_0000_0000,
            decreases NUM_OSCS - i,
        {
            match self.fm_in[i] {
                Some(s) => {
                    let d = scale_by(s as i64, half);
                    proof {
                        lemma_scale_bounds(s as int, half as int);
                        if s >= 0 {
                            assert((s as int) * half / 65536 <= 0x100_0000_0000) by (nonlinear_arith)
                                requires
                                    0 <= s <= 0x8000_0000,
                                    0 <= half <= 32767500,
                            ;
                        } else {
                            assert((-s as int) * half / 65536 <= 0x100_0000_0000) by (nonlinear_arith)
                                requires
                                    0 < -s <= 0x8000_0000,
                                    0 <= half <= 32767500,
                            ;
                        }
                    }
                    offset = offset + d;
                },
                None => {},
            }
            i = i + 1;
        }
        offset
    }

    /// Computes the next sample and advances the phase. A bypassed oscillator
    /// returns silence and keeps its phase. Otherwise the sample is read from
    /// the table at the current phase (noise draws a fresh one), the phase
    /// advances by the frequency plus what the FM inputs delivered, and in
    /// MIDI mode the sample goes through the amplifier.
    pub fn calc(&mut self, tables: &WaveTables, sample_rate: u32, now: u64) -> (r: i32)
        requires
            old(self).wf(),
            tables.wf(),
            sample_rate > 0,
        ensures
            final(self).wf(),
            osc_stepped(old(self)@, final(self)@, r as int, sample_rate as int, now as int),
    {
        if self.bypass {
            return 0;
        }
        proof {
            self.lemma_wf();
        }
        let ghost before = self@;
        let index: usize = (self.phase / PHASE_ONE) as usize;
        let base = self.waveform.get_sample(tables, index);
        if self.waveform == Waveform::Noise {
            self.phase = (self.phase + PHASE_ONE) % PHASE_WRAP;
        } else {
            let offset = self.fm_offset_now();
            let f: i64 = self.frequency as i64 + offset;
            self.phase = advance_phase(self.phase, f, sample_rate);
        }
        let r = if self.mode == Mode::MIDI {
            self.amp.calc(base, now)
        } else {
            base
        };
        proof {
            if before.waveform == Waveform::Noise {
                assert(-ONE <= base < ONE && r == shape(before, base as int, now as int));
            }
            assert(self@ == (OscView { phase: self@.phase, amp: self@.amp, ..before }));
        }
        r
    }

    /// The pitch mode.
    pub fn get_mode(&self) -> (r: Mode)
        ensures
            r == self@.mode,
    {
        self.mode
    }

    /// The output target.
    pub fn get_output_mode(&self) -> (r: OutputMode)
        ensures
            r == self@.output,
    {
        self.output
    }

    /// Whether the oscillator is bypassed.
    pub fn is_bypassed(&self) -> (r: bool)
        ensures
            r == self@.bypass,
    {
        self.bypass
    }

    /// Whether oscillator `source` is registered as an FM input.
    pub fn has_fm_in(&self, source: usize) -> (r: bool)
        requires
            self.wf(),
            source < NUM_OSCS,
        ensures
            r == self@.fm_slots[source as int] is Some,
    {
        proof {
            self.lemma_wf();
        }
        self.fm_in[source].is_some()
    }

    /// The frequency, in milli-hertz.
    pub fn get_freq(&self) -> (r: u64)
        ensures
            r == self@.frequency,
    {
        self.frequency
    }

    /// The frequency for MIDI pitch `pitch` under the current detune and bend.
    fn tuned_freq(&self, pitch: u8) -> (r: u64)
        requires
            self.wf(),
            pitch <= MAX_PITCH,
        ensures
            r == tuned(self@, pitch as int),
            r <= MAX_FREQ,
    {
        proof {
            self.lemma_wf();
        }
        let c: i32 = 100 * (pitch as i32) + 100 * self.coarse + self.fine + self.bend;
        let cents: u32 = if c < 0 {
            0
        } else if c > MAX_CENTS as i32 {
            MAX_CENTS
        } else {
            c as u32
        };
        let f = cents_to_mhz(cents);
        proof {
            crate::tuning::lemma_cents_mhz_bounds(cents as int);
        }
        f
    }

    /// A MIDI note-on of `pitch` at `now`. The phase restarts at the top of
    /// the cycle when no note was held; a new pitch goes to the front of the
    /// note stack and sets the frequency; the amplifier sees the note too.
    pub fn note_on(&mut self, pitch: u8, now: u64)
        requires
            old(self).wf(),
            pitch <= MAX_PITCH,
        ensures
            final(self).wf(),
            osc_after_note_on(old(self)@, final(self)@, pitch, now),
    {
        let ghost before = self@;
        if self.midi_notes.len() == 0 {
            self.phase = 0;
        }
        if !contains(&self.midi_notes, pitch) {
            self.frequency = self.tuned_freq(pitch);
            self.midi_notes.insert(0, pitch);
            assert(self.midi_notes@ =~= seq![pitch] + before.notes);
        }
        self.amp.note_on(pitch, now);
        proof {
            assert forall|i: int| 0 <= i < self.midi_notes@.len() implies self.midi_notes@[i] <= MAX_PITCH by {
                if self.midi_notes@ != before.notes && i > 0 {
                    assert(self.midi_notes@[i] == before.notes[i - 1]);
                }
            }
        }
    }

    /// A MIDI note-off of `pitch` at `now`. The first occurrence of the pitch
    /// leaves the note stack; if notes remain, the frequency follows the one
    /// now in front. The amplifier sees the note-off too.
    pub fn note_off(&mut self, pitch: u8, now: u64)
        requires
            old(self).wf(),
        ensures
            final(self).wf(),
            osc_after_note_off(old(self)@, final(self)@, pitch, now),
    {
        let ghost before = self@;
        let mut i: usize = 0;
        while i < self.midi_notes.len()
            invariant
                i <= self.midi_notes@.len(),
                self.midi_notes@ == before.notes,
                forall|j: int| 0 <= j < i ==> self.midi_notes@[j] != pitch,
            ensures
                i <= self.midi_notes@.len(),
                self.midi_notes@ == before.notes,
                forall|j: int| 0 <= j < i ==> self.midi_notes@[j] != pitch,
                i < self.midi_notes@.len() ==> self.midi_notes@[i as int] == pitch,
            decreases self.midi_notes@.len() - i,
        {
            if self.midi_notes[i] == pitch {
                break;
            }
            i = i + 1;
        }
        if i < self.midi_notes.len() {
            self.midi_notes.remove(i);
            assert(before.notes.contains(pitch) ==> self.midi_notes@ == before.notes.remove(i as int));
        } else {
            assert(!before.notes.contains(pitch));
        }
        proof {
            assert forall|k: int| 0 <= k < self.midi_notes@.len() implies self.midi_notes@[k] <= MAX_PITCH by {
                if self.midi_notes@ != before.notes {
                    if k < i {
                        assert(self.midi_notes@[k] == before.notes[k]);
                    } else {
                        assert(self.midi_notes@[k] == before.notes[k + 1]);
                    }
                }
            }
        }
        if self.midi_notes.len() > 0 {
            let front = self.midi_notes[0];
            self.frequency = self.tuned_freq(front);
        }
        self.amp.note_off(pitch, now);
    }

    /// Retunes to the front of the note stack, if any.
    fn retune(&mut self)
        requires
            old(self).wf(),
        ensures
            final(self).wf(),
            final(self)@ == retuned(old(self)@),
    {
        if self.midi_notes.len() > 0 {
            let front = self.midi_notes[0];
            self.frequency = self.tuned_freq(front);
        }
    }

    /// Sets the coarse detune in semitones (held to `MAX_COARSE` either way)
    /// and retunes a held note.
    pub fn detune_coarse(&mut self, coarse: i32)
        requires
            old(self).wf(),
        ensures
            final(self).wf(),
            final(self)@ == retuned(OscView { coarse: clamp(coarse as int, MAX_COARSE as int), ..old(self)@ }),
    {
        self.coarse = if coarse < -MAX_COARSE {
            -MAX_COARSE
        } else if coarse > MAX_COARSE {
            MAX_COARSE
        } else {
            coarse
        };
        self.retune();
    }

    /// Sets the fine detune in cents (held to `MAX_FINE` either way) and
    /// retunes a held note.
    pub fn detune_fine(&mut self, fine: i32)
        requires
            old(self).wf(),
        ensures
            final(self).wf(),
            final(self)@ == retuned(OscView { fine: clamp(fine as int, MAX_FINE as int), ..old(self)@ }),
    {
        self.fine = if fine < -MAX_FINE {
            -MAX_FINE
        } else if fine > MAX_FINE {
            MAX_FINE
        } else {
            fine
        };
        self.retune();
    }

    /// Applies a MIDI pitch bend, given as the two 7-bit halves of a 14-bit
    /// value centred at 8192, over `MAX_BEND` cents either way, and retunes a
    /// held note.
    pub fn pitch_bend(&mut self, lsb: u8, msb: u8)
        requires
            old(self).wf(),
        ensures
            final(self).wf(),
            final(self)@ == retuned(OscView { bend: bend_cents(lsb as int, msb as int), ..old(self)@ }),
    {
        let value: i32 = (msb % 128) as i32 * 128 + (lsb % 128) as i32;
        let offset: i32 = value - 8192;
        self.bend = if offset >= 0 {
            offset * MAX_BEND / 8192
        } else {
            -((-offset) * MAX_BEND / 8192)
        };
        self.retune();
    }

    /// Sets the FM depth, in hertz.
    pub fn set_fm_range(&mut self, range: u16)
        requires
            old(self).wf(),
        ensures
            final(self).wf(),
            final(self)@ == (OscView { fm_range: range as int, ..old(self)@ }),
    {
        self.fm_range = range;
    }

    /// Sets the frequency in milli-hertz, held to at most `MAX_FREQ`.
    pub fn set_freq(&mut self, freq: u64)
        requires
            old(self).wf(),
        ensures
            final(self).wf(),
            final(self)@ == (OscView {
                frequency: if freq > MAX_FREQ {
                    MAX_FREQ as int
                } else {
                    freq as int
                },
                ..old(self)@
            }),
    {
        self.frequency = if freq > MAX_FREQ {
            MAX_FREQ
        } else {
            freq
        };
    }

    /// Sets the pitch mode.
    pub fn set_mode(&mut self, mode: Mode)
        requires
            old(self).wf(),
        ensures
            final(self).wf(),
            final(self)@ == (OscView { mode: mode, ..old(self)@ }),
    {
        self.mode = mode;
    }

    /// Sets the waveform.
    pub fn set_waveform(&mut self, waveform: Waveform)
        requires
            old(self).wf(),
        ensures
            final(self).wf(),
            final(self)@ == (OscView { waveform: waveform, ..old(self)@ }),
    {
        self.waveform = waveform;
    }

    /// Turns bypass on or off.
    pub fn set_bypass(&mut self, bypass: bool)
        requires
            old(self).wf(),
        ensures
            final(self).wf(),
            final(self)@ == (OscView { bypass: bypass, ..old(self)@ }),
    {
        self.bypass = bypass;
    }

    /// Sets the amplifier's gain from a value in dB.
    pub fn set_gain(&mut self, gain_db: i32)
        requires
            old(self).wf(),
        ensures
            final(self).wf(),
            old(self)@.amp.after_set_gain(final(self)@.amp, db_amp(gain_db as int)),
            final(self)@ == (OscView { amp: final(self)@.amp, ..old(self)@ }),
    {
        self.amp.set_gain(gain_db);
    }

    /// Sets the output target. Keeping the targets' FM inputs consistent is
    /// the bank's part.
    pub fn set_output(&mut self, output: OutputMode)
        requires
            old(self).wf(),
        ensures
            final(self).wf(),
            final(self)@ == (OscView { output: output, ..old(self)@ }),
    {
        self.output = output;
    }

    /// Registers oscillator `source` as an FM input, with no sample delivered yet.
    pub fn add_fm_in(&mut self, source: usize)
        requires
            old(self).wf(),
            source < NUM_OSCS,
        ensures
            final(self).wf(),
            final(self)@ == (OscView { fm_slots: old(self)@.fm_slots.update(source as int, Some(0i32)), ..old(self)@ }),
    {
        self.fm_in.set(source, Some(0));
    }

    /// Unregisters oscillator `source` as an FM input.
    pub fn remove_fm_in(&mut self, source: usize)
        requires
            old(self).wf(),
            source < NUM_OSCS,
        ensures
            final(self).wf(),
            final(self)@ == (OscView { fm_slots: old(self)@.fm_slots.update(source as int, None), ..old(self)@ }),
    {
        self.fm_in.set(source, None);
    }

    /// Delivers `sample` from oscillator `source`, if it is a registered FM input.
    pub fn fm_sample_in(&mut self, source: usize, sample: i32)
        requires
            old(self).wf(),
            source < NUM_OSCS,
        ensures
            final(self).wf(),
            final(self)@ == (OscView {
                fm_slots: if old(self)@.fm_slots[source as int] is Some {
                    old(self)@.fm_slots.update(source as int, Some(sample))
                } else {
                    old(self)@.fm_slots
                },
                ..old(self)@
            }),
    {
        if self.fm_in[source].is_some() {
            self.fm_in.set(source, Some(sample));
        }
    }
}

/// The bend, in cents, of a 14-bit pitch-bend value given as two 7-bit halves.
pub open spec fn bend_cents(lsb: int, msb: int) -> int {
    let offset = (msb % 128) * 128 + (lsb % 128) - 8192;
    if offset >= 0 {
        offset * MAX_BEND / 8192
    } else {
        -((-offset) * MAX_BEND / 8192)
    }
}

/// Whether `v` holds `x`.
fn contains(v: &Vec<u8>, x: u8) -> (r: bool)
    ensures
        r == v@.contains(x),
{
    let mut i: usize = 0;
    while i < v.len()
        invariant
            i <= v@.len(),
            forall|j: int| 0 <= j < i ==> v@[j] != x,
        decreases v@.len() - i,
    {
        if v[i] == x {
            return true;
        }
        i = i + 1;
    }
    false
}

} // verus!
