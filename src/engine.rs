//! The engine: the oscillator bank with its FM routing, the mixer, and the
//! per-sample render that ties them together.
use crate::amp::Envelope;
use crate::message::Message;
use crate::mixer::mix_output;
use crate::mixer::Mixer;
use crate::mixer::MixerView;
use crate::mixer::SynthMode;
use crate::osc::osc_after_note_off;
use crate::osc::osc_after_note_on;
use crate::osc::bend_cents;
use crate::osc::clamp;
use crate::osc::retuned;
use crate::osc::is_fresh_osc;
use crate::osc::osc_stepped;
use crate::osc::shape;
use crate::osc::PHASE_ONE;
use crate::osc::Mode;
use crate::osc::OscView;
use crate::osc::Oscillator;
use crate::osc::OutputMode;
use crate::osc::MAX_COARSE;
use crate::osc::MAX_FINE;
use crate::osc::MAX_FREQ;
use crate::osc::NUM_OSCS;
use crate::scope::display_value;
use crate::scope::Scope;
use crate::tuning::db_amp;
use crate::tuning::MAX_PITCH;
use crate::wave::init_tables;
use crate::wave::lemma_scale_bounds;
use crate::wave::scale;
use crate::wave::scale_by;
use crate::wave::wave_value;
use crate::wave::Waveform;
use crate::wave::WaveTables;
use crate::wave::MAX_SAMPLE;
use crate::wave::ONE;
use vstd::prelude::*;

verus! {

/// The share of the summed oscillators that reaches the mixer (a quarter),
/// in Q16, leaving headroom for all of them at full level.
pub const HEADROOM: u32 = 16384;

/// How many recent output samples the display window holds.
pub const SCOPE_LEN: usize = 256;

/// The output target of each oscillator.
pub open spec fn routing(oscs: Seq<OscView>) -> Seq<OutputMode> {
    Seq::new(oscs.len(), |i: int| oscs[i].output)
}

/// The oscillators that route into oscillator `j`.
pub open spec fn inputs_of(r: Seq<OutputMode>, j: int) -> Set<int> {
    Set::new(|k: int| 0 <= k < r.len() && r[k] == OutputMode::Osc(j as usize))
}

/// Each oscillator routes to the mix or to another oscillator of the bank
/// that itself routes to the mix: modulation is one level deep, so it has no
/// cycles.
pub open spec fn one_level(r: Seq<OutputMode>) -> bool {
    forall|i: int|
        0 <= i < r.len() ==> match #[trigger] r[i] {
            OutputMode::Osc(j) => j < r.len() && j != i && r[j as int] == OutputMode::Master,
            OutputMode::Master => true,
        }
}

/// Whether routing oscillator `i` to `t` keeps the routing one level deep:
/// the mix is always allowed; another oscillator is allowed when it routes to
/// the mix and nothing routes into `i`.
pub open spec fn route_allowed(r: Seq<OutputMode>, i: int, t: OutputMode) -> bool {
    &&& 0 <= i < r.len()
    &&& match t {
        OutputMode::Master => true,
        OutputMode::Osc(j) => {
            &&& j < r.len()
            &&& j != i
            &&& r[j as int] == OutputMode::Master
            &&& forall|k: int| 0 <= k < r.len() ==> r[k] != OutputMode::Osc(i as usize)
        },
    }
}

/// The routing after a request to route oscillator `i` to `t`: changed when
/// allowed, kept otherwise.
pub open spec fn route(r: Seq<OutputMode>, i: int, t: OutputMode) -> Seq<OutputMode> {
    if route_allowed(r, i, t) {
        r.update(i, t)
    } else {
        r
    }
}

/// The FM input slots agree with the routing: oscillator `j` has a slot for
/// `i` exactly when `i` routes into `j`.
pub open spec fn slots_match(oscs: Seq<OscView>) -> bool {
    forall|i: int, j: int|
        0 <= i < oscs.len() && 0 <= j < oscs.len() ==> (#[trigger] oscs[j].fm_slots[i] is Some
            <==> oscs[i].output == OutputMode::Osc(j as usize))
}

/// The time, in microseconds, after `samples` samples at `sample_rate`,
/// capped at the largest `u64`.
pub open spec fn time_of(samples: int, sample_rate: int) -> int {
    let t = samples * 1000000 / sample_rate;
    if t > u64::MAX {
        u64::MAX as int
    } else {
        t
    }
}

/// Whether `msg` edits one setting of one oscillator, with no effect elsewhere.
pub open spec fn is_osc_edit(msg: Message) -> bool {
    match msg {
        Message::Bypass { .. } => true,
        Message::Coarse { .. } => true,
        Message::Fine { .. } => true,
        Message::FmRange { .. } => true,
        Message::Freq { .. } => true,
        Message::PitchMode { .. } => true,
        Message::Waveform { .. } => true,
        _ => false,
    }
}

/// The oscillator an oscillator edit aims at.
pub open spec fn edit_target(msg: Message) -> int {
    match msg {
        Message::Bypass { oscillator, .. } => oscillator as int,
        Message::Coarse { oscillator, .. } => oscillator as int,
        Message::Fine { oscillator, .. } => oscillator as int,
        Message::FmRange { oscillator, .. } => oscillator as int,
        Message::Freq { oscillator, .. } => oscillator as int,
        Message::PitchMode { oscillator, .. } => oscillator as int,
        Message::Waveform { oscillator, .. } => oscillator as int,
        _ => -1,
    }
}

/// Oscillator `o` after the oscillator edit `msg`. Out-of-range values are
/// held to their limits; a detune retunes a held note.
pub open spec fn edited(o: OscView, msg: Message) -> OscView {
    match msg {
        Message::Bypass { bypass, .. } => OscView { bypass: bypass, ..o },
        Message::Coarse { coarse, .. } => retuned(OscView { coarse: clamp(coarse as int, MAX_COARSE as int), ..o }),
        Message::Fine { fine, .. } => retuned(OscView { fine: clamp(fine as int, MAX_FINE as int), ..o }),
        Message::FmRange { range, .. } => OscView { fm_range: range as int, ..o },
        Message::Freq { freq, .. } => OscView {
            frequency: if freq > MAX_FREQ {
                MAX_FREQ as int
            } else {
                freq as int
            },
            ..o
        },
        Message::PitchMode { mode, .. } => OscView { mode: mode, ..o },
        Message::Waveform { waveform, .. } => OscView { waveform: waveform, ..o },
        _ => o,
    }
}

/// Whether `msg` edits the master envelope.
pub open spec fn is_envelope_edit(msg: Message) -> bool {
    match msg {
        Message::Attack(_) => true,
        Message::Decay(_) => true,
        Message::Release(_) => true,
        Message::Sustain(_) => true,
        _ => false,
    }
}

/// The envelope `env` after the envelope edit `msg`; a sustain above 1.0 is
/// held to 1.0.
pub open spec fn envelope_edit(env: Envelope, msg: Message) -> Envelope {
    match msg {
        Message::Attack(a) => Envelope { attack: a, ..env },
        Message::Decay(d) => Envelope { decay: d, ..env },
        Message::Release(r) => Envelope { release: r, ..env },
        Message::Sustain(s) => Envelope {
            sustain: if s > ONE {
                ONE as u32
            } else {
                s
            },
            ..env
        },
        _ => env,
    }
}

/// `w1` routes as `w0` does, with the same FM input slots.
pub open spec fn same_routing(w0: Seq<OscView>, w1: Seq<OscView>) -> bool {
    &&& w1.len() == w0.len()
    &&& forall|k: int| 0 <= k < w0.len() ==> (#[trigger] w1[k]).output == w0[k].output && w1[k].fm_slots == w0[k].fm_slots
}

proof fn lemma_same_routing(w0: Seq<OscView>, w1: Seq<OscView>)
    requires
        same_routing(w0, w1),
        one_level(routing(w0)),
        slots_match(w0),
    ensures
        routing(w1) == routing(w0),
        one_level(routing(w1)),
        slots_match(w1),
{
    assert(routing(w1) =~= routing(w0));
    assert forall|a: int, b: int| 0 <= a < w1.len() && 0 <= b < w1.len() implies (#[trigger] w1[b].fm_slots[a] is Some
        <==> w1[a].output == OutputMode::Osc(b as usize)) by {
        assert(w0[b].fm_slots[a] is Some <==> w0[a].output == OutputMode::Osc(b as usize));
        assert(w1[b].fm_slots == w0[b].fm_slots);
        assert(w1[a].output == w0[a].output);
    }
}

/// Every oscillator of `w1` is what a note-on of `pitch` at `now` leaves of
/// the same one of `w0` when in MIDI mode, and unchanged in constant mode.
pub open spec fn all_after_note_on(w0: Seq<OscView>, w1: Seq<OscView>, pitch: u8, now: u64) -> bool {
    &&& w1.len() == w0.len()
    &&& forall|k: int|
        0 <= k < w0.len() ==> if (#[trigger] w0[k]).mode == Mode::MIDI {
            osc_after_note_on(w0[k], w1[k], pitch, now)
        } else {
            w1[k] == w0[k]
        }
}

/// Every oscillator of `w1` is what a note-off of `pitch` at `now` leaves of
/// the same one of `w0` when in MIDI mode, and unchanged in constant mode.
pub open spec fn all_after_note_off(w0: Seq<OscView>, w1: Seq<OscView>, pitch: u8, now: u64) -> bool {
    &&& w1.len() == w0.len()
    &&& forall|k: int|
        0 <= k < w0.len() ==> if (#[trigger] w0[k]).mode == Mode::MIDI {
            osc_after_note_off(w0[k], w1[k], pitch, now)
        } else {
            w1[k] == w0[k]
        }
}

/// `b` is oscillator `a` after it has produced samples: only its phase, its
/// amplifier and the samples held in its FM slots may differ, and its slots
/// are registered as before.
pub open spec fn same_settings(a: OscView, b: OscView) -> bool {
    &&& b == (OscView { phase: b.phase, amp: b.amp, fm_slots: b.fm_slots, ..a })
    &&& b.fm_slots.len() == a.fm_slots.len()
    &&& forall|i: int| 0 <= i < a.fm_slots.len() ==> (#[trigger] b.fm_slots[i] is Some <==> a.fm_slots[i] is Some)
}

proof fn lemma_same_settings(w0: Seq<OscView>, w1: Seq<OscView>)
    requires
        w1.len() == w0.len() == NUM_OSCS,
        forall|k: int| 0 <= k < NUM_OSCS ==> same_settings(#[trigger] w0[k], w1[k]),
        forall|k: int| 0 <= k < NUM_OSCS ==> (#[trigger] w0[k]).fm_slots.len() == NUM_OSCS,
        one_level(routing(w0)),
        slots_match(w0),
    ensures
        routing(w1) == routing(w0),
        one_level(routing(w1)),
        slots_match(w1),
{
    assert forall|k: int| 0 <= k < NUM_OSCS implies (#[trigger] w1[k]).output == w0[k].output by {
        assert(same_settings(w0[k], w1[k]));
    }
    assert(routing(w1) =~= routing(w0));
    assert forall|a: int, b: int| 0 <= a < NUM_OSCS && 0 <= b < NUM_OSCS implies (#[trigger] w1[b].fm_slots[a] is Some
        <==> w1[a].output == OutputMode::Osc(b as usize)) by {
        assert(same_settings(w0[b], w1[b]));
        assert(w0[b].fm_slots[a] is Some <==> w0[a].output == OutputMode::Osc(b as usize));
    }
}

/// The sum of the first `n` values of `s`.
pub open spec fn sum_of(s: Seq<int>, n: nat) -> int
    decreases n,
{
    if n == 0 {
        0
    } else {
        sum_of(s, (n - 1) as nat) + s[n - 1]
    }
}

/// Oscillator `m` of `w` once the oscillators below `n` that route into it
/// have delivered their samples of this tick (`samples[k]` from source `k`)
/// into its FM slots.
pub open spec fn delivered_upto(w: Seq<OscView>, m: int, samples: Seq<i32>, n: int) -> OscView {
    OscView {
        fm_slots: Seq::new(
            w[m].fm_slots.len(),
            |k: int|
                if 0 <= k < n && k < w.len() && w[k].output == OutputMode::Osc(m as usize) {
                    Some(samples[k])
                } else {
                    w[m].fm_slots[k]
                },
        ),
        ..w[m]
    }
}

/// Oscillator `m` of `w` once every oscillator that routes into it has
/// delivered its sample of this tick.
pub open spec fn delivered(w: Seq<OscView>, m: int, samples: Seq<i32>) -> OscView {
    delivered_upto(w, m, samples, w.len() as int)
}

/// The samples of this tick that reach the mix: those of the oscillators
/// routed to it.
pub open spec fn mixed(w: Seq<OscView>, samples: Seq<i32>) -> Seq<int> {
    Seq::new(
        w.len(),
        |k: int|
            if w[k].output == OutputMode::Master {
                samples[k] as int
            } else {
                0
            },
    )
}

/// `b` is what rendering one sample leaves of `a`, and `r` is the sample.
/// Every oscillator computes one sample (`samples[k]`) at the current time:
/// an oscillator routed into another steps from its state as it was, and its
/// sample goes into its target's FM slot; an oscillator routed to the mix
/// steps from its state with those samples delivered. The mix of the latter
/// goes through the mixer and is then scaled by `HEADROOM`. Settings and
/// routing stay; the clock and the display move on.
pub open spec fn ticked(a: EngineView, b: EngineView, r: int) -> bool {
    &&& -MAX_SAMPLE <= r <= MAX_SAMPLE
    &&& b.sample_rate == a.sample_rate
    &&& b.samples == if a.samples < u64::MAX {
        a.samples + 1
    } else {
        a.samples
    }
    &&& b.oscs.len() == NUM_OSCS
    &&& routing(b.oscs) == routing(a.oscs)
    &&& forall|k: int| 0 <= k < NUM_OSCS ==> same_settings(#[trigger] a.oscs[k], b.oscs[k])
    &&& b.mixer.gain == a.mixer.gain
    &&& b.mixer.mode == a.mixer.mode
    &&& (a.mixer.mode == SynthMode::MIDI ==> a.mixer.amp.after_calc(b.mixer.amp, a.now()))
    &&& (a.mixer.mode == SynthMode::Constant ==> b.mixer.amp == a.mixer.amp)
    &&& b.scope == a.scope.drop_first().push(display_value(r) as u64)
    &&& exists|samples: Seq<i32>|
        {
            &&& samples.len() == NUM_OSCS
            &&& forall|k: int|
                0 <= k < NUM_OSCS ==> if a.oscs[k].output == OutputMode::Master {
                    osc_stepped(delivered(a.oscs, k, samples), #[trigger] b.oscs[k], samples[k] as int, a.sample_rate, a.now())
                } else {
                    osc_stepped(a.oscs[k], b.oscs[k], samples[k] as int, a.sample_rate, a.now())
                }
            &&& r == scale(
                mix_output(a.mixer, sum_of(mixed(a.oscs, samples), NUM_OSCS as nat), a.now()),
                HEADROOM as int,
            )
        }
}

/// An engine, as the contracts see it.
pub struct EngineView {
    pub oscs: Seq<OscView>,
    pub mixer: MixerView,
    pub sample_rate: int,
    /// Samples rendered so far.
    pub samples: int,
    /// The display window of recent output, oldest first.
    pub scope: Seq<u64>,
}

impl EngineView {
    /// The current time, in microseconds.
    pub open spec fn now(&self) -> int {
        time_of(self.samples, self.sample_rate)
    }
}

/// The synthesizer engine: a fixed bank of oscillators, addressed by index,
/// and the mixer, both changed only through control messages.
pub struct Engine {
    oscs: Vec<Oscillator>,
    mixer: Mixer,
    tables: WaveTables,
    sample_rate: u32,
    samples: u64,
    scope: Scope,
}

impl View for Engine {
    type V = EngineView;

    closed spec fn view(&self) -> EngineView {
        EngineView {
            oscs: Seq::new(self.oscs@.len(), |i: int| self.oscs@[i]@),
            mixer: self.mixer@,
            sample_rate: self.sample_rate as int,
            samples: self.samples as int,
            scope: self.scope@,
        }
    }
}

impl Engine {
    pub closed spec fn wf(&self) -> bool {
        &&& self.oscs@.len() == NUM_OSCS
        &&& forall|i: int| 0 <= i < NUM_OSCS ==> #[trigger] self.oscs@[i].wf()
        &&& self.mixer.wf()
        &&& self.tables.wf()
        &&& self.sample_rate > 0
        &&& self.scope.wf()
        &&& self.scope@.len() == SCOPE_LEN
        &&& one_level(routing(self@.oscs))
        &&& slots_match(self@.oscs)
    }

    /// In a well-formed engine the routing is one level deep, and the FM
    /// inputs registered on each oscillator are exactly the oscillators that
    /// route into it.
    pub proof fn lemma_inputs_follow_routing(&self)
        requires
            self.wf(),
        ensures
            self@.oscs.len() == NUM_OSCS,
            self@.sample_rate > 0,
            one_level(routing(self@.oscs)),
            forall|j: int|
                0 <= j < NUM_OSCS ==> Set::new(|k: int| 0 <= k < NUM_OSCS && self@.oscs[j].fm_slots[k] is Some)
                    == inputs_of(routing(self@.oscs), j),
    {
        assert forall|j: int| 0 <= j < NUM_OSCS implies Set::new(|k: int| 0 <= k < NUM_OSCS && self@.oscs[j].fm_slots[k] is Some)
            == inputs_of(routing(self@.oscs), j) by {
            assert(Set::new(|k: int| 0 <= k < NUM_OSCS && self@.oscs[j].fm_slots[k] is Some)
                =~= inputs_of(routing(self@.oscs), j));
        }
    }

    /// An engine at `sample_rate` samples per second: the wave tables built,
    /// `NUM_OSCS` fresh oscillators all routed to the mix, a fresh mixer.
    pub fn new(sample_rate: u32) -> (e: Engine)
        requires
            sample_rate > 0,
        ensures
            e.wf(),
            e@.sample_rate == sample_rate,
            e@.samples == 0,
            e@.scope == Seq::new(SCOPE_LEN as nat, |i: int| 50u64),
            e@.oscs.len() == NUM_OSCS,
            forall|i: int| 0 <= i < NUM_OSCS ==> is_fresh_osc(#[trigger] e@.oscs[i]),
            e@.mixer.gain == ONE,
            e@.mixer.mode == SynthMode::MIDI,
            e@.mixer.amp.is_fresh(Envelope::default_spec()),
    {
        let mut oscs: Vec<Oscillator> = Vec::new();
        let mut i: usize = 0;
        while i < NUM_OSCS
            invariant
                i <= NUM_OSCS,
                oscs@.len() == i,
                forall|k: int| 0 <= k < i ==> (#[trigger] oscs@[k]).wf() && is_fresh_osc(oscs@[k]@),
            decreases NUM_OSCS - i,
        {
            oscs.push(Oscillator::new());
            i = i + 1;
        }
        let e = Engine {
            oscs,
            mixer: Mixer::new(),
            tables: init_tables(),
            sample_rate,
            samples: 0,
            scope: Scope::new(SCOPE_LEN),
        };
        proof {
            assert forall|k: int| 0 <= k < NUM_OSCS implies (#[trigger] e@.oscs[k]).output == OutputMode::Master by {
                assert(e@.oscs[k] == e.oscs@[k]@);
            }
            assert(one_level(routing(e@.oscs))) by {
                assert forall|k: int| 0 <= k < NUM_OSCS implies #[trigger] routing(e@.oscs)[k] == OutputMode::Master by {
                    assert(e@.oscs[k].output == OutputMode::Master);
                }
            }
            assert forall|a: int, b: int| 0 <= a < NUM_OSCS && 0 <= b < NUM_OSCS implies !(#[trigger] e@.oscs[b].fm_slots[a] is Some)
                && e@.oscs[a].output == OutputMode::Master by {
                assert(e@.oscs[b] == e.oscs@[b]@);
                assert(e@.oscs[a] == e.oscs@[a]@);
            }
        }
        e
    }

    /// Oscillator `i` of the bank.
    pub fn osc(&self, i: usize) -> (r: &Oscillator)
        requires
            self.wf(),
            i < NUM_OSCS,
        ensures
            r@ == self@.oscs[i as int],
            r.wf(),
    {
        &self.oscs[i]
    }

    /// The display window of recent output, oldest first, each sample on the
    /// scale `[0, DISPLAY_MAX]`.
    pub fn scope_values(&self) -> (r: Vec<u64>)
        requires
            self.wf(),
        ensures
            r@ == self@.scope,
    {
        self.scope.values()
    }

    /// The current time, in microseconds.
    pub fn now(&self) -> (t: u64)
        requires
            self.wf(),
        ensures
            t == self@.now(),
    {
        let t: u128 = (self.samples as u128) * 1000000 / (self.sample_rate as u128);
        if t > u64::MAX as u128 {
            u64::MAX
        } else {
            t as u64
        }
    }

    /// Applies an oscillator edit.
    fn edit_osc(&mut self, msg: Message)
        requires
            old(self).wf(),
            is_osc_edit(msg),
        ensures
            final(self).wf(),
            0 <= edit_target(msg) < NUM_OSCS ==> final(self)@ == (EngineView {
                oscs: old(self)@.oscs.update(edit_target(msg), edited(old(self)@.oscs[edit_target(msg)], msg)),
                ..old(self)@
            }),
            !(0 <= edit_target(msg) < NUM_OSCS) ==> final(self)@ == old(self)@,
    {
        let ghost v0 = self@;
        let ghost old_oscs = self.oscs@;
        match msg {
            Message::Bypass { oscillator, bypass } => {
                if oscillator < NUM_OSCS {
                    self.oscs[oscillator].set_bypass(bypass);
                }
            },
            Message::Coarse { oscillator, coarse } => {
                if oscillator < NUM_OSCS {
                    self.oscs[oscillator].detune_coarse(coarse);
                }
            },
            Message::Fine { oscillator, fine } => {
                if oscillator < NUM_OSCS {
                    self.oscs[oscillator].detune_fine(fine);
                }
            },
            Message::FmRange { oscillator, range } => {
                if oscillator < NUM_OSCS {
                    self.oscs[oscillator].set_fm_range(range);
                }
            },
            Message::Freq { oscillator, freq } => {
                if oscillator < NUM_OSCS {
                    self.oscs[oscillator].set_freq(freq);
                }
            },
            Message::PitchMode { oscillator, mode } => {
                if oscillator < NUM_OSCS {
                    self.oscs[oscillator].set_mode(mode);
                }
            },
            Message::Waveform { oscillator, waveform } => {
                if oscillator < NUM_OSCS {
                    self.oscs[oscillator].set_waveform(waveform);
                }
            },
            _ => {},
        }
        proof {
            let t = edit_target(msg);
            if 0 <= t < NUM_OSCS {
                assert(self@.oscs =~= v0.oscs.update(t, edited(v0.oscs[t], msg)));
            } else {
                assert(self@.oscs =~= v0.oscs);
            }
            lemma_same_routing(v0.oscs, self@.oscs);
        }
    }

    /// Sets the gain of oscillator `i`'s amplifier, if there is one.
    fn set_osc_gain(&mut self, i: usize, gain_db: i32)
        requires
            old(self).wf(),
        ensures
            final(self).wf(),
            i < NUM_OSCS ==> {
                &&& old(self)@.oscs[i as int].amp.after_set_gain(final(self)@.oscs[i as int].amp, db_amp(gain_db as int))
                &&& final(self)@ == (EngineView {
                    oscs: old(self)@.oscs.update(i as int, OscView { amp: final(self)@.oscs[i as int].amp, ..old(self)@.oscs[i as int] }),
                    ..old(self)@
                })
            },
            i >= NUM_OSCS ==> final(self)@ == old(self)@,
    {
        let ghost v0 = self@;
        if i < NUM_OSCS {
            self.oscs[i].set_gain(gain_db);
            proof {
                assert(self@.oscs =~= v0.oscs.update(i as int, OscView { amp: self@.oscs[i as int].amp, ..v0.oscs[i as int] }));
                lemma_same_routing(v0.oscs, self@.oscs);
            }
        }
    }

    /// Sends a note-on to every oscillator in MIDI mode and to the mixer.
    fn notes_on(&mut self, pitch: u8, now: u64)
        requires
            old(self).wf(),
            pitch <= MAX_PITCH,
        ensures
            final(self).wf(),
            all_after_note_on(old(self)@.oscs, final(self)@.oscs, pitch, now),
            old(self)@.mixer.amp.after_note_on(final(self)@.mixer.amp, pitch, now),
            final(self)@ == (EngineView {
                oscs: final(self)@.oscs,
                mixer: MixerView { amp: final(self)@.mixer.amp, ..old(self)@.mixer },
                ..old(self)@
            }),
    {
        let ghost v0 = self@;
        let mut k: usize = 0;
        while k < NUM_OSCS
            invariant
                k <= NUM_OSCS,
                pitch <= MAX_PITCH,
                self.oscs@.len() == NUM_OSCS,
                forall|m: int| 0 <= m < NUM_OSCS ==> #[trigger] self.oscs@[m].wf(),
                self.mixer == old(self).mixer,
                self.tables == old(self).tables,
                self.sample_rate == old(self).sample_rate,
                self.samples == old(self).samples,
                self.scope == old(self).scope,
                v0 == old(self)@,
                forall|m: int|
                    0 <= m < NUM_OSCS ==> if m < k {
                        if (#[trigger] v0.oscs[m]).mode == Mode::MIDI {
                            osc_after_note_on(v0.oscs[m], self.oscs@[m]@, pitch, now)
                        } else {
                            self.oscs@[m]@ == v0.oscs[m]
                        }
                    } else {
                        self.oscs@[m]@ == v0.oscs[m]
                    },
            decreases NUM_OSCS - k,
        {
            if self.oscs[k].get_mode() == Mode::MIDI {
                self.oscs[k].note_on(pitch, now);
            }
            k = k + 1;
        }
        self.mixer.note_on(pitch, now);
        proof {
            assert forall|m: int| 0 <= m < NUM_OSCS implies (#[trigger] self@.oscs[m]) == self.oscs@[m]@ by {}
            lemma_same_routing(v0.oscs, self@.oscs);
        }
    }

    /// Sends a note-off to every oscillator in MIDI mode and to the mixer.
    fn notes_off(&mut self, pitch: u8, now: u64)
        requires
            old(self).wf(),
        ensures
            final(self).wf(),
            all_after_note_off(old(self)@.oscs, final(self)@.oscs, pitch, now),
            old(self)@.mixer.amp.after_note_off(final(self)@.mixer.amp, pitch, now),
            final(self)@ == (EngineView {
                oscs: final(self)@.oscs,
                mixer: MixerView { amp: final(self)@.mixer.amp, ..old(self)@.mixer },
                ..old(self)@
            }),
    {
        let ghost v0 = self@;
        let mut k: usize = 0;
        while k < NUM_OSCS
            invariant
                k <= NUM_OSCS,
                self.oscs@.len() == NUM_OSCS,
                forall|m: int| 0 <= m < NUM_OSCS ==> #[trigger] self.oscs@[m].wf(),
                self.mixer == old(self).mixer,
                self.tables == old(self).tables,
                self.sample_rate == old(self).sample_rate,
                self.samples == old(self).samples,
                self.scope == old(self).scope,
                v0 == old(self)@,
                forall|m: int|
                    0 <= m < NUM_OSCS ==> if m < k {
                        if (#[trigger] v0.oscs[m]).mode == Mode::MIDI {
                            osc_after_note_off(v0.oscs[m], self.oscs@[m]@, pitch, now)
                        } else {
                            self.oscs@[m]@ == v0.oscs[m]
                        }
                    } else {
                        self.oscs@[m]@ == v0.oscs[m]
                    },
            decreases NUM_OSCS - k,
        {
            if self.oscs[k].get_mode() == Mode::MIDI {
                self.oscs[k].note_off(pitch, now);
            }
            k = k + 1;
        }
        self.mixer.note_off(pitch, now);
        proof {
            assert forall|m: int| 0 <= m < NUM_OSCS implies (#[trigger] self@.oscs[m]) == self.oscs@[m]@ by {}
            lemma_same_routing(v0.oscs, self@.oscs);
        }
    }

    /// Applies a pitch bend to every oscillator.
    fn bend_all(&mut self, lsb: u8, msb: u8)
        requires
            old(self).wf(),
        ensures
            final(self).wf(),
            final(self)@.oscs.len() == NUM_OSCS,
            forall|k: int|
                0 <= k < NUM_OSCS ==> #[trigger] final(self)@.oscs[k] == retuned(
                    OscView { bend: bend_cents(lsb as int, msb as int), ..old(self)@.oscs[k] },
                ),
            final(self)@ == (EngineView { oscs: final(self)@.oscs, ..old(self)@ }),
    {
        let ghost v0 = self@;
        let mut k: usize = 0;
        while k < NUM_OSCS
            invariant
                k <= NUM_OSCS,
                self.oscs@.len() == NUM_OSCS,
                forall|m: int| 0 <= m < NUM_OSCS ==> #[trigger] self.oscs@[m].wf(),
                self.mixer == old(self).mixer,
                self.tables == old(self).tables,
                self.sample_rate == old(self).sample_rate,
                self.samples == old(self).samples,
                self.scope == old(self).scope,
                v0 == old(self)@,
                forall|m: int|
                    0 <= m < NUM_OSCS ==> if m < k {
                        self.oscs@[m]@ == retuned(OscView { bend: bend_cents(lsb as int, msb as int), ..(#[trigger] v0.oscs[m]) })
                    } else {
                        self.oscs@[m]@ == v0.oscs[m]
                    },
            decreases NUM_OSCS - k,
        {
            self.oscs[k].pitch_bend(lsb, msb);
            k = k + 1;
        }
        proof {
            assert forall|m: int| 0 <= m < NUM_OSCS implies (#[trigger] self@.oscs[m]) == self.oscs@[m]@ by {}
            lemma_same_routing(v0.oscs, self@.oscs);
        }
    }

    /// Applies a control message. Returns `false` for `Quit`, which asks the
    /// caller to stop, and `true` otherwise. A message aimed at an oscillator
    /// that the bank does not have, a note-on of a pitch above `MAX_PITCH` and
    /// a routing that would not stay one level deep change nothing; other
    /// out-of-range values are held to their limits.
    #[verifier::rlimit(50)]
    pub fn apply(&mut self, msg: Message) -> (running: bool)
        requires
            old(self).wf(),
        ensures
            final(self).wf(),
            running == (msg != Message::Quit),
            final(self)@.sample_rate == old(self)@.sample_rate,
            final(self)@.samples == old(self)@.samples,
            final(self)@.scope == old(self)@.scope,
            final(self)@.oscs.len() == NUM_OSCS,
            is_osc_edit(msg) && 0 <= edit_target(msg) < NUM_OSCS ==> final(self)@ == (EngineView {
                oscs: old(self)@.oscs.update(edit_target(msg), edited(old(self)@.oscs[edit_target(msg)], msg)),
                ..old(self)@
            }),
            is_osc_edit(msg) && !(0 <= edit_target(msg) < NUM_OSCS) ==> final(self)@ == old(self)@,
            is_envelope_edit(msg) ==> {
                &&& old(self)@.mixer.amp.after_set_envelope(
                    final(self)@.mixer.amp,
                    envelope_edit(old(self)@.mixer.amp.envelope(), msg),
                )
                &&& final(self)@ == (EngineView {
                    mixer: MixerView { amp: final(self)@.mixer.amp, ..old(self)@.mixer },
                    ..old(self)@
                })
            },
            match msg {
                Message::Quit => final(self)@ == old(self)@,
                Message::ResetMIDI => final(self)@ == old(self)@,
                Message::Master(db) => final(self)@ == (EngineView {
                    mixer: MixerView { gain: db_amp(db as int), ..old(self)@.mixer },
                    ..old(self)@
                }),
                Message::MixerMode(mode) => final(self)@ == (EngineView {
                    mixer: MixerView { mode: mode, ..old(self)@.mixer },
                    ..old(self)@
                }),
                Message::Gain { oscillator, gain } => if oscillator < NUM_OSCS {
                    &&& old(self)@.oscs[oscillator as int].amp.after_set_gain(
                        final(self)@.oscs[oscillator as int].amp,
                        db_amp(gain as int),
                    )
                    &&& final(self)@ == (EngineView {
                        oscs: old(self)@.oscs.update(
                            oscillator as int,
                            OscView { amp: final(self)@.oscs[oscillator as int].amp, ..old(self)@.oscs[oscillator as int] },
                        ),
                        ..old(self)@
                    })
                } else {
                    final(self)@ == old(self)@
                },
                Message::Output { oscillator, mode } => {
                    &&& routing(final(self)@.oscs) == route(routing(old(self)@.oscs), oscillator as int, mode)
                    &&& final(self)@.mixer == old(self)@.mixer
                    &&& forall|k: int|
                        0 <= k < NUM_OSCS ==> (#[trigger] final(self)@.oscs[k]) == (OscView {
                            output: routing(final(self)@.oscs)[k],
                            fm_slots: if route_allowed(routing(old(self)@.oscs), oscillator as int, mode) {
                                old(self)@.oscs[k].fm_slots.update(
                                    oscillator as int,
                                    if mode == OutputMode::Osc(k as usize) {
                                        Some(0i32)
                                    } else {
                                        None
                                    },
                                )
                            } else {
                                old(self)@.oscs[k].fm_slots
                            },
                            ..old(self)@.oscs[k]
                        })
                },
                Message::NoteOn { pitch, velocity } => if pitch <= MAX_PITCH {
                    &&& all_after_note_on(old(self)@.oscs, final(self)@.oscs, pitch, old(self)@.now() as u64)
                    &&& old(self)@.mixer.amp.after_note_on(final(self)@.mixer.amp, pitch, old(self)@.now() as u64)
                    &&& final(self)@.mixer == (MixerView { amp: final(self)@.mixer.amp, ..old(self)@.mixer })
                } else {
                    final(self)@ == old(self)@
                },
                Message::NoteOff { pitch } => {
                    &&& all_after_note_off(old(self)@.oscs, final(self)@.oscs, pitch, old(self)@.now() as u64)
                    &&& old(self)@.mixer.amp.after_note_off(final(self)@.mixer.amp, pitch, old(self)@.now() as u64)
                    &&& final(self)@.mixer == (MixerView { amp: final(self)@.mixer.amp, ..old(self)@.mixer })
                },
                Message::PitchBend { lsb, msb } => {
                    &&& final(self)@.mixer == old(self)@.mixer
                    &&& forall|k: int|
                        0 <= k < NUM_OSCS ==> #[trigger] final(self)@.oscs[k] == retuned(
                            OscView { bend: bend_cents(lsb as int, msb as int), ..old(self)@.oscs[k] },
                        )
                },
                _ => true,
            },
    {
        match msg {
            Message::Quit => {
                return false;
            },
            Message::ResetMIDI => {},
            Message::Attack(_) | Message::Decay(_) | Message::Release(_) | Message::Sustain(_) => {
                let env = self.mixer.adsr();
                let new_env = match msg {
                    Message::Attack(a) => Envelope { attack: a, ..env },
                    Message::Decay(d) => Envelope { decay: d, ..env },
                    Message::Release(r) => Envelope { release: r, ..env },
                    Message::Sustain(level) => {
                        let mut e = env;
                        e.set_sustain(level);
                        e
                    },
                    _ => env,
                };
                self.mixer.set_adsr(new_env);
            },
            Message::Master(db) => {
                self.mixer.set_gain(db);
            },
            Message::MixerMode(mode) => {
                self.mixer.set_mode(mode);
            },
            Message::Gain { oscillator, gain } => {
                self.set_osc_gain(oscillator, gain);
            },
            Message::Output { oscillator, mode } => {
                self.set_output(oscillator, mode);
            },
            Message::NoteOn { pitch, velocity } => {
                if pitch <= MAX_PITCH {
                    let now = self.now();
                    self.notes_on(pitch, now);
                }
            },
            Message::NoteOff { pitch } => {
                let now = self.now();
                self.notes_off(pitch, now);
            },
            Message::PitchBend { lsb, msb } => {
                self.bend_all(lsb, msb);
            },
            _ => {
                self.edit_osc(msg);
            },
        }
        true
    }

    /// Facts about well-formed oscillators that the render loops carry.
    proof fn lemma_osc_slots(&self)
        requires
            self.oscs@.len() == NUM_OSCS,
            forall|m: int| 0 <= m < NUM_OSCS ==> #[trigger] self.oscs@[m].wf(),
        ensures
            forall|m: int| 0 <= m < NUM_OSCS ==> (#[trigger] self@.oscs[m]).fm_slots.len() == NUM_OSCS,
    {
        assert forall|m: int| 0 <= m < NUM_OSCS implies (#[trigger] self@.oscs[m]).fm_slots.len() == NUM_OSCS by {
            self.oscs@[m].lemma_view();
        }
    }

    /// Renders one sample. First every oscillator routed into another one
    /// computes its sample and delivers it to that oscillator's FM input; then
    /// the oscillators routed to the mix compute theirs. Their sum, scaled by
    /// `HEADROOM`, goes through the mixer. The clock advances by one sample.
    #[verifier::rlimit(50)]
    pub fn tick(&mut self) -> (r: i32)
        requires
            old(self).wf(),
        ensures
            final(self).wf(),
            ticked(old(self)@, final(self)@, r as int),
    {
        let ghost v0 = self@;
        let now = self.now();
        proof {
            self.lemma_osc_slots();
        }
        let ghost mut sm: Seq<i32> = Seq::new(NUM_OSCS as nat, |k: int| 0i32);
        proof {
            assert forall|m: int| 0 <= m < NUM_OSCS implies #[trigger] self@.oscs[m] == delivered_upto(v0.oscs, m, sm, 0) by {
                assert(delivered_upto(v0.oscs, m, sm, 0).fm_slots =~= v0.oscs[m].fm_slots);
            }
        }
        let mut k: usize = 0;
        while k < NUM_OSCS
            invariant
                k <= NUM_OSCS,
                self.oscs@.len() == NUM_OSCS,
                forall|m: int| 0 <= m < NUM_OSCS ==> #[trigger] self.oscs@[m].wf(),
                forall|m: int| 0 <= m < NUM_OSCS ==> (#[trigger] v0.oscs[m]).fm_slots.len() == NUM_OSCS,
                one_level(routing(v0.oscs)),
                slots_match(v0.oscs),
                v0.oscs.len() == NUM_OSCS,
                sm.len() == NUM_OSCS,
                now == v0.now(),
                forall|m: int|
                    0 <= m < NUM_OSCS && v0.oscs[m].output != OutputMode::Master ==> if m < k {
                        osc_stepped(v0.oscs[m], #[trigger] self@.oscs[m], sm[m] as int, v0.sample_rate, now as int)
                    } else {
                        self@.oscs[m] == v0.oscs[m]
                    },
                forall|m: int|
                    0 <= m < NUM_OSCS && v0.oscs[m].output == OutputMode::Master ==> #[trigger] self@.oscs[m]
                        == delivered_upto(v0.oscs, m, sm, k as int),
                self.mixer == old(self).mixer,
                self.tables == old(self).tables,
                self.tables.wf(),
                self.sample_rate == old(self).sample_rate,
                self.sample_rate > 0,
                self.samples == old(self).samples,
                self.scope == old(self).scope,
                v0 == old(self)@,
            decreases NUM_OSCS - k,
        {
            let target = self.oscs[k].get_output_mode();
            proof {
                assert(self@.oscs[k as int] == self.oscs@[k as int]@);
                assert(routing(v0.oscs)[k as int] == v0.oscs[k as int].output);
                assert(match routing(v0.oscs)[k as int] {
                    OutputMode::Osc(j) => j < NUM_OSCS && j != k && routing(v0.oscs)[j as int] == OutputMode::Master,
                    OutputMode::Master => true,
                });
                if v0.oscs[k as int].output == OutputMode::Master {
                    assert(self@.oscs[k as int] == delivered_upto(v0.oscs, k as int, sm, k as int));
                } else {
                    assert(self@.oscs[k as int] == v0.oscs[k as int]);
                }
            }
            match target {
                OutputMode::Osc(j) => {
                    let ghost before = self.oscs@;
                    let ghost sm0 = sm;
                    proof {
                        assert(routing(v0.oscs)[j as int] == v0.oscs[j as int].output);
                        assert(self@.oscs[j as int] == self.oscs@[j as int]@);
                        assert(before[j as int]@ == delivered_upto(v0.oscs, j as int, sm0, k as int));
                    }
                    let sample = self.oscs[k].calc(&self.tables, self.sample_rate, now);
                    proof {
                        assert(routing(v0.oscs)[j as int] == v0.oscs[j as int].output);
                        assert(v0.oscs[k as int].output == OutputMode::Osc(j));
                        assert(v0.oscs[j as int].fm_slots[k as int] is Some);
                        assert(self.oscs@[j as int]@ == delivered_upto(v0.oscs, j as int, sm0, k as int));
                    }
                    self.oscs[j].fm_sample_in(k, sample);
                    proof {
                        sm = sm0.update(k as int, sample);
                        assert forall|m: int|
                            0 <= m < NUM_OSCS && v0.oscs[m].output != OutputMode::Master implies if m < k + 1 {
                                osc_stepped(v0.oscs[m], #[trigger] self@.oscs[m], sm[m] as int, v0.sample_rate, now as int)
                            } else {
                                self@.oscs[m] == v0.oscs[m]
                            } by {
                            assert(self@.oscs[m] == self.oscs@[m]@);
                            assert(before[m]@ == Seq::new(before.len(), |q: int| before[q]@)[m]);
                            if m != j as int {
                                assert(self.oscs@[m] == before.update(k as int, self.oscs@[k as int])[m] || m == k as int);
                            }
                        }
                        assert forall|m: int|
                            0 <= m < NUM_OSCS && v0.oscs[m].output == OutputMode::Master implies #[trigger] self@.oscs[m]
                                == delivered_upto(v0.oscs, m, sm, k + 1) by {
                            assert(self@.oscs[m] == self.oscs@[m]@);
                            assert(before[m]@ == Seq::new(before.len(), |q: int| before[q]@)[m]);
                            assert(before[m]@ == delivered_upto(v0.oscs, m, sm0, k as int));
                            assert(self@.oscs[m].fm_slots =~= delivered_upto(v0.oscs, m, sm, k + 1).fm_slots);
                        }
                    }
                },
                OutputMode::Master => {
                    proof {
                        assert forall|m: int|
                            0 <= m < NUM_OSCS && v0.oscs[m].output == OutputMode::Master implies #[trigger] self@.oscs[m]
                                == delivered_upto(v0.oscs, m, sm, k + 1) by {
                            assert(self@.oscs[m] == delivered_upto(v0.oscs, m, sm, k as int));
                            assert(delivered_upto(v0.oscs, m, sm, k as int).fm_slots =~= delivered_upto(v0.oscs, m, sm, k + 1).fm_slots);
                        }
                    }
                },
            }
            k = k + 1;
        }
        proof {
            assert forall|m: int| 0 <= m < NUM_OSCS && v0.oscs[m].output == OutputMode::Master implies #[trigger] self@.oscs[m]
                == delivered(v0.oscs, m, sm) by {
                assert(self@.oscs[m] == delivered_upto(v0.oscs, m, sm, NUM_OSCS as int));
            }
        }
        let mut sum: i64 = 0;
        let mut i: usize = 0;
        while i < NUM_OSCS
            invariant
                i <= NUM_OSCS,
                self.oscs@.len() == NUM_OSCS,
                forall|m: int| 0 <= m < NUM_OSCS ==> #[trigger] self.oscs@[m].wf(),
                v0.oscs.len() == NUM_OSCS,
                sm.len() == NUM_OSCS,
                now == v0.now(),
                forall|m: int|
                    0 <= m < NUM_OSCS && v0.oscs[m].output != OutputMode::Master ==> osc_stepped(
                        v0.oscs[m],
                        #[trigger] self@.oscs[m],
                        sm[m] as int,
                        v0.sample_rate,
                        now as int,
                    ),
                forall|m: int|
                    0 <= m < NUM_OSCS && v0.oscs[m].output == OutputMode::Master ==> if m < i {
                        osc_stepped(delivered(v0.oscs, m, sm), #[trigger] self@.oscs[m], sm[m] as int, v0.sample_rate, now as int)
                    } else {
                        self@.oscs[m] == delivered(v0.oscs, m, sm)
                    },
                sum == sum_of(mixed(v0.oscs, sm), i as nat),
                -(i * MAX_SAMPLE) <= sum <= i * MAX_SAMPLE,
                self.mixer == old(self).mixer,
                self.tables == old(self).tables,
                self.tables.wf(),
                self.sample_rate == old(self).sample_rate,
                self.sample_rate > 0,
                self.samples == old(self).samples,
                self.scope == old(self).scope,
                v0 == old(self)@,
            decreases NUM_OSCS - i,
        {
            let target = self.oscs[i].get_output_mode();
            proof {
                assert(self@.oscs[i as int] == self.oscs@[i as int]@);
                if v0.oscs[i as int].output == OutputMode::Master {
                    assert(self@.oscs[i as int] == delivered(v0.oscs, i as int, sm));
                } else {
                    assert(osc_stepped(v0.oscs[i as int], self@.oscs[i as int], sm[i as int] as int, v0.sample_rate, now as int));
                }
                assert(target == v0.oscs[i as int].output);
            }
            let ghost sm0 = sm;
            let out: i32 = match target {
                OutputMode::Master => {
                    let ghost before = self.oscs@;
                    let v = self.oscs[i].calc(&self.tables, self.sample_rate, now);
                    proof {
                        sm = sm0.update(i as int, v);
                        assert forall|m: int| 0 <= m < NUM_OSCS implies #[trigger] delivered(v0.oscs, m, sm) == delivered(v0.oscs, m, sm0) by {
                            assert(delivered(v0.oscs, m, sm).fm_slots =~= delivered(v0.oscs, m, sm0).fm_slots);
                        }
                        assert forall|m: int|
                            0 <= m < NUM_OSCS && v0.oscs[m].output != OutputMode::Master implies osc_stepped(
                                v0.oscs[m],
                                #[trigger] self@.oscs[m],
                                sm[m] as int,
                                v0.sample_rate,
                                now as int,
                            ) by {
                            assert(self@.oscs[m] == self.oscs@[m]@);
                            assert(before[m]@ == Seq::new(before.len(), |q: int| before[q]@)[m]);
                        }
                        assert forall|m: int|
                            0 <= m < NUM_OSCS && v0.oscs[m].output == OutputMode::Master implies if m < i + 1 {
                                osc_stepped(delivered(v0.oscs, m, sm), #[trigger] self@.oscs[m], sm[m] as int, v0.sample_rate, now as int)
                            } else {
                                self@.oscs[m] == delivered(v0.oscs, m, sm)
                            } by {
                            assert(self@.oscs[m] == self.oscs@[m]@);
                            assert(before[m]@ == Seq::new(before.len(), |q: int| before[q]@)[m]);
                            assert(delivered(v0.oscs, m, sm) == delivered(v0.oscs, m, sm0));
                        }
                    }
                    v
                },
                OutputMode::Osc(_) => 0,
            };
            proof {
                assert(-MAX_SAMPLE <= sm[i as int] <= MAX_SAMPLE) by {
                    if v0.oscs[i as int].output == OutputMode::Master {
                        assert(osc_stepped(delivered(v0.oscs, i as int, sm), self@.oscs[i as int], sm[i as int] as int, v0.sample_rate, now as int));
                    }
                }
                assert(mixed(v0.oscs, sm)[i as int] == out as int);
                lemma_sum_of_prefix(mixed(v0.oscs, sm0), mixed(v0.oscs, sm), i as nat);
                assert(sum_of(mixed(v0.oscs, sm), (i + 1) as nat) == sum_of(mixed(v0.oscs, sm), i as nat) + out);
            }
            sum = sum + out as i64;
            i = i + 1;
        }
        proof {
            lemma_stepped_settings(v0.oscs, self@.oscs, sm, v0.sample_rate, now as int);
            lemma_same_settings(v0.oscs, self@.oscs);
        }
        let mixed_out = self.mixer.calc(sum as i32, now);
        proof {
            lemma_scale_bounds(mixed_out as int, HEADROOM as int);
            if mixed_out >= 0 {
                assert(mixed_out * 16384 / 65536 <= MAX_SAMPLE) by (nonlinear_arith)
                    requires
                        0 <= mixed_out <= 4 * 1703936,
                ;
            } else {
                assert((-mixed_out) * 16384 / 65536 <= MAX_SAMPLE) by (nonlinear_arith)
                    requires
                        0 < -mixed_out <= 4 * 1703936,
                ;
            }
        }
        let r = scale_by(mixed_out as i64, HEADROOM) as i32;
        if self.samples < u64::MAX {
            self.samples = self.samples + 1;
        }
        self.scope.push(r);
        proof {
            assert(self@.oscs =~= Seq::new(self.oscs@.len(), |q: int| self.oscs@[q]@));
            assert(forall|m: int| 0 <= m < NUM_OSCS ==> (if v0.oscs[m].output == OutputMode::Master {
                osc_stepped(delivered(v0.oscs, m, sm), #[trigger] self@.oscs[m], sm[m] as int, v0.sample_rate, v0.now())
            } else {
                osc_stepped(v0.oscs[m], self@.oscs[m], sm[m] as int, v0.sample_rate, v0.now())
            }));
        }
        r
    }

    /// Fills `output`, a buffer of interleaved frames of `channels` samples,
    /// with one rendered sample per frame, copied to every channel of it (the
    /// signal is mono). A last frame shorter than `channels` is filled too.
    pub fn render(&mut self, output: &mut [i32], channels: usize)
        requires
            old(self).wf(),
            channels > 0,
        ensures
            final(self).wf(),
            final(output)@.len() == old(output)@.len(),
            forall|i: int| 0 <= i < final(output)@.len() ==> -MAX_SAMPLE <= #[trigger] final(output)@[i] <= MAX_SAMPLE,
            forall|i: int, j: int|
                0 <= i < final(output)@.len() && 0 <= j < final(output)@.len() && i / (channels as int) == j / (channels as int)
                    ==> #[trigger] final(output)@[i] == #[trigger] final(output)@[j],
            exists|states: Seq<EngineView>|
                {
                    &&& states.len() >= 1
                    &&& states[0] == old(self)@
                    &&& states.last() == final(self)@
                    &&& (states.len() - 1) * (channels as int) >= final(output)@.len()
                    &&& (states.len() == 1 || (states.len() - 2) * (channels as int) < final(output)@.len())
                    &&& forall|g: int|
                        0 <= g < states.len() - 1 ==> ticked(
                            #[trigger] states[g],
                            states[g + 1],
                            final(output)@[g * channels as int] as int,
                        )
                },
    {
        let len = output.len();
        let ghost ch = channels as int;
        let mut start: usize = 0;
        let ghost mut f: int = 0;
        let ghost mut states: Seq<EngineView> = seq![self@];
        while start < len
            invariant
                self.wf(),
                states.len() == f + 1,
                states[0] == old(self)@,
                states.last() == self@,
                start == len ==> f * ch >= len && (f == 0 || (f - 1) * ch < len),
                forall|g: int|
                    0 <= g < f ==> ticked(#[trigger] states[g], states[g + 1], output@[g * ch] as int),
                ch == channels as int,
                channels > 0,
                output@.len() == len,
                start <= len,
                f >= 0,
                start == len || start == f * ch,
                forall|i: int| 0 <= i < start ==> -MAX_SAMPLE <= #[trigger] output@[i] <= MAX_SAMPLE,
                forall|i: int, j: int|
                    0 <= i < start && 0 <= j < start && i / ch == j / ch ==> #[trigger] output@[i] == #[trigger] output@[j],
                forall|i: int| 0 <= i < start ==> #[trigger] (i / ch) < f || start == len,
                routing(self@.oscs) == routing(old(self)@.oscs),
                self@.sample_rate == old(self)@.sample_rate,
            decreases len - start,
        {
            let ghost pre = self@;
            let value = self.tick();
            let ghost pre_out = output@;
            let mut c: usize = 0;
            while c < channels && c < len - start
                invariant
                    ch == channels as int,
                    channels > 0,
                    start < len,
                    start == f * ch,
                    c <= channels,
                    output@.len() == len,
                    forall|i: int| 0 <= i < start ==> -MAX_SAMPLE <= #[trigger] output@[i] <= MAX_SAMPLE,
                    forall|i: int, j: int|
                        0 <= i < start && 0 <= j < start && i / ch == j / ch ==> #[trigger] output@[i] == #[trigger] output@[j],
                    forall|i: int| 0 <= i < start ==> #[trigger] (i / ch) < f,
                    forall|i: int| start <= i < start + c ==> #[trigger] output@[i] == value,
                    forall|i: int| 0 <= i < start ==> #[trigger] output@[i] == pre_out[i],
                    -MAX_SAMPLE <= value <= MAX_SAMPLE,
                decreases channels - c,
            {
                output[start + c] = value;
                c = c + 1;
            }
            proof {
                assert forall|i: int| start <= i < start + c implies #[trigger] (i / ch) == f by {
                    lemma_frame_of(i, f, ch);
                }
                assert forall|i: int| 0 <= i < start + c implies -MAX_SAMPLE <= #[trigger] output@[i] <= MAX_SAMPLE by {}
                assert forall|i: int, j: int|
                    0 <= i < start + c && 0 <= j < start + c && i / ch == j / ch implies #[trigger] output@[i] == #[trigger] output@[j] by {
                    if i >= start {
                        lemma_frame_of(i, f, ch);
                    }
                    if j >= start {
                        lemma_frame_of(j, f, ch);
                    }
                }
                assert forall|i: int| 0 <= i < start + c implies #[trigger] (i / ch) < f + 1 by {
                    if i >= start {
                        lemma_frame_of(i, f, ch);
                    }
                }
                assert((f + 1) * ch == f * ch + ch) by (nonlinear_arith);
            }
            proof {
                assert(output@[f * ch] == value);
                assert forall|g: int| 0 <= g < f implies ticked(#[trigger] states[g], states[g + 1], output@[g * ch] as int) by {
                    assert(g * ch < start) by (nonlinear_arith)
                        requires
                            0 <= g < f,
                            start == f * ch,
                            ch > 0,
                    ;
                    assert(output@[g * ch] == pre_out[g * ch]);
                }
                states = states.push(self@);
                assert(states[f] == pre);
                assert forall|g: int|
                    0 <= g < f + 1 implies ticked(#[trigger] states[g], states[g + 1], output@[g * ch] as int) by {
                    if g < f {
                        assert(states[g] == states.drop_last()[g]);
                        assert(states[g + 1] == states.drop_last()[g + 1]);
                    }
                }
            }
            if len - start <= channels {
                start = len;
            } else {
                start = start + channels;
            }
            proof {
                assert(f * ch + ch == (f + 1) * ch) by (nonlinear_arith);
                f = f + 1;
            }
        }
    }

    /// Whether some oscillator routes into oscillator `i`.
    fn has_inputs(&self, i: usize) -> (r: bool)
        requires
            self.wf(),
        ensures
            r == exists|k: int| 0 <= k < NUM_OSCS && routing(self@.oscs)[k] == OutputMode::Osc(i),
    {
        let mut k: usize = 0;
        while k < NUM_OSCS
            invariant
                self.wf(),
                k <= NUM_OSCS,
                forall|m: int| 0 <= m < k ==> routing(self@.oscs)[m] != OutputMode::Osc(i),
            decreases NUM_OSCS - k,
        {
            let out = self.oscs[k].get_output_mode();
            assert(out == routing(self@.oscs)[k as int]);
            match out {
                OutputMode::Osc(j) => {
                    if j == i {
                        return true;
                    }
                },
                OutputMode::Master => {},
            }
            k = k + 1;
        }
        false
    }

    /// Routes oscillator `i` to `target`, when that keeps modulation one level
    /// deep (see `route_allowed`); returns whether it did. The FM inputs of the
    /// old and the new target change with it: `i` leaves the old target's
    /// inputs and joins the new one's, with no sample delivered yet.
    #[verifier::rlimit(50)]
    pub fn set_output(&mut self, i: usize, target: OutputMode) -> (accepted: bool)
        requires
            old(self).wf(),
        ensures
            final(self).wf(),
            accepted == route_allowed(routing(old(self)@.oscs), i as int, target),
            routing(final(self)@.oscs) == route(routing(old(self)@.oscs), i as int, target),
            final(self)@.oscs.len() == NUM_OSCS,
            forall|k: int|
                0 <= k < NUM_OSCS ==> (#[trigger] final(self)@.oscs[k]) == (OscView {
                    output: routing(final(self)@.oscs)[k],
                    fm_slots: if accepted {
                        old(self)@.oscs[k].fm_slots.update(
                            i as int,
                            if target == OutputMode::Osc(k as usize) {
                                Some(0i32)
                            } else {
                                None
                            },
                        )
                    } else {
                        old(self)@.oscs[k].fm_slots
                    },
                    ..old(self)@.oscs[k]
                }),
            final(self)@.mixer == old(self)@.mixer,
            final(self)@.sample_rate == old(self)@.sample_rate,
            final(self)@.samples == old(self)@.samples,
            final(self)@.scope == old(self)@.scope,
    {
        let ghost r0 = routing(self@.oscs);
        let ghost v0 = self@;
        let ghost old_oscs = self.oscs@;
        if i >= NUM_OSCS {
            return false;
        }
        match target {
            OutputMode::Osc(j) => {
                if j >= NUM_OSCS || j == i {
                    return false;
                }
                let tj = self.oscs[j].get_output_mode();
                assert(tj == r0[j as int]);
                if tj != OutputMode::Master {
                    return false;
                }
                if self.has_inputs(i) {
                    return false;
                }
            },
            OutputMode::Master => {},
        }
        let current = self.oscs[i].get_output_mode();
        assert(current == r0[i as int]);
        match current {
            OutputMode::Osc(j0) => {
                self.oscs[j0].remove_fm_in(i);
            },
            OutputMode::Master => {},
        }
        let ghost s1 = self.oscs@;
        self.oscs[i].set_output(target);
        let ghost s2 = self.oscs@;
        match target {
            OutputMode::Osc(j) => {
                self.oscs[j].add_fm_in(i);
            },
            OutputMode::Master => {},
        }
        proof {
            let s3 = self.oscs@;
            let w0 = v0.oscs;
            let w1 = Seq::new(NUM_OSCS as nat, |k: int| s1[k]@);
            let w2 = Seq::new(NUM_OSCS as nat, |k: int| s2[k]@);
            let w3 = Seq::new(NUM_OSCS as nat, |k: int| s3[k]@);
            assert forall|k: int| 0 <= k < NUM_OSCS implies #[trigger] w0[k].fm_slots.len() == NUM_OSCS by {
                assert(w0[k] == old_oscs[k]@);
                old_oscs[k].lemma_view();
            }
            assert forall|k: int| 0 <= k < NUM_OSCS implies (#[trigger] w1[k]) == step_unlink(w0, i as int, current, k) && s1[k].wf() by {}
            assert forall|k: int| 0 <= k < NUM_OSCS implies (#[trigger] w2[k]) == step_retarget(w1, i as int, target, k) && s2[k].wf() by {}
            assert forall|k: int| 0 <= k < NUM_OSCS implies (#[trigger] w3[k]) == step_link(w2, i as int, target, k) && s3[k].wf() by {}
            lemma_route_steps(w0, w1, w2, w3, i as int, current, target);
            assert(self@.oscs =~= w3);
        }
        true
    }
}

/// Oscillator `k` once `i` has left the FM inputs of its current target.
pub open spec fn step_unlink(w: Seq<OscView>, i: int, current: OutputMode, k: int) -> OscView {
    if current == OutputMode::Osc(k as usize) {
        OscView { fm_slots: w[k].fm_slots.update(i, None), ..w[k] }
    } else {
        w[k]
    }
}

/// Oscillator `k` once `i` has taken `target` as its output.
pub open spec fn step_retarget(w: Seq<OscView>, i: int, target: OutputMode, k: int) -> OscView {
    if k == i {
        OscView { output: target, ..w[k] }
    } else {
        w[k]
    }
}

/// Oscillator `k` once `i` has joined the FM inputs of its new target.
pub open spec fn step_link(w: Seq<OscView>, i: int, target: OutputMode, k: int) -> OscView {
    if target == OutputMode::Osc(k as usize) {
        OscView { fm_slots: w[k].fm_slots.update(i, Some(0i32)), ..w[k] }
    } else {
        w[k]
    }
}

proof fn lemma_route_steps(
    w0: Seq<OscView>,
    w1: Seq<OscView>,
    w2: Seq<OscView>,
    w3: Seq<OscView>,
    i: int,
    current: OutputMode,
    target: OutputMode,
)
    requires
        w0.len() == NUM_OSCS && w1.len() == NUM_OSCS && w2.len() == NUM_OSCS && w3.len() == NUM_OSCS,
        forall|k: int| 0 <= k < NUM_OSCS ==> #[trigger] w0[k].fm_slots.len() == NUM_OSCS,
        one_level(routing(w0)),
        slots_match(w0),
        route_allowed(routing(w0), i, target),
        current == w0[i].output,
        forall|k: int| 0 <= k < NUM_OSCS ==> #[trigger] w1[k] == step_unlink(w0, i, current, k),
        forall|k: int| 0 <= k < NUM_OSCS ==> #[trigger] w2[k] == step_retarget(w1, i, target, k),
        forall|k: int| 0 <= k < NUM_OSCS ==> #[trigger] w3[k] == step_link(w2, i, target, k),
    ensures
        routing(w3) == routing(w0).update(i, target),
        one_level(routing(w3)),
        slots_match(w3),
        forall|k: int|
            0 <= k < NUM_OSCS ==> (#[trigger] w3[k]) == (OscView {
                output: routing(w0).update(i, target)[k],
                fm_slots: w0[k].fm_slots.update(
                    i,
                    if target == OutputMode::Osc(k as usize) {
                        Some(0i32)
                    } else {
                        None
                    },
                ),
                ..w0[k]
            }),
{
    let r0 = routing(w0);
    assert forall|k: int| 0 <= k < NUM_OSCS implies (#[trigger] w3[k]) == (OscView {
        output: r0.update(i, target)[k],
        fm_slots: w0[k].fm_slots.update(
            i,
            if target == OutputMode::Osc(k as usize) {
                Some(0i32)
            } else {
                None
            },
        ),
        ..w0[k]
    }) by {
        assert(w1[k] == step_unlink(w0, i, current, k));
        assert(w2[k] == step_retarget(w1, i, target, k));
        let expected = w0[k].fm_slots.update(
            i,
            if target == OutputMode::Osc(k as usize) {
                Some(0i32)
            } else {
                None
            },
        );
        assert(r0[i] == w0[i].output);
        if k == i {
            assert(r0[i] != OutputMode::Osc(i as usize));
            assert(!(w0[i].fm_slots[i] is Some));
        } else if current != OutputMode::Osc(k as usize) && target != OutputMode::Osc(k as usize) {
            assert(!(w0[k].fm_slots[i] is Some));
        }
        assert(w3[k].fm_slots =~= expected);
    }
    assert(routing(w3) =~= r0.update(i, target));
    let r1 = routing(w3);
    assert forall|a: int| 0 <= a < NUM_OSCS implies match #[trigger] r1[a] {
        OutputMode::Osc(j) => j < r1.len() && j != a && r1[j as int] == OutputMode::Master,
        OutputMode::Master => true,
    } by {
        if a != i {
            match r0[a] {
                OutputMode::Osc(j) => {
                    assert(r0[j as int] == OutputMode::Master);
                    if j as int == i {
                        assert(r0[a] == OutputMode::Osc(j));
                    }
                },
                OutputMode::Master => {},
            }
        }
    }
    assert forall|a: int, b: int| 0 <= a < NUM_OSCS && 0 <= b < NUM_OSCS implies (#[trigger] w3[b].fm_slots[a] is Some
        <==> w3[a].output == OutputMode::Osc(b as usize)) by {
        assert(w0[b].fm_slots[a] is Some <==> w0[a].output == OutputMode::Osc(b as usize));
        assert(w3[a].output == r1[a]);
        assert(r1[a] == r0.update(i, target)[a]);
    }
}

/// Sample `i` of an interleaved buffer belongs to frame `f` when it lies in
/// that frame's `ch` slots.
proof fn lemma_frame_of(i: int, f: int, ch: int)
    requires
        ch > 0,
        f >= 0,
        f * ch <= i < f * ch + ch,
    ensures
        i / ch == f,
{
    vstd::arithmetic::div_mod::lemma_fundamental_div_mod(i, ch);
    let q = i / ch;
    let rem = i % ch;
    assert(q == f) by (nonlinear_arith)
        requires
            f * ch <= i < f * ch + ch,
            i == ch * q + rem,
            0 <= rem < ch,
            ch > 0,
    ;
}

/// After every oscillator has stepped, each keeps its settings, and its FM
/// slots stay registered as before.
proof fn lemma_stepped_settings(w0: Seq<OscView>, w1: Seq<OscView>, samples: Seq<i32>, sample_rate: int, now: int)
    requires
        w0.len() == NUM_OSCS,
        w1.len() == NUM_OSCS,
        samples.len() == NUM_OSCS,
        slots_match(w0),
        forall|k: int| 0 <= k < NUM_OSCS ==> (#[trigger] w0[k]).fm_slots.len() == NUM_OSCS,
        forall|k: int|
            0 <= k < NUM_OSCS ==> if w0[k].output == OutputMode::Master {
                osc_stepped(delivered(w0, k, samples), #[trigger] w1[k], samples[k] as int, sample_rate, now)
            } else {
                osc_stepped(w0[k], w1[k], samples[k] as int, sample_rate, now)
            },
    ensures
        forall|k: int| 0 <= k < NUM_OSCS ==> same_settings(#[trigger] w0[k], w1[k]),
{
    assert forall|k: int| 0 <= k < NUM_OSCS implies same_settings(#[trigger] w0[k], w1[k]) by {
        let w1k = w1[k];
        if w0[k].output == OutputMode::Master {
            let d = delivered(w0, k, samples);
            assert(osc_stepped(d, w1k, samples[k] as int, sample_rate, now));
            assert forall|q: int| 0 <= q < w0[k].fm_slots.len() implies (#[trigger] w1k.fm_slots[q] is Some <==> w0[k].fm_slots[q] is Some) by {
                assert(w0[k].fm_slots[q] is Some <==> w0[q].output == OutputMode::Osc(k as usize));
            }
        } else {
            assert(osc_stepped(w0[k], w1k, samples[k] as int, sample_rate, now));
        }
    }
}

proof fn lemma_sum_of_prefix(a: Seq<int>, b: Seq<int>, n: nat)
    requires
        n <= a.len(),
        n <= b.len(),
        forall|m: int| 0 <= m < n ==> a[m] == b[m],
    ensures
        sum_of(a, n) == sum_of(b, n),
    decreases n,
{
    if n > 0 {
        lemma_sum_of_prefix(a, b, (n - 1) as nat);
    }
}

/// Routing an oscillator to another and then back to the mix leaves it out of
/// the other's FM inputs: nothing of it reaches that oscillator any more.
pub proof fn lemma_reroute_to_master_clears_input(r: Seq<OutputMode>, a: int, b: usize)
    requires
        0 <= a < r.len(),
    ensures
        !inputs_of(route(route(r, a, OutputMode::Osc(b)), a, OutputMode::Master), b as int).contains(a),
{
    let r1 = route(r, a, OutputMode::Osc(b));
    assert(route_allowed(r1, a, OutputMode::Master));
    assert(route(r1, a, OutputMode::Master)[a] == OutputMode::Master);
}

} // verus!
