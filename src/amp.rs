//! The ADSR envelope and the amplifier that follows note events through it.
use crate::tuning::db_to_amp;
use crate::tuning::db_amp;
use crate::wave::scale;
use crate::wave::scale_by;
use crate::wave::lemma_scale_bounds;
use crate::wave::ONE;
use std::collections::BTreeSet;
use vstd::prelude::*;

verus! {

broadcast use {vstd::std_specs::btree::group_btree_axioms, vstd::laws_cmp::group_laws_cmp};

/// An ADSR amplitude envelope. Times are in microseconds; `sustain` is a Q16
/// amplitude in `[0, 1.0]`.
#[derive(Clone, Copy, Debug, PartialEq, Eq, Structural)]
pub struct Envelope {
    /// The time the sound takes to reach its peak amplitude after beginning.
    pub attack: u64,
    /// The time the sound takes to fall to the sustain amplitude after the attack.
    pub decay: u64,
    /// The amplitude held once the attack and decay have passed.
    pub sustain: u32,
    /// The time the sound takes to reach silence once the last note stops.
    pub release: u64,
}

impl Envelope {
    pub open spec fn wf(&self) -> bool {
        self.sustain <= ONE
    }

    /// Instant attack, decay and release, full sustain.
    pub fn default() -> (e: Envelope)
        ensures
            e == (Envelope { attack: 0, decay: 0, sustain: ONE as u32, release: 0 }),
    {
        Envelope { attack: 0, decay: 0, sustain: ONE as u32, release: 0 }
    }

    /// Replaces the sustain amplitude, held to at most 1.0.
    pub fn set_sustain(&mut self, sustain: u32)
        ensures
            final(self).sustain == if sustain > ONE { ONE as u32 } else { sustain },
            final(self).attack == old(self).attack,
            final(self).decay == old(self).decay,
            final(self).release == old(self).release,
    {
        self.sustain = if sustain > ONE as u32 {
            ONE as u32
        } else {
            sustain
        };
    }
}

/// The time from `since` to `now`, or 0 if `now` comes first.
pub open spec fn elapsed(now: int, since: int) -> int {
    if now >= since {
        now - since
    } else {
        0
    }
}

/// The amplitude `t` microseconds after the attack began, while a note is held.
/// The attack rises linearly toward 1.0 when there is a decay to fall from, and
/// toward the sustain level when there is none; an attack of zero length
/// starts at that peak. The decay falls linearly from 1.0 to the sustain level.
pub open spec fn held_level(env: Envelope, t: int) -> int {
    let peak: int = if env.decay > 0 {
        ONE as int
    } else {
        env.sustain as int
    };
    if t <= env.attack {
        if env.attack == 0 {
            peak
        } else {
            peak * t / (env.attack as int)
        }
    } else if t > env.attack + env.decay {
        env.sustain as int
    } else {
        ONE - (ONE - env.sustain) * (t - env.attack) / (env.decay as int)
    }
}

/// The amplitude `t` microseconds into a release that began at `anchor`: a
/// line from `anchor` down to silence at `release`.
pub open spec fn release_level(anchor: int, release: int, t: int) -> int {
    if t >= release {
        0
    } else {
        anchor * (release - t) / release
    }
}

/// Where the attack starts after a note-on of `pitch` at `now`, given the held
/// notes, the current attack start and the legato flag: the first held note
/// starts it, a new note restarts it unless legato, a held note leaves it.
pub open spec fn next_start(
    notes: Set<u8>,
    start: Option<u64>,
    legato: bool,
    pitch: u8,
    now: u64,
) -> Option<u64> {
    if notes.is_empty() {
        Some(now)
    } else if !notes.contains(pitch) && !legato {
        Some(now)
    } else {
        start
    }
}

/// Manages the amplitude of a voice, both statically (its gain) and over time
/// (its envelope, driven by note events).
pub struct Amplifier {
    /// The MIDI pitches currently held.
    active_notes: BTreeSet<u8>,
    /// The envelope the amplitude follows.
    adsr: Envelope,
    /// The overall Q16 gain factor, at most 1.0.
    gain: u32,
    /// The amplitude last computed while a note was held, where a release starts.
    last_amplitude: u32,
    /// When set, a note that overlaps a held one does not restart the attack.
    legato: bool,
    /// While a note is held, when the attack began.
    start_time: Option<u64>,
    /// While releasing, when the last note was released.
    release_time: Option<u64>,
}

impl Amplifier {
    /// The set of held pitches.
    pub closed spec fn notes(&self) -> Set<u8> {
        self.active_notes@
    }

    pub closed spec fn envelope(&self) -> Envelope {
        self.adsr
    }

    pub closed spec fn start(&self) -> Option<u64> {
        self.start_time
    }

    pub closed spec fn released_at(&self) -> Option<u64> {
        self.release_time
    }

    /// The amplitude a release starts from.
    pub closed spec fn anchor(&self) -> int {
        self.last_amplitude as int
    }

    pub closed spec fn gain(&self) -> int {
        self.gain as int
    }

    pub closed spec fn is_legato(&self) -> bool {
        self.legato
    }

    pub closed spec fn wf(&self) -> bool {
        &&& self.adsr.wf()
        &&& self.gain <= ONE
        &&& self.last_amplitude <= ONE
        &&& (!self.active_notes@.is_empty() <==> self.start_time.is_some())
        &&& (self.release_time.is_some() ==> self.active_notes@.is_empty())
    }

    /// The envelope amplitude at `now`: the held level while notes are held,
    /// the release ramp while releasing, silence otherwise.
    pub open spec fn level(&self, now: int) -> int {
        match self.start() {
            Some(s) => held_level(self.envelope(), elapsed(now, s as int)),
            None => match self.released_at() {
                Some(r) => release_level(self.anchor(), self.envelope().release as int, elapsed(now, r as int)),
                None => 0,
            },
        }
    }

    /// A fresh amplifier on envelope `adsr`: unity gain, no legato, no note
    /// held, no release running, nothing reached yet.
    pub open spec fn is_fresh(&self, adsr: Envelope) -> bool {
        &&& self.wf()
        &&& self.envelope() == adsr
        &&& self.gain() == ONE
        &&& !self.is_legato()
        &&& self.notes().is_empty()
        &&& self.start() is None
        &&& self.released_at() is None
        &&& self.anchor() == 0
    }

    /// `sample_in` shaped by the envelope at `now` and by the gain.
    pub open spec fn output(&self, sample_in: int, now: int) -> int {
        scale(scale(sample_in, self.level(now)), self.gain())
    }

    /// `new` is what a note-on of `pitch` at `now` leaves of `self`.
    pub open spec fn after_note_on(&self, new: Amplifier, pitch: u8, now: u64) -> bool {
        &&& new.wf()
        &&& new.notes() == self.notes().insert(pitch)
        &&& new.start() == next_start(self.notes(), self.start(), self.is_legato(), pitch, now)
        &&& new.released_at() == if self.notes().is_empty() {
            None
        } else {
            self.released_at()
        }
        &&& new.envelope() == self.envelope()
        &&& new.anchor() == self.anchor()
        &&& new.gain() == self.gain()
        &&& new.is_legato() == self.is_legato()
    }

    /// `new` is what a note-off of `pitch` at `now` leaves of `self`: when the
    /// last held note goes, the release starts at `now`, from the amplitude
    /// that `calc` last computed while the note was held.
    pub open spec fn after_note_off(&self, new: Amplifier, pitch: u8, now: u64) -> bool {
        &&& new.wf()
        &&& new.notes() == self.notes().remove(pitch)
        &&& new.envelope() == self.envelope()
        &&& new.gain() == self.gain()
        &&& new.is_legato() == self.is_legato()
        &&& new.anchor() == self.anchor()
        &&& if !self.notes().is_empty() && new.notes().is_empty() {
            &&& new.start() is None
            &&& new.released_at() == Some(now)
        } else {
            &&& new.start() == self.start()
            &&& new.released_at() == self.released_at()
        }
    }

    /// `new` is what computing one sample at `now` leaves of `self`: the level
    /// reached while held becomes the release anchor, and a finished release ends.
    pub open spec fn after_calc(&self, new: Amplifier, now: int) -> bool {
        &&& new.wf()
        &&& new.notes() == self.notes()
        &&& new.start() == self.start()
        &&& new.envelope() == self.envelope()
        &&& new.gain() == self.gain()
        &&& new.is_legato() == self.is_legato()
        &&& (self.start() is Some ==> new.anchor() == self.level(now))
        &&& (self.start() is None ==> new.anchor() == self.anchor())
        &&& new.released_at() == match self.released_at() {
            Some(t) => if elapsed(now, t as int) >= self.envelope().release {
                None
            } else {
                Some(t)
            },
            None => None,
        }
    }

    /// `new` is `self` with its gain factor set to `gain`.
    pub open spec fn after_set_gain(&self, new: Amplifier, gain: int) -> bool {
        &&& new.wf()
        &&& new.gain() == gain
        &&& new.notes() == self.notes()
        &&& new.start() == self.start()
        &&& new.released_at() == self.released_at()
        &&& new.anchor() == self.anchor()
        &&& new.envelope() == self.envelope()
        &&& new.is_legato() == self.is_legato()
    }

    /// `new` is `self` with its envelope replaced by `adsr`.
    pub open spec fn after_set_envelope(&self, new: Amplifier, adsr: Envelope) -> bool {
        &&& new.wf()
        &&& new.envelope() == adsr
        &&& new.gain() == self.gain()
        &&& new.notes() == self.notes()
        &&& new.start() == self.start()
        &&& new.released_at() == self.released_at()
        &&& new.anchor() == self.anchor()
        &&& new.is_legato() == self.is_legato()
    }

    /// An amplifier with envelope `adsr`, unity gain, and no note held.
    pub fn new(adsr: Envelope) -> (a: Amplifier)
        requires
            adsr.wf(),
        ensures
            a.is_fresh(adsr),
    {
        let a = Amplifier {
            active_notes: BTreeSet::new(),
            adsr,
            gain: ONE as u32,
            last_amplitude: 0,
            legato: false,
            start_time: None,
            release_time: None,
        };
        a
    }

    /// An amplifier with the default envelope.
    pub fn default() -> (a: Amplifier)
        ensures
            a.is_fresh(Envelope::default_spec()),
    {
        Amplifier::new(Envelope::default())
    }

    /// A note-on of `pitch` at time `now`. The first held note starts the
    /// attack and ends any release; a new note over held ones restarts the
    /// attack unless legato is set; a pitch already held changes nothing.
    pub fn note_on(&mut self, pitch: u8, now: u64)
        requires
            old(self).wf(),
        ensures
            old(self).after_note_on(*final(self), pitch, now),
    {
        let ghost old_notes = self.active_notes@;
        if self.start_time.is_none() {
            self.active_notes.insert(pitch);
            self.start_time = Some(now);
            self.release_time = None;
        } else if !self.active_notes.contains(&pitch) {
            self.active_notes.insert(pitch);
            if !self.legato {
                self.start_time = Some(now);
            }
        }
        assert(self.active_notes@ =~= old_notes.insert(pitch));
    }

    /// A note-off of `pitch` at time `now`. When it releases the last held
    /// note, the release starts now, from the amplitude `calc` last computed;
    /// otherwise only the held set changes.
    pub fn note_off(&mut self, pitch: u8, now: u64)
        requires
            old(self).wf(),
        ensures
            old(self).after_note_off(*final(self), pitch, now),
    {
        let was_held = !self.active_notes.is_empty();
        self.active_notes.remove(&pitch);
        if was_held && self.active_notes.is_empty() {
            self.start_time = None;
            self.release_time = Some(now);
        }
    }

    /// The envelope level while notes are held, at `now`.
    fn held_level_now(&self, now: u64) -> (r: u32)
        requires
            self.wf(),
            self.start_time.is_some(),
        ensures
            r == held_level(self.adsr, elapsed(now as int, self.start_time.unwrap() as int)),
            r <= ONE,
    {
        let s = self.start_time.unwrap();
        let t = if now >= s {
            now - s
        } else {
            0
        };
        held_level_of(&self.adsr, t)
    }

    /// Multiplies `sample_in` by the envelope amplitude at `now` and by the
    /// gain. While notes are held the amplitude is recorded as the level a
    /// release would start from; a release that has run its course ends.
    pub fn calc(&mut self, sample_in: i32, now: u64) -> (r: i32)
        requires
            old(self).wf(),
        ensures
            r == old(self).output(sample_in as int, now as int),
            old(self).after_calc(*final(self), now as int),
            sample_in >= 0 ==> 0 <= r <= sample_in,
            sample_in < 0 ==> sample_in <= r <= 0,
    {
        let amplitude: u32 = if self.start_time.is_some() {
            let level = self.held_level_now(now);
            self.last_amplitude = level;
            level
        } else {
            match self.release_time {
                Some(rt) => {
                    let t = if now >= rt {
                        now - rt
                    } else {
                        0
                    };
                    if t >= self.adsr.release {
                        self.release_time = None;
                        0
                    } else {
                        let remaining = self.adsr.release - t;
                        assert((self.last_amplitude as int) * (remaining as int) <= 0x1_0000_0000 * 0x1_0000_0000_0000_0000) by (nonlinear_arith)
                            requires
                                0 <= self.last_amplitude <= 0x1_0000_0000,
                                0 <= remaining <= 0x1_0000_0000_0000_0000,
                        ;
                        let v = (self.last_amplitude as u128) * (remaining as u128) / (self.adsr.release as u128);
                        proof {
                            assert((self.last_amplitude as int) * (remaining as int) <= (self.last_amplitude as int) * (self.adsr.release as int)) by (nonlinear_arith)
                                requires
                                    remaining <= self.adsr.release,
                            ;
                            assert(v <= self.last_amplitude) by (nonlinear_arith)
                                requires
                                    v == (self.last_amplitude as int) * (remaining as int) / (self.adsr.release as int),
                                    (self.last_amplitude as int) * (remaining as int) <= (self.last_amplitude as int) * (self.adsr.release as int),
                                    self.adsr.release > 0,
                            ;
                        }
                        v as u32
                    }
                },
                None => 0,
            }
        };
        proof {
            lemma_scale_bounds(sample_in as int, amplitude as int);
        }
        let shaped = scale_by(sample_in as i64, amplitude);
        proof {
            lemma_scale_bounds(shaped as int, self.gain as int);
        }
        scale_by(shaped, self.gain) as i32
    }

    /// The gain factor, in Q16.
    pub fn get_gain(&self) -> (r: u32)
        requires
            self.wf(),
        ensures
            r == self.gain(),
    {
        self.gain
    }

    /// Sets the gain from a value in dB (held to `[MIN_DB, MAX_DB]`).
    pub fn set_gain(&mut self, gain_db: i32)
        requires
            old(self).wf(),
        ensures
            old(self).after_set_gain(*final(self), db_amp(gain_db as int)),
    {
        self.gain = db_to_amp(gain_db);
    }

    /// The envelope.
    pub fn adsr(&self) -> (r: Envelope)
        requires
            self.wf(),
        ensures
            r == self.envelope(),
            r.wf(),
    {
        self.adsr
    }

    /// Replaces the envelope; a note in progress continues on the new one.
    pub fn set_adsr(&mut self, adsr: Envelope)
        requires
            old(self).wf(),
            adsr.wf(),
        ensures
            old(self).after_set_envelope(*final(self), adsr),
    {
        self.adsr = adsr;
    }

    /// Turns legato on or off.
    pub fn set_legato(&mut self, legato: bool)
        requires
            old(self).wf(),
        ensures
            final(self).wf(),
            final(self).is_legato() == legato,
            final(self).notes() == old(self).notes(),
            final(self).start() == old(self).start(),
            final(self).released_at() == old(self).released_at(),
            final(self).anchor() == old(self).anchor(),
            final(self).envelope() == old(self).envelope(),
            final(self).gain() == old(self).gain(),
    {
        self.legato = legato;
    }
}

impl Envelope {
    pub open spec fn default_spec() -> Envelope {
        Envelope { attack: 0, decay: 0, sustain: ONE as u32, release: 0 }
    }
}

/// A note-on of a pitch that is already held does not restart the attack:
/// after a first note-on of `pitch`, a second one leaves the start time where
/// the first put it.
pub proof fn lemma_repeated_note_on_keeps_start(
    notes: Set<u8>,
    start: Option<u64>,
    legato: bool,
    pitch: u8,
    first: u64,
    second: u64,
)
    ensures
        next_start(
            notes.insert(pitch),
            next_start(notes, start, legato, pitch, first),
            legato,
            pitch,
            second,
        ) == next_start(notes, start, legato, pitch, first),
{
    assert(notes.insert(pitch).contains(pitch));
}

/// With legato on, a note-on that overlaps a held note does not restart the
/// attack: after a note-on of `held`, a note-on of any pitch keeps the start.
pub proof fn lemma_legato_keeps_start(
    notes: Set<u8>,
    start: Option<u64>,
    held: u8,
    pitch: u8,
    first: u64,
    second: u64,
)
    ensures
        next_start(notes.insert(held), next_start(notes, start, true, held, first), true, pitch, second)
            == next_start(notes, start, true, held, first),
{
    assert(notes.insert(held).contains(held));
}

/// A release starts from the amplitude that `calc` last computed while the
/// note was held, wherever in the attack or decay that was, and not from the
/// sustain level: after a `calc` at `t` and then the note-off of the last held
/// note at `off`, the level at `off` is the level `calc` saw at `t`.
pub proof fn lemma_release_starts_from_last_calc(
    a0: Amplifier,
    a1: Amplifier,
    a2: Amplifier,
    t: int,
    pitch: u8,
    off: u64,
)
    requires
        a0.wf(),
        a0.start() is Some,
        a0.envelope().release > 0,
        a0.after_calc(a1, t),
        a1.after_note_off(a2, pitch, off),
        a2.notes().is_empty(),
    ensures
        a2.level(off as int) == a0.level(t),
{
    let anchor = a2.anchor();
    let r = a2.envelope().release as int;
    assert(!a1.notes().is_empty());
    assert(elapsed(off as int, off as int) == 0);
    assert(anchor * r / r == anchor) by (nonlinear_arith)
        requires
            r > 0,
    ;
}

/// The held level of `env` at `t`.
fn held_level_of(env: &Envelope, t: u64) -> (r: u32)
    requires
        env.wf(),
    ensures
        r == held_level(*env, t as int),
        r <= ONE,
{
    let peak: u32 = if env.decay > 0 {
        ONE as u32
    } else {
        env.sustain
    };
    if t <= env.attack {
        if env.attack == 0 {
            peak
        } else {
            assert((peak as int) * (t as int) <= 0x1_0000_0000 * 0x1_0000_0000_0000_0000) by (nonlinear_arith)
                requires
                    0 <= peak <= 0x1_0000_0000,
                    0 <= t <= 0x1_0000_0000_0000_0000,
            ;
            let v = (peak as u128) * (t as u128) / (env.attack as u128);
            proof {
                assert(v <= peak) by (nonlinear_arith)
                    requires
                        v == (peak as int) * (t as int) / (env.attack as int),
                        t <= env.attack,
                        env.attack > 0,
                ;
            }
            v as u32
        }
    } else if t - env.attack > env.decay {
        env.sustain
    } else {
        assert(((ONE - env.sustain) as int) * ((t - env.attack) as int) <= 0x1_0000_0000 * 0x1_0000_0000_0000_0000) by (nonlinear_arith)
            requires
                0 <= ONE - env.sustain <= 0x1_0000_0000,
                0 <= t - env.attack <= 0x1_0000_0000_0000_0000,
        ;
        let drop = ((ONE as u32 - env.sustain) as u128) * ((t - env.attack) as u128) / (env.decay as u128);
        proof {
            assert(drop <= ONE - env.sustain) by (nonlinear_arith)
                requires
                    drop == ((ONE - env.sustain) as int) * ((t - env.attack) as int) / (env.decay as int),
                    t - env.attack <= env.decay,
                    env.decay > 0,
                    env.sustain <= ONE,
            ;
        }
        (ONE as u32) - (drop as u32)
    }
}

} // verus!
