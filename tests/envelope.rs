use synth_core::amp::Amplifier;
use synth_core::amp::Envelope;
use synth_core::wave::ONE;

const SECOND: u64 = 1_000_000;

fn amplifier(attack: u64, decay: u64, sustain: u32, release: u64) -> Amplifier {
    Amplifier::new(Envelope { attack, decay, sustain, release })
}

#[test]
fn envelope_default_is_instant_full_sustain() {
    let e = Envelope::default();
    assert_eq!(e, Envelope { attack: 0, decay: 0, sustain: ONE as u32, release: 0 });
}

#[test]
fn set_sustain_is_held_to_unity() {
    let mut e = Envelope::default();
    e.set_sustain(200_000);
    assert_eq!(e.sustain, ONE as u32);
    e.set_sustain(1000);
    assert_eq!(e.sustain, 1000);
}

#[test]
fn idle_amplifier_is_silent() {
    let mut a = Amplifier::default();
    assert_eq!(a.calc(ONE, 0), 0);
    assert_eq!(a.calc(-ONE, 5 * SECOND), 0);
}

#[test]
fn attack_ramps_linearly_to_peak() {
    let mut a = amplifier(SECOND, 0, ONE as u32, 0);
    a.note_on(60, 0);
    assert_eq!(a.calc(ONE, 0), 0);
    assert_eq!(a.calc(ONE, SECOND / 4), ONE / 4);
    assert_eq!(a.calc(ONE, SECOND / 2), ONE / 2);
    assert_eq!(a.calc(ONE, 2 * SECOND), ONE);
    assert_eq!(a.calc(-ONE, 2 * SECOND), -ONE);
}

#[test]
fn repeated_note_on_does_not_restart_attack() {
    let mut a = amplifier(SECOND, 0, ONE as u32, 0);
    a.note_on(60, 0);
    a.note_on(60, SECOND / 2);
    // Still half-way up the attack that began at 0, not back at its start.
    assert_eq!(a.calc(ONE, SECOND / 2), ONE / 2);
}

#[test]
fn new_note_restarts_attack_without_legato() {
    let mut a = amplifier(SECOND, 0, ONE as u32, 0);
    a.note_on(60, 0);
    a.note_on(64, SECOND / 2);
    assert_eq!(a.calc(ONE, SECOND / 2), 0);
}

#[test]
fn legato_keeps_attack_running() {
    let mut a = amplifier(SECOND, 0, ONE as u32, 0);
    a.set_legato(true);
    a.note_on(60, 0);
    a.note_on(64, SECOND / 2);
    assert_eq!(a.calc(ONE, SECOND / 2), ONE / 2);
}

#[test]
fn decay_falls_to_sustain() {
    // attack 0, decay 1 s, sustain 0.2
    let mut a = amplifier(0, SECOND, 13107, 0);
    a.note_on(60, 0);
    assert_eq!(a.calc(ONE, 0), ONE);
    assert_eq!(a.calc(ONE, SECOND / 2), 39322);
    assert_eq!(a.calc(ONE, 2 * SECOND), 13107);
}

#[test]
fn release_mid_decay_starts_from_reached_level() {
    // attack 0, decay 1 s, sustain 0.2, release 1 s; released at 0.5 s (about 0.6)
    let mut a = amplifier(0, SECOND, 13107, SECOND);
    a.note_on(60, 0);
    assert_eq!(a.calc(ONE, SECOND / 2), 39322);
    a.note_off(60, SECOND / 2);
    let start = a.calc(ONE, SECOND / 2);
    assert_eq!(start, 39322);
    assert!((start as f64 / ONE as f64 - 0.6).abs() < 0.001);
    // Half-way down the release: half the reached level, not half the sustain.
    assert_eq!(a.calc(ONE, SECOND), 19661);
    assert_eq!(a.calc(ONE, 3 * SECOND / 2), 0);
    assert_eq!(a.calc(ONE, 2 * SECOND), 0);
}

#[test]
fn note_off_of_one_of_two_notes_keeps_sounding() {
    let mut a = Amplifier::default();
    a.note_on(60, 0);
    a.note_on(64, 10);
    a.note_off(60, 20);
    assert_eq!(a.calc(ONE, 30), ONE);
    a.note_off(64, 40);
    assert_eq!(a.calc(ONE, 40), 0);
}

#[test]
fn gain_is_set_in_decibels() {
    let mut a = Amplifier::default();
    assert_eq!(a.get_gain(), ONE as u32);
    a.set_gain(-20);
    assert_eq!(a.get_gain(), 6553);
    a.note_on(60, 0);
    assert_eq!(a.calc(ONE, 0), 6553);
}

#[test]
fn release_starts_from_last_computed_amplitude() {
    // attack 1 ms, no decay, full sustain, release 1 s: the only computed
    // amplitude is at the very start of the attack, 0, so the release starts
    // there, not from the level the attack would have reached by the note-off.
    let mut a = amplifier(1000, 0, ONE as u32, SECOND);
    a.note_on(60, 0);
    assert_eq!(a.calc(ONE, 0), 0);
    a.note_off(60, 1000);
    assert_eq!(a.calc(ONE, 1000), 0);
}
