use synth_core::engine::Engine;
use synth_core::engine::SCOPE_LEN;
use synth_core::message::Message;
use synth_core::mixer::SynthMode;
use synth_core::scope::Scope;
use synth_core::scope::DISPLAY_MAX;
use synth_core::wave::Waveform;
use synth_core::wave::ONE;

#[test]
fn scope_starts_silent() {
    let s = Scope::new(4);
    assert_eq!(s.values(), vec![50, 50, 50, 50]);
}

#[test]
fn scope_rolls_and_rescales() {
    let mut s = Scope::new(3);
    s.push(ONE);
    assert_eq!(s.values(), vec![50, 50, DISPLAY_MAX]);
    s.push(-ONE);
    s.push(ONE / 2);
    assert_eq!(s.values(), vec![DISPLAY_MAX, 0, 75]);
    s.push(10 * ONE);
    assert_eq!(s.values(), vec![0, 75, DISPLAY_MAX]);
}

#[test]
fn empty_scope_stays_empty() {
    let mut s = Scope::new(0);
    s.push(ONE);
    assert!(s.values().is_empty());
}

#[test]
fn engine_scope_follows_output() {
    let mut e = Engine::new(48_000);
    assert_eq!(e.scope_values().len(), SCOPE_LEN);
    assert!(e.apply(Message::MixerMode(SynthMode::Constant)));
    assert!(e.apply(Message::Bypass { oscillator: 0, bypass: false }));
    assert!(e.apply(Message::Waveform { oscillator: 0, waveform: Waveform::Square }));
    let r = e.tick();
    assert_eq!(r, -ONE / 4);
    let values = e.scope_values();
    assert_eq!(values.len(), SCOPE_LEN);
    assert_eq!(values[SCOPE_LEN - 1], 37);
    assert_eq!(values[0], 50);
}
