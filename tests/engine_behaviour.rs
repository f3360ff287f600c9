use synth_core::engine::Engine;
use synth_core::message::Message;
use synth_core::mixer::SynthMode;
use synth_core::osc::Mode;
use synth_core::osc::OutputMode;
use synth_core::osc::NUM_OSCS;
use synth_core::wave::Waveform;
use synth_core::wave::ONE;

fn one_midi_sine() -> Engine {
    let mut e = Engine::new(48_000);
    assert!(e.apply(Message::Waveform { oscillator: 0, waveform: Waveform::Sine }));
    assert!(e.apply(Message::PitchMode { oscillator: 0, mode: Mode::MIDI }));
    assert!(e.apply(Message::Bypass { oscillator: 0, bypass: false }));
    assert!(e.apply(Message::Attack(0)));
    assert!(e.apply(Message::Decay(0)));
    assert!(e.apply(Message::Release(0)));
    assert!(e.apply(Message::Sustain(ONE as u32)));
    e
}

#[test]
fn end_to_end_note_sounds_then_stops() {
    let mut e = one_midi_sine();
    assert!(e.apply(Message::NoteOn { pitch: 69, velocity: 100 }));
    assert_eq!(e.osc(0).get_freq(), 440_000);
    let mut samples = Vec::new();
    for _ in 0..10 {
        samples.push(e.tick());
    }
    // The note restarts the cycle at its zero crossing, then sounds.
    assert_eq!(samples[0], 0);
    // 440 Hz at 48 kHz moves 615164 / 65536 table steps per sample: the second
    // sample reads sine step 9 (3672), a quarter of it through the headroom.
    assert_eq!(samples[1], 918);
    for s in &samples[1..] {
        assert!(*s != 0);
    }
    for s in &samples {
        assert!(-ONE <= *s && *s <= ONE);
    }
    assert!(e.apply(Message::NoteOff { pitch: 69 }));
    assert_eq!(e.tick(), 0);
}

#[test]
fn silent_when_everything_is_bypassed() {
    let mut e = Engine::new(44_100);
    for _ in 0..8 {
        assert_eq!(e.tick(), 0);
    }
}

#[test]
fn constant_mode_sounds_without_notes() {
    let mut e = Engine::new(48_000);
    assert!(e.apply(Message::MixerMode(SynthMode::Constant)));
    assert!(e.apply(Message::Bypass { oscillator: 1, bypass: false }));
    assert!(e.apply(Message::Waveform { oscillator: 1, waveform: Waveform::Square }));
    // A square at full scale, a quarter of it through the headroom.
    assert_eq!(e.tick(), -ONE / 4);
}

#[test]
fn rerouting_to_master_removes_fm_input() {
    let mut e = Engine::new(48_000);
    assert!(e.apply(Message::Output { oscillator: 0, mode: OutputMode::Osc(1) }));
    assert_eq!(e.osc(0).get_output_mode(), OutputMode::Osc(1));
    assert!(e.osc(1).has_fm_in(0));
    assert!(e.apply(Message::Output { oscillator: 0, mode: OutputMode::Master }));
    assert_eq!(e.osc(0).get_output_mode(), OutputMode::Master);
    for j in 0..NUM_OSCS {
        assert!(!e.osc(j).has_fm_in(0));
    }
}

#[test]
fn routing_moves_between_targets() {
    let mut e = Engine::new(48_000);
    assert!(e.set_output(0, OutputMode::Osc(1)));
    assert!(e.set_output(0, OutputMode::Osc(2)));
    assert!(!e.osc(1).has_fm_in(0));
    assert!(e.osc(2).has_fm_in(0));
}

#[test]
fn routing_that_would_nest_is_refused() {
    let mut e = Engine::new(48_000);
    assert!(!e.set_output(0, OutputMode::Osc(0)));
    assert!(!e.set_output(0, OutputMode::Osc(NUM_OSCS)));
    assert!(!e.set_output(NUM_OSCS, OutputMode::Master));
    assert!(e.set_output(0, OutputMode::Osc(1)));
    // 1 is modulated, so nothing may route into 0's target chain from 1, nor into 0.
    assert!(!e.set_output(1, OutputMode::Osc(2)));
    assert!(!e.set_output(2, OutputMode::Osc(0)));
    assert!(!e.set_output(1, OutputMode::Osc(0)));
    assert_eq!(e.osc(1).get_output_mode(), OutputMode::Master);
    assert_eq!(e.osc(2).get_output_mode(), OutputMode::Master);
}

#[test]
fn quit_stops_and_changes_nothing() {
    let mut e = Engine::new(48_000);
    assert!(!e.apply(Message::Quit));
    assert!(e.apply(Message::ResetMIDI));
}

#[test]
fn edits_aimed_past_the_bank_are_ignored() {
    let mut e = Engine::new(48_000);
    assert!(e.apply(Message::Freq { oscillator: NUM_OSCS, freq: 1000 }));
    assert!(e.apply(Message::Gain { oscillator: 99, gain: -6 }));
    for j in 0..NUM_OSCS {
        assert_eq!(e.osc(j).get_freq(), 440_000);
    }
}

#[test]
fn freq_is_held_to_its_maximum() {
    let mut e = Engine::new(48_000);
    assert!(e.apply(Message::Freq { oscillator: 2, freq: 1_000 }));
    assert_eq!(e.osc(2).get_freq(), 1_000);
    assert!(e.apply(Message::Freq { oscillator: 2, freq: u64::MAX }));
    assert_eq!(e.osc(2).get_freq(), 24_000_000);
}

#[test]
fn detune_and_bend_retune_a_held_note() {
    let mut e = one_midi_sine();
    assert!(e.apply(Message::NoteOn { pitch: 69, velocity: 1 }));
    assert!(e.apply(Message::Coarse { oscillator: 0, coarse: 12 }));
    assert_eq!(e.osc(0).get_freq(), 880_000);
    assert!(e.apply(Message::Coarse { oscillator: 0, coarse: 0 }));
    assert!(e.apply(Message::Fine { oscillator: 0, fine: 50 }));
    assert_eq!(e.osc(0).get_freq(), 440_000 + (466_163 - 440_000) / 2);
    assert!(e.apply(Message::Fine { oscillator: 0, fine: 0 }));
    // Full bend up: 8191 above centre, just under two semitones.
    assert!(e.apply(Message::PitchBend { lsb: 127, msb: 127 }));
    assert!(e.osc(0).get_freq() > 466_163);
    assert!(e.apply(Message::PitchBend { lsb: 0, msb: 64 }));
    assert_eq!(e.osc(0).get_freq(), 440_000);
}

#[test]
fn note_stack_returns_to_previous_pitch() {
    let mut e = one_midi_sine();
    assert!(e.apply(Message::NoteOn { pitch: 69, velocity: 1 }));
    assert!(e.apply(Message::NoteOn { pitch: 81, velocity: 1 }));
    assert_eq!(e.osc(0).get_freq(), 880_000);
    assert!(e.apply(Message::NoteOff { pitch: 81 }));
    assert_eq!(e.osc(0).get_freq(), 440_000);
}

#[test]
fn render_copies_each_frame_to_every_channel() {
    let mut e = one_midi_sine();
    assert!(e.apply(Message::NoteOn { pitch: 69, velocity: 100 }));
    let mut buffer = vec![7i32; 9];
    e.render(&mut buffer, 2);
    assert_eq!(buffer[0], 0);
    assert_eq!(buffer[0], buffer[1]);
    assert_eq!(buffer[2], buffer[3]);
    assert_ne!(buffer[2], 0);
    assert_eq!(buffer[6], buffer[7]);
    assert_ne!(buffer[8], 7);
}
