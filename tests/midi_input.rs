use synth_core::message::Message;
use synth_core::midi::event_message;
use synth_core::midi::listener_action;
use synth_core::midi::parse_message;
use synth_core::midi::ListenerAction;
use synth_core::midi::MidiError;
use synth_core::midi::MidiEvent;

#[test]
fn note_on_bytes_become_note_on() {
    assert_eq!(parse_message(&[0x90, 60, 100]), Ok(Some(Message::NoteOn { pitch: 60, velocity: 100 })));
    assert_eq!(parse_message(&[0x93, 61, 1]), Ok(Some(Message::NoteOn { pitch: 61, velocity: 1 })));
}

#[test]
fn note_off_bytes_become_note_off() {
    assert_eq!(parse_message(&[0x80, 60, 0]), Ok(Some(Message::NoteOff { pitch: 60 })));
}

#[test]
fn pitch_bend_bytes_become_pitch_bend() {
    assert_eq!(parse_message(&[0xE0, 5, 64]), Ok(Some(Message::PitchBend { lsb: 5, msb: 64 })));
}

#[test]
fn other_kinds_are_dropped() {
    assert_eq!(parse_message(&[0xB0, 7, 100]), Ok(None));
    assert_eq!(parse_message(&[0xC0, 7, 0]), Ok(None));
    assert_eq!(parse_message(&[0xF0, 0x7E, 0x00]), Ok(None));
}

#[test]
fn malformed_bytes_are_an_error() {
    assert_eq!(parse_message(&[0x90, 60]), Err(MidiError::Invalid));
    assert_eq!(parse_message(&[]), Err(MidiError::Invalid));
    assert_eq!(parse_message(&[0x40, 60, 1]), Err(MidiError::Invalid));
    assert_eq!(parse_message(&[0xF8, 0, 0]), Err(MidiError::Invalid));
}

#[test]
fn events_map_to_messages() {
    assert_eq!(event_message(MidiEvent::Other), Ok(None));
    assert_eq!(event_message(MidiEvent::Invalid), Err(MidiError::Invalid));
    assert_eq!(
        event_message(MidiEvent::NoteOff { pitch: 3, velocity: 9 }),
        Ok(Some(Message::NoteOff { pitch: 3 }))
    );
}

#[test]
fn listener_reacts_to_quit_and_reset() {
    assert_eq!(listener_action(&Message::Quit), ListenerAction::Stop);
    assert_eq!(listener_action(&Message::ResetMIDI), ListenerAction::Reconnect);
    assert_eq!(listener_action(&Message::NoteOff { pitch: 1 }), ListenerAction::Ignore);
}
