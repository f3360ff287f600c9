//! Turning raw MIDI bytes into control messages, and what the MIDI listener
//! does with the messages it receives.
use crate::message::Message;
use midi_control::MidiMessage;
use vstd::prelude::*;

verus! {

/// The status byte that opens a system-exclusive message.
pub const SYSEX: u8 = 0xF0;

/// A decoded MIDI message, reduced to what the synthesizer reads.
#[derive(Clone, Copy, Debug, PartialEq, Eq, Structural)]
pub enum MidiEvent {
    /// Bytes that are not a MIDI message.
    Invalid,
    NoteOn { pitch: u8, velocity: u8 },
    NoteOff { pitch: u8, velocity: u8 },
    PitchBend { lsb: u8, msb: u8 },
    /// A message of a kind the synthesizer does not use.
    Other,
}

/// The MIDI decoding of a channel message `b` of at least three bytes (a
/// status byte whose high nibble is the kind, then two data bytes), or of a
/// shorter one, which is invalid.
pub open spec fn decoded(b: Seq<u8>) -> MidiEvent {
    if b.len() < 3 || b[0] < 0x80 || b[0] > SYSEX {
        MidiEvent::Invalid
    } else if b[0] / 16 == 8 {
        MidiEvent::NoteOff { pitch: b[1], velocity: b[2] }
    } else if b[0] / 16 == 9 {
        MidiEvent::NoteOn { pitch: b[1], velocity: b[2] }
    } else if b[0] / 16 == 14 {
        MidiEvent::PitchBend { lsb: b[1], msb: b[2] }
    } else {
        MidiEvent::Other
    }
}

/// Relies on `midi_control::MidiMessage::from(&[u8])`: fewer than three
/// bytes, or a status byte below 0x80 or above 0xF0, give `Invalid`; below
/// 0xF0 the high nibble selects note-off (8), note-on (9), pitch bend (14),
/// or one of the other channel messages, read from the next two bytes. Its
/// system-exclusive path indexes and unwraps without checks, so it is left out.
#[verifier::external_body]
fn decode(data: &[u8]) -> (r: MidiEvent)
    requires
        !(data@.len() >= 3 && data@[0] == SYSEX),
    ensures
        r == decoded(data@),
{
    match MidiMessage::from(data) {
        MidiMessage::Invalid => MidiEvent::Invalid,
        MidiMessage::NoteOn(_, key) => MidiEvent::NoteOn { pitch: key.key, velocity: key.value },
        MidiMessage::NoteOff(_, key) => MidiEvent::NoteOff { pitch: key.key, velocity: key.value },
        MidiMessage::PitchBend(_, lsb, msb) => MidiEvent::PitchBend { lsb, msb },
        MidiMessage::PolyKeyPressure(..) => MidiEvent::Other,
        MidiMessage::ControlChange(..) => MidiEvent::Other,
        MidiMessage::ProgramChange(..) => MidiEvent::Other,
        MidiMessage::ChannelPressure(..) => MidiEvent::Other,
        MidiMessage::SysEx(..) => MidiEvent::Other,
    }
}

/// A MIDI input that could not be decoded.
#[derive(Clone, Copy, Debug, PartialEq, Eq, Structural)]
pub enum MidiError {
    Invalid,
}

/// The control message a decoded MIDI event becomes: note-on, note-off and
/// pitch bend are passed on, other kinds are dropped, undecodable input is an
/// error.
pub open spec fn message_of(e: MidiEvent) -> Result<Option<Message>, MidiError> {
    match e {
        MidiEvent::Invalid => Err(MidiError::Invalid),
        MidiEvent::NoteOn { pitch, velocity } => Ok(Some(Message::NoteOn { pitch, velocity })),
        MidiEvent::NoteOff { pitch, velocity } => Ok(Some(Message::NoteOff { pitch })),
        MidiEvent::PitchBend { lsb, msb } => Ok(Some(Message::PitchBend { lsb, msb })),
        MidiEvent::Other => Ok(None),
    }
}

/// The control message for a decoded MIDI event.
pub fn event_message(e: MidiEvent) -> (r: Result<Option<Message>, MidiError>)
    ensures
        r == message_of(e),
{
    match e {
        MidiEvent::Invalid => Err(MidiError::Invalid),
        MidiEvent::NoteOn { pitch, velocity } => Ok(Some(Message::NoteOn { pitch, velocity })),
        MidiEvent::NoteOff { pitch, velocity: _ } => Ok(Some(Message::NoteOff { pitch })),
        MidiEvent::PitchBend { lsb, msb } => Ok(Some(Message::PitchBend { lsb, msb })),
        MidiEvent::Other => Ok(None),
    }
}

/// The control message for the raw MIDI input `msg`: `Ok(Some(..))` for a
/// note-on, note-off or pitch bend, `Ok(None)` for any other kind (system
/// exclusive included), `Err` for bytes that are not a MIDI message.
pub fn parse_message(msg: &[u8]) -> (r: Result<Option<Message>, MidiError>)
    ensures
        msg@.len() >= 3 && msg@[0] == SYSEX ==> r == Ok::<Option<Message>, MidiError>(None),
        !(msg@.len() >= 3 && msg@[0] == SYSEX) ==> r == message_of(decoded(msg@)),
{
    if msg.len() >= 3 && msg[0] == SYSEX {
        return Ok(None);
    }
    event_message(decode(msg))
}

/// What the MIDI listener does with a control message it receives.
#[derive(Clone, Copy, Debug, PartialEq, Eq, Structural)]
pub enum ListenerAction {
    /// Nothing: the message is for others.
    Ignore,
    /// Close the connection, if any, and connect again.
    Reconnect,
    /// Close the connection, if any, and stop listening.
    Stop,
}

/// The listener's action for `msg`: stop on `Quit`, reconnect on
/// `ResetMIDI`, ignore anything else.
pub fn listener_action(msg: &Message) -> (r: ListenerAction)
    ensures
        r == match *msg {
            Message::Quit => ListenerAction::Stop,
            Message::ResetMIDI => ListenerAction::Reconnect,
            _ => ListenerAction::Ignore,
        },
{
    match msg {
        Message::Quit => ListenerAction::Stop,
        Message::ResetMIDI => ListenerAction::Reconnect,
        _ => ListenerAction::Ignore,
    }
}

} // verus!
