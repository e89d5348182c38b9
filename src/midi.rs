use vstd::prelude::*;

use crate::pitch::{shift_frequency, shifted_frequency};

verus! {

/// Frequency of A4 (note 69), in microhertz.
pub const A4_FREQUENCY_UHZ: u64 = 440_000_000;

/// MIDI note number of A4.
pub const A4_NOTE: u8 = 69;

/// Highest MIDI note number.
pub const MAX_NOTE: u8 = 127;

/// A note event from a MIDI source. A note-on with velocity 0 is a note-off.
#[derive(Clone, Copy, PartialEq, Eq, Debug, Structural)]
pub enum MidiEvent {
    NoteOn { note: u8, velocity: u8 },
    NoteOff { note: u8 },
}

/// The event a raw MIDI message carries: the upper four bits of the status
/// byte give the message kind (9 note-on, 8 note-off) on any channel, and
/// the two data bytes must be below 128. Other messages carry no event.
pub open spec fn midi_event_of(message: Seq<u8>) -> Option<MidiEvent> {
    if message.len() < 3 || message[1] > MAX_NOTE || message[2] > 127 {
        None
    } else {
        let kind = message[0] / 16;
        if kind == 9 && message[2] > 0 {
            Some(MidiEvent::NoteOn { note: message[1], velocity: message[2] })
        } else if kind == 8 || (kind == 9 && message[2] == 0) {
            Some(MidiEvent::NoteOff { note: message[1] })
        } else {
            None
        }
    }
}

/// Reads the note event of a raw MIDI message, if it carries one.
pub fn parse_midi_message(message: &[u8]) -> (r: Option<MidiEvent>)
    ensures
        r == midi_event_of(message@),
{
    if message.len() < 3 {
        return None;
    }
    let status = message[0];
    let note = message[1];
    let velocity = message[2];
    if note > MAX_NOTE || velocity > 127 {
        return None;
    }
    let kind = status / 16;
    if kind == 9 && velocity > 0 {
        Some(MidiEvent::NoteOn { note, velocity })
    } else if kind == 8 || (kind == 9 && velocity == 0) {
        Some(MidiEvent::NoteOff { note })
    } else {
        None
    }
}

/// Equal-tempered frequency of a MIDI note, in microhertz:
/// `440 Hz * 2^((note - 69) / 12)`.
pub open spec fn note_frequency(note: int) -> int {
    shifted_frequency(A4_FREQUENCY_UHZ as int, (note - A4_NOTE) * 100_000)
}

/// Equal-tempered frequency of a MIDI note, in microhertz, with A4 at 440 Hz.
pub fn note_to_frequency(note: u8) -> (r: u64)
    requires
        note <= MAX_NOTE,
    ensures
        r == note_frequency(note as int),
        r <= 64 * A4_FREQUENCY_UHZ,
{
    let cents: i64 = (note as i64 - A4_NOTE as i64) * 100_000;
    let f = shift_frequency(A4_FREQUENCY_UHZ, cents);
    proof {
        if cents >= 0 {
            assert(cents / 1_200_000 <= 4);
        }
    }
    f
}

} // verus!
