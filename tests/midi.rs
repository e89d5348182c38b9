use rust_synth::control::ControlState;
use rust_synth::envelope::EnvelopeParams;
use rust_synth::midi::{parse_midi_message, MidiEvent};

#[test]
fn note_on_and_off_messages() {
    assert_eq!(parse_midi_message(&[0x90, 60, 100]), Some(MidiEvent::NoteOn { note: 60, velocity: 100 }));
    assert_eq!(parse_midi_message(&[0x93, 61, 1]), Some(MidiEvent::NoteOn { note: 61, velocity: 1 }));
    assert_eq!(parse_midi_message(&[0x90, 60, 0]), Some(MidiEvent::NoteOff { note: 60 }));
    assert_eq!(parse_midi_message(&[0x80, 60, 64]), Some(MidiEvent::NoteOff { note: 60 }));
    assert_eq!(parse_midi_message(&[0x8F, 12, 0, 5]), Some(MidiEvent::NoteOff { note: 12 }));
}

#[test]
fn other_messages_carry_no_event() {
    assert_eq!(parse_midi_message(&[]), None);
    assert_eq!(parse_midi_message(&[0x90, 60]), None);
    assert_eq!(parse_midi_message(&[0xB0, 7, 100]), None);
    assert_eq!(parse_midi_message(&[0xE0, 0, 64]), None);
    assert_eq!(parse_midi_message(&[0x90, 200, 100]), None);
    assert_eq!(parse_midi_message(&[0x90, 60, 128]), None);
}

#[test]
fn control_follows_midi_notes() {
    let mut c = ControlState::new();
    assert_eq!(c.frequency, 440_000_000);
    assert_eq!(c.note, None);
    c.handle_midi(MidiEvent::NoteOn { note: 81, velocity: 90 });
    assert_eq!(c.frequency, 880_000_000);
    assert_eq!(c.note, Some(1));
    c.handle_midi(MidiEvent::NoteOn { note: 57, velocity: 90 });
    assert_eq!(c.frequency, 220_000_000);
    assert_eq!(c.note, Some(2));
    c.handle_midi(MidiEvent::NoteOff { note: 57 });
    assert_eq!(c.frequency, 0);
    assert_eq!(c.note, None);
    c.handle_midi(MidiEvent::NoteOn { note: 57, velocity: 90 });
    assert_eq!(c.note, Some(3));
}

#[test]
fn control_setters_clamp() {
    let mut c = ControlState::new();
    c.set_frequency(99_000_000_000);
    assert_eq!(c.frequency, 25_000_000_000);
    c.set_frequency(330_000_000);
    assert_eq!(c.frequency, 330_000_000);
    c.gate_on();
    assert_eq!(c.note, Some(1));
    assert_eq!(c.frequency, 330_000_000);
    c.gate_off();
    assert_eq!(c.note, None);
    assert_eq!(c.frequency, 330_000_000);
    c.set_envelope(EnvelopeParams { attack: 0, decay: 5, sustain: 70000, release: 99_999_999 });
    assert_eq!(c.envelope, EnvelopeParams { attack: 1, decay: 5, sustain: 65536, release: 10_000_000 });
    c.set_quality(30, 1, 2);
    assert_eq!(c.quality.oversample_ratio, 16);
    c.next_note_id = u32::MAX;
    c.gate_on();
    assert_eq!(c.note, Some(u32::MAX));
    assert_eq!(c.next_note_id, 1);
}
