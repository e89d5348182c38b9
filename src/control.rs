use vstd::prelude::*;

use crate::envelope::EnvelopeParams;
use crate::midi::{note_frequency, note_to_frequency, MidiEvent, MAX_NOTE};
use crate::oscillator::OscillatorSettings;
use crate::unison::{UnisonSettings, MAX_BASE_FREQUENCY_UHZ};

verus! {

/// What the control plane hands to the audio thread: the target frequency
/// (microhertz, 0 when no note is held), the identity of the held note, and
/// the sound parameters.
///
/// Each note-on gets a fresh identity, so a key struck again while its
/// previous note is still releasing starts a new attack, while the same
/// snapshot read twice never retriggers.
#[derive(Clone, Copy, Debug)]
pub struct ControlState {
    pub frequency: u64,
    pub note: Option<u32>,
    pub next_note_id: u32,
    pub unison: UnisonSettings,
    pub envelope: EnvelopeParams,
    pub quality: OscillatorSettings,
}

/// The identity that follows `id`; it wraps around and skips 0.
pub open spec fn following_id(id: u32) -> u32 {
    if id == u32::MAX {
        1
    } else {
        (id + 1) as u32
    }
}

/// Clamps a frequency to the highest base frequency.
pub open spec fn clamp_frequency(frequency: u64) -> u64 {
    if frequency > MAX_BASE_FREQUENCY_UHZ {
        MAX_BASE_FREQUENCY_UHZ
    } else {
        frequency
    }
}

/// The state after a MIDI event: a note-on sets the note's frequency and a
/// fresh note identity; a note-off silences the frequency and lets go of
/// the note.
pub open spec fn after_event(c: ControlState, event: MidiEvent) -> ControlState {
    match event {
        MidiEvent::NoteOn { note, .. } => ControlState {
            frequency: note_frequency(if note > MAX_NOTE { MAX_NOTE as int } else { note as int }) as u64,
            note: Some(c.next_note_id),
            next_note_id: following_id(c.next_note_id),
            ..c
        },
        MidiEvent::NoteOff { .. } => ControlState { frequency: 0, note: None, ..c },
    }
}

impl ControlState {
    /// 440 Hz, no note held, default sound parameters.
    pub fn new() -> (r: Self)
        ensures
            r.frequency == 440_000_000,
            r.note.is_none(),
            r.next_note_id == 1,
            r.unison.wf(),
            r.envelope.wf(),
            r.quality.wf(),
    {
        ControlState {
            frequency: 440_000_000,
            note: None,
            next_note_id: 1,
            unison: UnisonSettings::default(),
            envelope: EnvelopeParams::default(),
            quality: OscillatorSettings::default(),
        }
    }

    fn take_note_id(&mut self) -> (r: u32)
        ensures
            r == old(self).next_note_id,
            *final(self) == (ControlState { next_note_id: following_id(r), ..*old(self) }),
    {
        let id = self.next_note_id;
        self.next_note_id = if id == u32::MAX {
            1
        } else {
            id + 1
        };
        id
    }

    /// Applies a note event from a MIDI source.
    pub fn handle_midi(&mut self, event: MidiEvent)
        ensures
            *final(self) == after_event(*old(self), event),
    {
        match event {
            MidiEvent::NoteOn { note, .. } => {
                let n = if note > MAX_NOTE {
                    MAX_NOTE
                } else {
                    note
                };
                let f = note_to_frequency(n);
                let id = self.take_note_id();
                self.frequency = f;
                self.note = Some(id);
            },
            MidiEvent::NoteOff { .. } => {
                self.frequency = 0;
                self.note = None;
            },
        }
    }

    /// Sets the target frequency in microhertz, clamped to the highest base
    /// frequency.
    pub fn set_frequency(&mut self, frequency: u64)
        ensures
            *final(self) == (ControlState { frequency: clamp_frequency(frequency), ..*old(self) }),
    {
        self.frequency = if frequency > MAX_BASE_FREQUENCY_UHZ {
            MAX_BASE_FREQUENCY_UHZ
        } else {
            frequency
        };
    }

    /// Holds a new note at the present frequency.
    pub fn gate_on(&mut self)
        ensures
            *final(self) == (ControlState {
                note: Some(old(self).next_note_id),
                next_note_id: following_id(old(self).next_note_id),
                ..*old(self)
            }),
    {
        let id = self.take_note_id();
        self.note = Some(id);
    }

    /// Lets go of the held note; the frequency is kept for its release.
    pub fn gate_off(&mut self)
        ensures
            *final(self) == (ControlState { note: None, ..*old(self) }),
    {
        self.note = None;
    }

    /// Replaces the envelope parameters, clamped into their domain.
    pub fn set_envelope(&mut self, params: EnvelopeParams)
        ensures
            *final(self) == (ControlState { envelope: params.clamped(), ..*old(self) }),
    {
        self.envelope = params.clamp();
    }

    /// Replaces the oscillator settings, clamped into their domain.
    pub fn set_quality(&mut self, oversample_ratio: u32, filter_alpha: u32, smoothing_strength: u32)
        ensures
            final(self).quality.wf(),
            final(self).quality.ratio() == (OscillatorSettings {
                oversample_ratio,
                filter_alpha,
                smoothing_strength,
            }).ratio(),
            final(self).quality.alpha() == (OscillatorSettings {
                oversample_ratio,
                filter_alpha,
                smoothing_strength,
            }).alpha(),
            final(self).quality.strength() == (OscillatorSettings {
                oversample_ratio,
                filter_alpha,
                smoothing_strength,
            }).strength(),
            *final(self) == (ControlState { quality: final(self).quality, ..*old(self) }),
    {
        self.quality = OscillatorSettings::new(oversample_ratio, filter_alpha, smoothing_strength);
    }
}

} // verus!
