use rust_synth::control::ControlState;
use rust_synth::midi::MidiEvent;
use rust_synth::oscillator::{generate_waveform, Waveform};
use rust_synth::synth::SynthEngine;
use rust_synth::unison::{generate_unison, UnisonSettings};

fn sine_control() -> ControlState {
    let mut c = ControlState::new();
    c.unison = UnisonSettings { voices: 1, detune: 0, waveform: Waveform::Sine };
    c
}

#[test]
fn note_reaches_sustain_and_plays_a_sine() {
    let mut engine = SynthEngine::new(44100);
    let mut c = sine_control();
    c.handle_midi(MidiEvent::NoteOn { note: 69, velocity: 100 });
    assert_eq!(c.frequency, 440_000_000);
    let mut buf = vec![0i32; 4851];
    engine.render(&c, &mut buf);
    assert_eq!(engine.level(), 45875);
    assert!((engine.level() as f64 / 65536.0 - 0.7).abs() < 0.001);
    let raw = generate_waveform(Waveform::Sine, 440_000_000, 4851, 44100, &c.quality) as f64 / 65536.0;
    let expected = (2.0 * std::f64::consts::PI * 440.0 * 4851.0 / 44100.0).sin();
    assert!((raw - expected).abs() < 0.003);
    // The next buffer is at the sustain level throughout.
    let mut next = vec![0i32; 64];
    engine.render(&c, &mut next);
    for (i, v) in next.iter().enumerate() {
        let x = generate_waveform(Waveform::Sine, 440_000_000, 4851 + i as u64, 44100, &c.quality) as i64;
        let scaled = if x >= 0 { x * 45875 / 65536 } else { -((-x) * 45875 / 65536) };
        assert_eq!(*v as i64, scaled);
    }
}

#[test]
fn end_to_end_output_with_default_filter_knob() {
    // Oversampling off: the filter coefficient has no effect on the output.
    let mut engine = SynthEngine::new(44100);
    let mut c = sine_control();
    c.set_quality(1, 32768, 0);
    c.handle_midi(MidiEvent::NoteOn { note: 69, velocity: 100 });
    let mut buf = vec![0i32; 4851];
    engine.render(&c, &mut buf);
    assert_eq!(engine.level(), 45875);
    let mut next = vec![0i32; 1];
    engine.render(&c, &mut next);
    let out = next[0] as f64 / 65536.0;
    let expected = 0.7 * (2.0 * std::f64::consts::PI * 440.0 * 0.11f64).sin();
    assert!((out - expected).abs() < 0.01, "{} {}", out, expected);
}

#[test]
fn gain_is_interpolated_across_the_buffer() {
    let mut engine = SynthEngine::new(44100);
    let mut c = sine_control();
    c.unison.waveform = Waveform::Square;
    c.gate_on();
    let mut buf = vec![0i32; 441];
    engine.render(&c, &mut buf);
    // Gain rises from 0 to full over the first buffer; the square is +1 for the first half cycle.
    assert_eq!(buf[0], 0);
    assert_eq!(engine.level(), 65536);
    for i in 1..50 {
        let g = (65536 * i as i64) / 441;
        assert_eq!(buf[i] as i64, g);
    }
}

#[test]
fn silent_without_a_note() {
    let mut engine = SynthEngine::new(44100);
    let c = sine_control();
    let mut buf = vec![7i32; 256];
    engine.render(&c, &mut buf);
    assert!(buf.iter().all(|v| *v == 0));
    assert_eq!(buf.len(), 256);
}

#[test]
fn release_keeps_the_pitch_and_fades_out() {
    let mut engine = SynthEngine::new(44100);
    let mut c = sine_control();
    c.handle_midi(MidiEvent::NoteOn { note: 69, velocity: 100 });
    let mut buf = vec![0i32; 5000];
    engine.render(&c, &mut buf);
    c.handle_midi(MidiEvent::NoteOff { note: 69 });
    assert_eq!(c.frequency, 0);
    let mut tail = vec![0i32; 100];
    engine.render(&c, &mut tail);
    assert!(tail.iter().any(|v| *v != 0));
    assert!(engine.level() < 45875);
    let mut rest = vec![0i32; 9000];
    engine.render(&c, &mut rest);
    assert_eq!(engine.level(), 0);
    let mut after = vec![1i32; 32];
    engine.render(&c, &mut after);
    assert!(after.iter().all(|v| *v == 0));
}

#[test]
fn unison_feeds_the_output() {
    let mut engine = SynthEngine::new(48000);
    let mut c = ControlState::new();
    c.unison = UnisonSettings { voices: 4, detune: 20_000, waveform: Waveform::Sawtooth };
    c.set_frequency(220_000_000);
    c.gate_on();
    let mut warm = vec![0i32; 48000];
    engine.render(&c, &mut warm);
    assert_eq!(engine.level(), 45875);
    let mut buf = vec![0i32; 16];
    engine.render(&c, &mut buf);
    for (i, v) in buf.iter().enumerate() {
        let x = generate_unison(&c.unison, 220_000_000, 48000 + i as u64, 48000, &c.quality) as i64;
        let scaled = if x >= 0 { x * 45875 / 65536 } else { -((-x) * 45875 / 65536) };
        assert_eq!(*v as i64, scaled);
    }
}

#[test]
fn empty_buffer_is_accepted() {
    let mut engine = SynthEngine::new(44100);
    let mut c = sine_control();
    c.gate_on();
    let mut buf: Vec<i32> = Vec::new();
    engine.render(&c, &mut buf);
    assert!(buf.is_empty());
    assert_eq!(engine.level(), 0);
}
