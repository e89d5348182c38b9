use rust_synth::oscillator::{generate_waveform, OscillatorSettings, Waveform, ONE};
use rust_synth::unison::{generate_unison, voice_frequency, UnisonManager, UnisonSettings};

#[test]
fn single_voice_is_the_oscillator() {
    let q = OscillatorSettings::new(4, 40000, 3000);
    for w in [Waveform::Sine, Waveform::Triangle, Waveform::Square, Waveform::Sawtooth] {
        let s = UnisonSettings { voices: 1, detune: 50_000, waveform: w };
        for t in 0..500u64 {
            assert_eq!(generate_unison(&s, 330_000_000, t, 48000, &q), generate_waveform(w, 330_000_000, t, 48000, &q));
        }
    }
}

#[test]
fn zero_detune_matches_single_voice() {
    let q = OscillatorSettings::default();
    for voices in 1..=8usize {
        let s = UnisonSettings { voices, detune: 0, waveform: Waveform::Sawtooth };
        for t in 0..300u64 {
            assert_eq!(generate_unison(&s, 440_000_000, t, 44100, &q), generate_waveform(Waveform::Sawtooth, 440_000_000, t, 44100, &q));
        }
    }
}

#[test]
fn four_voices_spread_twenty_cents() {
    let s = UnisonSettings { voices: 4, detune: 20_000, waveform: Waveform::Sine };
    let f: Vec<f64> = (0..4).map(|i| voice_frequency(&s, 220_000_000, i) as f64).collect();
    let cents: Vec<f64> = f.iter().map(|x| 1200.0 * (x / 220_000_000.0).log2()).collect();
    let expected = [-10.0, -10.0 / 3.0, 10.0 / 3.0, 10.0];
    for i in 0..4 {
        assert!((cents[i] - expected[i]).abs() < 1e-3, "voice {} at {} cents", i, cents[i]);
    }
    for i in 0..4 {
        let product = f[i] * f[3 - i];
        assert!((product / (220_000_000.0 * 220_000_000.0) - 1.0).abs() < 1e-4);
    }
    assert!(((cents[3] - cents[0]) / 20.0 - 1.0).abs() < 1e-4);
    assert!(f[0] < 220_000_000.0 && f[1] < 220_000_000.0 && f[2] > 220_000_000.0 && f[3] > 220_000_000.0);
}

#[test]
fn four_voice_mix_matches_exact_voice_frequencies() {
    // The mean of the four voices, against sines at the exact detuned frequencies.
    let q = OscillatorSettings::default();
    let s = UnisonSettings { voices: 4, detune: 20_000, waveform: Waveform::Sine };
    let cents = [-10.0, -10.0 / 3.0, 10.0 / 3.0, 10.0];
    for t in 0..2000u64 {
        let v = generate_unison(&s, 220_000_000, t, 48000, &q) as f64 / 65536.0;
        let mut sum = 0.0;
        for c in cents {
            let f = 220.0 * 2f64.powf(c / 1200.0);
            sum += (2.0 * std::f64::consts::PI * f * t as f64 / 48000.0).sin();
        }
        assert!((v - sum / 4.0).abs() <= 1e-5, "t={} {} {}", t, v, sum / 4.0);
    }
}

#[test]
fn malformed_settings_fall_back_to_one_voice() {
    let q = OscillatorSettings::default();
    for s in [
        UnisonSettings { voices: 0, detune: 10, waveform: Waveform::Square },
        UnisonSettings { voices: 9, detune: 10, waveform: Waveform::Square },
        UnisonSettings { voices: 4, detune: 500_000, waveform: Waveform::Square },
    ] {
        assert_eq!(voice_frequency(&s, 440_000_000, 0), 440_000_000);
        for t in 0..200u64 {
            assert_eq!(generate_unison(&s, 440_000_000, t, 44100, &q), generate_waveform(Waveform::Square, 440_000_000, t, 44100, &q));
        }
    }
}

#[test]
fn detuned_mix_stays_within_full_scale_and_differs() {
    let q = OscillatorSettings::default();
    let s = UnisonSettings { voices: 8, detune: 100_000, waveform: Waveform::Sawtooth };
    let mut differs = false;
    for t in 0..5000u64 {
        let v = generate_unison(&s, 20_000_000_000, t, 44100, &q);
        assert!(v.abs() <= ONE as i32);
        if v != generate_waveform(Waveform::Sawtooth, 20_000_000_000, t, 44100, &q) {
            differs = true;
        }
    }
    assert!(differs);
}

#[test]
fn single_voice_sine_at_a_tenth_of_a_second() {
    let q = OscillatorSettings::new(1, 32768, 0);
    let s = UnisonSettings { voices: 1, detune: 0, waveform: Waveform::Sine };
    let v = generate_unison(&s, 440_000_000, 4851, 44100, &q) as f64 / 65536.0;
    assert!((v - 0.587785).abs() < 1e-4, "{}", v);
}

#[test]
fn default_spread_is_a_tenth_of_a_cent() {
    let s = UnisonSettings::default();
    assert_eq!(s.detune, 100);
    let low = voice_frequency(&s, 440_000_000, 0) as f64;
    let high = voice_frequency(&s, 440_000_000, 2) as f64;
    assert!((1200.0 * (high / low).log2() - 0.1).abs() < 1e-4);
    assert_eq!(voice_frequency(&s, 440_000_000, 1), 440_000_000);
}

#[test]
fn two_voices_average() {
    // Two voices of a square wave at 1 Hz, 4 frames per second: at frame 0 both are at +1.
    let q = OscillatorSettings::default();
    let s = UnisonSettings { voices: 2, detune: 100_000, waveform: Waveform::Square };
    assert_eq!(generate_unison(&s, 1_000_000, 0, 4, &q), 65536);
}

#[test]
fn manager_clamps_settings() {
    let mut m = UnisonManager::new();
    assert_eq!(m.get_settings(), UnisonSettings { voices: 3, detune: 100, waveform: Waveform::Sine });
    assert_eq!(m.get_settings(), UnisonSettings::default());
    m.set_voices(0);
    assert_eq!(m.get_settings().voices, 1);
    m.set_voices(12);
    assert_eq!(m.get_settings().voices, 8);
    m.set_voices(5);
    assert_eq!(m.get_settings().voices, 5);
    assert_eq!(m.get_settings().detune, 100);
    assert_eq!(m.get_settings().waveform, Waveform::Sine);
    m.set_detune(250_000);
    assert_eq!(m.get_settings().detune, 100_000);
    m.set_detune(35_000);
    assert_eq!(m.get_settings().detune, 35_000);
    m.set_waveform(Waveform::Triangle);
    assert_eq!(m.get_settings(), UnisonSettings { voices: 5, detune: 35_000, waveform: Waveform::Triangle });
}
