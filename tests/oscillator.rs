use rust_synth::oscillator::{generate_waveform, OscillatorSettings, Waveform, ONE};

const ALL: [Waveform; 4] = [Waveform::Sine, Waveform::Triangle, Waveform::Square, Waveform::Sawtooth];

fn raw() -> OscillatorSettings {
    OscillatorSettings::default()
}

#[test]
fn waveform_default_is_sine() {
    assert_eq!(Waveform::default(), Waveform::Sine);
}

#[test]
fn samples_stay_within_full_scale() {
    let qualities = [
        raw(),
        OscillatorSettings::new(4, 32768, 0),
        OscillatorSettings::new(16, 10000, 32768),
        OscillatorSettings { oversample_ratio: 0, filter_alpha: 999_999, smoothing_strength: 999_999 },
    ];
    for w in ALL {
        for q in &qualities {
            for hz in [20u64, 55, 440, 1234, 9999, 20000] {
                for t in [0u64, 1, 7, 100, 44_099, 1_000_000, 123_456_789, u64::MAX] {
                    let v = generate_waveform(w, hz * 1_000_000, t, 44100, q);
                    assert!((-ONE as i32) <= v && v <= ONE as i32, "{:?} {} {} {}", w, hz, t, v);
                }
            }
        }
    }
}

#[test]
fn quarter_cycle_values() {
    // 1 Hz at 4 frames per second: frame 1 is a quarter of the cycle.
    let q = raw();
    assert_eq!(generate_waveform(Waveform::Sine, 1_000_000, 1, 4, &q), 65536);
    assert_eq!(generate_waveform(Waveform::Triangle, 1_000_000, 1, 4, &q), 32768);
    assert_eq!(generate_waveform(Waveform::Square, 1_000_000, 1, 4, &q), 65536);
    assert_eq!(generate_waveform(Waveform::Sawtooth, 1_000_000, 1, 4, &q), -32768);
    // Frame 3: three quarters.
    assert_eq!(generate_waveform(Waveform::Sine, 1_000_000, 3, 4, &q), -65536);
    assert_eq!(generate_waveform(Waveform::Triangle, 1_000_000, 3, 4, &q), 32768);
    assert_eq!(generate_waveform(Waveform::Square, 1_000_000, 3, 4, &q), -65536);
    assert_eq!(generate_waveform(Waveform::Sawtooth, 1_000_000, 3, 4, &q), 32768);
    // Frame 0: start of the cycle.
    assert_eq!(generate_waveform(Waveform::Sine, 1_000_000, 0, 4, &q), 0);
    assert_eq!(generate_waveform(Waveform::Triangle, 1_000_000, 0, 4, &q), 0);
    assert_eq!(generate_waveform(Waveform::Sawtooth, 1_000_000, 0, 4, &q), -65536);
}

#[test]
fn sine_follows_the_sine_function() {
    let q = raw();
    for t in 0..2000u64 {
        let v = generate_waveform(Waveform::Sine, 440_000_000, t, 44100, &q) as f64 / 65536.0;
        let expected = (2.0 * std::f64::consts::PI * 440.0 * t as f64 / 44100.0).sin();
        assert!((v - expected).abs() < 1e-4, "t={} v={} expected={}", t, v, expected);
    }
}

#[test]
fn sine_at_an_eighth_of_a_cycle() {
    // 1 kHz at 8 kHz: frame 1 is an eighth of the cycle, sin(pi / 4) = 0.7071068.
    let v = generate_waveform(Waveform::Sine, 1_000_000_000, 1, 8000, &raw());
    assert_eq!(v, 46341);
}

#[test]
fn ramps_round_from_the_exact_phase() {
    // 333 Hz at 1000 frames per second: frame 1 is at phase 0.333.
    let q = raw();
    assert_eq!(generate_waveform(Waveform::Triangle, 333_000_000, 1, 1000, &q), 43647);
    assert_eq!(generate_waveform(Waveform::Sawtooth, 333_000_000, 1, 1000, &q), -21889);
    for t in 0..1000u64 {
        let phase = (t * 333 % 1000) as f64 / 1000.0;
        let tri = if phase < 0.5 { 2.0 * phase } else { 2.0 - 2.0 * phase };
        let v = generate_waveform(Waveform::Triangle, 333_000_000, t, 1000, &q) as f64 / 65536.0;
        assert!((v - tri).abs() <= 1e-5);
        let v = generate_waveform(Waveform::Sawtooth, 333_000_000, t, 1000, &q) as f64 / 65536.0;
        assert!((v - (2.0 * phase - 1.0)).abs() <= 1e-5);
    }
}

#[test]
fn oversampled_mean_is_rounded_once() {
    // 1 Hz at 1000 frames per second, two sub-steps: frame 333 covers
    // phases 0.333 and 0.3335, where the triangle's mean is 0.6665.
    let q = OscillatorSettings::new(2, 65536, 0);
    let v = generate_waveform(Waveform::Triangle, 1_000_000, 333, 1000, &q) as f64 / 65536.0;
    assert!((v - 0.6665).abs() <= 1e-5, "{}", v);
}

#[test]
fn time_wraps_without_moving_the_phase() {
    let q = OscillatorSettings::new(4, 40000, 5000);
    let span = 44100u64 * 1_000_000;
    for w in ALL {
        for t in [0u64, 17, 999, 44_099] {
            let a = generate_waveform(w, 261_626_000, t, 44100, &q);
            let b = generate_waveform(w, 261_626_000, t + span * 12345, 44100, &q);
            assert_eq!(a, b);
        }
    }
}

#[test]
fn no_oversampling_gives_the_raw_waveform() {
    // Filter and smoothing knobs have no effect at ratio 1.
    for q in [
        OscillatorSettings::new(1, 0, 0),
        OscillatorSettings::new(1, 32768, 0),
        OscillatorSettings::new(1, 0, 32768),
    ] {
        assert_eq!(generate_waveform(Waveform::Sine, 1_000_000, 1, 4, &q), 65536);
        assert_eq!(generate_waveform(Waveform::Square, 1_000_000, 1, 4, &q), 65536);
        assert_eq!(generate_waveform(Waveform::Triangle, 1_000_000, 1, 4, &q), 32768);
        assert_eq!(generate_waveform(Waveform::Sawtooth, 1_000_000, 1, 4, &q), -32768);
        assert_eq!(generate_waveform(Waveform::Square, 1_000_000, 3, 4, &q), -65536);
    }
    let q = OscillatorSettings::new(1, 32768, 0);
    let v = generate_waveform(Waveform::Sine, 440_000_000, 4851, 44100, &q) as f64 / 65536.0;
    let expected = (2.0 * std::f64::consts::PI * 440.0 * 0.11f64).sin();
    assert!((v - expected).abs() < 1e-4, "{} {}", v, expected);
}

#[test]
fn lowpass_filter_smooths_sub_samples() {
    // 1 Hz, 2 frames per second, two sub-steps at phases 0 and 1/4 (both +1):
    // with alpha = 0.5 and prev starting at 0 the filtered values are 0.5 and 0.75.
    let q = OscillatorSettings::new(2, 32768, 0);
    assert_eq!(generate_waveform(Waveform::Square, 1_000_000, 0, 2, &q), (32768 + 49152) / 2);
}

#[test]
fn smoothing_saturates_full_scale() {
    // x (1 - |x| s) with x = 1 and s = 0.5 is 0.5.
    let q = OscillatorSettings::new(2, 65536, 32768);
    assert_eq!(generate_waveform(Waveform::Square, 1_000_000, 0, 2, &q), 32768);
    assert_eq!(generate_waveform(Waveform::Square, 1_000_000, 1, 2, &q), -32768);
}

#[test]
fn oversampling_averages_sub_samples() {
    // 1 Hz at 2 frames per second, two sub-steps: frame 0 covers phases 0 and 1/4.
    let q = OscillatorSettings::new(2, 65536, 0);
    assert_eq!(generate_waveform(Waveform::Sawtooth, 1_000_000, 0, 2, &q), (-65536 + -32768) / 2);
    assert_eq!(generate_waveform(Waveform::Triangle, 1_000_000, 0, 2, &q), 32768 / 2);
}

#[test]
fn settings_are_clamped() {
    let q = OscillatorSettings::new(0, 70000, 40000);
    assert_eq!(q, OscillatorSettings { oversample_ratio: 1, filter_alpha: 65536, smoothing_strength: 32768 });
    let q = OscillatorSettings::new(99, 5, 7);
    assert_eq!(q, OscillatorSettings { oversample_ratio: 16, filter_alpha: 5, smoothing_strength: 7 });
}
