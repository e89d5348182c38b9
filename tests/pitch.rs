use rust_synth::midi::note_to_frequency;
use rust_synth::pitch::shift_frequency;

#[test]
fn a4_is_440_hz() {
    assert_eq!(note_to_frequency(69), 440_000_000);
}

#[test]
fn octaves_are_exact() {
    assert_eq!(note_to_frequency(81), 880_000_000);
    assert_eq!(note_to_frequency(57), 220_000_000);
    assert_eq!(note_to_frequency(45), 110_000_000);
    assert_eq!(note_to_frequency(9), 13_750_000);
}

#[test]
fn notes_follow_equal_temperament() {
    for note in 0u8..=127 {
        let f = note_to_frequency(note) as f64;
        let expected = 440_000_000.0 * 2f64.powf((note as f64 - 69.0) / 12.0);
        assert!((f - expected).abs() <= expected * 1e-8 + 1.0, "note {} got {} expected {}", note, f, expected);
    }
    let c4 = note_to_frequency(60) as f64;
    assert!((c4 - 261_625_565.3).abs() < 5.0);
}

#[test]
fn shift_by_cents() {
    assert_eq!(shift_frequency(220_000_000, 0), 220_000_000);
    assert_eq!(shift_frequency(220_000_000, 1_200_000), 440_000_000);
    assert_eq!(shift_frequency(220_000_000, -1_200_000), 110_000_000);
    let up = shift_frequency(1_000_000_000, 100_000) as f64;
    assert!((up - 1_059_463_094.4).abs() < 5.0, "{}", up);
    let down = shift_frequency(1_000_000_000, -100_000) as f64;
    assert!((down - 943_874_312.7).abs() < 5.0, "{}", down);
}
