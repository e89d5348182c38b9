use rust_synth::envelope::{Envelope, EnvelopeManager, EnvelopeParams, EnvelopeState};

const SUSTAIN: u64 = 45875 << 24;
const FULL: u64 = 1 << 40;

fn held(frames: u32) -> Envelope {
    let mut e = Envelope::new(EnvelopeParams::default(), 44100);
    e.start(1);
    for _ in 0..frames {
        e.update(1);
    }
    e
}

#[test]
fn default_params() {
    assert_eq!(
        EnvelopeParams::default(),
        EnvelopeParams { attack: 10_000, decay: 100_000, sustain: 45875, release: 200_000 }
    );
}

#[test]
fn new_envelope_is_idle_and_silent() {
    let e = Envelope::new(EnvelopeParams::default(), 44100);
    assert_eq!(e.state(), EnvelopeState::Idle);
    assert_eq!(e.get_value(), 0);
}

#[test]
fn held_note_reaches_sustain_after_attack_and_decay() {
    // 0.01 s + 0.1 s at 44100 Hz is 4851 frames.
    let mut e = held(4850);
    assert_eq!(e.state(), EnvelopeState::Decay);
    assert!(e.get_value() > SUSTAIN);
    e.update(1);
    assert_eq!(e.state(), EnvelopeState::Sustain);
    assert_eq!(e.get_value(), SUSTAIN);
    for _ in 0..20000 {
        e.update(1);
        assert_eq!(e.get_value(), SUSTAIN);
    }
    e.update(1_000_000);
    assert_eq!(e.get_value(), SUSTAIN);
}

#[test]
fn one_large_update_crosses_stages() {
    let mut e = Envelope::new(EnvelopeParams::default(), 44100);
    e.start(7);
    e.update(4851);
    assert_eq!(e.state(), EnvelopeState::Sustain);
    assert_eq!(e.get_value(), SUSTAIN);
}

#[test]
fn attack_rises_to_full_scale() {
    // 441 frames of attack.
    let mut e = Envelope::new(EnvelopeParams::default(), 44100);
    e.start(1);
    let mut last = 0;
    for _ in 0..440 {
        e.update(1);
        assert_eq!(e.state(), EnvelopeState::Attack);
        assert!(e.get_value() > last);
        last = e.get_value();
    }
    e.update(1);
    assert_eq!(e.state(), EnvelopeState::Decay);
    assert_eq!(e.get_value(), FULL);
    let mut e = Envelope::new(EnvelopeParams::default(), 44100);
    e.start(1);
    e.update(147);
    assert_eq!(e.get_value(), FULL / 3);
}

#[test]
fn release_falls_to_zero_after_release_time() {
    let mut e = held(5000);
    e.end();
    assert_eq!(e.state(), EnvelopeState::Release);
    assert_eq!(e.get_value(), SUSTAIN);
    let mut last = e.get_value();
    // Half the release: 4410 frames, each strictly lower.
    for _ in 0..4410 {
        e.update(1);
        assert!(e.get_value() < last);
        last = e.get_value();
    }
    assert_eq!(e.get_value(), SUSTAIN / 2);
    for _ in 0..4409 {
        e.update(1);
        assert!(e.get_value() <= last);
        last = e.get_value();
    }
    assert_eq!(e.state(), EnvelopeState::Release);
    assert!(e.get_value() > 0);
    e.update(1);
    assert_eq!(e.state(), EnvelopeState::Idle);
    assert_eq!(e.get_value(), 0);
    e.update(100);
    assert_eq!(e.get_value(), 0);
}

#[test]
fn restarting_the_same_note_changes_nothing() {
    let mut e = held(300);
    let before = e.get_value();
    e.start(1);
    assert_eq!(e.get_value(), before);
    assert_eq!(e.state(), EnvelopeState::Attack);
    let mut other = held(300);
    e.update(5);
    other.update(5);
    assert_eq!(e.get_value(), other.get_value());
}

#[test]
fn retrigger_releases_then_attacks_from_silence() {
    let mut e = held(6000);
    assert_eq!(e.get_value(), SUSTAIN);
    e.start(2);
    // No jump at the instant: the old note starts its release from here.
    assert_eq!(e.state(), EnvelopeState::Release);
    assert_eq!(e.get_value(), SUSTAIN);
    // Starting the new note again changes nothing.
    e.start(2);
    assert_eq!(e.state(), EnvelopeState::Release);
    assert_eq!(e.get_value(), SUSTAIN);
    // The forced release lasts one attack length (441 frames), falling no
    // faster than the attack rises.
    let mut last = e.get_value();
    for _ in 0..440 {
        e.update(1);
        assert_eq!(e.state(), EnvelopeState::Release);
        let v = e.get_value();
        assert!(v <= last);
        assert!(last - v <= FULL / 441 + 1);
        last = v;
    }
    e.update(1);
    assert_eq!(e.state(), EnvelopeState::Attack);
    assert_eq!(e.get_value(), 0);
    let mut last = 0;
    for _ in 0..440 {
        e.update(1);
        let v = e.get_value();
        assert!(v >= last);
        assert!(v - last <= FULL / 441 + 1);
        last = v;
    }
    e.update(1);
    assert_eq!(e.state(), EnvelopeState::Decay);
    assert_eq!(e.get_value(), FULL);
}

#[test]
fn retrigger_during_release() {
    let mut e = held(6000);
    e.end();
    e.update(1000);
    let level = e.get_value();
    e.start(3);
    assert_eq!(e.get_value(), level);
    assert_eq!(e.state(), EnvelopeState::Release);
    e.update(1);
    assert!(e.get_value() <= level);
    e.update(440);
    assert_eq!(e.state(), EnvelopeState::Attack);
    assert_eq!(e.get_value(), 0);
}

#[test]
fn note_off_during_forced_release_cancels_the_new_note() {
    let mut e = held(6000);
    e.start(2);
    e.update(100);
    let level = e.get_value();
    e.end();
    // The forced release runs on as it was: same level, same clock.
    assert_eq!(e.state(), EnvelopeState::Release);
    assert_eq!(e.get_value(), level);
    let mut twin = held(6000);
    twin.start(2);
    twin.update(100);
    e.update(200);
    twin.update(200);
    assert_eq!(e.get_value(), twin.get_value());
    // It ends at one attack length (441 frames), in silence, with no attack after it.
    e.update(140);
    assert_eq!(e.state(), EnvelopeState::Release);
    e.update(1);
    assert_eq!(e.state(), EnvelopeState::Idle);
    assert_eq!(e.get_value(), 0);
    e.update(500);
    assert_eq!(e.get_value(), 0);
}

#[test]
fn end_after_a_release_changes_nothing() {
    let mut e = held(6000);
    e.end();
    e.update(100);
    let level = e.get_value();
    e.end();
    assert_eq!(e.get_value(), level);
    e.update(1);
    let mut twin = held(6000);
    twin.end();
    twin.update(101);
    assert_eq!(e.get_value(), twin.get_value());
}

#[test]
fn long_release_falls_every_frame() {
    // Sustain 0.7, release 10 s at 768 kHz: the level falls on every frame.
    let p = EnvelopeParams { attack: 10_000, decay: 100_000, sustain: 45875, release: 10_000_000 };
    let mut e = Envelope::new(p, 768_000);
    e.start(1);
    e.update(100_000);
    assert_eq!(e.get_value(), SUSTAIN);
    e.end();
    let mut last = e.get_value();
    for _ in 0..20_000 {
        e.update(1);
        assert!(e.get_value() < last);
        last = e.get_value();
    }
    e.update(3_820_000);
    for _ in 0..1000 {
        e.update(1);
        assert!(e.get_value() < last);
        last = e.get_value();
    }
}

#[test]
fn end_without_note_does_nothing() {
    let mut e = Envelope::new(EnvelopeParams::default(), 44100);
    e.end();
    assert_eq!(e.state(), EnvelopeState::Idle);
    e.update(10);
    assert_eq!(e.get_value(), 0);
}

#[test]
fn sustain_follows_new_params() {
    let mut e = held(6000);
    e.set_params(EnvelopeParams { attack: 10_000, decay: 100_000, sustain: 30000, release: 200_000 });
    assert_eq!(e.get_value(), 30000 << 24);
    e.update(10);
    assert_eq!(e.get_value(), 30000 << 24);
}

#[test]
fn zero_durations_are_clamped() {
    let p = EnvelopeParams::new(0, 0, 90000, 0);
    assert_eq!(p, EnvelopeParams { attack: 1, decay: 1, sustain: 65536, release: 1 });
    let mut e = Envelope::new(EnvelopeParams { attack: 0, decay: 0, sustain: 20000, release: 0 }, 44100);
    e.start(1);
    e.update(1);
    assert_eq!(e.state(), EnvelopeState::Sustain);
    assert_eq!(e.get_value(), 20000 << 24);
    e.end();
    e.update(1);
    assert_eq!(e.state(), EnvelopeState::Idle);
    assert_eq!(e.get_value(), 0);
}

#[test]
fn sample_rate_sets_the_time_scale() {
    let mut e = Envelope::new(EnvelopeParams::default(), 44100);
    e.set_sample_rate(48000);
    e.start(1);
    // 0.11 s at 48000 Hz is 5280 frames.
    e.update(5279);
    assert_eq!(e.state(), EnvelopeState::Decay);
    e.update(1);
    assert_eq!(e.get_value(), SUSTAIN);
}

#[test]
fn manager_drives_its_envelopes() {
    let mut m = EnvelopeManager::new(44100);
    assert_eq!(m.get_params(), EnvelopeParams::default());
    assert_eq!(m.get_value(0), 0);
    assert_eq!(m.get_value(1), 0);
    m.start_all(1);
    m.update_all(4851);
    assert_eq!(m.get_value(0), SUSTAIN);
    m.end_all();
    m.update_all(4410);
    assert_eq!(m.get_value(0), SUSTAIN / 2);
    m.update_all(4410);
    assert_eq!(m.get_value(0), 0);
}

#[test]
fn manager_params_and_rate() {
    let mut m = EnvelopeManager::new(44100);
    m.set_params(EnvelopeParams { attack: 0, decay: 20_000_000, sustain: 1000, release: 5 });
    assert_eq!(m.get_params(), EnvelopeParams { attack: 1, decay: 10_000_000, sustain: 1000, release: 5 });
    m.set_sample_rate(1000);
    m.set_params(EnvelopeParams { attack: 1000, decay: 1000, sustain: 1000, release: 1000 });
    m.start_all(9);
    // 1 ms at 1000 Hz is one frame per stage.
    m.update_all(1);
    assert_eq!(m.get_value(0), FULL);
    m.update_all(1);
    assert_eq!(m.get_value(0), 1000 << 24);
}
