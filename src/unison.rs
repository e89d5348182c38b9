use vstd::prelude::*;

use crate::oscillator::{
    generate_fine, generate_waveform, round_to_q16, to_q16, waveform_fine, waveform_sample, FINE_ONE,
    OscillatorSettings, Waveform,
    MAX_FREQUENCY_UHZ, MAX_SAMPLE_RATE, ONE,
};
use crate::pitch::{
    lemma_shift_by_zero, shift_frequency, shifted_frequency,
};

verus! {

/// Most voices a unison stack may hold.
pub const MAX_VOICES: usize = 8;

/// Widest detune spread, in thousandths of a cent (100 cents).
pub const MAX_DETUNE_MILLICENTS: u32 = 100_000;

/// Highest base frequency of a unison stack, in microhertz (25 kHz).
pub const MAX_BASE_FREQUENCY_UHZ: u64 = 25_000_000_000;

/// How many detuned copies of the waveform sound together.
///
/// `detune` is the total spread in thousandths of a cent: the voices are
/// spaced evenly from `-detune / 2` to `+detune / 2` around the base pitch.
/// Settings outside their domain (no voice, more than eight, a spread over
/// 100 cents) fall back to a single voice without detune.
#[derive(Clone, Copy, PartialEq, Eq, Debug, Structural)]
pub struct UnisonSettings {
    pub voices: usize,
    pub detune: u32,
    pub waveform: Waveform,
}

impl UnisonSettings {
    /// Voice count and spread lie in their domain.
    pub open spec fn wf(self) -> bool {
        1 <= self.voices <= MAX_VOICES && self.detune <= MAX_DETUNE_MILLICENTS
    }

    /// The voice count in effect.
    pub open spec fn effective_voices(self) -> int {
        if self.wf() {
            self.voices as int
        } else {
            1
        }
    }

    /// The spread in effect, in thousandths of a cent.
    pub open spec fn effective_detune(self) -> int {
        if self.wf() {
            self.detune as int
        } else {
            0
        }
    }
}

impl Default for UnisonSettings {
    fn default() -> (r: Self)
        ensures
            r.wf(),
            r.voices == 3,
            r.detune == 100,
            r.waveform == Waveform::Sine,
    {
        UnisonSettings { voices: 3, detune: 100, waveform: Waveform::Sine }
    }
}

/// Offset of voice `i` of `voices` from the base pitch for a total spread
/// of `detune`, both in thousandths of a cent; rounded toward zero, so that
/// voices mirrored about the centre get opposite offsets.
pub open spec fn voice_offset(detune: int, voices: int, i: int) -> int {
    if voices <= 1 {
        0
    } else {
        let n = detune * (2 * i - (voices - 1));
        let d = 2 * (voices - 1);
        if n >= 0 {
            n / d
        } else {
            -((-n) / d)
        }
    }
}

/// Frequency of voice `i` of the stack, in microhertz.
pub open spec fn detuned_frequency(s: UnisonSettings, base: int, i: int) -> int {
    shifted_frequency(base, voice_offset(s.effective_detune(), s.effective_voices(), i))
}

/// Sum of the first `k` voices' oscillator values, in Q30.
pub open spec fn unison_sum(
    s: UnisonSettings,
    base: int,
    t: int,
    sample_rate: int,
    q: OscillatorSettings,
    k: nat,
) -> int
    decreases k,
{
    if k == 0 {
        0
    } else {
        unison_sum(s, base, t, sample_rate, q, (k - 1) as nat) + waveform_fine(
            s.waveform,
            detuned_frequency(s, base, k - 1),
            t,
            sample_rate,
            q,
        )
    }
}

/// The mixed value in Q30: one voice is the oscillator at the base
/// frequency; several are averaged, so loudness does not depend on the
/// voice count.
pub open spec fn unison_fine(
    s: UnisonSettings,
    base: int,
    t: int,
    sample_rate: int,
    q: OscillatorSettings,
) -> int {
    let v = s.effective_voices();
    if v == 1 {
        waveform_fine(s.waveform, base, t, sample_rate, q)
    } else {
        (unison_sum(s, base, t, sample_rate, q, v as nat) + v * FINE_ONE) / v - FINE_ONE
    }
}

/// The mixed sample, rounded to Q16 once.
pub open spec fn unison_sample(
    s: UnisonSettings,
    base: int,
    t: int,
    sample_rate: int,
    q: OscillatorSettings,
) -> int {
    to_q16(unison_fine(s, base, t, sample_rate, q))
}

proof fn lemma_voice_offset_bounds(detune: int, voices: int, i: int)
    requires
        0 <= detune <= MAX_DETUNE_MILLICENTS,
        1 <= voices <= MAX_VOICES,
        0 <= i < voices,
    ensures
        -detune <= voice_offset(detune, voices, i) <= detune,
{
    if voices > 1 {
        let m = 2 * i - (voices - 1);
        let d = 2 * (voices - 1);
        let n = detune * m;
        assert(-d <= m <= d);
        assert(n <= detune * d && -n <= detune * d) by (nonlinear_arith)
            requires
                -d <= m <= d,
                n == detune * m,
                0 <= detune,
        ;
        if n >= 0 {
            assert(n / d <= detune) by (nonlinear_arith)
                requires
                    0 <= n <= detune * d,
                    d > 0,
            ;
        } else {
            assert((-n) / d <= detune) by (nonlinear_arith)
                requires
                    0 <= -n <= detune * d,
                    d > 0,
            ;
        }
    }
}

/// Frequency of voice `i` of the stack, in microhertz.
pub fn voice_frequency(settings: &UnisonSettings, base_freq: u64, i: usize) -> (r: u64)
    requires
        base_freq <= MAX_BASE_FREQUENCY_UHZ,
        i < settings.effective_voices(),
    ensures
        r == detuned_frequency(*settings, base_freq as int, i as int),
        r <= 4 * base_freq,
{
    let (voices, detune): (usize, u32) = if 1 <= settings.voices && settings.voices <= MAX_VOICES
        && settings.detune <= MAX_DETUNE_MILLICENTS {
        (settings.voices, settings.detune)
    } else {
        (1, 0)
    };
    let offset: i64 = if voices <= 1 {
        0
    } else {
        proof {
            let m = 2 * i - (voices - 1);
            assert(-7 <= m <= 7);
            assert(-700000 <= detune * m <= 700000) by (nonlinear_arith)
                requires
                    -7 <= m <= 7,
                    0 <= detune <= MAX_DETUNE_MILLICENTS,
            ;
        }
        let n: i64 = detune as i64 * (2 * i as i64 - (voices as i64 - 1));
        let d: i64 = 2 * (voices as i64 - 1);
        if n >= 0 {
            n / d
        } else {
            -((-n) / d)
        }
    };
    proof {
        lemma_voice_offset_bounds(detune as int, voices as int, i as int);
    }
    shift_frequency(base_freq, offset)
}

/// One mixed sample of the unison stack at frame `t` (Q16, within `[-ONE, ONE]`).
///
/// With one voice this is the oscillator at `base_freq`; with `V` voices
/// each voice is detuned by its offset of `c` cents (the frequency scaled
/// by `2^(c / 1200)`), and the voices' Q30 values are averaged and rounded
/// to Q16 once.
pub fn generate_unison(
    settings: &UnisonSettings,
    base_freq: u64,
    t: u64,
    sample_rate: u32,
    osc_settings: &OscillatorSettings,
) -> (r: i32)
    requires
        base_freq <= MAX_BASE_FREQUENCY_UHZ,
        1 <= sample_rate <= MAX_SAMPLE_RATE,
    ensures
        r == unison_sample(*settings, base_freq as int, t as int, sample_rate as int, *osc_settings),
        -ONE <= r <= ONE,
{
    let voices: usize = if 1 <= settings.voices && settings.voices <= MAX_VOICES
        && settings.detune <= MAX_DETUNE_MILLICENTS {
        settings.voices
    } else {
        1
    };
    if voices == 1 {
        return generate_waveform(settings.waveform, base_freq, t, sample_rate, osc_settings);
    }
    let ghost s = *settings;
    let ghost q = *osc_settings;
    let mut sum: i64 = 0;
    let mut i: usize = 0;
    while i < voices
        invariant
            voices == s.effective_voices(),
            2 <= voices <= MAX_VOICES,
            0 <= i <= voices,
            s == *settings,
            q == *osc_settings,
            base_freq <= MAX_BASE_FREQUENCY_UHZ,
            1 <= sample_rate <= MAX_SAMPLE_RATE,
            sum == unison_sum(s, base_freq as int, t as int, sample_rate as int, q, i as nat),
            -i * FINE_ONE <= sum <= i * FINE_ONE,
        decreases voices - i,
    {
        let f = voice_frequency(settings, base_freq, i);
        let v = generate_fine(settings.waveform, f, t, sample_rate, osc_settings);
        sum = sum + v;
        i = i + 1;
    }
    proof {
        assert(0 <= (sum + voices * FINE_ONE) / (voices as int) <= 2 * FINE_ONE) by (nonlinear_arith)
            requires
                -voices * FINE_ONE <= sum <= voices * FINE_ONE,
                voices >= 1,
        ;
    }
    let mean: i64 = (sum + voices as i64 * FINE_ONE) as u64 as i64 / voices as i64 - FINE_ONE;
    round_to_q16(mean)
}

/// A stack of one voice sounds exactly like the oscillator at the base frequency.
pub proof fn lemma_single_voice_is_oscillator(
    s: UnisonSettings,
    base: int,
    t: int,
    sample_rate: int,
    q: OscillatorSettings,
)
    requires
        s.voices == 1,
    ensures
        unison_sample(s, base, t, sample_rate, q) == waveform_sample(s.waveform, base, t, sample_rate, q),
{
}

/// Without detune, every voice sounds at the base frequency, and the mean
/// of the stack equals the single-voice signal whatever the voice count.
pub proof fn lemma_zero_detune_matches_single_voice(
    s: UnisonSettings,
    base: int,
    t: int,
    sample_rate: int,
    q: OscillatorSettings,
)
    requires
        s.detune == 0,
        0 <= base,
        0 <= t,
        1 <= sample_rate,
    ensures
        unison_sample(s, base, t, sample_rate, q) == waveform_sample(s.waveform, base, t, sample_rate, q),
{
    let v = s.effective_voices();
    if v > 1 {
        let x = waveform_fine(s.waveform, base, t, sample_rate, q);
        lemma_shift_by_zero(base);
        lemma_unison_sum_constant(s, base, t, sample_rate, q, v as nat);
        assert((v * x + v * FINE_ONE) / v - FINE_ONE == x) by {
            assert(v * x + v * FINE_ONE == v * (x + FINE_ONE)) by (nonlinear_arith);
            vstd::arithmetic::div_mod::lemma_div_multiples_vanish(x + FINE_ONE, v);
        }
    }
}

proof fn lemma_unison_sum_constant(
    s: UnisonSettings,
    base: int,
    t: int,
    sample_rate: int,
    q: OscillatorSettings,
    k: nat,
)
    requires
        s.detune == 0,
        shifted_frequency(base, 0) == base,
    ensures
        unison_sum(s, base, t, sample_rate, q, k) == k * waveform_fine(
            s.waveform,
            base,
            t,
            sample_rate,
            q,
        ),
    decreases k,
{
    if k > 0 {
        lemma_unison_sum_constant(s, base, t, sample_rate, q, (k - 1) as nat);
        let m = 2 * (k - 1) - (s.effective_voices() - 1);
        assert(s.effective_detune() * m == 0) by (nonlinear_arith)
            requires
                s.effective_detune() == 0,
        ;
        assert(voice_offset(s.effective_detune(), s.effective_voices(), k - 1) == 0);
        assert(detuned_frequency(s, base, k - 1) == base);
        let x = waveform_fine(s.waveform, base, t, sample_rate, q);
        assert(k * x == (k - 1) * x + x) by (nonlinear_arith);
    } else {
        let x = waveform_fine(s.waveform, base, t, sample_rate, q);
        assert(0 * x == 0) by (nonlinear_arith);
    }
}

/// The voices are spread symmetrically about the base pitch: mirrored
/// voices get opposite offsets, and the outermost ones sit at half the
/// spread below and above (rounded toward zero), so the whole stack spans
/// `detune` thousandths of a cent, give or take one.
pub proof fn lemma_voice_offsets_symmetric(detune: int, voices: int, i: int)
    requires
        0 <= detune,
        1 <= voices,
        0 <= i < voices,
    ensures
        voice_offset(detune, voices, i) == -voice_offset(detune, voices, voices - 1 - i),
        voices > 1 ==> voice_offset(detune, voices, 0) == -(detune / 2),
        voices > 1 ==> voice_offset(detune, voices, voices - 1) == detune / 2,
{
    if voices > 1 {
        let d = 2 * (voices - 1);
        let m = 2 * i - (voices - 1);
        let mirrored = 2 * (voices - 1 - i) - (voices - 1);
        assert(mirrored == -m);
        assert(detune * mirrored == -(detune * m)) by (nonlinear_arith)
            requires
                mirrored == -m,
        ;
        let h = detune / 2;
        let r = detune % 2;
        vstd::arithmetic::div_mod::lemma_fundamental_div_mod(detune, 2);
        let top = detune * (voices - 1);
        assert(top == d * h + r * (voices - 1)) by (nonlinear_arith)
            requires
                detune == 2 * h + r,
                top == detune * (voices - 1),
                d == 2 * (voices - 1),
        ;
        assert(0 <= r * (voices - 1) < d) by (nonlinear_arith)
            requires
                0 <= r < 2,
                voices > 1,
                d == 2 * (voices - 1),
        ;
        vstd::arithmetic::div_mod::lemma_fundamental_div_mod_converse_div(top, d, h, r * (voices - 1));
        assert(top == detune * (2 * (voices - 1) - (voices - 1)));
        assert(detune * (0 - (voices - 1)) == -top) by (nonlinear_arith)
            requires
                top == detune * (voices - 1),
        ;
        assert(0 <= top) by (nonlinear_arith)
            requires
                0 <= detune,
                voices > 1,
                top == detune * (voices - 1),
        ;
    }
}

/// Clamps a voice count into `[1, MAX_VOICES]`.
pub open spec fn clamp_voices(voices: usize) -> usize {
    if voices < 1 {
        1
    } else if voices > MAX_VOICES {
        MAX_VOICES
    } else {
        voices
    }
}

/// Clamps a spread into `[0, MAX_DETUNE_MILLICENTS]`.
pub open spec fn clamp_detune(detune: u32) -> u32 {
    if detune > MAX_DETUNE_MILLICENTS {
        MAX_DETUNE_MILLICENTS
    } else {
        detune
    }
}

/// Holds the unison settings; each setter clamps its value into its domain.
pub struct UnisonManager {
    settings: UnisonSettings,
}

impl View for UnisonManager {
    type V = UnisonSettings;

    closed spec fn view(&self) -> UnisonSettings {
        self.settings
    }
}

impl UnisonManager {
    /// A manager holding the default settings.
    pub fn new() -> (r: Self)
        ensures
            r@ == (UnisonSettings { voices: 3, detune: 100, waveform: Waveform::Sine }),
            r@.wf(),
    {
        UnisonManager { settings: UnisonSettings::default() }
    }

    /// A copy of the settings.
    pub fn get_settings(&self) -> (r: UnisonSettings)
        ensures
            r == self@,
    {
        self.settings
    }

    /// Sets the voice count, clamped into `[1, MAX_VOICES]`.
    pub fn set_voices(&mut self, voices: usize)
        ensures
            final(self)@ == (UnisonSettings { voices: clamp_voices(voices), ..old(self)@ }),
    {
        self.settings.voices = if voices < 1 {
            1
        } else if voices > MAX_VOICES {
            MAX_VOICES
        } else {
            voices
        };
    }

    /// Sets the spread in thousandths of a cent, clamped into
    /// `[0, MAX_DETUNE_MILLICENTS]`.
    pub fn set_detune(&mut self, detune: u32)
        ensures
            final(self)@ == (UnisonSettings { detune: clamp_detune(detune), ..old(self)@ }),
    {
        self.settings.detune = if detune > MAX_DETUNE_MILLICENTS {
            MAX_DETUNE_MILLICENTS
        } else {
            detune
        };
    }

    /// Sets the waveform of every voice.
    pub fn set_waveform(&mut self, waveform: Waveform)
        ensures
            final(self)@ == (UnisonSettings { waveform, ..old(self)@ }),
    {
        self.settings.waveform = waveform;
    }
}

} // verus!
