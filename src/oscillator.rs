use vstd::prelude::*;

verus! {

/// Full scale of an output sample, and unit gain, in Q16 fixed point.
pub const ONE: i64 = 65536;

/// Full scale of the oscillator's internal values, in Q30 fixed point.
pub const FINE_ONE: i64 = 1073741824;

/// Q30 steps per Q16 step.
pub const FINE_PER_STEP: i64 = 16384;

/// Highest sample rate the core accepts, in frames per second. Components
/// that take a sample rate without a precondition clamp it to this.
pub const MAX_SAMPLE_RATE: u32 = 768000;

/// Highest oscillator frequency the core accepts, in microhertz (100 kHz).
pub const MAX_FREQUENCY_UHZ: u64 = 100_000_000_000;

/// Highest oversampling factor.
pub const MAX_OVERSAMPLE: u32 = 16;

/// Frames, per frame of sample rate, after which every frequency in
/// microhertz has completed whole cycles: one million seconds.
pub const TIME_SPAN_SECONDS: u64 = 1_000_000;

/// The shape of one oscillator cycle.
#[derive(Clone, Copy, PartialEq, Eq, Debug, Structural)]
pub enum Waveform {
    Sine,
    Triangle,
    Square,
    Sawtooth,
}

impl Default for Waveform {
    fn default() -> (r: Self)
        ensures
            r == Waveform::Sine,
    {
        Waveform::Sine
    }
}

/// Anti-aliasing knobs of the oscillator. With an oversampling ratio of 1
/// the oscillator outputs the raw waveform and the other two knobs have no
/// effect; above 1 they shape each sub-sample.
///
/// `filter_alpha` and `smoothing_strength` are Q16 numbers. Values outside
/// their domain are clamped where they are used: the ratio to `1..=16`, the
/// filter coefficient to `[0, ONE]`, the smoothing strength to `[0, ONE / 2]`.
#[derive(Clone, Copy, PartialEq, Eq, Debug, Structural)]
pub struct OscillatorSettings {
    pub oversample_ratio: u32,
    pub filter_alpha: u32,
    pub smoothing_strength: u32,
}

impl OscillatorSettings {
    /// The oversampling factor in effect.
    pub open spec fn ratio(self) -> int {
        if self.oversample_ratio < 1 {
            1
        } else if self.oversample_ratio > MAX_OVERSAMPLE {
            MAX_OVERSAMPLE as int
        } else {
            self.oversample_ratio as int
        }
    }

    /// The low-pass coefficient in effect.
    pub open spec fn alpha(self) -> int {
        if self.filter_alpha > ONE {
            ONE as int
        } else {
            self.filter_alpha as int
        }
    }

    /// The smoothing strength in effect.
    pub open spec fn strength(self) -> int {
        if self.smoothing_strength > ONE / 2 {
            (ONE / 2) as int
        } else {
            self.smoothing_strength as int
        }
    }

    /// All three knobs lie in their domain.
    pub open spec fn wf(self) -> bool {
        1 <= self.oversample_ratio <= MAX_OVERSAMPLE && self.filter_alpha <= ONE
            && self.smoothing_strength <= ONE / 2
    }

    /// Settings with each knob clamped into its domain.
    pub fn new(oversample_ratio: u32, filter_alpha: u32, smoothing_strength: u32) -> (r: Self)
        ensures
            r.wf(),
            r.ratio() == (Self { oversample_ratio, filter_alpha, smoothing_strength }).ratio(),
            r.alpha() == (Self { oversample_ratio, filter_alpha, smoothing_strength }).alpha(),
            r.strength() == (Self {
                oversample_ratio,
                filter_alpha,
                smoothing_strength,
            }).strength(),
    {
        let ratio = if oversample_ratio < 1 {
            1
        } else if oversample_ratio > MAX_OVERSAMPLE {
            MAX_OVERSAMPLE
        } else {
            oversample_ratio
        };
        let alpha = if filter_alpha > ONE as u32 {
            ONE as u32
        } else {
            filter_alpha
        };
        let strength = if smoothing_strength > (ONE / 2) as u32 {
            (ONE / 2) as u32
        } else {
            smoothing_strength
        };
        OscillatorSettings {
            oversample_ratio: ratio,
            filter_alpha: alpha,
            smoothing_strength: strength,
        }
    }
}

impl Default for OscillatorSettings {
    /// No oversampling and no filtering: the raw waveform.
    fn default() -> (r: Self)
        ensures
            r.wf(),
            r.ratio() == 1,
            r.alpha() == ONE,
            r.strength() == 0,
    {
        OscillatorSettings { oversample_ratio: 1, filter_alpha: ONE as u32, smoothing_strength: 0 }
    }
}

/// Coefficients of the Taylor series of `sin(pi u / 2)` in `u`, in Q30:
/// `(pi / 2)^k / k!` for `k` = 1, 3, 5, 7, 9, 11.
pub const SIN_C1: u128 = 1686629713;
pub const SIN_C3: u128 = 693598668;
pub const SIN_C5: u128 = 85569306;
pub const SIN_C7: u128 = 5026995;
pub const SIN_C9: u128 = 172272;
pub const SIN_C11: u128 = 3864;

/// `sin(pi u / 2)` for `u` in `[0, FINE_ONE]` (a quarter cycle), all in Q30:
/// the Taylor polynomial up to `u^11` evaluated in Horner form, each term
/// rounded down, capped at `FINE_ONE`. This is an approximation: over the
/// quarter cycle it stays within `1e-7` of the sine.
pub open spec fn sine_quarter(u: int) -> int {
    let f = FINE_ONE as int;
    let u2 = u * u / f;
    let p9 = SIN_C9 - u2 * SIN_C11 / f;
    let p7 = SIN_C7 - u2 * p9 / f;
    let p5 = SIN_C5 - u2 * p7 / f;
    let p3 = SIN_C3 - u2 * p5 / f;
    let p1 = SIN_C1 - u2 * p3 / f;
    let v = u * p1 / f;
    if v > f {
        f
    } else {
        v
    }
}

/// `a / b` rounded to the nearest integer (halves up), for `a >= 0`, `b > 0`.
pub open spec fn div_round(a: int, b: int) -> int {
    (2 * a + b) / (2 * b)
}

/// The raw waveform in Q30 at the point `pos / period` of its cycle.
///
/// Sine approximates `sin(2 pi pos / period)` through `sine_quarter`
/// (within `1e-7`), with the phase taken to 1/2^32 of a cycle; Triangle ramps 0 to 1 and back to 0;
/// Square is +1 on the first half of the cycle and -1 on the second;
/// Sawtooth ramps from -1 towards +1. The ramps are rounded to nearest from
/// the exact phase.
pub open spec fn wave_at(w: Waveform, pos: int, period: int) -> int {
    let f = FINE_ONE as int;
    match w {
        Waveform::Sine => {
            let x = pos * 0x1_0000_0000 / period;
            let quadrant = x / f;
            let u = x % f;
            if quadrant == 0 {
                sine_quarter(u)
            } else if quadrant == 1 {
                sine_quarter(f - u)
            } else if quadrant == 2 {
                -sine_quarter(u)
            } else {
                -sine_quarter(f - u)
            }
        },
        Waveform::Triangle => if 2 * pos < period {
            div_round(2 * f * pos, period)
        } else {
            div_round(2 * f * (period - pos), period)
        },
        Waveform::Square => if 2 * pos < period {
            f
        } else {
            -f
        },
        Waveform::Sawtooth => div_round(2 * f * pos, period) - f,
    }
}

/// Length of one cycle position scale: `ratio` sub-steps per frame.
pub open spec fn cycle_period(ratio: int, sample_rate: int) -> int {
    ratio * sample_rate * 1_000_000
}

/// Where in its cycle a waveform of `freq` microhertz stands at sub-step
/// `sub` of frame `tick`, with `ratio` sub-steps per frame: the fractional
/// part of `time * freq`, as a numerator over `cycle_period(ratio, sample_rate)`.
pub open spec fn cycle_position(freq: int, tick: int, sub: int, ratio: int, sample_rate: int) -> int {
    ((tick * ratio + sub) * freq) % cycle_period(ratio, sample_rate)
}

/// One-pole low-pass filter `prev + alpha (input - prev)` in Q30, with
/// `alpha` in Q16.
pub open spec fn lowpass(input: int, prev: int, alpha: int) -> int {
    let f = FINE_ONE as int;
    let a = alpha * FINE_PER_STEP;
    ((prev + f) * (f - a) + (input + f) * a) / f - f
}

/// Saturating smoothing `x (1 - |x| strength)` in Q30, with `strength` in Q16.
pub open spec fn smooth(x: int, strength: int) -> int {
    let f = FINE_ONE as int;
    let s = strength * FINE_PER_STEP;
    if x >= 0 {
        x - x * x * s / (f * f)
    } else {
        -((-x) - x * x * s / (f * f))
    }
}

/// Running sum of the smoothed sub-samples, and the last filtered one, after
/// the first `k` sub-steps of frame `tick`, in Q30.
pub open spec fn oversampled(
    w: Waveform,
    freq: int,
    tick: int,
    sample_rate: int,
    q: OscillatorSettings,
    k: nat,
) -> (int, int)
    decreases k,
{
    if k == 0 {
        (0, 0)
    } else {
        let (sum, prev) = oversampled(w, freq, tick, sample_rate, q, (k - 1) as nat);
        let raw = wave_at(
            w,
            cycle_position(freq, tick, k - 1, q.ratio(), sample_rate),
            cycle_period(q.ratio(), sample_rate),
        );
        let filtered = lowpass(raw, prev, q.alpha());
        (sum + smooth(filtered, q.strength()), filtered)
    }
}

/// The oscillator's output for frame `tick` in Q30: without oversampling
/// the raw waveform; with it, the mean of the filtered and smoothed
/// sub-samples.
pub open spec fn waveform_fine(
    w: Waveform,
    freq: int,
    tick: int,
    sample_rate: int,
    q: OscillatorSettings,
) -> int {
    let r = q.ratio();
    if r == 1 {
        wave_at(w, cycle_position(freq, tick, 0, 1, sample_rate), cycle_period(1, sample_rate))
    } else {
        (oversampled(w, freq, tick, sample_rate, q, r as nat).0 + r * FINE_ONE) / r - FINE_ONE
    }
}

/// A Q30 value rounded to the nearest Q16 value (halves up).
pub open spec fn to_q16(v: int) -> int {
    (v + FINE_ONE + FINE_PER_STEP / 2) / (FINE_PER_STEP as int) - ONE
}

/// The oscillator's output for frame `tick`, in Q16.
pub open spec fn waveform_sample(
    w: Waveform,
    freq: int,
    tick: int,
    sample_rate: int,
    q: OscillatorSettings,
) -> int {
    to_q16(waveform_fine(w, freq, tick, sample_rate, q))
}

/// Rounding a value within `[-FINE_ONE, FINE_ONE]` to Q16 stays within
/// `[-ONE, ONE]`.
pub proof fn lemma_to_q16_bounds(v: int)
    requires
        -FINE_ONE <= v <= FINE_ONE,
    ensures
        -ONE <= to_q16(v) <= ONE,
{
    assert(0 <= (v + FINE_ONE + FINE_PER_STEP / 2) / (FINE_PER_STEP as int) <= 2 * ONE)
        by (nonlinear_arith)
        requires
            -FINE_ONE <= v <= FINE_ONE,
    ;
}

proof fn lemma_sine_quarter_bounds(u: int)
    requires
        0 <= u <= FINE_ONE,
    ensures
        0 <= sine_quarter(u) <= FINE_ONE,
{
    let f = FINE_ONE as int;
    let u2 = u * u / f;
    assert(0 <= u2 <= f) by (nonlinear_arith)
        requires
            0 <= u <= f,
            f > 0,
            u2 == u * u / f,
    ;
    lemma_horner_step(u2, SIN_C11 as int);
    let p9 = SIN_C9 - u2 * SIN_C11 / f;
    lemma_horner_step(u2, p9);
    let p7 = SIN_C7 - u2 * p9 / f;
    lemma_horner_step(u2, p7);
    let p5 = SIN_C5 - u2 * p7 / f;
    lemma_horner_step(u2, p5);
    let p3 = SIN_C3 - u2 * p5 / f;
    lemma_horner_step(u2, p3);
    let p1 = SIN_C1 - u2 * p3 / f;
    assert(0 <= u * p1 / f) by (nonlinear_arith)
        requires
            0 <= u,
            0 <= p1,
            f > 0,
    ;
}

proof fn lemma_horner_step(u2: int, p: int)
    requires
        0 <= u2 <= FINE_ONE,
        0 <= p,
    ensures
        0 <= u2 * p / (FINE_ONE as int) <= p,
{
    assert(0 <= u2 * p / (FINE_ONE as int) <= p) by (nonlinear_arith)
        requires
            0 <= u2 <= FINE_ONE,
            0 <= p,
    ;
}

/// Every raw waveform stays within `[-FINE_ONE, FINE_ONE]`.
pub proof fn lemma_wave_at_bounds(w: Waveform, pos: int, period: int)
    requires
        0 <= pos < period,
    ensures
        -FINE_ONE <= wave_at(w, pos, period) <= FINE_ONE,
{
    let f = FINE_ONE as int;
    match w {
        Waveform::Sine => {
            let x = pos * 0x1_0000_0000 / period;
            assert(0 <= x < 0x1_0000_0000) by (nonlinear_arith)
                requires
                    0 <= pos < period,
                    x == pos * 0x1_0000_0000 / period,
            ;
            let u = x % f;
            lemma_sine_quarter_bounds(u);
            lemma_sine_quarter_bounds(f - u);
        },
        Waveform::Triangle => {
            if 2 * pos < period {
                lemma_round_ramp_bound(2 * f * pos, period);
            } else {
                lemma_round_ramp_bound(2 * f * (period - pos), period);
            }
        },
        Waveform::Square => {},
        Waveform::Sawtooth => {
            assert(2 * f * pos <= 2 * f * period) by (nonlinear_arith)
                requires
                    0 <= pos < period,
                    f > 0,
            ;
            assert(0 <= div_round(2 * f * pos, period) <= 2 * f) by (nonlinear_arith)
                requires
                    0 <= 2 * f * pos,
                    2 * f * pos < 2 * f * period,
                    period > 0,
                    f > 0,
            ;
        },
    }
}

proof fn lemma_round_ramp_bound(a: int, period: int)
    requires
        0 <= a,
        2 * a <= 2 * FINE_ONE * period,
        a <= FINE_ONE * period,
        period > 0,
    ensures
        0 <= div_round(a, period) <= FINE_ONE,
{
    assert(0 <= div_round(a, period) <= FINE_ONE) by (nonlinear_arith)
        requires
            0 <= a <= FINE_ONE * period,
            period > 0,
    ;
}

proof fn lemma_lowpass_bounds(input: int, prev: int, alpha: int)
    requires
        -FINE_ONE <= input <= FINE_ONE,
        -FINE_ONE <= prev <= FINE_ONE,
        0 <= alpha <= ONE,
    ensures
        -FINE_ONE <= lowpass(input, prev, alpha) <= FINE_ONE,
{
    let f = FINE_ONE as int;
    let a = alpha * FINE_PER_STEP;
    assert(0 <= a <= f);
    let n = (prev + f) * (f - a) + (input + f) * a;
    assert(0 <= n <= 2 * f * f) by (nonlinear_arith)
        requires
            n == (prev + f) * (f - a) + (input + f) * a,
            0 <= prev + f <= 2 * f,
            0 <= input + f <= 2 * f,
            0 <= a <= f,
    ;
    assert(0 <= n / f <= 2 * f) by (nonlinear_arith)
        requires
            0 <= n <= 2 * f * f,
            f > 0,
    ;
}

proof fn lemma_smooth_bounds(x: int, strength: int)
    requires
        -FINE_ONE <= x <= FINE_ONE,
        0 <= strength <= ONE / 2,
    ensures
        -FINE_ONE <= smooth(x, strength) <= FINE_ONE,
{
    let f = FINE_ONE as int;
    let s = strength * FINE_PER_STEP;
    assert(0 <= s <= f / 2);
    let m = if x >= 0 { x } else { -x };
    assert(x * x == m * m) by (nonlinear_arith)
        requires
            m == x || m == -x,
    ;
    assert(0 <= m * m * s <= m * f * f) by (nonlinear_arith)
        requires
            0 <= m <= f,
            0 <= s <= f / 2,
            f > 0,
    ;
    assert(0 <= m * m * s / (f * f) <= m) by (nonlinear_arith)
        requires
            0 <= m * m * s <= m * f * f,
            f > 0,
    ;
}

/// Time may be reduced modulo a million seconds' worth of frames without
/// moving the cycle position: every frequency in microhertz completes a
/// whole number of cycles in that span.
pub proof fn lemma_cycle_position_periodic(freq: int, tick: int, sub: int, ratio: int, sample_rate: int)
    requires
        0 <= freq,
        0 <= tick,
        0 <= sub,
        1 <= ratio,
        1 <= sample_rate,
    ensures
        cycle_position(freq, tick, sub, ratio, sample_rate) == cycle_position(
            freq,
            tick % (sample_rate * 1_000_000),
            sub,
            ratio,
            sample_rate,
        ),
{
    let span = sample_rate * 1_000_000;
    let period = cycle_period(ratio, sample_rate);
    assert(period == ratio * span) by (nonlinear_arith)
        requires
            span == sample_rate * 1_000_000,
            period == ratio * sample_rate * 1_000_000,
    ;
    let q = tick / span;
    let rest = tick % span;
    vstd::arithmetic::div_mod::lemma_fundamental_div_mod(tick, span);
    let x = (rest * ratio + sub) * freq;
    assert((tick * ratio + sub) * freq == period * (q * freq) + x) by (nonlinear_arith)
        requires
            tick == span * q + rest,
            period == ratio * span,
            x == (rest * ratio + sub) * freq,
    ;
    assert(period > 0) by (nonlinear_arith)
        requires
            ratio >= 1,
            span >= 1000000,
            period == ratio * span,
    ;
    vstd::arithmetic::div_mod::lemma_mod_multiples_vanish(q * freq, x, period);
}

proof fn lemma_period_positive(ratio: int, sample_rate: int)
    requires
        1 <= ratio,
        1 <= sample_rate,
    ensures
        cycle_period(ratio, sample_rate) >= 1,
{
    assert(ratio * sample_rate * 1_000_000 >= 1) by (nonlinear_arith)
        requires
            1 <= ratio,
            1 <= sample_rate,
    ;
}

proof fn lemma_oversampled_bounds(
    w: Waveform,
    freq: int,
    tick: int,
    sample_rate: int,
    q: OscillatorSettings,
    k: nat,
)
    requires
        0 <= freq,
        0 <= tick,
        1 <= sample_rate,
    ensures
        -k * FINE_ONE <= oversampled(w, freq, tick, sample_rate, q, k).0 <= k * FINE_ONE,
        -FINE_ONE <= oversampled(w, freq, tick, sample_rate, q, k).1 <= FINE_ONE,
    decreases k,
{
    if k > 0 {
        lemma_oversampled_bounds(w, freq, tick, sample_rate, q, (k - 1) as nat);
        let (sum, prev) = oversampled(w, freq, tick, sample_rate, q, (k - 1) as nat);
        lemma_period_positive(q.ratio(), sample_rate);
        let period = cycle_period(q.ratio(), sample_rate);
        let pos = cycle_position(freq, tick, k - 1, q.ratio(), sample_rate);
        lemma_wave_at_bounds(w, pos, period);
        let raw = wave_at(w, pos, period);
        lemma_lowpass_bounds(raw, prev, q.alpha());
        lemma_smooth_bounds(lowpass(raw, prev, q.alpha()), q.strength());
    }
}

/// The oscillator's internal value lies within `[-FINE_ONE, FINE_ONE]`.
pub proof fn lemma_waveform_fine_bounds(
    w: Waveform,
    freq: int,
    tick: int,
    sample_rate: int,
    q: OscillatorSettings,
)
    requires
        0 <= freq,
        0 <= tick,
        1 <= sample_rate,
    ensures
        -FINE_ONE <= waveform_fine(w, freq, tick, sample_rate, q) <= FINE_ONE,
{
    let r = q.ratio();
    lemma_period_positive(r, sample_rate);
    lemma_period_positive(1, sample_rate);
    if r == 1 {
        lemma_wave_at_bounds(
            w,
            cycle_position(freq, tick, 0, 1, sample_rate),
            cycle_period(1, sample_rate),
        );
    } else {
        lemma_oversampled_bounds(w, freq, tick, sample_rate, q, r as nat);
        let sum = oversampled(w, freq, tick, sample_rate, q, r as nat).0;
        assert(0 <= (sum + r * FINE_ONE) / r <= 2 * FINE_ONE) by (nonlinear_arith)
            requires
                -r * FINE_ONE <= sum <= r * FINE_ONE,
                r >= 1,
        ;
    }
}

/// The oscillator's output lies within `[-ONE, ONE]` for every waveform,
/// frequency and instant.
pub proof fn lemma_waveform_sample_bounds(
    w: Waveform,
    freq: int,
    tick: int,
    sample_rate: int,
    q: OscillatorSettings,
)
    requires
        0 <= freq,
        0 <= tick,
        1 <= sample_rate,
    ensures
        -ONE <= waveform_sample(w, freq, tick, sample_rate, q) <= ONE,
{
    lemma_waveform_fine_bounds(w, freq, tick, sample_rate, q);
    lemma_to_q16_bounds(waveform_fine(w, freq, tick, sample_rate, q));
}

fn sine_quarter_value(u: u128) -> (r: i64)
    requires
        u <= FINE_ONE,
    ensures
        r == sine_quarter(u as int),
        0 <= r <= FINE_ONE,
{
    proof {
        lemma_sine_quarter_bounds(u as int);
    }
    let f: u128 = FINE_ONE as u128;
    proof {
        assert(u * u <= f * f) by (nonlinear_arith)
            requires
                u <= f,
        ;
        assert(u * u / (f as int) <= f) by (nonlinear_arith)
            requires
                u * u <= f * f,
                f > 0,
        ;
    }
    let u2: u128 = u * u / f;
    proof {
        lemma_horner_step(u2 as int, SIN_C11 as int);
    }
    let p9: u128 = SIN_C9 - u2 * SIN_C11 / f;
    proof {
        lemma_horner_step(u2 as int, p9 as int);
        assert(u2 * p9 <= f * SIN_C9) by (nonlinear_arith)
            requires
                u2 <= f,
                p9 <= SIN_C9,
        ;
    }
    let p7: u128 = SIN_C7 - u2 * p9 / f;
    proof {
        lemma_horner_step(u2 as int, p7 as int);
        assert(u2 * p7 <= f * SIN_C7) by (nonlinear_arith)
            requires
                u2 <= f,
                p7 <= SIN_C7,
        ;
    }
    let p5: u128 = SIN_C5 - u2 * p7 / f;
    proof {
        lemma_horner_step(u2 as int, p5 as int);
        assert(u2 * p5 <= f * SIN_C5) by (nonlinear_arith)
            requires
                u2 <= f,
                p5 <= SIN_C5,
        ;
    }
    let p3: u128 = SIN_C3 - u2 * p5 / f;
    proof {
        lemma_horner_step(u2 as int, p3 as int);
        assert(u2 * p3 <= f * SIN_C3) by (nonlinear_arith)
            requires
                u2 <= f,
                p3 <= SIN_C3,
        ;
    }
    let p1: u128 = SIN_C1 - u2 * p3 / f;
    proof {
        assert(u * p1 <= f * SIN_C1) by (nonlinear_arith)
            requires
                u <= f,
                p1 <= SIN_C1,
        ;
    }
    let v: u128 = u * p1 / f;
    if v > f {
        FINE_ONE
    } else {
        v as i64
    }
}

/// The raw waveform at cycle position `pos / period`, in Q30.
fn wave_value(w: Waveform, pos: u128, period: u128) -> (r: i64)
    requires
        pos < period,
        period <= 16 * (768000 * 1_000_000),
    ensures
        r == wave_at(w, pos as int, period as int),
        -FINE_ONE <= r <= FINE_ONE,
{
    proof {
        lemma_wave_at_bounds(w, pos as int, period as int);
    }
    let f: u128 = FINE_ONE as u128;
    proof {
        assert(pos * 0x1_0000_0000 <= period * 0x1_0000_0000) by (nonlinear_arith)
            requires
                pos < period,
        ;
        assert(2 * f * period <= 2 * f * (16 * (768000 * 1_000_000))) by (nonlinear_arith)
            requires
                period <= 16 * (768000 * 1_000_000),
        ;
        assert(2 * f * pos <= 2 * f * period) by (nonlinear_arith)
            requires
                pos < period,
        ;
    }
    match w {
        Waveform::Sine => {
            let x: u128 = pos * 0x1_0000_0000 / period;
            let quadrant = x / f;
            let u = x % f;
            if quadrant == 0 {
                sine_quarter_value(u)
            } else if quadrant == 1 {
                sine_quarter_value(f - u)
            } else if quadrant == 2 {
                -sine_quarter_value(u)
            } else {
                -sine_quarter_value(f - u)
            }
        },
        Waveform::Triangle => {
            if 2 * pos < period {
                ((2 * (2 * f * pos) + period) / (2 * period)) as i64
            } else {
                proof {
                    assert(2 * f * (period - pos) <= 2 * f * period) by (nonlinear_arith)
                        requires
                            pos < period,
                    ;
                }
                ((2 * (2 * f * (period - pos)) + period) / (2 * period)) as i64
            }
        },
        Waveform::Square => {
            if 2 * pos < period {
                FINE_ONE
            } else {
                -FINE_ONE
            }
        },
        Waveform::Sawtooth => ((2 * (2 * f * pos) + period) / (2 * period)) as i64 - FINE_ONE,
    }
}

/// The smoothing step on a filtered sub-sample, in Q30.
fn smooth_value(x: i64, strength: i64) -> (r: i64)
    requires
        -FINE_ONE <= x <= FINE_ONE,
        0 <= strength <= ONE / 2,
    ensures
        r == smooth(x as int, strength as int),
        -FINE_ONE <= r <= FINE_ONE,
{
    proof {
        lemma_smooth_bounds(x as int, strength as int);
    }
    let m: u128 = if x >= 0 {
        x as u128
    } else {
        (-x) as u128
    };
    let s: u128 = strength as u128 * FINE_PER_STEP as u128;
    proof {
        assert(m * m * s == x * x * s) by (nonlinear_arith)
            requires
                m == x || m == -x,
        ;
        assert(m * m <= FINE_ONE * FINE_ONE) by (nonlinear_arith)
            requires
                m <= FINE_ONE,
        ;
        assert(m * m * s <= FINE_ONE * FINE_ONE * FINE_ONE) by (nonlinear_arith)
            requires
                m * m <= FINE_ONE * FINE_ONE,
                s <= FINE_ONE,
        ;
    }
    let d: u128 = m * m * s / (FINE_ONE as u128 * FINE_ONE as u128);
    proof {
        assert(m * m * s <= m * FINE_ONE * FINE_ONE) by (nonlinear_arith)
            requires
                m <= FINE_ONE,
                s <= FINE_ONE / 2,
        ;
        assert(d <= m) by (nonlinear_arith)
            requires
                d == m * m * s / (FINE_ONE * FINE_ONE),
                m * m * s <= m * FINE_ONE * FINE_ONE,
        ;
    }
    if x >= 0 {
        (m - d) as i64
    } else {
        -((m - d) as i64)
    }
}

/// The cycle position of sub-step `sub` of frame `t`, reduced to the span
/// over which every frequency in microhertz repeats.
fn position_value(frequency: u64, t: u64, sub: u64, ratio: u64, sample_rate: u32) -> (r: (u128, u128))
    requires
        frequency <= MAX_FREQUENCY_UHZ,
        1 <= sample_rate <= MAX_SAMPLE_RATE,
        1 <= ratio <= MAX_OVERSAMPLE,
        sub < ratio,
    ensures
        r.0 == cycle_position(frequency as int, t as int, sub as int, ratio as int, sample_rate as int),
        r.1 == cycle_period(ratio as int, sample_rate as int),
        r.0 < r.1,
        r.1 <= 16 * (768000 * 1_000_000),
{
    let span: u128 = sample_rate as u128 * 1_000_000;
    let tick: u128 = t as u128 % span;
    proof {
        lemma_cycle_position_periodic(frequency as int, t as int, sub as int, ratio as int, sample_rate as int);
        lemma_period_positive(ratio as int, sample_rate as int);
        assert(ratio * span <= 16 * (768000 * 1_000_000)) by (nonlinear_arith)
            requires
                ratio <= 16,
                span <= 768000 * 1_000_000,
        ;
        assert(ratio * span == ratio * sample_rate * 1_000_000) by (nonlinear_arith)
            requires
                span == sample_rate * 1_000_000,
        ;
        assert(tick * ratio + sub <= 16 * (768000 * 1_000_000)) by (nonlinear_arith)
            requires
                tick < span,
                span <= 768000 * 1_000_000,
                ratio <= 16,
                sub < ratio,
        ;
        assert((tick * ratio + sub) * frequency <= 16 * (768000 * 1_000_000) * MAX_FREQUENCY_UHZ)
            by (nonlinear_arith)
            requires
                tick * ratio + sub <= 16 * (768000 * 1_000_000),
                frequency <= MAX_FREQUENCY_UHZ,
        ;
    }
    let period: u128 = ratio as u128 * span;
    let pos: u128 = ((tick * ratio as u128 + sub as u128) * frequency as u128) % period;
    (pos, period)
}

/// The oscillator's value at frame `t`, in Q30.
pub(crate) fn generate_fine(
    waveform: Waveform,
    frequency: u64,
    t: u64,
    sample_rate: u32,
    settings: &OscillatorSettings,
) -> (r: i64)
    requires
        frequency <= MAX_FREQUENCY_UHZ,
        1 <= sample_rate <= MAX_SAMPLE_RATE,
    ensures
        r == waveform_fine(waveform, frequency as int, t as int, sample_rate as int, *settings),
        -FINE_ONE <= r <= FINE_ONE,
{
    let ratio: u64 = if settings.oversample_ratio < 1 {
        1
    } else if settings.oversample_ratio > MAX_OVERSAMPLE {
        MAX_OVERSAMPLE as u64
    } else {
        settings.oversample_ratio as u64
    };
    if ratio == 1 {
        let (pos, period) = position_value(frequency, t, 0, 1, sample_rate);
        return wave_value(waveform, pos, period);
    }
    let alpha: i64 = if settings.filter_alpha as i64 > ONE {
        ONE
    } else {
        settings.filter_alpha as i64
    };
    let strength: i64 = if settings.smoothing_strength as i64 > ONE / 2 {
        ONE / 2
    } else {
        settings.smoothing_strength as i64
    };
    let ghost q = *settings;
    let mut sum: i64 = 0;
    let mut prev: i64 = 0;
    let mut i: u64 = 0;
    while i < ratio
        invariant
            ratio == q.ratio(),
            alpha == q.alpha(),
            strength == q.strength(),
            q == *settings,
            0 <= i <= ratio,
            2 <= ratio <= MAX_OVERSAMPLE,
            1 <= sample_rate <= MAX_SAMPLE_RATE,
            frequency <= MAX_FREQUENCY_UHZ,
            (sum as int, prev as int) == oversampled(
                waveform,
                frequency as int,
                t as int,
                sample_rate as int,
                q,
                i as nat,
            ),
            -i * FINE_ONE <= sum <= i * FINE_ONE,
            -FINE_ONE <= prev <= FINE_ONE,
        decreases ratio - i,
    {
        let (pos, period) = position_value(frequency, t, i, ratio, sample_rate);
        let raw = wave_value(waveform, pos, period);
        proof {
            lemma_lowpass_bounds(raw as int, prev as int, alpha as int);
        }
        let f: u128 = FINE_ONE as u128;
        let a: u128 = alpha as u128 * FINE_PER_STEP as u128;
        let n: u128 = (prev + FINE_ONE) as u128 * (f - a) + (raw + FINE_ONE) as u128 * a;
        let filtered: i64 = (n / f) as i64 - FINE_ONE;
        let smoothed = smooth_value(filtered, strength);
        sum = sum + smoothed;
        prev = filtered;
        i = i + 1;
    }
    proof {
        assert(0 <= (sum + ratio * FINE_ONE) / (ratio as int) <= 2 * FINE_ONE) by (nonlinear_arith)
            requires
                -ratio * FINE_ONE <= sum <= ratio * FINE_ONE,
                ratio >= 1,
        ;
    }
    (((sum + ratio as i64 * FINE_ONE) as u64 / ratio) as i64 - FINE_ONE)
}

/// A Q30 value rounded to the nearest Q16 value.
pub(crate) fn round_to_q16(v: i64) -> (r: i32)
    requires
        -FINE_ONE <= v <= FINE_ONE,
    ensures
        r == to_q16(v as int),
        -ONE <= r <= ONE,
{
    proof {
        lemma_to_q16_bounds(v as int);
    }
    (((v + FINE_ONE + FINE_PER_STEP / 2) as u64 / FINE_PER_STEP as u64) as i64 - ONE) as i32
}

/// One output sample of the oscillator at frame `t` (Q16, within `[-ONE, ONE]`).
///
/// `frequency` is in microhertz. Without oversampling this is the raw
/// waveform at the frame's phase. With an oversampling factor `r > 1` the
/// waveform is evaluated at `r` evenly spaced instants within the frame;
/// each sub-sample goes through the low-pass filter and the smoothing step,
/// and the smoothed sub-samples are averaged. The work is done in Q30 and
/// rounded to Q16 once, at the end. Time is reduced modulo a million
/// seconds before use, which leaves the phase unchanged, so no precision is
/// lost however long the oscillator runs.
pub fn generate_waveform(
    waveform: Waveform,
    frequency: u64,
    t: u64,
    sample_rate: u32,
    settings: &OscillatorSettings,
) -> (r: i32)
    requires
        frequency <= MAX_FREQUENCY_UHZ,
        1 <= sample_rate <= MAX_SAMPLE_RATE,
    ensures
        r == waveform_sample(waveform, frequency as int, t as int, sample_rate as int, *settings),
        -ONE <= r <= ONE,
{
    let v = generate_fine(waveform, frequency, t, sample_rate, settings);
    round_to_q16(v)
}

} // verus!
