use vstd::prelude::*;

verus! {

/// One octave in thousandths of a cent.
pub const MILLICENTS_PER_OCTAVE: i64 = 1_200_000;

/// Fixed-point scale of frequency ratios (Q30).
pub const RATIO_ONE: u64 = 1073741824;

/// The natural logarithm of two, in Q30.
pub const LN2_Q30: u64 = 744261118;

/// Number of terms of the exponential series that are summed.
pub const SERIES_TERMS: u64 = 12;

/// Highest frequency, in microhertz, that may be shifted in pitch (1 MHz).
pub const MAX_SHIFT_INPUT: u64 = 1_000_000_000_000;

/// `ln(2) * u / octave` in Q30: the exponent of `e` that equals `2^(u / octave)`.
pub open spec fn series_argument(u: int) -> int {
    u * LN2_Q30 / (MILLICENTS_PER_OCTAVE as int)
}

/// Term `k` of the series of `e^(z / RATIO_ONE)` in Q30, each term derived
/// from the one before it as `term * z / (k * RATIO_ONE)`.
pub open spec fn series_term(z: int, k: nat) -> int
    decreases k,
{
    if k == 0 {
        RATIO_ONE as int
    } else {
        series_term(z, (k - 1) as nat) * z / (k * RATIO_ONE)
    }
}

/// Sum of the first `k` terms of the series.
pub open spec fn series_sum(z: int, k: nat) -> int
    decreases k,
{
    if k == 0 {
        0
    } else {
        series_sum(z, (k - 1) as nat) + series_term(z, (k - 1) as nat)
    }
}

/// An approximation of `2^(u / octave)` in Q30, for `u` within one
/// octave: the exponential series of `e^(u ln 2 / octave)` cut after
/// `SERIES_TERMS` terms, each term rounded down. The cut-off leaves a
/// relative error below `1e-10`; the rounding adds at most one Q30 step per
/// term.
pub open spec fn fraction_ratio(u: int) -> int {
    series_sum(series_argument(u), SERIES_TERMS as nat)
}

/// `x * 2^o`, halving with truncation when `o` is negative.
pub open spec fn octave_shift(x: int, o: int) -> int
    decreases (if o >= 0 { o } else { -o }),
{
    if o > 0 {
        2 * octave_shift(x, o - 1)
    } else if o < 0 {
        octave_shift(x, o + 1) / 2
    } else {
        x
    }
}

/// `freq * 2^(millicents / 1200000)`: the frequency moved by the given
/// interval, the part within an octave through `fraction_ratio` rounded to
/// nearest, then whole octaves exactly (halving rounds down).
pub open spec fn shifted_frequency(freq: int, millicents: int) -> int {
    let octaves = millicents / (MILLICENTS_PER_OCTAVE as int);
    let rest = millicents % (MILLICENTS_PER_OCTAVE as int);
    octave_shift((2 * freq * fraction_ratio(rest) + RATIO_ONE) / (2 * RATIO_ONE), octaves)
}

/// A ratio within one octave lies in `[RATIO_ONE, 4 * RATIO_ONE]`.
pub proof fn lemma_fraction_ratio_bounds(u: int)
    requires
        0 <= u < MILLICENTS_PER_OCTAVE,
    ensures
        RATIO_ONE <= fraction_ratio(u) <= 4 * RATIO_ONE,
        u == 0 ==> fraction_ratio(u) == RATIO_ONE,
{
    let z = series_argument(u);
    assert(0 <= z < RATIO_ONE) by (nonlinear_arith)
        requires
            0 <= u < MILLICENTS_PER_OCTAVE,
            z == u * LN2_Q30 / (MILLICENTS_PER_OCTAVE as int),
    ;
    lemma_series_bounds(z, SERIES_TERMS as nat);
    if u == 0 {
        lemma_series_zero(SERIES_TERMS as nat);
    }
}

proof fn lemma_series_zero(k: nat)
    ensures
        series_sum(0, k) == if k == 0 { 0 } else { RATIO_ONE as int },
        k > 0 ==> series_term(0, k) == 0,
    decreases k,
{
    if k > 0 {
        lemma_series_zero((k - 1) as nat);
    }
}

proof fn lemma_series_bounds(z: int, k: nat)
    requires
        0 <= z < LN2_Q30,
    ensures
        0 <= series_term(z, k) <= RATIO_ONE,
        k >= 1 ==> series_sum(z, k) >= RATIO_ONE,
        series_sum(z, k) + 4 * series_term(z, k) <= 4 * RATIO_ONE,
    decreases k,
{
    if k > 0 {
        lemma_series_bounds(z, (k - 1) as nat);
        let t = series_term(z, (k - 1) as nat);
        let t2 = series_term(z, k);
        let d = k * RATIO_ONE;
        assert(d >= RATIO_ONE) by (nonlinear_arith)
            requires
                d == k * RATIO_ONE,
                k >= 1,
        ;
        assert(0 <= t2 && t2 * d <= t * z) by (nonlinear_arith)
            requires
                0 <= t,
                0 <= z,
                d > 0,
                t2 == t * z / d,
        ;
        assert(4 * t2 <= 3 * t) by (nonlinear_arith)
            requires
                0 <= t2,
                t2 * d <= t * z,
                d >= RATIO_ONE,
                0 <= t,
                0 <= z < LN2_Q30,
        ;
    }
}

/// Moves `freq` (microhertz) by `millicents` thousandths of a cent:
/// `freq * 2^(millicents / 1200000)`.
pub fn shift_frequency(freq: u64, millicents: i64) -> (r: u64)
    requires
        freq <= MAX_SHIFT_INPUT,
        -20 * MILLICENTS_PER_OCTAVE <= millicents < 5 * MILLICENTS_PER_OCTAVE,
    ensures
        r == shifted_frequency(freq as int, millicents as int),
        millicents == 0 ==> r == freq,
        millicents < 0 ==> r <= 4 * freq,
        0 <= millicents < MILLICENTS_PER_OCTAVE ==> r <= 4 * freq,
        r <= 64 * freq,
{
    let (octaves, rest): (i64, i64) = if millicents >= 0 {
        (millicents / MILLICENTS_PER_OCTAVE, millicents % MILLICENTS_PER_OCTAVE)
    } else {
        let n = -millicents;
        let q = n / MILLICENTS_PER_OCTAVE;
        let m = n % MILLICENTS_PER_OCTAVE;
        if m == 0 {
            (-q, 0)
        } else {
            (-q - 1, MILLICENTS_PER_OCTAVE - m)
        }
    };
    assert(octaves as int == millicents as int / (MILLICENTS_PER_OCTAVE as int));
    assert(rest as int == millicents as int % (MILLICENTS_PER_OCTAVE as int));
    let ratio = fraction_ratio_exec(rest as u64);
    proof {
        lemma_fraction_ratio_bounds(rest as int);
        assert(2 * freq * ratio <= 2 * MAX_SHIFT_INPUT * (4 * RATIO_ONE)) by (nonlinear_arith)
            requires
                freq <= MAX_SHIFT_INPUT,
                ratio <= 4 * RATIO_ONE,
        ;
    }
    let scaled: u64 = ((2 * freq as u128 * ratio as u128 + RATIO_ONE as u128) / (2
        * RATIO_ONE as u128)) as u64;
    proof {
        assert(scaled <= 4 * freq) by (nonlinear_arith)
            requires
                scaled == (2 * freq * ratio + RATIO_ONE) / (2 * RATIO_ONE as int),
                ratio <= 4 * RATIO_ONE,
        ;
        if rest == 0 {
            assert(2 * freq * RATIO_ONE + RATIO_ONE == (2 * RATIO_ONE) * freq + RATIO_ONE) by (nonlinear_arith);
            vstd::arithmetic::div_mod::lemma_fundamental_div_mod_converse_div(
                2 * freq * RATIO_ONE + RATIO_ONE,
                2 * RATIO_ONE as int,
                freq as int,
                RATIO_ONE as int,
            );
            assert(scaled == freq);
        }
    }
    let mut x: u64 = scaled;
    if octaves >= 0 {
        let mut j: i64 = 0;
        while j < octaves
            invariant
                0 <= j <= octaves <= 4,
                x == octave_shift(scaled as int, j as int),
                scaled <= 4 * MAX_SHIFT_INPUT,
                x <= scaled * (if j == 0 {
                    1int
                } else if j == 1 {
                    2int
                } else if j == 2 {
                    4int
                } else if j == 3 {
                    8int
                } else {
                    16int
                }),
            decreases octaves - j,
        {
            x = 2 * x;
            j = j + 1;
        }
    } else {
        let mut j: i64 = 0;
        while j > octaves
            invariant
                octaves <= j <= 0,
                x == octave_shift(scaled as int, j as int),
                x <= scaled,
            decreases j - octaves,
        {
            x = x / 2;
            j = j - 1;
        }
    }
    x
}

/// `fraction_ratio(u)`, by summing the series term by term.
fn fraction_ratio_exec(u: u64) -> (r: u64)
    requires
        u < MILLICENTS_PER_OCTAVE,
    ensures
        r == fraction_ratio(u as int),
{
    let z: u64 = u * LN2_Q30 / MILLICENTS_PER_OCTAVE as u64;
    proof {
        assert(z < LN2_Q30) by (nonlinear_arith)
            requires
                u < MILLICENTS_PER_OCTAVE,
                z == u * LN2_Q30 / (MILLICENTS_PER_OCTAVE as int),
        ;
    }
    let mut term: u64 = RATIO_ONE;
    let mut sum: u64 = 0;
    let mut k: u64 = 0;
    while k < SERIES_TERMS
        invariant
            0 <= k <= SERIES_TERMS,
            z < LN2_Q30,
            z == series_argument(u as int),
            term == series_term(z as int, k as nat),
            sum == series_sum(z as int, k as nat),
        decreases SERIES_TERMS - k,
    {
        proof {
            lemma_series_bounds(z as int, k as nat);
            lemma_series_bounds(z as int, (k + 1) as nat);
            assert(term * z <= RATIO_ONE * LN2_Q30) by (nonlinear_arith)
                requires
                    term <= RATIO_ONE,
                    z < LN2_Q30,
            ;
        }
        sum = sum + term;
        term = term * z / ((k + 1) * RATIO_ONE);
        k = k + 1;
    }
    sum
}

/// Moving a frequency by no interval leaves it unchanged.
pub proof fn lemma_shift_by_zero(freq: int)
    ensures
        shifted_frequency(freq, 0) == freq,
{
    lemma_fraction_ratio_bounds(0);
    assert(2 * freq * RATIO_ONE + RATIO_ONE == (2 * RATIO_ONE) * freq + RATIO_ONE) by (nonlinear_arith);
    vstd::arithmetic::div_mod::lemma_fundamental_div_mod_converse_div(
        2 * freq * RATIO_ONE + RATIO_ONE,
        2 * RATIO_ONE as int,
        freq,
        RATIO_ONE as int,
    );
}

} // verus!
