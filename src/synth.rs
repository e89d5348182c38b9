use vstd::prelude::*;

use crate::control::ControlState;
use crate::envelope::{EnvelopeManager, EnvelopeManagerModel, LEVEL_ONE, LEVEL_PER_STEP};
use crate::oscillator::{MAX_SAMPLE_RATE, ONE};
use crate::unison::{generate_unison, unison_sample, MAX_BASE_FREQUENCY_UHZ};

verus! {

/// What the engine is: its envelopes, the frame counter that drives the
/// oscillators, the last positive frequency, and the sample rate.
pub struct SynthEngineModel {
    pub envelopes: EnvelopeManagerModel,
    pub tick: int,
    pub last_frequency: int,
    pub sample_rate: int,
}

/// Frames after which the frame counter wraps: a million seconds. Every
/// frequency in microhertz completes whole cycles in that span, so the wrap
/// leaves the phase unchanged.
pub open spec fn tick_span(sample_rate: int) -> int {
    sample_rate * 1_000_000
}

/// Gain at frame `i` of a buffer of `len` frames: a straight line from the
/// envelope's level at the start of the buffer to its level at the end.
pub open spec fn gain_at(start: int, end: int, i: int, len: int) -> int {
    (start * (len - i) + end * i) / len
}

/// A Q16 sample scaled by a Q16 gain, rounded toward zero.
pub open spec fn apply_gain(x: int, g: int) -> int {
    if x >= 0 {
        x * g / (ONE as int)
    } else {
        -((-x) * g / (ONE as int))
    }
}

/// One output frame: the unison stack at frequency `f` scaled by gain `g`;
/// silence where either is 0.
pub open spec fn frame_sample(c: ControlState, f: int, t: int, sample_rate: int, g: int) -> int {
    if g > 0 && f > 0 {
        apply_gain(unison_sample(c.unison, f, t, sample_rate, c.quality), g)
    } else {
        0
    }
}

/// The frequency the engine plays: the control plane's while positive
/// (capped at the highest base frequency), else the last positive one, so
/// that a release keeps its pitch.
pub open spec fn held_frequency(last: int, c: ControlState) -> int {
    if c.frequency > 0 {
        if c.frequency > MAX_BASE_FREQUENCY_UHZ {
            MAX_BASE_FREQUENCY_UHZ as int
        } else {
            c.frequency as int
        }
    } else {
        last
    }
}

/// The envelopes once the snapshot's parameters and note are applied: a
/// held note is started (which is nothing new for the note already
/// playing), and no note means a release.
pub open spec fn gated(e: EnvelopeManagerModel, c: ControlState) -> EnvelopeManagerModel {
    let p = e.with_params_all(c.envelope);
    match c.note {
        Some(id) => p.started_all(id),
        None => p.ended_all(),
    }
}

/// The real-time part of the synthesizer: fills output buffers from
/// snapshots of the control state.
pub struct SynthEngine {
    envelopes: EnvelopeManager,
    tick: u64,
    last_frequency: u64,
    sample_rate: u32,
}

impl View for SynthEngine {
    type V = SynthEngineModel;

    closed spec fn view(&self) -> SynthEngineModel {
        SynthEngineModel {
            envelopes: self.envelopes@,
            tick: self.tick as int,
            last_frequency: self.last_frequency as int,
            sample_rate: self.sample_rate as int,
        }
    }
}

fn scale_sample(x: i32, g: u32) -> (r: i32)
    requires
        -ONE <= x <= ONE,
        g <= ONE,
    ensures
        r == apply_gain(x as int, g as int),
        -ONE <= r <= ONE,
{
    let m: u64 = if x >= 0 {
        x as u64
    } else {
        (-(x as i64)) as u64
    };
    proof {
        assert(m * g <= ONE * ONE) by (nonlinear_arith)
            requires
                m <= ONE,
                g <= ONE,
        ;
        assert(m * g / (ONE as int) <= ONE) by (nonlinear_arith)
            requires
                m * g <= ONE * ONE,
        ;
    }
    let s = (m * g as u64 / ONE as u64) as i32;
    if x >= 0 {
        s
    } else {
        -s
    }
}

impl SynthEngine {
    pub open spec fn wf(&self) -> bool {
        &&& self@.envelopes.wf()
        &&& 1 <= self@.sample_rate <= MAX_SAMPLE_RATE
        &&& 0 <= self@.tick < tick_span(self@.sample_rate)
        &&& 0 <= self@.last_frequency <= MAX_BASE_FREQUENCY_UHZ
        &&& self@.envelopes.sample_rate == self@.sample_rate
    }

    /// A silent engine at `sample_rate` (clamped into `[1, MAX_SAMPLE_RATE]`),
    /// with one envelope.
    pub fn new(sample_rate: u32) -> (r: Self)
        ensures
            r.wf(),
            r@.tick == 0,
            r@.last_frequency == 0,
            r@.sample_rate == crate::envelope::clamp_rate(sample_rate),
            r@.envelopes.envelopes.len() == 1,
            r@.envelopes.level() == 0,
    {
        let envelopes = EnvelopeManager::new(sample_rate);
        let rate = if sample_rate < 1 {
            1
        } else if sample_rate > MAX_SAMPLE_RATE {
            MAX_SAMPLE_RATE
        } else {
            sample_rate
        };
        SynthEngine { envelopes, tick: 0, last_frequency: 0, sample_rate: rate }
    }

    /// Level of the engine's first envelope, in Q16 (rounded down).
    pub fn level(&self) -> (r: u32)
        requires
            self.wf(),
        ensures
            r == self@.envelopes.level() / LEVEL_PER_STEP as int,
            r <= ONE,
    {
        (self.envelopes.get_value(0) / LEVEL_PER_STEP) as u32
    }

    /// Fills `out` with the next `out.len()` frames.
    ///
    /// The snapshot's envelope parameters and note are applied, the
    /// envelopes are advanced once by the whole buffer, and the gain is
    /// interpolated linearly between their levels before and after. Each
    /// frame is the unison stack at the held frequency, scaled by that
    /// gain; the frame counter then moves on by the buffer's length,
    /// wrapping where the phase does not change.
    pub fn render(&mut self, control: &ControlState, out: &mut Vec<i32>)
        requires
            old(self).wf(),
            old(out).len() <= u32::MAX,
        ensures
            final(self).wf(),
            final(out).len() == old(out).len(),
            forall|i: int| 0 <= i < old(out).len() ==> -ONE <= #[trigger] final(out)@[i] <= ONE,
            ({
                let m = old(self)@;
                let len = old(out).len() as int;
                let f = held_frequency(m.last_frequency, *control);
                let e1 = gated(m.envelopes, *control);
                let e2 = e1.advanced_all(len);
                &&& final(self)@ == (SynthEngineModel {
                    envelopes: e2,
                    tick: (m.tick + len) % tick_span(m.sample_rate),
                    last_frequency: f,
                    sample_rate: m.sample_rate,
                })
                &&& forall|i: int|
                    0 <= i < len ==> #[trigger] final(out)@[i] == frame_sample(
                        *control,
                        f,
                        (m.tick + i) % tick_span(m.sample_rate),
                        m.sample_rate,
                        gain_at(
                            e1.level() / LEVEL_PER_STEP as int,
                            e2.level() / LEVEL_PER_STEP as int,
                            i,
                            len,
                        ),
                    )
            }),
    {
        let sr = self.sample_rate;
        let span: u64 = sr as u64 * 1_000_000;
        let f: u64 = if control.frequency > 0 {
            if control.frequency > MAX_BASE_FREQUENCY_UHZ {
                MAX_BASE_FREQUENCY_UHZ
            } else {
                control.frequency
            }
        } else {
            self.last_frequency
        };
        self.last_frequency = f;
        self.envelopes.set_params(control.envelope);
        match control.note {
            Some(id) => self.envelopes.start_all(id),
            None => self.envelopes.end_all(),
        }
        let start = (self.envelopes.get_value(0) / LEVEL_PER_STEP) as u32;
        let len: usize = out.len();
        self.envelopes.update_all(len as u32);
        let end = (self.envelopes.get_value(0) / LEVEL_PER_STEP) as u32;
        let ghost t0 = self.tick as int;
        proof {
            vstd::arithmetic::div_mod::lemma_fundamental_div_mod_converse_mod(t0, span as int, 0, t0);
        }
        let mut tick: u64 = self.tick;
        let mut i: usize = 0;
        while i < len
            invariant
                out.len() == len,
                len <= u32::MAX,
                0 <= i <= len,
                span == tick_span(sr as int),
                1 <= sr <= MAX_SAMPLE_RATE,
                0 <= t0 < span,
                tick == (t0 + i) % (span as int),
                f <= MAX_BASE_FREQUENCY_UHZ,
                start <= ONE,
                end <= ONE,
                forall|j: int| 0 <= j < i ==> -ONE <= #[trigger] out@[j] <= ONE,
                forall|j: int|
                    0 <= j < i ==> #[trigger] out@[j] == frame_sample(
                        *control,
                        f as int,
                        (t0 + j) % (span as int),
                        sr as int,
                        gain_at(start as int, end as int, j, len as int),
                    ),
            decreases len - i,
        {
            proof {
                assert(start * (len - i) + end * i <= ONE * len) by (nonlinear_arith)
                    requires
                        start <= ONE,
                        end <= ONE,
                        i <= len,
                ;
                assert(ONE * len <= ONE * u32::MAX) by (nonlinear_arith)
                    requires
                        len <= u32::MAX,
                ;
                assert((start * (len - i) + end * i) / (len as int) <= ONE) by (nonlinear_arith)
                    requires
                        start * (len - i) + end * i <= ONE * len,
                        len > 0,
                ;
                assert(0 <= start * (len - i) + end * i) by (nonlinear_arith)
                    requires
                        i <= len,
                ;
            }
            let g: u32 = ((start as u64 * (len - i) as u64 + end as u64 * i as u64) / len as u64) as u32;
            let v: i32 = if g > 0 && f > 0 {
                let x = generate_unison(&control.unison, f, tick, sr, &control.quality);
                scale_sample(x, g)
            } else {
                0
            };
            out.set(i, v);
            proof {
                let a = (t0 + i) % (span as int);
                let q = (t0 + i) / (span as int);
                vstd::arithmetic::div_mod::lemma_fundamental_div_mod(t0 + i, span as int);
                assert(t0 + i + 1 == q * span + (a + 1)) by (nonlinear_arith)
                    requires
                        t0 + i == span * q + a,
                ;
                if a + 1 < span {
                    vstd::arithmetic::div_mod::lemma_fundamental_div_mod_converse_mod(
                        t0 + i + 1,
                        span as int,
                        q,
                        a + 1,
                    );
                } else {
                    assert((q + 1) * span == q * span + span) by (nonlinear_arith);
                    vstd::arithmetic::div_mod::lemma_fundamental_div_mod_converse_mod(
                        t0 + i + 1,
                        span as int,
                        q + 1,
                        0,
                    );
                }
            }
            tick = if tick + 1 >= span {
                0
            } else {
                tick + 1
            };
            i = i + 1;
        }
        self.tick = tick;
    }
}

} // verus!
