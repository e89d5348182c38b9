use vstd::prelude::*;

use crate::oscillator::{MAX_SAMPLE_RATE, ONE};

verus! {

/// Shortest stage, in microseconds: durations are clamped up to it.
pub const MIN_STAGE_US: u32 = 1;

/// Longest stage, in microseconds (ten seconds).
pub const MAX_STAGE_US: u32 = 10_000_000;

/// Envelope time is counted in units of `1 / (1_000_000 * sample_rate)`
/// seconds: one frame is this many units, and one microsecond is
/// `sample_rate` units, so both convert exactly.
pub const FRAME_UNITS: u64 = 1_000_000;

/// Full scale of an envelope level: levels carry 40 fractional bits.
pub const LEVEL_ONE: u64 = 1_099_511_627_776;

/// Level units per Q16 step.
pub const LEVEL_PER_STEP: u64 = 16_777_216;

/// Longest stage, in time units.
pub const MAX_STAGE_UNITS: u64 = 7_680_000_000_000;

/// Attack, decay and release durations in microseconds, and the sustain
/// level in Q16.
#[derive(Clone, Copy, PartialEq, Eq, Debug, Structural)]
pub struct EnvelopeParams {
    pub attack: u32,
    pub decay: u32,
    pub sustain: u32,
    pub release: u32,
}

pub open spec fn clamp_stage(us: u32) -> u32 {
    if us < MIN_STAGE_US {
        MIN_STAGE_US
    } else if us > MAX_STAGE_US {
        MAX_STAGE_US
    } else {
        us
    }
}

impl EnvelopeParams {
    /// Durations within `[MIN_STAGE_US, MAX_STAGE_US]`, sustain within `[0, ONE]`.
    pub open spec fn wf(self) -> bool {
        MIN_STAGE_US <= self.attack <= MAX_STAGE_US && MIN_STAGE_US <= self.decay <= MAX_STAGE_US
            && MIN_STAGE_US <= self.release <= MAX_STAGE_US && self.sustain <= ONE
    }

    /// The parameters with each value clamped into its domain.
    pub open spec fn clamped(self) -> EnvelopeParams {
        EnvelopeParams {
            attack: clamp_stage(self.attack),
            decay: clamp_stage(self.decay),
            sustain: if self.sustain > ONE {
                ONE as u32
            } else {
                self.sustain
            },
            release: clamp_stage(self.release),
        }
    }

    /// Parameters with each value clamped into its domain.
    pub fn new(attack: u32, decay: u32, sustain: u32, release: u32) -> (r: Self)
        ensures
            r == (EnvelopeParams { attack, decay, sustain, release }).clamped(),
            r.wf(),
    {
        EnvelopeParams { attack, decay, sustain, release }.clamp()
    }

    /// This value with each field clamped into its domain.
    pub fn clamp(self) -> (r: Self)
        ensures
            r == self.clamped(),
            r.wf(),
    {
        EnvelopeParams {
            attack: clamp_stage_exec(self.attack),
            decay: clamp_stage_exec(self.decay),
            sustain: if self.sustain > ONE as u32 {
                ONE as u32
            } else {
                self.sustain
            },
            release: clamp_stage_exec(self.release),
        }
    }
}

fn clamp_stage_exec(us: u32) -> (r: u32)
    ensures
        r == clamp_stage(us),
{
    if us < MIN_STAGE_US {
        MIN_STAGE_US
    } else if us > MAX_STAGE_US {
        MAX_STAGE_US
    } else {
        us
    }
}

impl EnvelopeParams {
    /// Attack 10 ms, decay 100 ms, sustain 0.7, release 200 ms.
    pub open spec fn default_spec() -> EnvelopeParams {
        EnvelopeParams { attack: 10_000, decay: 100_000, sustain: 45875, release: 200_000 }
    }
}

impl Default for EnvelopeParams {
    /// Attack 10 ms, decay 100 ms, sustain 0.7, release 200 ms.
    fn default() -> (r: Self)
        ensures
            r.wf(),
            r == EnvelopeParams::default_spec(),
    {
        EnvelopeParams { attack: 10_000, decay: 100_000, sustain: 45875, release: 200_000 }
    }
}

/// Stage of an envelope.
#[derive(Clone, Copy, PartialEq, Eq, Debug, Structural)]
pub enum EnvelopeState {
    Idle,
    Attack,
    Decay,
    Sustain,
    Release,
}

/// Level during the attack: a straight ramp from 0 up to `LEVEL_ONE` over `len`.
pub open spec fn attack_level(e: int, len: int) -> int {
    LEVEL_ONE * e / len
}

/// Level during the decay: a straight ramp from `LEVEL_ONE` down to `sustain` over `len`.
pub open spec fn decay_level(sustain: int, e: int, len: int) -> int {
    sustain + (LEVEL_ONE - sustain) * (len - e) / len
}

/// Level during the release: a straight ramp from `start` down to 0 over `len`.
pub open spec fn release_level(start: int, e: int, len: int) -> int {
    start * (len - e) / len
}

/// What an envelope is: its stage and level, how far it is into the stage,
/// the levels its ramps start from, the note it plays and its flags.
///
/// `forced` marks a release that a new note forced on the note before it;
/// it lasts one attack length. `pending` marks that the new note's attack
/// waits for that release to end.
pub struct EnvelopeModel {
    pub params: EnvelopeParams,
    pub sample_rate: int,
    pub state: EnvelopeState,
    pub value: int,
    pub phase: int,
    pub sustain_value: int,
    pub release_start_value: int,
    pub note_id: u32,
    pub triggered: bool,
    pub released: bool,
    pub sustaining: bool,
    pub processing: bool,
    pub forced: bool,
    pub pending: bool,
}

impl EnvelopeModel {
    pub open spec fn wf(self) -> bool {
        &&& self.params.wf()
        &&& 1 <= self.sample_rate <= MAX_SAMPLE_RATE
        &&& 0 <= self.value <= LEVEL_ONE
        &&& 0 <= self.sustain_value <= LEVEL_ONE
        &&& 0 <= self.release_start_value <= LEVEL_ONE
        &&& 0 <= self.phase <= MAX_STAGE_UNITS
        &&& self.processing ==> {
            &&& self.triggered
            &&& self.state != EnvelopeState::Idle
            &&& self.sustaining == (self.state == EnvelopeState::Sustain)
            &&& self.released == (self.state == EnvelopeState::Release)
        }
        &&& !self.processing ==> {
            &&& self.state == EnvelopeState::Idle
            &&& !self.triggered
            &&& !self.released
            &&& !self.sustaining
            &&& !self.pending
            &&& !self.forced
            &&& self.value == 0
        }
        &&& self.pending ==> self.forced
        &&& self.forced ==> self.state == EnvelopeState::Release
        &&& (self.processing && self.state == EnvelopeState::Sustain) ==> self.value
            == self.sustain_value
    }

    /// Length of the attack, in time units.
    pub open spec fn attack_len(self) -> int {
        self.params.attack * self.sample_rate
    }

    /// Length of the decay, in time units.
    pub open spec fn decay_len(self) -> int {
        self.params.decay * self.sample_rate
    }

    /// Length of the release, in time units.
    pub open spec fn release_len(self) -> int {
        self.params.release * self.sample_rate
    }

    /// Length of the release under way: a release forced by a new note
    /// lasts as long as an attack, so it falls no faster than the attack
    /// rises; any other release lasts the release time.
    pub open spec fn current_release_len(self) -> int {
        if self.forced {
            self.attack_len()
        } else {
            self.release_len()
        }
    }

    /// Time since the note began while it is held, counted up to the end
    /// of the decay.
    pub open spec fn held_time(self) -> int {
        match self.state {
            EnvelopeState::Attack => self.phase,
            EnvelopeState::Decay => self.attack_len() + self.phase,
            _ => self.attack_len() + self.decay_len(),
        }
    }

    /// Stage of a held note at held time `h`.
    pub open spec fn held_stage(self, h: int) -> EnvelopeState {
        if h < self.attack_len() {
            EnvelopeState::Attack
        } else if h < self.attack_len() + self.decay_len() {
            EnvelopeState::Decay
        } else {
            EnvelopeState::Sustain
        }
    }

    /// Time into the stage of a held note at held time `h`.
    pub open spec fn held_phase(self, h: int) -> int {
        if h < self.attack_len() {
            h
        } else if h < self.attack_len() + self.decay_len() {
            h - self.attack_len()
        } else {
            0
        }
    }

    /// Level of a held note at held time `h`.
    pub open spec fn held_level(self, h: int) -> int {
        if h < self.attack_len() {
            attack_level(h, self.attack_len())
        } else if h < self.attack_len() + self.decay_len() {
            decay_level(self.sustain_value, h - self.attack_len(), self.decay_len())
        } else {
            self.sustain_value
        }
    }

    /// The envelope at rest: silent, with no note and no flag set.
    pub open spec fn idle(self) -> EnvelopeModel {
        EnvelopeModel {
            state: EnvelopeState::Idle,
            value: 0,
            phase: 0,
            release_start_value: 0,
            note_id: 0,
            triggered: false,
            released: false,
            sustaining: false,
            processing: false,
            forced: false,
            pending: false,
            ..self
        }
    }

    /// The attack of note `id` beginning from silence.
    pub open spec fn attacking(self, id: u32) -> EnvelopeModel {
        EnvelopeModel {
            state: EnvelopeState::Attack,
            value: 0,
            phase: 0,
            sustain_value: self.params.sustain * LEVEL_PER_STEP,
            release_start_value: 0,
            note_id: id,
            triggered: true,
            released: false,
            sustaining: false,
            processing: true,
            forced: false,
            pending: false,
            ..self
        }
    }

    /// After `start(id)`: the same note while it is processed changes
    /// nothing. An envelope at rest begins the attack of `id`. An envelope
    /// sounding another note releases it from the present level, which
    /// stays as it is until the next update, and takes `id` as its note:
    /// the attack of `id` begins when that release ends.
    pub open spec fn started(self, id: u32) -> EnvelopeModel {
        if self.note_id == id && self.processing {
            self
        } else if self.processing {
            EnvelopeModel {
                state: EnvelopeState::Release,
                phase: 0,
                release_start_value: self.value,
                note_id: id,
                released: true,
                sustaining: false,
                forced: true,
                pending: true,
                ..self
            }
        } else {
            self.attacking(id)
        }
    }

    /// After `end()`: a note that is held goes into its release from the
    /// present level. During a forced release, the attack waiting for it is
    /// called off and the release runs on as it was, to silence. Anything
    /// else is left as it is.
    pub open spec fn ended(self) -> EnvelopeModel {
        if self.triggered && !self.released && self.processing {
            EnvelopeModel {
                state: EnvelopeState::Release,
                phase: 0,
                release_start_value: self.value,
                released: true,
                sustaining: false,
                ..self
            }
        } else if self.pending {
            EnvelopeModel { pending: false, ..self }
        } else {
            self
        }
    }

    /// After `update(frames)`.
    pub open spec fn advanced(self, frames: int) -> EnvelopeModel {
        if !self.triggered || !self.processing {
            EnvelopeModel { value: 0, released: false, sustaining: false, processing: false, ..self }
        } else {
            match self.state {
                EnvelopeState::Release => {
                    let e = self.phase + frames * FRAME_UNITS;
                    if e < self.current_release_len() {
                        EnvelopeModel {
                            phase: e,
                            value: release_level(
                                self.release_start_value,
                                e,
                                self.current_release_len(),
                            ),
                            ..self
                        }
                    } else if self.pending {
                        self.attacking(self.note_id)
                    } else {
                        self.idle()
                    }
                },
                EnvelopeState::Idle => self.idle(),
                _ => {
                    let end = self.attack_len() + self.decay_len();
                    let h = if self.held_time() + frames * FRAME_UNITS < end {
                        self.held_time() + frames * FRAME_UNITS
                    } else {
                        end
                    };
                    EnvelopeModel {
                        state: self.held_stage(h),
                        phase: self.held_phase(h),
                        value: self.held_level(h),
                        sustaining: self.held_stage(h) == EnvelopeState::Sustain,
                        ..self
                    }
                },
            }
        }
    }

    /// After `set_sample_rate(r)`: the rate, clamped, and nothing else.
    pub open spec fn with_rate(self, sample_rate: u32) -> EnvelopeModel {
        EnvelopeModel { sample_rate: clamp_rate(sample_rate), ..self }
    }

    /// After `set_params(p)`: the parameters are clamped and take effect at
    /// once; a sustaining note moves to the new sustain level.
    pub open spec fn with_params(self, p: EnvelopeParams) -> EnvelopeModel {
        if self.sustaining {
            EnvelopeModel {
                params: p.clamped(),
                sustain_value: p.clamped().sustain * LEVEL_PER_STEP,
                value: p.clamped().sustain * LEVEL_PER_STEP,
                ..self
            }
        } else {
            EnvelopeModel { params: p.clamped(), ..self }
        }
    }
}

/// Clamps a sample rate into `[1, MAX_SAMPLE_RATE]`.
pub open spec fn clamp_rate(sample_rate: u32) -> int {
    if sample_rate < 1 {
        1
    } else if sample_rate > MAX_SAMPLE_RATE {
        MAX_SAMPLE_RATE as int
    } else {
        sample_rate as int
    }
}

fn clamp_rate_exec(sample_rate: u32) -> (r: u32)
    ensures
        r == clamp_rate(sample_rate),
{
    if sample_rate < 1 {
        1
    } else if sample_rate > MAX_SAMPLE_RATE {
        MAX_SAMPLE_RATE
    } else {
        sample_rate
    }
}

/// An ADSR envelope, advanced by whole frames, whose level is a gain with
/// 40 fractional bits.
pub struct Envelope {
    params: EnvelopeParams,
    state: EnvelopeState,
    value: u64,
    sample_rate: u32,
    phase: u64,
    sustain_value: u64,
    release_start_value: u64,
    note_id: u32,
    is_triggered: bool,
    is_released: bool,
    is_sustaining: bool,
    is_processing: bool,
    is_forced: bool,
    is_pending: bool,
}

impl View for Envelope {
    type V = EnvelopeModel;

    closed spec fn view(&self) -> EnvelopeModel {
        EnvelopeModel {
            params: self.params,
            sample_rate: self.sample_rate as int,
            state: self.state,
            value: self.value as int,
            phase: self.phase as int,
            sustain_value: self.sustain_value as int,
            release_start_value: self.release_start_value as int,
            note_id: self.note_id,
            triggered: self.is_triggered,
            released: self.is_released,
            sustaining: self.is_sustaining,
            processing: self.is_processing,
            forced: self.is_forced,
            pending: self.is_pending,
        }
    }
}

impl Envelope {
    pub open spec fn wf(&self) -> bool {
        self@.wf()
    }

    /// A silent envelope with the given parameters and sample rate, both
    /// clamped into their domains.
    pub fn new(params: EnvelopeParams, sample_rate: u32) -> (r: Self)
        ensures
            r.wf(),
            r@.params == params.clamped(),
            r@.sample_rate == clamp_rate(sample_rate),
            r@.state == EnvelopeState::Idle,
            r@.value == 0,
            r@.phase == 0,
            r@.sustain_value == 0,
            r@.release_start_value == 0,
            r@.note_id == 0,
            !r@.triggered,
            !r@.released,
            !r@.sustaining,
            !r@.processing,
            !r@.pending,
            !r@.forced,
    {
        Envelope {
            params: params.clamp(),
            state: EnvelopeState::Idle,
            value: 0,
            sample_rate: clamp_rate_exec(sample_rate),
            phase: 0,
            sustain_value: 0,
            release_start_value: 0,
            note_id: 0,
            is_triggered: false,
            is_released: false,
            is_sustaining: false,
            is_processing: false,
            is_forced: false,
            is_pending: false,
        }
    }

    /// Begins note `note_id`. The same note while it is processed is left
    /// alone. Over another sounding note, that note is first released from
    /// its present level, so the output does not jump, and the attack of
    /// `note_id` begins from silence when the release ends.
    pub fn start(&mut self, note_id: u32)
        requires
            old(self).wf(),
        ensures
            final(self).wf(),
            final(self)@ == old(self)@.started(note_id),
    {
        if self.note_id == note_id && self.is_processing {
            return;
        }
        if self.is_processing {
            self.state = EnvelopeState::Release;
            self.phase = 0;
            self.release_start_value = self.value;
            self.note_id = note_id;
            self.is_released = true;
            self.is_sustaining = false;
            self.is_forced = true;
            self.is_pending = true;
        } else {
            self.begin_attack(note_id);
        }
    }

    /// Begins the attack of note `note_id` from silence.
    fn begin_attack(&mut self, note_id: u32)
        requires
            old(self).wf(),
        ensures
            final(self).wf(),
            final(self)@ == old(self)@.attacking(note_id),
    {
        self.state = EnvelopeState::Attack;
        self.value = 0;
        self.phase = 0;
        self.sustain_value = self.params.sustain as u64 * LEVEL_PER_STEP;
        self.release_start_value = 0;
        self.note_id = note_id;
        self.is_triggered = true;
        self.is_released = false;
        self.is_sustaining = false;
        self.is_processing = true;
        self.is_forced = false;
        self.is_pending = false;
    }

    /// Releases the held note from its present level. During a forced
    /// release it calls off the attack waiting for it and lets the release
    /// run on unchanged.
    pub fn end(&mut self)
        requires
            old(self).wf(),
        ensures
            final(self).wf(),
            final(self)@ == old(self)@.ended(),
    {
        if self.is_pending && !(self.is_triggered && !self.is_released && self.is_processing) {
            self.is_pending = false;
        } else if self.is_triggered && !self.is_released && self.is_processing {
            self.state = EnvelopeState::Release;
            self.phase = 0;
            self.release_start_value = self.value;
            self.is_released = true;
            self.is_sustaining = false;
        }
    }

    /// Present level, with 40 fractional bits (`LEVEL_ONE` is full scale).
    pub fn get_value(&self) -> (r: u64)
        requires
            self.wf(),
        ensures
            r == self@.value,
            r <= LEVEL_ONE,
    {
        self.value
    }

    /// Present stage.
    pub fn state(&self) -> (r: EnvelopeState)
        ensures
            r == self@.state,
    {
        self.state
    }

    /// Replaces the parameters (clamped); a sustaining note moves to the
    /// new sustain level at once.
    pub fn set_params(&mut self, params: EnvelopeParams)
        requires
            old(self).wf(),
        ensures
            final(self).wf(),
            final(self)@ == old(self)@.with_params(params),
    {
        let p = params.clamp();
        self.params = p;
        if self.is_sustaining {
            self.sustain_value = p.sustain as u64 * LEVEL_PER_STEP;
            self.value = p.sustain as u64 * LEVEL_PER_STEP;
        }
    }

    /// Sets the sample rate (clamped into `[1, MAX_SAMPLE_RATE]`).
    pub fn set_sample_rate(&mut self, sample_rate: u32)
        requires
            old(self).wf(),
        ensures
            final(self).wf(),
            final(self)@ == old(self)@.with_rate(sample_rate),
    {
        self.sample_rate = clamp_rate_exec(sample_rate);
    }

    /// Silences the envelope and forgets the note.
    fn go_idle(&mut self)
        requires
            old(self).wf(),
        ensures
            final(self).wf(),
            final(self)@ == old(self)@.idle(),
    {
        self.state = EnvelopeState::Idle;
        self.value = 0;
        self.phase = 0;
        self.release_start_value = 0;
        self.note_id = 0;
        self.is_triggered = false;
        self.is_released = false;
        self.is_sustaining = false;
        self.is_processing = false;
        self.is_forced = false;
        self.is_pending = false;
    }

    /// Advances the envelope by `frames` frames.
    ///
    /// A held note moves along its attack and decay ramps (crossing from
    /// one stage into the next within the call where the time runs out)
    /// and then holds the sustain level; a released note ramps down to 0
    /// and goes idle once the release time has passed. An envelope that is
    /// not processing a note is silenced.
    pub fn update(&mut self, frames: u32)
        requires
            old(self).wf(),
        ensures
            final(self).wf(),
            final(self)@ == old(self)@.advanced(frames as int),
    {
        if !self.is_triggered || !self.is_processing {
            self.value = 0;
            self.is_released = false;
            self.is_sustaining = false;
            self.is_processing = false;
            return;
        }
        let dt: u64 = frames as u64 * FRAME_UNITS;
        let sr: u64 = self.sample_rate as u64;
        proof {
            assert(self.params.attack * sr <= MAX_STAGE_UNITS) by (nonlinear_arith)
                requires
                    self.params.attack <= MAX_STAGE_US,
                    sr <= MAX_SAMPLE_RATE,
            ;
            assert(self.params.decay * sr <= MAX_STAGE_UNITS) by (nonlinear_arith)
                requires
                    self.params.decay <= MAX_STAGE_US,
                    sr <= MAX_SAMPLE_RATE,
            ;
            assert(self.params.release * sr <= MAX_STAGE_UNITS) by (nonlinear_arith)
                requires
                    self.params.release <= MAX_STAGE_US,
                    sr <= MAX_SAMPLE_RATE,
            ;
            assert(self.params.attack * sr >= 1) by (nonlinear_arith)
                requires
                    self.params.attack >= 1,
                    sr >= 1,
            ;
            assert(self.params.decay * sr >= 1) by (nonlinear_arith)
                requires
                    self.params.decay >= 1,
                    sr >= 1,
            ;
            assert(self.params.release * sr >= 1) by (nonlinear_arith)
                requires
                    self.params.release >= 1,
                    sr >= 1,
            ;
        }
        match self.state {
            EnvelopeState::Release => {
                let len: u64 = if self.is_forced {
                    self.params.attack as u64 * sr
                } else {
                    self.params.release as u64 * sr
                };
                let e: u64 = self.phase + dt;
                if e < len {
                    let start = self.release_start_value as u64;
                    proof {
                        assert(start * (len - e) <= LEVEL_ONE * len) by (nonlinear_arith)
                            requires
                                start <= LEVEL_ONE,
                                e < len,
                        ;
                        assert(start * (len - e) / (len as int) <= LEVEL_ONE) by (nonlinear_arith)
                            requires
                                start * (len - e) <= LEVEL_ONE * len,
                                len > 0,
                        ;
                    }
                    self.phase = e;
                    self.value = (start as u128 * (len - e) as u128 / len as u128) as u64;
                } else if self.is_pending {
                    let id = self.note_id;
                    self.begin_attack(id);
                } else {
                    self.go_idle();
                }
            },
            EnvelopeState::Idle => {
                self.go_idle();
            },
            _ => {
                let a: u64 = self.params.attack as u64 * sr;
                let d: u64 = self.params.decay as u64 * sr;
                let end: u64 = a + d;
                let held: u64 = match self.state {
                    EnvelopeState::Attack => self.phase,
                    EnvelopeState::Decay => a + self.phase,
                    _ => end,
                };
                let h: u64 = if held + dt < end {
                    held + dt
                } else {
                    end
                };
                if h < a {
                    proof {
                        assert(LEVEL_ONE * h <= LEVEL_ONE * a) by (nonlinear_arith)
                            requires
                                h < a,
                        ;
                        assert(LEVEL_ONE * a <= LEVEL_ONE * MAX_STAGE_UNITS) by (nonlinear_arith)
                            requires
                                a <= MAX_STAGE_UNITS,
                        ;
                        assert(LEVEL_ONE * h / (a as int) <= LEVEL_ONE) by (nonlinear_arith)
                            requires
                                LEVEL_ONE * h <= LEVEL_ONE * a,
                                a > 0,
                        ;
                    }
                    self.state = EnvelopeState::Attack;
                    self.phase = h;
                    self.value = (LEVEL_ONE as u128 * h as u128 / a as u128) as u64;
                } else if h < end {
                    let sus = self.sustain_value as u64;
                    let e = h - a;
                    proof {
                        assert((LEVEL_ONE - sus) * (d - e) <= (LEVEL_ONE - sus) * d) by (nonlinear_arith)
                            requires
                                sus <= LEVEL_ONE,
                                e < d,
                        ;
                        assert((LEVEL_ONE - sus) * d <= LEVEL_ONE * MAX_STAGE_UNITS) by (nonlinear_arith)
                            requires
                                sus <= LEVEL_ONE,
                                d <= MAX_STAGE_UNITS,
                        ;
                        assert((LEVEL_ONE - sus) * (d - e) / (d as int) <= LEVEL_ONE - sus) by (nonlinear_arith)
                            requires
                                (LEVEL_ONE - sus) * (d - e) <= (LEVEL_ONE - sus) * d,
                                d > 0,
                                sus <= LEVEL_ONE,
                        ;
                    }
                    self.state = EnvelopeState::Decay;
                    self.phase = e;
                    self.value = (sus as u128 + (LEVEL_ONE as u128 - sus as u128) * (d - e) as u128
                        / d as u128) as u64;
                } else {
                    self.state = EnvelopeState::Sustain;
                    self.phase = 0;
                    self.value = self.sustain_value;
                }
                self.is_sustaining = h >= end;
            },
        }
    }

}

/// The envelope after a sequence of updates, one per entry of `steps`
/// (each a number of frames).
pub open spec fn run(m: EnvelopeModel, steps: Seq<nat>) -> EnvelopeModel
    decreases steps.len(),
{
    if steps.len() == 0 {
        m
    } else {
        run(m, steps.drop_last()).advanced(steps.last() as int)
    }
}

/// Frames in a sequence of updates.
pub open spec fn total_frames(steps: Seq<nat>) -> int
    decreases steps.len(),
{
    if steps.len() == 0 {
        0
    } else {
        total_frames(steps.drop_last()) + steps.last()
    }
}

proof fn lemma_total_frames_nonneg(steps: Seq<nat>)
    ensures
        total_frames(steps) >= 0,
    decreases steps.len(),
{
    if steps.len() > 0 {
        lemma_total_frames_nonneg(steps.drop_last());
    }
}

proof fn lemma_stage_lengths(m: EnvelopeModel)
    requires
        m.wf(),
    ensures
        m.attack_len() >= 1,
        m.decay_len() >= 1,
        m.release_len() >= 1,
        m.attack_len() <= MAX_STAGE_UNITS,
        m.decay_len() <= MAX_STAGE_UNITS,
        m.release_len() <= MAX_STAGE_UNITS,
{
    let sr = m.sample_rate;
    assert(m.params.attack * sr >= 1 && m.params.attack * sr <= MAX_STAGE_UNITS) by (nonlinear_arith)
        requires
            1 <= m.params.attack <= MAX_STAGE_US,
            1 <= sr <= MAX_SAMPLE_RATE,
    ;
    assert(m.params.decay * sr >= 1 && m.params.decay * sr <= MAX_STAGE_UNITS) by (nonlinear_arith)
        requires
            1 <= m.params.decay <= MAX_STAGE_US,
            1 <= sr <= MAX_SAMPLE_RATE,
    ;
    assert(m.params.release * sr >= 1 && m.params.release * sr <= MAX_STAGE_UNITS) by (nonlinear_arith)
        requires
            1 <= m.params.release <= MAX_STAGE_US,
            1 <= sr <= MAX_SAMPLE_RATE,
    ;
}

/// One update of a held note moves its held time forward by the frames
/// given, up to the end of the decay, and places it on its ramps there.
proof fn lemma_held_advance(m: EnvelopeModel, frames: nat)
    requires
        m.wf(),
        m.triggered,
        m.processing,
        m.state != EnvelopeState::Release,
        0 <= m.held_time() <= m.attack_len() + m.decay_len(),
    ensures
        ({
            let end = m.attack_len() + m.decay_len();
            let h = if m.held_time() + frames * FRAME_UNITS < end {
                m.held_time() + frames * FRAME_UNITS
            } else {
                end
            };
            let n = m.advanced(frames as int);
            &&& n.wf()
            &&& n.triggered && n.processing
            &&& n.state != EnvelopeState::Release
            &&& n.held_time() == h
            &&& n.value == m.held_level(h)
            &&& n.params == m.params && n.sample_rate == m.sample_rate
            &&& n.sustain_value == m.sustain_value && !n.pending
        }),
{
    lemma_stage_lengths(m);
    let end = m.attack_len() + m.decay_len();
    let h = if m.held_time() + frames * FRAME_UNITS < end {
        m.held_time() + frames * FRAME_UNITS
    } else {
        end
    };
    assert(0 <= h <= end) by (nonlinear_arith)
        requires
            h == (if m.held_time() + frames * FRAME_UNITS < end {
                m.held_time() + frames * FRAME_UNITS
            } else {
                end
            }),
            0 <= m.held_time() <= end,
            frames >= 0,
    ;
    lemma_held_level_bounds(m, h);
}

proof fn lemma_held_level_bounds(m: EnvelopeModel, h: int)
    requires
        m.wf(),
        0 <= h,
    ensures
        0 <= m.held_level(h) <= LEVEL_ONE,
{
    lemma_stage_lengths(m);
    let a = m.attack_len();
    let d = m.decay_len();
    if h < a {
        assert(0 <= LEVEL_ONE * h / a <= LEVEL_ONE) by (nonlinear_arith)
            requires
                0 <= h < a,
        ;
    } else if h < a + d {
        let sus = m.sustain_value;
        let e = h - a;
        assert(0 <= (LEVEL_ONE - sus) * (d - e) / d <= LEVEL_ONE - sus) by (nonlinear_arith)
            requires
                0 <= sus <= LEVEL_ONE,
                0 <= e < d,
        ;
    }
}

/// A held note, from the moment it starts, reaches exactly the sustain
/// level once the updates add up to the attack plus the decay time, and
/// stays there for as long as it is held.
pub proof fn lemma_held_note_reaches_sustain(m: EnvelopeModel, id: u32, steps: Seq<nat>)
    requires
        m.wf(),
        !m.processing,
    ensures
        ({
            let s = m.started(id);
            let r = run(s, steps);
            total_frames(steps) * FRAME_UNITS >= s.attack_len() + s.decay_len() ==> {
                &&& r.state == EnvelopeState::Sustain
                &&& r.value == m.params.sustain * LEVEL_PER_STEP
            }
        }),
{
    let s = m.started(id);
    lemma_held_run(s, steps);
    lemma_stage_lengths(s);
}

/// Along a run of a held note, the held time is the frames so far, up to
/// the end of the decay.
proof fn lemma_held_run(s: EnvelopeModel, steps: Seq<nat>)
    requires
        s.wf(),
        s.triggered,
        s.processing,
        s.state == EnvelopeState::Attack,
        s.phase == 0,
    ensures
        ({
            let r = run(s, steps);
            let end = s.attack_len() + s.decay_len();
            let h = if total_frames(steps) * FRAME_UNITS < end {
                total_frames(steps) * FRAME_UNITS
            } else {
                end
            };
            &&& r.wf()
            &&& r.triggered && r.processing
            &&& r.state != EnvelopeState::Release
            &&& r.held_time() == h
            &&& r.params == s.params && r.sample_rate == s.sample_rate
            &&& r.sustain_value == s.sustain_value && !r.pending
            &&& steps.len() > 0 ==> r.value == s.held_level(h)
        }),
    decreases steps.len(),
{
    lemma_stage_lengths(s);
    if steps.len() > 0 {
        let prev = steps.drop_last();
        lemma_held_run(s, prev);
        lemma_total_frames_nonneg(prev);
        let r0 = run(s, prev);
        lemma_held_advance(r0, steps.last());
        let end = s.attack_len() + s.decay_len();
        let t0 = total_frames(prev) * FRAME_UNITS;
        let f = steps.last() * FRAME_UNITS;
        assert(total_frames(steps) * FRAME_UNITS == t0 + f) by (nonlinear_arith)
            requires
                total_frames(steps) == total_frames(prev) + steps.last(),
                t0 == total_frames(prev) * FRAME_UNITS,
                f == steps.last() * FRAME_UNITS,
        ;
        assert(f >= 0) by (nonlinear_arith)
            requires
                f == steps.last() * FRAME_UNITS,
        ;
    } else {
        assert(total_frames(steps) * FRAME_UNITS == 0);
    }
}

/// A released note: after `end()` on a sustaining note, the level ramps
/// down from where it was, and once the updates add up to the release time
/// the envelope is idle and silent.
pub proof fn lemma_release_reaches_silence(m: EnvelopeModel, steps: Seq<nat>)
    requires
        m.wf(),
        m.processing,
        m.state == EnvelopeState::Sustain,
    ensures
        ({
            let r = run(m.ended(), steps);
            let e = total_frames(steps) * FRAME_UNITS;
            &&& e < m.release_len() ==> r.state == EnvelopeState::Release
            &&& (e < m.release_len() && steps.len() > 0) ==> r.value == release_level(
                m.value,
                e,
                m.release_len(),
            )
            &&& e >= m.release_len() ==> r.state == EnvelopeState::Idle && r.value == 0
        }),
    decreases steps.len(),
{
    lemma_stage_lengths(m);
    let s = m.ended();
    if steps.len() > 0 {
        let prev = steps.drop_last();
        lemma_release_reaches_silence(m, prev);
        lemma_release_run_wf(m, prev);
        lemma_total_frames_nonneg(prev);
        let t0 = total_frames(prev) * FRAME_UNITS;
        let f = steps.last() * FRAME_UNITS;
        assert(total_frames(steps) * FRAME_UNITS == t0 + f) by (nonlinear_arith)
            requires
                total_frames(steps) == total_frames(prev) + steps.last(),
                t0 == total_frames(prev) * FRAME_UNITS,
                f == steps.last() * FRAME_UNITS,
        ;
        assert(f >= 0 && t0 >= 0) by (nonlinear_arith)
            requires
                f == steps.last() * FRAME_UNITS,
                t0 == total_frames(prev) * FRAME_UNITS,
                total_frames(prev) >= 0,
        ;
    } else {
        assert(total_frames(steps) * FRAME_UNITS == 0);
    }
}

/// Along a run of a released note, the envelope stays well formed, keeps
/// its release length and start level, and while releasing its phase is
/// the time since the release began.
proof fn lemma_release_run_wf(m: EnvelopeModel, steps: Seq<nat>)
    requires
        m.wf(),
        m.processing,
        m.state == EnvelopeState::Sustain,
    ensures
        ({
            let r = run(m.ended(), steps);
            &&& r.wf()
            &&& r.release_len() == m.release_len()
            &&& r.release_start_value == m.value || r.state == EnvelopeState::Idle
            &&& r.state == EnvelopeState::Release || r.state == EnvelopeState::Idle
            &&& r.state == EnvelopeState::Release ==> r.processing && r.triggered && r.phase
                == total_frames(steps) * FRAME_UNITS
            &&& r.state == EnvelopeState::Idle ==> !r.processing && r.value == 0
            &&& !r.pending
            &&& !r.forced
        }),
    decreases steps.len(),
{
    lemma_stage_lengths(m);
    if steps.len() > 0 {
        let prev = steps.drop_last();
        lemma_release_run_wf(m, prev);
        lemma_total_frames_nonneg(prev);
        let r0 = run(m.ended(), prev);
        let t0 = total_frames(prev) * FRAME_UNITS;
        let f = steps.last() * FRAME_UNITS;
        assert(total_frames(steps) * FRAME_UNITS == t0 + f) by (nonlinear_arith)
            requires
                total_frames(steps) == total_frames(prev) + steps.last(),
                t0 == total_frames(prev) * FRAME_UNITS,
                f == steps.last() * FRAME_UNITS,
        ;
        assert(f >= 0) by (nonlinear_arith)
            requires
                f == steps.last() * FRAME_UNITS,
        ;
        if r0.state == EnvelopeState::Release {
            let e = r0.phase + f;
            if e < r0.release_len() {
                assert(0 <= release_level(r0.release_start_value, e, r0.release_len()) <= LEVEL_ONE)
                    by (nonlinear_arith)
                    requires
                        0 <= r0.release_start_value <= LEVEL_ONE,
                        0 <= e < r0.release_len(),
                ;
            }
        }
    } else {
        assert(total_frames(steps) * FRAME_UNITS == 0);
    }
}

/// The release ramp never rises, and it falls by at least one level unit
/// between two instants at least `len / start` units apart; from a start
/// of at least one Q16 step, that is between any two frames.
pub proof fn lemma_release_level_decreasing(start: int, e1: int, e2: int, len: int)
    requires
        0 <= start,
        0 <= e1 <= e2 <= len,
        len > 0,
    ensures
        release_level(start, e2, len) <= release_level(start, e1, len),
        start * (e2 - e1) >= len ==> release_level(start, e2, len) < release_level(start, e1, len),
        (start >= LEVEL_PER_STEP && e2 - e1 >= FRAME_UNITS && len <= MAX_STAGE_UNITS)
            ==> release_level(start, e2, len) < release_level(start, e1, len),
{
    assert(start * (len - e2) <= start * (len - e1)) by (nonlinear_arith)
        requires
            0 <= start,
            e1 <= e2,
    ;
    vstd::arithmetic::div_mod::lemma_div_is_ordered(start * (len - e2), start * (len - e1), len);
    if start >= LEVEL_PER_STEP && e2 - e1 >= FRAME_UNITS && len <= MAX_STAGE_UNITS {
        assert(start * (e2 - e1) >= len) by (nonlinear_arith)
            requires
                start >= LEVEL_PER_STEP,
                e2 - e1 >= FRAME_UNITS,
                len <= MAX_STAGE_UNITS,
        ;
    }
    if start * (e2 - e1) >= len {
        assert(start * (len - e2) + len <= start * (len - e1)) by (nonlinear_arith)
            requires
                start * (e2 - e1) >= len,
        ;
        vstd::arithmetic::div_mod::lemma_div_is_ordered(
            start * (len - e2) + len,
            start * (len - e1),
            len,
        );
        assert((start * (len - e2) + len) / len == start * (len - e2) / len + 1) by {
            vstd::arithmetic::div_mod::lemma_div_plus_one(start * (len - e2), len);
        }
    }
}

/// After `end()` on a sustaining note whose level is at least one Q16
/// step, every update that moves time on while the release runs lowers
/// the level strictly.
pub proof fn lemma_release_falls_every_update(m: EnvelopeModel, steps: Seq<nat>, frames: nat)
    requires
        m.wf(),
        m.processing,
        m.state == EnvelopeState::Sustain,
        m.value >= LEVEL_PER_STEP,
        frames >= 1,
        (total_frames(steps) + frames) * FRAME_UNITS < m.release_len(),
    ensures
        run(m.ended(), steps).advanced(frames as int).value < run(m.ended(), steps).value,
{
    lemma_stage_lengths(m);
    lemma_total_frames_nonneg(steps);
    lemma_release_reaches_silence(m, steps);
    lemma_release_run_wf(m, steps);
    let r = run(m.ended(), steps);
    let len = m.release_len();
    let e = total_frames(steps) * FRAME_UNITS;
    let e2 = e + frames * FRAME_UNITS;
    assert(e2 == (total_frames(steps) + frames) * FRAME_UNITS) by (nonlinear_arith)
        requires
            e == total_frames(steps) * FRAME_UNITS,
            e2 == e + frames * FRAME_UNITS,
    ;
    assert(0 <= e && e + FRAME_UNITS <= e2) by (nonlinear_arith)
        requires
            e == total_frames(steps) * FRAME_UNITS,
            total_frames(steps) >= 0,
            e2 == e + frames * FRAME_UNITS,
            frames >= 1,
    ;
    if steps.len() == 0 {
        assert(release_level(m.value, 0, len) == m.value) by {
            vstd::arithmetic::div_mod::lemma_div_multiples_vanish(m.value, len);
            assert(m.value * (len - 0) == len * m.value) by (nonlinear_arith);
        }
    }
    assert(r.value == release_level(m.value, e, len));
    assert(r.advanced(frames as int).value == release_level(m.value, e2, len));
    lemma_release_level_decreasing(m.value, e, e2, len);

}

/// `end()` on an envelope at rest or in a release leaves its ramp as it
/// is: at most it calls off the attack a forced release was waiting for.
pub proof fn lemma_end_keeps_a_running_release(m: EnvelopeModel)
    requires
        m.wf(),
        m.state == EnvelopeState::Idle || m.state == EnvelopeState::Release,
    ensures
        m.ended() == (if m.pending {
            EnvelopeModel { pending: false, ..m }
        } else {
            m
        }),
{
}

/// Starting the note that is already being processed changes nothing, so
/// a second start of the same note never moves the level.
pub proof fn lemma_same_note_start_is_idempotent(m: EnvelopeModel, id: u32)
    requires
        m.wf(),
    ensures
        (m.note_id == id && m.processing) ==> m.started(id) == m,
        m.started(id).started(id) == m.started(id),
        m.started(id).value == m.value,
{
}

/// The ramp `c * e / len` rises by at most `c` per `len` between two
/// instants, give or take one step of rounding.
proof fn lemma_ramp_step(c: int, e1: int, e2: int, len: int)
    requires
        0 <= c,
        0 <= e1 <= e2,
        len > 0,
    ensures
        0 <= c * e2 / len - c * e1 / len <= c * (e2 - e1) / len + 1,
{
    let x1 = c * e1;
    let x2 = c * e2;
    let d = c * (e2 - e1);
    assert(x2 == x1 + d && 0 <= x1 <= x2) by (nonlinear_arith)
        requires
            x1 == c * e1,
            x2 == c * e2,
            d == c * (e2 - e1),
            0 <= c,
            0 <= e1 <= e2,
    ;
    vstd::arithmetic::div_mod::lemma_div_is_ordered(x1, x2, len);
    let q1 = x1 / len;
    let q2 = x2 / len;
    let qd = d / len;
    vstd::arithmetic::div_mod::lemma_fundamental_div_mod(x1, len);
    vstd::arithmetic::div_mod::lemma_fundamental_div_mod(x2, len);
    vstd::arithmetic::div_mod::lemma_fundamental_div_mod(d, len);
    assert(q2 - q1 <= qd + 1) by (nonlinear_arith)
        requires
            x1 == len * q1 + x1 % len,
            x2 == len * q2 + x2 % len,
            d == len * qd + d % len,
            0 <= x1 % len < len,
            0 <= x2 % len < len,
            0 <= d % len < len,
            x2 == x1 + d,
            len > 0,
    ;
}

/// The attack never falls, and between two instants it rises by at most
/// `LEVEL_ONE` per attack length (give or take one step of rounding).
pub proof fn lemma_attack_slope(e1: int, e2: int, len: int)
    requires
        0 <= e1 <= e2,
        len > 0,
    ensures
        0 <= attack_level(e2, len) - attack_level(e1, len) <= LEVEL_ONE * (e2 - e1) / len + 1,
{
    lemma_ramp_step(LEVEL_ONE as int, e1, e2, len);
}

/// A new note over a sounding one first releases it: at the instant of
/// the call the level stays where it is and becomes the start of the
/// release, and the new note is the one the envelope plays, so starting it
/// again changes nothing. That release lasts one attack length, so each
/// update lowers the level by at most `LEVEL_ONE` per attack length (give or
/// take one step of rounding), the slope bound of the attack. Once it has
/// run its course the new note's attack begins from silence.
pub proof fn lemma_retrigger_is_continuous(m: EnvelopeModel, id: u32, frames: nat)
    requires
        m.wf(),
        m.processing,
        m.note_id != id,
    ensures
        m.started(id).value == m.value,
        m.started(id).state == EnvelopeState::Release,
        m.started(id).release_start_value == m.value,
        m.started(id).note_id == id,
        m.started(id).pending,
        m.started(id).started(id) == m.started(id),
        frames * FRAME_UNITS < m.attack_len() ==> {
            let v = m.started(id).advanced(frames as int).value;
            &&& v <= m.value
            &&& m.value - v <= LEVEL_ONE * (frames * FRAME_UNITS) / m.attack_len() + 1
        },
        frames * FRAME_UNITS >= m.attack_len() ==> {
            let n = m.started(id).advanced(frames as int);
            &&& n == m.started(id).attacking(id)
            &&& n.state == EnvelopeState::Attack
            &&& n.value == 0
            &&& n.note_id == id
        },
{
    lemma_stage_lengths(m);
    let s = m.started(id);
    let e = frames * FRAME_UNITS;
    let len = m.attack_len();
    assert(e >= 0) by (nonlinear_arith)
        requires
            e == frames * FRAME_UNITS,
    ;
    if e < len {
        let v = m.value;
        assert(s.advanced(frames as int).value == release_level(v, e, len));
        // v (len - e) / len == v - v e / len, rounded up.
        assert(v * (len - e) == v * len - v * e) by (nonlinear_arith);
        assert(v * len / len == v) by {
            vstd::arithmetic::div_mod::lemma_div_multiples_vanish(v, len);
            assert(v * len == len * v) by (nonlinear_arith);
        }
        lemma_ramp_step(v, e, len, len);
        assert(v * (len - e) / len <= v) by (nonlinear_arith)
            requires
                0 <= v,
                0 <= e < len,
                v * len / len == v,
                0 <= v * len / len - v * e / len,
                v * (len - e) == v * len - v * e,
        {
            vstd::arithmetic::div_mod::lemma_div_is_ordered(v * (len - e), v * len, len);
        }
        lemma_ramp_step(v, len - e, len, len);
        assert(v * e <= LEVEL_ONE * e) by (nonlinear_arith)
            requires
                0 <= v <= LEVEL_ONE,
                0 <= e,
        ;
        vstd::arithmetic::div_mod::lemma_div_is_ordered(v * e, LEVEL_ONE * e, len);
        assert(len - (len - e) == e);
    }
}

/// What an envelope manager is: its envelopes, and the parameters and
/// sample rate it hands to them.
pub struct EnvelopeManagerModel {
    pub envelopes: Seq<EnvelopeModel>,
    pub params: EnvelopeParams,
    pub sample_rate: int,
}

impl EnvelopeManagerModel {
    pub open spec fn wf(self) -> bool {
        &&& self.params.wf()
        &&& 1 <= self.sample_rate <= MAX_SAMPLE_RATE
        &&& forall|i: int| 0 <= i < self.envelopes.len() ==> #[trigger] self.envelopes[i].wf()
    }

    /// Level of the first envelope, or 0 for an empty pool.
    pub open spec fn level(self) -> int {
        if self.envelopes.len() > 0 {
            self.envelopes[0].value
        } else {
            0
        }
    }

    pub open spec fn started_all(self, id: u32) -> EnvelopeManagerModel {
        EnvelopeManagerModel {
            envelopes: self.envelopes.map_values(|e: EnvelopeModel| e.started(id)),
            ..self
        }
    }

    pub open spec fn ended_all(self) -> EnvelopeManagerModel {
        EnvelopeManagerModel {
            envelopes: self.envelopes.map_values(|e: EnvelopeModel| e.ended()),
            ..self
        }
    }

    pub open spec fn advanced_all(self, frames: int) -> EnvelopeManagerModel {
        EnvelopeManagerModel {
            envelopes: self.envelopes.map_values(|e: EnvelopeModel| e.advanced(frames)),
            ..self
        }
    }

    pub open spec fn with_params_all(self, p: EnvelopeParams) -> EnvelopeManagerModel {
        EnvelopeManagerModel {
            envelopes: self.envelopes.map_values(|e: EnvelopeModel| e.with_params(p)),
            params: p.clamped(),
            ..self
        }
    }

    pub open spec fn with_rate_all(self, sample_rate: u32) -> EnvelopeManagerModel {
        EnvelopeManagerModel {
            envelopes: self.envelopes.map_values(|e: EnvelopeModel| e.with_rate(sample_rate)),
            sample_rate: clamp_rate(sample_rate),
            ..self
        }
    }
}

/// A pool of envelopes started, ended and advanced together.
pub struct EnvelopeManager {
    envelopes: Vec<Envelope>,
    params: EnvelopeParams,
    sample_rate: u32,
}

impl View for EnvelopeManager {
    type V = EnvelopeManagerModel;

    closed spec fn view(&self) -> EnvelopeManagerModel {
        EnvelopeManagerModel {
            envelopes: self.envelopes@.map_values(|e: Envelope| e@),
            params: self.params,
            sample_rate: self.sample_rate as int,
        }
    }
}

impl EnvelopeManager {
    pub open spec fn wf(&self) -> bool {
        self@.wf()
    }

    closed spec fn inner_wf(&self) -> bool {
        forall|i: int| 0 <= i < self.envelopes@.len() ==> #[trigger] self.envelopes@[i].wf()
    }

    proof fn lemma_wf_inner(&self)
        ensures
            self.wf() <==> (self.inner_wf() && self.params.wf() && 1 <= self.sample_rate
                <= MAX_SAMPLE_RATE),
    {
        assert(self@.envelopes.len() == self.envelopes@.len());
        assert forall|i: int| 0 <= i < self.envelopes@.len() implies self@.envelopes[i]
            == self.envelopes@[i]@ by {}
        if self.wf() {
            assert forall|i: int| 0 <= i < self.envelopes@.len() implies #[trigger] self.envelopes@[i].wf() by {
                assert(self@.envelopes[i].wf());
            }
        }
        if self.inner_wf() {
            assert forall|i: int| 0 <= i < self@.envelopes.len() implies #[trigger] self@.envelopes[i].wf() by {
                assert(self.envelopes@[i].wf());
            }
        }
    }

    /// A pool of one silent envelope with the default parameters.
    pub fn new(sample_rate: u32) -> (r: Self)
        ensures
            r.wf(),
            r@.envelopes.len() == 1,
            r@.envelopes[0].state == EnvelopeState::Idle,
            r@.envelopes[0].value == 0,
            !r@.envelopes[0].processing,
            r@.envelopes[0].params == EnvelopeParams::default_spec(),
            r@.envelopes[0].sample_rate == clamp_rate(sample_rate),
            r@.params == EnvelopeParams::default_spec(),
            r@.sample_rate == clamp_rate(sample_rate),
    {
        let params = EnvelopeParams::default();
        let rate = clamp_rate_exec(sample_rate);
        let e = Envelope::new(params, rate);
        let r = EnvelopeManager { envelopes: vec![e], params, sample_rate: rate };
        proof {
            r.lemma_wf_inner();
        }
        r
    }

    /// Starts note `note_id` on every envelope.
    pub fn start_all(&mut self, note_id: u32)
        requires
            old(self).wf(),
        ensures
            final(self).wf(),
            final(self)@ == old(self)@.started_all(note_id),
    {
        proof {
            self.lemma_wf_inner();
        }
        let ghost before = self.envelopes@;
        let mut i: usize = 0;
        while i < self.envelopes.len()
            invariant
                self.envelopes@.len() == before.len(),
                0 <= i <= before.len(),
                forall|j: int| 0 <= j < before.len() ==> #[trigger] before[j].wf(),
                forall|j: int| 0 <= j < i ==> #[trigger] self.envelopes@[j]@ == before[j]@.started(note_id),
                forall|j: int| 0 <= j < i ==> #[trigger] self.envelopes@[j].wf(),
                forall|j: int| i <= j < before.len() ==> #[trigger] self.envelopes@[j] == before[j],
                self.params == old(self).params,
                self.sample_rate == old(self).sample_rate,
            decreases before.len() - i,
        {
            self.envelopes[i].start(note_id);
            i = i + 1;
        }
        proof {
            self.lemma_wf_inner();
            assert(self@.envelopes =~= old(self)@.started_all(note_id).envelopes);
        }
    }

    /// Ends the note on every envelope.
    pub fn end_all(&mut self)
        requires
            old(self).wf(),
        ensures
            final(self).wf(),
            final(self)@ == old(self)@.ended_all(),
    {
        proof {
            self.lemma_wf_inner();
        }
        
        let ghost before = self.envelopes@;
        let mut i: usize = 0;
        while i < self.envelopes.len()
            invariant
                self.envelopes@.len() == before.len(),
                0 <= i <= before.len(),
                forall|j: int| 0 <= j < before.len() ==> #[trigger] before[j].wf(),
                forall|j: int| 0 <= j < i ==> #[trigger] self.envelopes@[j]@ == before[j]@.ended(),
                forall|j: int| 0 <= j < i ==> #[trigger] self.envelopes@[j].wf(),
                forall|j: int| i <= j < before.len() ==> #[trigger] self.envelopes@[j] == before[j],
                self.params == old(self).params,
                self.sample_rate == old(self).sample_rate,
            decreases before.len() - i,
        {
            self.envelopes[i].end();
            i = i + 1;
        }
        proof {
            self.lemma_wf_inner();
            assert(self@.envelopes =~= old(self)@.ended_all().envelopes);
        }
    }

    /// Advances every envelope by `frames` frames.
    pub fn update_all(&mut self, frames: u32)
        requires
            old(self).wf(),
        ensures
            final(self).wf(),
            final(self)@ == old(self)@.advanced_all(frames as int),
    {
        proof {
            self.lemma_wf_inner();
        }
        
        let ghost before = self.envelopes@;
        let mut i: usize = 0;
        while i < self.envelopes.len()
            invariant
                self.envelopes@.len() == before.len(),
                0 <= i <= before.len(),
                forall|j: int| 0 <= j < before.len() ==> #[trigger] before[j].wf(),
                forall|j: int| 0 <= j < i ==> #[trigger] self.envelopes@[j]@ == before[j]@.advanced(frames as int),
                forall|j: int| 0 <= j < i ==> #[trigger] self.envelopes@[j].wf(),
                forall|j: int| i <= j < before.len() ==> #[trigger] self.envelopes@[j] == before[j],
                self.params == old(self).params,
                self.sample_rate == old(self).sample_rate,
            decreases before.len() - i,
        {
            self.envelopes[i].update(frames);
            i = i + 1;
        }
        proof {
            self.lemma_wf_inner();
            assert(self@.envelopes =~= old(self)@.advanced_all(frames as int).envelopes);
        }
    }

    /// Hands new parameters (clamped) to the pool and to every envelope.
    pub fn set_params(&mut self, params: EnvelopeParams)
        requires
            old(self).wf(),
        ensures
            final(self).wf(),
            final(self)@ == old(self)@.with_params_all(params),
    {
        proof {
            self.lemma_wf_inner();
        }
        self.params = params.clamp();
        let ghost before = self.envelopes@;
        let mut i: usize = 0;
        while i < self.envelopes.len()
            invariant
                self.envelopes@.len() == before.len(),
                0 <= i <= before.len(),
                forall|j: int| 0 <= j < before.len() ==> #[trigger] before[j].wf(),
                forall|j: int| 0 <= j < i ==> #[trigger] self.envelopes@[j]@ == before[j]@.with_params(params),
                forall|j: int| 0 <= j < i ==> #[trigger] self.envelopes@[j].wf(),
                forall|j: int| i <= j < before.len() ==> #[trigger] self.envelopes@[j] == before[j],
                self.params == params.clamped(),
                self.params.wf(),
                self.sample_rate == old(self).sample_rate,
            decreases before.len() - i,
        {
            self.envelopes[i].set_params(params);
            i = i + 1;
        }
        proof {
            self.lemma_wf_inner();
            assert(self@.envelopes =~= old(self)@.with_params_all(params).envelopes);
        }
    }

    /// Sets the sample rate (clamped) of the pool and of every envelope.
    pub fn set_sample_rate(&mut self, sample_rate: u32)
        requires
            old(self).wf(),
        ensures
            final(self).wf(),
            final(self)@ == old(self)@.with_rate_all(sample_rate),
    {
        proof {
            self.lemma_wf_inner();
        }
        self.sample_rate = clamp_rate_exec(sample_rate);
        let ghost before = self.envelopes@;
        let mut i: usize = 0;
        while i < self.envelopes.len()
            invariant
                self.envelopes@.len() == before.len(),
                0 <= i <= before.len(),
                forall|j: int| 0 <= j < before.len() ==> #[trigger] before[j].wf(),
                forall|j: int| 0 <= j < i ==> #[trigger] self.envelopes@[j]@ == before[j]@.with_rate(sample_rate),
                forall|j: int| 0 <= j < i ==> #[trigger] self.envelopes@[j].wf(),
                forall|j: int| i <= j < before.len() ==> #[trigger] self.envelopes@[j] == before[j],
                self.params == old(self).params,
                self.sample_rate == clamp_rate(sample_rate),
            decreases before.len() - i,
        {
            self.envelopes[i].set_sample_rate(sample_rate);
            i = i + 1;
        }
        proof {
            self.lemma_wf_inner();
            assert(self@.envelopes =~= old(self)@.with_rate_all(sample_rate).envelopes);
        }
    }

    /// Level of envelope `index`, or 0 where there is none.
    pub fn get_value(&self, index: usize) -> (r: u64)
        requires
            self.wf(),
        ensures
            index < self@.envelopes.len() ==> r == self@.envelopes[index as int].value,
            index >= self@.envelopes.len() ==> r == 0,
            r <= LEVEL_ONE,
    {
        proof {
            self.lemma_wf_inner();
        }
        if index < self.envelopes.len() {
            self.envelopes[index].get_value()
        } else {
            0
        }
    }

    /// The parameters the pool hands to its envelopes.
    pub fn get_params(&self) -> (r: EnvelopeParams)
        ensures
            r == self@.params,
    {
        self.params
    }

}

} // verus!
