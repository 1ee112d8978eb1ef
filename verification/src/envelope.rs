//! The per-voice amplitude envelope: a four-stage state machine.
//!
//! `Attack -> Sustain -> Release -> Finished`. Attack rises from silence to
//! full scale and hands over to sustain automatically once the attack time
//! has elapsed; sustain holds until the voice is explicitly stopped; release
//! decays linearly from the amplitude it was stopped at and reaches silence
//! after exactly the release time, so no denormal tail can stall it;
//! finished is terminal. Amplitudes are fixed-point: `AMP_ONE` is full scale.

use vstd::prelude::*;
use vstd::arithmetic::div_mod::*;
use vstd::arithmetic::mul::*;

verus! {

/// Full scale of the fixed-point amplitude (and sample) representation.
pub const AMP_ONE: i64 = 65536;

/// The stage an envelope is in.
#[derive(Clone, Copy, PartialEq, Eq, Structural, Debug)]
pub enum EnvelopeStage {
    /// Rising from silence toward full scale.
    Attack,
    /// Holding full scale until the voice is stopped.
    Sustain,
    /// Decaying from the amplitude the voice was stopped at toward silence.
    Release,
    /// Fully decayed; the owning mixer reclaims the voice.
    Finished,
}

/// Amplitude envelope state: the stage, the samples spent in it, and the
/// stage timings. `release_start` is the amplitude the release decays from.
#[derive(Clone, Copy, PartialEq, Eq, Structural, Debug)]
pub struct Envelope {
    pub stage: EnvelopeStage,
    pub elapsed: u32,
    pub attack_samples: u32,
    pub release_samples: u32,
    pub release_start: i64,
}

impl Envelope {
    /// Stage timings are positive, the decay start is a valid amplitude, and
    /// the stage-local clock never runs past its stage.
    pub open spec fn wf(self) -> bool {
        &&& self.attack_samples >= 1
        &&& self.release_samples >= 1
        &&& 0 <= self.release_start <= AMP_ONE
        &&& match self.stage {
            EnvelopeStage::Attack => self.elapsed < self.attack_samples,
            EnvelopeStage::Sustain => self.elapsed == 0,
            EnvelopeStage::Release => self.elapsed < self.release_samples,
            EnvelopeStage::Finished => self.elapsed == 0,
        }
    }

    /// The instantaneous amplitude: the sole multiplier applied to the
    /// voice's oscillator output.
    pub open spec fn amp_spec(self) -> int {
        match self.stage {
            EnvelopeStage::Attack => self.elapsed * AMP_ONE / self.attack_samples as int,
            EnvelopeStage::Sustain => AMP_ONE as int,
            EnvelopeStage::Release => self.release_start * (self.release_samples - self.elapsed)
                / self.release_samples as int,
            EnvelopeStage::Finished => 0,
        }
    }

    /// Where one sample period takes the envelope.
    pub open spec fn step_spec(self) -> Envelope {
        match self.stage {
            EnvelopeStage::Attack => if self.elapsed + 1 < self.attack_samples {
                Envelope { elapsed: (self.elapsed + 1) as u32, ..self }
            } else {
                Envelope { stage: EnvelopeStage::Sustain, elapsed: 0, ..self }
            },
            EnvelopeStage::Sustain => self,
            EnvelopeStage::Release => if self.elapsed + 1 < self.release_samples {
                Envelope { elapsed: (self.elapsed + 1) as u32, ..self }
            } else {
                Envelope { stage: EnvelopeStage::Finished, elapsed: 0, ..self }
            },
            EnvelopeStage::Finished => self,
        }
    }

    /// Where an explicit stop takes the envelope: a sounding stage begins its
    /// release from the current amplitude; a stop during release or after the
    /// end changes nothing.
    pub open spec fn stop_spec(self) -> Envelope {
        match self.stage {
            EnvelopeStage::Attack | EnvelopeStage::Sustain => Envelope {
                stage: EnvelopeStage::Release,
                elapsed: 0,
                release_start: self.amp_spec() as i64,
                ..self
            },
            EnvelopeStage::Release | EnvelopeStage::Finished => self,
        }
    }

    /// The envelope a fresh voice starts with.
    pub open spec fn new_spec(attack_samples: u32, release_samples: u32) -> Envelope {
        Envelope {
            stage: EnvelopeStage::Attack,
            elapsed: 0,
            attack_samples,
            release_samples,
            release_start: 0,
        }
    }

    /// A fresh envelope: in attack, at its first sample, silent.
    pub fn new(attack_samples: u32, release_samples: u32) -> (e: Envelope)
        requires
            attack_samples >= 1,
            release_samples >= 1,
        ensures
            e == Self::new_spec(attack_samples, release_samples),
            e.wf(),
            e.amp_spec() == 0,
    {
        Envelope {
            stage: EnvelopeStage::Attack,
            elapsed: 0,
            attack_samples,
            release_samples,
            release_start: 0,
        }
    }

    /// The instantaneous amplitude, between 0 and `AMP_ONE` inclusive.
    pub fn amplitude(&self) -> (amp: i64)
        requires
            self.wf(),
        ensures
            amp == self.amp_spec(),
            0 <= amp <= AMP_ONE,
    {
        proof {
            self.lemma_amp_bounds();
        }
        match self.stage {
            EnvelopeStage::Attack => {
                let num: u64 = (self.elapsed as u64) * (AMP_ONE as u64);
                (num / (self.attack_samples as u64)) as i64
            },
            EnvelopeStage::Sustain => AMP_ONE,
            EnvelopeStage::Release => {
                let remaining: u32 = self.release_samples - self.elapsed;
                proof {
                    lemma_mul_upper_bound(
                        self.release_start as int,
                        AMP_ONE as int,
                        remaining as int,
                        0xFFFF_FFFF,
                    );
                }
                let num: u64 = (self.release_start as u64) * (remaining as u64);
                (num / (self.release_samples as u64)) as i64
            },
            EnvelopeStage::Finished => 0,
        }
    }

    /// Advances the envelope by one sample period.
    pub fn step(&mut self)
        requires
            old(self).wf(),
        ensures
            *final(self) == old(self).step_spec(),
            final(self).wf(),
    {
        match self.stage {
            EnvelopeStage::Attack => {
                if self.elapsed + 1 < self.attack_samples {
                    self.elapsed = self.elapsed + 1;
                } else {
                    self.stage = EnvelopeStage::Sustain;
                    self.elapsed = 0;
                }
            },
            EnvelopeStage::Sustain => {},
            EnvelopeStage::Release => {
                if self.elapsed + 1 < self.release_samples {
                    self.elapsed = self.elapsed + 1;
                } else {
                    self.stage = EnvelopeStage::Finished;
                    self.elapsed = 0;
                }
            },
            EnvelopeStage::Finished => {},
        }
    }

    /// Begins the release phase, or does nothing if the envelope is already
    /// releasing or finished.
    pub fn stop(&mut self)
        requires
            old(self).wf(),
        ensures
            *final(self) == old(self).stop_spec(),
            final(self).wf(),
    {
        match self.stage {
            EnvelopeStage::Attack | EnvelopeStage::Sustain => {
                proof {
                    self.lemma_amp_bounds();
                }
                let amp: i64 = self.amplitude();
                self.stage = EnvelopeStage::Release;
                self.elapsed = 0;
                self.release_start = amp;
            },
            EnvelopeStage::Release | EnvelopeStage::Finished => {},
        }
    }

    /// The amplitude of a well-formed envelope never leaves `[0, AMP_ONE]`.
    pub proof fn lemma_amp_bounds(self)
        requires
            self.wf(),
        ensures
            0 <= self.amp_spec() <= AMP_ONE,
    {
        match self.stage {
            EnvelopeStage::Attack => {
                let num = self.elapsed * (AMP_ONE as int);
                let d = self.attack_samples as int;
                lemma_mul_nonnegative(self.elapsed as int, AMP_ONE as int);
                lemma_div_pos_is_pos(num, d);
                lemma_mul_inequality(self.elapsed as int, d, AMP_ONE as int);
                lemma_div_is_ordered(num, d * AMP_ONE, d);
                lemma_mul_is_commutative(d, AMP_ONE as int);
                lemma_div_multiples_vanish(AMP_ONE as int, d);
            },
            EnvelopeStage::Sustain => {},
            EnvelopeStage::Release => {
                let remaining = self.release_samples - self.elapsed;
                let num = self.release_start * remaining;
                let d = self.release_samples as int;
                lemma_mul_nonnegative(self.release_start as int, remaining);
                lemma_div_pos_is_pos(num, d);
                if self.release_start > 0 {
                    lemma_mul_left_inequality(self.release_start as int, remaining, d);
                    lemma_div_is_ordered(num, self.release_start * d, d);
                    lemma_mul_is_commutative(self.release_start as int, d);
                    lemma_div_multiples_vanish(self.release_start as int, d);
                } else {
                    lemma_mul_basics(remaining);
                    lemma_mul_basics(d);
                    lemma_div_multiples_vanish(0, d);
                    assert(num / d == 0);
                }
            },
            EnvelopeStage::Finished => {},
        }
    }

    /// One sample period keeps an envelope well-formed.
    pub proof fn lemma_step_wf(self)
        requires
            self.wf(),
        ensures
            self.step_spec().wf(),
    {
    }

    /// An explicit stop keeps an envelope well-formed.
    pub proof fn lemma_stop_wf(self)
        requires
            self.wf(),
        ensures
            self.stop_spec().wf(),
    {
        self.lemma_amp_bounds();
    }
}

/// Where `n` sample periods take an envelope.
pub open spec fn steps_spec(e: Envelope, n: nat) -> Envelope
    decreases n,
{
    if n == 0 {
        e
    } else {
        steps_spec(e.step_spec(), (n - 1) as nat)
    }
}

/// Sustain is unbounded: a voice that is never stopped never begins release
/// and never finishes, no matter how many samples elapse. Only an explicit
/// stop can start the decay toward the terminal stage.
pub proof fn lemma_sustain_until_stopped(e: Envelope, n: nat)
    requires
        e.wf(),
        e.stage == EnvelopeStage::Attack || e.stage == EnvelopeStage::Sustain,
    ensures
        steps_spec(e, n).wf(),
        steps_spec(e, n).stage == EnvelopeStage::Attack || steps_spec(e, n).stage
            == EnvelopeStage::Sustain,
    decreases n,
{
    if n > 0 {
        e.lemma_step_wf();
        lemma_sustain_until_stopped(e.step_spec(), (n - 1) as nat);
    }
}

/// A releasing envelope reaches the terminal stage once the rest of its
/// release time has elapsed, and stays there.
pub proof fn lemma_release_terminates(e: Envelope, n: nat)
    requires
        e.wf(),
        e.stage == EnvelopeStage::Release || e.stage == EnvelopeStage::Finished,
        e.stage == EnvelopeStage::Release ==> n >= e.release_samples - e.elapsed,
    ensures
        steps_spec(e, n).stage == EnvelopeStage::Finished,
    decreases n,
{
    if e.stage == EnvelopeStage::Finished {
        if n > 0 {
            lemma_release_terminates(e.step_spec(), (n - 1) as nat);
        }
    } else {
        e.lemma_step_wf();
        lemma_release_terminates(e.step_spec(), (n - 1) as nat);
    }
}

/// Voice lifecycle after a stop: stopping a well-formed envelope and letting
/// a full release time of samples elapse leaves it finished.
pub proof fn lemma_stop_then_finished(e: Envelope, n: nat)
    requires
        e.wf(),
        n >= e.release_samples,
    ensures
        steps_spec(e.stop_spec(), n).stage == EnvelopeStage::Finished,
{
    e.lemma_stop_wf();
    lemma_release_terminates(e.stop_spec(), n);
}

/// Idempotent stop: stopping twice in a row has the same effect as stopping
/// once, with no acceleration of the release already under way.
pub proof fn lemma_stop_idempotent(e: Envelope)
    requires
        e.wf(),
    ensures
        e.stop_spec().stop_spec() == e.stop_spec(),
{
}

/// During attack the amplitude rises monotonically toward full scale.
pub proof fn lemma_attack_monotone(e: Envelope)
    requires
        e.wf(),
        e.stage == EnvelopeStage::Attack,
    ensures
        e.step_spec().amp_spec() >= e.amp_spec(),
{
    e.lemma_amp_bounds();
    if e.elapsed + 1 < e.attack_samples {
        let d = e.attack_samples as int;
        lemma_mul_inequality(e.elapsed as int, e.elapsed + 1, AMP_ONE as int);
        lemma_div_is_ordered(e.elapsed * AMP_ONE, (e.elapsed + 1) * AMP_ONE, d);
    }
}

/// During release the amplitude decays monotonically toward silence.
pub proof fn lemma_release_monotone(e: Envelope)
    requires
        e.wf(),
        e.stage == EnvelopeStage::Release,
    ensures
        e.step_spec().amp_spec() <= e.amp_spec(),
{
    e.lemma_amp_bounds();
    if e.elapsed + 1 < e.release_samples {
        let d = e.release_samples as int;
        if e.release_start > 0 {
            lemma_mul_left_inequality(
                e.release_start as int,
                e.release_samples - e.elapsed - 1,
                e.release_samples - e.elapsed,
            );
            lemma_div_is_ordered(
                e.release_start * (e.release_samples - e.elapsed - 1),
                e.release_start * (e.release_samples - e.elapsed),
                d,
            );
        } else {
            lemma_mul_basics(e.release_samples - e.elapsed - 1);
            lemma_mul_basics(e.release_samples - e.elapsed);
            lemma_mul_basics(d);
            lemma_div_multiples_vanish(0, d);
        }
    } else {
        e.lemma_step_wf();
    }
}

} // verus!
