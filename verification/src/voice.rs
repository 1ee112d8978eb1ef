//! One sounding note: an oscillator phase accumulator and its envelope.
//!
//! The oscillator is a unit-amplitude sawtooth read directly off the 32-bit
//! phase accumulator; the envelope's amplitude is the sole multiplier applied
//! to it before summation. A voice is owned exclusively by the mixer for its
//! whole lifetime.

use vstd::prelude::*;
use vstd::arithmetic::div_mod::*;
use vstd::arithmetic::mul::*;
use crate::envelope::AMP_ONE;
use crate::envelope::Envelope;

verus! {

/// One independently sounding note: its identity, oscillator state, and
/// amplitude envelope.
#[derive(Clone, Copy, PartialEq, Eq, Structural, Debug)]
pub struct Voice {
    pub id: u32,
    pub phase: u32,
    pub phase_step: u32,
    pub env: Envelope,
}

/// The unit-amplitude sawtooth sample at a phase accumulator position:
/// rises linearly from `-AMP_ONE` at phase zero to just under `AMP_ONE` at
/// the end of the cycle.
pub open spec fn osc_spec(phase: u32) -> int {
    (phase >> 15u32) - AMP_ONE
}

/// A 32-bit phase advance, wrapping at the end of the oscillator cycle.
pub open spec fn phase_add_spec(phase: u32, step: u32) -> u32 {
    (((phase + step) as int) % 0x1_0000_0000) as u32
}

impl Voice {
    /// A voice is well-formed when its envelope is.
    pub open spec fn wf(self) -> bool {
        self.env.wf()
    }

    /// Where one sample period takes the voice: the oscillator advances by
    /// one step and the envelope by one sample. The phase keeps advancing in
    /// every stage, so a release tail stays glitch-free.
    pub open spec fn step_spec(self) -> Voice {
        Voice {
            phase: phase_add_spec(self.phase, self.phase_step),
            env: self.env.step_spec(),
            ..self
        }
    }

    /// Where an explicit stop takes the voice.
    pub open spec fn stop_spec(self) -> Voice {
        Voice { env: self.env.stop_spec(), ..self }
    }

    /// The sample this voice contributes: its envelope-weighted oscillator
    /// output, in fixed point.
    pub open spec fn sample_spec(self) -> int {
        self.env.amp_spec() * osc_spec(self.phase) / (AMP_ONE as int)
    }

    /// A fresh voice for one press: phase starts at zero (an explicit choice:
    /// a retrigger restarts the cycle rather than continuing it), envelope in
    /// attack.
    pub fn new(id: u32, phase_step: u32, attack_samples: u32, release_samples: u32) -> (v: Voice)
        requires
            attack_samples >= 1,
            release_samples >= 1,
        ensures
            v.wf(),
            v.id == id,
            v.phase == 0,
            v.phase_step == phase_step,
            v.env == Envelope::new_spec(attack_samples, release_samples),
    {
        Voice { id, phase: 0, phase_step, env: Envelope::new(attack_samples, release_samples) }
    }

    /// Advances the voice by one sample period.
    pub fn step(&mut self)
        requires
            old(self).wf(),
        ensures
            *final(self) == old(self).step_spec(),
            final(self).wf(),
    {
        let sum: u64 = (self.phase as u64) + (self.phase_step as u64);
        self.phase = (sum % 0x1_0000_0000) as u32;
        self.env.step();
    }

    /// Begins this voice's release, or does nothing if it is already
    /// releasing or finished.
    pub fn stop(&mut self)
        requires
            old(self).wf(),
        ensures
            *final(self) == old(self).stop_spec(),
            final(self).wf(),
    {
        self.env.stop();
    }

    /// The envelope-weighted oscillator sample, within one unit of full
    /// scale either way.
    pub fn sample(&self) -> (s: i64)
        requires
            self.wf(),
        ensures
            s == self.sample_spec(),
            -AMP_ONE <= s <= AMP_ONE,
    {
        let amp: i64 = self.env.amplitude();
        proof {
            lemma_osc_bounds(self.phase);
            self.lemma_sample_bounds();
        }
        let osc: i64 = ((self.phase >> 15u32) as i64) - AMP_ONE;
        proof {
            lemma_mul_upper_bound(amp as int, AMP_ONE as int, osc + AMP_ONE, 2 * AMP_ONE);
            lemma_mul_nonnegative(amp as int, osc + AMP_ONE);
            lemma_mul_is_distributive_add(amp as int, osc as int, AMP_ONE as int);
            lemma_mul_upper_bound(amp as int, AMP_ONE as int, AMP_ONE as int, AMP_ONE as int);
        }
        let product: i64 = amp * osc;
        let shifted: i64 = product + AMP_ONE * AMP_ONE;
        let quotient: i64 = ((shifted as u64) / (AMP_ONE as u64)) as i64;
        proof {
            lemma_fundamental_div_mod(product as int, AMP_ONE as int);
            lemma_mod_division_less_than_divisor(product as int, AMP_ONE as int);
            lemma_div_multiples_vanish_fancy(
                product as int / (AMP_ONE as int) + AMP_ONE,
                product as int % (AMP_ONE as int),
                AMP_ONE as int,
            );
            lemma_mul_is_distributive_add(
                AMP_ONE as int,
                product as int / (AMP_ONE as int),
                AMP_ONE as int,
            );
        }
        quotient - AMP_ONE
    }

    /// The envelope-weighted sample never exceeds one unit of full scale in
    /// magnitude, whatever stage the voice is in.
    pub proof fn lemma_sample_bounds(self)
        requires
            self.wf(),
        ensures
            -AMP_ONE <= self.sample_spec() <= AMP_ONE,
    {
        let one = AMP_ONE as int;
        let amp = self.env.amp_spec();
        let osc = osc_spec(self.phase);
        self.env.lemma_amp_bounds();
        lemma_osc_bounds(self.phase);
        let p = amp * osc;
        lemma_mul_upper_bound(amp, one, osc + one, 2 * one);
        lemma_mul_nonnegative(amp, osc + one);
        lemma_mul_is_distributive_add(amp, osc, one);
        lemma_div_is_ordered(-(one * one), p, one);
        lemma_mul_unary_negation(one, one);
        lemma_div_multiples_vanish(-one, one);
        if osc >= 0 {
            lemma_mul_upper_bound(amp, one, osc, one);
        } else {
            lemma_mul_nonnegative(amp, -osc);
            lemma_mul_unary_negation(amp, osc);
        }
        lemma_div_is_ordered(p, one * one, one);
        lemma_div_multiples_vanish(one, one);
    }
}

/// The sawtooth sample stays within one unit of full scale.
pub proof fn lemma_osc_bounds(phase: u32)
    ensures
        -AMP_ONE <= osc_spec(phase) < AMP_ONE,
{
    assert(phase >> 15u32 < 131072u32) by (bit_vector);
}

} // verus!
