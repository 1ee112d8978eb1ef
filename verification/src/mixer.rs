//! The mixer: owner of the live voice table.
//!
//! It creates a voice for each play command, begins a release for each stop
//! command, advances every resident voice once per sample, sums their
//! outputs, and reclaims voices the same tick their envelope finishes. The
//! sum is raw: no normalisation or clipping is folded in; headroom is the
//! caller's responsibility. The table is bounded, so one tick does bounded
//! work and the audio context never blocks on it.

use vstd::prelude::*;
use vstd::arithmetic::div_mod::lemma_div_multiples_vanish;
use vstd::arithmetic::mul::lemma_mul_is_commutative;
use vstd::arithmetic::mul::lemma_mul_upper_bound;
use crate::command::VoiceParams;
use crate::envelope::AMP_ONE;
use crate::envelope::Envelope;
use crate::envelope::EnvelopeStage;
use crate::voice::osc_spec;
use crate::voice::Voice;

verus! {

/// Upper bound on concurrently resident voices: keeps every tick's work (and
/// the worst-case sum) bounded for the real-time audio context.
pub const MAX_VOICES: usize = 64;

/// Attack time of every voice, in thousandths of a second.
pub const ATTACK_MILLIS: u32 = 10;

/// Release time of every voice, in thousandths of a second.
pub const RELEASE_MILLIS: u32 = 250;

/// A voice whose envelope has not yet reached the terminal stage.
pub open spec fn alive(v: Voice) -> bool {
    v.env.stage != EnvelopeStage::Finished
}

/// Every voice in the table is well-formed.
pub open spec fn all_wf(s: Seq<Voice>) -> bool {
    forall|i: int| 0 <= i < s.len() ==> (#[trigger] s[i]).wf()
}

/// No two voices in the table share an id.
pub open spec fn ids_unique(s: Seq<Voice>) -> bool {
    forall|i: int, j: int|
        0 <= i < j < s.len() ==> (#[trigger] s[i]).id != (#[trigger] s[j]).id
}

/// Every voice in the table is still sounding: a finished voice is never
/// retained past the tick that finished it.
pub open spec fn all_alive(s: Seq<Voice>) -> bool {
    forall|i: int| 0 <= i < s.len() ==> alive(#[trigger] s[i])
}

/// Whether some voice in the table carries this id.
pub open spec fn has_voice(s: Seq<Voice>, id: u32) -> bool {
    exists|i: int| 0 <= i < s.len() && (#[trigger] s[i]).id == id
}

/// The whole table advanced by one sample period.
pub open spec fn stepped(s: Seq<Voice>) -> Seq<Voice> {
    s.map_values(|v: Voice| v.step_spec())
}

/// The voices of the table that are still sounding, in table order.
pub open spec fn survivors(s: Seq<Voice>) -> Seq<Voice>
    decreases s.len(),
{
    if s.len() == 0 {
        Seq::empty()
    } else if alive(s.last()) {
        survivors(s.drop_last()).push(s.last())
    } else {
        survivors(s.drop_last())
    }
}

/// The raw sum of the samples every voice in the table contributes.
pub open spec fn mix_sum(s: Seq<Voice>) -> int
    decreases s.len(),
{
    if s.len() == 0 {
        0
    } else {
        mix_sum(s.drop_last()) + s.last().sample_spec()
    }
}

/// The oscillator phase step for a pitch at a sample rate: the fraction of
/// the 32-bit cycle one sample advances, saturated at a full cycle for
/// pitches at or beyond the sample rate.
pub open spec fn phase_step_spec(freq_millihertz: u64, sample_rate: u32) -> u32 {
    let exact = freq_millihertz * 0x1_0000_0000 / (1000 * sample_rate);
    if exact > 0xFFFF_FFFF {
        0xFFFF_FFFFu32
    } else {
        exact as u32
    }
}

/// A stage time in samples: the rate scaled by the time in thousandths of a
/// second, and at least one sample so every stage is observable.
pub open spec fn stage_samples_spec(sample_rate: u32, millis: u32) -> u32 {
    let exact = sample_rate * millis / 1000;
    if exact >= 1 {
        exact as u32
    } else {
        1u32
    }
}

/// How one play command relates the mixer before it to the mixer after it:
/// an id already resident has its voice replaced in place (a documented
/// defensive overwrite), a fresh id is appended while there is room, and a
/// full table drops the command.
pub open spec fn add_rel(pre: Mixer, post: Mixer, params: VoiceParams, id: u32) -> bool {
    &&& post.rate() == pre.rate()
    &&& post.attack_samples() == pre.attack_samples()
    &&& post.release_samples() == pre.release_samples()
    &&& has_voice(pre.voices(), id) ==> {
        &&& post.voices().len() == pre.voices().len()
        &&& forall|j: int|
            0 <= j < pre.voices().len() && (#[trigger] pre.voices()[j]).id != id
                ==> post.voices()[j] == pre.voices()[j]
        &&& forall|j: int|
            0 <= j < pre.voices().len() && (#[trigger] pre.voices()[j]).id == id
                ==> post.voices()[j] == pre.fresh_voice(params, id)
    }
    &&& !has_voice(pre.voices(), id) && pre.voices().len() < MAX_VOICES ==> post.voices()
        == pre.voices().push(pre.fresh_voice(params, id))
    &&& !has_voice(pre.voices(), id) && pre.voices().len() >= MAX_VOICES ==> post.voices()
        == pre.voices()
}

/// How one stop command relates the mixer before it to the mixer after it:
/// the voice with the commanded id begins its release, every other voice is
/// untouched, and an id that is not resident changes nothing.
pub open spec fn stop_rel(pre: Mixer, post: Mixer, id: u32) -> bool {
    &&& post.rate() == pre.rate()
    &&& post.attack_samples() == pre.attack_samples()
    &&& post.release_samples() == pre.release_samples()
    &&& post.voices().len() == pre.voices().len()
    &&& forall|j: int|
        0 <= j < pre.voices().len() && (#[trigger] pre.voices()[j]).id != id ==> post.voices()[j]
            == pre.voices()[j]
    &&& forall|j: int|
        0 <= j < pre.voices().len() && (#[trigger] pre.voices()[j]).id == id ==> post.voices()[j]
            == pre.voices()[j].stop_spec()
}

/// Owner of the live voice table and the negotiated sample rate. All state
/// here is owned and mutated by the audio context alone.
pub struct Mixer {
    voices: Vec<Voice>,
    sample_rate: u32,
    attack_samples: u32,
    release_samples: u32,
}

impl Mixer {
    /// The live voice table, in insertion order.
    pub closed spec fn voices(self) -> Seq<Voice> {
        self.voices@
    }

    /// The negotiated sample rate, in samples per second.
    pub closed spec fn rate(self) -> u32 {
        self.sample_rate
    }

    /// The attack time every new voice gets, in samples.
    pub closed spec fn attack_samples(self) -> u32 {
        self.attack_samples
    }

    /// The release time every new voice gets, in samples.
    pub closed spec fn release_samples(self) -> u32 {
        self.release_samples
    }

    /// The table is bounded, its voices well-formed and sounding, their ids
    /// distinct, and the stage times are those for the sample rate.
    pub open spec fn wf(self) -> bool {
        &&& self.voices().len() <= MAX_VOICES
        &&& all_wf(self.voices())
        &&& ids_unique(self.voices())
        &&& all_alive(self.voices())
        &&& self.rate() >= 1
        &&& self.attack_samples() == stage_samples_spec(self.rate(), ATTACK_MILLIS)
        &&& self.release_samples() == stage_samples_spec(self.rate(), RELEASE_MILLIS)
    }

    /// The voice a play command creates: phase at zero, envelope in attack,
    /// phase step derived from the commanded pitch and the mixer's rate.
    pub open spec fn fresh_voice(self, params: VoiceParams, id: u32) -> Voice {
        Voice {
            id,
            phase: 0,
            phase_step: phase_step_spec(params.freq_millihertz, self.rate()),
            env: Envelope::new_spec(self.attack_samples(), self.release_samples()),
        }
    }

    /// An empty mixer for a negotiated sample rate.
    pub fn new(sample_rate: u32) -> (m: Mixer)
        requires
            sample_rate >= 1,
        ensures
            m.wf(),
            m.voices() == Seq::<Voice>::empty(),
            m.rate() == sample_rate,
    {
        proof {
            assert(ATTACK_MILLIS == 10);
            assert(RELEASE_MILLIS == 250);
            lemma_mul_upper_bound(sample_rate as int, 0xFFFF_FFFF, ATTACK_MILLIS as int, 250);
            lemma_mul_upper_bound(sample_rate as int, 0xFFFF_FFFF, RELEASE_MILLIS as int, 250);
        }
        let attack_wide: u64 = (sample_rate as u64) * (ATTACK_MILLIS as u64) / 1000;
        let release_wide: u64 = (sample_rate as u64) * (RELEASE_MILLIS as u64) / 1000;
        let attack_samples: u32 = if attack_wide >= 1 {
            attack_wide as u32
        } else {
            1u32
        };
        let release_samples: u32 = if release_wide >= 1 {
            release_wide as u32
        } else {
            1u32
        };
        let m = Mixer { voices: Vec::new(), sample_rate, attack_samples, release_samples };
        proof {
            assert(m.voices@ =~= Seq::<Voice>::empty());
        }
        m
    }

    /// The number of currently resident voices.
    pub fn voice_count(&self) -> (n: usize)
        ensures
            n == self.voices().len(),
    {
        self.voices.len()
    }

    /// The stage of the voice with this id, if it is resident.
    pub fn stage_of(&self, id: u32) -> (found: Option<EnvelopeStage>)
        ensures
            match found {
                Option::None => !has_voice(self.voices(), id),
                Option::Some(stage) => exists|i: int|
                    0 <= i < self.voices().len() && (#[trigger] self.voices()[i]).id == id
                        && self.voices()[i].env.stage == stage,
            },
    {
        let n: usize = self.voices.len();
        let mut i: usize = 0;
        while i < n
            invariant
                n == self.voices().len(),
                i <= n,
                forall|k: int| 0 <= k < i ==> (#[trigger] self.voices()[k]).id != id,
            decreases n - i,
        {
            if self.voices[i].id == id {
                return Some(self.voices[i].env.stage);
            }
            i = i + 1;
        }
        None
    }

    /// The oscillator phase step for a commanded pitch at this mixer's rate.
    fn phase_step_for(&self, freq_millihertz: u64) -> (step: u32)
        requires
            self.wf(),
        ensures
            step == phase_step_spec(freq_millihertz, self.rate()),
    {
        let denom: u128 = 1000u128 * (self.sample_rate as u128);
        let exact: u128 = ((freq_millihertz as u128) * 0x1_0000_0000u128) / denom;
        if exact > 0xFFFF_FFFFu128 {
            0xFFFF_FFFFu32
        } else {
            exact as u32
        }
    }

    /// Creates a voice for a play command. A commanded id that is already
    /// resident replaces that voice (a documented defensive overwrite, not an
    /// error); a full table drops the command rather than letting a tick's
    /// work grow unbounded.
    pub fn add_sound(&mut self, params: VoiceParams, id: u32)
        requires
            old(self).wf(),
        ensures
            final(self).wf(),
            add_rel(*old(self), *final(self), params, id),
    {
        let step: u32 = self.phase_step_for(params.freq_millihertz);
        let v: Voice = Voice::new(id, step, self.attack_samples, self.release_samples);
        let n: usize = self.voices.len();
        let mut i: usize = 0;
        while i < n
            invariant
                old(self).wf(),
                n == self.voices().len(),
                i <= n,
                *self == *old(self),
                forall|k: int| 0 <= k < i ==> (#[trigger] self.voices()[k]).id != id,
                v == old(self).fresh_voice(params, id),
            decreases n - i,
        {
            if self.voices[i].id == id {
                self.voices.set(i, v);
                proof {
                    assert(has_voice(old(self).voices(), id));
                }
                return ;
            }
            i = i + 1;
        }
        if n < MAX_VOICES {
            self.voices.push(v);
        }
    }

    /// Begins the release of the voice with this id. A stop for an id that is
    /// not resident, or whose voice is already releasing, changes nothing
    /// beyond what the envelope's own stop allows: it is a no-op, not an
    /// error.
    pub fn stop_sound(&mut self, id: u32)
        requires
            old(self).wf(),
        ensures
            final(self).wf(),
            stop_rel(*old(self), *final(self), id),
    {
        let n: usize = self.voices.len();
        let mut i: usize = 0;
        while i < n
            invariant
                old(self).wf(),
                n == self.voices().len(),
                i <= n,
                *self == *old(self),
                forall|k: int| 0 <= k < i ==> (#[trigger] self.voices()[k]).id != id,
            decreases n - i,
        {
            if self.voices[i].id == id {
                let mut v: Voice = self.voices[i];
                proof {
                    assert(all_wf(old(self).voices()));
                    assert(old(self).voices()[i as int].wf());
                }
                v.stop();
                self.voices.set(i, v);
                return ;
            }
            i = i + 1;
        }
    }

    /// Advances every resident voice by one sample period, sums their
    /// envelope-weighted outputs, and removes every voice that reached the
    /// terminal stage on this very tick. The returned sample is the raw
    /// fixed-point sum: no normalisation or clipping by voice count is
    /// folded in.
    pub fn tick(&mut self) -> (mixed: i64)
        requires
            old(self).wf(),
        ensures
            final(self).wf(),
            final(self).rate() == old(self).rate(),
            final(self).attack_samples() == old(self).attack_samples(),
            final(self).release_samples() == old(self).release_samples(),
            mixed == mix_sum(stepped(old(self).voices())),
            final(self).voices() == survivors(stepped(old(self).voices())),
    {
        let ghost orig = self.voices@;
        let n: usize = self.voices.len();
        let mut sum: i64 = 0;
        let mut i: usize = 0;
        while i < n
            invariant
                old(self).wf(),
                orig == old(self).voices(),
                n == orig.len(),
                n == self.voices@.len(),
                i <= n,
                self.sample_rate == old(self).sample_rate,
                self.attack_samples == old(self).attack_samples,
                self.release_samples == old(self).release_samples,
                forall|k: int| i <= k < n ==> self.voices@[k] == orig[k],
                forall|k: int| 0 <= k < i ==> self.voices@[k] == stepped(orig)[k],
                sum == mix_sum(stepped(orig).take(i as int)),
                -(i as int) * (AMP_ONE as int) <= sum <= (i as int) * (AMP_ONE as int),
            decreases n - i,
        {
            let mut v: Voice = self.voices[i];
            proof {
                assert(orig[i as int].wf());
            }
            v.step();
            let s: i64 = v.sample();
            proof {
                assert(stepped(orig)[i as int] == orig[i as int].step_spec());
                assert(stepped(orig).take(i + 1).drop_last() =~= stepped(orig).take(i as int));
                assert(stepped(orig).take(i + 1).last() == stepped(orig)[i as int]);
            }
            sum = sum + s;
            self.voices.set(i, v);
            i = i + 1;
        }
        proof {
            assert(self.voices@ =~= stepped(orig));
            assert(stepped(orig).take(n as int) =~= stepped(orig));
        }
        let mut j: usize = 0;
        let mut k: usize = 0;
        while k < n
            invariant
                old(self).wf(),
                orig == old(self).voices(),
                n == orig.len(),
                n == self.voices@.len(),
                j <= k <= n,
                self.sample_rate == old(self).sample_rate,
                self.attack_samples == old(self).attack_samples,
                self.release_samples == old(self).release_samples,
                forall|t: int| k <= t < n ==> self.voices@[t] == stepped(orig)[t],
                self.voices@.subrange(0, j as int) == survivors(stepped(orig).take(k as int)),
            decreases n - k,
        {
            let v: Voice = self.voices[k];
            proof {
                assert(stepped(orig).take(k + 1).drop_last() =~= stepped(orig).take(k as int));
                assert(stepped(orig).take(k + 1).last() == stepped(orig)[k as int]);
            }
            if v.env.stage != EnvelopeStage::Finished {
                let ghost before = self.voices@;
                self.voices.set(j, v);
                proof {
                    assert(self.voices@.subrange(0, j + 1) =~= before.subrange(0, j as int).push(
                        v,
                    ));
                    assert(self.voices@.subrange(0, j + 1) =~= survivors(
                        stepped(orig).take(k + 1),
                    ));
                }
                j = j + 1;
            } else {
                proof {
                    assert(survivors(stepped(orig).take(k + 1)) =~= survivors(
                        stepped(orig).take(k as int),
                    ));
                }
            }
            k = k + 1;
        }
        self.voices.truncate(j);
        proof {
            assert(self.voices@ =~= survivors(stepped(orig)));
            assert forall|t: int| 0 <= t < n implies (#[trigger] stepped(orig)[t]).wf() && stepped(
                orig,
            )[t].id == orig[t].id by {
                assert(orig[t].wf());
                orig[t].env.lemma_step_wf();
            }
            assert(ids_unique(stepped(orig)));
            lemma_survivors_props(stepped(orig));
        }
        sum
    }
}

/// Compaction facts: the surviving voices of a table are drawn from the
/// table, so they stay well-formed and their ids stay distinct; they are all
/// sounding; and there are no more of them than before.
pub(crate) proof fn lemma_survivors_props(s: Seq<Voice>)
    requires
        ids_unique(s),
        all_wf(s),
    ensures
        survivors(s).len() <= s.len(),
        forall|x: int|
            0 <= x < survivors(s).len() ==> exists|y: int|
                0 <= y < s.len() && s[y] == #[trigger] survivors(s)[x],
        ids_unique(survivors(s)),
        all_alive(survivors(s)),
        all_wf(survivors(s)),
    decreases s.len(),
{
    if s.len() > 0 {
        let t = s.drop_last();
        assert forall|i: int| 0 <= i < t.len() implies (#[trigger] t[i]).wf() by {
            assert(t[i] == s[i]);
        }
        lemma_survivors_props(t);
        let st = survivors(t);
        assert forall|x: int|
            0 <= x < st.len() implies exists|y: int|
                0 <= y < s.len() && s[y] == #[trigger] st[x] by {
            let y = choose|y: int| 0 <= y < t.len() && t[y] == st[x];
            assert(s[y] == st[x]);
        }
        if alive(s.last()) {
            assert forall|x: int| 0 <= x < st.len() implies (#[trigger] st[x]).id != s.last().id by {
                let y = choose|y: int| 0 <= y < t.len() && t[y] == st[x];
                assert(s[y].id != s[s.len() - 1].id);
            }
            assert(survivors(s) == st.push(s.last()));
            assert forall|i: int, j: int|
                0 <= i < j < survivors(s).len() implies (#[trigger] survivors(s)[i]).id != (
            #[trigger] survivors(s)[j]).id by {
                if j < st.len() {
                } else {
                    assert(survivors(s)[j] == s.last());
                    assert(survivors(s)[i] == st[i]);
                }
            }
        }
    }
}

/// With zero resident voices a tick mixes exactly nothing: the sum over an
/// empty table, even after the advance, is zero.
pub proof fn lemma_mix_zero_voices(s: Seq<Voice>)
    requires
        s.len() == 0,
    ensures
        mix_sum(stepped(s)) == 0,
{
    assert(stepped(s).len() == 0);
}

/// With a single voice in full sustain the mix is the oscillator's raw
/// sample: a sustained envelope at full scale passes the sawtooth through
/// unchanged.
pub proof fn lemma_mix_single_sustain(v: Voice)
    requires
        v.wf(),
        v.env.stage == EnvelopeStage::Sustain,
    ensures
        mix_sum(seq![v]) == osc_spec(v.phase),
{
    let one = AMP_ONE as int;
    let osc = osc_spec(v.phase);
    assert(v.env.amp_spec() == one);
    lemma_mul_is_commutative(one, osc);
    lemma_div_multiples_vanish(osc, one);
    assert(v.sample_spec() == osc);
    assert(seq![v].drop_last() =~= Seq::<Voice>::empty());
    assert(mix_sum(seq![v]) == mix_sum(seq![v].drop_last()) + v.sample_spec());
}

/// Idempotent stop: a second stop command for the same id leaves the voice
/// table exactly where the first left it; there is no double-release
/// acceleration.
pub proof fn lemma_stop_sound_idempotent(a: Mixer, b: Mixer, c: Mixer, id: u32)
    requires
        a.wf(),
        stop_rel(a, b, id),
        stop_rel(b, c, id),
    ensures
        c.voices() == b.voices(),
{
    assert forall|j: int| 0 <= j < b.voices().len() implies c.voices()[j] == b.voices()[j] by {
        assert(a.voices()[j].wf());
        if a.voices()[j].id == id {
            assert(b.voices()[j] == a.voices()[j].stop_spec());
            assert(b.voices()[j].id == id);
            crate::envelope::lemma_stop_idempotent(a.voices()[j].env);
            assert(c.voices()[j] == b.voices()[j].stop_spec());
        } else {
            assert(b.voices()[j] == a.voices()[j]);
        }
    }
    assert(c.voices() =~= b.voices());
}

/// A sounding voice survives the compaction: it stands somewhere in the
/// surviving table, unchanged.
pub(crate) proof fn lemma_alive_voice_survives(s: Seq<Voice>, j: int)
    requires
        0 <= j < s.len(),
        alive(s[j]),
    ensures
        exists|k: int| 0 <= k < survivors(s).len() && #[trigger] survivors(s)[k] == s[j],
    decreases s.len(),
{
    if j == s.len() - 1 {
        assert(survivors(s)[survivors(s).len() - 1] == s[j]);
    } else {
        let t = s.drop_last();
        lemma_alive_voice_survives(t, j);
        let k = choose|k: int| 0 <= k < survivors(t).len() && #[trigger] survivors(t)[k] == t[j];
        if alive(s.last()) {
            assert(survivors(s)[k] == survivors(t)[k]);
        } else {
            assert(survivors(s)[k] == s[j]);
        }
    }
}

/// Voice lifecycle, the sounding half: a voice that has not been stopped is
/// in attack or sustain, and one whole tick of the table neither finishes it
/// nor reclaims it — it stands in the next table, advanced by one sample and
/// still merely sounding. Only an explicit stop can start it toward the
/// terminal stage.
pub proof fn lemma_unstopped_voice_survives_tick(s: Seq<Voice>, j: int)
    requires
        all_wf(s),
        0 <= j < s.len(),
        s[j].env.stage == EnvelopeStage::Attack || s[j].env.stage == EnvelopeStage::Sustain,
    ensures
        exists|k: int|
            0 <= k < survivors(stepped(s)).len() && #[trigger] survivors(stepped(s))[k]
                == s[j].step_spec() && (survivors(stepped(s))[k].env.stage
                == EnvelopeStage::Attack || survivors(stepped(s))[k].env.stage
                == EnvelopeStage::Sustain),
{
    assert(s[j].wf());
    assert(stepped(s)[j] == s[j].step_spec());
    lemma_alive_voice_survives(stepped(s), j);
}

/// Every surviving voice is drawn from the table it survived.
pub(crate) proof fn lemma_survivors_membership(s: Seq<Voice>)
    ensures
        forall|x: int|
            0 <= x < survivors(s).len() ==> exists|y: int|
                0 <= y < s.len() && s[y] == #[trigger] survivors(s)[x],
    decreases s.len(),
{
    if s.len() > 0 {
        let t = s.drop_last();
        lemma_survivors_membership(t);
        let st = survivors(t);
        assert forall|x: int|
            0 <= x < st.len() implies exists|y: int|
                0 <= y < s.len() && s[y] == #[trigger] st[x] by {
            let y = choose|y: int| 0 <= y < t.len() && t[y] == st[x];
            assert(s[y] == st[x]);
        }
        if alive(s.last()) {
            assert(survivors(s)[st.len() as int] == s[s.len() - 1]);
        }
    }
}

} // verus!
