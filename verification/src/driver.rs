//! The audio callback driver: what one device callback does.
//!
//! Per invocation it drains a bounded number of pending note commands from
//! the queue (the classic schedule drains at most one; the count is a
//! parameter, and commands beyond it wait for later callbacks rather than
//! being dropped), applies them to the mixer oldest first, then asks the
//! mixer for exactly one sample per frame and writes that sample identically
//! into every channel of the frame: a monophonic mix duplicated across the
//! device's channels.

use vstd::prelude::*;
use vstd::arithmetic::mul::lemma_mul_basics;
use vstd::arithmetic::mul::lemma_mul_inequality;
use vstd::arithmetic::mul::lemma_mul_is_distributive_add_other_way;
use crate::command::CommandQueue;
use crate::command::NoteCommand;
use crate::mixer::add_rel;
use crate::mixer::mix_sum;
use crate::mixer::stepped;
use crate::mixer::stop_rel;
use crate::mixer::survivors;
use crate::mixer::all_wf;
use crate::mixer::alive;
use crate::mixer::has_voice;
use crate::mixer::ids_unique;
use crate::mixer::lemma_alive_voice_survives;
use crate::mixer::lemma_survivors_membership;
use crate::mixer::lemma_survivors_props;
use crate::mixer::Mixer;
use crate::envelope::EnvelopeStage;
use crate::voice::Voice;

verus! {

/// How one note command relates the mixer before it to the mixer after it.
pub open spec fn apply_rel(pre: Mixer, post: Mixer, cmd: NoteCommand) -> bool {
    match cmd {
        NoteCommand::PlaySound { params, id } => add_rel(pre, post, params, id),
        NoteCommand::StopSound { id } => stop_rel(pre, post, id),
    }
}

/// How a batch of commands, applied oldest first, relates mixers.
pub open spec fn applied_rel(pre: Mixer, post: Mixer, cmds: Seq<NoteCommand>) -> bool
    decreases cmds.len(),
{
    if cmds.len() == 0 {
        post == pre
    } else {
        exists|mid: Mixer|
            #[trigger] apply_rel(pre, mid, cmds[0]) && applied_rel(mid, post, cmds.drop_first())
    }
}

/// One more command at the end of a batch extends the batch relation.
proof fn lemma_applied_snoc(
    pre: Mixer,
    mid: Mixer,
    post: Mixer,
    cmds: Seq<NoteCommand>,
    cmd: NoteCommand,
)
    requires
        applied_rel(pre, mid, cmds),
        apply_rel(mid, post, cmd),
    ensures
        applied_rel(pre, post, cmds.push(cmd)),
    decreases cmds.len(),
{
    if cmds.len() == 0 {
        assert(cmds.push(cmd)[0] == cmd);
        assert(cmds.push(cmd).drop_first() =~= Seq::<NoteCommand>::empty());
        assert(applied_rel(post, post, cmds.push(cmd).drop_first()));
    } else {
        let m1 = choose|m1: Mixer|
            #[trigger] apply_rel(pre, m1, cmds[0]) && applied_rel(m1, mid, cmds.drop_first());
        lemma_applied_snoc(m1, mid, post, cmds.drop_first(), cmd);
        assert(cmds.push(cmd)[0] == cmds[0]);
        assert(cmds.push(cmd).drop_first() =~= cmds.drop_first().push(cmd));
    }
}

/// The interleaved buffer index of channel `c` within frame `f`.
pub open spec fn frame_slot(f: int, c: int, channels: int) -> int {
    f * channels + c
}

/// The voice table after a number of whole ticks.
pub open spec fn ticked(voices: Seq<Voice>, n: nat) -> Seq<Voice>
    decreases n,
{
    if n == 0 {
        voices
    } else {
        ticked(survivors(stepped(voices)), (n - 1) as nat)
    }
}

/// The sample the mixer returns on the zero-based tick `f` after this table
/// state.
pub open spec fn tick_output(voices: Seq<Voice>, f: nat) -> int {
    mix_sum(stepped(ticked(voices, f)))
}

/// Iterating one more tick is one tick after the iteration.
proof fn lemma_ticked_snoc(voices: Seq<Voice>, n: nat)
    ensures
        ticked(voices, n + 1) == survivors(stepped(ticked(voices, n))),
    decreases n,
{
    let sv = survivors(stepped(voices));
    if n == 0 {
        assert(ticked(voices, 1) == ticked(sv, 0));
        assert(ticked(sv, 0) == sv);
    } else {
        lemma_ticked_snoc(sv, (n - 1) as nat);
        assert(ticked(voices, n + 1) == ticked(sv, n));
        assert(ticked(voices, n) == ticked(sv, (n - 1) as nat));
    }
}

/// How many commands one callback drains: the drain bound, or everything
/// queued if that is less.
pub open spec fn drain_count(queued: nat, max_drain: nat) -> int {
    if max_drain <= queued {
        max_drain as int
    } else {
        queued as int
    }
}

/// What a whole callback did to the mixer and the buffer: some mixer state
/// `mid` is reachable from the starting mixer by applying the drained
/// commands oldest first, and the buffer holds `frames` of its ticks, each
/// tick's sample replicated across the channels of its frame.
pub open spec fn callback_rel(
    pre: Mixer,
    post: Mixer,
    cmds: Seq<NoteCommand>,
    out: Seq<i64>,
    frames: int,
    channels: int,
) -> bool {
    exists|mid: Mixer|
        {
            &&& #[trigger] applied_rel(pre, mid, cmds)
            &&& mid.wf()
            &&& post.voices() == ticked(mid.voices(), frames as nat)
            &&& forall|f: int, c: int|
                0 <= f < frames && 0 <= c < channels ==> out[#[trigger] frame_slot(
                    f,
                    c,
                    channels,
                )] == tick_output(mid.voices(), f as nat)
        }
}

/// Applies one note command to the mixer: a play command creates (or
/// defensively replaces) a voice, a stop command begins a release. The
/// command set is closed and matched exhaustively.
pub fn apply_command(mixer: &mut Mixer, cmd: NoteCommand)
    requires
        old(mixer).wf(),
    ensures
        final(mixer).wf(),
        apply_rel(*old(mixer), *final(mixer), cmd),
{
    match cmd {
        NoteCommand::PlaySound { params, id } => mixer.add_sound(params, id),
        NoteCommand::StopSound { id } => mixer.stop_sound(id),
    }
}

/// Fills `frames` frames of `channels` interleaved samples: one mixer tick
/// per frame, the tick's sample written identically into every channel of
/// the frame.
pub fn render(mixer: &mut Mixer, frames: usize, channels: usize) -> (out: Vec<i64>)
    requires
        old(mixer).wf(),
        frames * channels <= usize::MAX,
    ensures
        final(mixer).wf(),
        final(mixer).rate() == old(mixer).rate(),
        final(mixer).voices() == ticked(old(mixer).voices(), frames as nat),
        out@.len() == frames * channels,
        forall|f: int, c: int|
            0 <= f < frames && 0 <= c < channels ==> out@[#[trigger] frame_slot(
                f,
                c,
                channels as int,
            )] == tick_output(old(mixer).voices(), f as nat),
{
    let ghost orig = mixer.voices();
    let mut out: Vec<i64> = Vec::new();
    let mut f: usize = 0;
    proof {
        lemma_mul_basics(channels as int);
    }
    while f < frames
        invariant
            mixer.wf(),
            mixer.rate() == old(mixer).rate(),
            orig == old(mixer).voices(),
            f <= frames,
            frames * channels <= usize::MAX,
            mixer.voices() == ticked(orig, f as nat),
            out@.len() == f * channels,
            forall|g: int, c: int|
                0 <= g < f && 0 <= c < channels ==> out@[#[trigger] frame_slot(
                    g,
                    c,
                    channels as int,
                )] == tick_output(orig, g as nat),
        decreases frames - f,
    {
        let s: i64 = mixer.tick();
        proof {
            lemma_ticked_snoc(orig, f as nat);
            lemma_mul_inequality(f + 1, frames as int, channels as int);
            lemma_mul_is_distributive_add_other_way(channels as int, f as int, 1);
            lemma_mul_basics(channels as int);
        }
        let mut c: usize = 0;
        while c < channels
            invariant
                c <= channels,
                f < frames,
                out@.len() == f * channels + c,
                f * channels + channels <= frames * channels <= usize::MAX,
                s == tick_output(orig, f as nat),
                forall|g: int, cc: int|
                    0 <= g < f && 0 <= cc < channels ==> out@[#[trigger] frame_slot(
                        g,
                        cc,
                        channels as int,
                    )] == tick_output(orig, g as nat),
                forall|cc: int|
                    0 <= cc < c ==> out@[#[trigger] frame_slot(f as int, cc, channels as int)]
                        == tick_output(orig, f as nat),
            decreases channels - c,
        {
            out.push(s);
            proof {
                assert forall|g: int, cc: int|
                    0 <= g < f && 0 <= cc < channels implies out@[#[trigger] frame_slot(
                    g,
                    cc,
                    channels as int,
                )] == tick_output(orig, g as nat) by {
                    lemma_mul_inequality(g + 1, f as int, channels as int);
                    lemma_mul_is_distributive_add_other_way(channels as int, g, 1);
                }
            }
            c = c + 1;
        }
        f = f + 1;
    }
    out
}

/// What one device callback does: drains up to `max_drain` pending commands,
/// applies them oldest first, then fills the whole buffer, one tick per
/// frame, with the mixed sample replicated across the frame's channels.
/// Commands beyond the drain bound stay queued for later callbacks.
pub fn run_callback(
    mixer: &mut Mixer,
    queue: &mut CommandQueue,
    frames: usize,
    channels: usize,
    max_drain: usize,
) -> (out: Vec<i64>)
    requires
        old(mixer).wf(),
        old(queue).wf(),
        frames * channels <= usize::MAX,
    ensures
        final(mixer).wf(),
        final(queue).wf(),
        final(queue).capacity() == old(queue).capacity(),
        out@.len() == frames * channels,
        final(queue).contents() == old(queue).contents().skip(
            drain_count(old(queue).contents().len(), max_drain as nat),
        ),
        callback_rel(
            *old(mixer),
            *final(mixer),
            old(queue).contents().take(drain_count(old(queue).contents().len(), max_drain as nat)),
            out@,
            frames as int,
            channels as int,
        ),
{
    let queued: usize = queue.queued();
    let k: usize = if max_drain <= queued {
        max_drain
    } else {
        queued
    };
    proof {
        assert(old(queue).contents().skip(0) =~= old(queue).contents());
        assert(old(queue).contents().take(0) =~= Seq::<NoteCommand>::empty());
    }
    let mut i: usize = 0;
    while i < k
        invariant
            old(queue).wf(),
            old(mixer).wf(),
            i <= k,
            k <= old(queue).contents().len(),
            queue.wf(),
            queue.capacity() == old(queue).capacity(),
            queue.contents() == old(queue).contents().skip(i as int),
            mixer.wf(),
            applied_rel(*old(mixer), *mixer, old(queue).contents().take(i as int)),
        decreases k - i,
    {
        let received: Option<NoteCommand> = queue.try_recv();
        match received {
            Option::Some(cmd) => {
                let ghost pre = *mixer;
                proof {
                    assert(cmd == old(queue).contents()[i as int]);
                }
                apply_command(mixer, cmd);
                proof {
                    lemma_applied_snoc(
                        *old(mixer),
                        pre,
                        *mixer,
                        old(queue).contents().take(i as int),
                        cmd,
                    );
                    assert(old(queue).contents().take(i + 1) =~= old(queue).contents().take(
                        i as int,
                    ).push(cmd));
                    assert(queue.contents() =~= old(queue).contents().skip(i + 1));
                }
            },
            Option::None => {
                proof {
                    assert(false);
                }
            },
        }
        i = i + 1;
    }
    let ghost mid = *mixer;
    let out: Vec<i64> = render(mixer, frames, channels);
    proof {
        let drained: int = drain_count(old(queue).contents().len(), max_drain as nat);
        assert(drained == k as int);
        assert(queue.contents() == old(queue).contents().skip(drained));
        assert(applied_rel(*old(mixer), mid, old(queue).contents().take(drained)));
        assert(mid.wf());
        assert(mixer.voices() == ticked(mid.voices(), frames as nat));
        assert(forall|f: int, c: int|
            0 <= f < frames && 0 <= c < channels ==> out@[#[trigger] frame_slot(
                f,
                c,
                channels as int,
            )] == tick_output(mid.voices(), f as nat));
        assert(callback_rel(
            *old(mixer),
            *mixer,
            old(queue).contents().take(drained),
            out@,
            frames as int,
            channels as int,
        ));
    }
    out
}

/// An id that is absent from the table stays absent: a tick steps and
/// reclaims voices, it never creates one.
proof fn lemma_absent_id_stays_absent(s: Seq<Voice>, id: u32, n: nat)
    requires
        !has_voice(s, id),
    ensures
        !has_voice(ticked(s, n), id),
    decreases n,
{
    if n > 0 {
        let s1 = survivors(stepped(s));
        lemma_survivors_membership(stepped(s));
        assert forall|x: int| 0 <= x < s1.len() implies (#[trigger] s1[x]).id != id by {
            let y = choose|y: int| 0 <= y < stepped(s).len() && stepped(s)[y] == s1[x];
            assert(stepped(s)[y] == s[y].step_spec());
            assert(s[y].id != id);
        }
        lemma_absent_id_stays_absent(s1, id, (n - 1) as nat);
    }
}

/// Voice lifecycle, the reclaiming half: once a voice is releasing, its
/// remaining release time of whole ticks finishes it and removes it from the
/// table, and it never comes back.
pub proof fn lemma_released_voice_reclaimed(s: Seq<Voice>, j: int, n: nat)
    requires
        all_wf(s),
        ids_unique(s),
        0 <= j < s.len(),
        s[j].env.stage == EnvelopeStage::Release,
        n >= s[j].env.release_samples - s[j].env.elapsed,
    ensures
        !has_voice(ticked(s, n), s[j].id),
    decreases n,
{
    let id = s[j].id;
    let s1 = survivors(stepped(s));
    assert(s[j].wf());
    assert forall|t: int| 0 <= t < s.len() implies (#[trigger] stepped(s)[t]).wf() && stepped(s)[
        t
    ].id == s[t].id by {
        assert(s[t].wf());
        s[t].env.lemma_step_wf();
    }
    assert(ids_unique(stepped(s)));
    lemma_survivors_props(stepped(s));
    lemma_survivors_membership(stepped(s));
    if s[j].env.elapsed + 1 >= s[j].env.release_samples {
        assert(stepped(s)[j].env.stage == EnvelopeStage::Finished);
        assert forall|x: int| 0 <= x < s1.len() implies (#[trigger] s1[x]).id != id by {
            let y = choose|y: int| 0 <= y < stepped(s).len() && stepped(s)[y] == s1[x];
            if s1[x].id == id {
                if y != j {
                    assert(stepped(s)[y].id != stepped(s)[j].id);
                }
            }
        }
        lemma_absent_id_stays_absent(s1, id, (n - 1) as nat);
    } else {
        assert(stepped(s)[j].env.stage == EnvelopeStage::Release);
        assert(alive(stepped(s)[j]));
        lemma_alive_voice_survives(stepped(s), j);
        let k = choose|k: int| 0 <= k < s1.len() && #[trigger] s1[k] == stepped(s)[j];
        assert(all_wf(s1));
        assert(ids_unique(s1));
        assert(s1[k].env.release_samples - s1[k].env.elapsed == s[j].env.release_samples - s[
            j
        ].env.elapsed - 1);
        lemma_released_voice_reclaimed(s1, k, (n - 1) as nat);
        assert(s1[k].id == id);
    }
}

} // verus!
