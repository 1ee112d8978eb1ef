//! The cross-thread transport of the command channel.
//!
//! The input context and the audio context run on independently clocked
//! threads; the only data crossing between them is `NoteCommand` values,
//! carried by a lock-free bounded single-producer/single-consumer ring. The
//! ring's two ends are handles to state the *other* thread mutates
//! concurrently, so no contract here promises what an individual send or
//! receive returns: that depends on the other side's progress. What each
//! call returns is instead handed to verified code — `apply_command` and the
//! mixer — which is proved correct for every value that can come back.
//! (The single-threaded semantics of the same protocol — capacity,
//! drop-newest on overflow, receive in send order — is stated and proved on
//! [`crate::command::CommandQueue`].)

use vstd::prelude::*;
use crate::command::NoteCommand;
use crate::driver::apply_command;
use crate::driver::applied_rel;
use crate::driver::apply_rel;
use crate::driver::callback_rel;
use crate::driver::render;
use crate::keyboard::command_of_event;
use crate::keyboard::KeyboardEvent;
use crate::mixer::Mixer;

verus! {

#[verifier::external_type_specification]
#[verifier::external_body]
#[verifier::reject_recursive_types(T)]
pub struct ExProducer<T>(ringbuf::Producer<T>);

#[verifier::external_type_specification]
#[verifier::external_body]
#[verifier::reject_recursive_types(T)]
pub struct ExConsumer<T>(ringbuf::Consumer<T>);

/// Relies on ringbuf's `Producer::push`: the command is enqueued and `true`
/// returned, or the ring was full and the command is dropped with `false`.
/// Which of the two happens depends on the consumer thread's progress, so
/// nothing is promised of the outcome; either way the call never blocks.
#[verifier::external_body]
fn channel_push(channel: &mut ringbuf::Producer<NoteCommand>, cmd: NoteCommand) -> (accepted:
    bool)
{
    channel.push(cmd).is_ok()
}

/// Relies on ringbuf's `Consumer::pop`: the oldest queued command, or
/// nothing if the ring was empty at the call; never blocks. What comes back
/// depends on the producer thread's progress, so nothing is promised of it.
#[verifier::external_body]
fn channel_pop(channel: &mut ringbuf::Consumer<NoteCommand>) -> (received: Option<NoteCommand>) {
    channel.pop()
}

/// The input context's send path: translates one key edge into its note
/// command and offers it to the channel. A command offered to a full channel
/// is dropped — documented lossy back-pressure in favour of the real-time
/// audio path — so the result only reports whether it was taken.
pub fn send_key_event(channel: &mut ringbuf::Producer<NoteCommand>, ev: &KeyboardEvent) -> (sent:
    bool)
{
    let cmd: NoteCommand = command_of_event(ev);
    channel_push(channel, cmd)
}

/// The audio context's whole callback, as the output device drives it:
/// drain at most one pending command from the channel, apply it to the
/// mixer, then fill `frames` frames with one mixer tick each, the sample
/// replicated across `channels`. Since the channel's answer depends on the
/// other thread, the contract promises the callback's effect for every
/// answer: the buffer and the new mixer state follow from the starting
/// mixer with at most one command applied.
pub fn stream_callback(
    mixer: &mut Mixer,
    channel: &mut ringbuf::Consumer<NoteCommand>,
    frames: usize,
    channels: usize,
) -> (out: Vec<i64>)
    requires
        old(mixer).wf(),
        frames * channels <= usize::MAX,
    ensures
        final(mixer).wf(),
        out@.len() == frames * channels,
        exists|cmds: Seq<NoteCommand>|
            cmds.len() <= 1 && #[trigger] callback_rel(
                *old(mixer),
                *final(mixer),
                cmds,
                out@,
                frames as int,
                channels as int,
            ),
{
    let received: Option<NoteCommand> = channel_pop(channel);
    let ghost cmds: Seq<NoteCommand> = match received {
        Option::Some(cmd) => seq![cmd],
        Option::None => Seq::empty(),
    };
    match received {
        Option::Some(cmd) => {
            apply_command(mixer, cmd);
            proof {
                assert(cmds[0] == cmd);
                assert(apply_rel(*old(mixer), *mixer, cmds[0]));
                assert(cmds.drop_first() =~= Seq::<NoteCommand>::empty());
                assert(applied_rel(*mixer, *mixer, cmds.drop_first()));
                assert(applied_rel(*old(mixer), *mixer, cmds));
            }
        },
        Option::None => {
            proof {
                assert(applied_rel(*old(mixer), *mixer, cmds));
            }
        },
    }
    let out: Vec<i64> = render(mixer, frames, channels);
    proof {
        assert(callback_rel(*old(mixer), *mixer, cmds, out@, frames as int, channels as int));
    }
    out
}

} // verus!
