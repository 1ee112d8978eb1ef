//! The note-command protocol and the bounded command queue.
//!
//! Commands are immutable value messages; the queue is a fixed-capacity ring
//! buffer whose send never blocks: a command offered to a full queue is
//! dropped (drop-newest back-pressure), favouring audio continuity over event
//! completeness. Receiving from an empty queue returns nothing and the audio
//! path proceeds unaffected.

use vstd::prelude::*;
use vstd::arithmetic::div_mod::*;

verus! {

/// Parameters a new voice is created with: its pitch, in millihertz so that
/// the audio side can derive an exact integer phase step per sample.
#[derive(Clone, Copy, PartialEq, Eq, Structural, Debug)]
pub struct VoiceParams {
    pub freq_millihertz: u64,
}

/// A discrete note event crossing from the input side to the audio side.
/// Ownership transfers from producer to consumer on send.
#[derive(Clone, Copy, PartialEq, Eq, Structural, Debug)]
pub enum NoteCommand {
    /// Create a voice with these parameters under this id and begin sounding.
    PlaySound { params: VoiceParams, id: u32 },
    /// Begin the release phase of the voice with this id.
    StopSound { id: u32 },
}

/// A bounded first-in/first-out command queue: a ring buffer over fixed
/// storage, with a head index and a queued-command count.
///
/// Exactly one side sends and exactly one side receives; neither call ever
/// blocks. The storage is allocated once at construction and never grows.
pub struct CommandQueue {
    buf: Vec<NoteCommand>,
    head: usize,
    len: usize,
}

impl CommandQueue {
    /// How many commands the queue can hold at once.
    pub closed spec fn capacity(self) -> nat {
        self.buf@.len()
    }

    /// Storage is non-empty, the head is a valid index, and no more commands
    /// are queued than the storage holds.
    pub closed spec fn wf(self) -> bool {
        &&& self.buf@.len() >= 1
        &&& self.head < self.buf@.len()
        &&& self.len <= self.buf@.len()
    }

    /// The queued commands, oldest first.
    pub closed spec fn contents(self) -> Seq<NoteCommand> {
        Seq::new(self.len as nat, |i: int| self.buf@[(self.head + i) % (self.buf@.len() as int)])
    }

    /// Creates an empty queue with room for `capacity` outstanding commands.
    pub fn new(capacity: usize) -> (q: CommandQueue)
        requires
            capacity >= 1,
        ensures
            q.wf(),
            q.capacity() == capacity,
            q.contents() == Seq::<NoteCommand>::empty(),
    {
        let mut buf: Vec<NoteCommand> = Vec::new();
        let mut i: usize = 0;
        while i < capacity
            invariant
                i <= capacity,
                buf@.len() == i,
            decreases capacity - i,
        {
            buf.push(NoteCommand::StopSound { id: 0 });
            i = i + 1;
        }
        let q = CommandQueue { buf, head: 0, len: 0 };
        proof {
            assert(q.contents() =~= Seq::<NoteCommand>::empty());
        }
        q
    }

    /// What one non-blocking send leaves queued: the command is appended if
    /// there is room and dropped otherwise.
    pub open spec fn sent(contents: Seq<NoteCommand>, capacity: nat, cmd: NoteCommand) -> Seq<
        NoteCommand,
    > {
        if contents.len() < capacity {
            contents.push(cmd)
        } else {
            contents
        }
    }

    /// Offers a command to the queue without blocking. Returns whether it was
    /// accepted; a command offered to a full queue is dropped.
    pub fn try_send(&mut self, cmd: NoteCommand) -> (accepted: bool)
        requires
            old(self).wf(),
        ensures
            final(self).wf(),
            final(self).capacity() == old(self).capacity(),
            accepted == (old(self).contents().len() < old(self).capacity()),
            final(self).contents() == Self::sent(old(self).contents(), old(self).capacity(), cmd),
    {
        let cap: usize = self.buf.len();
        if self.len == cap {
            return false;
        }
        let idx: usize = if self.len >= cap - self.head {
            self.len - (cap - self.head)
        } else {
            self.head + self.len
        };
        proof {
            lemma_wrap_index(self.head as int, self.len as int, cap as int);
            assert(idx == (self.head + self.len) % (cap as int));
        }
        self.buf.set(idx, cmd);
        self.len = self.len + 1;
        proof {
            let h = self.head as int;
            let c = cap as int;
            let prior = old(self).contents();
            assert forall|i: int| 0 <= i < prior.len() implies self.contents()[i] == prior[i] by {
                lemma_wrap_index(h, i, c);
            }
            assert(self.contents()[prior.len() as int] == cmd);
            assert(self.contents() =~= prior.push(cmd));
        }
        true
    }

    /// Receives the oldest queued command without blocking, or nothing if the
    /// queue is empty.
    pub fn try_recv(&mut self) -> (received: Option<NoteCommand>)
        requires
            old(self).wf(),
        ensures
            final(self).wf(),
            final(self).capacity() == old(self).capacity(),
            old(self).contents().len() == 0 ==> received is None && final(self).contents()
                == old(self).contents(),
            old(self).contents().len() > 0 ==> received == Some(old(self).contents()[0])
                && final(self).contents() == old(self).contents().drop_first(),
    {
        if self.len == 0 {
            return None;
        }
        let cap: usize = self.buf.len();
        let cmd: NoteCommand = self.buf[self.head];
        self.head = if self.head + 1 == cap {
            0
        } else {
            self.head + 1
        };
        self.len = self.len - 1;
        proof {
            let h = old(self).head as int;
            let c = cap as int;
            lemma_wrap_index(h, 0, c);
            assert(old(self).contents()[0] == cmd);
            assert forall|i: int| 0 <= i < self.len implies self.contents()[i]
                == old(self).contents()[i + 1] by {
                lemma_wrap_index(h, i + 1, c);
                lemma_wrap_index(self.head as int, i, c);
            }
            assert(self.contents() =~= old(self).contents().drop_first());
        }
        Some(cmd)
    }

    /// How many commands are queued right now.
    pub fn queued(&self) -> (n: usize)
        ensures
            n == self.contents().len(),
    {
        self.len
    }
}

/// Where index arithmetic wraps in a ring of `cap` slots: for a head below
/// `cap` and an offset of at most one full turn, the slot is either before
/// or after the wrap point.
proof fn lemma_wrap_index(head: int, i: int, cap: int)
    requires
        0 < cap,
        0 <= head < cap,
        0 <= i <= cap,
    ensures
        (head + i) % cap == if head + i < cap {
            head + i
        } else {
            head + i - cap
        },
{
    if head + i < cap {
        lemma_small_mod((head + i) as nat, cap as nat);
    } else {
        lemma_mod_sub_multiples_vanish(head + i, cap);
        lemma_small_mod((head + i - cap) as nat, cap as nat);
    }
}

/// What a whole burst of non-blocking sends leaves queued, oldest first.
pub open spec fn sent_all(
    contents: Seq<NoteCommand>,
    capacity: nat,
    cmds: Seq<NoteCommand>,
) -> Seq<NoteCommand>
    decreases cmds.len(),
{
    if cmds.len() == 0 {
        contents
    } else {
        sent_all(CommandQueue::sent(contents, capacity, cmds[0]), capacity, cmds.drop_first())
    }
}

/// Drop-under-pressure: a burst of sends with no receive in between retains
/// the oldest commands up to capacity, in their send order, and drops the
/// rest; a command already queued is never displaced. In particular, sending
/// more commands than the capacity of an initially empty queue retains
/// exactly `capacity` of them.
pub proof fn lemma_drop_under_pressure(
    contents: Seq<NoteCommand>,
    capacity: nat,
    cmds: Seq<NoteCommand>,
)
    requires
        contents.len() <= capacity,
    ensures
        sent_all(contents, capacity, cmds) == if contents.len() + cmds.len() <= capacity {
            contents + cmds
        } else {
            (contents + cmds).take(capacity as int)
        },
    decreases cmds.len(),
{
    if cmds.len() == 0 {
        assert(contents + cmds =~= contents);
    } else {
        let step = CommandQueue::sent(contents, capacity, cmds[0]);
        let rest = cmds.drop_first();
        lemma_drop_under_pressure(step, capacity, rest);
        if contents.len() < capacity {
            assert(step + rest =~= contents + cmds);
        } else {
            assert(step =~= contents);
            if rest.len() == 0 {
                assert(step + rest =~= contents);
            } else {
                assert((step + rest).take(capacity as int) =~= contents);
            }
            assert((contents + cmds).take(capacity as int) =~= contents);
        }
    }
}

} // verus!
