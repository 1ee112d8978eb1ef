//! The visual keyboard's note-event side: per-key press counters, held-key
//! tracking, octave shifting, and the translation of key edges into note
//! commands.
//!
//! Each rising edge bumps that key slot's press counter and mints a voice id
//! from the counter and the slot, so the matching falling edge can stop
//! exactly the voice it started. Pitches are equal-tempered around A at 440
//! hertz, held in millihertz so the audio side works in integers.

use vstd::prelude::*;
use crate::command::NoteCommand;
use crate::command::VoiceParams;
use crate::hash::mint_id;
use crate::hash::mint_id_spec;

verus! {

/// Number of key slots on the keyboard.
pub const NUM_KEYS: u32 = 23;

/// How far the octave shift can go in either direction.
pub const OCTAVE_LIMIT: i32 = 8;

/// One key edge, translated: the voice id minted for the press, the pitch in
/// millihertz (zero on a release), and which edge it was.
#[derive(Clone, Copy, PartialEq, Eq, Structural, Debug)]
pub struct KeyboardEvent {
    pub uid: u32,
    pub freq_millihertz: u64,
    pub pressed: bool,
}

/// The equal-tempered pitch of a key slot at the centre octave, in
/// millihertz: slot 0 is A at 440 hertz, each slot a semitone up.
pub open spec fn base_freq_spec(key: u32) -> u64 {
    if key == 0 {
        440000u64
    } else if key == 1 {
        466164u64
    } else if key == 2 {
        493883u64
    } else if key == 3 {
        523251u64
    } else if key == 4 {
        554365u64
    } else if key == 5 {
        587330u64
    } else if key == 6 {
        622254u64
    } else if key == 7 {
        659255u64
    } else if key == 8 {
        698456u64
    } else if key == 9 {
        739989u64
    } else if key == 10 {
        783991u64
    } else if key == 11 {
        830609u64
    } else if key == 12 {
        880000u64
    } else if key == 13 {
        932328u64
    } else if key == 14 {
        987767u64
    } else if key == 15 {
        1046502u64
    } else if key == 16 {
        1108731u64
    } else if key == 17 {
        1174659u64
    } else if key == 18 {
        1244508u64
    } else if key == 19 {
        1318510u64
    } else if key == 20 {
        1396913u64
    } else if key == 21 {
        1479978u64
    } else if key == 22 {
        1567982u64
    } else {
        0u64
    }
}

/// A press counter after one more press, wrapping at the top so a counter
/// can never get stuck.
pub open spec fn bumped(c: u32) -> u32 {
    if c == 0xFFFF_FFFFu32 {
        0u32
    } else {
        (c + 1) as u32
    }
}

/// The pitch of a key slot after the octave shift: each octave doubles or
/// halves the centre pitch.
pub open spec fn freq_spec(key: u32, octave: i32) -> u64 {
    if octave >= 0 {
        (base_freq_spec(key) << octave) as u64
    } else {
        (base_freq_spec(key) >> ((-octave) as u64)) as u64
    }
}

/// Whether a key slot occurs in a held-key list.
pub open spec fn holds_key(s: Seq<u32>, key: u32) -> bool {
    exists|i: int| 0 <= i < s.len() && s[i] == key
}

/// The input-side state: the octave shift, which key slots are held, and
/// each slot's running press counter. Owned by the input context; nothing of
/// it crosses to the audio context except the commands minted from it.
pub struct Keyboard {
    current_octave: i32,
    held_keys: Vec<u32>,
    counters: Vec<u32>,
}

impl Keyboard {
    /// The octave shift.
    pub closed spec fn octave(self) -> i32 {
        self.current_octave
    }

    /// The held key slots, in press order.
    pub closed spec fn held(self) -> Seq<u32> {
        self.held_keys@
    }

    /// The per-slot press counters.
    pub closed spec fn counters(self) -> Seq<u32> {
        self.counters@
    }

    /// One counter per key slot, a bounded octave shift, and a held list of
    /// distinct valid slots.
    pub open spec fn wf(self) -> bool {
        &&& self.counters().len() == NUM_KEYS
        &&& -OCTAVE_LIMIT <= self.octave() <= OCTAVE_LIMIT
        &&& forall|i: int| 0 <= i < self.held().len() ==> (#[trigger] self.held()[i]) < NUM_KEYS
        &&& forall|i: int, j: int|
            0 <= i < j < self.held().len() ==> (#[trigger] self.held()[i]) != (
            #[trigger] self.held()[j])
    }

    /// A keyboard at the centre octave with nothing held and every press
    /// counter at zero.
    pub fn new() -> (kb: Keyboard)
        ensures
            kb.wf(),
            kb.octave() == 0,
            kb.held() == Seq::<u32>::empty(),
            kb.counters() == Seq::new(NUM_KEYS as nat, |i: int| 0u32),
    {
        let mut counters: Vec<u32> = Vec::new();
        let mut i: u32 = 0;
        while i < NUM_KEYS
            invariant
                i <= NUM_KEYS,
                counters@.len() == i,
                forall|k: int| 0 <= k < i ==> (#[trigger] counters@[k]) == 0u32,
            decreases NUM_KEYS - i,
        {
            counters.push(0u32);
            i = i + 1;
        }
        let kb = Keyboard { current_octave: 0, held_keys: Vec::new(), counters };
        proof {
            assert(kb.held() =~= Seq::<u32>::empty());
            assert(kb.counters() =~= Seq::new(NUM_KEYS as nat, |i: int| 0u32));
        }
        kb
    }

    /// Shifts the octave up by one, stopping at the limit.
    pub fn octave_up(&mut self)
        requires
            old(self).wf(),
        ensures
            final(self).wf(),
            final(self).octave() == if old(self).octave() < OCTAVE_LIMIT {
                old(self).octave() + 1
            } else {
                old(self).octave() as int
            },
            final(self).held() == old(self).held(),
            final(self).counters() == old(self).counters(),
    {
        proof {
            assert(OCTAVE_LIMIT == 8);
        }
        if self.current_octave < OCTAVE_LIMIT {
            self.current_octave = self.current_octave + 1;
        }
        proof {
            lemma_held_facts(*old(self), *self);
        }
    }

    /// Shifts the octave down by one, stopping at the limit.
    pub fn octave_down(&mut self)
        requires
            old(self).wf(),
        ensures
            final(self).wf(),
            final(self).octave() == if old(self).octave() > -OCTAVE_LIMIT {
                old(self).octave() - 1
            } else {
                old(self).octave() as int
            },
            final(self).held() == old(self).held(),
            final(self).counters() == old(self).counters(),
    {
        proof {
            assert(OCTAVE_LIMIT == 8);
        }
        if self.current_octave > -OCTAVE_LIMIT {
            self.current_octave = self.current_octave - 1;
        }
        proof {
            lemma_held_facts(*old(self), *self);
        }
    }

    /// The running press counter of a key slot.
    pub fn press_counter(&self, key: u32) -> (c: u32)
        requires
            self.wf(),
            key < NUM_KEYS,
        ensures
            c == self.counters()[key as int],
    {
        self.counters[key as usize]
    }

    /// A rising edge of a key slot: bumps the slot's press counter, marks the
    /// slot held, and mints the event that starts a voice under a fresh id.
    /// An out-of-range slot, or a rising edge of a slot already held, is
    /// ignored.
    pub fn press(&mut self, key: u32) -> (ev: Option<KeyboardEvent>)
        requires
            old(self).wf(),
        ensures
            final(self).wf(),
            final(self).octave() == old(self).octave(),
            key < NUM_KEYS && !holds_key(old(self).held(), key) ==> {
                &&& final(self).counters() == old(self).counters().update(
                    key as int,
                    bumped(old(self).counters()[key as int]),
                )
                &&& final(self).held() == old(self).held().push(key)
                &&& ev == Some(
                    KeyboardEvent {
                        uid: mint_id_spec(bumped(old(self).counters()[key as int]), key),
                        freq_millihertz: freq_spec(key, old(self).octave()),
                        pressed: true,
                    },
                )
            },
            !(key < NUM_KEYS && !holds_key(old(self).held(), key)) ==> ev is None
                && final(self).counters() == old(self).counters() && final(self).held()
                == old(self).held(),
    {
        if key >= NUM_KEYS {
            return None;
        }
        if self.is_held(key) {
            return None;
        }
        let c: u32 = self.counters[key as usize];
        let next: u32 = if c == 0xFFFF_FFFFu32 {
            0u32
        } else {
            c + 1
        };
        self.counters.set(key as usize, next);
        self.held_keys.push(key);
        let uid: u32 = mint_id(next, key);
        let freq: u64 = self.freq_of(key);
        Some(KeyboardEvent { uid, freq_millihertz: freq, pressed: true })
    }

    /// A falling edge of a key slot: unmarks the slot and mints the event
    /// that stops the voice the matching press started, under the same id.
    /// A falling edge of a slot that is not held is ignored.
    #[verifier::rlimit(60)]
    pub fn release(&mut self, key: u32) -> (ev: Option<KeyboardEvent>)
        requires
            old(self).wf(),
        ensures
            final(self).wf(),
            final(self).octave() == old(self).octave(),
            final(self).counters() == old(self).counters(),
            key < NUM_KEYS && holds_key(old(self).held(), key) ==> {
                &&& !holds_key(final(self).held(), key)
                &&& final(self).held().len() == old(self).held().len() - 1
                &&& forall|k: u32|
                    k != key ==> (holds_key(final(self).held(), k) == holds_key(
                        old(self).held(),
                        k,
                    ))
                &&& ev == Some(
                    KeyboardEvent {
                        uid: mint_id_spec(old(self).counters()[key as int], key),
                        freq_millihertz: 0,
                        pressed: false,
                    },
                )
            },
            !(key < NUM_KEYS && holds_key(old(self).held(), key)) ==> ev is None
                && final(self).held() == old(self).held(),
    {
        if key >= NUM_KEYS {
            return None;
        }
        let n: usize = self.held_keys.len();
        let mut i: usize = 0;
        while i < n
            invariant
                old(self).wf(),
                key < NUM_KEYS,
                *self == *old(self),
                n == self.held_keys@.len(),
                i <= n,
                forall|k: int| 0 <= k < i ==> (#[trigger] self.held_keys@[k]) != key,
            decreases n - i,
        {
            if self.held_keys[i] == key {
                let ghost before = self.held_keys@;
                self.held_keys.remove(i);
                let uid: u32 = mint_id(self.counters[key as usize], key);
                proof {
                    assert forall|a: int| 0 <= a < before.len() implies (#[trigger] before[a])
                        < NUM_KEYS by {
                        assert(old(self).held()[a] < NUM_KEYS);
                    }
                    assert forall|a: int, b: int|
                        0 <= a < b < before.len() implies (#[trigger] before[a]) != (
                    #[trigger] before[b]) by {
                        assert(old(self).held()[a] != old(self).held()[b]);
                    }
                    lemma_remove_held(before, i as int, key);
                }
                return Some(KeyboardEvent { uid, freq_millihertz: 0, pressed: false });
            }
            i = i + 1;
        }
        None
    }

    /// Whether a key slot is currently held.
    pub fn is_held(&self, key: u32) -> (held: bool)
        ensures
            held == holds_key(self.held(), key),
    {
        let n: usize = self.held_keys.len();
        let mut i: usize = 0;
        while i < n
            invariant
                n == self.held_keys@.len(),
                i <= n,
                forall|k: int| 0 <= k < i ==> (#[trigger] self.held_keys@[k]) != key,
            decreases n - i,
        {
            if self.held_keys[i] == key {
                return true;
            }
            i = i + 1;
        }
        false
    }

    /// The pitch a key slot sounds at under the current octave shift.
    pub fn freq_of(&self, key: u32) -> (freq: u64)
        requires
            self.wf(),
            key < NUM_KEYS,
        ensures
            freq == freq_spec(key, self.octave()),
    {
        let base: u64 = base_freq_millihertz(key);
        if self.current_octave >= 0 {
            base << (self.current_octave as u32)
        } else {
            base >> ((-self.current_octave) as u32)
        }
    }
}

/// The equal-tempered centre-octave pitch of a key slot, in millihertz.
pub fn base_freq_millihertz(key: u32) -> (freq: u64)
    ensures
        freq == base_freq_spec(key),
{
    if key == 0 {
        440000u64
    } else if key == 1 {
        466164u64
    } else if key == 2 {
        493883u64
    } else if key == 3 {
        523251u64
    } else if key == 4 {
        554365u64
    } else if key == 5 {
        587330u64
    } else if key == 6 {
        622254u64
    } else if key == 7 {
        659255u64
    } else if key == 8 {
        698456u64
    } else if key == 9 {
        739989u64
    } else if key == 10 {
        783991u64
    } else if key == 11 {
        830609u64
    } else if key == 12 {
        880000u64
    } else if key == 13 {
        932328u64
    } else if key == 14 {
        987767u64
    } else if key == 15 {
        1046502u64
    } else if key == 16 {
        1108731u64
    } else if key == 17 {
        1174659u64
    } else if key == 18 {
        1244508u64
    } else if key == 19 {
        1318510u64
    } else if key == 20 {
        1396913u64
    } else if key == 21 {
        1479978u64
    } else if key == 22 {
        1567982u64
    } else {
        0u64
    }
}

/// A keyboard that keeps its held list and counters keeps the held-list
/// part of well-formedness.
proof fn lemma_held_facts(before: Keyboard, after: Keyboard)
    requires
        before.wf(),
        after.held() == before.held(),
        after.counters() == before.counters(),
    ensures
        after.counters().len() == NUM_KEYS,
        forall|i: int| 0 <= i < after.held().len() ==> (#[trigger] after.held()[i]) < NUM_KEYS,
        forall|i: int, j: int|
            0 <= i < j < after.held().len() ==> (#[trigger] after.held()[i]) != (
            #[trigger] after.held()[j]),
{
    assert forall|i: int| 0 <= i < after.held().len() implies (#[trigger] after.held()[i])
        < NUM_KEYS by {
        assert(before.held()[i] < NUM_KEYS);
    }
    assert forall|i: int, j: int|
        0 <= i < j < after.held().len() implies (#[trigger] after.held()[i]) != (
    #[trigger] after.held()[j]) by {
        assert(before.held()[i] != before.held()[j]);
    }
}

/// Removing the one occurrence of a key slot from a held list of distinct
/// valid slots: the slot is gone, every other slot's membership is kept, and
/// the list stays distinct and valid.
proof fn lemma_remove_held(before: Seq<u32>, i: int, key: u32)
    requires
        0 <= i < before.len(),
        before[i] == key,
        forall|a: int| 0 <= a < before.len() ==> (#[trigger] before[a]) < NUM_KEYS,
        forall|a: int, b: int|
            0 <= a < b < before.len() ==> (#[trigger] before[a]) != (#[trigger] before[b]),
    ensures
        before.remove(i).len() == before.len() - 1,
        !holds_key(before.remove(i), key),
        forall|k: u32| k != key ==> holds_key(before.remove(i), k) == holds_key(before, k),
        forall|a: int| 0 <= a < before.remove(i).len() ==> (#[trigger] before.remove(i)[a]) < NUM_KEYS,
        forall|a: int, b: int|
            0 <= a < b < before.remove(i).len() ==> (#[trigger] before.remove(i)[a]) != (
            #[trigger] before.remove(i)[b]),
{
    let after = before.remove(i);
    before.remove_ensures(i);
    assert forall|a: int| 0 <= a < after.len() implies (#[trigger] after[a]) != key by {
        if a < i {
            assert(after[a] == before[a]);
            if before[a] == key {
                assert(before[a] != before[i]);
            }
        } else {
            assert(after[a] == before[a + 1]);
            assert(before[i] != before[a + 1]);
        }
    }
    assert forall|k: u32| k != key && holds_key(before, k) implies holds_key(after, k) by {
        let w = choose|w: int| 0 <= w < before.len() && before[w] == k;
        if w < i {
            assert(after[w] == k);
        } else {
            assert(after[w - 1] == k);
        }
    }
    assert forall|k: u32| k != key && holds_key(after, k) implies holds_key(before, k) by {
        let w = choose|w: int| 0 <= w < after.len() && after[w] == k;
        if w < i {
            assert(before[w] == k);
        } else {
            assert(before[w + 1] == k);
        }
    }
}

/// The note command one keyboard event translates to.
pub open spec fn command_of_event_spec(ev: KeyboardEvent) -> NoteCommand {
    if ev.pressed {
        NoteCommand::PlaySound {
            params: VoiceParams { freq_millihertz: ev.freq_millihertz },
            id: ev.uid,
        }
    } else {
        NoteCommand::StopSound { id: ev.uid }
    }
}

/// Translates one key edge into its note command: a press becomes a play
/// command at the event's pitch, a release becomes a stop for the id minted
/// at press time.
pub fn command_of_event(ev: &KeyboardEvent) -> (cmd: NoteCommand)
    ensures
        cmd == command_of_event_spec(*ev),
{
    if ev.pressed {
        NoteCommand::PlaySound {
            params: VoiceParams { freq_millihertz: ev.freq_millihertz },
            id: ev.uid,
        }
    } else {
        NoteCommand::StopSound { id: ev.uid }
    }
}

} // verus!
