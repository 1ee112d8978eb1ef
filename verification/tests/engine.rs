use synth::command::CommandQueue;
use synth::command::NoteCommand;
use synth::command::VoiceParams;
use synth::driver::apply_command;
use synth::driver::render;
use synth::driver::run_callback;
use synth::envelope::EnvelopeStage;
use synth::hash::khash;
use synth::hash::mint_id;
use synth::keyboard::command_of_event;
use synth::keyboard::Keyboard;
use synth::mixer::Mixer;

fn play(freq_millihertz: u64, id: u32) -> NoteCommand {
    NoteCommand::PlaySound { params: VoiceParams { freq_millihertz }, id }
}

#[test]
fn khash_concrete_values() {
    assert_eq!(khash(0), 1739749167);
    assert_eq!(khash(1), 150776505);
    assert_eq!(khash(3), 3950965574);
    assert_eq!(mint_id(1, 3), 624052630);
    assert_eq!(mint_id(1, 0), 1029789431);
    assert_eq!(mint_id(2, 0), 2367779463);
}

#[test]
fn khash_distinct_ids_same_slot() {
    // Successive presses of one slot mint distinct ids.
    let mut seen = Vec::new();
    for c in 1u32..200 {
        let id = mint_id(c, 0);
        assert!(!seen.contains(&id));
        seen.push(id);
    }
}

#[test]
fn queue_fifo_order() {
    let mut q = CommandQueue::new(5);
    assert!(q.try_send(play(1, 10)));
    assert!(q.try_send(play(2, 20)));
    assert!(q.try_send(NoteCommand::StopSound { id: 10 }));
    assert_eq!(q.queued(), 3);
    assert_eq!(q.try_recv(), Some(play(1, 10)));
    assert_eq!(q.try_recv(), Some(play(2, 20)));
    assert_eq!(q.try_recv(), Some(NoteCommand::StopSound { id: 10 }));
    assert_eq!(q.try_recv(), None);
}

#[test]
fn queue_drop_when_full() {
    // Sending more commands than capacity without any receive retains
    // exactly `capacity` commands, the oldest ones, and drops the rest.
    let mut q = CommandQueue::new(5);
    for i in 0u32..9 {
        let accepted = q.try_send(play(i as u64, i));
        assert_eq!(accepted, i < 5);
    }
    assert_eq!(q.queued(), 5);
    for i in 0u32..5 {
        assert_eq!(q.try_recv(), Some(play(i as u64, i)));
    }
    assert_eq!(q.try_recv(), None);
}

#[test]
fn queue_wraps_around() {
    let mut q = CommandQueue::new(3);
    assert!(q.try_send(play(1, 1)));
    assert!(q.try_send(play(2, 2)));
    assert_eq!(q.try_recv(), Some(play(1, 1)));
    assert!(q.try_send(play(3, 3)));
    assert!(q.try_send(play(4, 4)));
    assert!(!q.try_send(play(5, 5)));
    assert_eq!(q.try_recv(), Some(play(2, 2)));
    assert_eq!(q.try_recv(), Some(play(3, 3)));
    assert_eq!(q.try_recv(), Some(play(4, 4)));
    assert_eq!(q.try_recv(), None);
}

#[test]
fn mixer_tick_no_voices_is_zero() {
    let mut m = Mixer::new(44100);
    for _ in 0..100 {
        assert_eq!(m.tick(), 0);
        assert_eq!(m.voice_count(), 0);
    }
}

#[test]
fn mixer_single_voice_attack_then_sustain_samples() {
    // Sample rate 1000: attack is 10 samples, release 250. A 250 Hz voice
    // advances a quarter cycle per tick, so in sustain (amplitude one) the
    // raw sawtooth samples repeat 32768, -65536, -32768, 0.
    let mut m = Mixer::new(1000);
    m.add_sound(VoiceParams { freq_millihertz: 250_000 }, 7);
    assert_eq!(m.voice_count(), 1);
    let expected = [
        -3277i64, 0, 9830, -26214, -16384, 0, 22937, -52428, -29491, 0, 32768, -65536, -32768, 0,
        32768, -65536,
    ];
    for (t, want) in expected.iter().enumerate() {
        let got = m.tick();
        assert_eq!(got, *want, "tick {}", t + 1);
    }
    assert_eq!(m.stage_of(7), Some(EnvelopeStage::Sustain));
}

#[test]
fn voice_sustains_until_stopped() {
    // A voice that is never stopped never finishes: sustain holds
    // indefinitely until an explicit stop.
    let mut m = Mixer::new(1000);
    m.add_sound(VoiceParams { freq_millihertz: 250_000 }, 1);
    for _ in 0..10_000 {
        m.tick();
        assert_eq!(m.voice_count(), 1);
    }
    assert_eq!(m.stage_of(1), Some(EnvelopeStage::Sustain));
}

#[test]
fn voice_finishes_after_release() {
    // Only after stop_sound does the voice finish, within release_time
    // ticks; the mixer reclaims it the tick it finishes.
    let mut m = Mixer::new(1000);
    m.add_sound(VoiceParams { freq_millihertz: 250_000 }, 1);
    for _ in 0..20 {
        m.tick();
    }
    m.stop_sound(1);
    assert_eq!(m.stage_of(1), Some(EnvelopeStage::Release));
    let mut finished_at = None;
    for t in 1..=250 {
        m.tick();
        if m.voice_count() == 0 {
            finished_at = Some(t);
            break;
        }
    }
    assert_eq!(finished_at, Some(250));
    assert_eq!(m.stage_of(1), None);
}

#[test]
fn stop_twice_same_as_once() {
    // Idempotent stop: a second stop neither accelerates the release nor
    // changes any later sample.
    let mut once = Mixer::new(1000);
    let mut twice = Mixer::new(1000);
    for m in [&mut once, &mut twice] {
        m.add_sound(VoiceParams { freq_millihertz: 250_000 }, 9);
        for _ in 0..15 {
            m.tick();
        }
    }
    once.stop_sound(9);
    twice.stop_sound(9);
    twice.stop_sound(9);
    for t in 0..300 {
        assert_eq!(once.tick(), twice.tick(), "tick {} after stop", t);
        assert_eq!(once.voice_count(), twice.voice_count());
    }
    assert_eq!(once.voice_count(), 0);
}

#[test]
fn stop_unknown_id_is_noop() {
    let mut m = Mixer::new(1000);
    m.add_sound(VoiceParams { freq_millihertz: 250_000 }, 1);
    m.stop_sound(42);
    assert_eq!(m.voice_count(), 1);
    assert_eq!(m.stage_of(1), Some(EnvelopeStage::Attack));
    let mut empty = Mixer::new(1000);
    empty.stop_sound(42);
    assert_eq!(empty.voice_count(), 0);
}

#[test]
fn add_sound_same_id_replaces() {
    // A play command reusing a live id overwrites the voice, not a crash
    // and not a second voice.
    let mut m = Mixer::new(1000);
    m.add_sound(VoiceParams { freq_millihertz: 250_000 }, 5);
    for _ in 0..15 {
        m.tick();
    }
    assert_eq!(m.stage_of(5), Some(EnvelopeStage::Sustain));
    m.add_sound(VoiceParams { freq_millihertz: 250_000 }, 5);
    assert_eq!(m.voice_count(), 1);
    assert_eq!(m.stage_of(5), Some(EnvelopeStage::Attack));
}

#[test]
fn press_key_three_scenario() {
    // Press key slot 3: its press counter becomes 1 and the event carries
    // id khash(1) * khash(3); before any tick the mixer holds no voices;
    // once attack_time has elapsed the voice's stage is sustain.
    let mut kb = Keyboard::new();
    let ev = kb.press(3).expect("press of a valid slot yields an event");
    assert_eq!(kb.press_counter(3), 1);
    assert!(ev.pressed);
    assert_eq!(ev.uid, 624052630);
    assert_eq!(ev.uid, khash(1).wrapping_mul(khash(3)));
    let cmd = command_of_event(&ev);
    match cmd {
        NoteCommand::PlaySound { params, id } => {
            assert_eq!(id, 624052630);
            assert_eq!(params.freq_millihertz, ev.freq_millihertz);
        },
        NoteCommand::StopSound { .. } => panic!("a press must become a play command"),
    }
    let mut q = CommandQueue::new(5);
    assert!(q.try_send(cmd));
    assert_eq!(q.queued(), 1);

    let sample_rate = 1000u32;
    let mut m = Mixer::new(sample_rate);
    assert_eq!(m.voice_count(), 0);
    match q.try_recv() {
        Some(c) => apply_command(&mut m, c),
        None => panic!("the enqueued command must be received"),
    }
    assert_eq!(m.voice_count(), 1);
    // attack_time is 10 ms, so 10 ticks at 1000 samples per second.
    for _ in 0..10 {
        m.tick();
    }
    assert_eq!(m.stage_of(ev.uid), Some(EnvelopeStage::Sustain));
}

#[test]
fn keyboard_press_release_roundtrip() {
    let mut kb = Keyboard::new();
    let down = kb.press(4).unwrap();
    assert!(kb.is_held(4));
    let up = kb.release(4).unwrap();
    assert!(!kb.is_held(4));
    assert_eq!(down.uid, up.uid);
    assert!(!up.pressed);
    assert_eq!(up.freq_millihertz, 0);
    match command_of_event(&up) {
        NoteCommand::StopSound { id } => assert_eq!(id, down.uid),
        NoteCommand::PlaySound { .. } => panic!("a release must become a stop command"),
    }
    // A second press of the same slot mints a different id.
    let down2 = kb.press(4).unwrap();
    assert_eq!(kb.press_counter(4), 2);
    assert_ne!(down2.uid, down.uid);
}

#[test]
fn keyboard_ignores_invalid_edges() {
    let mut kb = Keyboard::new();
    assert_eq!(kb.press(23), None);
    assert_eq!(kb.release(23), None);
    assert_eq!(kb.release(3), None);
    kb.press(3).unwrap();
    assert_eq!(kb.press(3), None);
    assert_eq!(kb.press_counter(3), 1);
}

#[test]
fn keyboard_frequency_table() {
    let mut kb = Keyboard::new();
    let a = kb.press(0).unwrap();
    assert_eq!(a.freq_millihertz, 440_000);
    let a_octave_up = kb.press(12).unwrap();
    assert_eq!(a_octave_up.freq_millihertz, 880_000);
    let g_sharp = kb.press(22).unwrap();
    assert_eq!(g_sharp.freq_millihertz, 1_567_982);
    kb.octave_up();
    let c = kb.press(3).unwrap();
    assert_eq!(c.freq_millihertz, 523_251 * 2);
    kb.octave_down();
    kb.octave_down();
    let d = kb.press(5).unwrap();
    assert_eq!(d.freq_millihertz, 587_330 / 2);
}

#[test]
fn keyboard_octave_clamp() {
    let mut kb = Keyboard::new();
    for _ in 0..100 {
        kb.octave_up();
    }
    let hi = kb.press(0).unwrap();
    assert_eq!(hi.freq_millihertz, 440_000 << 8);
    for _ in 0..200 {
        kb.octave_down();
    }
    let lo = kb.press(1).unwrap();
    assert_eq!(lo.freq_millihertz, 466_164 >> 8);
}

#[test]
fn render_replicates_channels() {
    // Each frame's mixed sample is written identically into every channel.
    let mut m = Mixer::new(1000);
    m.add_sound(VoiceParams { freq_millihertz: 250_000 }, 1);
    let out = render(&mut m, 4, 3);
    assert_eq!(out.len(), 12);
    let expected_frames = [-3277i64, 0, 9830, -26214];
    for (f, want) in expected_frames.iter().enumerate() {
        for c in 0..3 {
            assert_eq!(out[f * 3 + c], *want, "frame {} channel {}", f, c);
        }
    }
}

#[test]
fn run_callback_drains_at_most_one() {
    // The classic schedule drains one command per callback: the second
    // command waits for the next invocation.
    let mut m = Mixer::new(1000);
    let mut q = CommandQueue::new(5);
    assert!(q.try_send(play(250_000, 1)));
    assert!(q.try_send(play(250_000, 2)));
    let out = run_callback(&mut m, &mut q, 2, 2, 1);
    assert_eq!(out.len(), 4);
    assert_eq!(q.queued(), 1);
    assert_eq!(m.voice_count(), 1);
    assert_eq!(out, vec![-3277, -3277, 0, 0]);
    let _ = run_callback(&mut m, &mut q, 2, 2, 1);
    assert_eq!(q.queued(), 0);
    assert_eq!(m.voice_count(), 2);
}

#[test]
fn run_callback_configurable_drain() {
    let mut m = Mixer::new(1000);
    let mut q = CommandQueue::new(5);
    for i in 0..4u32 {
        assert!(q.try_send(play(250_000, i)));
    }
    let _ = run_callback(&mut m, &mut q, 1, 1, 3);
    assert_eq!(q.queued(), 1);
    assert_eq!(m.voice_count(), 3);
}

#[test]
fn channel_transport_end_to_end() {
    // The real lock-free channel carries a press from the input side to the
    // audio callback, which drains at most one command per invocation.
    let ring = ringbuf::RingBuffer::<NoteCommand>::new(5);
    let (mut producer, mut consumer) = ring.split();
    let mut kb = Keyboard::new();
    let down = kb.press(0).unwrap();
    assert!(synth::channel::send_key_event(&mut producer, &down));
    let mut m = Mixer::new(1000);
    let out = synth::channel::stream_callback(&mut m, &mut consumer, 4, 2);
    assert_eq!(out.len(), 8);
    assert_eq!(m.voice_count(), 1);
    // A second callback with nothing queued mixes on undisturbed.
    let out2 = synth::channel::stream_callback(&mut m, &mut consumer, 4, 2);
    assert_eq!(out2.len(), 8);
    assert_eq!(m.voice_count(), 1);
    // Overflow past the channel capacity is dropped, never a block.
    for slot in 1..23u32 {
        if let Some(ev) = kb.press(slot) {
            let _ = synth::channel::send_key_event(&mut producer, &ev);
        }
    }
    let mut drained = 0;
    loop {
        let before = m.voice_count();
        let _ = synth::channel::stream_callback(&mut m, &mut consumer, 1, 1);
        if m.voice_count() == before {
            break;
        }
        drained += 1;
    }
    assert_eq!(drained, 5);
}

#[test]
fn mixer_voice_table_is_bounded() {
    // The table holds at most 64 voices, so a tick's work stays bounded; a
    // play command beyond that is dropped, while a live id is still
    // replaceable in place.
    let mut m = Mixer::new(1000);
    for id in 0..100u32 {
        m.add_sound(VoiceParams { freq_millihertz: 250_000 }, id);
    }
    assert_eq!(m.voice_count(), 64);
    assert_eq!(m.stage_of(63), Some(EnvelopeStage::Attack));
    assert_eq!(m.stage_of(64), None);
    m.add_sound(VoiceParams { freq_millihertz: 440_000 }, 63);
    assert_eq!(m.voice_count(), 64);
}
