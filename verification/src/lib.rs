//! Real-time polyphonic synthesis core.
//!
//! A visual keyboard mints note commands that cross to an audio callback over
//! a bounded single-producer/single-consumer channel; a mixer owns the live
//! voice table, advances every voice once per sample, and sums their outputs.
//! All amplitudes and samples are fixed-point integers (`AMP_ONE` is full
//! scale); the device-facing wrapper converts them to the stream's native
//! float format at the buffer-write step.

pub mod channel;
pub mod command;
pub mod driver;
pub mod envelope;
pub mod hash;
pub mod keyboard;
pub mod mixer;
pub mod voice;

pub use command::CommandQueue;
pub use command::NoteCommand;
pub use command::VoiceParams;
pub use envelope::Envelope;
pub use envelope::EnvelopeStage;
pub use hash::khash;
pub use hash::mint_id;
pub use keyboard::Keyboard;
pub use keyboard::KeyboardEvent;
pub use mixer::Mixer;
pub use voice::Voice;
