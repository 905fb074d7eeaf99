//! Verified core of a voice-channel audio bot: per-guild playback queues,
//! a session registry, and the decision logic behind each chat command.
//!
//! The chat transport, the voice transport and the media resolver are
//! external collaborators; this crate holds the state machines they drive.

pub mod errors;
pub mod laws;
pub mod queue;
pub mod resolver;
pub mod session;
pub mod track;
