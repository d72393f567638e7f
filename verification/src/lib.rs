//! Control core of a polyphonic FM synthesizer.
//!
//! The crate holds every decision the synthesizer takes that does not need
//! sample arithmetic: which envelope segment is running, how a voice is
//! stolen and handed to its next note, which voice of the pool takes a new
//! note, how polyphony grows and shrinks, and where an audio buffer is cut so
//! that note events fall on block boundaries. Signal levels are kept by the
//! caller, who reports to the core what it needs to know about them.

pub mod allocation;
pub mod consts;
pub mod fm_voice;
pub mod linear_eg;
pub mod scheduler;
pub mod voice_group;
pub mod voice_utils;
