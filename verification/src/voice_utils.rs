//! Note events and the interface between a voice pool and its voices.

use vstd::prelude::*;

verus! {

/// A note event as a voice remembers it.
#[derive(Clone, Copy, Debug, PartialEq, Eq, Structural)]
pub struct MidiEvent {
    pub timing: u32,
    /// A unique identifier for this note, if the host provides one.
    pub voice_id: Option<i32>,
    /// The note's channel, in `0..16`.
    pub channel: u8,
    /// The note's MIDI key number, in `0..128`.
    pub note: u8,
    /// The note's velocity, as the bit pattern of the host's single-precision
    /// value in `[0, 1]`. It is stored and handed back untouched.
    pub velocity: u32,
}

impl MidiEvent {
    /// Whether a note-off addressed to (`voice_id`, `channel`, `note`) is meant
    /// for this event: the identifiers are both present and equal, or channel
    /// and key number are both equal.
    pub open spec fn matches_spec(&self, voice_id: Option<i32>, channel: u8, note: u8) -> bool {
        ||| (self.voice_id is Some && voice_id is Some && self.voice_id->0 == voice_id->0)
        ||| (self.channel == channel && self.note == note)
    }

    #[verifier::when_used_as_spec(matches_spec)]
    pub fn matches(&self, voice_id: Option<i32>, channel: u8, note: u8) -> (hit: bool)
        ensures
            hit == self.matches_spec(voice_id, channel, note),
    {
        let same_id = match (self.voice_id, voice_id) {
            (Some(own), Some(other)) => own == other,
            _ => false,
        };
        same_id || (self.channel == channel && self.note == note)
    }
}

/// A note event as it reaches the synthesizer, already decoded.
#[derive(Clone, Copy, Debug, PartialEq, Eq, Structural)]
pub enum NoteEvent {
    NoteOn {
        /// Sample offset of the event within the buffer.
        timing: u32,
        voice_id: Option<i32>,
        channel: u8,
        note: u8,
        /// Bit pattern of the host's single-precision velocity in `[0, 1]`.
        velocity: u32,
    },
    NoteOff {
        /// Sample offset of the event within the buffer.
        timing: u32,
        voice_id: Option<i32>,
        channel: u8,
        note: u8,
    },
    /// Any other event. The synthesizer does not react to it, but it takes its
    /// place in the queue.
    Other {
        /// Sample offset of the event within the buffer.
        timing: u32,
    },
}

impl NoteEvent {
    /// Sample offset of the event within the buffer.
    pub open spec fn timing_spec(&self) -> u32 {
        match *self {
            NoteEvent::NoteOn { timing, .. } => timing,
            NoteEvent::NoteOff { timing, .. } => timing,
            NoteEvent::Other { timing } => timing,
        }
    }

    #[verifier::when_used_as_spec(timing_spec)]
    pub fn timing(&self) -> (timing: u32)
        ensures
            timing == self.timing_spec(),
    {
        match *self {
            NoteEvent::NoteOn { timing, .. } => timing,
            NoteEvent::NoteOff { timing, .. } => timing,
            NoteEvent::Other { timing } => timing,
        }
    }
}

/// What a voice pool needs from a voice.
///
/// `Params` is the snapshot of settings that the caller resolves once per block
/// (envelope times, operator ratios, sample rate and the like). The pool hands
/// it through and never looks inside.
///
/// Each method that changes a voice has a companion predicate over the voice
/// before and after the call. An implementation states there what its method
/// does; the pool's contracts repeat the predicate for every voice they call
/// the method on. Left at its default, a predicate says nothing.
pub trait Voice: Sized {
    type Params;

    /// Whether the voice is sounding, release tail included.
    spec fn playing(&self) -> bool;

    /// What holds of a voice that `new` returned.
    open spec fn created(v: Self) -> bool {
        true
    }

    /// What `initialize` does.
    open spec fn initialized(
        pre: Self,
        post: Self,
        num_channels: usize,
        max_samples_per_channel: usize,
    ) -> bool {
        true
    }

    /// What `render` does.
    open spec fn rendered(
        pre: Self,
        post: Self,
        num_samples_to_process: usize,
        params: &Self::Params,
    ) -> bool {
        true
    }

    /// What `reset` does.
    open spec fn cleared(pre: Self, post: Self, params: &Self::Params) -> bool {
        true
    }

    /// What `note_on` does.
    open spec fn note_started(
        pre: Self,
        post: Self,
        note: u8,
        velocity: u32,
        voice_id: Option<i32>,
        channel: u8,
        params: &Self::Params,
    ) -> bool {
        true
    }

    /// What `note_off` does.
    open spec fn note_ended(
        pre: Self,
        post: Self,
        voice_id: Option<i32>,
        channel: u8,
        note: u8,
        params: &Self::Params,
    ) -> bool {
        true
    }

    fn new() -> (v: Self)
        ensures
            Self::created(v),
    ;

    /// Sizes the voice's buffers. Called once, before any rendering.
    fn initialize(&mut self, num_channels: usize, max_samples_per_channel: usize)
        ensures
            Self::initialized(*old(self), *final(self), num_channels, max_samples_per_channel),
    ;

    /// Produces the next `num_samples_to_process` samples into the voice's own buffer.
    fn render(&mut self, num_samples_to_process: usize, params: &Self::Params)
        ensures
            Self::rendered(*old(self), *final(self), num_samples_to_process, params),
    ;

    fn reset(&mut self, params: &Self::Params)
        ensures
            Self::cleared(*old(self), *final(self), params),
    ;

    /// Gives the voice a note. `velocity` is the bit pattern of the host's
    /// single-precision velocity.
    fn note_on(
        &mut self,
        note: u8,
        velocity: u32,
        voice_id: Option<i32>,
        channel: u8,
        params: &Self::Params,
    )
        ensures
            Self::note_started(*old(self), *final(self), note, velocity, voice_id, channel, params),
    ;

    /// Tells the voice that a note ended; the voice decides whether it is concerned.
    fn note_off(&mut self, voice_id: Option<i32>, channel: u8, note: u8, params: &Self::Params)
        ensures
            Self::note_ended(*old(self), *final(self), voice_id, channel, note, params),
    ;

    fn is_playing(&self) -> (playing: bool)
        ensures
            playing == self.playing(),
    ;
}

} // verus!
