//! Note bookkeeping of a single voice, with the protocol by which a sounding
//! voice is stolen for a new note.

use vstd::prelude::*;
use crate::linear_eg::{state_after, lemma_fall_ends_at_zero, EnvelopeState, LinearEG};
use crate::voice_utils::MidiEvent;

verus! {

/// What the caller has to do to the sound of a voice after `FmVoice::note_on`.
#[derive(Clone, Copy, Debug, PartialEq, Eq, Structural)]
pub enum NoteOnAction {
    /// The voice was free: start the operators and the attack for the new note.
    Start,
    /// The voice was sounding: bring its level to zero at the fast fixed rate.
    /// The new note waits until `FmVoice::finish_render` hands it over.
    Steal,
}

/// What `FmVoice::note_off` did with a note-off.
#[derive(Clone, Copy, Debug, PartialEq, Eq, Structural)]
pub enum NoteOffAction {
    /// The note-off concerned neither the sounding nor the waiting note.
    Ignored,
    /// The note that waited for the voice was withdrawn; the sound is untouched.
    PendingCancelled,
    /// The sounding note was released: end the operators' note and start the release.
    Released,
}

/// What `FmVoice::finish_render` did when it completed a steal.
#[derive(Clone, Copy, Debug, PartialEq, Eq, Structural)]
pub struct StealOutcome {
    /// The note that was cut short, if it had not been released before. Its
    /// operators still need their note-off.
    pub finalized: Option<MidiEvent>,
    /// The note that took the voice over, if it was not withdrawn meanwhile.
    /// Its operators and attack are to be started.
    pub started: Option<MidiEvent>,
}

/// Note bookkeeping of one FM voice: the master envelope's segment, the note
/// that sounds, and the note that waits for the voice while it is being stolen.
///
/// Operators, levels and buffers are the caller's. Every method tells the
/// caller which change of the sound goes with the change of state it made.
#[derive(Clone, Copy, Debug, PartialEq, Eq, Structural)]
pub struct FmVoice {
    /// Master envelope.
    pub eg: LinearEG,
    /// True from a note-on that found the voice sounding until the hand-over.
    pub is_stealing: bool,
    /// The note that sounds.
    pub current_midi_event: Option<MidiEvent>,
    /// The note that takes over once the forced fall has reached zero.
    pub next_midi_event: Option<MidiEvent>,
}

impl FmVoice {
    /// The voice after a note-on for `event`.
    pub open spec fn after_note_on(self, event: MidiEvent) -> FmVoice {
        if self.eg.playing() {
            FmVoice {
                eg: LinearEG { state: EnvelopeState::Shutdown },
                is_stealing: true,
                current_midi_event: self.current_midi_event,
                next_midi_event: Some(event),
            }
        } else {
            FmVoice {
                eg: LinearEG { state: EnvelopeState::Attack },
                is_stealing: self.is_stealing,
                current_midi_event: Some(event),
                next_midi_event: self.next_midi_event,
            }
        }
    }

    /// How a note-off addressed to (`voice_id`, `channel`, `note`) is answered.
    pub open spec fn note_off_action(self, voice_id: Option<i32>, channel: u8, note: u8) -> NoteOffAction {
        if self.is_stealing {
            if self.next_midi_event is Some && self.next_midi_event->0.matches_spec(voice_id, channel, note) {
                NoteOffAction::PendingCancelled
            } else {
                NoteOffAction::Ignored
            }
        } else {
            if self.current_midi_event is Some && self.current_midi_event->0.matches_spec(voice_id, channel, note) {
                NoteOffAction::Released
            } else {
                NoteOffAction::Ignored
            }
        }
    }

    /// The voice after that note-off. `above_floor` says whether the master
    /// level is above zero.
    pub open spec fn after_note_off(
        self,
        voice_id: Option<i32>,
        channel: u8,
        note: u8,
        above_floor: bool,
    ) -> FmVoice {
        match self.note_off_action(voice_id, channel, note) {
            NoteOffAction::Ignored => self,
            NoteOffAction::PendingCancelled => FmVoice { next_midi_event: None, ..self },
            NoteOffAction::Released => FmVoice {
                eg: LinearEG {
                    state: if above_floor {
                        EnvelopeState::Release
                    } else {
                        EnvelopeState::Off
                    },
                },
                current_midi_event: None,
                ..self
            },
        }
    }

    /// Whether a steal is ready to be completed: the voice is being stolen and
    /// its master envelope has come to rest.
    pub open spec fn steal_due(self) -> bool {
        self.is_stealing && !self.eg.playing()
    }

    /// The voice after the hand-over that ends a steal.
    pub open spec fn after_steal(self) -> FmVoice {
        FmVoice {
            eg: if self.next_midi_event is Some {
                LinearEG { state: EnvelopeState::Attack }
            } else {
                self.eg
            },
            is_stealing: false,
            current_midi_event: self.next_midi_event,
            next_midi_event: None,
        }
    }

    /// A free voice.
    pub fn new() -> (voice: Self)
        ensures
            voice.eg.state == EnvelopeState::Off,
            !voice.is_stealing,
            voice.current_midi_event is None,
            voice.next_midi_event is None,
    {
        FmVoice {
            eg: LinearEG::new(),
            is_stealing: false,
            current_midi_event: None,
            next_midi_event: None,
        }
    }

    /// Silences the master envelope. Notes and a steal in progress are kept.
    pub fn reset(&mut self)
        ensures
            *final(self) == (FmVoice { eg: LinearEG { state: EnvelopeState::Off }, ..*old(self) }),
    {
        self.eg.reset();
    }

    /// Takes a note-on. A voice that is sounding is stolen: the note is kept
    /// waiting and the master envelope is forced down. A free voice starts the
    /// note at once.
    pub fn note_on(&mut self, note: u8, velocity: u32, voice_id: Option<i32>, channel: u8) -> (action:
        NoteOnAction)
        ensures
            *final(self) == old(self).after_note_on(
                MidiEvent { timing: 0, voice_id, channel, note, velocity },
            ),
            action == (if old(self).eg.playing() {
                NoteOnAction::Steal
            } else {
                NoteOnAction::Start
            }),
    {
        let event = MidiEvent { timing: 0, voice_id, channel, note, velocity };
        if self.eg.is_playing() {
            self.is_stealing = true;
            self.next_midi_event = Some(event);
            self.eg.shutdown();
            NoteOnAction::Steal
        } else {
            self.current_midi_event = Some(event);
            self.eg.note_on();
            NoteOnAction::Start
        }
    }

    /// Takes a note-off. During a steal only the waiting note can be meant, and
    /// it is withdrawn; otherwise the sounding note, if it is meant, is released.
    /// `above_floor` says whether the master level is above zero, which decides
    /// between a release tail and silence.
    pub fn note_off(&mut self, voice_id: Option<i32>, channel: u8, note: u8, above_floor: bool) -> (action:
        NoteOffAction)
        ensures
            action == old(self).note_off_action(voice_id, channel, note),
            *final(self) == old(self).after_note_off(voice_id, channel, note, above_floor),
    {
        if self.is_stealing {
            match self.next_midi_event {
                Some(event) => {
                    if event.matches(voice_id, channel, note) {
                        self.next_midi_event = None;
                        NoteOffAction::PendingCancelled
                    } else {
                        NoteOffAction::Ignored
                    }
                },
                None => NoteOffAction::Ignored,
            }
        } else {
            match self.current_midi_event {
                Some(event) => {
                    if event.matches(voice_id, channel, note) {
                        self.eg.note_off(above_floor);
                        self.current_midi_event = None;
                        NoteOffAction::Released
                    } else {
                        NoteOffAction::Ignored
                    }
                },
                None => NoteOffAction::Ignored,
            }
        }
    }

    pub fn is_playing(&self) -> (playing: bool)
        ensures
            playing == self.eg.playing(),
    {
        self.eg.is_playing()
    }

    /// To be called when a block has been rendered. If the voice is being
    /// stolen and its master envelope has come to rest, the steal is completed:
    /// the old note is dropped, the waiting note becomes the sounding one and
    /// its attack starts. Otherwise nothing changes.
    pub fn finish_render(&mut self) -> (outcome: Option<StealOutcome>)
        ensures
            old(self).steal_due() ==> *final(self) == old(self).after_steal() && outcome == Some(
                StealOutcome {
                    finalized: old(self).current_midi_event,
                    started: old(self).next_midi_event,
                },
            ),
            !old(self).steal_due() ==> *final(self) == *old(self) && outcome is None,
    {
        if self.is_stealing && !self.eg.is_playing() {
            Some(self.finish_voice_steal())
        } else {
            None
        }
    }

    fn finish_voice_steal(&mut self) -> (outcome: StealOutcome)
        requires
            !old(self).eg.playing(),
        ensures
            *final(self) == old(self).after_steal(),
            outcome.finalized == old(self).current_midi_event,
            outcome.started == old(self).next_midi_event,
    {
        self.is_stealing = false;
        let finalized = self.current_midi_event;
        let started = self.next_midi_event;
        self.current_midi_event = started;
        self.next_midi_event = None;
        if started.is_some() {
            self.eg.note_on();
        }
        StealOutcome { finalized, started }
    }
}

/// A note-on that finds the voice sounding never interrupts it: the voice is
/// marked as being stolen, the note waits, and the master envelope is sent
/// into its forced fall.
pub proof fn lemma_note_on_while_playing_steals(voice: FmVoice, event: MidiEvent)
    requires
        voice.eg.playing(),
    ensures
        voice.after_note_on(event).is_stealing,
        voice.after_note_on(event).next_midi_event == Some(event),
        voice.after_note_on(event).current_midi_event == voice.current_midi_event,
        voice.after_note_on(event).eg.state == EnvelopeState::Shutdown,
{
}

/// A steal hands the voice over. Take a voice that is being stolen for
/// `event`, with its master envelope in the forced fall. Render samples, with
/// `reached` telling for each whether the level had arrived at zero. If it
/// had for one of them, the hand-over is due afterwards, and it leaves the
/// voice sounding `event`, in its attack, with nothing waiting.
pub proof fn lemma_steal_hands_over(voice: FmVoice, event: MidiEvent, reached: Seq<bool>)
    requires
        voice.is_stealing,
        voice.next_midi_event == Some(event),
        voice.eg.state == EnvelopeState::Shutdown,
        reached.contains(true),
    ensures
        ({
            let rested = FmVoice { eg: LinearEG { state: state_after(voice.eg.state, reached) }, ..voice };
            &&& rested.steal_due()
            &&& !rested.after_steal().is_stealing
            &&& rested.after_steal().current_midi_event == Some(event)
            &&& rested.after_steal().next_midi_event is None
            &&& rested.after_steal().eg.state == EnvelopeState::Attack
        }),
{
    lemma_fall_ends_at_zero(voice.eg.state, reached);
}

/// Until the level has arrived at zero the steal stays pending: the hand-over
/// is not due after any number of samples.
pub proof fn lemma_steal_waits(voice: FmVoice, reached: Seq<bool>)
    requires
        voice.is_stealing,
        voice.eg.state == EnvelopeState::Shutdown,
        !reached.contains(true),
    ensures
        !(FmVoice { eg: LinearEG { state: state_after(voice.eg.state, reached) }, ..voice }).steal_due(),
{
    lemma_fall_ends_at_zero(voice.eg.state, reached);
}

} // verus!
