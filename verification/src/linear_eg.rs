//! Segments of the linear envelope and the events that move it from one to
//! the next.

use vstd::prelude::*;

verus! {

/// Segment of the linear envelope.
#[derive(Clone, Copy, Debug, PartialEq, Eq, Structural)]
pub enum EnvelopeState {
    /// Silent; the level rests at the start level.
    Off,
    /// Rising towards full level.
    Attack,
    /// Falling from full level towards the sustain level.
    Decay,
    /// Holding the sustain level until the note is released.
    Sustain,
    /// Falling towards zero after the note was released.
    Release,
    /// Falling towards zero at the fixed fast rate used to free a voice.
    Shutdown,
}

/// The segment that follows `state` once one more sample has been produced.
///
/// `reached` says whether the segment is over: the new level has arrived at
/// the level the segment runs towards (full level or above in `Attack`, the
/// sustain level or below in `Decay`, zero or below in `Release` and
/// `Shutdown`), or the segment was given no length at all. The two resting
/// segments, `Off` and `Sustain`, are left by a note event only.
pub open spec fn next_state(state: EnvelopeState, reached: bool) -> EnvelopeState {
    match state {
        EnvelopeState::Off => EnvelopeState::Off,
        EnvelopeState::Attack => if reached {
            EnvelopeState::Decay
        } else {
            EnvelopeState::Attack
        },
        EnvelopeState::Decay => if reached {
            EnvelopeState::Sustain
        } else {
            EnvelopeState::Decay
        },
        EnvelopeState::Sustain => EnvelopeState::Sustain,
        EnvelopeState::Release => if reached {
            EnvelopeState::Off
        } else {
            EnvelopeState::Release
        },
        EnvelopeState::Shutdown => if reached {
            EnvelopeState::Off
        } else {
            EnvelopeState::Shutdown
        },
    }
}

/// The segment an envelope is in after it has produced one sample for each
/// entry of `reached`, starting in `state`.
pub open spec fn state_after(state: EnvelopeState, reached: Seq<bool>) -> EnvelopeState
    decreases reached.len(),
{
    if reached.len() == 0 {
        state
    } else {
        next_state(state_after(state, reached.drop_last()), reached.last())
    }
}

/// Segment sequencer of a linear attack-decay-sustain-release envelope.
///
/// It records which segment is running. The level and its per-sample step
/// belong to the caller, who tells the sequencer after each sample whether the
/// segment's target level was reached.
#[derive(Clone, Copy, Debug, PartialEq, Eq, Structural)]
pub struct LinearEG {
    pub state: EnvelopeState,
}

impl LinearEG {
    /// True in every segment but `Off`.
    pub open spec fn playing(&self) -> bool {
        self.state != EnvelopeState::Off
    }

    /// A silent envelope.
    pub fn new() -> (eg: Self)
        ensures
            eg.state == EnvelopeState::Off,
    {
        LinearEG { state: EnvelopeState::Off }
    }

    /// Silences the envelope at once.
    pub fn reset(&mut self)
        ensures
            final(self).state == EnvelopeState::Off,
    {
        self.state = EnvelopeState::Off;
    }

    /// Starts the attack, from whatever segment the envelope is in.
    pub fn note_on(&mut self)
        ensures
            final(self).state == EnvelopeState::Attack,
    {
        self.state = EnvelopeState::Attack;
    }

    /// Releases the note. `above_floor` says whether the level is above zero:
    /// if it is, the release segment starts, otherwise the envelope is off.
    pub fn note_off(&mut self, above_floor: bool)
        ensures
            above_floor ==> final(self).state == EnvelopeState::Release,
            !above_floor ==> final(self).state == EnvelopeState::Off,
    {
        if above_floor {
            self.state = EnvelopeState::Release;
        } else {
            self.state = EnvelopeState::Off;
        }
    }

    /// Starts the forced fast fall to zero, from whatever segment the envelope is in.
    pub fn shutdown(&mut self)
        ensures
            final(self).state == EnvelopeState::Shutdown,
    {
        self.state = EnvelopeState::Shutdown;
    }

    pub fn is_playing(&self) -> (playing: bool)
        ensures
            playing == self.playing(),
    {
        match self.state {
            EnvelopeState::Off => false,
            _ => true,
        }
    }

    /// Accounts for one produced sample and returns whether the segment changed,
    /// in which case the caller clamps its level to the target that was reached.
    pub fn advance(&mut self, reached: bool) -> (moved: bool)
        ensures
            final(self).state == next_state(old(self).state, reached),
            moved == (final(self).state != old(self).state),
    {
        match self.state {
            EnvelopeState::Attack => {
                if reached {
                    self.state = EnvelopeState::Decay;
                }
                reached
            },
            EnvelopeState::Decay => {
                if reached {
                    self.state = EnvelopeState::Sustain;
                }
                reached
            },
            EnvelopeState::Release | EnvelopeState::Shutdown => {
                if reached {
                    self.state = EnvelopeState::Off;
                }
                reached
            },
            EnvelopeState::Off | EnvelopeState::Sustain => false,
        }
    }
}

/// An envelope that is off stays off, however many samples are produced and
/// whatever is reported of the level.
pub proof fn lemma_off_stays_off(reached: Seq<bool>)
    ensures
        state_after(EnvelopeState::Off, reached) == EnvelopeState::Off,
    decreases reached.len(),
{
    if reached.len() > 0 {
        lemma_off_stays_off(reached.drop_last());
    }
}

/// A sustained note holds until a note event: producing samples never ends it.
pub proof fn lemma_sustain_holds(reached: Seq<bool>)
    ensures
        state_after(EnvelopeState::Sustain, reached) == EnvelopeState::Sustain,
    decreases reached.len(),
{
    if reached.len() > 0 {
        lemma_sustain_holds(reached.drop_last());
    }
}

/// A falling segment that ends the note (`Release` or `Shutdown`) is over
/// exactly when the level has reached zero at some sample; until then the
/// envelope stays in that segment.
pub proof fn lemma_fall_ends_at_zero(state: EnvelopeState, reached: Seq<bool>)
    requires
        state == EnvelopeState::Release || state == EnvelopeState::Shutdown,
    ensures
        reached.contains(true) ==> state_after(state, reached) == EnvelopeState::Off,
        !reached.contains(true) ==> state_after(state, reached) == state,
    decreases reached.len(),
{
    if reached.len() > 0 {
        let front = reached.drop_last();
        lemma_fall_ends_at_zero(state, front);
        if reached.last() {
            assert(reached[reached.len() - 1] == true);
        } else if front.contains(true) {
            let i = choose|i: int| 0 <= i < front.len() && front[i] == true;
            assert(reached[i] == true);
        } else {
            assert forall|i: int| 0 <= i < reached.len() implies reached[i] != true by {
                if i < front.len() {
                    assert(front[i] == reached[i]);
                }
            }
        }
    }
}

} // verus!
