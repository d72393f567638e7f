//! The voice pool: a fixed set of voices with an active part that plays notes.

use vstd::prelude::*;
use crate::allocation::{
    aged, all_playing, allocation_fits, evicted, fallback_voice_id, grown, is_first_free, is_oldest,
    lemma_oldest_is_unique, Allocation,
};
use crate::consts::MAX_VOICES;
use crate::voice_utils::{NoteEvent, Voice};

verus! {

/// `v` came from `T::new` and was then sized by `T::initialize`.
pub open spec fn voice_ready<T: Voice>(v: T, num_channels: usize, max_samples_per_channel: usize) -> bool {
    exists|fresh: T| T::created(fresh) && #[trigger] T::initialized(fresh, v, num_channels, max_samples_per_channel)
}

/// A fixed set of voices, of which the first few are active and play notes.
///
/// `active_voices` and `voice_timings` run in parallel: `voice_timings[i]` is
/// the age of `active_voices[i]`, counted in note-ons that the voice was
/// sounding through.
pub struct VoiceGroup<T: Voice> {
    pub active_voices: Vec<Box<T>>,
    pub inactive_voices: Vec<Box<T>>,
    pub voice_timings: Vec<i32>,
}

impl<T: Voice> VoiceGroup<T> {
    /// Every active voice has an age, and the pool holds no more voices than
    /// `MAX_VOICES`.
    pub open spec fn wf(&self) -> bool {
        &&& self.voice_timings@.len() == self.active_voices@.len()
        &&& self.active_voices@.len() + self.inactive_voices@.len() <= MAX_VOICES
    }

    /// Number of voices the pool holds, active or not. Polyphony can be set
    /// to anything from one up to this.
    pub open spec fn capacity(&self) -> nat {
        self.active_voices@.len() + self.inactive_voices@.len()
    }

    /// What a note-on does to the pool: `post` is the pool `pre` after the
    /// note went to `choice`. The allocation is the one that fits the pool. The
    /// chosen voice has taken the note and no other voice has changed. Then
    /// every voice that is sounding has aged by one.
    pub open spec fn took_note_on(
        pre: Self,
        post: Self,
        note: u8,
        velocity: u32,
        voice_id: Option<i32>,
        channel: u8,
        params: &T::Params,
        choice: Allocation,
    ) -> bool {
        &&& post.wf()
        &&& post.active_voices@.len() == pre.active_voices@.len()
        &&& post.inactive_voices@ == pre.inactive_voices@
        &&& allocation_fits(pre.active_voices@, pre.voice_timings@, note, channel, choice)
        &&& match choice {
            Allocation::Free(i) | Allocation::Stolen(i) => {
                &&& T::note_started(
                    *pre.active_voices@[i as int],
                    *post.active_voices@[i as int],
                    note,
                    velocity,
                    voice_id,
                    channel,
                    params,
                )
                &&& forall|j: int|
                    0 <= j < pre.active_voices@.len() && j != i ==> #[trigger] post.active_voices@[j]
                        == pre.active_voices@[j]
            },
            Allocation::Unplayable(_) => post.active_voices@ == pre.active_voices@,
        }
        &&& forall|j: int|
            0 <= j < pre.voice_timings@.len() ==> #[trigger] post.voice_timings@[j] == aged(
                pre.voice_timings@[j],
                post.active_voices@[j].playing(),
            )
    }

    /// What a note-off does to the pool: every active voice has received it,
    /// and nothing else has changed.
    pub open spec fn took_note_off(
        pre: Self,
        post: Self,
        voice_id: Option<i32>,
        channel: u8,
        note: u8,
        params: &T::Params,
    ) -> bool {
        &&& post.active_voices@.len() == pre.active_voices@.len()
        &&& forall|i: int|
            0 <= i < pre.active_voices@.len() ==> T::note_ended(
                *pre.active_voices@[i],
                *#[trigger] post.active_voices@[i],
                voice_id,
                channel,
                note,
                params,
            )
        &&& post.inactive_voices@ == pre.inactive_voices@
        &&& post.voice_timings@ == pre.voice_timings@
    }

    /// An empty pool. It holds no voice until `initialize` is called.
    pub fn new() -> (group: Self)
        ensures
            group.wf(),
            group.active_voices@.len() == 0,
            group.inactive_voices@.len() == 0,
    {
        VoiceGroup {
            active_voices: Vec::with_capacity(MAX_VOICES),
            inactive_voices: Vec::with_capacity(MAX_VOICES),
            voice_timings: Vec::with_capacity(MAX_VOICES),
        }
    }

    /// Allocates `MAX_VOICES` voices, sizes each for `num_channels` channels of
    /// `max_samples_per_channel` samples, and makes `num_voices` of them active
    /// with age zero. Voices held before are dropped.
    pub fn initialize(&mut self, num_voices: usize, num_channels: usize, max_samples_per_channel: usize)
        requires
            num_voices <= MAX_VOICES,
        ensures
            final(self).wf(),
            final(self).capacity() == MAX_VOICES,
            final(self).active_voices@.len() == num_voices,
            forall|i: int|
                0 <= i < num_voices ==> #[trigger] final(self).voice_timings@[i] == 0,
            forall|i: int|
                0 <= i < final(self).active_voices@.len() ==> voice_ready(
                    *#[trigger] final(self).active_voices@[i],
                    num_channels,
                    max_samples_per_channel,
                ),
            forall|i: int|
                0 <= i < final(self).inactive_voices@.len() ==> voice_ready(
                    *#[trigger] final(self).inactive_voices@[i],
                    num_channels,
                    max_samples_per_channel,
                ),
    {
        self.active_voices.clear();
        self.inactive_voices.clear();
        self.voice_timings.clear();
        let mut made: usize = 0;
        while made < MAX_VOICES
            invariant
                made <= MAX_VOICES,
                self.active_voices@.len() == 0,
                self.voice_timings@.len() == 0,
                self.inactive_voices@.len() == made,
                forall|i: int|
                    0 <= i < self.inactive_voices@.len() ==> voice_ready(
                        *#[trigger] self.inactive_voices@[i],
                        num_channels,
                        max_samples_per_channel,
                    ),
            decreases MAX_VOICES - made,
        {
            let mut voice = T::new();
            let ghost fresh = voice;
            voice.initialize(num_channels, max_samples_per_channel);
            assert(T::initialized(fresh, voice, num_channels, max_samples_per_channel));
            self.inactive_voices.push(Box::new(voice));
            made += 1;
        }
        let mut moved: usize = 0;
        while moved < num_voices
            invariant
                moved <= num_voices <= MAX_VOICES,
                self.active_voices@.len() == moved,
                self.voice_timings@.len() == moved,
                self.inactive_voices@.len() == MAX_VOICES - moved,
                forall|i: int| 0 <= i < moved ==> #[trigger] self.voice_timings@[i] == 0,
                forall|i: int|
                    0 <= i < self.active_voices@.len() ==> voice_ready(
                        *#[trigger] self.active_voices@[i],
                        num_channels,
                        max_samples_per_channel,
                    ),
                forall|i: int|
                    0 <= i < self.inactive_voices@.len() ==> voice_ready(
                        *#[trigger] self.inactive_voices@[i],
                        num_channels,
                        max_samples_per_channel,
                    ),
            decreases num_voices - moved,
        {
            let voice = self.inactive_voices.pop().unwrap();
            self.active_voices.push(voice);
            self.voice_timings.push(0);
            moved += 1;
        }
    }

    /// Renders the block of samples from `block_start` up to `block_end` in
    /// every active voice, sounding or not, in index order. Each voice renders
    /// into its own buffer; adding the buffers into the output is the caller's.
    pub fn render(&mut self, params: &T::Params, block_start: usize, block_end: usize)
        requires
            block_start <= block_end,
        ensures
            final(self).active_voices@.len() == old(self).active_voices@.len(),
            forall|i: int|
                0 <= i < old(self).active_voices@.len() ==> T::rendered(
                    *old(self).active_voices@[i],
                    *#[trigger] final(self).active_voices@[i],
                    (block_end - block_start) as usize,
                    params,
                ),
            final(self).inactive_voices@ == old(self).inactive_voices@,
            final(self).voice_timings@ == old(self).voice_timings@,
    {
        let block_size = block_end - block_start;
        let ghost before = self.active_voices@;
        let mut i: usize = 0;
        while i < self.active_voices.len()
            invariant
                i <= self.active_voices@.len(),
                self.active_voices@.len() == before.len(),
                forall|j: int|
                    0 <= j < i ==> T::rendered(
                        *before[j],
                        *#[trigger] self.active_voices@[j],
                        block_size,
                        params,
                    ),
                forall|j: int| i <= j < before.len() ==> #[trigger] self.active_voices@[j] == before[j],
                self.inactive_voices@ == old(self).inactive_voices@,
                self.voice_timings@ == old(self).voice_timings@,
            decreases self.active_voices@.len() - i,
        {
            self.active_voices[i].render(block_size, params);
            i += 1;
        }
    }

    /// Resets every active voice and sets every age to zero.
    pub fn reset(&mut self, params: &T::Params)
        ensures
            final(self).active_voices@.len() == old(self).active_voices@.len(),
            forall|i: int|
                0 <= i < old(self).active_voices@.len() ==> T::cleared(
                    *old(self).active_voices@[i],
                    *#[trigger] final(self).active_voices@[i],
                    params,
                ),
            final(self).inactive_voices@ == old(self).inactive_voices@,
            final(self).voice_timings@.len() == old(self).voice_timings@.len(),
            forall|i: int|
                0 <= i < final(self).voice_timings@.len() ==> #[trigger] final(self).voice_timings@[i]
                    == 0,
    {
        let ghost before = self.active_voices@;
        let mut i: usize = 0;
        while i < self.active_voices.len()
            invariant
                i <= self.active_voices@.len(),
                self.active_voices@.len() == before.len(),
                forall|j: int|
                    0 <= j < i ==> T::cleared(*before[j], *#[trigger] self.active_voices@[j], params),
                forall|j: int| i <= j < before.len() ==> #[trigger] self.active_voices@[j] == before[j],
                self.inactive_voices@ == old(self).inactive_voices@,
                self.voice_timings@ == old(self).voice_timings@,
            decreases self.active_voices@.len() - i,
        {
            self.active_voices[i].reset(params);
            i += 1;
        }
        let mut k: usize = 0;
        while k < self.voice_timings.len()
            invariant
                k <= self.voice_timings@.len(),
                self.voice_timings@.len() == old(self).voice_timings@.len(),
                forall|j: int| 0 <= j < k ==> #[trigger] self.voice_timings@[j] == 0,
                self.active_voices@.len() == before.len(),
                forall|j: int|
                    0 <= j < before.len() ==> T::cleared(
                        *before[j],
                        *#[trigger] self.active_voices@[j],
                        params,
                    ),
                self.inactive_voices@ == old(self).inactive_voices@,
            decreases self.voice_timings@.len() - k,
        {
            self.voice_timings[k] = 0;
            k += 1;
        }
    }

    /// Hands a note-on to one active voice and lets the sounding voices age.
    ///
    /// The note goes to the first active voice that is silent. If all are
    /// sounding it goes to the oldest one. With no active voice it is lost,
    /// and the result says so. After the hand-over the age of every active
    /// voice that is sounding goes up by one; silent voices keep their age.
    pub fn note_on(
        &mut self,
        note: u8,
        velocity: u32,
        voice_id: Option<i32>,
        channel: u8,
        params: &T::Params,
    ) -> (choice: Allocation)
        requires
            old(self).wf(),
        ensures
            Self::took_note_on(*old(self), *final(self), note, velocity, voice_id, channel, params, choice),
    {
        let choice = match self.get_free_voice() {
            Some(i) => Allocation::Free(i),
            None => match self.get_oldest_voice() {
                Some(i) => Allocation::Stolen(i),
                None => Allocation::Unplayable(Self::compute_fallback_voice_id(note, channel)),
            },
        };
        match choice {
            Allocation::Free(i) | Allocation::Stolen(i) => {
                self.active_voices[i].note_on(note, velocity, voice_id, channel, params);
            },
            Allocation::Unplayable(_) => {},
        }
        let ghost dispatched = self.active_voices@;
        let mut k: usize = 0;
        while k < self.voice_timings.len()
            invariant
                k <= self.voice_timings@.len(),
                self.voice_timings@.len() == old(self).voice_timings@.len(),
                self.voice_timings@.len() == self.active_voices@.len(),
                self.active_voices@ == dispatched,
                self.inactive_voices@ == old(self).inactive_voices@,
                forall|j: int|
                    0 <= j < k ==> #[trigger] self.voice_timings@[j] == aged(
                        old(self).voice_timings@[j],
                        self.active_voices@[j].playing(),
                    ),
                forall|j: int|
                    k <= j < self.voice_timings@.len() ==> #[trigger] self.voice_timings@[j] == old(
                        self,
                    ).voice_timings@[j],
            decreases self.voice_timings@.len() - k,
        {
            if self.active_voices[k].is_playing() && self.voice_timings[k] < i32::MAX {
                self.voice_timings[k] = self.voice_timings[k] + 1;
            }
            k += 1;
        }
        choice
    }

    /// Hands a note-off to every active voice; each decides whether it is meant.
    pub fn note_off(&mut self, voice_id: Option<i32>, channel: u8, note: u8, params: &T::Params)
        ensures
            Self::took_note_off(*old(self), *final(self), voice_id, channel, note, params),
    {
        let ghost before = self.active_voices@;
        let mut i: usize = 0;
        while i < self.active_voices.len()
            invariant
                i <= self.active_voices@.len(),
                self.active_voices@.len() == before.len(),
                forall|j: int|
                    0 <= j < i ==> T::note_ended(
                        *before[j],
                        *#[trigger] self.active_voices@[j],
                        voice_id,
                        channel,
                        note,
                        params,
                    ),
                forall|j: int| i <= j < before.len() ==> #[trigger] self.active_voices@[j] == before[j],
                self.inactive_voices@ == old(self).inactive_voices@,
                self.voice_timings@ == old(self).voice_timings@,
            decreases self.active_voices@.len() - i,
        {
            self.active_voices[i].note_off(voice_id, channel, note, params);
            i += 1;
        }
    }

    /// Hands an event to the voices: a note-on as `note_on` does, a note-off as
    /// `note_off` does. Any other event changes nothing. The result tells
    /// where a note-on went.
    pub fn handle_event(&mut self, event: &NoteEvent, params: &T::Params) -> (choice: Option<Allocation>)
        requires
            old(self).wf(),
        ensures
            match *event {
                NoteEvent::NoteOn { voice_id, channel, note, velocity, .. } => choice is Some
                    && Self::took_note_on(
                    *old(self),
                    *final(self),
                    note,
                    velocity,
                    voice_id,
                    channel,
                    params,
                    choice->0,
                ),
                NoteEvent::NoteOff { voice_id, channel, note, .. } => choice is None
                    && Self::took_note_off(*old(self), *final(self), voice_id, channel, note, params),
                NoteEvent::Other { .. } => choice is None && *final(self) == *old(self),
            },
    {
        match *event {
            NoteEvent::NoteOn { voice_id, channel, note, velocity, .. } => {
                Some(self.note_on(note, velocity, voice_id, channel, params))
            },
            NoteEvent::NoteOff { voice_id, channel, note, .. } => {
                self.note_off(voice_id, channel, note, params);
                None
            },
            NoteEvent::Other { .. } => None,
        }
    }

    /// Sets polyphony to `new_num_voices`.
    ///
    /// To raise it, voices are taken from the end of the inactive list and
    /// appended to the active ones with age zero. To lower it, the oldest
    /// active voice is moved to the end of the inactive list, again and again,
    /// until the number is right. No voice is changed by the move.
    pub fn update_num_voices(&mut self, new_num_voices: usize)
        requires
            old(self).wf(),
            0 < new_num_voices <= MAX_VOICES,
            new_num_voices <= old(self).capacity(),
        ensures
            final(self).wf(),
            final(self).active_voices@.len() == new_num_voices,
            final(self).capacity() == old(self).capacity(),
            new_num_voices >= old(self).active_voices@.len() ==> (
                final(self).active_voices@,
                final(self).voice_timings@,
                final(self).inactive_voices@,
            ) == grown(
                old(self).active_voices@,
                old(self).voice_timings@,
                old(self).inactive_voices@,
                new_num_voices as int,
            ),
            new_num_voices < old(self).active_voices@.len() ==> (
                final(self).active_voices@,
                final(self).voice_timings@,
                final(self).inactive_voices@,
            ) == evicted(
                old(self).active_voices@,
                old(self).voice_timings@,
                old(self).inactive_voices@,
                new_num_voices as int,
            ),
    {
        let ghost active0 = self.active_voices@;
        let ghost ages0 = self.voice_timings@;
        let ghost inactive0 = self.inactive_voices@;
        if new_num_voices > self.active_voices.len() {
            while self.active_voices.len() < new_num_voices
                invariant
                    active0.len() <= self.active_voices@.len() <= new_num_voices,
                    new_num_voices <= active0.len() + inactive0.len() <= MAX_VOICES,
                    ages0.len() == active0.len(),
                    (self.active_voices@, self.voice_timings@, self.inactive_voices@) == grown(
                        active0,
                        ages0,
                        inactive0,
                        self.active_voices@.len() as int,
                    ),
                decreases new_num_voices - self.active_voices@.len(),
            {
                let ghost have = self.active_voices@.len() as int;
                let voice = self.inactive_voices.pop().unwrap();
                self.active_voices.push(voice);
                self.voice_timings.push(0);
                proof {
                    let now = grown(active0, ages0, inactive0, have + 1);
                    assert(self.active_voices@ =~= now.0);
                    assert(self.voice_timings@ =~= now.1);
                    assert(self.inactive_voices@ =~= now.2);
                }
            }
        } else {
            proof {
                if new_num_voices == active0.len() {
                    let same = grown(active0, ages0, inactive0, new_num_voices as int);
                    assert(active0 =~= same.0);
                    assert(ages0 =~= same.1);
                    assert(inactive0 =~= same.2);
                }
            }
            while new_num_voices < self.active_voices.len()
                invariant
                    new_num_voices <= self.active_voices@.len() <= active0.len(),
                    self.voice_timings@.len() == self.active_voices@.len(),
                    self.active_voices@.len() + self.inactive_voices@.len() == active0.len()
                        + inactive0.len(),
                    active0.len() + inactive0.len() <= MAX_VOICES,
                    self.active_voices@.len() == active0.len() ==> self.active_voices@ == active0
                        && self.voice_timings@ == ages0 && self.inactive_voices@ == inactive0,
                    evicted(
                        self.active_voices@,
                        self.voice_timings@,
                        self.inactive_voices@,
                        new_num_voices as int,
                    ) == evicted(active0, ages0, inactive0, new_num_voices as int),
                decreases self.active_voices@.len(),
            {
                let i = self.oldest_index();
                proof {
                    lemma_oldest_is_unique(self.voice_timings@, i as int);
                }
                let voice = self.active_voices.remove(i);
                self.inactive_voices.push(voice);
                self.voice_timings.remove(i);
            }
        }
    }

    /// The oldest active voice; of several with the highest age, the one with
    /// the highest index. `None` where there is no active voice.
    pub fn get_oldest_voice(&self) -> (found: Option<usize>)
        ensures
            match found {
                Some(i) => is_oldest(self.voice_timings@, i as int),
                None => self.voice_timings@.len() == 0,
            },
    {
        if self.voice_timings.len() == 0 {
            None
        } else {
            Some(self.oldest_index())
        }
    }

    fn oldest_index(&self) -> (best: usize)
        requires
            self.voice_timings@.len() > 0,
        ensures
            is_oldest(self.voice_timings@, best as int),
    {
        let mut best: usize = 0;
        let mut i: usize = 1;
        while i < self.voice_timings.len()
            invariant
                best < i <= self.voice_timings@.len(),
                forall|j: int| 0 <= j < i ==> #[trigger] self.voice_timings@[j] <= self.voice_timings@[best as int],
                forall|j: int| best < j < i ==> #[trigger] self.voice_timings@[j] < self.voice_timings@[best as int],
            decreases self.voice_timings@.len() - i,
        {
            if self.voice_timings[i] >= self.voice_timings[best] {
                best = i;
            }
            i += 1;
        }
        best
    }

    /// The first active voice that is not sounding, if there is one.
    pub fn get_free_voice(&self) -> (found: Option<usize>)
        ensures
            match found {
                Some(i) => is_first_free(self.active_voices@, i as int),
                None => all_playing(self.active_voices@),
            },
    {
        let mut i: usize = 0;
        while i < self.active_voices.len()
            invariant
                i <= self.active_voices@.len(),
                forall|j: int| 0 <= j < i ==> (#[trigger] self.active_voices@[j]).playing(),
            decreases self.active_voices@.len() - i,
        {
            if !self.active_voices[i].is_playing() {
                return Some(i);
            }
            i += 1;
        }
        None
    }

    /// A number that stands for a note where no voice does: the key number in
    /// the low bits and the channel from bit 16 on.
    pub fn compute_fallback_voice_id(note: u8, channel: u8) -> (id: usize)
        ensures
            id == fallback_voice_id(note, channel),
    {
        let low: usize = note as usize;
        let high: usize = channel as usize;
        assert(low | (high << 16) == low + 65536 * high) by (bit_vector)
            requires
                low < 256,
                high < 256,
        ;
        low | (high << 16)
    }
}

} // verus!
