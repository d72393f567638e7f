//! The rules of the voice pool: which voice takes a note, how voices age, and
//! which voices stay when polyphony changes. Everything here is stated over
//! sequences of voices and ages; `voice_group` holds the pool that follows
//! these rules.

use vstd::prelude::*;
use vstd::multiset::group_multiset_axioms;
use vstd::seq_lib::{lemma_multiset_commutative, to_multiset_build, to_multiset_remove};
use crate::voice_utils::Voice;

verus! {

/// Which voice a note-on went to.
#[derive(Clone, Copy, Debug, PartialEq, Eq, Structural)]
pub enum Allocation {
    /// The active voice at this index was silent and took the note.
    Free(usize),
    /// Every active voice was sounding; the oldest, at this index, was given
    /// the note and decides itself how to change over.
    Stolen(usize),
    /// There is no active voice. The note is lost; the number identifies it
    /// (see `VoiceGroup::compute_fallback_voice_id`) and is no index.
    Unplayable(usize),
}

/// `i` is the first voice that is not sounding.
pub open spec fn is_first_free<T: Voice>(voices: Seq<Box<T>>, i: int) -> bool {
    &&& 0 <= i < voices.len()
    &&& !voices[i].playing()
    &&& forall|j: int| 0 <= j < i ==> (#[trigger] voices[j]).playing()
}

/// Every voice is sounding.
pub open spec fn all_playing<T: Voice>(voices: Seq<Box<T>>) -> bool {
    forall|j: int| 0 <= j < voices.len() ==> (#[trigger] voices[j]).playing()
}

/// `i` is the oldest voice: no age is higher than its own, and among voices of
/// that age it has the highest index.
pub open spec fn is_oldest(ages: Seq<i32>, i: int) -> bool {
    &&& 0 <= i < ages.len()
    &&& forall|j: int| 0 <= j < ages.len() ==> #[trigger] ages[j] <= ages[i]
    &&& forall|j: int| i < j < ages.len() ==> #[trigger] ages[j] < ages[i]
}

/// The index of the oldest voice, where there is a voice at all.
pub open spec fn oldest(ages: Seq<i32>) -> int {
    choose|i: int| is_oldest(ages, i)
}

/// The identifier of a note that no voice could take: the key number in the
/// low bits, the channel from bit 16 on.
pub open spec fn fallback_voice_id(note: u8, channel: u8) -> int {
    note + 65536 * channel
}

/// Whether `choice` is where a note-on for (`note`, `channel`) goes in a pool
/// with these active voices and ages: to the first silent voice; if there is
/// none, to the oldest voice; if there is no voice, nowhere.
pub open spec fn allocation_fits<T: Voice>(
    voices: Seq<Box<T>>,
    ages: Seq<i32>,
    note: u8,
    channel: u8,
    choice: Allocation,
) -> bool {
    match choice {
        Allocation::Free(i) => is_first_free(voices, i as int),
        Allocation::Stolen(i) => all_playing(voices) && is_oldest(ages, i as int),
        Allocation::Unplayable(id) => voices.len() == 0 && id == fallback_voice_id(note, channel),
    }
}

/// The age of a voice after a note-on was handed out: one more if the voice is
/// sounding, unchanged if it is silent. Ages stop at the highest number the
/// counter can hold.
pub open spec fn aged(age: i32, playing: bool) -> i32 {
    if playing && age < i32::MAX {
        (age + 1) as i32
    } else {
        age
    }
}

/// Active voices, ages and inactive voices after polyphony was raised to `n`:
/// voices are taken from the end of the inactive list, one after the other,
/// and appended to the active list with age zero.
pub open spec fn grown<T: Voice>(
    active: Seq<Box<T>>,
    ages: Seq<i32>,
    inactive: Seq<Box<T>>,
    n: int,
) -> (Seq<Box<T>>, Seq<i32>, Seq<Box<T>>) {
    let more = n - active.len();
    (
        active + Seq::new(more as nat, |k: int| inactive[inactive.len() - 1 - k]),
        ages + Seq::new(more as nat, |k: int| 0i32),
        inactive.subrange(0, inactive.len() - more),
    )
}

/// Active voices, ages and inactive voices after polyphony was lowered to `n`:
/// as long as there are more than `n` active voices, the oldest is taken out
/// and appended to the inactive list. The others keep their order and ages.
pub open spec fn evicted<T: Voice>(
    active: Seq<Box<T>>,
    ages: Seq<i32>,
    inactive: Seq<Box<T>>,
    n: int,
) -> (Seq<Box<T>>, Seq<i32>, Seq<Box<T>>)
    decreases active.len(),
{
    let i = oldest(ages);
    if active.len() <= n || ages.len() != active.len() || !(0 <= i < active.len()) {
        (active, ages, inactive)
    } else {
        evicted(active.remove(i), ages.remove(i), inactive.push(active[i]), n)
    }
}

/// Voice `a` is evicted after voice `b`: it is younger, or as old and at a
/// lower index.
pub open spec fn outlasts(ages: Seq<i32>, a: int, b: int) -> bool {
    ages[a] < ages[b] || (ages[a] == ages[b] && a < b)
}

/// At most one index is the oldest, so `oldest` names it.
pub proof fn lemma_oldest_is_unique(ages: Seq<i32>, i: int)
    requires
        is_oldest(ages, i),
    ensures
        oldest(ages) == i,
{
    let k = oldest(ages);
    assert(is_oldest(ages, k));
    if k < i {
        assert(ages[i] < ages[k]);
        assert(ages[k] <= ages[i]);
    } else if i < k {
        assert(ages[k] < ages[i]);
        assert(ages[i] <= ages[k]);
    }
}

/// Where there is a voice there is an oldest one, and every other voice
/// outlasts it.
pub proof fn lemma_oldest_exists(ages: Seq<i32>)
    requires
        ages.len() > 0,
    ensures
        is_oldest(ages, oldest(ages)),
        forall|j: int| 0 <= j < ages.len() && j != oldest(ages) ==> outlasts(ages, j, oldest(ages)),
    decreases ages.len(),
{
    let last = ages.len() - 1;
    if ages.len() == 1 {
        assert(is_oldest(ages, 0));
    } else {
        let front = ages.drop_last();
        lemma_oldest_exists(front);
        let i = oldest(front);
        assert(forall|j: int| 0 <= j < front.len() ==> front[j] == ages[j]);
        if ages[last] >= ages[i] {
            assert forall|j: int| 0 <= j < ages.len() implies #[trigger] ages[j] <= ages[last] by {
                if j < last {
                    assert(front[j] <= front[i]);
                }
            }
            assert(is_oldest(ages, last));
        } else {
            assert forall|j: int| 0 <= j < ages.len() implies #[trigger] ages[j] <= ages[i] by {
                if j < last {
                    assert(front[j] <= front[i]);
                }
            }
            assert forall|j: int| i < j < ages.len() implies #[trigger] ages[j] < ages[i] by {
                if j < last {
                    assert(front[j] < front[i]);
                }
            }
            assert(is_oldest(ages, i));
        }
    }
    let k = oldest(ages);
    assert forall|j: int| 0 <= j < ages.len() && j != k implies outlasts(ages, j, k) by {
        assert(ages[j] <= ages[k]);
        if j > k {
            assert(ages[j] < ages[k]);
        }
    }
}

/// When every age in front of a voice is no higher than the next, the last
/// voice is the oldest. This covers ages that rise with the index and ages
/// that are all the same.
pub proof fn lemma_oldest_of_rising_ages(ages: Seq<i32>)
    requires
        ages.len() > 0,
        forall|a: int, b: int| 0 <= a <= b < ages.len() ==> ages[a] <= ages[b],
    ensures
        is_oldest(ages, ages.len() - 1),
        oldest(ages) == ages.len() - 1,
{
    assert(is_oldest(ages, ages.len() - 1));
    lemma_oldest_is_unique(ages, ages.len() - 1);
}

/// An allocation that fits a pool in which some voice is silent is `Free`, and
/// names the first silent voice. In particular a pool whose voices are all
/// silent gives the note to its first voice, and no sounding voice is ever
/// stolen while a silent one is there.
pub proof fn lemma_free_voice_is_preferred<T: Voice>(
    voices: Seq<Box<T>>,
    ages: Seq<i32>,
    note: u8,
    channel: u8,
    choice: Allocation,
    silent: int,
)
    requires
        0 <= silent < voices.len(),
        !voices[silent].playing(),
        allocation_fits(voices, ages, note, channel, choice),
    ensures
        choice is Free,
        is_first_free(voices, choice->Free_0 as int),
        choice->Free_0 <= silent,
        (forall|j: int| 0 <= j < voices.len() ==> !(#[trigger] voices[j]).playing()) ==> choice
            == Allocation::Free(0),
{
    match choice {
        Allocation::Free(i) => {
            if silent < i {
                assert(voices[silent].playing());
            }
            if forall|j: int| 0 <= j < voices.len() ==> !(#[trigger] voices[j]).playing() {
                if i > 0 {
                    assert(voices[0].playing());
                    assert(!voices[0].playing());
                }
            }
        },
        Allocation::Stolen(_) => {
            assert(voices[silent].playing());
        },
        Allocation::Unplayable(_) => {},
    }
}

/// The rule of `VoiceGroup::note_on` leaves no choice: two allocations that fit
/// the same pool and note are the same.
pub proof fn lemma_allocation_is_unique<T: Voice>(
    voices: Seq<Box<T>>,
    ages: Seq<i32>,
    note: u8,
    channel: u8,
    first: Allocation,
    second: Allocation,
)
    requires
        ages.len() == voices.len(),
        allocation_fits(voices, ages, note, channel, first),
        allocation_fits(voices, ages, note, channel, second),
    ensures
        first == second,
{
    match first {
        Allocation::Free(i) => {
            lemma_free_voice_is_preferred(voices, ages, note, channel, second, i as int);
            lemma_free_voice_is_preferred(voices, ages, note, channel, first, second->Free_0 as int);
        },
        Allocation::Stolen(i) => {
            match second {
                Allocation::Free(k) => {
                    assert(voices[k as int].playing());
                },
                Allocation::Stolen(k) => {
                    lemma_oldest_is_unique(ages, i as int);
                    lemma_oldest_is_unique(ages, k as int);
                },
                Allocation::Unplayable(_) => {},
            }
        },
        Allocation::Unplayable(_) => {
            match second {
                Allocation::Free(k) => {},
                Allocation::Stolen(k) => {},
                Allocation::Unplayable(_) => {},
            }
        },
    }
}

/// Lowering polyphony keeps the youngest voices, in their order.
///
/// The lemma returns the old indices of the voices that stay (`kept`, in the
/// order in which they stay) and of those that go (`gone`, in the order in
/// which they go). Between them they are all the old indices. The voices that
/// stay are in their old order, with their old ages. Each of them outlasts
/// each voice that goes, and the voices go oldest first, to the end of the
/// inactive list.
pub proof fn lemma_eviction_keeps_youngest<T: Voice>(
    active: Seq<Box<T>>,
    ages: Seq<i32>,
    inactive: Seq<Box<T>>,
    n: int,
) -> (r: (Seq<int>, Seq<int>))
    requires
        ages.len() == active.len(),
        0 <= n <= active.len(),
    ensures
        ({
            let (kept, gone) = r;
            let after = evicted(active, ages, inactive, n);
            &&& kept.len() == n
            &&& gone.len() == active.len() - n
            &&& forall|m: int| 0 <= m < kept.len() ==> 0 <= #[trigger] kept[m] < active.len()
            &&& forall|k: int| 0 <= k < gone.len() ==> 0 <= #[trigger] gone[k] < active.len()
            &&& forall|e: int|
                #![trigger kept.contains(e)]
                #![trigger gone.contains(e)]
                0 <= e < active.len() ==> kept.contains(e) || gone.contains(e)
            &&& forall|m1: int, m2: int|
                0 <= m1 < m2 < kept.len() ==> #[trigger] kept[m1] < #[trigger] kept[m2]
            &&& forall|k1: int, k2: int|
                0 <= k1 < k2 < gone.len() ==> outlasts(ages, #[trigger] gone[k2], #[trigger] gone[k1])
            &&& forall|m: int, k: int|
                0 <= m < kept.len() && 0 <= k < gone.len() ==> outlasts(
                    ages,
                    #[trigger] kept[m],
                    #[trigger] gone[k],
                )
            &&& after.0 == Seq::new(n as nat, |m: int| active[kept[m]])
            &&& after.1 == Seq::new(n as nat, |m: int| ages[kept[m]])
            &&& after.2 == inactive + Seq::new(gone.len(), |k: int| active[gone[k]])
        }),
    decreases active.len(),
{
    if active.len() <= n {
        let kept = Seq::new(n as nat, |m: int| m);
        let gone = Seq::<int>::empty();
        let after = evicted(active, ages, inactive, n);
        assert forall|e: int| 0 <= e < active.len() implies kept.contains(e) by {
            assert(kept[e] == e);
        }
        assert(after.0 =~= Seq::new(n as nat, |m: int| active[kept[m]]));
        assert(after.1 =~= Seq::new(n as nat, |m: int| ages[kept[m]]));
        assert(after.2 =~= inactive + Seq::new(gone.len(), |k: int| active[gone[k]]));
        (kept, gone)
    } else {
        lemma_oldest_exists(ages);
        let i = oldest(ages);
        let active1 = active.remove(i);
        let ages1 = ages.remove(i);
        let inactive1 = inactive.push(active[i]);
        let (kept1, gone1) = lemma_eviction_keeps_youngest(active1, ages1, inactive1, n);
        let up = |j: int|
            if j < i {
                j
            } else {
                j + 1
            };
        let kept = Seq::new(kept1.len(), |m: int| up(kept1[m]));
        let gone = seq![i] + Seq::new(gone1.len(), |k: int| up(gone1[k]));
        let after = evicted(active, ages, inactive, n);
        assert(after == evicted(active1, ages1, inactive1, n));
        assert forall|j: int| 0 <= j < active1.len() implies active1[j] == active[up(j)] && ages1[j]
            == ages[up(j)] by {}
        assert forall|a: int, b: int|
            0 <= a < active1.len() && 0 <= b < active1.len() && outlasts(ages1, a, b) implies outlasts(
            ages,
            up(a),
            up(b),
        ) by {
            assert(ages1[a] == ages[up(a)]);
            assert(ages1[b] == ages[up(b)]);
        }
        assert forall|k: int| 0 <= k < gone.len() implies 0 <= #[trigger] gone[k] < active.len() by {
            if k > 0 {
                assert(gone[k] == up(gone1[k - 1]));
            }
        }
        assert forall|e: int| 0 <= e < active.len() implies kept.contains(e) || gone.contains(e) by {
            if e == i {
                assert(gone[0] == i);
            } else {
                let e1 = if e < i {
                    e
                } else {
                    e - 1
                };
                assert(up(e1) == e);
                if kept1.contains(e1) {
                    let m = choose|m: int| 0 <= m < kept1.len() && kept1[m] == e1;
                    assert(kept[m] == e);
                } else {
                    assert(gone1.contains(e1));
                    let k = choose|k: int| 0 <= k < gone1.len() && gone1[k] == e1;
                    assert(gone[k + 1] == e);
                }
            }
        }
        assert forall|m1: int, m2: int| 0 <= m1 < m2 < kept.len() implies #[trigger] kept[m1]
            < #[trigger] kept[m2] by {
            assert(kept1[m1] < kept1[m2]);
        }
        assert forall|k1: int, k2: int| 0 <= k1 < k2 < gone.len() implies outlasts(
            ages,
            #[trigger] gone[k2],
            #[trigger] gone[k1],
        ) by {
            assert(gone[k2] == up(gone1[k2 - 1]));
            if k1 == 0 {
                assert(gone[k1] == i);
            } else {
                assert(gone[k1] == up(gone1[k1 - 1]));
                assert(outlasts(ages1, gone1[k2 - 1], gone1[k1 - 1]));
            }
        }
        assert forall|m: int, k: int| 0 <= m < kept.len() && 0 <= k < gone.len() implies outlasts(
            ages,
            #[trigger] kept[m],
            #[trigger] gone[k],
        ) by {
            assert(kept[m] == up(kept1[m]));
            if k == 0 {
                assert(gone[k] == i);
            } else {
                assert(gone[k] == up(gone1[k - 1]));
                assert(outlasts(ages1, kept1[m], gone1[k - 1]));
            }
        }
        assert(after.0 =~= Seq::new(n as nat, |m: int| active[kept[m]]));
        assert(after.1 =~= Seq::new(n as nat, |m: int| ages[kept[m]]));
        assert(after.2 =~= inactive + Seq::new(gone.len(), |k: int| active[gone[k]])) by {
            let tail1 = Seq::new(gone1.len(), |k: int| active1[gone1[k]]);
            let tail = Seq::new(gone.len(), |k: int| active[gone[k]]);
            assert(after.2 == inactive1 + tail1);
            assert forall|k: int| 0 <= k < tail.len() implies #[trigger] tail[k] == (inactive1
                + tail1)[inactive.len() + k] by {
                if k > 0 {
                    assert(gone[k] == up(gone1[k - 1]));
                    assert(tail1[k - 1] == active1[gone1[k - 1]]);
                }
            }
        }
        (kept, gone)
    }
}

/// Changing polyphony creates no voice and drops none. Raised or lowered, the
/// two lists taken together hold the same voices afterwards as before, each as
/// often as before.
pub proof fn lemma_resizing_keeps_every_voice<T: Voice>(
    active: Seq<Box<T>>,
    ages: Seq<i32>,
    inactive: Seq<Box<T>>,
    n: int,
)
    requires
        ages.len() == active.len(),
        0 <= n <= active.len() + inactive.len(),
    ensures
        n >= active.len() ==> (grown(active, ages, inactive, n).0 + grown(
            active,
            ages,
            inactive,
            n,
        ).2).to_multiset() == (active + inactive).to_multiset(),
        n < active.len() ==> (evicted(active, ages, inactive, n).0 + evicted(
            active,
            ages,
            inactive,
            n,
        ).2).to_multiset() == (active + inactive).to_multiset(),
    decreases active.len(),
{
    broadcast use group_multiset_axioms;

    if n >= active.len() {
        let after = grown(active, ages, inactive, n);
        let more = n - active.len();
        let front = inactive.subrange(0, inactive.len() - more);
        let back = inactive.subrange(inactive.len() - more, inactive.len() as int);
        let taken = Seq::new(more as nat, |k: int| inactive[inactive.len() - 1 - k]);
        assert(taken =~= back.reverse());
        back.lemma_reverse_to_multiset();
        assert(inactive =~= front + back);
        assert(after.0 + after.2 =~= active + (taken + front));
        lemma_multiset_commutative(active, taken + front);
        lemma_multiset_commutative(taken, front);
        lemma_multiset_commutative(front, back);
        lemma_multiset_commutative(active, inactive);
        assert((taken + front).to_multiset() =~= inactive.to_multiset());
    } else {
        lemma_oldest_exists(ages);
        let i = oldest(ages);
        let active1 = active.remove(i);
        let inactive1 = inactive.push(active[i]);
        if n < active1.len() {
            lemma_resizing_keeps_every_voice(active1, ages.remove(i), inactive1, n);
        }
        assert(evicted(active, ages, inactive, n) == evicted(active1, ages.remove(i), inactive1, n));
        to_multiset_remove(active, i);
        to_multiset_build(inactive, active[i]);
        lemma_multiset_commutative(active1, inactive1);
        lemma_multiset_commutative(active, inactive);
        active.to_multiset_ensures();
        assert(active.to_multiset().count(active[i]) > 0);
        assert((active1 + inactive1).to_multiset() =~= (active + inactive).to_multiset());
    }
}

} // verus!
