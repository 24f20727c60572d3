//! The melody engine: notes drawn at random from two pools of three
//! frequencies each, until the requested length is filled.

use rand::rngs::ThreadRng;
use rand::Rng;
use vstd::prelude::*;
use vstd::arithmetic::power2::*;
use crate::pitch::{frequency_of, index_of, reference, reference_frequency, Note};

verus! {

/// The thread-local random generator of the `rand` crate, carried through as
/// an opaque value.
#[verifier::external_type_specification]
#[verifier::external_body]
pub struct ExThreadRng(rand::rngs::ThreadRng);

/// A probability, as a ratio of two integers.
#[derive(Clone, Copy, Debug, PartialEq, Eq, Structural)]
pub struct Chance {
    pub numerator: u32,
    pub denominator: u32,
}

impl Chance {
    /// The ratio lies between 0 and 1.
    pub open spec fn valid(&self) -> bool {
        0 < self.denominator && self.numerator <= self.denominator
    }

    /// Whether the ratio lies between 0 and 1.
    pub fn is_valid(&self) -> (ok: bool)
        ensures
            ok == self.valid(),
    {
        0 < self.denominator && self.numerator <= self.denominator
    }
}

/// The stable pool of the start index `start`: the frequencies of its root,
/// fourth and fifth, which lie 0, 5 and 7 semitones above it.
pub open spec fn stable_set(start: int) -> Seq<int> {
    seq![frequency_of(start), frequency_of(start + 5), frequency_of(start + 7)]
}

/// The variation pool of the start index `start`: the frequencies one
/// semitone above each member of the stable pool.
pub open spec fn variation_set(start: int) -> Seq<int> {
    seq![frequency_of(start + 1), frequency_of(start + 6), frequency_of(start + 8)]
}

/// Both pools of the start index `start` hold frequencies that fit in 64
/// bits.
pub open spec fn pools_in_range(start: int) -> bool {
    &&& frequency_of(start) <= u64::MAX
    &&& frequency_of(start + 1) <= u64::MAX
    &&& frequency_of(start + 5) <= u64::MAX
    &&& frequency_of(start + 6) <= u64::MAX
    &&& frequency_of(start + 7) <= u64::MAX
    &&& frequency_of(start + 8) <= u64::MAX
}

/// The summed length of a run of notes.
pub open spec fn total_beats(notes: Seq<Note>) -> int
    decreases notes.len(),
{
    if notes.len() == 0 {
        0
    } else {
        total_beats(notes.drop_last()) + notes.last().beats
    }
}

/// The largest of the candidate lengths, 0 where there is none.
pub open spec fn longest(note_beats: Seq<u64>) -> int
    decreases note_beats.len(),
{
    if note_beats.len() == 0 {
        0
    } else if note_beats.last() > longest(note_beats.drop_last()) {
        note_beats.last() as int
    } else {
        longest(note_beats.drop_last())
    }
}

/// No candidate length exceeds the longest.
pub proof fn lemma_longest_bounds(note_beats: Seq<u64>, i: int)
    requires
        0 <= i < note_beats.len(),
    ensures
        note_beats[i] <= longest(note_beats),
    decreases note_beats.len(),
{
    if i < note_beats.len() - 1 {
        lemma_longest_bounds(note_beats.drop_last(), i);
    }
}

/// The note that three draws select: the length at `beat_index`, and the
/// frequency at `frequency_index` of the stable pool where `from_stable`
/// holds, of the variation pool where it does not.
pub open spec fn selected_note(
    stable: Seq<u64>,
    variation: Seq<u64>,
    note_beats: Seq<u64>,
    beat_index: int,
    from_stable: bool,
    frequency_index: int,
) -> Note {
    Note {
        frequency: if from_stable {
            stable[frequency_index]
        } else {
            variation[frequency_index]
        },
        beats: note_beats[beat_index],
    }
}

/// `note` pairs one of the candidate lengths with a frequency of one of the
/// two pools.
pub open spec fn drawn_from(
    note: Note,
    stable: Seq<u64>,
    variation: Seq<u64>,
    note_beats: Seq<u64>,
) -> bool {
    note_beats.contains(note.beats) && (stable.contains(note.frequency) || variation.contains(
        note.frequency,
    ))
}

/// Calls `rand::rng`, which hands out the calling thread's generator.
/// Nothing is claimed of it.
#[verifier::external_body]
fn thread_generator() -> ThreadRng {
    rand::rng()
}

/// Calls `Rng::random_range` on the half-open range from 0 to `bound`. The
/// claim is only that the index drawn lies in that range; the call panics on
/// an empty range, which `requires` leaves out.
#[verifier::external_body]
fn draw_below(generator: &mut ThreadRng, bound: usize) -> (index: usize)
    requires
        bound > 0,
    ensures
        index < bound,
{
    generator.random_range(0..bound)
}

/// Calls `Rng::random_ratio`. The claim is what its documentation
/// guarantees: a ratio of 1 always hits and a ratio of 0 never does. The
/// call panics on a zero denominator or a ratio above 1, which `requires`
/// leaves out.
#[verifier::external_body]
fn draw_hit(generator: &mut ThreadRng, numerator: u32, denominator: u32) -> (hit: bool)
    requires
        denominator > 0,
        numerator <= denominator,
    ensures
        numerator == denominator ==> hit,
        numerator == 0 ==> !hit,
{
    generator.random_ratio(numerator, denominator)
}

/// Whether the frequency of note index `index` fits in 64 bits.
pub fn index_in_range(index: u32) -> (fits: bool)
    ensures
        fits == (frequency_of(index as int) <= u64::MAX),
{
    let slot = index % 12;
    let octave = index / 12;
    let base = reference_frequency(slot);
    proof {
        lemma2_to64();
        lemma2_to64_rest();
        let r = reference(slot as int);
        let p = pow2(octave as nat) as int;
        if octave < 53 {
            crate::pitch::lemma_pow2_monotone(octave as nat, 52);
            assert(r * p <= u64::MAX) by (nonlinear_arith)
                requires
                    0 <= r <= 3087,
                    0 <= p <= 0x10000000000000,
            {
            }
        } else if octave > 53 {
            crate::pitch::lemma_pow2_monotone(54, octave as nat);
            assert(r * p > u64::MAX) by (nonlinear_arith)
                requires
                    r >= 1635,
                    p >= 0x40000000000000,
            {
            }
        } else {
            assert((r * p <= u64::MAX) == (r <= 2047)) by (nonlinear_arith)
                requires
                    p == 0x20000000000000,
            {
            }
        }
    }
    octave < 53 || (octave == 53 && base <= 2047)
}

/// Whether both pools of the start index `start_index` fit in 64 bits.
pub fn pools_fit(start_index: u32) -> (fits: bool)
    ensures
        fits == (start_index + 8 <= u32::MAX && pools_in_range(start_index as int)),
{
    if start_index > u32::MAX - 8 {
        return false;
    }
    index_in_range(start_index) && index_in_range(start_index + 1) && index_in_range(
        start_index + 5,
    ) && index_in_range(start_index + 6) && index_in_range(start_index + 7) && index_in_range(
        start_index + 8,
    )
}

/// The stable pool of the start index `start_index`: root, fourth and fifth.
pub fn stable_frequencies(start_index: u32) -> (pool: [u64; 3])
    requires
        start_index + 7 <= u32::MAX,
        frequency_of(start_index as int) <= u64::MAX,
        frequency_of(start_index + 5) <= u64::MAX,
        frequency_of(start_index + 7) <= u64::MAX,
    ensures
        pool@.len() == 3,
        pool@[0] == frequency_of(start_index + 0),
        pool@[1] == frequency_of(start_index + 5),
        pool@[2] == frequency_of(start_index + 7),
{
    let pool = [
        Note::get_frequency_by_index(start_index),
        Note::get_frequency_by_index(start_index + 5),
        Note::get_frequency_by_index(start_index + 7),
    ];
    pool
}

/// The variation pool of the start index `start_index`: each member of the
/// stable pool raised by a semitone.
pub fn variation_frequencies(start_index: u32) -> (pool: [u64; 3])
    requires
        start_index + 8 <= u32::MAX,
        frequency_of(start_index + 1) <= u64::MAX,
        frequency_of(start_index + 6) <= u64::MAX,
        frequency_of(start_index + 8) <= u64::MAX,
    ensures
        pool@.len() == 3,
        pool@[0] == frequency_of(start_index + 1),
        pool@[1] == frequency_of(start_index + 6),
        pool@[2] == frequency_of(start_index + 8),
{
    let pool = [
        Note::get_frequency_by_index(start_index + 1),
        Note::get_frequency_by_index(start_index + 6),
        Note::get_frequency_by_index(start_index + 8),
    ];
    pool
}

/// The note that the three draws of one step select.
pub fn note_for_draws(
    stable: &[u64; 3],
    variation: &[u64; 3],
    note_beats: &Vec<u64>,
    beat_index: usize,
    from_stable: bool,
    frequency_index: usize,
) -> (note: Note)
    requires
        beat_index < note_beats.len(),
        frequency_index < 3,
    ensures
        note == selected_note(
            stable@,
            variation@,
            note_beats@,
            beat_index as int,
            from_stable,
            frequency_index as int,
        ),
        drawn_from(note, stable@, variation@, note_beats@),
        from_stable ==> stable@.contains(note.frequency),
        !from_stable ==> variation@.contains(note.frequency),
{
    let beats = note_beats[beat_index];
    let frequency = if from_stable {
        stable[frequency_index]
    } else {
        variation[frequency_index]
    };
    assert(note_beats@[beat_index as int] == beats);
    assert(from_stable ==> stable@[frequency_index as int] == frequency);
    assert(!from_stable ==> variation@[frequency_index as int] == frequency);
    Note::new(frequency, beats)
}

/// Draws the next note: first its length among `note_beats`, then the pool
/// (the stable one with probability `chance`), then the frequency in that
/// pool.
pub fn create_next_note(
    stable: &[u64; 3],
    variation: &[u64; 3],
    chance: Chance,
    note_beats: &Vec<u64>,
    generator: &mut ThreadRng,
) -> (note: Note)
    requires
        chance.valid(),
        note_beats.len() > 0,
    ensures
        drawn_from(note, stable@, variation@, note_beats@),
        chance.numerator == chance.denominator ==> stable@.contains(note.frequency),
        chance.numerator == 0 ==> variation@.contains(note.frequency),
{
    let beat_index = draw_below(generator, note_beats.len());
    let from_stable = draw_hit(generator, chance.numerator, chance.denominator);
    let frequency_index = draw_below(generator, 3);
    note_for_draws(stable, variation, note_beats, beat_index, from_stable, frequency_index)
}

/// `note` pairs one of the candidate lengths with a frequency of the stable
/// or the variation pool of the start index `start`.
pub open spec fn in_pools(note: Note, start: int, note_beats: Seq<u64>) -> bool {
    note_beats.contains(note.beats) && (stable_set(start).contains(note.frequency as int)
        || variation_set(start).contains(note.frequency as int))
}

proof fn lemma_pool_member(pool: Seq<u64>, set: Seq<int>, frequency: u64)
    requires
        pool.len() == 3,
        set.len() == 3,
        pool[0] == set[0],
        pool[1] == set[1],
        pool[2] == set[2],
        pool.contains(frequency),
    ensures
        set.contains(frequency as int),
{
    let i = choose|i: int| 0 <= i < pool.len() && pool[i] == frequency;
    assert(set[i] == frequency as int);
}

/// `notes` is a melody of `beats` on the pools of the start index `start`:
/// it is not empty; its summed length reaches `beats`, which it did not
/// before its last note, so that it overshoots by less than the longest
/// candidate; each note pairs a candidate length with a frequency of one of
/// the two pools; and a probability of 1 keeps every note in the stable
/// pool, one of 0 in the variation pool.
pub open spec fn is_melody(
    notes: Seq<Note>,
    start: int,
    beats: int,
    chance: Chance,
    note_beats: Seq<u64>,
) -> bool {
    &&& notes.len() > 0
    &&& total_beats(notes) >= beats
    &&& total_beats(notes.drop_last()) < beats
    &&& total_beats(notes) < beats + longest(note_beats)
    &&& forall|i: int| 0 <= i < notes.len() ==> in_pools(#[trigger] notes[i], start, note_beats)
    &&& chance.numerator == chance.denominator ==> forall|i: int|
        0 <= i < notes.len() ==> stable_set(start).contains((#[trigger] notes[i]).frequency as int)
    &&& chance.numerator == 0 ==> forall|i: int|
        0 <= i < notes.len() ==> variation_set(start).contains(
            (#[trigger] notes[i]).frequency as int,
        )
}

/// A melody that starts from the pitch of `start_note` and fills `beats`:
/// notes are drawn one after another, each with a length among `note_beats`
/// and a frequency of the stable pool (with probability `chance`) or of the
/// variation pool, until their summed length reaches `beats`. The last note
/// is not cut short.
pub fn create_notes(start_note: &Note, beats: u64, chance: Chance, note_beats: &Vec<u64>) -> (notes:
    Vec<Note>)
    requires
        beats > 0,
        chance.valid(),
        note_beats.len() > 0,
        forall|i: int| 0 <= i < note_beats.len() ==> note_beats[i] > 0,
        pools_in_range(index_of(start_note.frequency as int)),
    ensures
        is_melody(notes@, index_of(start_note.frequency as int), beats as int, chance, note_beats@),
{
    let start_index = start_note.get_index();
    let ghost start = start_index as int;
    let stable = stable_frequencies(start_index);
    let variation = variation_frequencies(start_index);
    let mut generator = thread_generator();
    let mut notes: Vec<Note> = Vec::new();
    let mut remaining: u64 = beats;
    while remaining > 0
        invariant
            start == index_of(start_note.frequency as int),
            chance.valid(),
            note_beats.len() > 0,
            forall|i: int| 0 <= i < note_beats.len() ==> note_beats[i] > 0,
            stable@.len() == 3,
            stable@[0] == stable_set(start)[0],
            stable@[1] == stable_set(start)[1],
            stable@[2] == stable_set(start)[2],
            variation@.len() == 3,
            variation@[0] == variation_set(start)[0],
            variation@[1] == variation_set(start)[1],
            variation@[2] == variation_set(start)[2],
            remaining > 0 ==> total_beats(notes@) + remaining == beats,
            remaining == 0 ==> notes.len() > 0 && total_beats(notes@) >= beats && total_beats(
                notes@.drop_last(),
            ) < beats && total_beats(notes@) < beats + longest(note_beats@),
            forall|i: int| 0 <= i < notes.len() ==> in_pools(#[trigger] notes[i], start, note_beats@),
            chance.numerator == chance.denominator ==> forall|i: int|
                0 <= i < notes.len() ==> stable_set(start).contains(
                    (#[trigger] notes[i]).frequency as int,
                ),
            chance.numerator == 0 ==> forall|i: int|
                0 <= i < notes.len() ==> variation_set(start).contains(
                    (#[trigger] notes[i]).frequency as int,
                ),
        decreases remaining,
    {
        let next = create_next_note(&stable, &variation, chance, note_beats, &mut generator);
        let ghost before = notes@;
        notes.push(next);
        proof {
            assert(notes@.drop_last() =~= before);
            assert(notes@.last() == next);
            let j = choose|j: int| 0 <= j < note_beats@.len() && note_beats@[j] == next.beats;
            lemma_longest_bounds(note_beats@, j);
            if stable@.contains(next.frequency) {
                lemma_pool_member(stable@, stable_set(start), next.frequency);
            }
            if variation@.contains(next.frequency) {
                lemma_pool_member(variation@, variation_set(start), next.frequency);
            }
        }
        if next.beats >= remaining {
            remaining = 0;
        } else {
            remaining = remaining - next.beats;
        }
    }
    notes
}

} // verus!
