//! The layout of the rendered waveform: how many samples each note takes.
//!
//! A whole note at one beat per minute lasts 240 seconds. Note lengths and
//! the tempo are held in the same fixed-point unit, so that their quotient
//! is exact.

use vstd::prelude::*;
use crate::pitch::Note;

verus! {

/// Seconds that a whole note lasts at one beat per minute.
pub const WHOLE_ONE_BPM_SECONDS: u64 = 240;

/// Samples per second of the rendered waveform.
pub const SAMPLE_RATE: u32 = 44100;

/// The largest magnitude of a 16-bit sample.
pub const AMPLITUDE: i16 = 32767;

/// The number of samples of a note of `beats` at tempo `bpm`: the sample
/// rate times the note's duration in seconds, `240 * beats / bpm`, rounded
/// down.
pub open spec fn samples_of(beats: int, bpm: int, sample_rate: int) -> int {
    (sample_rate * 240 * beats) / bpm
}

/// The summed number of samples of a run of notes.
pub open spec fn samples_of_all(notes: Seq<Note>, bpm: int, sample_rate: int) -> int
    decreases notes.len(),
{
    if notes.len() == 0 {
        0
    } else {
        samples_of_all(notes.drop_last(), bpm, sample_rate) + samples_of(
            notes.last().beats as int,
            bpm,
            sample_rate,
        )
    }
}

/// One note of the waveform: the frequency of its sine and the number of
/// samples that it fills.
#[derive(Clone, Copy, Debug, PartialEq, Eq, Structural)]
pub struct Tone {
    /// Frequency in hundredths of a hertz.
    pub frequency: u64,
    /// Number of samples.
    pub samples: u128,
}

/// The tone that renders `note` at tempo `bpm`.
pub open spec fn tone_of(note: Note, bpm: int, sample_rate: int) -> Tone {
    Tone {
        frequency: note.frequency,
        samples: samples_of(note.beats as int, bpm, sample_rate) as u128,
    }
}

/// `tones` renders `notes`: one tone for each note, in the notes' order.
pub open spec fn renders(tones: Seq<Tone>, notes: Seq<Note>, bpm: int, sample_rate: int) -> bool {
    tones.len() == notes.len() && forall|i: int|
        0 <= i < notes.len() ==> #[trigger] tones[i] == tone_of(notes[i], bpm, sample_rate)
}

/// Rendering is repeatable: two renderings of the same notes at the same
/// tempo and sample rate are identical.
pub proof fn lemma_rendering_repeats(
    first: Seq<Tone>,
    second: Seq<Tone>,
    notes: Seq<Note>,
    bpm: int,
    sample_rate: int,
)
    requires
        renders(first, notes, bpm, sample_rate),
        renders(second, notes, bpm, sample_rate),
    ensures
        first == second,
{
    assert(first =~= second);
}

/// A single note renders to the sample rate times its duration in seconds,
/// rounded down.
pub proof fn lemma_single_note_samples(note: Note, bpm: int, sample_rate: int)
    ensures
        samples_of_all(seq![note], bpm, sample_rate) == (sample_rate * 240 * note.beats) / bpm,
{
    reveal_with_fuel(samples_of_all, 2);
    assert(seq![note].drop_last() =~= Seq::<Note>::empty());
}

proof fn lemma_samples_fit(beats: int, bpm: int, sample_rate: int)
    requires
        0 <= beats <= u64::MAX,
        0 < bpm,
        0 <= sample_rate <= u32::MAX,
    ensures
        0 <= sample_rate * 240 <= 0xf0_0000_0000,
        0 <= sample_rate * 240 * beats <= u128::MAX,
        0 <= samples_of(beats, bpm, sample_rate) <= sample_rate * 240 * beats,
{
    let product = sample_rate * 240 * beats;
    assert(0 <= product <= 0xf0_0000_0000 * 0x1_0000_0000_0000_0000) by (nonlinear_arith)
        requires
            product == sample_rate * 240 * beats,
            0 <= beats <= 0xffff_ffff_ffff_ffff,
            0 <= sample_rate <= 0xffff_ffff,
    {
    }
    assert(0 <= product / bpm <= product) by (nonlinear_arith)
        requires
            0 <= product,
            0 < bpm,
    {
    }
}

/// The number of samples of a run of notes is never negative, and grows with
/// the run.
proof fn lemma_samples_of_all_grow(notes: Seq<Note>, shorter: int, bpm: int, sample_rate: int)
    requires
        0 <= shorter <= notes.len(),
        0 < bpm,
        0 <= sample_rate <= u32::MAX,
    ensures
        0 <= samples_of_all(notes.take(shorter), bpm, sample_rate) <= samples_of_all(
            notes,
            bpm,
            sample_rate,
        ),
    decreases notes.len(),
{
    if notes.len() == 0 {
        assert(notes.take(shorter) =~= notes);
    } else if shorter == notes.len() {
        assert(notes.take(shorter) =~= notes);
        lemma_samples_of_all_grow(notes.drop_last(), shorter - 1, bpm, sample_rate);
        lemma_samples_fit(notes.last().beats as int, bpm, sample_rate);
    } else {
        assert(notes.drop_last().take(shorter) =~= notes.take(shorter));
        lemma_samples_of_all_grow(notes.drop_last(), shorter, bpm, sample_rate);
        lemma_samples_fit(notes.last().beats as int, bpm, sample_rate);
    }
}

impl Note {
    /// How long this note sounds at tempo `bpm`, in thousandths of a second,
    /// rounded down: a whole note at one beat per minute lasts 240 seconds.
    pub fn get_speed(&self, bpm: u64) -> (duration: u128)
        requires
            bpm > 0,
        ensures
            duration == (240000 * self.beats) / (bpm as int),
    {
        let product: u128 = 240000u128 * (self.beats as u128);
        product / (bpm as u128)
    }

    /// The number of samples that this note fills at tempo `bpm`, given in
    /// the unit of the note's length, and `sample_rate` samples per second.
    pub fn sample_count(&self, bpm: u64, sample_rate: u32) -> (count: u128)
        requires
            bpm > 0,
        ensures
            count == samples_of(self.beats as int, bpm as int, sample_rate as int),
    {
        proof {
            lemma_samples_fit(self.beats as int, bpm as int, sample_rate as int);
        }
        let per_beat: u128 = (sample_rate as u128) * (WHOLE_ONE_BPM_SECONDS as u128);
        let product: u128 = per_beat * (self.beats as u128);
        product / (bpm as u128)
    }
}

/// The tone that renders `note` at tempo `bpm`: a sine of the note's
/// frequency over the note's samples.
pub fn create_tone(note: &Note, bpm: u64, sample_rate: u32) -> (tone: Tone)
    requires
        bpm > 0,
    ensures
        tone == tone_of(*note, bpm as int, sample_rate as int),
{
    Tone { frequency: note.frequency, samples: note.sample_count(bpm, sample_rate) }
}

/// The tones that render `notes`, one for each note and in the notes'
/// order: the waveform is their concatenation without a gap.
pub fn create_tones(notes: &Vec<Note>, bpm: u64, sample_rate: u32) -> (tones: Vec<Tone>)
    requires
        bpm > 0,
    ensures
        renders(tones@, notes@, bpm as int, sample_rate as int),
{
    let mut tones: Vec<Tone> = Vec::new();
    let mut i: usize = 0;
    while i < notes.len()
        invariant
            bpm > 0,
            i <= notes.len(),
            tones.len() == i,
            forall|j: int|
                0 <= j < i ==> #[trigger] tones[j] == tone_of(
                    notes[j],
                    bpm as int,
                    sample_rate as int,
                ),
        decreases notes.len() - i,
    {
        tones.push(create_tone(&notes[i], bpm, sample_rate));
        i = i + 1;
    }
    tones
}

/// The number of samples of the whole waveform, or `None` where that number
/// does not fit in 128 bits.
pub fn total_samples(notes: &Vec<Note>, bpm: u64, sample_rate: u32) -> (total: Option<u128>)
    requires
        bpm > 0,
    ensures
        total == if samples_of_all(notes@, bpm as int, sample_rate as int) <= u128::MAX {
            Some(samples_of_all(notes@, bpm as int, sample_rate as int) as u128)
        } else {
            None
        },
{
    let mut sum: u128 = 0;
    let mut i: usize = 0;
    while i < notes.len()
        invariant
            bpm > 0,
            i <= notes.len(),
            sum == samples_of_all(notes@.take(i as int), bpm as int, sample_rate as int),
        decreases notes.len() - i,
    {
        let count = notes[i].sample_count(bpm, sample_rate);
        proof {
            assert(notes@.take(i + 1).drop_last() =~= notes@.take(i as int));
            assert(notes@.take(i + 1).last() == notes@[i as int]);
            lemma_samples_of_all_grow(notes@, i + 1, bpm as int, sample_rate as int);
        }
        if count > u128::MAX - sum {
            return None;
        }
        sum = sum + count;
        i = i + 1;
    }
    proof {
        assert(notes@.take(i as int) =~= notes@);
    }
    Some(sum)
}

} // verus!
