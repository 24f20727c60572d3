//! The pitch model: the chromatic reference table of octave 0 and the
//! conversions between a frequency and its linear note index.

use vstd::prelude::*;
use vstd::arithmetic::power2::*;
use vstd::arithmetic::div_mod::lemma_div_denominator;

verus! {

/// Hundredths of a hertz per hertz: the unit in which frequencies are held.
pub const FREQUENCY_SCALE: u64 = 100;

/// The chromatic reference table: the frequency of each semitone of octave 0,
/// C0 up to B0, in hundredths of a hertz.
pub open spec fn reference(slot: int) -> int {
    if slot == 0 {
        1635
    } else if slot == 1 {
        1732
    } else if slot == 2 {
        1835
    } else if slot == 3 {
        1945
    } else if slot == 4 {
        2060
    } else if slot == 5 {
        2183
    } else if slot == 6 {
        2312
    } else if slot == 7 {
        2450
    } else if slot == 8 {
        2596
    } else if slot == 9 {
        2750
    } else if slot == 10 {
        2914
    } else {
        3087
    }
}

/// `base` raised by `height` octaves. A negative height lowers the pitch; the
/// result is then rounded down to a whole hundredth of a hertz.
pub open spec fn frequency_at(base: int, height: int) -> int {
    if height >= 0 {
        base * pow2(height as nat)
    } else {
        base / (pow2((-height) as nat) as int)
    }
}

/// `frequency` is the reference entry `slot` raised by `octave` octaves.
pub open spec fn on_lattice(frequency: int, slot: int, octave: nat) -> bool {
    0 <= slot < 12 && frequency == reference(slot) * pow2(octave)
}

/// `frequency` is some reference entry raised by some number of octaves.
pub open spec fn has_index(frequency: int) -> bool {
    exists|slot: int, octave: nat| on_lattice(frequency, slot, octave)
}

/// The note index of a frequency: `slot + 12 * octave` for a frequency on the
/// lattice, and 0 for every other frequency.
pub open spec fn index_of(frequency: int) -> int {
    if has_index(frequency) {
        let (slot, octave) = choose|slot: int, octave: nat| on_lattice(frequency, slot, octave);
        slot + 12 * octave
    } else {
        0
    }
}

/// The frequency of a note index: its slot's reference entry raised by its
/// octave.
pub open spec fn frequency_of(index: int) -> int {
    reference(index % 12) * pow2((index / 12) as nat)
}

pub proof fn lemma_pow2_monotone(a: nat, b: nat)
    requires
        a <= b,
    ensures
        pow2(a) <= pow2(b),
{
    if a < b {
        lemma_pow2_strictly_increases(a, b);
    }
}

/// The reference table rises strictly, and its last entry is less than twice
/// its first.
pub proof fn lemma_reference_rises(low: int, high: int)
    requires
        0 <= low < high < 12,
    ensures
        1635 <= reference(low) < reference(high) <= 3087,
        reference(high) < 2 * reference(low),
{
}

/// A frequency lies on the lattice at one slot and one octave only.
pub proof fn lemma_lattice_unique(frequency: int, first_slot: int, first_octave: nat, second_slot: int, second_octave: nat)
    requires
        on_lattice(frequency, first_slot, first_octave),
        on_lattice(frequency, second_slot, second_octave),
    ensures
        first_slot == second_slot,
        first_octave == second_octave,
{
    let first_base = reference(first_slot);
    let second_base = reference(second_slot);
    let first_power = pow2(first_octave) as int;
    let second_power = pow2(second_octave) as int;
    lemma_pow2_pos(first_octave);
    lemma_pow2_pos(second_octave);
    assert(1635 <= first_base <= 3087 && 1635 <= second_base <= 3087);
    if first_octave < second_octave {
        lemma_pow2_monotone(first_octave + 1, second_octave);
        lemma_pow2_unfold(first_octave + 1);
        assert(false) by (nonlinear_arith)
            requires
                first_base * first_power == second_base * second_power,
                second_power >= 2 * first_power,
                first_power > 0,
                1635 <= first_base <= 3087,
                1635 <= second_base <= 3087,
        {
            assert(second_base * second_power >= second_base * (2 * first_power));
            assert(second_base * (2 * first_power) >= 3270 * first_power);
            assert(first_base * first_power <= 3087 * first_power);
        }
    } else if second_octave < first_octave {
        lemma_pow2_monotone(second_octave + 1, first_octave);
        lemma_pow2_unfold(second_octave + 1);
        assert(false) by (nonlinear_arith)
            requires
                first_base * first_power == second_base * second_power,
                first_power >= 2 * second_power,
                second_power > 0,
                1635 <= first_base <= 3087,
                1635 <= second_base <= 3087,
        {
            assert(first_base * first_power >= first_base * (2 * second_power));
            assert(first_base * (2 * second_power) >= 3270 * second_power);
            assert(second_base * second_power <= 3087 * second_power);
        }
    } else {
        assert(first_base == second_base) by (nonlinear_arith)
            requires
                first_base * first_power == second_base * first_power,
                first_power > 0,
        {
        }
    }
}

/// On the lattice, the note index is the slot plus twelve times the octave.
pub proof fn lemma_index_of_lattice(frequency: int, slot: int, octave: nat)
    requires
        on_lattice(frequency, slot, octave),
    ensures
        has_index(frequency),
        index_of(frequency) == slot + 12 * octave,
{
    let (s, k) = choose|s: int, k: nat| on_lattice(frequency, s, k);
    lemma_lattice_unique(frequency, slot, octave, s, k);
}

/// Off the lattice, the note index falls back to 0.
pub proof fn lemma_index_of_stranger(frequency: int)
    requires
        !has_index(frequency),
    ensures
        index_of(frequency) == 0,
{
}

/// Raising a reference entry by some octaves and taking the index of the
/// result gives back the slot and the octave; the frequency of that index is
/// the raised frequency again.
pub proof fn lemma_index_recovers_frequency(slot: int, octave: nat)
    requires
        0 <= slot < 12,
    ensures
        index_of(frequency_at(reference(slot), octave as int)) == slot + 12 * octave,
        frequency_of(index_of(frequency_at(reference(slot), octave as int))) == frequency_at(
            reference(slot),
            octave as int,
        ),
{
    let f = frequency_at(reference(slot), octave as int);
    assert(on_lattice(f, slot, octave));
    lemma_index_of_lattice(f, slot, octave);
    lemma_frequency_of_index(slot, octave);
}

/// Raising a frequency of the lattice by whole octaves keeps it on the
/// lattice and adds twelve to its index for each octave.
pub proof fn lemma_octave_adds_twelve(frequency: int, height: nat)
    requires
        has_index(frequency),
    ensures
        has_index(frequency_at(frequency, height as int)),
        index_of(frequency_at(frequency, height as int)) == index_of(frequency) + 12 * height,
{
    let (slot, octave) = choose|slot: int, octave: nat| on_lattice(frequency, slot, octave);
    lemma_index_of_lattice(frequency, slot, octave);
    lemma_pow2_adds(octave, height);
    let raised = frequency_at(frequency, height as int);
    assert(raised == reference(slot) * pow2(octave + height)) by (nonlinear_arith)
        requires
            raised == frequency * pow2(height),
            frequency == reference(slot) * pow2(octave),
            pow2(octave + height) == pow2(octave) * pow2(height),
    {
    }
    assert(on_lattice(raised, slot, octave + height));
    lemma_index_of_lattice(raised, slot, octave + height);
}

/// The frequency of the index `slot + 12 * octave` is the slot's reference
/// entry raised by `octave` octaves.
pub proof fn lemma_frequency_of_index(slot: int, octave: nat)
    requires
        0 <= slot < 12,
    ensures
        frequency_of(slot + 12 * octave) == reference(slot) * pow2(octave),
{
    let index = slot + 12 * octave;
    assert(index % 12 == slot && index / 12 == octave) by (nonlinear_arith)
        requires
            index == slot + 12 * octave,
            0 <= slot < 12,
            octave >= 0,
    {
    }
}

/// `frequency_of` undoes `index_of` on every frequency of the lattice.
pub proof fn lemma_frequency_round_trip(frequency: int)
    requires
        has_index(frequency),
    ensures
        frequency_of(index_of(frequency)) == frequency,
{
    let (s, k) = choose|s: int, k: nat| on_lattice(frequency, s, k);
    lemma_index_of_lattice(frequency, s, k);
    lemma_frequency_of_index(s, k);
}

/// `index_of` undoes `frequency_of` on every note index.
pub proof fn lemma_index_round_trip(index: nat)
    ensures
        index_of(frequency_of(index as int)) == index,
{
    let slot = index as int % 12;
    let octave = (index as int / 12) as nat;
    assert(on_lattice(frequency_of(index as int), slot, octave));
    lemma_index_of_lattice(frequency_of(index as int), slot, octave);
}

/// The entry of the chromatic reference table at `slot`.
pub fn reference_frequency(slot: u32) -> (base: u64)
    requires
        slot < 12,
    ensures
        base == reference(slot as int),
{
    if slot == 0 {
        1635
    } else if slot == 1 {
        1732
    } else if slot == 2 {
        1835
    } else if slot == 3 {
        1945
    } else if slot == 4 {
        2060
    } else if slot == 5 {
        2183
    } else if slot == 6 {
        2312
    } else if slot == 7 {
        2450
    } else if slot == 8 {
        2596
    } else if slot == 9 {
        2750
    } else if slot == 10 {
        2914
    } else {
        3087
    }
}

/// A tone of the melody: its pitch and how long it sounds.
#[derive(Clone, Copy, Debug, PartialEq, Eq, Structural)]
pub struct Note {
    /// Frequency in hundredths of a hertz.
    pub frequency: u64,
    /// Length in thousandths of a whole-note beat.
    pub beats: u64,
}

proof fn lemma_doubling_fits(base: int, done: nat, height: nat)
    requires
        0 <= base,
        done < height,
    ensures
        base * pow2(done + 1) <= base * pow2(height),
        base * pow2(done + 1) == 2 * (base * pow2(done)),
{
    lemma_pow2_monotone(done + 1, height);
    lemma_pow2_unfold(done + 1);
    let a = pow2(done + 1) as int;
    let b = pow2(height) as int;
    let c = pow2(done) as int;
    assert(base * a <= base * b && base * a == 2 * (base * c)) by (nonlinear_arith)
        requires
            0 <= base,
            a <= b,
            a == 2 * c,
    {
    }
}

proof fn lemma_halving(base: int, done: nat)
    requires
        0 <= base,
    ensures
        (base / (pow2(done) as int)) / 2 == base / (pow2(done + 1) as int),
{
    lemma_pow2_pos(done);
    lemma_pow2_unfold(done + 1);
    lemma_div_denominator(base, pow2(done) as int, 2);
    assert(pow2(done) * 2 == pow2(done + 1));
}

proof fn lemma_octave_bound(base: int, octave: nat)
    requires
        1 <= base,
        base * pow2(octave) <= u64::MAX,
    ensures
        octave < 64,
{
    if octave >= 64 {
        lemma_pow2_monotone(64, octave);
        lemma2_to64();
        let p = pow2(octave) as int;
        assert(base * p >= p) by (nonlinear_arith)
            requires
                1 <= base,
                p >= 0,
        {
        }
    }
}

proof fn lemma_far_below(base: int, steps: nat)
    requires
        0 <= base <= u64::MAX,
        steps >= 64,
    ensures
        base / (pow2(steps) as int) == 0,
{
    lemma_pow2_monotone(64, steps);
    lemma2_to64();
    let p = pow2(steps) as int;
    assert(base / p == 0) by (nonlinear_arith)
        requires
            0 <= base < p,
    {
    }
}

/// What is known of a slot once the scan of its octaves has stopped at
/// `octave` with `value == base * 2^octave`, every lower octave lying
/// below `frequency` and the next one above it.
proof fn lemma_slot_misses(frequency: int, slot: int, octave: nat, value: int)
    requires
        0 <= slot < 12,
        value == reference(slot) * pow2(octave),
        value != frequency,
        octave > 0 ==> value <= frequency,
        2 * value > frequency,
    ensures
        forall|k: nat| !on_lattice(frequency, slot, k),
{
    assert forall|k: nat| !on_lattice(frequency, slot, k) by {
        let r = reference(slot);
        let p = pow2(octave) as int;
        let q = pow2(k) as int;
        lemma_pow2_pos(k);
        lemma_pow2_pos(octave);
        if k < octave {
            lemma_pow2_monotone(k + 1, octave);
            lemma_pow2_unfold(k + 1);
            assert(r * q < r * p) by (nonlinear_arith)
                requires
                    r >= 1635,
                    2 * q <= p,
                    q > 0,
            {
            }
        } else if k > octave {
            lemma_pow2_monotone(octave + 1, k);
            lemma_pow2_unfold(octave + 1);
            assert(r * q >= 2 * (r * p)) by (nonlinear_arith)
                requires
                    r >= 1635,
                    2 * p <= q,
                    p > 0,
            {
            }
        }
    }
}

impl Note {
    /// The frequency `note_height` octaves above `base_frequency`, or
    /// below it where `note_height` is negative (rounded down then).
    pub fn get_frequency(base_frequency: u64, note_height: i32) -> (frequency: u64)
        requires
            frequency_at(base_frequency as int, note_height as int) <= u64::MAX,
        ensures
            frequency == frequency_at(base_frequency as int, note_height as int),
    {
        if note_height >= 0 {
            if base_frequency == 0 {
                assert(0 * pow2(note_height as nat) == 0);
                return 0;
            }
            let mut value: u64 = base_frequency;
            let mut done: i32 = 0;
            proof {
                lemma2_to64();
                assert(base_frequency * pow2(0) == base_frequency) by (nonlinear_arith)
                    requires
                        pow2(0) == 1,
                {
                }
            }
            while done < note_height
                invariant
                    0 <= done <= note_height,
                    value == base_frequency * pow2(done as nat),
                    base_frequency * pow2(note_height as nat) <= u64::MAX,
                decreases note_height - done,
            {
                proof {
                    lemma_doubling_fits(base_frequency as int, done as nat, note_height as nat);
                }
                value = value * 2;
                done = done + 1;
            }
            value
        } else {
            if note_height <= -64 {
                proof {
                    lemma_far_below(base_frequency as int, (-note_height) as nat);
                }
                return 0;
            }
            let mut value: u64 = base_frequency;
            let mut done: i32 = 0;
            proof {
                lemma2_to64();
                assert(base_frequency as int / (pow2(0) as int) == base_frequency);
            }
            while done < -note_height
                invariant
                    -64 < note_height < 0,
                    0 <= done <= -note_height,
                    value == base_frequency as int / (pow2(done as nat) as int),
                decreases -note_height - done,
            {
                proof {
                    lemma_halving(base_frequency as int, done as nat);
                }
                value = value / 2;
                done = done + 1;
            }
            value
        }
    }

    /// The note index of this note's frequency: the slot of the reference
    /// table that it is an octave multiple of, plus twelve for each octave.
    /// A frequency that is no such multiple has index 0.
    pub fn get_index(&self) -> (index: u32)
        ensures
            index == index_of(self.frequency as int),
            index < 768,
    {
        let frequency = self.frequency;
        let mut slot: u32 = 0;
        while slot < 12
            invariant
                slot <= 12,
                frequency == self.frequency,
                forall|s: int, k: nat| 0 <= s < slot ==> !on_lattice(frequency as int, s, k),
            decreases 12 - slot,
        {
            let base = reference_frequency(slot);
            let mut value: u64 = base;
            let mut octave: u32 = 0;
            proof {
                lemma2_to64();
                assert(base * pow2(0) == base);
            }
            while value <= frequency / 2
                invariant
                    slot < 12,
                    base == reference(slot as int),
                    value == base * pow2(octave as nat),
                    octave > 0 ==> value <= frequency,
                    value > 0,
                    octave < 64,
                decreases frequency - value,
            {
                proof {
                    lemma_pow2_unfold((octave + 1) as nat);
                    assert(base * pow2((octave + 1) as nat) == 2 * (base * pow2(octave as nat)))
                        by (nonlinear_arith)
                        requires
                            pow2((octave + 1) as nat) == 2 * pow2(octave as nat),
                    {
                    }
                    lemma_octave_bound(base as int, (octave + 1) as nat);
                }
                value = value * 2;
                octave = octave + 1;
            }
            if value == frequency {
                proof {
                    assert(on_lattice(frequency as int, slot as int, octave as nat));
                    lemma_index_of_lattice(frequency as int, slot as int, octave as nat);
                }
                return slot + 12 * octave;
            }
            proof {
                lemma_slot_misses(frequency as int, slot as int, octave as nat, value as int);
            }
            slot = slot + 1;
        }
        proof {
            assert(!has_index(frequency as int));
        }
        0
    }

    /// The frequency of the note index `index`.
    pub fn get_frequency_by_index(index: u32) -> (frequency: u64)
        requires
            frequency_of(index as int) <= u64::MAX,
        ensures
            frequency == frequency_of(index as int),
    {
        let slot = index % 12;
        let octave = index / 12;
        Self::get_frequency(reference_frequency(slot), octave as i32)
    }

    /// The note of index `index` that lasts `beats`.
    pub fn create_note_by_index(index: u32, beats: u64) -> (note: Note)
        requires
            frequency_of(index as int) <= u64::MAX,
        ensures
            note == (Note { frequency: frequency_of(index as int) as u64, beats }),
    {
        let slot = index % 12;
        let octave = index / 12;
        Self::new_with_height(reference_frequency(slot), octave as i32, beats)
    }

    /// The note `note_height` octaves above `base_frequency` that lasts
    /// `beats`.
    pub fn new_with_height(base_frequency: u64, note_height: i32, beats: u64) -> (note: Note)
        requires
            frequency_at(base_frequency as int, note_height as int) <= u64::MAX,
        ensures
            note == (Note {
                frequency: frequency_at(base_frequency as int, note_height as int) as u64,
                beats,
            }),
    {
        Note { frequency: Self::get_frequency(base_frequency, note_height), beats }
    }

    /// The note of the given frequency and length.
    pub fn new(frequency: u64, beats: u64) -> (note: Note)
        ensures
            note == (Note { frequency, beats }),
    {
        Note { frequency, beats }
    }
}

} // verus!
