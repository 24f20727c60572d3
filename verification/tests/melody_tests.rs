use mlg::melody::{
    create_next_note, create_notes, index_in_range, note_for_draws, pools_fit, stable_frequencies,
    variation_frequencies, Chance,
};
use mlg::pitch::Note;
use mlg::tone::{create_tones, total_samples};

const C4: u64 = 26160;
const STABLE_C4: [u64; 3] = [26160, 34928, 39200];
const VARIATION_C4: [u64; 3] = [27712, 36992, 41536];

fn always() -> Chance {
    Chance { numerator: 1000, denominator: 1000 }
}

fn never() -> Chance {
    Chance { numerator: 0, denominator: 1000 }
}

#[test]
fn pools_of_c4() {
    assert_eq!(stable_frequencies(48), STABLE_C4);
    assert_eq!(variation_frequencies(48), VARIATION_C4);
}

#[test]
fn pools_of_an_unmatched_start_are_those_of_index_zero() {
    let start = Note::new(12345, 0).get_index();
    assert_eq!(start, 0);
    assert_eq!(stable_frequencies(start), [1635, 2183, 2450]);
    assert_eq!(variation_frequencies(start), [1732, 2312, 2596]);
}

#[test]
fn chance_validity() {
    assert!(always().is_valid());
    assert!(never().is_valid());
    assert!(Chance { numerator: 1, denominator: 3 }.is_valid());
    assert!(!Chance { numerator: 4, denominator: 3 }.is_valid());
    assert!(!Chance { numerator: 0, denominator: 0 }.is_valid());
}

#[test]
fn range_of_indices() {
    assert!(index_in_range(0));
    assert!(index_in_range(635));
    assert!(index_in_range(639));
    assert!(!index_in_range(640));
    assert!(!index_in_range(648));
    assert!(!index_in_range(u32::MAX));
    assert!(pools_fit(48));
    assert!(pools_fit(631));
    assert!(!pools_fit(632));
    assert!(!pools_fit(u32::MAX - 3));
}

#[test]
fn draws_select_the_note() {
    let beats = vec![250, 500, 1000];
    assert_eq!(
        note_for_draws(&STABLE_C4, &VARIATION_C4, &beats, 1, true, 2),
        Note { frequency: 39200, beats: 500 }
    );
    assert_eq!(
        note_for_draws(&STABLE_C4, &VARIATION_C4, &beats, 2, false, 0),
        Note { frequency: 27712, beats: 1000 }
    );
    assert_eq!(
        note_for_draws(&STABLE_C4, &VARIATION_C4, &beats, 0, false, 1),
        Note { frequency: 36992, beats: 250 }
    );
}

#[test]
fn next_note_comes_from_the_pools() {
    let beats = vec![250, 500];
    let mut generator = rand::rng();
    let mut seen_stable = false;
    let mut seen_variation = false;
    for _ in 0..400 {
        let note = create_next_note(
            &STABLE_C4,
            &VARIATION_C4,
            Chance { numerator: 1, denominator: 2 },
            &beats,
            &mut generator,
        );
        assert!(beats.contains(&note.beats));
        let stable = STABLE_C4.contains(&note.frequency);
        let variation = VARIATION_C4.contains(&note.frequency);
        assert!(stable || variation);
        seen_stable = seen_stable || stable;
        seen_variation = seen_variation || variation;
    }
    assert!(seen_stable && seen_variation);
}

#[test]
fn certain_chance_stays_in_the_stable_pool() {
    let beats = vec![1000];
    let mut generator = rand::rng();
    for _ in 0..200 {
        let note = create_next_note(&STABLE_C4, &VARIATION_C4, always(), &beats, &mut generator);
        assert!(STABLE_C4.contains(&note.frequency));
        assert_eq!(note.beats, 1000);
    }
}

#[test]
fn zero_chance_stays_in_the_variation_pool() {
    let beats = vec![1000];
    let mut generator = rand::rng();
    for _ in 0..200 {
        let note = create_next_note(&STABLE_C4, &VARIATION_C4, never(), &beats, &mut generator);
        assert!(VARIATION_C4.contains(&note.frequency));
    }
}

#[test]
fn four_whole_notes_from_c4() {
    let start = Note::new_with_height(1635, 4, 0);
    let notes = create_notes(&start, 4000, always(), &vec![1000]);
    assert_eq!(notes.len(), 4);
    for note in &notes {
        assert_eq!(note.beats, 1000);
        assert!(STABLE_C4.contains(&note.frequency));
    }
    let tones = create_tones(&notes, 60000, 44100);
    assert_eq!(tones.len(), 4);
    let samples: u128 = tones.iter().map(|tone| tone.samples).sum();
    assert_eq!(samples, 705_600);
    assert_eq!(total_samples(&notes, 60000, 44100), Some(705_600));
}

#[test]
fn melody_fills_the_beats_and_overshoots_by_less_than_a_note() {
    let start = Note::new(C4, 0);
    let candidates = vec![250, 500, 1000];
    for _ in 0..100 {
        let notes = create_notes(&start, 3300, Chance { numerator: 1, denominator: 3 }, &candidates);
        assert!(!notes.is_empty());
        let total: u64 = notes.iter().map(|note| note.beats).sum();
        assert!(total >= 3300);
        assert!(total < 3300 + 1000);
        assert!(total - notes[notes.len() - 1].beats < 3300);
        for note in &notes {
            assert!(candidates.contains(&note.beats));
            assert!(
                STABLE_C4.contains(&note.frequency) || VARIATION_C4.contains(&note.frequency)
            );
        }
    }
}

#[test]
fn melody_of_one_long_note() {
    let start = Note::new(C4, 0);
    let notes = create_notes(&start, 1, never(), &vec![u64::MAX]);
    assert_eq!(notes.len(), 1);
    assert_eq!(notes[0].beats, u64::MAX);
    assert!(VARIATION_C4.contains(&notes[0].frequency));
}
