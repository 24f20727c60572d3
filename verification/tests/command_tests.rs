use mlg::command::{
    command_create, command_help, create_song, help, same_text, slot_of_letter, CommandError, Song,
};
use mlg::pitch::Note;

const CREATE_USAGE: &str = "create [beats] [start note: [note name note height] ex. A4] [variation chance] [note beats] [beats per minute] [file name]";
const PATH_USAGE: &str = "path [absolute path]";
const COMMANDS: &str = "Commands:\ncreate: creates a melodie\npath: sets the output path\nhelp: gives information about commands";

fn args(words: &[&str]) -> Vec<String> {
    words.iter().map(|word| word.to_string()).collect()
}

#[test]
fn help_of_each_command() {
    assert_eq!(help("create"), CREATE_USAGE);
    assert_eq!(help("path"), PATH_USAGE);
    assert_eq!(help("help"), COMMANDS);
    assert_eq!(help(""), COMMANDS);
    assert_eq!(help("creat"), COMMANDS);
}

#[test]
fn help_command_reads_its_argument() {
    assert_eq!(command_help(&args(&["help", "create"])), CREATE_USAGE);
    assert_eq!(command_help(&args(&["help", "path"])), PATH_USAGE);
    assert_eq!(command_help(&args(&["help", "other"])), COMMANDS);
    assert_eq!(command_help(&args(&["help"])), COMMANDS);
    assert_eq!(command_help(&args(&[])), COMMANDS);
}

#[test]
fn texts_are_compared_by_their_characters() {
    assert!(same_text("path", "path"));
    assert!(same_text("", ""));
    assert!(!same_text("path", "pat"));
    assert!(!same_text("path", "paths"));
    assert!(!same_text("path", "bath"));
}

#[test]
fn letters_and_their_slots() {
    assert_eq!(slot_of_letter('C'), Some(0));
    assert_eq!(slot_of_letter('D'), Some(2));
    assert_eq!(slot_of_letter('E'), Some(4));
    assert_eq!(slot_of_letter('F'), Some(5));
    assert_eq!(slot_of_letter('G'), Some(7));
    assert_eq!(slot_of_letter('A'), Some(9));
    assert_eq!(slot_of_letter('B'), Some(11));
    assert_eq!(slot_of_letter('H'), None);
    assert_eq!(slot_of_letter('c'), None);
}

#[test]
fn create_reads_a_full_request() {
    let song = command_create(&args(&["create", "4", "C4", "1.0", "1", "60", "tune"])).unwrap();
    assert_eq!(song.beats, 4000);
    assert_eq!(song.start_note, Note { frequency: 26160, beats: 0 });
    assert_eq!(song.variation_chance, 1000);
    assert_eq!(song.note_beats, vec![1000]);
    assert_eq!(song.bpm, 60_000);
    assert_eq!(song.file_name, "tune");
    assert!(song.is_playable());
}

#[test]
fn create_reads_fractions_and_lists() {
    let song =
        command_create(&args(&["create", "7.5", "A0", "0.3", "0.25,0.5,1", "92.5", "a b", "more"]))
            .unwrap();
    assert_eq!(song.beats, 7500);
    assert_eq!(song.start_note, Note { frequency: 2750, beats: 0 });
    assert_eq!(song.variation_chance, 300);
    assert_eq!(song.note_beats, vec![250, 500, 1000]);
    assert_eq!(song.bpm, 92_500);
    assert_eq!(song.file_name, "a b");
    let chance = song.chance();
    assert_eq!((chance.numerator, chance.denominator), (300, 1000));
}

#[test]
fn create_ignores_what_follows_the_octave_digit() {
    let song = command_create(&args(&["create", "1", "G9x", "0", "1", "60", "f"])).unwrap();
    assert_eq!(song.start_note.frequency, 2450 * 512);
}

fn refusal(words: &[&str]) -> CommandError {
    command_create(&args(words)).map(|_| ()).unwrap_err()
}

#[test]
fn create_names_the_missing_argument() {
    assert_eq!(refusal(&[]), CommandError::Missing(1));
    assert_eq!(refusal(&["create"]), CommandError::Missing(1));
    assert_eq!(refusal(&["create", "4"]), CommandError::Missing(2));
    assert_eq!(refusal(&["create", "4", ""]), CommandError::Missing(2));
    assert_eq!(refusal(&["create", "4", "C"]), CommandError::Missing(2));
    assert_eq!(refusal(&["create", "4", "C4"]), CommandError::Missing(3));
    assert_eq!(refusal(&["create", "4", "C4", "1"]), CommandError::Missing(4));
    assert_eq!(refusal(&["create", "4", "C4", "1", "1"]), CommandError::Missing(5));
    assert_eq!(refusal(&["create", "4", "C4", "1", "1", "60"]), CommandError::Missing(6));
}

#[test]
fn create_names_the_argument_that_is_no_number() {
    assert_eq!(refusal(&["create", "four"]), CommandError::NotNumeric(1));
    assert_eq!(refusal(&["create", "4", "Cx"]), CommandError::NotNumeric(2));
    assert_eq!(refusal(&["create", "4", "C4", "often"]), CommandError::NotNumeric(3));
    assert_eq!(refusal(&["create", "4", "C4", "1", "1;2"]), CommandError::NotNumeric(4));
    assert_eq!(refusal(&["create", "4", "C4", "1", "1", "fast"]), CommandError::NotNumeric(5));
}

#[test]
fn create_refuses_an_unknown_note_name() {
    assert_eq!(refusal(&["create", "4", "H4"]), CommandError::NoteName);
    assert_eq!(refusal(&["create", "4", "c4", "1", "1", "60", "f"]), CommandError::NoteName);
    assert_eq!(refusal(&["create", "4", "4C"]), CommandError::NoteName);
}

#[test]
fn first_fault_decides() {
    assert_eq!(refusal(&["create", "x", "H", "y"]), CommandError::NotNumeric(1));
    assert_eq!(refusal(&["create", "1", "H", "y"]), CommandError::NoteName);
}

fn request(beats: u64, chance: u64, note_beats: Vec<u64>, bpm: u64) -> Song {
    Song {
        beats,
        start_note: Note::new(26160, 0),
        variation_chance: chance,
        note_beats,
        bpm,
        file_name: String::from("tune"),
    }
}

#[test]
fn playable_requests() {
    assert!(request(4000, 1000, vec![1000], 60_000).is_playable());
    assert!(request(1, 0, vec![1, 2], 1).is_playable());
    assert!(!request(0, 1000, vec![1000], 60_000).is_playable());
    assert!(!request(4000, 1001, vec![1000], 60_000).is_playable());
    assert!(!request(4000, 1000, vec![], 60_000).is_playable());
    assert!(!request(4000, 1000, vec![1000, 0], 60_000).is_playable());
    assert!(!request(4000, 1000, vec![1000], 0).is_playable());
    let mut high = request(4000, 1000, vec![1000], 60_000);
    high.start_note = Note::new(1635u64 << 53, 0);
    assert!(!high.is_playable());
}

#[test]
fn song_of_four_whole_notes() {
    let song = command_create(&args(&["create", "4", "C4", "1.0", "1", "60", "tune"])).unwrap();
    assert!(song.is_playable());
    let (notes, tones) = create_song(&song, 44100);
    assert_eq!(notes.len(), 4);
    assert_eq!(tones.len(), 4);
    for (note, tone) in notes.iter().zip(tones.iter()) {
        assert_eq!(note.beats, 1000);
        assert!([26160, 34928, 39200].contains(&note.frequency));
        assert_eq!(tone.frequency, note.frequency);
        assert_eq!(tone.samples, 176_400);
    }
}
