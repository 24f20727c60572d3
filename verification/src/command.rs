//! The commands: what `help` answers, and how the arguments of `create`
//! are read into a song request.

use vstd::prelude::*;
use vstd::arithmetic::power2::*;
use vstd::string::StrSliceExecFns;
use crate::melody::{create_notes, is_melody, pools_fit, pools_in_range, Chance};
use crate::numeral::{
    characters, decimal_value, digit_value, is_digit, list_values, parse_list, parse_number,
};
use crate::pitch::{frequency_at, index_of, lemma_pow2_monotone, reference, reference_frequency, Note};
use crate::tone::{create_tones, renders, Tone};

verus! {

/// Why the arguments of `create` were refused.
#[derive(Clone, Copy, Debug, PartialEq, Eq, Structural)]
pub enum CommandError {
    /// The argument at this position (counted from 1) is missing.
    Missing(u8),
    /// The start note does not begin with one of the letters A to G.
    NoteName,
    /// The argument at this position (counted from 1) is no number.
    NotNumeric(u8),
}

/// What `create` was asked for. Lengths, the tempo and the probability are
/// in thousandths.
#[derive(Clone, Debug)]
pub struct Song {
    pub beats: u64,
    pub start_note: Note,
    pub variation_chance: u64,
    pub note_beats: Vec<u64>,
    pub bpm: u64,
    pub file_name: String,
}

/// The mathematical value of a song request.
pub struct SongView {
    pub beats: u64,
    pub start_note: Note,
    pub variation_chance: u64,
    pub note_beats: Seq<u64>,
    pub bpm: u64,
    pub file_name: Seq<char>,
}

impl View for Song {
    type V = SongView;

    open spec fn view(&self) -> SongView {
        SongView {
            beats: self.beats,
            start_note: self.start_note,
            variation_chance: self.variation_chance,
            note_beats: self.note_beats@,
            bpm: self.bpm,
            file_name: self.file_name@,
        }
    }
}

/// The usage line of a command, or the list of commands for any other word.
pub open spec fn help_text(command: Seq<char>) -> Seq<char> {
    if command == "create"@ {
        "create [beats] [start note: [note name note height] ex. A4] [variation chance] [note beats] [beats per minute] [file name]"@
    } else if command == "path"@ {
        "path [absolute path]"@
    } else {
        "Commands:\ncreate: creates a melodie\npath: sets the output path\nhelp: gives information about commands"@
    }
}

/// The slot in the reference table of a note's letter.
pub open spec fn note_slot(letter: char) -> Option<int> {
    if letter == 'A' {
        Some(9)
    } else if letter == 'B' {
        Some(11)
    } else if letter == 'C' {
        Some(0)
    } else if letter == 'D' {
        Some(2)
    } else if letter == 'E' {
        Some(4)
    } else if letter == 'F' {
        Some(5)
    } else if letter == 'G' {
        Some(7)
    } else {
        None
    }
}

/// What the arguments of `create` ask for, the command's own name standing
/// at position 0: the length of the song, the start note as a letter and an
/// octave digit, the probability of the stable pool, the candidate lengths,
/// the tempo and the name of the output. The first argument that is missing
/// or cannot be read decides the error.
pub open spec fn create_request(args: Seq<String>) -> Result<SongView, CommandError> {
    if args.len() < 2 {
        Err(CommandError::Missing(1))
    } else if decimal_value(args[1]@) is None {
        Err(CommandError::NotNumeric(1))
    } else if args.len() < 3 || args[2]@.len() == 0 {
        Err(CommandError::Missing(2))
    } else if note_slot(args[2]@[0]) is None {
        Err(CommandError::NoteName)
    } else if args[2]@.len() < 2 {
        Err(CommandError::Missing(2))
    } else if !is_digit(args[2]@[1]) {
        Err(CommandError::NotNumeric(2))
    } else if args.len() < 4 {
        Err(CommandError::Missing(3))
    } else if decimal_value(args[3]@) is None {
        Err(CommandError::NotNumeric(3))
    } else if args.len() < 5 {
        Err(CommandError::Missing(4))
    } else if list_values(args[4]@) is None {
        Err(CommandError::NotNumeric(4))
    } else if args.len() < 6 {
        Err(CommandError::Missing(5))
    } else if decimal_value(args[5]@) is None {
        Err(CommandError::NotNumeric(5))
    } else if args.len() < 7 {
        Err(CommandError::Missing(6))
    } else {
        Ok(
            SongView {
                beats: decimal_value(args[1]@).unwrap(),
                start_note: Note {
                    frequency: frequency_at(
                        reference(note_slot(args[2]@[0]).unwrap()),
                        digit_value(args[2]@[1]),
                    ) as u64,
                    beats: 0,
                },
                variation_chance: decimal_value(args[3]@).unwrap(),
                note_beats: list_values(args[4]@).unwrap(),
                bpm: decimal_value(args[5]@).unwrap(),
                file_name: args[6]@,
            },
        )
    }
}

/// Whether two texts are the same.
pub fn same_text(left: &str, right: &str) -> (same: bool)
    ensures
        same == (left@ == right@),
{
    let count = left.unicode_len();
    if count != right.unicode_len() {
        return false;
    }
    let mut i: usize = 0;
    while i < count
        invariant
            count == left@.len(),
            count == right@.len(),
            i <= count,
            forall|j: int| 0 <= j < i ==> left@[j] == right@[j],
        decreases count - i,
    {
        if left.get_char(i) != right.get_char(i) {
            return false;
        }
        i = i + 1;
    }
    proof {
        assert(left@ =~= right@);
    }
    true
}

/// The usage line of `command`, or the list of commands where `command` is
/// not one that takes arguments.
pub fn help(command: &str) -> (prompt: &'static str)
    ensures
        prompt@ == help_text(command@),
{
    if same_text(command, "create") {
        "create [beats] [start note: [note name note height] ex. A4] [variation chance] [note beats] [beats per minute] [file name]"
    } else if same_text(command, "path") {
        "path [absolute path]"
    } else {
        "Commands:\ncreate: creates a melodie\npath: sets the output path\nhelp: gives information about commands"
    }
}

/// The answer of the `help` command: the usage line of the command named
/// at position 1, or the list of commands where none is named.
pub fn command_help(env_args: &Vec<String>) -> (prompt: &'static str)
    ensures
        prompt@ == if env_args.len() > 1 {
            help_text(env_args[1]@)
        } else {
            help_text(Seq::empty())
        },
{
    if env_args.len() > 1 {
        help(env_args[1].as_str())
    } else {
        proof {
            reveal_strlit("");
            assert(""@ =~= Seq::<char>::empty());
        }
        help("")
    }
}

/// The slot in the reference table of a note's letter, A to G.
pub fn slot_of_letter(letter: char) -> (slot: Option<u32>)
    ensures
        match slot {
            Some(s) => note_slot(letter) == Some(s as int) && s < 12,
            None => note_slot(letter) is None,
        },
{
    if letter == 'A' {
        Some(9)
    } else if letter == 'B' {
        Some(11)
    } else if letter == 'C' {
        Some(0)
    } else if letter == 'D' {
        Some(2)
    } else if letter == 'E' {
        Some(4)
    } else if letter == 'F' {
        Some(5)
    } else if letter == 'G' {
        Some(7)
    } else {
        None
    }
}

/// Reads the arguments of `create` into a song request, or says which
/// argument is missing or cannot be read.
pub fn command_create(env_args: &Vec<String>) -> (outcome: Result<Song, CommandError>)
    ensures
        match outcome {
            Ok(song) => create_request(env_args@) == Ok::<SongView, CommandError>(song@),
            Err(error) => create_request(env_args@) == Err::<SongView, CommandError>(error),
        },
{
    if env_args.len() < 2 {
        return Err(CommandError::Missing(1));
    }
    let beats = match parse_number(env_args[1].as_str()) {
        Some(value) => value,
        None => {
            return Err(CommandError::NotNumeric(1));
        },
    };
    if env_args.len() < 3 {
        return Err(CommandError::Missing(2));
    }
    let name = characters(env_args[2].as_str());
    if name.len() == 0 {
        return Err(CommandError::Missing(2));
    }
    let slot = match slot_of_letter(name[0]) {
        Some(slot) => slot,
        None => {
            return Err(CommandError::NoteName);
        },
    };
    if name.len() < 2 {
        return Err(CommandError::Missing(2));
    }
    let digit = name[1];
    if !(digit >= '0' && digit <= '9') {
        return Err(CommandError::NotNumeric(2));
    }
    let note_height: i32 = (digit as u32 - 48) as i32;
    let base = reference_frequency(slot);
    proof {
        lemma2_to64();
        lemma_pow2_monotone(note_height as nat, 9);
        let p = pow2(note_height as nat) as int;
        assert(base * p <= 3087 * 512) by (nonlinear_arith)
            requires
                0 <= base <= 3087,
                0 <= p <= 512,
        {
        }
    }
    let start_note = Note::new_with_height(base, note_height, 0);
    if env_args.len() < 4 {
        return Err(CommandError::Missing(3));
    }
    let variation_chance = match parse_number(env_args[3].as_str()) {
        Some(value) => value,
        None => {
            return Err(CommandError::NotNumeric(3));
        },
    };
    if env_args.len() < 5 {
        return Err(CommandError::Missing(4));
    }
    let note_beats = match parse_list(env_args[4].as_str()) {
        Some(list) => list,
        None => {
            return Err(CommandError::NotNumeric(4));
        },
    };
    if env_args.len() < 6 {
        return Err(CommandError::Missing(5));
    }
    let bpm = match parse_number(env_args[5].as_str()) {
        Some(value) => value,
        None => {
            return Err(CommandError::NotNumeric(5));
        },
    };
    if env_args.len() < 7 {
        return Err(CommandError::Missing(6));
    }
    let file_name = env_args[6].clone();
    Ok(Song { beats, start_note, variation_chance, note_beats, bpm, file_name })
}

impl Song {
    /// The request can be played: the song and each candidate length are
    /// longer than nothing, the probability is at most 1, the tempo is not 0,
    /// and the pools of the start note fit in 64 bits.
    pub open spec fn playable(&self) -> bool {
        &&& self.beats > 0
        &&& self.variation_chance <= 1000
        &&& self.bpm > 0
        &&& self.note_beats@.len() > 0
        &&& forall|i: int| 0 <= i < self.note_beats@.len() ==> self.note_beats@[i] > 0
        &&& pools_in_range(index_of(self.start_note.frequency as int))
    }

    /// Whether the request can be played.
    pub fn is_playable(&self) -> (ok: bool)
        ensures
            ok == self.playable(),
    {
        if self.beats == 0 || self.variation_chance > 1000 || self.bpm == 0
            || self.note_beats.len() == 0 {
            return false;
        }
        let mut i: usize = 0;
        while i < self.note_beats.len()
            invariant
                i <= self.note_beats.len(),
                forall|j: int| 0 <= j < i ==> self.note_beats@[j] > 0,
            decreases self.note_beats.len() - i,
        {
            if self.note_beats[i] == 0 {
                return false;
            }
            i = i + 1;
        }
        pools_fit(self.start_note.get_index())
    }

    /// The probability of the stable pool as a ratio.
    pub fn chance(&self) -> (chance: Chance)
        requires
            self.variation_chance <= 1000,
        ensures
            chance == (Chance { numerator: self.variation_chance as u32, denominator: 1000 }),
            chance.valid(),
    {
        Chance { numerator: self.variation_chance as u32, denominator: 1000 }
    }
}

/// Composes the song that `song` asks for: the melody, and the tones that
/// render it at the song's tempo and `sample_rate` samples per second.
pub fn create_song(song: &Song, sample_rate: u32) -> (composed: (Vec<Note>, Vec<Tone>))
    requires
        song.playable(),
    ensures
        is_melody(
            composed.0@,
            index_of(song.start_note.frequency as int),
            song.beats as int,
            (Chance { numerator: song.variation_chance as u32, denominator: 1000 }),
            song.note_beats@,
        ),
        renders(composed.1@, composed.0@, song.bpm as int, sample_rate as int),
{
    let notes = create_notes(&song.start_note, song.beats, song.chance(), &song.note_beats);
    let tones = create_tones(&notes, song.bpm, sample_rate);
    (notes, tones)
}

} // verus!
