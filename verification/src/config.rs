//! Where the output directory is kept, and the names of the files that go
//! there. Nothing here touches the disk: these functions only build paths.

use vstd::prelude::*;
use vstd::string::{StrSliceExecFns, StringExecFns};
use crate::command::same_text;

verus! {

/// The place of the settings file below the home directory, for the systems
/// that have one.
pub open spec fn config_suffix(system: Seq<char>) -> Option<Seq<char>> {
    if system == "linux"@ {
        Some("/.config/mlg/config.txt"@)
    } else if system == "windows"@ {
        Some("\\Roaming\\mlg\\config.txt"@)
    } else {
        None
    }
}

/// The separator that ends a directory on each system.
pub open spec fn separator(system: Seq<char>) -> Option<Seq<char>> {
    if system == "linux"@ {
        Some("/"@)
    } else if system == "windows"@ {
        Some("\\"@)
    } else {
        None
    }
}

/// `path` ends with `ending`.
pub open spec fn ends_with(path: Seq<char>, ending: Seq<char>) -> bool {
    path.len() >= ending.len() && path.skip(path.len() - ending.len()) == ending
}

/// The settings file of the user whose home directory is `home`, or `None`
/// on a system that is neither Linux nor Windows.
pub fn config_path(home: &str, system: &str) -> (path: Option<String>)
    ensures
        match path {
            Some(file) => config_suffix(system@) is Some && file@ == home@ + config_suffix(
                system@,
            ).unwrap(),
            None => config_suffix(system@) is None,
        },
{
    let suffix = if same_text(system, "linux") {
        "/.config/mlg/config.txt"
    } else if same_text(system, "windows") {
        "\\Roaming\\mlg\\config.txt"
    } else {
        return None;
    };
    Some(String::from_str(home).concat(suffix))
}

/// The output directory as it is stored: `path`, closed by the system's
/// separator where it does not end with one. `None` on a system that is
/// neither Linux nor Windows.
pub fn directory_entry(path: &str, system: &str) -> (entry: Option<String>)
    ensures
        match entry {
            Some(directory) => separator(system@) is Some && directory@ == if ends_with(
                path@,
                separator(system@).unwrap(),
            ) {
                path@
            } else {
                path@ + separator(system@).unwrap()
            },
            None => separator(system@) is None,
        },
{
    let (mark, closing) = if same_text(system, "linux") {
        ('/', "/")
    } else if same_text(system, "windows") {
        ('\\', "\\")
    } else {
        return None;
    };
    proof {
        reveal_strlit("/");
        reveal_strlit("\\");
        assert(closing@ =~= seq![mark]);
    }
    let count = path.unicode_len();
    let directory = String::from_str(path);
    if count > 0 && path.get_char(count - 1) == mark {
        proof {
            assert(path@.skip(count - 1) =~= seq![mark]);
        }
        Some(directory)
    } else {
        proof {
            if count > 0 {
                assert(path@.skip(count - 1)[0] == path@[count - 1]);
            }
        }
        Some(directory.concat(closing))
    }
}

/// The file that a song named `file_name` is written to in `directory`.
pub fn output_file(directory: &str, file_name: &str) -> (file: String)
    ensures
        file@ == directory@ + file_name@ + ".wav"@,
{
    String::from_str(directory).concat(file_name).concat(".wav")
}

} // verus!
