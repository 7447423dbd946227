//! Errors of the settings persistence layer.  Reading and writing the
//! settings file itself is outside the engine; only the error values and
//! their messages are built here.

use vstd::prelude::*;
use vstd::string::StringExecFns;

verus! {

/// Failure to load the settings file.
pub struct LoadError {
    pub message: String,
}

/// Failure to save the settings file.
pub struct SaveError {
    pub message: String,
}

/// The message of a save error.
pub open spec fn save_error_message(message: Seq<char>, file_path: Seq<char>) -> Seq<char> {
    "Error while saving settings file "@ + file_path + ": "@ + message
}

/// The message of a load error.
pub open spec fn load_error_message(message: Seq<char>, file_path: Seq<char>) -> Seq<char> {
    "Error while loading settings file "@ + file_path + ": "@ + message
}

/// Build a save error naming the file and the cause.
pub fn create_save_error(message: &str, file_path: &str) -> (r: SaveError)
    ensures
        r.message@ == save_error_message(message@, file_path@),
{
    let mut s = "Error while saving settings file ".to_owned();
    s.append(file_path);
    s.append(": ");
    s.append(message);
    SaveError { message: s }
}

/// Build a load error naming the file and the cause.
pub fn create_load_error(message: &str, file_path: &str) -> (r: LoadError)
    ensures
        r.message@ == load_error_message(message@, file_path@),
{
    let mut s = "Error while loading settings file ".to_owned();
    s.append(file_path);
    s.append(": ");
    s.append(message);
    LoadError { message: s }
}

} // verus!
