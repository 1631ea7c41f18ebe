//! Which files a run reads and writes: the paths that were asked for, where
//! they have the right ending, and the usual ones else.

use crate::strings::{ends_with, has_suffix};
use vstd::prelude::*;
use vstd::string::*;

verus! {

/// The path that is used where `given` was asked for and paths must end in
/// `ending`: the given one if there is one and it ends so, `usual` else.
pub open spec fn chosen(given: Option<String>, ending: Seq<char>, usual: Seq<char>) -> Seq<char> {
    match given {
        Some(path) => if has_suffix(path@, ending) {
            path@
        } else {
            usual
        },
        None => usual,
    }
}

/// Chooses between the path that was asked for and the usual one.
fn choose_path(given: &Option<String>, ending: &str, usual: &str) -> (path: String)
    ensures
        path@ == chosen(*given, ending@, usual@),
{
    match given {
        Some(path) => {
            if ends_with(path.as_str(), ending) {
                path.clone()
            } else {
                String::from_str(usual)
            }
        },
        None => String::from_str(usual),
    }
}

/// The archive to read: the one asked for if its name ends in `.zip`, else
/// `datasets/dataset.zip`.
pub fn dataset_path(given: &Option<String>) -> (path: String)
    ensures
        path@ == chosen(*given, ".zip"@, "datasets/dataset.zip"@),
{
    choose_path(given, ".zip", "datasets/dataset.zip")
}

/// The file to write: the one asked for if its name ends in `.txt`, else
/// `stats.txt`.
pub fn stats_path(given: &Option<String>) -> (path: String)
    ensures
        path@ == chosen(*given, ".txt"@, "stats.txt"@),
{
    choose_path(given, ".txt", "stats.txt")
}

} // verus!
