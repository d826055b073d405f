use vstd::prelude::*;

use std::path::PathBuf;
use std::time::SystemTime;

verus! {

#[verifier::external_type_specification]
#[verifier::external_body]
pub struct ExPathBuf(PathBuf);

/// `PathBuf::clone`: an equal path.
pub assume_specification[ <PathBuf as Clone>::clone ](p: &PathBuf) -> (r: PathBuf)
    ensures
        r == *p,
;

/// A save directory found on disk.
#[derive(Debug, Clone)]
pub struct SaveInfo {
    pub dir_name: String,
    pub character_name: String,
    pub modified: SystemTime,
    pub path: PathBuf,
}

/// The path a string names.
pub uninterp spec fn path_from_text(text: Seq<char>) -> PathBuf;

/// `PathBuf::from` a string.
#[verifier::external_body]
pub(crate) fn path_from_string(s: &String) -> (p: PathBuf)
    ensures
        p == path_from_text(s@),
{
    PathBuf::from(s)
}

/// The text of a path, with anything that is not valid Unicode replaced.
pub uninterp spec fn path_display_text(p: PathBuf) -> Seq<char>;

/// `Path::to_string_lossy` of a path, as an owned string.
#[verifier::external_body]
pub(crate) fn path_to_text(p: &PathBuf) -> (s: String)
    ensures
        s@ == path_display_text(*p),
{
    p.to_string_lossy().to_string()
}

} // verus!
