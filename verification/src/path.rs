//! Path pieces: the last component of a path and the parent of a path.
use vstd::prelude::*;

verus! {

/// What `Path::file_name` returns for a path with these characters.
pub uninterp spec fn file_name_of(path: Seq<char>) -> Option<Seq<char>>;

/// `Path::file_name`: the last component of the path, or nothing when it
/// ends in `..` or has no component. Its result is named `file_name_of`;
/// which characters separate components follows the platform the program
/// is built for (`/` and also `\\` on Windows) and is not restated here.
#[verifier::external_body]
pub(crate) fn file_name(path: &str) -> (r: Option<String>)
    ensures
        r matches Some(n) ==> file_name_of(path@) == Some(n@),
        r is None ==> file_name_of(path@) is None,
{
    match std::path::Path::new(path).file_name() {
        Some(n) => Some(n.to_string_lossy().into_owned()),
        None => None,
    }
}

/// What `Path::parent` returns for a path with these characters.
pub uninterp spec fn parent_path(path: Seq<char>) -> Option<Seq<char>>;

/// `Path::parent`: the path without its last component, or nothing for a
/// root or empty path. Its result is named `parent_path`; the rules by which
/// `std` trims separators and `.` components are not restated here.
#[verifier::external_body]
pub(crate) fn parent(path: &str) -> (r: Option<String>)
    ensures
        r matches Some(p) ==> parent_path(path@) == Some(p@),
        r is None ==> parent_path(path@) is None,
{
    match std::path::Path::new(path).parent() {
        Some(p) => Some(p.to_string_lossy().into_owned()),
        None => None,
    }
}

} // verus!
