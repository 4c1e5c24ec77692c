//! Where the copy of a target goes: into the destination directory, under the
//! target's own file name. The directories that lead to the target are left
//! behind.
//!
//! Taking a path apart and putting one together is the standard library's
//! work. What it returns is not spelled out here: it is given a name, and the
//! rest of the crate speaks of that name.

use vstd::prelude::*;

verus! {

/// What `std::path::Path::file_name` returns for `path`, on the platform the
/// crate is built for.
pub uninterp spec fn file_name_of(path: Seq<char>) -> Option<Seq<char>>;

/// What `std::path::Path::join` returns for `directory` and `name`, on the
/// platform the crate is built for.
pub uninterp spec fn joined(directory: Seq<char>, name: Seq<char>) -> Seq<char>;

/// The path under which `target` is kept in `destination`, if `target` has a
/// file name.
pub open spec fn candidate_of(destination: Seq<char>, target: Seq<char>) -> Option<Seq<char>> {
    match file_name_of(target) {
        Some(name) => Some(joined(destination, name)),
        None => None,
    }
}

/// Calls `std::path::Path::file_name`, which gives the last component of a
/// path where that is the name of a file or a directory, and nothing where the
/// path ends in `..` or has no component at all. Nothing more is claimed than
/// that the call returns what `file_name_of` names. A path that was text has
/// a file name that is text, so the conversion back loses nothing.
#[verifier::external_body]
fn file_name(path: &str) -> (name: Option<String>)
    ensures
        match name {
            Some(name) => file_name_of(path@) == Some(name@),
            None => file_name_of(path@) is None,
        },
{
    match std::path::Path::new(path).file_name() {
        Some(name) => Some(name.to_string_lossy().into_owned()),
        None => None,
    }
}

/// Calls `std::path::Path::join`, which appends `name` to `directory` as one
/// more component, or gives `name` alone where it is absolute. Nothing more is
/// claimed than that the call returns what `joined` names. Both parts were
/// text, so the conversion back loses nothing.
#[verifier::external_body]
fn join(directory: &str, name: &str) -> (path: String)
    ensures
        path@ == joined(directory@, name@),
{
    std::path::Path::new(directory).join(name).to_string_lossy().into_owned()
}

/// The path under which `target` is kept in `destination`: the destination
/// with the file name of the target appended. There is none where the target
/// has no file name.
pub fn candidate_path(destination: &str, target: &str) -> (candidate: Option<String>)
    ensures
        match candidate {
            Some(path) => candidate_of(destination@, target@) == Some(path@),
            None => candidate_of(destination@, target@) is None,
        },
{
    match file_name(target) {
        Some(name) => Some(join(destination, name.as_str())),
        None => None,
    }
}

} // verus!
