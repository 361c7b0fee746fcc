//! The paths of files, as text.
use vstd::prelude::*;

use std::path::Path;

verus! {

/// The path of a file that is named relative to a directory, by the rules of the platform that the
/// crate is built for.
pub uninterp spec fn joined_path(base: Seq<char>, path: Seq<char>) -> Seq<char>;

/// The path of the directory that a path lies in, by the rules of the platform that the crate is
/// built for. A root directory and the empty path lie in none.
pub uninterp spec fn parent_path(path: Seq<char>) -> Option<Seq<char>>;

/// `std::path::Path::join`: adjoins a path to another one.
///
/// The contract gives the result a name, and so claims that it depends on the two paths alone. How
/// the platform separates the parts of a path, and which paths it takes for absolute ones, is left
/// unsaid.
#[verifier::external_body]
pub(crate) fn join_paths(base: &str, path: &str) -> (res: String)
    ensures
        res@ == joined_path(base@, path@),
{
    Path::new(base).join(path).to_string_lossy().into_owned()
}

/// `std::path::Path::parent`: the path without its final component, if there is one.
///
/// The contract gives the result a name, and so claims that it depends on the path alone. What the
/// platform takes for a component is left unsaid.
#[verifier::external_body]
pub(crate) fn parent(path: &str) -> (res: Option<String>)
    ensures
        parent_path(path@) == (match res {
            Some(dir) => Some(dir@),
            None => None,
        }),
{
    Path::new(path).parent().map(|dir| dir.to_string_lossy().into_owned())
}

/// The directory of a file that is named relative to `base`. The links in that file are relative
/// to it.
pub fn return_relative_path(base: &str, relative: &str) -> (res: String)
    requires
        parent_path(joined_path(base@, relative@)) is Some,
    ensures
        parent_path(joined_path(base@, relative@)) == Some(res@),
{
    match parent(join_paths(base, relative).as_str()) {
        Some(dir) => dir,
        None => String::new(),
    }
}

} // verus!
