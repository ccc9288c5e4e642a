//! Paths under the upload directory.

use vstd::prelude::*;

verus! {

/// The text of the path that `std::path::Path::join` makes of the paths `base` and `rel`, on
/// the platform that the library is built for. What that text is, is not said here: it
/// follows the platform's rules for paths.
pub uninterp spec fn joined_path(base: Seq<char>, rel: Seq<char>) -> Seq<char>;

/// Adjoins `rel` to `base` by `std::path::Path::join`, and gives the joined path as text.
///
/// This is believed, not proved: the text is `joined_path` of the two arguments, that is,
/// it is made from the two texts and from nothing else. Both are text to begin with, so no
/// character is lost when the joined path is turned into a `String`.
#[verifier::external_body]
pub(crate) fn join_path(base: &str, rel: &str) -> (joined: String)
    ensures
        joined@ == joined_path(base@, rel@),
{
    std::path::Path::new(base).join(rel).to_string_lossy().into_owned()
}

} // verus!
