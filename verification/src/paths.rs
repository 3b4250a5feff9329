//! Paths and quoting, from the standard library.
//!
//! `std::path` reads a path by the rules of the platform that the crate is built
//! for. The names below stand for what it gives there.

use vstd::prelude::*;

verus! {

/// What `std::path::Path::parent` gives for a path: the path without its final
/// component, or nothing for a root and for the empty path.
pub uninterp spec fn path_parent(path: Seq<char>) -> Option<Seq<char>>;

/// What `std::path::Path::is_absolute` says of a path.
pub uninterp spec fn path_is_absolute(path: Seq<char>) -> bool;

/// What `std::path::Path::join` gives for a directory and a path.
pub uninterp spec fn path_join(directory: Seq<char>, path: Seq<char>) -> Seq<char>;

/// How the `Debug` of `str` writes a text: in double quotes, with escapes.
pub uninterp spec fn debug_text(text: Seq<char>) -> Seq<char>;

/// Calls `std::path::Path::parent`. The parent of a path in UTF-8 is a part of it
/// up to a separator, so it is text again. The contract names the result.
#[verifier::external_body]
pub(crate) fn parent_of(path: &str) -> (parent: Option<String>)
    ensures
        parent.deep_view() == path_parent(path@),
{
    match std::path::Path::new(path).parent() {
        Some(parent) => Some(parent.to_string_lossy().into_owned()),
        None => None,
    }
}

/// Calls `std::path::Path::is_absolute`. The contract names the result.
#[verifier::external_body]
pub(crate) fn is_absolute(path: &str) -> (absolute: bool)
    ensures
        absolute == path_is_absolute(path@),
{
    std::path::Path::new(path).is_absolute()
}

/// Calls `std::path::Path::join`. Two texts join to a text. The contract names the
/// result.
#[verifier::external_body]
pub(crate) fn join(directory: &str, path: &str) -> (joined: String)
    ensures
        joined@ == path_join(directory@, path@),
{
    std::path::Path::new(directory).join(path).to_string_lossy().into_owned()
}

/// Formats a text with the `Debug` of `str`. The contract names the result.
#[verifier::external_body]
pub(crate) fn quoted(text: &str) -> (literal: String)
    ensures
        literal@ == debug_text(text@),
{
    format!("{:?}", text)
}

} // verus!
