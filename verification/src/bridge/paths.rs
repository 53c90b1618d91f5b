//! File-system paths, as texts. What a path means is that of the platform for
//! which the library is built.
use vstd::prelude::*;

use crate::dedup::detect::text_option;

verus! {

/// The directory of a path; `None` for a root and for the empty path.
pub uninterp spec fn path_parent_of(path: Seq<char>) -> Option<Seq<char>>;

/// `std::path::Path::parent`. The claim is that the directory depends on the
/// path alone.
#[verifier::external_body]
pub(crate) fn path_parent(path: &str) -> (r: Option<String>)
    ensures
        text_option(r) == path_parent_of(path@),
{
    std::path::Path::new(path).parent().and_then(|p| p.to_str()).map(|p| p.to_owned())
}

/// The file name of a path without its extension.
pub uninterp spec fn path_stem_of(path: Seq<char>) -> Option<Seq<char>>;

/// `std::path::Path::file_stem`. The claim is that the stem depends on the
/// path alone.
#[verifier::external_body]
pub(crate) fn path_stem(path: &str) -> (r: Option<String>)
    ensures
        text_option(r) == path_stem_of(path@),
{
    std::path::Path::new(path).file_stem().and_then(|p| p.to_str()).map(|p| p.to_owned())
}

/// The file name of a path.
pub uninterp spec fn path_name_of(path: Seq<char>) -> Option<Seq<char>>;

/// `std::path::Path::file_name`. The claim is that the name depends on the path
/// alone.
#[verifier::external_body]
pub(crate) fn path_name(path: &str) -> (r: Option<String>)
    ensures
        text_option(r) == path_name_of(path@),
{
    std::path::Path::new(path).file_name().and_then(|p| p.to_str()).map(|p| p.to_owned())
}

/// The extension of the file name of a path.
pub uninterp spec fn path_extension_of(path: Seq<char>) -> Option<Seq<char>>;

/// `std::path::Path::extension`. The claim is that the extension depends on
/// the path alone.
#[verifier::external_body]
pub(crate) fn path_extension(path: &str) -> (r: Option<String>)
    ensures
        text_option(r) == path_extension_of(path@),
{
    std::path::Path::new(path).extension().and_then(|p| p.to_str()).map(|p| p.to_owned())
}

/// Two paths have the same components.
pub uninterp spec fn same_components(a: Seq<char>, b: Seq<char>) -> bool;

/// `std::path::Path == std::path::Path`. The claim is that the answer depends
/// on the two paths alone.
#[verifier::external_body]
pub(crate) fn same_path(a: &str, b: &str) -> (r: bool)
    ensures
        r == same_components(a@, b@),
{
    std::path::Path::new(a) == std::path::Path::new(b)
}

} // verus!
