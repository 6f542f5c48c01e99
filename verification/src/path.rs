//! Paths, as std reads them on the platform that the library is built for.

use vstd::prelude::*;

verus! {

/// `path` without the leading components `base`, as `Path::strip_prefix` of
/// std gives it; `None` where `base` does not lead `path`.
pub uninterp spec fn path_stripped(path: Seq<char>, base: Seq<char>) -> Option<Seq<char>>;

/// Calls `Path::strip_prefix` of std.
///
/// Trusted: what comes back depends on the two paths alone, and is what
/// [`path_stripped`] names.
#[verifier::external_body]
pub(crate) fn strip_prefix(path: &str, base: &str) -> (rest: Option<String>)
    ensures
        match rest {
            Some(r) => path_stripped(path@, base@) == Some(r@),
            None => path_stripped(path@, base@) is None,
        },
{
    std::path::Path::new(path).strip_prefix(base).ok().and_then(|p| p.to_str()).map(|p| p.to_owned())
}

/// The extension of the last component of a path, as `Path::extension` of
/// std gives it; `None` where it has none.
pub uninterp spec fn path_extension(path: Seq<char>) -> Option<Seq<char>>;

/// Calls `Path::extension` of std.
///
/// Trusted: what comes back depends on the path alone, and is what
/// [`path_extension`] names.
#[verifier::external_body]
pub(crate) fn extension(path: &str) -> (ext: Option<String>)
    ensures
        match ext {
            Some(e) => path_extension(path@) == Some(e@),
            None => path_extension(path@) is None,
        },
{
    std::path::Path::new(path).extension().and_then(|e| e.to_str()).map(|e| e.to_owned())
}

/// Whether the components `base` lead the path, as `Path::starts_with` of
/// std tells it.
pub uninterp spec fn path_under(path: Seq<char>, base: Seq<char>) -> bool;

/// Calls `Path::starts_with` of std.
///
/// Trusted: the answer depends on the two paths alone, and is what
/// [`path_under`] names.
#[verifier::external_body]
pub(crate) fn starts_with(path: &str, base: &str) -> (under: bool)
    ensures
        under == path_under(path@, base@),
{
    std::path::Path::new(path).starts_with(base)
}

/// The last component of a path, as `Path::file_name` of std gives it;
/// `None` where the path ends in `..` or has no component.
pub uninterp spec fn path_file_name(path: Seq<char>) -> Option<Seq<char>>;

/// Calls `Path::file_name` of std.
///
/// Trusted: what comes back depends on the path alone, and is what
/// [`path_file_name`] names.
#[verifier::external_body]
pub(crate) fn file_name(path: &str) -> (name: Option<String>)
    ensures
        match name {
            Some(n) => path_file_name(path@) == Some(n@),
            None => path_file_name(path@) is None,
        },
{
    std::path::Path::new(path).file_name().and_then(|n| n.to_str()).map(|n| n.to_owned())
}

/// `rest` put after `base` as `Path::join` of std does it.
pub uninterp spec fn path_joined(base: Seq<char>, rest: Seq<char>) -> Seq<char>;

/// Calls `Path::join` of std.
///
/// Trusted: what comes back depends on the two paths alone, and is what
/// [`path_joined`] names.
#[verifier::external_body]
pub(crate) fn join(base: &str, rest: &str) -> (joined: String)
    ensures
        joined@ == path_joined(base@, rest@),
{
    std::path::Path::new(base).join(rest).to_string_lossy().into_owned()
}

} // verus!
