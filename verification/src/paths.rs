//! Path queries (`std::path::Path`) on paths held as strings.
//!
//! Each function here makes one `Path` call. Path syntax is that of the
//! target the crate is built for, so the named results below are fixed for a
//! given build and do not depend on the file system.
use vstd::prelude::*;

verus! {

/// The view of an optional string.
pub open spec fn opt_view(o: Option<String>) -> Option<Seq<char>> {
    match o {
        Some(s) => Some(s@),
        None => None,
    }
}

/// What `Path::file_name` returns for the path `p`.
pub uninterp spec fn spec_file_name(p: Seq<char>) -> Option<Seq<char>>;

/// What `Path::parent` returns for the path `p`.
pub uninterp spec fn spec_parent(p: Seq<char>) -> Option<Seq<char>>;

/// What `Path::extension` returns for the path `p`.
pub uninterp spec fn spec_extension(p: Seq<char>) -> Option<Seq<char>>;

/// What `Path::starts_with` answers for `p` and `base` (whole components).
pub uninterp spec fn spec_path_starts_with(p: Seq<char>, base: Seq<char>) -> bool;

/// What `Path::strip_prefix` returns for `p` and `base`.
pub uninterp spec fn spec_strip_prefix(p: Seq<char>, base: Seq<char>) -> Option<Seq<char>>;

/// `Path::file_name`: the final component, unless it is `..` or the path
/// has none. The contract names the result.
#[verifier::external_body]
pub(crate) fn file_name_of(p: &str) -> (r: Option<String>)
    ensures
        opt_view(r) == spec_file_name(p@),
{
    std::path::Path::new(p).file_name().map(|n| n.to_string_lossy().into_owned())
}

/// `Path::parent`: the path without its final component. The contract names
/// the result.
#[verifier::external_body]
pub(crate) fn parent_of(p: &str) -> (r: Option<String>)
    ensures
        opt_view(r) == spec_parent(p@),
{
    std::path::Path::new(p).parent().map(|d| d.to_string_lossy().into_owned())
}

/// `Path::extension`: the text after the last `.` of the file name. The
/// contract names the result.
#[verifier::external_body]
pub(crate) fn extension_of(p: &str) -> (r: Option<String>)
    ensures
        opt_view(r) == spec_extension(p@),
{
    std::path::Path::new(p).extension().map(|e| e.to_string_lossy().into_owned())
}

/// `Path::starts_with`: whether `base`'s components are a prefix of `p`'s.
/// The contract names the result.
#[verifier::external_body]
pub(crate) fn path_starts_with(p: &str, base: &str) -> (b: bool)
    ensures
        b == spec_path_starts_with(p@, base@),
{
    std::path::Path::new(p).starts_with(base)
}

/// `Path::strip_prefix`: `p` relative to `base`, when `base` is a component
/// prefix of `p`. The contract names the result.
#[verifier::external_body]
pub(crate) fn strip_path_prefix(p: &str, base: &str) -> (r: Option<String>)
    ensures
        opt_view(r) == spec_strip_prefix(p@, base@),
{
    match std::path::Path::new(p).strip_prefix(base) {
        Ok(rel) => Some(rel.to_string_lossy().into_owned()),
        Err(_) => None,
    }
}

} // verus!
