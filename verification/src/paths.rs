//! Paths as text: the few questions the tool asks of a path, answered by
//! std's path rules on this platform.

use vstd::prelude::*;

verus! {

/// The last component of a path, when it names one (not for a path ending in
/// `..`, or the root alone), as std reads paths on this platform.
pub uninterp spec fn path_file_name(p: Seq<char>) -> Option<Seq<char>>;

/// The last component of a path.
///
/// Trusted: calls `Path::file_name` and turns the name back into text; a name
/// taken from valid text is valid text, so the conversion is lossless. The
/// result depends on the path alone.
#[verifier::external_body]
pub(crate) fn file_name(p: &str) -> (r: Option<String>)
    ensures
        match r {
            Some(n) => path_file_name(p@) == Some(n@),
            None => path_file_name(p@) is None,
        },
{
    std::path::Path::new(p).file_name().map(|n| n.to_string_lossy().into_owned())
}

/// The path without its last component, when it has one (`Some("")` for a
/// bare file name, `None` for a root or an empty path).
pub uninterp spec fn path_parent(p: Seq<char>) -> Option<Seq<char>>;

/// The parent of a path.
///
/// Trusted: calls `Path::parent` and turns the result back into text; a part
/// of valid text is valid text, so the conversion is lossless. The result
/// depends on the path alone.
#[verifier::external_body]
pub(crate) fn parent(p: &str) -> (r: Option<String>)
    ensures
        match r {
            Some(d) => path_parent(p@) == Some(d@),
            None => path_parent(p@) is None,
        },
{
    std::path::Path::new(p).parent().map(|d| d.to_string_lossy().into_owned())
}

/// `name` joined onto the directory `dir`.
pub uninterp spec fn path_join(dir: Seq<char>, name: Seq<char>) -> Seq<char>;

/// Join a name onto a directory.
///
/// Trusted: calls `Path::join` and turns the result back into text, which is
/// lossless for valid text. The result depends on the two paths alone.
#[verifier::external_body]
pub(crate) fn join(dir: &str, name: &str) -> (r: String)
    ensures
        r@ == path_join(dir@, name@),
{
    std::path::Path::new(dir).join(name).to_string_lossy().into_owned()
}

/// Whether a file exists at the path right now.
///
/// Trusted: calls `Path::is_file`. What is on disk is outside the program,
/// so nothing is stated of the answer.
#[verifier::external_body]
pub(crate) fn is_file(p: &str) -> (r: bool) {
    std::path::Path::new(p).is_file()
}

/// The absolute path with every link resolved, when the file exists.
///
/// Trusted: calls `Path::canonicalize`, which asks the file system. What is on
/// disk is outside the program, so nothing is stated of the answer.
#[verifier::external_body]
pub(crate) fn canonical(p: &str) -> (r: Option<String>) {
    std::path::Path::new(p).canonicalize().ok().map(|c| c.to_string_lossy().into_owned())
}

/// The path relative to `base`, when `base` is a leading run of its
/// components (`Some("")` when the two are the same path).
pub uninterp spec fn path_strip_prefix(p: Seq<char>, base: Seq<char>) -> Option<Seq<char>>;

/// A path relative to a base directory.
///
/// Trusted: calls `Path::strip_prefix` and turns the rest back into text; a
/// part of valid text is valid text, so the conversion is lossless. The result
/// depends on the two paths alone.
#[verifier::external_body]
pub(crate) fn strip_prefix(p: &str, base: &str) -> (r: Option<String>)
    ensures
        match r {
            Some(rest) => path_strip_prefix(p@, base@) == Some(rest@),
            None => path_strip_prefix(p@, base@) is None,
        },
{
    std::path::Path::new(p).strip_prefix(base).ok().map(|rest| rest.to_string_lossy().into_owned())
}

/// Whether two paths name the same components, as std compares paths (so
/// `a//b` and `a/b` are equal).
pub uninterp spec fn path_eq(a: Seq<char>, b: Seq<char>) -> bool;

/// Compare two paths.
///
/// Trusted: calls `Path`'s `==`. The result depends on the two paths alone.
#[verifier::external_body]
pub(crate) fn same_path(a: &str, b: &str) -> (r: bool)
    ensures
        r == path_eq(a@, b@),
{
    std::path::Path::new(a) == std::path::Path::new(b)
}

} // verus!
