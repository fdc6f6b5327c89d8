//! The `std::path` operations the naming, library and trash logic relies on.
//!
//! What they return follows the path syntax of the platform the library is
//! built for (`\` separates components and `C:` is a prefix on Windows only),
//! but on that platform each is a function of its arguments, so each result
//! has a name here. Nothing about a name is assumed beyond what the wrapper
//! states; the verified code above them is exact over these names. Whether a
//! path exists on disk depends on the file system: callers that need to know
//! take the answer from the app as a probe (see `naming::resolve_output`).

use vstd::prelude::*;
use crate::media::opt_string;

verus! {

/// The final component of `path` (`Path::file_name`), if there is one.
pub uninterp spec fn file_name_of(path: Seq<char>) -> Option<Seq<char>>;

/// The file name without its final extension (`Path::file_stem`).
pub uninterp spec fn file_stem_of(path: Seq<char>) -> Option<Seq<char>>;

/// The text after the final `.` of the file name (`Path::extension`).
pub uninterp spec fn extension_of(path: Seq<char>) -> Option<Seq<char>>;

/// `path` without its final component (`Path::parent`).
pub uninterp spec fn parent_of(path: Seq<char>) -> Option<Seq<char>>;

/// `tail` adjoined to `base` (`Path::join`).
pub uninterp spec fn joined(base: Seq<char>, tail: Seq<char>) -> Seq<char>;

/// `path` with the extension of its file name removed
/// (`Path::with_extension("")`).
pub uninterp spec fn without_extension(path: Seq<char>) -> Seq<char>;

/// Whether two paths have the same components (`Path == Path`).
pub uninterp spec fn same_path(a: Seq<char>, b: Seq<char>) -> bool;

/// Whether `\` separates path components on this host, as it does on
/// Windows: there `a\b` and `a\\b` have the same components (repeated
/// separators are ignored), while where `\` is an ordinary file-name
/// character they are two different one-component paths.
pub open spec fn backslash_separates() -> bool {
    same_path(seq!['a', '\\', 'b'], seq!['a', '\\', '\\', 'b'])
}

/// `Path::new(path).file_name()`, as text. A component of a `&str` path is
/// valid UTF-8, so the conversion never drops a name.
#[verifier::external_body]
pub(crate) fn path_file_name(path: &str) -> (r: Option<String>)
    ensures
        opt_string(r) == file_name_of(path@),
{
    std::path::Path::new(path).file_name().and_then(|s| s.to_str()).map(|s| s.to_string())
}

/// `Path::new(path).file_stem()`, as text.
#[verifier::external_body]
pub(crate) fn path_file_stem(path: &str) -> (r: Option<String>)
    ensures
        opt_string(r) == file_stem_of(path@),
{
    std::path::Path::new(path).file_stem().and_then(|s| s.to_str()).map(|s| s.to_string())
}

/// `Path::new(path).extension()`, as text.
#[verifier::external_body]
pub(crate) fn path_extension(path: &str) -> (r: Option<String>)
    ensures
        opt_string(r) == extension_of(path@),
{
    std::path::Path::new(path).extension().and_then(|s| s.to_str()).map(|s| s.to_string())
}

/// `Path::new(path).parent()`, as text.
#[verifier::external_body]
pub(crate) fn path_parent(path: &str) -> (r: Option<String>)
    ensures
        opt_string(r) == parent_of(path@),
{
    std::path::Path::new(path).parent().and_then(|p| p.to_str()).map(|s| s.to_string())
}

/// `Path::new(base).join(tail)`, as text (the join of two UTF-8 paths is
/// UTF-8, so the lossy conversion is exact).
#[verifier::external_body]
pub(crate) fn path_join(base: &str, tail: &str) -> (r: String)
    ensures
        r@ == joined(base@, tail@),
{
    std::path::Path::new(base).join(tail).to_string_lossy().to_string()
}

/// `Path::new(path).with_extension("")`, as text.
#[verifier::external_body]
pub(crate) fn path_without_extension(path: &str) -> (r: String)
    ensures
        r@ == without_extension(path@),
{
    std::path::Path::new(path).with_extension("").to_string_lossy().to_string()
}

/// `Path::new(a) == Path::new(b)`: component-wise equality. `Path`
/// implements `Eq`, so a path equals itself.
#[verifier::external_body]
pub(crate) fn paths_equal(a: &str, b: &str) -> (r: bool)
    ensures
        r == same_path(a@, b@),
        a@ == b@ ==> r,
{
    std::path::Path::new(a) == std::path::Path::new(b)
}

} // verus!
