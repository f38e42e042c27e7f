use vstd::prelude::*;

verus! {

/// Whether two path strings name the same path under the platform's path rules
/// (`std::path::Path`'s `==`, which compares path components).
pub uninterp spec fn path_eq(a: Seq<char>, b: Seq<char>) -> bool;

/// The last component of a path string, where it is a normal file name
/// (`std::path::Path::file_name`).
pub uninterp spec fn path_file_name(p: Seq<char>) -> Option<Seq<char>>;

/// The extension of a path string's file name (`std::path::Path::extension`).
pub uninterp spec fn path_extension(p: Seq<char>) -> Option<Seq<char>>;

/// The file name of a path string without its extension (`std::path::Path::file_stem`).
pub uninterp spec fn path_file_stem(p: Seq<char>) -> Option<Seq<char>>;

/// The path string of `base` with `rel` appended (`std::path::Path::join`).
pub uninterp spec fn path_join(base: Seq<char>, rel: Seq<char>) -> Seq<char>;

/// `std::path::Path::join`, read back as a string: the contract names the result
/// `path_join`.
#[verifier::external_body]
pub(crate) fn join_path(base: &str, rel: &str) -> (r: String)
    ensures
        r@ == path_join(base@, rel@),
{
    std::path::Path::new(base).join(rel).to_string_lossy().to_string()
}

/// `std::path::MAIN_SEPARATOR`, the platform's separator of path components. The
/// contract claims only what its documentation names: `/` (Unix) or `\` (Windows).
#[verifier::external_body]
pub(crate) fn main_separator() -> (c: char)
    ensures
        c == '/' || c == '\\',
{
    std::path::MAIN_SEPARATOR
}

/// `==` on `std::path::Path`: the contract names the result `path_eq`, and claims
/// that equal strings are equal paths (`Path` is `Eq`, hence reflexive).
#[verifier::external_body]
pub(crate) fn paths_equal(a: &str, b: &str) -> (r: bool)
    ensures
        r == path_eq(a@, b@),
        a@ == b@ ==> r,
{
    std::path::Path::new(a) == std::path::Path::new(b)
}

/// `std::path::Path::file_name`, read back as a string: the contract names the
/// result `path_file_name`.
#[verifier::external_body]
pub(crate) fn file_name_of(p: &str) -> (r: Option<String>)
    ensures
        r.deep_view() == path_file_name(p@),
{
    std::path::Path::new(p).file_name().map(|n| n.to_string_lossy().to_string())
}

/// `std::path::Path::extension`, read back as a string: the contract names the
/// result `path_extension`.
#[verifier::external_body]
pub(crate) fn extension_of(p: &str) -> (r: Option<String>)
    ensures
        r.deep_view() == path_extension(p@),
{
    std::path::Path::new(p).extension().map(|n| n.to_string_lossy().to_string())
}

/// `std::path::Path::file_stem`, read back as a string: the contract names the
/// result `path_file_stem`.
#[verifier::external_body]
pub(crate) fn file_stem_of(p: &str) -> (r: Option<String>)
    ensures
        r.deep_view() == path_file_stem(p@),
{
    std::path::Path::new(p).file_stem().map(|n| n.to_string_lossy().to_string())
}

} // verus!
