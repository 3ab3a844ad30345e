//! File-system path operations of `std::path`, for paths held as strings.
//!
//! Which text `Path::join` or `Path::parent` produce, and when two paths are
//! equal, follow the platform's path rules; the results are named here and the
//! rest of the library reasons about them through these names.
use vstd::prelude::*;

verus! {

/// The path `Path::new(base).join(rel)` gives, as text.
pub uninterp spec fn path_join_spec(base: Seq<char>, rel: Seq<char>) -> Seq<char>;

/// Whether `Path::new(a) == Path::new(b)` (equal component by component).
pub uninterp spec fn path_eq_spec(a: Seq<char>, b: Seq<char>) -> bool;

/// `Path::join`: the result is named `path_join_spec` of the arguments.
#[verifier::external_body]
pub(crate) fn path_join(base: &str, rel: &str) -> (res: String)
    ensures
        res@ == path_join_spec(base@, rel@),
{
    std::path::Path::new(base).join(rel).to_string_lossy().into_owned()
}

/// Path equality (`PartialEq` for `Path`), named `path_eq_spec`.
#[verifier::external_body]
pub(crate) fn paths_equal(a: &str, b: &str) -> (res: bool)
    ensures
        res == path_eq_spec(a@, b@),
{
    std::path::Path::new(a) == std::path::Path::new(b)
}

/// `Path::exists`: whether something is at `p` right now. The answer depends
/// on the disk, so nothing is stated of it.
#[verifier::external_body]
pub(crate) fn path_exists(p: &str) -> (res: bool) {
    std::path::Path::new(p).exists()
}


/// Whether `Path::new(p).is_absolute()`.
pub uninterp spec fn path_is_absolute_spec(p: Seq<char>) -> bool;

/// `Path::new(p).file_name()` as text.
pub uninterp spec fn path_file_name_spec(p: Seq<char>) -> Option<Seq<char>>;

/// `Path::new(p).file_stem()` as text.
pub uninterp spec fn path_file_stem_spec(p: Seq<char>) -> Option<Seq<char>>;

/// `Path::new(p).extension()` as text.
pub uninterp spec fn path_extension_spec(p: Seq<char>) -> Option<Seq<char>>;

/// `Path::new(p).parent()` as text.
pub uninterp spec fn path_parent_spec(p: Seq<char>) -> Option<Seq<char>>;

/// `Path::new(p).with_extension(ext)` as text.
pub uninterp spec fn path_with_extension_spec(p: Seq<char>, ext: Seq<char>) -> Seq<char>;

/// `Path::is_absolute`, named `path_is_absolute_spec`.
#[verifier::external_body]
pub(crate) fn path_is_absolute(p: &str) -> (res: bool)
    ensures
        res == path_is_absolute_spec(p@),
{
    std::path::Path::new(p).is_absolute()
}

/// `Path::file_name`, named `path_file_name_spec`.
#[verifier::external_body]
pub(crate) fn path_file_name(p: &str) -> (res: Option<String>)
    ensures
        match res {
            Some(n) => path_file_name_spec(p@) == Some(n@),
            None => path_file_name_spec(p@) is None,
        },
{
    std::path::Path::new(p).file_name().map(|n| n.to_string_lossy().into_owned())
}

/// `Path::file_stem`, named `path_file_stem_spec`.
#[verifier::external_body]
pub(crate) fn path_file_stem(p: &str) -> (res: Option<String>)
    ensures
        match res {
            Some(n) => path_file_stem_spec(p@) == Some(n@),
            None => path_file_stem_spec(p@) is None,
        },
{
    std::path::Path::new(p).file_stem().map(|n| n.to_string_lossy().into_owned())
}

/// `Path::extension`, named `path_extension_spec`.
#[verifier::external_body]
pub(crate) fn path_extension(p: &str) -> (res: Option<String>)
    ensures
        match res {
            Some(n) => path_extension_spec(p@) == Some(n@),
            None => path_extension_spec(p@) is None,
        },
{
    std::path::Path::new(p).extension().map(|n| n.to_string_lossy().into_owned())
}

/// `Path::parent`, named `path_parent_spec`.
#[verifier::external_body]
pub(crate) fn path_parent(p: &str) -> (res: Option<String>)
    ensures
        match res {
            Some(n) => path_parent_spec(p@) == Some(n@),
            None => path_parent_spec(p@) is None,
        },
{
    std::path::Path::new(p).parent().map(|n| n.to_string_lossy().into_owned())
}

/// `Path::with_extension`, named `path_with_extension_spec`. It panics
/// when the extension holds a path separator, so `ext` may hold neither
/// `/` nor `\`.
#[verifier::external_body]
pub(crate) fn path_with_extension(p: &str, ext: &str) -> (res: String)
    requires
        !ext@.contains('/'),
        !ext@.contains('\\'),
    ensures
        res@ == path_with_extension_spec(p@, ext@),
{
    std::path::Path::new(p).with_extension(ext).to_string_lossy().into_owned()
}

} // verus!
