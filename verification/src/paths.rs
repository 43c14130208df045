//! Paths as text, cut and joined by the rules that `std::path` has for the platform the crate is
//! built for.

use vstd::prelude::*;

verus! {

/// The final component of a path, as `std::path::Path::file_name` finds it.
pub uninterp spec fn path_file_name(path: Seq<char>) -> Option<Seq<char>>;

/// The final component of `path`, from `std::path::Path::file_name`; there is none for a root, an
/// empty path or one that ends in `..`.
///
/// The result depends on the path alone; how a path is cut into components is left to the name
/// `path_file_name`.
#[verifier::external_body]
pub(crate) fn file_name(path: &str) -> (out: Option<String>)
    ensures
        out matches Some(name) ==> path_file_name(path@) == Some(name@),
        out is None ==> path_file_name(path@) is None,
{
    std::path::Path::new(path).file_name().and_then(|n| n.to_str()).map(|n| n.to_owned())
}

/// A path with its final component replaced, as `std::path::Path::with_file_name` makes it.
pub uninterp spec fn path_with_file_name(path: Seq<char>, name: Seq<char>) -> Seq<char>;

/// `path` with its final component replaced by `name`, from
/// `std::path::Path::with_file_name`.
///
/// The result depends on the two texts alone; how a path is cut into components is left to the
/// name `path_with_file_name`.
#[verifier::external_body]
pub(crate) fn with_file_name(path: &str, name: &str) -> (out: String)
    ensures
        out@ == path_with_file_name(path@, name@),
{
    std::path::Path::new(path).with_file_name(name).to_string_lossy().into_owned()
}

/// A path with its extension replaced, as `std::path::Path::with_extension` makes it.
pub uninterp spec fn path_with_extension(path: Seq<char>, extension: Seq<char>) -> Seq<char>;

/// Whether a text holds no character that separates the components of a path on any platform.
pub open spec fn no_separator(text: Seq<char>) -> bool {
    !text.contains('/') && !text.contains('\\')
}

/// `path` with the extension of its final component replaced by `extension`, from
/// `std::path::Path::with_extension`, which panics on an extension with a separator in it.
///
/// The result depends on the two texts alone; how a path is cut into components, and a component
/// into its stem and its extension, is left to the name `path_with_extension`.
#[verifier::external_body]
pub(crate) fn with_extension(path: &str, extension: &str) -> (out: String)
    requires
        no_separator(extension@),
    ensures
        out@ == path_with_extension(path@, extension@),
{
    std::path::Path::new(path).with_extension(extension).to_string_lossy().into_owned()
}

} // verus!
