//! Paths as text: the staged layout is built by joining names with `/`, and
//! the parts of a path are those of `std::path::Path`.
use vstd::prelude::*;
use vstd::string::StringExecFns;

verus! {

/// The file stem of `path`, as `std::path::Path::file_stem` gives it.
pub uninterp spec fn path_file_stem(path: Seq<char>) -> Option<Seq<char>>;

/// The last component of `path`, as `std::path::Path::file_name` gives it.
pub uninterp spec fn path_file_name(path: Seq<char>) -> Option<Seq<char>>;

/// The extension of `path`, as `std::path::Path::extension` gives it.
pub uninterp spec fn path_extension(path: Seq<char>) -> Option<Seq<char>>;

/// The character sequence of an optional string.
pub open spec fn some_text(s: Option<String>) -> Option<Seq<char>> {
    match s {
        Some(s) => Some(s@),
        None => None,
    }
}

/// Calls `std::path::Path::file_stem`. Trusted: the stem depends on the
/// path's characters alone.
#[verifier::external_body]
pub(crate) fn stem_of(path: &str) -> (r: Option<String>)
    ensures
        some_text(r) == path_file_stem(path@),
{
    std::path::Path::new(path).file_stem().map(|s| s.to_string_lossy().into_owned())
}

/// Calls `std::path::Path::file_name`. Trusted: the name depends on the
/// path's characters alone.
#[verifier::external_body]
pub(crate) fn name_of(path: &str) -> (r: Option<String>)
    ensures
        some_text(r) == path_file_name(path@),
{
    std::path::Path::new(path).file_name().map(|s| s.to_string_lossy().into_owned())
}

/// Calls `std::path::Path::extension`. Trusted: the extension depends on
/// the path's characters alone.
#[verifier::external_body]
pub(crate) fn extension_of(path: &str) -> (r: Option<String>)
    ensures
        some_text(r) == path_extension(path@),
{
    std::path::Path::new(path).extension().map(|s| s.to_string_lossy().into_owned())
}

/// `directory` and `name` with a `/` between.
pub open spec fn joined(directory: Seq<char>, name: Seq<char>) -> Seq<char> {
    directory + seq!['/'] + name
}

/// The path of `name` below `directory`.
pub fn join(directory: &str, name: &str) -> (r: String)
    ensures
        r@ == joined(directory@, name@),
{
    let mut r = String::from_str(directory);
    r.push('/');
    r.append(name);
    assert(directory@.push('/') =~= directory@ + seq!['/']);
    r
}

} // verus!
