//! The path operations of std that include resolution relies on. Each of
//! them is a trusted wrapper: its result is named, or described as far as
//! the documentation of `std::path` describes it.

use vstd::prelude::*;

verus! {

/// The parent directory of a path, as `std::path::Path::parent` gives it.
pub uninterp spec fn path_parent(p: Seq<char>) -> Option<Seq<char>>;

/// Whether a path is absolute, as `std::path::Path::is_absolute` tells it.
pub uninterp spec fn path_is_absolute(p: Seq<char>) -> bool;

/// `base` joined with `rest`, as `std::path::Path::join` gives it.
pub uninterp spec fn path_join(base: Seq<char>, rest: Seq<char>) -> Seq<char>;

/// The extension of a path, as `std::path::Path::extension` gives it.
pub uninterp spec fn path_extension(p: Seq<char>) -> Option<Seq<char>>;

/// Why a path could not be canonicalized.
#[derive(Debug)]
pub enum CanonFailure {
    /// Nothing exists at the path.
    NotFound,
    /// Any other I/O error, by its message.
    Other(String),
}

pub open spec fn opt_text(o: Option<String>) -> Option<Seq<char>> {
    match o {
        Some(s) => Some(s@),
        None => None,
    }
}

/// `std::path::Path::parent`. Its documentation says that the empty path has
/// no parent; the rest of the result is named by `path_parent`.
#[verifier::external_body]
pub(crate) fn parent_of(p: &str) -> (r: Option<String>)
    ensures
        opt_text(r) == path_parent(p@),
        p@.len() == 0 ==> r is None,
{
    match std::path::Path::new(p).parent() {
        Some(q) => Some(q.to_string_lossy().into_owned()),
        None => None,
    }
}

/// `std::path::Path::is_absolute`, named by `path_is_absolute`.
#[verifier::external_body]
pub(crate) fn is_absolute(p: &str) -> (r: bool)
    ensures
        r == path_is_absolute(p@),
{
    std::path::Path::new(p).is_absolute()
}

/// `std::path::Path::join`, named by `path_join`. Its documentation says that
/// joining an absolute path replaces the base.
#[verifier::external_body]
pub(crate) fn join(base: &str, rest: &str) -> (r: String)
    ensures
        r@ == path_join(base@, rest@),
        path_is_absolute(rest@) ==> r@ == rest@,
{
    std::path::Path::new(base).join(rest).to_string_lossy().into_owned()
}

/// `std::path::Path::extension`, named by `path_extension`.
#[verifier::external_body]
pub(crate) fn extension_of(p: &str) -> (r: Option<String>)
    ensures
        opt_text(r) == path_extension(p@),
{
    match std::path::Path::new(p).extension() {
        Some(e) => Some(e.to_string_lossy().into_owned()),
        None => None,
    }
}

/// `std::path::Path::canonicalize`: what it returns depends on the file
/// system at the time of the call; its documentation says only that a
/// result is the canonical, absolute form of the path. An error of kind
/// `NotFound` becomes `CanonFailure::NotFound`, any other error its message.
/// A result that is not valid UTF-8 is converted lossily.
#[verifier::external_body]
pub(crate) fn canonicalize(p: &str) -> (r: Result<String, CanonFailure>)
    ensures
        r matches Ok(c) ==> path_is_absolute(c@),
{
    match std::path::Path::new(p).canonicalize() {
        Ok(c) => Ok(c.to_string_lossy().into_owned()),
        Err(e) => if e.kind() == std::io::ErrorKind::NotFound {
            Err(CanonFailure::NotFound)
        } else {
            Err(CanonFailure::Other(e.to_string()))
        },
    }
}

} // verus!
