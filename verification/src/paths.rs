//! Filesystem paths carried through the library. A path is opaque here: the
//! library never reads it, it hands it back to the caller that does the I/O.

use vstd::prelude::*;
use std::path::PathBuf;

verus! {

#[verifier::external_type_specification]
#[verifier::external_body]
pub struct ExPathBuf(PathBuf);

/// `std`'s `Clone` for `PathBuf`: the copy is the same path.
pub assume_specification[ <PathBuf as Clone>::clone ](p: &PathBuf) -> (r: PathBuf)
    ensures
        r == *p,
;

/// The path that `std`'s `Path::join` makes of `dir` and `name`.
pub uninterp spec fn joined(dir: PathBuf, name: Seq<char>) -> PathBuf;

/// `std`'s `Path::join` of `dir` and the single component `name`: the
/// result is named, nothing more is stated of it.
#[verifier::external_body]
pub(crate) fn join_name(dir: &PathBuf, name: &str) -> (r: PathBuf)
    ensures
        r == joined(*dir, name@),
{
    dir.join(name)
}

/// Whether `std`'s `==` on paths holds between `a` and `b`.
pub uninterp spec fn same_path(a: PathBuf, b: PathBuf) -> bool;

/// `std`'s `==` on `PathBuf` (component-wise comparison). Its result is
/// named; `==` is reflexive, so a path equals itself.
#[verifier::external_body]
pub(crate) fn paths_equal(a: &PathBuf, b: &PathBuf) -> (r: bool)
    ensures
        r == same_path(*a, *b),
        *a == *b ==> r,
{
    a == b
}

/// How `std`'s `Path::display` renders `p` (lossily, for showing).
pub uninterp spec fn shown(p: PathBuf) -> Seq<char>;

/// `std`'s `Path::display`, rendered to a string: the rendering is named,
/// nothing more is stated of it.
#[verifier::external_body]
pub(crate) fn display_path(p: &PathBuf) -> (r: String)
    ensures
        r@ == shown(*p),
{
    p.display().to_string()
}

} // verus!
