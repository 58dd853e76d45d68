//! Paths as text, by the rules of the platform that the crate is built for.
use std::path::Path;
use vstd::prelude::*;

verus! {

/// The path that `Path::join` makes of two.
pub uninterp spec fn joined_path(base: Seq<char>, rest: Seq<char>) -> Seq<char>;

/// Whether `Path::is_absolute` holds of a path.
pub uninterp spec fn absolute_path(path: Seq<char>) -> bool;

/// The path that `Path::parent` gives, if it gives one.
pub uninterp spec fn parent_path(path: Seq<char>) -> Option<Seq<char>>;

/// The last component that `Path::file_name` gives, if it gives one.
pub uninterp spec fn last_component(path: Seq<char>) -> Option<Seq<char>>;

/// Whether `==` holds of two paths, which are compared by their components.
pub uninterp spec fn equal_paths(left: Seq<char>, right: Seq<char>) -> bool;

/// `Path::join`, by its name `joined_path`. An absolute path replaces the one it
/// is joined to; how two others are put together is the platform's rule, and is
/// not stated.
#[verifier::external_body]
pub(crate) fn join_path(base: &str, rest: &str) -> (path: String)
    ensures
        path@ == joined_path(base@, rest@),
        absolute_path(rest@) ==> path@ == rest@,
{
    Path::new(base).join(rest).to_string_lossy().into_owned()
}

/// `Path::is_absolute`, by its name `absolute_path`. The rules are the
/// platform's; none of them is stated.
#[verifier::external_body]
pub(crate) fn is_absolute(path: &str) -> (yes: bool)
    ensures
        yes == absolute_path(path@),
{
    Path::new(path).is_absolute()
}

/// `Path::parent`, by its name `parent_path`. The rules are the platform's; none
/// of them is stated.
#[verifier::external_body]
pub(crate) fn parent(path: &str) -> (above: Option<String>)
    ensures
        above.deep_view() == parent_path(path@),
{
    Path::new(path).parent().map(|above| above.to_string_lossy().into_owned())
}

/// `Path::file_name`, by its name `last_component`. The rules are the
/// platform's; none of them is stated.
#[verifier::external_body]
pub(crate) fn file_name(path: &str) -> (name: Option<String>)
    ensures
        name.deep_view() == last_component(path@),
{
    Path::new(path).file_name().map(|name| name.to_string_lossy().into_owned())
}

/// `==` on two `Path`s, by its name `equal_paths`. A path equals itself; which
/// other spellings it equals is the platform's rule, and is not stated.
#[verifier::external_body]
pub(crate) fn same_path(left: &str, right: &str) -> (same: bool)
    ensures
        same == equal_paths(left@, right@),
        left@ == right@ ==> same,
{
    Path::new(left) == Path::new(right)
}

}
