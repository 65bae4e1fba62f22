//! Filesystem paths, held as UTF-8 strings. Joining and telling absolute
//! paths follow `std::path` on Unix; taking the parent and probing for
//! existence go through `std::path`, each such call one small trusted item.
use std::path::Path;
use vstd::prelude::*;

verus! {

/// `base` joined with `part` as `Path::join` does on Unix: an absolute `part`
/// replaces `base`; otherwise `part` is appended, after a `/` unless `base`
/// is empty or already ends with one.
pub open spec fn joined_path(base: Seq<char>, part: Seq<char>) -> Seq<char> {
    if is_absolute_path(part) {
        part
    } else if base.len() == 0 || base.last() == '/' {
        base + part
    } else {
        base + seq!['/'] + part
    }
}

/// What `Path::parent` yields for `path`.
pub uninterp spec fn parent_of_path(path: Seq<char>) -> Option<Seq<char>>;

/// A Unix path is absolute when it starts at the root `/`.
pub open spec fn is_absolute_path(path: Seq<char>) -> bool {
    path.len() > 0 && path[0] == '/'
}

/// The views of an optional string.
pub open spec fn opt_view(s: Option<String>) -> Option<Seq<char>> {
    match s {
        Some(v) => Some(v@),
        None => None,
    }
}

/// `base` joined with `part`.
pub fn join_path(base: &str, part: &str) -> (joined: String)
    ensures
        joined@ == joined_path(base@, part@),
{
    if path_is_absolute(part) {
        return String::from_str(part);
    }
    let mut joined = String::from_str(base);
    let n = base.unicode_len();
    if n > 0 && base.get_char(n - 1) != '/' {
        joined.append("/");
        proof {
            reveal_strlit("/");
        }
    }
    joined.append(part);
    joined
}

/// Calls `Path::parent`. Claimed: the result is `parent_of_path` of the
/// argument, and the empty path has no parent, as its documentation says.
#[verifier::external_body]
pub(crate) fn parent_path(path: &str) -> (parent: Option<String>)
    ensures
        opt_view(parent) == parent_of_path(path@),
        path@.len() == 0 ==> parent is None,
{
    Path::new(path).parent().map(|p| p.to_string_lossy().into_owned())
}

/// Whether `path` is absolute (on Unix, the only target of this crate, when
/// it starts with `/`).
pub fn path_is_absolute(path: &str) -> (absolute: bool)
    ensures
        absolute == is_absolute_path(path@),
{
    path.unicode_len() > 0 && path.get_char(0) == '/'
}

/// Calls `Path::exists`. Nothing is claimed of the result: it depends on
/// what is on disk at the moment of the call.
#[verifier::external_body]
pub(crate) fn path_exists(path: &str) -> (found: bool) {
    Path::new(path).exists()
}

} // verus!
