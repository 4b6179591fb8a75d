//! Checks on the two input paths: each must name an existing regular file
//! with the expected extension.
use vstd::prelude::*;
use crate::text::{chars_of, opt_str_view};

verus! {

/// What the file system holds at a path.
#[derive(Clone, Copy, Debug, PartialEq, Eq, Structural)]
pub enum PathKind {
    /// Nothing.
    Missing,
    /// Something other than a regular file, such as a directory.
    NotAFile,
    /// A regular file.
    File,
}

/// Why a path was refused.
#[derive(Clone, Copy, Debug, PartialEq, Eq, Structural)]
pub enum PathError {
    NotFound,
    NotAFile,
    WrongExtension,
}

/// The extension of the last component of `path`, as `std::path::Path`
/// reads it on the target platform, or `None` where it has none.
pub uninterp spec fn path_extension(path: Seq<char>) -> Option<Seq<char>>;

/// Relies on `std::path::Path::extension`: the text after the last `.` of
/// the path's final component, if there is one and the component does not
/// start with that `.`. The result depends on the path's text alone;
/// `OsStr::to_str` cannot fail on text that came from a `str`.
#[verifier::external_body]
fn extension_of(path: &str) -> (r: Option<String>)
    ensures
        match r {
            Some(e) => path_extension(path@) == Some(e@),
            None => path_extension(path@) is None,
        },
{
    std::path::Path::new(path).extension().and_then(|e| e.to_str()).map(String::from)
}

/// The verdict on a path, given what is there and its extension.
pub open spec fn path_verdict(kind: PathKind, found: Option<Seq<char>>, expected: Seq<char>) -> Result<
    (),
    PathError,
> {
    match kind {
        PathKind::Missing => Err(PathError::NotFound),
        PathKind::NotAFile => Err(PathError::NotAFile),
        PathKind::File => if found == Some(expected) {
            Ok(())
        } else {
            Err(PathError::WrongExtension)
        },
    }
}

fn str_eq(a: &str, b: &str) -> (r: bool)
    ensures
        r == (a@ == b@),
{
    let ac = chars_of(a);
    let bc = chars_of(b);
    if ac.len() != bc.len() {
        return false;
    }
    let mut i: usize = 0;
    while i < ac.len()
        invariant
            ac@ == a@,
            bc@ == b@,
            ac@.len() == bc@.len(),
            i <= ac@.len(),
            forall|k: int| 0 <= k < i ==> ac@[k] == bc@[k],
        decreases ac@.len() - i,
    {
        if ac[i] != bc[i] {
            return false;
        }
        i = i + 1;
    }
    assert(ac@ =~= bc@);
    true
}

/// Decides on a path from what is there and the extension it carries:
/// a missing path is `NotFound`, anything but a regular file `NotAFile`,
/// and a file whose extension differs from `expected` (compared exactly)
/// `WrongExtension`.
pub fn check_file_path(kind: PathKind, found: Option<&str>, expected: &str) -> (r: Result<
    (),
    PathError,
>)
    ensures
        r == path_verdict(kind, opt_str_view(found), expected@),
{
    match kind {
        PathKind::Missing => Err(PathError::NotFound),
        PathKind::NotAFile => Err(PathError::NotAFile),
        PathKind::File => match found {
            Some(e) => if str_eq(e, expected) {
                Ok(())
            } else {
                Err(PathError::WrongExtension)
            },
            None => Err(PathError::WrongExtension),
        },
    }
}

/// Checks that `path`, of which the caller has found what is there, is a
/// regular file ending in `.extension`.
pub fn validate_file_path(path: &str, extension: &str, kind: PathKind) -> (r: Result<
    (),
    PathError,
>)
    ensures
        r == path_verdict(kind, path_extension(path@), extension@),
{
    let found = extension_of(path);
    match found {
        Some(e) => check_file_path(kind, Some(e.as_str()), extension),
        None => check_file_path(kind, None, extension),
    }
}

} // verus!
