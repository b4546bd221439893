//! Filesystem paths as the library sees them: opaque values handed to and
//! from the ports, with the few operations on them the library needs.

use std::path::{Path, PathBuf};

use vstd::prelude::*;

verus! {

#[verifier::external_type_specification]
#[verifier::external_body]
pub struct ExPath(Path);

#[verifier::external_type_specification]
#[verifier::external_body]
pub struct ExPathBuf(PathBuf);

/// The length in bytes of a path's operating-system string.
pub uninterp spec fn path_len(p: &Path) -> nat;

/// The path's text, with any sequence that is not valid Unicode replaced.
pub uninterp spec fn lossy_text(p: &Path) -> Seq<char>;

/// The path `Path::parent` gives for `p`.
pub uninterp spec fn parent_path(p: &Path) -> Option<&Path>;

/// `Path::parent`: the path without its final component, or `None` when the
/// path ends in a root or prefix or is empty. The parent is a prefix of the
/// path that leaves out a non-empty final component, so it is shorter.
#[verifier::external_body]
pub(crate) fn parent_of(p: &Path) -> (r: Option<&Path>)
    ensures
        r == parent_path(p),
        r matches Some(q) ==> path_len(q) < path_len(p),
{
    p.parent()
}

/// `Path::to_string_lossy`, as an owned string.
#[verifier::external_body]
pub(crate) fn path_text(p: &Path) -> (r: String)
    ensures
        r@ == lossy_text(p),
{
    p.to_string_lossy().into_owned()
}

/// The path `PathBuf::from` makes of a text.
pub uninterp spec fn path_of(text: Seq<char>) -> PathBuf;

/// `PathBuf::from`: the path whose text is `text`.
#[verifier::external_body]
pub(crate) fn path_from_text(text: &str) -> (r: PathBuf)
    ensures
        r == path_of(text@),
{
    PathBuf::from(text)
}

/// The path `Path::join` makes of `base` and `tail`.
pub uninterp spec fn joined_path(base: &Path, tail: Seq<char>) -> PathBuf;

/// `Path::join`: `tail` appended to `base` (or `tail` alone, when it is
/// absolute).
#[verifier::external_body]
pub(crate) fn path_join(base: &Path, tail: &str) -> (r: PathBuf)
    ensures
        r == joined_path(base, tail@),
{
    base.join(tail)
}

/// `PathBuf::as_path`: the borrowed path a `PathBuf` holds; copied back out
/// with `Path::to_path_buf`, it is that `PathBuf` again.
#[verifier::external_body]
pub(crate) fn as_path(p: &PathBuf) -> (r: &Path)
    ensures
        owned_path(r) == *p,
{
    p.as_path()
}

/// What `Path::strip_prefix` leaves of `path` after `base`, or `None` when
/// `base` is not a prefix of it.
pub uninterp spec fn stripped_path(path: &Path, base: &Path) -> Option<PathBuf>;

/// `Path::strip_prefix`, with its error mapped to `None`.
#[verifier::external_body]
pub(crate) fn strip_prefix(path: &Path, base: &Path) -> (r: Option<PathBuf>)
    ensures
        r == stripped_path(path, base),
{
    match path.strip_prefix(base) {
        Ok(rest) => Some(rest.to_path_buf()),
        Err(_) => None,
    }
}

/// The path `Path::to_path_buf` copies out of `p`.
pub uninterp spec fn owned_path(p: &Path) -> PathBuf;

/// `Path::to_path_buf`: an owned copy of `p`.
#[verifier::external_body]
pub(crate) fn to_path_buf(p: &Path) -> (r: PathBuf)
    ensures
        r == owned_path(p),
{
    p.to_path_buf()
}

/// The text of each component `Path::components` yields for `p`.
pub uninterp spec fn component_texts(p: PathBuf) -> Seq<Seq<char>>;

/// `Path::components`, each component's text taken with any sequence that
/// is not valid Unicode replaced.
#[verifier::external_body]
pub(crate) fn components(p: &PathBuf) -> (r: Vec<String>)
    ensures
        r@.map_values(|c: String| c@) == component_texts(*p),
{
    p.components().map(|c| c.as_os_str().to_string_lossy().into_owned()).collect()
}

/// The extension `Path::extension` finds in a file name, as text.
pub uninterp spec fn extension_text(name: Seq<char>) -> Option<Seq<char>>;

/// The text after the last `.` of `name`, when that `.` is not its first
/// character.
pub open spec fn after_last_dot(name: Seq<char>) -> Option<Seq<char>>
    decreases name.len(),
{
    if name.len() == 0 {
        None
    } else if name.last() == '.' {
        if name.len() == 1 {
            None
        } else {
            Some(Seq::<char>::empty())
        }
    } else {
        match after_last_dot(name.drop_last()) {
            Some(e) => Some(e.push(name.last())),
            None => None,
        }
    }
}

/// `name` is one plain path component on every platform: no separator, no
/// drive prefix, and not the parent directory.
pub open spec fn plain_component(name: Seq<char>) -> bool {
    &&& forall|i: int| 0 <= i < name.len() ==> #[trigger] name[i] != '/' && name[i] != '\\' && name[i] != ':'
    &&& name != ".."@
}

/// `Path::extension` of the path named by `name`: the text after the last
/// `.` of its final component, when that component has a `.` that is not
/// its first character. For a plain component, that is stated.
#[verifier::external_body]
pub(crate) fn extension(name: &str) -> (r: Option<String>)
    ensures
        match r {
            Some(e) => extension_text(name@) == Some(e@),
            None => extension_text(name@) is None,
        },
        plain_component(name@) ==> match r {
            Some(e) => after_last_dot(name@) == Some(e@),
            None => after_last_dot(name@) is None,
        },
{
    Path::new(name).extension().map(|e| e.to_string_lossy().into_owned())
}

} // verus!
