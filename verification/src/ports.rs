//! The ports the use case drives: where a repository's file tree comes
//! from, where mandate files are kept, and how mandate text becomes a
//! [`Mandate`]. Each is a trait for adapters (and test fakes) to implement;
//! the library states nothing about what an implementation returns.

use std::path::Path;

use vstd::prelude::*;

use crate::file_tree::FileTreeSnapshot;
use crate::mandate::Mandate;
use crate::text::{concat2, concat3};

verus! {

/// Why a file tree could not be read.
#[derive(Debug, Clone, PartialEq, Eq)]
pub struct SourceError(pub String);

impl SourceError {
    /// The message.
    pub fn to_string(&self) -> (r: String)
        ensures
            r@ == self.0@,
    {
        self.0.clone()
    }
}

/// Obtains a [`FileTreeSnapshot`] of a repository root at a point in time.
/// Each operation is described by a relation the implementation defines:
/// which answers it may give for which arguments. The library states
/// nothing of these relations beyond that every answer is one of them, so
/// what a run reports can be tied to the answers its source gave.
pub trait FileTreeSource {
    /// `r` is an answer this source may give to snapshotting `root`.
    spec fn snaps(&self, root: &Path, r: Result<FileTreeSnapshot, SourceError>) -> bool;

    /// `r` is an answer this source may give to asking whether `dir` holds
    /// a directory named `name`.
    spec fn finds(&self, dir: &Path, name: &str, r: Result<bool, SourceError>) -> bool;

    /// Snapshots every entry under `root`. Entries are keyed by path
    /// relative to `root`, using forward slashes on every platform and
    /// never a leading `./`. Both directories and files are recorded, each
    /// with its kind. A symlink is recorded as a file and is never
    /// traversed. Nothing under `root` is skipped.
    fn snapshot(&self, root: &Path) -> (r: Result<FileTreeSnapshot, SourceError>)
        ensures
            self.snaps(root, r),
    ;

    /// Whether `dir` contains a directory entry named `name`, without
    /// building a full snapshot. Answers `Ok(false)` rather than an error
    /// when `dir` itself cannot be read: an unreadable ancestor is not a
    /// reason to stop looking further up, only a reason it cannot be the
    /// root.
    fn has_directory(&self, dir: &Path, name: &str) -> (r: Result<bool, SourceError>)
        ensures
            self.finds(dir, name, r),
    ;
}

/// Everything that can go wrong turning mandate text into a [`Mandate`].
#[derive(Debug, Clone, PartialEq, Eq)]
pub enum MandateParseError {
    /// The text is not a well-formed mandate document; carries the
    /// parser's message.
    Malformed(String),
    /// A rule is structurally wrong, e.g. a script rule without `run`.
    InvalidRule { id: String, reason: String },
}

/// How a parse error reads.
pub open spec fn parse_error_text(e: MandateParseError) -> Seq<char> {
    match e {
        MandateParseError::Malformed(message) => "malformed mandate: "@ + message@,
        MandateParseError::InvalidRule { id, reason } => "rule '"@ + id@ + "': "@ + reason@,
    }
}

impl MandateParseError {
    /// The error as a sentence.
    pub fn to_string(&self) -> (r: String)
        ensures
            r@ == parse_error_text(*self),
    {
        match self {
            MandateParseError::Malformed(message) => concat2("malformed mandate: ", message.as_str()),
            MandateParseError::InvalidRule { id, reason } => {
                let head = concat3("rule '", id.as_str(), "': ");
                concat2(head.as_str(), reason.as_str())
            },
        }
    }
}

/// Parses mandate text into a [`Mandate`]. Parsing is described by a
/// relation the implementation defines: which results it may give for
/// which text.
pub trait MandateParser {
    /// `r` is a result this parser may give for `text`.
    spec fn parses(&self, text: &str, r: Result<Mandate, MandateParseError>) -> bool;

    /// Parses `text` into a [`Mandate`]; on failure, a typed error saying
    /// what was wrong with it.
    fn parse(&self, text: &str) -> (r: Result<Mandate, MandateParseError>)
        ensures
            self.parses(text, r),
    ;
}

/// One mandate file: its bare name and its text.
#[derive(Debug, Clone, PartialEq, Eq)]
pub struct MandateFile {
    pub file_name: String,
    pub text: String,
}

/// Why the mandate files could not be listed or read.
#[derive(Debug, Clone, PartialEq, Eq)]
pub struct StoreError(pub String);

impl StoreError {
    /// The message.
    pub fn to_string(&self) -> (r: String)
        ensures
            r@ == self.0@,
    {
        self.0.clone()
    }
}

/// The folder a project keeps its mandates in, relative to the project root.
pub const MANDATE_DIR: &'static str = ".mandate";

/// The folder directly under [`MANDATE_DIR`] that holds mandate files.
pub const MANDATES_SUBDIR: &'static str = "mandates";

/// The folder a project keeps its mandate files in, relative to the
/// project root: [`MANDATE_DIR`], a slash, then [`MANDATES_SUBDIR`].
pub const MANDATES_DIR: &'static str = ".mandate/mandates";

/// Discovers and reads mandate files under a repository root. Each
/// operation is described by a relation the implementation defines: which
/// answers it may give for which arguments.
pub trait MandateStore {
    /// `r` is an answer this store may give to listing the mandates under
    /// `root`.
    spec fn lists_names(&self, root: &Path, r: Result<Vec<String>, StoreError>) -> bool;

    /// `r` is an answer this store may give to reading `file_name` under
    /// `root`.
    spec fn reads_file(&self, root: &Path, file_name: &str, r: Result<MandateFile, StoreError>) -> bool;

    /// File names (with extension) of the `.yaml` files directly in
    /// `<root>/.mandate/mandates/`, sorted.
    fn list(&self, root: &Path) -> (r: Result<Vec<String>, StoreError>)
        ensures
            self.lists_names(root, r),
    ;

    /// Reads one mandate file by name. `file_name` is a bare file name, as
    /// returned by `list`: an implementation must reject any value
    /// containing a path separator or `..` with a `StoreError`, rather than
    /// resolving it.
    fn read(&self, root: &Path, file_name: &str) -> (r: Result<MandateFile, StoreError>)
        ensures
            self.reads_file(root, file_name, r),
    ;
}

/// Asks whether a repository-relative path exists. The answers are
/// described by a relation the implementation defines.
pub trait FileTree {
    /// `r` is an answer this tree may give for `repo_relative_path`.
    spec fn has(&self, repo_relative_path: &str, r: bool) -> bool;

    /// Whether `repo_relative_path` is present, file or directory.
    fn path_exists(&self, repo_relative_path: &str) -> (r: bool)
        ensures
            self.has(repo_relative_path, r),
    ;
}

} // verus!
