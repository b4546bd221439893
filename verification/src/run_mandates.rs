//! [`RunMandates`]: the use case that discovers a repository's `.mandate`
//! folder by walking up from a starting directory, then parses and
//! validates every selected mandate against one shared snapshot of the
//! repository.

use std::path::Path;

use vstd::prelude::*;

use crate::file_tree::{EntryKind, FileTreeSnapshot};
use crate::fs_path::{lossy_text, parent_of, parent_path, path_len, path_text};
use crate::mandate::Mandate;
use crate::ports::{
    FileTreeSource, MandateFile, MandateParseError, MandateParser, MandateStore, SourceError,
    StoreError,
};
use vstd::std_specs::convert::FromSpecImpl;
use crate::run_report::{MandateOutcome, MandateResult, RunLocation, RunReportMandatesValidation, RunWarning};
use crate::text::{
    concat2, concat3, forward_slashes, join_texts, joined, texts, trim_slashes_then, trim_trailing_slashes,
    with_forward_slashes,
};
use crate::validation::{validate, validation_errors, validation_warnings, ValidationReport};

verus! {

/// Why a run could not produce a report.
#[derive(Debug, Clone, PartialEq, Eq)]
pub enum RunError {
    /// A name in `selected` is not among the mandate files the store lists
    /// for the discovered root. `available` is that full list.
    UnknownMandate { name: String, available: Vec<String> },
    Source(String),
    Store(String),
}

/// How a run error reads.
pub open spec fn run_error_text(e: RunError) -> Seq<char> {
    match e {
        RunError::UnknownMandate { name, available } => "unknown mandate '"@ + name@
            + "'; available mandates are: "@ + joined(texts(available@), ", "@),
        RunError::Source(message) => message@,
        RunError::Store(message) => message@,
    }
}

impl RunError {
    /// The error as a sentence.
    pub fn to_string(&self) -> (r: String)
        ensures
            r@ == run_error_text(*self),
    {
        match self {
            RunError::UnknownMandate { name, available } => {
                let list = join_texts(available, ", ");
                let head = concat3("unknown mandate '", name.as_str(), "'; available mandates are: ");
                concat2(head.as_str(), list.as_str())
            },
            RunError::Source(message) => message.clone(),
            RunError::Store(message) => message.clone(),
        }
    }
}

/// A file tree that could not be read ends the run with its message.
impl From<SourceError> for RunError {
    fn from(e: SourceError) -> (r: Self) {
        RunError::Source(e.0)
    }
}

impl FromSpecImpl<SourceError> for RunError {
    open spec fn obeys_from_spec() -> bool {
        true
    }

    open spec fn from_spec(v: SourceError) -> RunError {
        RunError::Source(v.0)
    }
}

/// Mandate files that could not be listed or read end the run with the
/// store's message.
impl From<StoreError> for RunError {
    fn from(e: StoreError) -> (r: Self) {
        RunError::Store(e.0)
    }
}

impl FromSpecImpl<StoreError> for RunError {
    open spec fn obeys_from_spec() -> bool {
        true
    }

    open spec fn from_spec(v: StoreError) -> RunError {
        RunError::Store(v.0)
    }
}

/// How a path reads in a report: its text with forward slashes, whatever
/// the platform.
pub open spec fn path_display(p: &Path) -> Seq<char> {
    forward_slashes(lossy_text(p))
}

/// Renders `path` with forward slashes regardless of platform, so a report
/// built on Windows reads the same as one built anywhere else.
pub fn path_str(path: &Path) -> (r: String)
    ensures
        r@ == path_display(path),
{
    let text = path_text(path);
    with_forward_slashes(text.as_str())
}

/// Where a root keeps its mandate files, as a report names it. The root's
/// trailing slashes are dropped first, so a drive root such as `/` or `C:/`
/// never yields a doubled slash.
pub open spec fn mandates_dir_text(root: Seq<char>) -> Seq<char> {
    trim_trailing_slashes(root) + "/.mandate/mandates"@
}

/// The warning for a discovered root whose mandates folder is empty.
pub fn no_mandates_warning(root_str: &str) -> (r: RunWarning)
    ensures
        r matches RunWarning::NoMandatesFound { mandates_dir } && mandates_dir@ == mandates_dir_text(
            root_str@,
        ),
{
    RunWarning::NoMandatesFound { mandates_dir: trim_slashes_then(root_str, "/.mandate/mandates") }
}

/// The names of `available`, in order, whose text is among `chosen`.
pub open spec fn names_chosen(available: Seq<String>, chosen: Seq<Seq<char>>) -> Seq<String>
    decreases available.len(),
{
    if available.len() == 0 {
        Seq::<String>::empty()
    } else {
        names_chosen(available.drop_last(), chosen) + if chosen.contains(available.last()@) {
            seq![available.last()]
        } else {
            Seq::<String>::empty()
        }
    }
}

/// Whether `name` is among `names`.
fn contains_name(names: &[String], name: &String) -> (r: bool)
    ensures
        r == texts(names@).contains(name@),
{
    let ghost all = texts(names@);
    let mut i: usize = 0;
    while i < names.len()
        invariant
            all == texts(names@),
            i <= names@.len(),
            forall|j: int| 0 <= j < i ==> all[j] != name@,
        decreases names.len() - i,
    {
        if names[i] == *name {
            assert(all[i as int] == name@);
            return true;
        }
        i = i + 1;
    }
    false
}

/// A copy of `names`.
fn copy_names(names: &[String]) -> (r: Vec<String>)
    ensures
        r@ == names@,
{
    let mut r: Vec<String> = Vec::new();
    let mut i: usize = 0;
    while i < names.len()
        invariant
            i <= names@.len(),
            r@ == names@.take(i as int),
        decreases names.len() - i,
    {
        r.push(names[i].clone());
        assert(names@.take(i + 1) =~= names@.take(i as int).push(names@[i as int]));
        i = i + 1;
    }
    assert(names@.take(names@.len() as int) =~= names@);
    r
}

/// Picks which mandate names to run: every name in `available` when
/// `selected` is empty, otherwise the names of `available` that `selected`
/// lists, in `available`'s order, after checking that every selected name
/// appears in `available`; the first one that does not is the error.
pub fn select(available: &[String], selected: &[String]) -> (r: Result<Vec<String>, RunError>)
    ensures
        match r {
            Ok(names) => (forall|j: int|
                0 <= j < selected@.len() ==> texts(available@).contains((#[trigger] selected@[j])@))
                && names@ == if selected@.len() == 0 {
                available@
            } else {
                names_chosen(available@, texts(selected@))
            },
            Err(RunError::UnknownMandate { name, available: listed }) => exists|k: int|
                0 <= k < selected@.len() && #[trigger] selected@[k] == name && !texts(
                    available@,
                ).contains(name@) && (forall|j: int|
                    0 <= j < k ==> texts(available@).contains((#[trigger] selected@[j])@))
                && listed@ == available@,
            Err(_) => false,
        },
{
    if selected.len() == 0 {
        return Ok(copy_names(available));
    }
    let mut k: usize = 0;
    while k < selected.len()
        invariant
            k <= selected@.len(),
            forall|j: int| 0 <= j < k ==> texts(available@).contains((#[trigger] selected@[j])@),
        decreases selected.len() - k,
    {
        if !contains_name(available, &selected[k]) {
            return Err(
                RunError::UnknownMandate { name: selected[k].clone(), available: copy_names(available) },
            );
        }
        k = k + 1;
    }
    let ghost chosen = texts(selected@);
    let mut names: Vec<String> = Vec::new();
    let mut i: usize = 0;
    while i < available.len()
        invariant
            chosen == texts(selected@),
            i <= available@.len(),
            names@ == names_chosen(available@.take(i as int), chosen),
        decreases available.len() - i,
    {
        assert(available@.take(i + 1).drop_last() =~= available@.take(i as int));
        assert(available@.take(i + 1).last() == available@[i as int]);
        if contains_name(selected, &available[i]) {
            names.push(available[i].clone());
        }
        i = i + 1;
    }
    assert(available@.take(available@.len() as int) =~= available@);
    Ok(names)
}

/// What becomes of one mandate file once its text has been parsed: the
/// parse error, or the report of validating the mandate against `snapshot`.
pub fn outcome_of(
    file_name: String,
    parsed: Result<Mandate, MandateParseError>,
    snapshot: &FileTreeSnapshot,
) -> (r: MandateOutcome)
    ensures
        r.file_name == file_name,
        match parsed {
            Err(e) => r.result == MandateResult::ParseFailed(e),
            Ok(m) => r.result matches MandateResult::Validated(report) && report.errors@
                == validation_errors(m, snapshot@) && report.warnings@ == validation_warnings(m)
                && report.rule_count == m.rules@.len() && report.doc_count == m.governs@.len()
                && report.code_count == m.code@.len(),
        },
{
    let result = match parsed {
        Err(e) => MandateResult::ParseFailed(e),
        Ok(mandate) => MandateResult::Validated(validate(&mandate, snapshot)),
    };
    MandateOutcome { file_name, result }
}

/// The report for a run that found a repository at `root`.
pub fn found_report(
    root: String,
    snapshot_entries: usize,
    nothing_listed: bool,
    outcomes: Vec<MandateOutcome>,
) -> (r: RunReportMandatesValidation)
    ensures
        r.location == (RunLocation::Found { root: root, snapshot_entries: snapshot_entries }),
        r.mandates@ == outcomes@,
        nothing_listed ==> r.warnings@.len() == 1 && (r.warnings@[0] matches RunWarning::NoMandatesFound {
            mandates_dir,
        } && mandates_dir@ == mandates_dir_text(root@)),
        !nothing_listed ==> r.warnings@.len() == 0,
{
    let mut warnings: Vec<RunWarning> = Vec::new();
    if nothing_listed {
        warnings.push(no_mandates_warning(root.as_str()));
    }
    RunReportMandatesValidation {
        location: RunLocation::Found { root, snapshot_entries },
        warnings,
        mandates: outcomes,
    }
}

/// The report for a run that found no `.mandate` folder from `searched_from`
/// up: nothing to check, which is not a failure.
pub fn not_found_report(searched_from: String) -> (r: RunReportMandatesValidation)
    ensures
        r.location == (RunLocation::NotFound { searched_from: searched_from }),
        r.warnings@.len() == 0,
        r.mandates@.len() == 0,
{
    RunReportMandatesValidation {
        location: RunLocation::NotFound { searched_from },
        warnings: Vec::new(),
        mandates: Vec::new(),
    }
}

/// `report` is what validating `m` against `tree` reports.
pub open spec fn reports_on(report: ValidationReport, m: Mandate, tree: Map<Seq<char>, EntryKind>) -> bool {
    &&& report.errors@ == validation_errors(m, tree)
    &&& report.warnings@ == validation_warnings(m)
    &&& report.rule_count == m.rules@.len()
    &&& report.doc_count == m.governs@.len()
    &&& report.code_count == m.code@.len()
}

/// `result` is what `parsed` gives: the parse error, or the report on the
/// parsed mandate checked against `tree`.
pub open spec fn result_of(
    parsed: Result<Mandate, MandateParseError>,
    result: MandateResult,
    tree: Map<Seq<char>, EntryKind>,
) -> bool {
    match parsed {
        Err(e) => result == MandateResult::ParseFailed(e),
        Ok(m) => result matches MandateResult::Validated(report) && reports_on(report, m, tree),
    }
}

/// `outcome` is what checking the mandate file `name` under `root` against
/// `tree` gives: the store gave a file when asked to read `name` there, the
/// parser gave a result for that file's text, and the outcome carries
/// `name` and that result.
pub open spec fn checked_from<M: MandateStore, P: MandateParser>(
    store: &M,
    parser: &P,
    root: &Path,
    tree: Map<Seq<char>, EntryKind>,
    name: String,
    outcome: MandateOutcome,
) -> bool {
    &&& outcome.file_name == name
    &&& exists|n: &str, file: MandateFile|
        #![trigger store.reads_file(root, n, Ok(file))]
        n@ == name@ && store.reads_file(root, n, Ok(file)) && exists|
            t: &str,
            parsed: Result<Mandate, MandateParseError>,
        |
            #![trigger parser.parses(t, parsed)]
            t@ == file.text@ && parser.parses(t, parsed) && result_of(parsed, outcome.result, tree)
}

/// The store refused to read `name` under `root`, with `message`.
pub open spec fn read_failed<M: MandateStore>(store: &M, root: &Path, name: String, message: String) -> bool {
    exists|n: &str, e: StoreError|
        #![trigger store.reads_file(root, n, Err(e))]
        n@ == name@ && store.reads_file(root, n, Err(e)) && e.0 == message
}

/// The store gave a file when asked to read `name` under `root`.
pub open spec fn read_ok<M: MandateStore>(store: &M, root: &Path, name: String) -> bool {
    exists|n: &str, file: MandateFile|
        #![trigger store.reads_file(root, n, Ok(file))]
        n@ == name@ && store.reads_file(root, n, Ok(file))
}

/// The file names of `outcomes`, in order.
pub open spec fn file_names(outcomes: Seq<MandateOutcome>) -> Seq<String> {
    outcomes.map_values(|o: MandateOutcome| o.file_name)
}

/// Which of the `available` names a run selecting `selected` runs: all of
/// them when nothing is selected, else those selected, in listing order.
pub open spec fn names_to_run(available: Seq<String>, selected: Seq<String>) -> Seq<String> {
    if selected.len() == 0 {
        available
    } else {
        names_chosen(available, texts(selected))
    }
}

/// Every selected name is among `available`.
pub open spec fn all_listed(available: Seq<String>, selected: Seq<String>) -> bool {
    forall|j: int| 0 <= j < selected.len() ==> texts(available).contains((#[trigger] selected[j])@)
}

/// What a run that found its root at `root` reports, when the source's
/// snapshot of `root` was `snapshot` and the store listed `available`
/// there: the source answered `Ok(true)` at `root`; the report names `root`
/// and the snapshot's size; every selected name was listed; the outcomes
/// are the names to run, in order, each read under `root`, parsed, and
/// checked against that one snapshot; and the run warns, once, exactly when
/// the store listed nothing.
pub open spec fn found_run<S: FileTreeSource, M: MandateStore, P: MandateParser>(
    source: &S,
    store: &M,
    parser: &P,
    root: &Path,
    report: RunReportMandatesValidation,
    snapshot: FileTreeSnapshot,
    available: Vec<String>,
    selected: Seq<String>,
) -> bool {
    &&& source.finds(root, ".mandate", Ok(true))
    &&& source.snaps(root, Ok(snapshot))
    &&& store.lists_names(root, Ok(available))
    &&& report.location matches RunLocation::Found { root: shown, snapshot_entries }
        && shown@ == path_display(root) && snapshot_entries == snapshot@.dom().len()
    &&& all_listed(available@, selected)
    &&& file_names(report.mandates@) == names_to_run(available@, selected)
    &&& forall|i: int|
        0 <= i < report.mandates@.len() ==> checked_from(
            store,
            parser,
            root,
            snapshot@,
            report.mandates@[i].file_name,
            #[trigger] report.mandates@[i],
        )
    &&& available@.len() == 0 ==> report.warnings@.len() == 1 && (report.warnings@[0] matches RunWarning::NoMandatesFound {
        mandates_dir,
    } && mandates_dir@ == mandates_dir_text(path_display(root)))
    &&& available@.len() > 0 ==> report.warnings@.len() == 0
}

/// The source answered `Ok(true)` at `root` and gave a snapshot of it.
pub open spec fn root_found<S: FileTreeSource>(source: &S, root: &Path) -> bool {
    &&& source.finds(root, ".mandate", Ok(true))
    &&& exists|snapshot: FileTreeSnapshot| #[trigger] source.snaps(root, Ok(snapshot))
}

/// What a run from `start_dir` selecting `selected` reports once its search
/// for a root stopped at `last`:
/// - not found, when the source answered `Ok(false)` at `last` and `last`
///   has no parent, reporting where the search started and nothing else;
/// - found, as [`found_run`] describes;
/// - a source error carrying the message of the source's failed answer at
///   `last`;
/// - a store error, after finding the root at `last`, carrying the message
///   of the store's failed listing there or of its failed read of one of
///   the names to run, every name before it having been read;
/// - an unknown name, after finding the root at `last` and the store
///   listing `available` there: the first selected name not listed.
pub open spec fn run_along<S: FileTreeSource, M: MandateStore, P: MandateParser>(
    source: &S,
    store: &M,
    parser: &P,
    start_dir: &Path,
    last: &Path,
    selected: Seq<String>,
    r: Result<RunReportMandatesValidation, RunError>,
) -> bool {
    match r {
        Ok(report) => match report.location {
            RunLocation::NotFound { searched_from } => searched_from@ == path_display(start_dir)
                && report.warnings@.len() == 0 && report.mandates@.len() == 0 && source.finds(
                last,
                ".mandate",
                Ok(false),
            ) && parent_path(last) is None,
            RunLocation::Found { .. } => exists|snapshot: FileTreeSnapshot, available: Vec<String>|
                #[trigger] found_run(source, store, parser, last, report, snapshot, available, selected),
        },
        Err(RunError::Source(message)) => exists|e: SourceError|
            #![trigger source.finds(last, ".mandate", Err(e))]
            #![trigger source.snaps(last, Err(e))]
            e.0 == message && (source.finds(last, ".mandate", Err(e)) || (source.finds(
                last,
                ".mandate",
                Ok(true),
            ) && source.snaps(last, Err(e)))),
        Err(RunError::Store(message)) => root_found(source, last) && ((exists|e: StoreError|
            #[trigger] store.lists_names(last, Err(e)) && e.0 == message) || exists|
            available: Vec<String>,
        |
            #[trigger] store.lists_names(last, Ok(available)) && all_listed(available@, selected)
                && exists|k: int|
                0 <= k < names_to_run(available@, selected).len() && read_failed(
                    store,
                    last,
                    #[trigger] names_to_run(available@, selected)[k],
                    message,
                ) && forall|j: int|
                    0 <= j < k ==> read_ok(store, last, #[trigger] names_to_run(available@, selected)[j])),
        Err(RunError::UnknownMandate { name, available }) => root_found(source, last) && (exists|
            listed: Vec<String>,
        | #[trigger] store.lists_names(last, Ok(listed)) && listed@ == available@) && exists|k: int|
            0 <= k < selected.len() && #[trigger] selected[k] == name && !texts(available@).contains(
                name@,
            ) && (forall|j: int| 0 <= j < k ==> texts(available@).contains((#[trigger] selected[j])@)),
    }
}

/// What holds of every result a run from `start_dir` selecting `selected`
/// can produce, over the answers its ports gave: the search for a root
/// climbed from `start_dir` through parents while the source answered
/// `Ok(false)`, and stopped at a level where [`run_along`] describes the
/// result.
pub open spec fn run_result_holds<S: FileTreeSource, M: MandateStore, P: MandateParser>(
    source: &S,
    store: &M,
    parser: &P,
    start_dir: &Path,
    selected: Seq<String>,
    r: Result<RunReportMandatesValidation, RunError>,
) -> bool {
    exists|chain: Seq<&Path>|
        #[trigger] climbed(source, start_dir, chain) && run_along(
            source,
            store,
            parser,
            start_dir,
            chain.last(),
            selected,
            r,
        )
}

/// Borrows its three ports and never owns them.
pub struct RunMandates<'p, S, M, P> {
    source: &'p S,
    store: &'p M,
    parser: &'p P,
}

impl<'p, S, M, P> RunMandates<'p, S, M, P> {
    /// The three ports this use case drives.
    pub closed spec fn ports(self) -> (&'p S, &'p M, &'p P) {
        (self.source, self.store, self.parser)
    }
}

impl<'p, S: FileTreeSource, M: MandateStore, P: MandateParser> RunMandates<'p, S, M, P> {
    /// A use case driving these three ports.
    pub fn new(source: &'p S, store: &'p M, parser: &'p P) -> (r: Self)
        ensures
            r.ports() == (source, store, parser),
    {
        RunMandates { source, store, parser }
    }

    /// Discovers the repository root by walking up from `start_dir` looking
    /// for a top-level `.mandate` directory entry, then parses and
    /// validates every mandate in `selected` (or every mandate the store
    /// lists, if `selected` is empty) against one shared snapshot of that
    /// root.
    ///
    /// Never finding a `.mandate` folder is not a failure: it means there
    /// is nothing to check, the same as an empty mandates folder. The
    /// report comes back `Ok` with a `NotFound` location, zero mandates
    /// checked, and no store or snapshot calls made.
    pub fn execute(&self, start_dir: &Path, selected: &[String]) -> (r: Result<
        RunReportMandatesValidation,
        RunError,
    >)
        ensures
            run_result_holds(self.ports().0, self.ports().1, self.ports().2, start_dir, selected@, r),
    {
        let discovery = self.discover_root(start_dir);
        let ghost chain = choose|chain: Seq<&Path>|
            #[trigger] climbed(self.source, start_dir, chain) && discovered_along(
                self.source,
                chain,
                discovery,
            );
        let found = match discovery {
            Ok(found) => found,
            Err(e) => {
                let r = Err(e);
                assert(run_along(self.source, self.store, self.parser, start_dir, chain.last(), selected@, r));
                return r;
            },
        };
        match found {
            None => {
                let r = Ok(not_found_report(path_str(start_dir)));
                assert(run_along(self.source, self.store, self.parser, start_dir, chain.last(), selected@, r));
                r
            },
            Some((root, snapshot)) => {
                proof {
                    assert(root_found(self.source, root));
                }
                let root_str = path_str(root);
                let listing = self.store.list(root);
                let available = match listing {
                    Ok(names) => names,
                    Err(e) => {
                        let ghost failed = e;
                        let r = Err(RunError::from(e));
                        assert(self.store.lists_names(root, Err(failed)));
                        assert(run_along(self.source, self.store, self.parser, start_dir, root, selected@, r));
                        return r;
                    },
                };
                assert(self.store.lists_names(root, Ok(available)));
                let names = match select(available.as_slice(), selected) {
                    Ok(names) => names,
                    Err(e) => {
                        proof {
                            if e is UnknownMandate {
                                let name = e->name;
                                let k = choose|k: int|
                                    0 <= k < selected@.len() && #[trigger] selected@[k] == name
                                        && !texts(available@).contains(name@) && (forall|j: int|
                                        0 <= j < k ==> texts(available@).contains(
                                            (#[trigger] selected@[j])@,
                                        )) && e->available@ == available@;
                                assert(selected@[k] == name);
                            }
                            assert(run_along(self.source, self.store, self.parser, start_dir, root, selected@, Err(e)));
                        }
                        return Err(e);
                    },
                };
                assert(all_listed(available@, selected@));
                let ghost tree = snapshot@;
                let mut outcomes: Vec<MandateOutcome> = Vec::new();
                let mut i: usize = 0;
                while i < names.len()
                    invariant
                        tree == snapshot@,
                        climbed(self.source, start_dir, chain),
                        chain.last() == root,
                        root_found(self.source, root),
                        self.store.lists_names(root, Ok(available)),
                        all_listed(available@, selected@),
                        names@ == names_to_run(available@, selected@),
                        i <= names@.len(),
                        outcomes@.len() == i,
                        forall|j: int| 0 <= j < i ==> (#[trigger] outcomes@[j]).file_name == names@[j],
                        forall|j: int|
                            0 <= j < i ==> checked_from(
                                self.store,
                                self.parser,
                                root,
                                tree,
                                names@[j],
                                #[trigger] outcomes@[j],
                            ),
                    decreases names.len() - i,
                {
                    let outcome = match self.check_one(root, &snapshot, names[i].clone()) {
                        Ok(outcome) => outcome,
                        Err(e) => {
                            let r = Err(e);
                            proof {
                                assert(read_failed(self.store, root, names@[i as int], e->Store_0));
                                assert forall|j: int| 0 <= j < i implies read_ok(
                                    self.store,
                                    root,
                                    #[trigger] names_to_run(available@, selected@)[j],
                                ) by {
                                    assert(checked_from(
                                        self.store,
                                        self.parser,
                                        root,
                                        tree,
                                        names@[j],
                                        outcomes@[j],
                                    ));
                                }
                                assert(run_along(self.source, self.store, self.parser, start_dir, root, selected@, r));
                            }
                            return r;
                        },
                    };
                    outcomes.push(outcome);
                    i = i + 1;
                }
                let entries = snapshot.len();
                let report = found_report(root_str, entries, available.len() == 0, outcomes);
                proof {
                    if available@.len() == 0 && selected@.len() > 0 {
                        assert(texts(available@).contains(selected@[0]@));
                    }
                    assert(file_names(report.mandates@) =~= names@);
                    assert forall|j: int| 0 <= j < report.mandates@.len() implies checked_from(
                        self.store,
                        self.parser,
                        root,
                        snapshot@,
                        report.mandates@[j].file_name,
                        #[trigger] report.mandates@[j],
                    ) by {
                        assert(report.mandates@[j] == outcomes@[j]);
                    }
                    assert(found_run(self.source, self.store, self.parser, root, report, snapshot, available, selected@));
                    assert(run_along(self.source, self.store, self.parser, start_dir, root, selected@, Ok(report)));
                }
                Ok(report)
            },
        }
    }

    /// Reads, parses, and validates one mandate by name against `snapshot`.
    fn check_one(&self, root: &Path, snapshot: &FileTreeSnapshot, name: String) -> (r: Result<
        MandateOutcome,
        RunError,
    >)
        ensures
            r matches Ok(outcome) ==> checked_from(self.store, self.parser, root, snapshot@, name, outcome),
            r matches Err(e) ==> (e matches RunError::Store(message) && read_failed(
                self.store,
                root,
                name,
                message,
            )),
    {
        let ghost given = name;
        let n = name.as_str();
        let read = self.store.read(root, n);
        let file = match read {
            Ok(file) => file,
            Err(e) => {
                let ghost failed = e;
                let r = Err(RunError::from(e));
                assert(self.store.reads_file(root, n, Err(failed)));
                return r;
            },
        };
        assert(self.store.reads_file(root, n, Ok(file)));
        let t = file.text.as_str();
        let parsed = self.parser.parse(t);
        assert(self.parser.parses(t, parsed));
        let outcome = outcome_of(name, parsed, snapshot);
        proof {
            if parsed is Ok {
                assert(reports_on(outcome.result->Validated_0, parsed->Ok_0, snapshot@));
            }
            assert(result_of(parsed, outcome.result, snapshot@));
        }
        Ok(outcome)
    }

    /// Walks up from `start_dir` looking for a `.mandate` directory entry,
    /// asking each level the cheap existence question before ever taking a
    /// snapshot, so only the level that turns out to be the root is ever
    /// snapshotted. Returns `Ok(None)` once a level with no parent is
    /// passed without finding one.
    fn discover_root<'a>(&self, start_dir: &'a Path) -> (r: Result<
        Option<(&'a Path, FileTreeSnapshot)>,
        RunError,
    >)
        ensures
            discovered(self.source, start_dir, r),
            r matches Ok(Some((root, _))) ==> path_len(root) <= path_len(start_dir),
    {
        let mut current: &'a Path = start_dir;
        let ghost mut chain: Seq<&'a Path> = seq![start_dir];
        loop
            invariant
                path_len(current) <= path_len(start_dir),
                climbed(self.source, start_dir, chain),
                chain.last() == current,
            decreases path_len(current),
        {
            let asked = self.source.has_directory(current, ".mandate");
            let has_mandate = match asked {
                Ok(answer) => answer,
                Err(e) => {
                    let r = Err(RunError::from(e));
                    assert(self.source.finds(chain.last(), ".mandate", Err(e)));
                    assert(discovered_along(self.source, chain, r));
                    return r;
                },
            };
            if has_mandate {
                assert(self.source.finds(current, ".mandate", Ok(true)));
                let taken = self.source.snapshot(current);
                return match taken {
                    Ok(snapshot) => {
                        assert(self.source.snaps(current, Ok(snapshot)));
                        let r = Ok(Some((current, snapshot)));
                        assert(discovered_along(self.source, chain, r));
                        r
                    },
                    Err(e) => {
                        assert(self.source.snaps(current, Err(e)));
                        let r = Err(RunError::from(e));
                        assert(discovered_along(self.source, chain, r));
                        r
                    },
                };
            }
            assert(self.source.finds(current, ".mandate", Ok(false)));
            match parent_of(current) {
                Some(parent) => {
                    proof {
                        let before = chain;
                        chain = chain.push(parent);
                        assert forall|i: int| 0 <= i < chain.len() - 1 implies parent_path(
                            #[trigger] chain[i],
                        ) == Some(chain[i + 1]) && self.source.finds(chain[i], ".mandate", Ok(false)) by {
                            if i < before.len() - 1 {
                                assert(chain[i] == before[i] && chain[i + 1] == before[i + 1]);
                            } else {
                                assert(chain[i] == current);
                            }
                        }
                    }
                    current = parent;
                },
                None => {
                    let r = Ok(None);
                    assert(discovered_along(self.source, chain, r));
                    return r;
                },
            }
        }
    }
}

/// The levels a search for `.mandate` from `start` passed: `chain` starts
/// at `start`, each level is the parent of the one before, and the source
/// answered `Ok(false)` for every level but the last.
pub open spec fn climbed<S: FileTreeSource>(source: &S, start: &Path, chain: Seq<&Path>) -> bool {
    &&& chain.len() > 0
    &&& chain[0] == start
    &&& forall|i: int|
        0 <= i < chain.len() - 1 ==> parent_path(#[trigger] chain[i]) == Some(chain[i + 1])
            && source.finds(chain[i], ".mandate", Ok(false))
}

/// What a search that stopped at the last level of `chain` reports: `None`
/// when the source answered `Ok(false)` there and it has no parent; that
/// level and the source's snapshot of it when the source answered
/// `Ok(true)`; otherwise the message of the answer that failed.
pub open spec fn discovered_along<S: FileTreeSource>(
    source: &S,
    chain: Seq<&Path>,
    r: Result<Option<(&Path, FileTreeSnapshot)>, RunError>,
) -> bool {
    let last = chain.last();
    match r {
        Ok(None) => source.finds(last, ".mandate", Ok(false)) && parent_path(last) is None,
        Ok(Some((root, s))) => root == last && source.finds(last, ".mandate", Ok(true)) && source.snaps(
            last,
            Ok(s),
        ),
        Err(RunError::Source(message)) => exists|e: SourceError|
            #![trigger source.finds(last, ".mandate", Err(e))]
            #![trigger source.snaps(last, Err(e))]
            e.0 == message && (source.finds(last, ".mandate", Err(e)) || (source.finds(
                last,
                ".mandate",
                Ok(true),
            ) && source.snaps(last, Err(e)))),
        Err(_) => false,
    }
}

/// What the search for a root from `start` reports, along the levels it
/// passed.
pub open spec fn discovered<S: FileTreeSource>(
    source: &S,
    start: &Path,
    r: Result<Option<(&Path, FileTreeSnapshot)>, RunError>,
) -> bool {
    exists|chain: Seq<&Path>| #[trigger] climbed(source, start, chain) && discovered_along(source, chain, r)
}

/// Every name [`names_chosen`] keeps is among the chosen texts.
pub proof fn lemma_names_chosen_are_chosen(available: Seq<String>, chosen: Seq<Seq<char>>)
    ensures
        forall|i: int|
            0 <= i < names_chosen(available, chosen).len() ==> chosen.contains(
                (#[trigger] names_chosen(available, chosen)[i])@,
            ),
    decreases available.len(),
{
    if available.len() > 0 {
        lemma_names_chosen_are_chosen(available.drop_last(), chosen);
        let prev = names_chosen(available.drop_last(), chosen);
        let all = names_chosen(available, chosen);
        assert forall|i: int| 0 <= i < all.len() implies chosen.contains((#[trigger] all[i])@) by {
            if i < prev.len() {
                assert(all[i] == prev[i]);
            }
        }
    }
}

} // verus!
