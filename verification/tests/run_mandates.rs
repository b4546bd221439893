use std::cell::RefCell;
use std::collections::{HashMap, HashSet};
use std::path::Path;

use mandate::file_tree::{EntryKind, FileTreeSnapshot};
use mandate::mandate::{CodeLink, GovernedDoc, Mandate, Rule, RuleKind};
use mandate::ports::{
    FileTreeSource, MandateFile, MandateParseError, MandateParser, MandateStore, SourceError,
    StoreError,
};
use mandate::run_mandates::{no_mandates_warning, path_str, select, RunError, RunMandates};
use mandate::run_report::{MandateResult, RunLocation, RunWarning};

fn key_of(p: &Path) -> String {
    p.to_string_lossy().replace('\\', "/")
}

struct FakeSource {
    targets: HashSet<String>,
    snapshots: HashMap<String, FileTreeSnapshot>,
    unreadable: HashSet<String>,
    has_directory_calls: RefCell<Vec<String>>,
    snapshot_calls: RefCell<Vec<String>>,
}

impl FakeSource {
    fn new() -> Self {
        Self {
            targets: HashSet::new(),
            snapshots: HashMap::new(),
            unreadable: HashSet::new(),
            has_directory_calls: RefCell::new(Vec::new()),
            snapshot_calls: RefCell::new(Vec::new()),
        }
    }

    fn with_target(mut self, dir: &str) -> Self {
        self.targets.insert(dir.to_string());
        self
    }

    fn with_snapshot(mut self, dir: &str, snapshot: FileTreeSnapshot) -> Self {
        self.snapshots.insert(dir.to_string(), snapshot);
        self
    }

    fn unreadable(mut self, dir: &str) -> Self {
        self.unreadable.insert(dir.to_string());
        self
    }

    fn has_directory_call_count(&self) -> usize {
        self.has_directory_calls.borrow().len()
    }

    fn snapshot_call_count(&self) -> usize {
        self.snapshot_calls.borrow().len()
    }
}

impl FileTreeSource for FakeSource {
    // Any answer this source gives is one it may give.
    fn snaps(&self, _root: &Path, _r: Result<FileTreeSnapshot, SourceError>) -> bool {
        true
    }

    fn finds(&self, _dir: &Path, _name: &str, _r: Result<bool, SourceError>) -> bool {
        true
    }

    fn snapshot(&self, root: &Path) -> Result<FileTreeSnapshot, SourceError> {
        let key = key_of(root);
        self.snapshot_calls.borrow_mut().push(key.clone());
        if self.unreadable.contains(&key) {
            return Err(SourceError(format!("{key}: Access is denied")));
        }
        Ok(self.snapshots.get(&key).cloned().unwrap_or_default())
    }

    fn has_directory(&self, dir: &Path, name: &str) -> Result<bool, SourceError> {
        let key = key_of(dir);
        self.has_directory_calls.borrow_mut().push(key.clone());
        Ok(name == ".mandate" && self.targets.contains(&key))
    }
}

struct FakeStore {
    files: HashMap<String, String>,
    reads: RefCell<Vec<String>>,
}

impl FakeStore {
    fn new() -> Self {
        Self {
            files: HashMap::new(),
            reads: RefCell::new(Vec::new()),
        }
    }

    fn with_mandate(mut self, name: &str, text: &str) -> Self {
        self.files.insert(name.to_string(), text.to_string());
        self
    }
}

impl MandateStore for FakeStore {
    // Any answer this store gives is one it may give.
    fn lists_names(&self, _root: &Path, _r: Result<Vec<String>, StoreError>) -> bool {
        true
    }

    fn reads_file(&self, _root: &Path, _file_name: &str, _r: Result<MandateFile, StoreError>) -> bool {
        true
    }

    fn list(&self, _root: &Path) -> Result<Vec<String>, StoreError> {
        let mut names: Vec<String> = self.files.keys().cloned().collect();
        names.sort();
        Ok(names)
    }

    fn read(&self, _root: &Path, file_name: &str) -> Result<MandateFile, StoreError> {
        self.reads.borrow_mut().push(file_name.to_string());
        self.files
            .get(file_name)
            .map(|text| MandateFile {
                file_name: file_name.to_string(),
                text: text.clone(),
            })
            .ok_or_else(|| StoreError(format!("unknown mandate file '{file_name}'")))
    }
}

struct FakeParser {
    mandates: HashMap<String, Result<Mandate, MandateParseError>>,
}

impl FakeParser {
    fn new() -> Self {
        Self {
            mandates: HashMap::new(),
        }
    }

    fn ok(mut self, text: &str, mandate: Mandate) -> Self {
        self.mandates.insert(text.to_string(), Ok(mandate));
        self
    }

    fn err(mut self, text: &str, message: &str) -> Self {
        self.mandates.insert(
            text.to_string(),
            Err(MandateParseError::Malformed(message.to_string())),
        );
        self
    }
}

impl MandateParser for FakeParser {
    // Any result this parser gives is one it may give.
    fn parses(&self, _text: &str, _r: Result<Mandate, MandateParseError>) -> bool {
        true
    }

    fn parse(&self, text: &str) -> Result<Mandate, MandateParseError> {
        self.mandates.get(text).cloned().unwrap_or_else(|| {
            Err(MandateParseError::Malformed(format!(
                "no fake mapping for text: {text}"
            )))
        })
    }
}

fn snapshot_with_mandate_folder() -> FileTreeSnapshot {
    let mut snapshot = FileTreeSnapshot::empty();
    snapshot.insert(".mandate", EntryKind::Directory);
    snapshot.insert(".mandate/mandates", EntryKind::Directory);
    snapshot
}

fn mandate(name: &str) -> Mandate {
    Mandate {
        name: name.to_string(),
        description: None,
        rules: vec![Rule {
            id: "has-owner".to_string(),
            description: None,
            kind: RuleKind::Script {
                run: "./scripts/owner.sh".to_string(),
            },
        }],
        governs: vec![GovernedDoc {
            doc: "docs/a.md".to_string(),
            rules: vec!["has-owner".to_string()],
        }],
        code: vec![CodeLink {
            path: "src/a.ts".to_string(),
            docs: vec!["docs/a.md".to_string()],
        }],
    }
}

#[test]
fn found_at_the_start_dir() {
    let source = FakeSource::new()
        .with_target("/p")
        .with_snapshot("/p", snapshot_with_mandate_folder());
    let store = FakeStore::new();
    let parser = FakeParser::new();
    let run = RunMandates::new(&source, &store, &parser);

    let report = run.execute(Path::new("/p"), &[]).unwrap();

    assert_eq!(
        report.location,
        RunLocation::Found {
            root: "/p".to_string(),
            snapshot_entries: 2
        }
    );
    assert_eq!(source.has_directory_call_count(), 1);
    assert_eq!(source.snapshot_call_count(), 1);
}

#[test]
fn found_two_levels_up() {
    let source = FakeSource::new()
        .with_target("/p")
        .with_snapshot("/p", snapshot_with_mandate_folder());
    let store = FakeStore::new();
    let parser = FakeParser::new();
    let run = RunMandates::new(&source, &store, &parser);

    let report = run.execute(Path::new("/p/a/b"), &[]).unwrap();

    assert_eq!(
        report.location,
        RunLocation::Found {
            root: "/p".to_string(),
            snapshot_entries: 2
        }
    );
    assert_eq!(source.has_directory_call_count(), 3);
    assert_eq!(source.snapshot_call_count(), 1);
}

#[test]
fn not_found_reports_not_found_and_never_snapshots() {
    let source = FakeSource::new();
    let store = FakeStore::new();
    let parser = FakeParser::new();
    let run = RunMandates::new(&source, &store, &parser);

    let report = run.execute(Path::new("/p/a/b"), &[]).unwrap();

    assert_eq!(
        report.location,
        RunLocation::NotFound {
            searched_from: "/p/a/b".to_string()
        }
    );
    assert!(report.mandates.is_empty());
    assert!(report.is_valid());
    assert_eq!(source.snapshot_call_count(), 0);
}

#[test]
fn a_child_directorys_mandate_folder_is_ignored() {
    let source = FakeSource::new().with_target("/p/sub");
    let store = FakeStore::new();
    let parser = FakeParser::new();
    let run = RunMandates::new(&source, &store, &parser);

    let report = run.execute(Path::new("/p"), &[]).unwrap();

    assert_eq!(
        report.location,
        RunLocation::NotFound {
            searched_from: "/p".to_string()
        }
    );
}

#[test]
fn an_unreadable_ancestor_does_not_error_and_the_walk_continues() {
    let source = FakeSource::new()
        .unreadable("/p/a")
        .with_target("/p")
        .with_snapshot("/p", snapshot_with_mandate_folder());
    let store = FakeStore::new();
    let parser = FakeParser::new();
    let run = RunMandates::new(&source, &store, &parser);

    let report = run.execute(Path::new("/p/a/b"), &[]).unwrap();

    assert_eq!(
        report.location,
        RunLocation::Found {
            root: "/p".to_string(),
            snapshot_entries: 2
        }
    );
    assert_eq!(source.snapshot_call_count(), 1);
}

#[test]
fn all_mandates_run_in_list_order() {
    let source = FakeSource::new()
        .with_target("/p")
        .with_snapshot("/p", snapshot_with_mandate_folder());
    let store = FakeStore::new()
        .with_mandate("a.yaml", "text-a")
        .with_mandate("b.yaml", "text-b");
    let parser = FakeParser::new()
        .ok("text-a", mandate("A"))
        .ok("text-b", mandate("B"));
    let run = RunMandates::new(&source, &store, &parser);

    let report = run.execute(Path::new("/p"), &[]).unwrap();

    let names: Vec<&str> = report
        .mandates
        .iter()
        .map(|o| o.file_name.as_str())
        .collect();
    assert_eq!(names, vec!["a.yaml", "b.yaml"]);
    assert!(report.warnings.is_empty());
}

#[test]
fn named_selection_runs_only_those() {
    let source = FakeSource::new()
        .with_target("/p")
        .with_snapshot("/p", snapshot_with_mandate_folder());
    let store = FakeStore::new()
        .with_mandate("a.yaml", "text-a")
        .with_mandate("b.yaml", "text-b");
    let parser = FakeParser::new()
        .ok("text-a", mandate("A"))
        .ok("text-b", mandate("B"));
    let run = RunMandates::new(&source, &store, &parser);

    let report = run
        .execute(Path::new("/p"), &["b.yaml".to_string()])
        .unwrap();

    let names: Vec<&str> = report
        .mandates
        .iter()
        .map(|o| o.file_name.as_str())
        .collect();
    assert_eq!(names, vec!["b.yaml"]);
}

#[test]
fn unknown_name_errors_and_reads_nothing() {
    let source = FakeSource::new()
        .with_target("/p")
        .with_snapshot("/p", snapshot_with_mandate_folder());
    let store = FakeStore::new()
        .with_mandate("a.yaml", "text-a")
        .with_mandate("b.yaml", "text-b");
    let parser = FakeParser::new();
    let run = RunMandates::new(&source, &store, &parser);

    let err = run
        .execute(Path::new("/p"), &["missing.yaml".to_string()])
        .unwrap_err();

    match err {
        RunError::UnknownMandate { name, available } => {
            assert_eq!(name, "missing.yaml");
            assert_eq!(available, vec!["a.yaml".to_string(), "b.yaml".to_string()]);
        }
        other => panic!("expected UnknownMandate, got {other:?}"),
    }
    assert!(store.reads.borrow().is_empty());
}

#[test]
fn parse_failure_in_one_mandate_still_validates_the_other() {
    let source = FakeSource::new()
        .with_target("/p")
        .with_snapshot("/p", snapshot_with_mandate_folder());
    let store = FakeStore::new()
        .with_mandate("a.yaml", "bad-text")
        .with_mandate("b.yaml", "text-b");
    let parser = FakeParser::new()
        .err("bad-text", "unknown field 'bogus'")
        .ok("text-b", mandate("B"));
    let run = RunMandates::new(&source, &store, &parser);

    let report = run.execute(Path::new("/p"), &[]).unwrap();

    let a = &report.mandates[0];
    assert_eq!(a.file_name, "a.yaml");
    assert_eq!(
        a.result,
        MandateResult::ParseFailed(MandateParseError::Malformed(
            "unknown field 'bogus'".to_string()
        ))
    );

    let b = &report.mandates[1];
    assert_eq!(b.file_name, "b.yaml");
    assert!(matches!(b.result, MandateResult::Validated(_)));
}

#[test]
fn empty_list_warns_with_mandates_dir_and_zero_mandates() {
    let source = FakeSource::new()
        .with_target("/p")
        .with_snapshot("/p", snapshot_with_mandate_folder());
    let store = FakeStore::new();
    let parser = FakeParser::new();
    let run = RunMandates::new(&source, &store, &parser);

    let report = run.execute(Path::new("/p"), &[]).unwrap();

    assert_eq!(
        report.warnings,
        vec![RunWarning::NoMandatesFound {
            mandates_dir: "/p/.mandate/mandates".to_string()
        }]
    );
    assert!(report.mandates.is_empty());
}

#[test]
fn empty_list_at_a_drive_root_does_not_double_slash_mandates_dir() {
    let source = FakeSource::new()
        .with_target("/")
        .with_snapshot("/", snapshot_with_mandate_folder());
    let store = FakeStore::new();
    let parser = FakeParser::new();
    let run = RunMandates::new(&source, &store, &parser);

    let report = run.execute(Path::new("/"), &[]).unwrap();

    assert_eq!(
        report.warnings,
        vec![RunWarning::NoMandatesFound {
            mandates_dir: "/.mandate/mandates".to_string()
        }]
    );
}

#[test]
fn same_snapshot_used_for_every_mandate_and_snapshotted_only_once() {
    let source = FakeSource::new()
        .with_target("/p")
        .with_snapshot("/p", snapshot_with_mandate_folder());
    let store = FakeStore::new()
        .with_mandate("a.yaml", "text-a")
        .with_mandate("b.yaml", "text-b");
    let parser = FakeParser::new()
        .ok("text-a", mandate("A"))
        .ok("text-b", mandate("B"));
    let run = RunMandates::new(&source, &store, &parser);

    let report = run.execute(Path::new("/p/a"), &[]).unwrap();

    assert_eq!(report.mandates.len(), 2);
    assert_eq!(source.has_directory_call_count(), 2);
    assert_eq!(source.snapshot_call_count(), 1);
}

#[test]
fn select_keeps_list_order_and_refuses_an_unknown_name() {
    let available = vec!["a.yaml".to_string(), "b.yaml".to_string(), "c.yaml".to_string()];

    assert_eq!(select(&available, &[]).unwrap(), available);
    assert_eq!(
        select(&available, &["c.yaml".to_string(), "a.yaml".to_string()]).unwrap(),
        vec!["a.yaml".to_string(), "c.yaml".to_string()]
    );
    let err = select(&available, &["a.yaml".to_string(), "z.yaml".to_string()]).unwrap_err();
    assert_eq!(
        err,
        RunError::UnknownMandate {
            name: "z.yaml".to_string(),
            available: available.clone(),
        }
    );
    assert_eq!(
        err.to_string(),
        "unknown mandate 'z.yaml'; available mandates are: a.yaml, b.yaml, c.yaml"
    );
}

#[test]
fn a_snapshot_failure_at_the_found_root_is_a_source_error() {
    let source = FakeSource::new().with_target("/p").unreadable("/p");
    let store = FakeStore::new();
    let parser = FakeParser::new();
    let run = RunMandates::new(&source, &store, &parser);

    let err = run.execute(Path::new("/p"), &[]).unwrap_err();

    assert_eq!(err, RunError::Source("/p: Access is denied".to_string()));
    assert_eq!(err.to_string(), "/p: Access is denied");
}

#[test]
fn mandates_dir_and_paths_read_with_forward_slashes() {
    assert_eq!(
        no_mandates_warning("C:/"),
        RunWarning::NoMandatesFound {
            mandates_dir: "C:/.mandate/mandates".to_string()
        }
    );
    assert_eq!(
        no_mandates_warning("/repo"),
        RunWarning::NoMandatesFound {
            mandates_dir: "/repo/.mandate/mandates".to_string()
        }
    );
    assert_eq!(path_str(Path::new("/a/b")), "/a/b");
    assert_eq!(path_str(Path::new("a\\b")), "a/b");
}

#[test]
fn a_valid_mandate_validated_against_the_shared_snapshot() {
    let mut snapshot = snapshot_with_mandate_folder();
    snapshot.insert("docs", EntryKind::Directory);
    snapshot.insert("docs/a.md", EntryKind::File);
    snapshot.insert("src/a.ts", EntryKind::File);
    let source = FakeSource::new().with_target("/p").with_snapshot("/p", snapshot);
    let store = FakeStore::new().with_mandate("a.yaml", "text-a");
    let parser = FakeParser::new().ok("text-a", mandate("A"));
    let run = RunMandates::new(&source, &store, &parser);

    let report = run.execute(Path::new("/p"), &[]).unwrap();

    assert!(report.is_valid());
    assert_eq!(
        report.lines(),
        vec![
            "repository: /p".to_string(),
            "snapshot: 5 entries".to_string(),
            String::new(),
            "a.yaml".to_string(),
            "  valid: 1 rules, 1 documents, 1 source files".to_string(),
            String::new(),
            "1 mandates checked, 0 invalid".to_string(),
        ]
    );
}

struct BrokenStore;

impl MandateStore for BrokenStore {
    // Any answer this store gives is one it may give.
    fn lists_names(&self, _root: &Path, _r: Result<Vec<String>, StoreError>) -> bool {
        true
    }

    fn reads_file(&self, _root: &Path, _file_name: &str, _r: Result<MandateFile, StoreError>) -> bool {
        true
    }

    fn list(&self, _root: &Path) -> Result<Vec<String>, StoreError> {
        Err(StoreError("/p/.mandate/mandates: Permission denied".to_string()))
    }

    fn read(&self, _root: &Path, file_name: &str) -> Result<MandateFile, StoreError> {
        Err(StoreError(format!("cannot read {file_name}")))
    }
}

#[test]
fn a_store_that_cannot_list_is_a_store_error() {
    let source = FakeSource::new()
        .with_target("/p")
        .with_snapshot("/p", snapshot_with_mandate_folder());
    let parser = FakeParser::new();
    let run = RunMandates::new(&source, &BrokenStore, &parser);

    let err = run.execute(Path::new("/p"), &[]).unwrap_err();

    assert_eq!(
        err,
        RunError::Store("/p/.mandate/mandates: Permission denied".to_string())
    );
    assert_eq!(
        RunError::from(StoreError("x".to_string())),
        RunError::Store("x".to_string())
    );
    assert_eq!(
        RunError::from(SourceError("y".to_string())),
        RunError::Source("y".to_string())
    );
    assert_eq!(StoreError("z".to_string()).to_string(), "z");
    assert_eq!(SourceError("w".to_string()).to_string(), "w");
}
