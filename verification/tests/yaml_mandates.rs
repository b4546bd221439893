//! Scenarios driven by mandate YAML text: the fixture cases, the
//! single-mandate command, and the runs through the filesystem adapters.
//! The YAML is read into the library's mandate document with `yaml_serde`'s
//! `Value`, then turned into a mandate by the library.

use std::collections::HashMap;
use std::path::Path;

use mandate::cli::{self, Invocation};
use mandate::file_system::{DirEntry, FileSystem, FileSystemError};
use mandate::file_tree::{EntryKind, FileTreeSnapshot};
use mandate::fs_file_tree_source::FsFileTreeSource;
use mandate::fs_mandate_store::FsMandateStore;
use mandate::mandate::{CodeLink, GovernedDoc, Mandate, Rule, RuleKind};
use mandate::mandate_doc::{mandate_from_doc, CodeLinkDoc, GovernedDocDoc, MandateDoc, RuleDoc};
use mandate::memory_tree::InMemoryFileTree;
use mandate::ports::{
    FileTree, FileTreeSource, MandateFile, MandateParseError, MandateParser, MandateStore,
    SourceError, StoreError,
};
use mandate::run_mandates::{RunError, RunMandates};
use mandate::run_report::{RunLocation, RunReportMandatesValidation, RunWarning};
use mandate::validate_command::{execute, parse_args};
use mandate::validation::validate;
use yaml_serde::{Mapping, Value};

// ---------------------------------------------------------------------
// Reading mandate YAML.
// ---------------------------------------------------------------------

fn mapping<'a>(value: &'a Value, what: &str, allowed: &[&str]) -> Result<&'a Mapping, String> {
    let map = value
        .as_mapping()
        .ok_or_else(|| format!("{what}: expected a mapping"))?;
    for key in map.keys() {
        let key = key.as_str().unwrap_or("");
        if !allowed.contains(&key) {
            return Err(format!("{what}: unknown field `{key}`"));
        }
    }
    Ok(map)
}

fn text(map: &Mapping, key: &str, what: &str) -> Result<String, String> {
    optional_text(map, key, what)?.ok_or_else(|| format!("{what}: missing field `{key}`"))
}

fn optional_text(map: &Mapping, key: &str, what: &str) -> Result<Option<String>, String> {
    match map.get(key) {
        None | Some(Value::Null) => Ok(None),
        Some(Value::String(s)) => Ok(Some(s.clone())),
        Some(_) => Err(format!("{what}: `{key}` is not a string")),
    }
}

fn list<'a>(map: &'a Mapping, key: &str, what: &str) -> Result<&'a Vec<Value>, String> {
    map.get(key)
        .ok_or_else(|| format!("{what}: missing field `{key}`"))?
        .as_sequence()
        .ok_or_else(|| format!("{what}: `{key}` is not a list"))
}

fn texts(map: &Mapping, key: &str, what: &str) -> Result<Vec<String>, String> {
    list(map, key, what)?
        .iter()
        .map(|v| {
            v.as_str()
                .map(str::to_string)
                .ok_or_else(|| format!("{what}: `{key}` holds a non-string"))
        })
        .collect()
}

fn mandate_document(value: &Value) -> Result<MandateDoc, String> {
    let top = mapping(value, "mandate", &["name", "description", "rules", "governs", "code"])?;
    let mut rules = Vec::new();
    for item in list(top, "rules", "mandate")? {
        let r = mapping(item, "rule", &["id", "type", "description", "run", "prompt"])?;
        rules.push(RuleDoc {
            id: text(r, "id", "rule")?,
            kind: text(r, "type", "rule")?,
            description: optional_text(r, "description", "rule")?,
            run: optional_text(r, "run", "rule")?,
            prompt: optional_text(r, "prompt", "rule")?,
        });
    }
    let mut governs = Vec::new();
    for item in list(top, "governs", "mandate")? {
        let g = mapping(item, "governed document", &["doc", "rules"])?;
        governs.push(GovernedDocDoc {
            doc: text(g, "doc", "governed document")?,
            rules: texts(g, "rules", "governed document")?,
        });
    }
    let mut code = Vec::new();
    for item in list(top, "code", "mandate")? {
        let c = mapping(item, "code link", &["path", "docs"])?;
        code.push(CodeLinkDoc {
            path: text(c, "path", "code link")?,
            docs: texts(c, "docs", "code link")?,
        });
    }
    Ok(MandateDoc {
        name: text(top, "name", "mandate")?,
        description: optional_text(top, "description", "mandate")?,
        rules,
        governs,
        code,
    })
}

fn parse_mandate(yaml: &str) -> Result<Mandate, MandateParseError> {
    let value: Value =
        yaml_serde::from_str(yaml).map_err(|e| MandateParseError::Malformed(e.to_string()))?;
    let doc = mandate_document(&value).map_err(MandateParseError::Malformed)?;
    mandate_from_doc(doc)
}

struct YamlParser;

impl MandateParser for YamlParser {
    // Any result this parser gives is one it may give.
    fn parses(&self, _text: &str, _r: Result<Mandate, MandateParseError>) -> bool {
        true
    }

    fn parse(&self, text: &str) -> Result<Mandate, MandateParseError> {
        parse_mandate(text)
    }
}

fn parse(yaml: &str) -> Mandate {
    parse_mandate(yaml).unwrap_or_else(|e| panic!("mandate.yaml failed to parse: {e:?}"))
}

// ---------------------------------------------------------------------
// An in-memory repository.
// ---------------------------------------------------------------------

struct FakeVirtualMachine {
    snapshot: FileTreeSnapshot,
    root: String,
    mandates: HashMap<String, String>,
}

impl FakeVirtualMachine {
    fn empty() -> Self {
        Self {
            snapshot: FileTreeSnapshot::empty(),
            root: "/repo".to_string(),
            mandates: HashMap::new(),
        }
    }

    fn with_every_file_in(mandate: &Mandate) -> Self {
        Self {
            snapshot: FileTreeSnapshot::with_every_file_in(mandate),
            root: "/repo".to_string(),
            mandates: HashMap::new(),
        }
    }

    fn add(mut self, path: &str) -> Self {
        self.snapshot.insert(path, EntryKind::File);
        self
    }

    fn remove(mut self, path: &str) -> Self {
        if !self.snapshot.remove(path) {
            panic!("FakeVirtualMachine::remove: '{path}' is not present");
        }
        self
    }

    fn rename(mut self, from: &str, to: &str) -> Self {
        if !self.snapshot.rename(from, to) {
            panic!("FakeVirtualMachine::rename: '{from}' is not present");
        }
        self
    }

    fn at_root(mut self, root: &str) -> Self {
        self.root = root.to_string();
        self
    }

    fn with_mandate(mut self, file_name: &str, text: &str) -> Self {
        self.mandates.insert(file_name.to_string(), text.to_string());
        self.snapshot.insert(".mandate", EntryKind::Directory);
        self.snapshot.insert(".mandate/mandates", EntryKind::Directory);
        self.snapshot
            .insert(&format!(".mandate/mandates/{file_name}"), EntryKind::File);
        self
    }

    fn empty_mandate_folder(mut self) -> Self {
        self.snapshot.insert(".mandate", EntryKind::Directory);
        self.snapshot.insert(".mandate/mandates", EntryKind::Directory);
        self
    }

    fn snapshot(&self) -> FileTreeSnapshot {
        self.snapshot.clone()
    }

    /// `path` relative to the root, or `None` when it is not under it.
    fn relative(&self, path: &Path) -> Option<String> {
        let requested = path.to_string_lossy().replace('\\', "/");
        if requested == self.root {
            Some(String::new())
        } else {
            requested
                .strip_prefix(&format!("{}/", self.root))
                .map(str::to_string)
        }
    }
}

impl FileTreeSource for FakeVirtualMachine {
    // Any answer this source gives is one it may give.
    fn snaps(&self, _root: &Path, _r: Result<FileTreeSnapshot, SourceError>) -> bool {
        true
    }

    fn finds(&self, _dir: &Path, _name: &str, _r: Result<bool, SourceError>) -> bool {
        true
    }

    fn snapshot(&self, root: &Path) -> Result<FileTreeSnapshot, SourceError> {
        let requested = root.to_string_lossy().replace('\\', "/");
        if requested == self.root {
            Ok(self.snapshot.clone())
        } else {
            Ok(FileTreeSnapshot::empty())
        }
    }

    fn has_directory(&self, dir: &Path, name: &str) -> Result<bool, SourceError> {
        let requested = dir.to_string_lossy().replace('\\', "/");
        Ok(requested == self.root && self.snapshot.is_dir(name))
    }
}

impl MandateStore for FakeVirtualMachine {
    // Any answer this store gives is one it may give.
    fn lists_names(&self, _root: &Path, _r: Result<Vec<String>, StoreError>) -> bool {
        true
    }

    fn reads_file(&self, _root: &Path, _file_name: &str, _r: Result<MandateFile, StoreError>) -> bool {
        true
    }

    fn list(&self, _root: &Path) -> Result<Vec<String>, StoreError> {
        let mut names: Vec<String> = self.mandates.keys().cloned().collect();
        names.sort();
        Ok(names)
    }

    fn read(&self, _root: &Path, file_name: &str) -> Result<MandateFile, StoreError> {
        if file_name.contains('/') || file_name.contains('\\') || file_name.contains("..") {
            return Err(StoreError(format!("invalid mandate file name: {file_name}")));
        }

        self.mandates
            .get(file_name)
            .map(|text| MandateFile {
                file_name: file_name.to_string(),
                text: text.clone(),
            })
            .ok_or_else(|| StoreError(format!("unknown mandate file '{file_name}'")))
    }
}

impl FileSystem for FakeVirtualMachine {
    // Any answer this disk gives is one it may give.
    fn lists(&self, _dir: &Path, _r: Result<Vec<DirEntry>, FileSystemError>) -> bool {
        true
    }

    fn reads(&self, _path: &Path, _r: Result<String, FileSystemError>) -> bool {
        true
    }

    fn sees_dir(&self, _path: &Path, _r: bool) -> bool {
        true
    }

    fn sees_entry(&self, _path: &Path, _r: bool) -> bool {
        true
    }

    fn list_dir(&self, dir: &Path) -> Result<Vec<DirEntry>, FileSystemError> {
        let rel = self
            .relative(dir)
            .ok_or_else(|| FileSystemError(format!("{}: not found", dir.display())))?;
        let prefix = if rel.is_empty() { String::new() } else { format!("{rel}/") };
        Ok(self
            .snapshot
            .paths()
            .into_iter()
            .filter_map(|p| {
                let name = p.strip_prefix(&prefix)?.to_string();
                if name.is_empty() || name.contains('/') {
                    return None;
                }
                let kind = if self.snapshot.is_dir(&p) {
                    EntryKind::Directory
                } else {
                    EntryKind::File
                };
                Some(DirEntry { name, kind })
            })
            .collect())
    }

    fn read_to_string(&self, path: &Path) -> Result<String, FileSystemError> {
        let rel = self.relative(path).unwrap_or_default();
        rel.strip_prefix(".mandate/mandates/")
            .and_then(|name| self.mandates.get(name))
            .cloned()
            .ok_or_else(|| FileSystemError(format!("{}: not found", path.display())))
    }

    fn is_dir(&self, path: &Path) -> bool {
        match self.relative(path) {
            Some(rel) if rel.is_empty() => true,
            Some(rel) => self.snapshot.is_dir(&rel),
            None => false,
        }
    }

    fn path_exists(&self, path: &Path) -> bool {
        match self.relative(path) {
            Some(rel) if rel.is_empty() => true,
            Some(rel) => self.snapshot.path_exists(&rel),
            None => false,
        }
    }
}

fn run(
    vm: &FakeVirtualMachine,
    start_dir: &str,
    selected: &[&str],
) -> Result<RunReportMandatesValidation, RunError> {
    let parser = YamlParser;
    let selected: Vec<String> = selected.iter().map(|s| s.to_string()).collect();
    RunMandates::new(vm, vm, &parser).execute(Path::new(start_dir), &selected)
}

fn check(mandate: &Mandate, vm: &FakeVirtualMachine) -> Vec<String> {
    validate(mandate, &vm.snapshot()).lines()
}

fn assert_passes(lines: Vec<String>) {
    assert_eq!(lines, Vec::<String>::new(), "expected no errors or warnings");
}

fn assert_passes_with_warnings(lines: Vec<String>, warnings: &[&str]) {
    let expected: Vec<String> = warnings.iter().map(|w| format!("warning: {w}")).collect();
    assert_eq!(lines, expected);
}

fn assert_fails(lines: Vec<String>, errors: &[&str]) {
    let expected: Vec<String> = errors.iter().map(|e| format!("error: {e}")).collect();
    assert_eq!(lines, expected);
}

// ---------------------------------------------------------------------
// Fixture mandates.
// ---------------------------------------------------------------------

const TODO_APP: &str = r#"
name: Todo_App
description: Keeps the todo app's task documentation honest.
rules:
  - id: has-owner
    type: script
    description: The document names an owner.
    run: ./scripts/check-owner.sh
  - id: claims-match-code
    type: agent
    prompt: Confirm the document's claims match the linked code.
  - id: steps-are-numbered
    type: script
    run: ./scripts/check-steps.sh
governs:
  - doc: docs/sop/adding-a-task.md
    rules:
      - has-owner
      - claims-match-code
      - steps-are-numbered
  - doc: docs/sop/todo/completing-a-task.md
    rules:
      - has-owner
      - claims-match-code
code:
  - path: src/main.rs
    docs:
      - docs/sop/adding-a-task.md
  - path: src/todo/task.rs
    docs:
      - docs/sop/adding-a-task.md
      - docs/sop/todo/completing-a-task.md
  - path: src/todo/list.rs
    docs:
      - docs/sop/adding-a-task.md
  - path: src/todo/due_date.rs
    docs:
      - docs/sop/todo/completing-a-task.md
  - path: src/app/commands/add.rs
    docs:
      - docs/sop/adding-a-task.md
  - path: src/app/commands/complete.rs
    docs:
      - docs/sop/todo/completing-a-task.md
  - path: src/infra/storage/json/file_store.rs
    docs:
      - docs/sop/adding-a-task.md
  - path: src/infra/storage/memory_store.rs
    docs:
      - docs/sop/adding-a-task.md
  - path: tests/adding_a_task.rs
    docs:
      - docs/sop/adding-a-task.md
  - path: tests/completing_a_task.rs
    docs:
      - docs/sop/todo/completing-a-task.md
  - path: tests/support/clock/fake_clock.rs
    docs:
      - docs/sop/todo/completing-a-task.md
"#;

const TODO_APP_UNGOVERNED_DOC: &str = r#"
name: Todo_App
rules:
  - id: has-owner
    type: script
    run: ./scripts/check-owner.sh
governs:
  - doc: docs/sop/adding-a-task.md
    rules: [has-owner]
code:
  - path: src/todo/task.rs
    docs:
      - docs/sop/adding-a-task.md
      - docs/architecture/other.md
"#;

const TODO_APP_UNKNOWN_RULE: &str = r#"
name: Todo_App
rules:
  - id: has-owner
    type: script
    run: ./scripts/check-owner.sh
governs:
  - doc: docs/sop/adding-a-task.md
    rules: [has-owner]
  - doc: docs/architecture/mandate-parser.md
    rules: [has-owner, no-such-rule]
code:
  - path: src/todo/task.rs
    docs: [docs/sop/adding-a-task.md]
"#;

const TODO_APP_UNREFERENCED_RULE: &str = r#"
name: Todo_App
rules:
  - id: has-owner
    type: script
    run: ./scripts/check-owner.sh
  - id: unused-rule
    type: agent
    prompt: Nothing references this rule yet.
governs:
  - doc: docs/sop/adding-a-task.md
    rules: [has-owner]
code:
  - path: src/todo/task.rs
    docs: [docs/sop/adding-a-task.md]
"#;

const TODO_APP_DUPLICATE_RULE: &str = r#"
name: Todo_App
rules:
  - id: has-owner
    type: script
    run: ./scripts/check-owner.sh
  - id: claims-match-code
    type: agent
    prompt: Confirm the document's claims match the linked code.
  - id: claims-match-code
    type: agent
    prompt: The same rule, declared a second time.
governs:
  - doc: docs/sop/adding-a-task.md
    rules: [has-owner, claims-match-code]
code:
  - path: src/todo/task.rs
    docs: [docs/sop/adding-a-task.md]
"#;

const HANDLING_MANDATES: &str = r#"
name: Mandate_Tool
description: Keeps the mandate tool's own documentation honest.
rules:
  - id: has-owner
    type: script
    run: ./scripts/check-owner.sh
  - id: claims-match-code
    type: agent
    prompt: Confirm the document's claims match the linked code.
governs:
  - doc: docs/sop/handling-mandates.md
    rules:
      - has-owner
      - claims-match-code
  - doc: docs/architecture/mandate-parser.md
    rules:
      - has-owner
code:
  - path: src/main.rs
    docs:
      - docs/sop/handling-mandates.md
  - path: src/domain/mandate.rs
    docs:
      - docs/architecture/mandate-parser.md
  - path: tests/validation_fixtures.rs
    docs:
      - docs/sop/handling-mandates.md
"#;

const HANDLING_MANDATES_NO_RULES: &str = r#"
name: Mandate_Tool
rules: []
governs:
  - doc: docs/sop/handling-mandates.md
    rules: []
code:
  - path: src/main.rs
    docs: [docs/sop/handling-mandates.md]
"#;

const HANDLING_MANDATES_UNGOVERNED_DOC: &str = r#"
name: Mandate_Tool
rules:
  - id: has-owner
    type: script
    run: ./scripts/check-owner.sh
governs:
  - doc: docs/sop/handling-mandates.md
    rules: [has-owner]
code:
  - path: src/domain/mandate.rs
    docs:
      - docs/sop/handling-mandates.md
      - docs/architecture/other.md
"#;

const HANDLING_MANDATES_UNKNOWN_RULE: &str = r#"
name: Mandate_Tool
rules:
  - id: has-owner
    type: script
    run: ./scripts/check-owner.sh
governs:
  - doc: docs/sop/handling-mandates.md
    rules: [has-owner]
  - doc: docs/architecture/mandate-parser.md
    rules: [no-such-rule, has-owner]
code:
  - path: src/domain/mandate.rs
    docs: [docs/architecture/mandate-parser.md]
"#;

const HANDLING_MANDATES_DUPLICATE_RULE: &str = r#"
name: Mandate_Tool
rules:
  - id: claims-match-code
    type: agent
    prompt: Confirm the document's claims match the linked code.
  - id: claims-match-code
    type: script
    run: ./scripts/check-claims.sh
governs:
  - doc: docs/sop/handling-mandates.md
    rules: [claims-match-code]
code:
  - path: src/main.rs
    docs: [docs/sop/handling-mandates.md]
"#;

const HANDLING_MANDATES_UNREFERENCED_RULE: &str = r#"
name: Mandate_Tool
rules:
  - id: has-owner
    type: script
    run: ./scripts/check-owner.sh
  - id: unused-rule
    type: script
    run: ./scripts/unused.sh
governs:
  - doc: docs/sop/handling-mandates.md
    rules: [has-owner]
code:
  - path: src/main.rs
    docs: [docs/sop/handling-mandates.md]
"#;

// ---------------------------------------------------------------------
// Fixture cases.
// ---------------------------------------------------------------------

#[test]
fn passes_when_every_linked_file_is_present() {
    let mandate = parse(TODO_APP);
    let vm = FakeVirtualMachine::with_every_file_in(&mandate);

    let lines = check(&mandate, &vm);

    assert_passes(lines);
}

#[test]
fn fails_when_only_the_case_differs() {
    let mandate = parse(HANDLING_MANDATES);
    let vm = FakeVirtualMachine::with_every_file_in(&mandate).rename(
        "docs/sop/handling-mandates.md",
        "docs/sop/Handling-Mandates.md",
    );

    let lines = check(&mandate, &vm);

    assert_fails(
        lines,
        &["governed document not found: docs/sop/handling-mandates.md"],
    );
}

#[test]
fn passes_with_the_exact_path() {
    let mandate = parse(HANDLING_MANDATES);
    let vm = FakeVirtualMachine::with_every_file_in(&mandate);

    let lines = check(&mandate, &vm);

    assert_passes(lines);
}

#[test]
fn fails_when_linked_source_files_are_missing() {
    let mandate = parse(TODO_APP);
    let vm = FakeVirtualMachine::with_every_file_in(&mandate)
        .remove("src/main.rs")
        .remove("tests/adding_a_task.rs");

    let lines = check(&mandate, &vm);

    assert_fails(
        lines,
        &[
            "missing source file: src/main.rs",
            "missing source file: tests/adding_a_task.rs",
        ],
    );
}

#[test]
fn fails_when_a_governed_doc_is_missing() {
    let mandate = parse(TODO_APP);
    let vm = FakeVirtualMachine::with_every_file_in(&mandate).remove("docs/sop/adding-a-task.md");

    let lines = check(&mandate, &vm);

    assert_fails(
        lines,
        &["governed document not found: docs/sop/adding-a-task.md"],
    );
}

#[test]
fn passes_once_the_doc_is_added_back() {
    let mandate = parse(TODO_APP);
    let vm = FakeVirtualMachine::with_every_file_in(&mandate)
        .remove("docs/sop/adding-a-task.md")
        .add("docs/sop/adding-a-task.md");

    let lines = check(&mandate, &vm);

    assert_passes(lines);
}

#[test]
fn fails_when_a_rule_id_is_duplicated() {
    let mandate = parse(TODO_APP_DUPLICATE_RULE);
    let vm = FakeVirtualMachine::with_every_file_in(&mandate);

    let lines = check(&mandate, &vm);

    assert_fails(lines, &["duplicate rule id 'claims-match-code'"]);
}

#[test]
fn fails_when_code_links_a_doc_this_mandate_does_not_govern() {
    let mandate = parse(TODO_APP_UNGOVERNED_DOC);
    let vm = FakeVirtualMachine::with_every_file_in(&mandate);

    let lines = check(&mandate, &vm);

    assert_fails(
        lines,
        &["code src/todo/task.rs links docs/architecture/other.md which this mandate does not govern"],
    );
}

#[test]
fn fails_when_a_document_references_an_undefined_rule() {
    let mandate = parse(TODO_APP_UNKNOWN_RULE);
    let vm = FakeVirtualMachine::with_every_file_in(&mandate);

    let lines = check(&mandate, &vm);

    assert_fails(
        lines,
        &["rule 'no-such-rule' is referenced by docs/architecture/mandate-parser.md but not defined"],
    );
}

#[test]
fn passes_with_a_warning_when_a_rule_is_unreferenced() {
    let mandate = parse(TODO_APP_UNREFERENCED_RULE);
    let vm = FakeVirtualMachine::with_every_file_in(&mandate);

    let lines = check(&mandate, &vm);

    assert_passes_with_warnings(
        lines,
        &["rule 'unused-rule' is defined but no document references it"],
    );
}

#[test]
fn passes_clean_once_the_rule_is_referenced() {
    let mut mandate = parse(TODO_APP_UNREFERENCED_RULE);
    mandate.governs[0].rules.push("unused-rule".to_string());
    let vm = FakeVirtualMachine::with_every_file_in(&mandate);

    let lines = check(&mandate, &vm);

    assert_passes(lines);
}

#[test]
fn wrong_case_path_fails() {
    let mandate = parse(HANDLING_MANDATES);
    let vm = FakeVirtualMachine::with_every_file_in(&mandate).rename(
        "docs/sop/handling-mandates.md",
        "docs/sop/Handling-Mandates.md",
    );

    let lines = check(&mandate, &vm);

    assert_fails(
        lines,
        &["governed document not found: docs/sop/handling-mandates.md"],
    );
}

#[test]
fn exact_lowercase_path_passes() {
    let mandate = parse(HANDLING_MANDATES);
    let vm = FakeVirtualMachine::with_every_file_in(&mandate);

    let lines = check(&mandate, &vm);

    assert_passes(lines);
}

#[test]
fn missing_code_files_fail() {
    let mandate = parse(HANDLING_MANDATES);
    let vm = FakeVirtualMachine::with_every_file_in(&mandate)
        .remove("src/main.rs")
        .remove("tests/validation_fixtures.rs");

    let lines = check(&mandate, &vm);

    assert_fails(
        lines,
        &[
            "missing source file: src/main.rs",
            "missing source file: tests/validation_fixtures.rs",
        ],
    );
}

#[test]
fn missing_governed_doc_fails() {
    let mandate = parse(HANDLING_MANDATES);
    let vm =
        FakeVirtualMachine::with_every_file_in(&mandate).remove("docs/sop/handling-mandates.md");

    let lines = check(&mandate, &vm);

    assert_fails(
        lines,
        &["governed document not found: docs/sop/handling-mandates.md"],
    );
}

#[test]
fn adding_the_file_back_passes() {
    let mandate = parse(HANDLING_MANDATES);
    let vm = FakeVirtualMachine::with_every_file_in(&mandate)
        .remove("docs/sop/handling-mandates.md")
        .add("docs/sop/handling-mandates.md");

    let lines = check(&mandate, &vm);

    assert_passes(lines);
}

#[test]
fn duplicate_rule_id_fails() {
    let mandate = parse(HANDLING_MANDATES_DUPLICATE_RULE);
    let repo = FakeVirtualMachine::with_every_file_in(&mandate);

    let lines = check(&mandate, &repo);

    assert_fails(lines, &["duplicate rule id 'claims-match-code'"]);
}

#[test]
fn no_rules_fails() {
    let mandate = parse(HANDLING_MANDATES_NO_RULES);
    let vm = FakeVirtualMachine::with_every_file_in(&mandate);

    let lines = check(&mandate, &vm);

    assert_fails(lines, &["no rules defined; a mandate needs at least one"]);
}

#[test]
fn code_linking_ungoverned_doc_fails() {
    let mandate = parse(HANDLING_MANDATES_UNGOVERNED_DOC);
    let vm = FakeVirtualMachine::with_every_file_in(&mandate);

    let lines = check(&mandate, &vm);

    assert_fails(
        lines,
        &["code src/domain/mandate.rs links docs/architecture/other.md which this mandate does not govern"],
    );
}

#[test]
fn unknown_rule_reference_fails() {
    let mandate = parse(HANDLING_MANDATES_UNKNOWN_RULE);
    let vm = FakeVirtualMachine::with_every_file_in(&mandate);

    let lines = check(&mandate, &vm);

    assert_fails(
        lines,
        &["rule 'no-such-rule' is referenced by docs/architecture/mandate-parser.md but not defined"],
    );
}

#[test]
fn unreferenced_rule_is_warning_not_error() {
    let mandate = parse(HANDLING_MANDATES_UNREFERENCED_RULE);
    let repo = FakeVirtualMachine::with_every_file_in(&mandate);

    let lines = check(&mandate, &repo);

    assert_passes_with_warnings(
        lines,
        &["rule 'unused-rule' is defined but no document references it"],
    );
}

#[test]
fn referencing_the_rule_removes_the_warning() {
    let mut mandate = parse(HANDLING_MANDATES_UNREFERENCED_RULE);
    mandate.governs[0].rules.push("unused-rule".to_string());
    let repo = FakeVirtualMachine::with_every_file_in(&mandate);

    let lines = check(&mandate, &repo);

    assert_passes(lines);
}

// ---------------------------------------------------------------------
// Runs.
// ---------------------------------------------------------------------

#[test]
fn two_mandates_run_and_one_is_invalid() {
    let mandate_a = parse(TODO_APP);
    let text_b = TODO_APP
        .replacen("name: Todo_App", "name: Todo_App_Two", 1)
        .replacen("src/todo/task.rs", "src/todo/only_in_b.rs", 1);

    let vm = FakeVirtualMachine::with_every_file_in(&mandate_a)
        .with_mandate("a.yaml", TODO_APP)
        .with_mandate("b.yaml", &text_b);

    let report = run(&vm, "/repo", &[]).unwrap();

    assert_eq!(report.mandates.len(), 2);
    assert!(!report.is_valid());
    assert_eq!(
        report.lines(),
        vec![
            "repository: /repo".to_string(),
            "snapshot: 30 entries".to_string(),
            String::new(),
            "a.yaml".to_string(),
            "  valid: 3 rules, 2 documents, 11 source files".to_string(),
            String::new(),
            "b.yaml".to_string(),
            "  error: missing source file: src/todo/only_in_b.rs".to_string(),
            "  invalid: 1 errors, 0 warnings".to_string(),
            String::new(),
            "2 mandates checked, 1 invalid".to_string(),
        ]
    );
}

#[test]
fn starts_below_root_and_finds_it_by_walking_up() {
    let mandate = parse(TODO_APP);
    let vm = FakeVirtualMachine::with_every_file_in(&mandate)
        .with_mandate("a.yaml", TODO_APP)
        .at_root("/repo");

    let report = run(&vm, "/repo/src", &[]).unwrap();

    match &report.location {
        RunLocation::Found { root, .. } => assert_eq!(root, "/repo"),
        other => panic!("expected Found, got {other:?}"),
    }
    assert_eq!(report.mandates.len(), 1);
    assert!(report.is_valid());
}

#[test]
fn selecting_one_name_runs_only_it() {
    let mandate_a = parse(TODO_APP);
    let text_b = TODO_APP.replacen("name: Todo_App", "name: Todo_App_Two", 1);

    let vm = FakeVirtualMachine::with_every_file_in(&mandate_a)
        .with_mandate("a.yaml", TODO_APP)
        .with_mandate("b.yaml", &text_b);

    let report = run(&vm, "/repo", &["b.yaml"]).unwrap();

    assert_eq!(report.mandates.len(), 1);
    assert_eq!(report.mandates[0].file_name, "b.yaml");
    assert!(report.is_valid());
}

#[test]
fn no_mandate_folder_anywhere_up_warns_and_reports_zero() {
    let vm = FakeVirtualMachine::empty();

    let report = run(&vm, "/elsewhere", &[]).unwrap();

    assert_eq!(
        report.location,
        RunLocation::NotFound {
            searched_from: "/elsewhere".to_string()
        }
    );
    assert_eq!(
        report.lines(),
        vec![
            "warning: no .mandate folder found from /elsewhere up to the \
             filesystem root"
                .to_string(),
            String::new(),
            "0 mandates checked, 0 invalid".to_string(),
        ]
    );
    assert!(report.is_valid());
}

#[test]
fn no_mandate_files_warns_and_reports_zero() {
    let vm = FakeVirtualMachine::empty().empty_mandate_folder();

    let report = run(&vm, "/repo", &[]).unwrap();

    assert_eq!(
        report.warnings,
        vec![RunWarning::NoMandatesFound {
            mandates_dir: "/repo/.mandate/mandates".to_string()
        }]
    );
    assert_eq!(report.mandates.len(), 0);
    assert!(report.is_valid());
}

#[test]
fn unknown_name_errors_and_lists_both_available() {
    let mandate_a = parse(TODO_APP);
    let text_b = TODO_APP.replacen("name: Todo_App", "name: Todo_App_Two", 1);

    let vm = FakeVirtualMachine::with_every_file_in(&mandate_a)
        .with_mandate("a.yaml", TODO_APP)
        .with_mandate("b.yaml", &text_b);

    let err = run(&vm, "/repo", &["missing.yaml"]).unwrap_err();

    match err {
        RunError::UnknownMandate { name, available } => {
            assert_eq!(name, "missing.yaml");
            assert_eq!(available, vec!["a.yaml".to_string(), "b.yaml".to_string()]);
        }
        other => panic!("expected UnknownMandate, got {other:?}"),
    }
}

#[test]
fn run_writes_the_report_to_out_and_returns_it() {
    let mandate = parse(TODO_APP);
    let vm = FakeVirtualMachine::with_every_file_in(&mandate).with_mandate("a.yaml", TODO_APP);

    let source = FsFileTreeSource::new(&vm);
    let store = FsMandateStore::new(&vm);
    let parser = YamlParser;
    let run_mandates = RunMandates::new(&source, &store, &parser);
    let invocation = Invocation {
        root: None,
        mandates: Vec::new(),
    };

    let mut out = Vec::new();
    let mut err = Vec::new();
    let report = cli::run(
        &invocation,
        Path::new("/repo"),
        &run_mandates,
        &mut out,
        &mut err,
    );

    let report = report.expect("expected a report");
    assert!(report.is_valid());
    assert!(err.is_empty(), "err: {:?}", String::from_utf8(err));

    assert_eq!(
        String::from_utf8(out).expect("utf8"),
        "repository: /repo\n\
         snapshot: 29 entries\n\
         \n\
         a.yaml\n\
         \x20 valid: 3 rules, 2 documents, 11 source files\n\
         \n\
         1 mandates checked, 0 invalid\n"
    );
}

#[test]
fn run_writes_an_unknown_mandate_error_to_err_and_returns_none() {
    let mandate = parse(TODO_APP);
    let vm = FakeVirtualMachine::with_every_file_in(&mandate).with_mandate("a.yaml", TODO_APP);

    let source = FsFileTreeSource::new(&vm);
    let store = FsMandateStore::new(&vm);
    let parser = YamlParser;
    let run_mandates = RunMandates::new(&source, &store, &parser);
    let invocation = Invocation {
        root: None,
        mandates: vec!["missing.yaml".to_string()],
    };

    let mut out = Vec::new();
    let mut err = Vec::new();
    let report = cli::run(
        &invocation,
        Path::new("/repo"),
        &run_mandates,
        &mut out,
        &mut err,
    );

    assert!(report.is_none());
    assert!(out.is_empty(), "out: {:?}", String::from_utf8(out));
    assert_eq!(
        String::from_utf8(err).expect("utf8"),
        "unknown mandate 'missing.yaml'; available mandates are: a.yaml\n"
    );
}

#[test]
fn run_returns_what_the_use_case_returns_over_the_same_ports() {
    let mandate = parse(TODO_APP);
    let vm = FakeVirtualMachine::with_every_file_in(&mandate).with_mandate("a.yaml", TODO_APP);

    let source = FsFileTreeSource::new(&vm);
    let store = FsMandateStore::new(&vm);
    let parser = YamlParser;
    let run_mandates = RunMandates::new(&source, &store, &parser);

    for selected in [Vec::new(), vec!["a.yaml".to_string()], vec!["missing.yaml".to_string()]] {
        let invocation = Invocation {
            root: None,
            mandates: selected.clone(),
        };
        let mut out = Vec::new();
        let mut err = Vec::new();
        let printed = cli::run(
            &invocation,
            Path::new("/repo/src"),
            &run_mandates,
            &mut out,
            &mut err,
        );
        let executed = run_mandates.execute(Path::new("/repo/src"), &selected);
        match (printed, executed) {
            (Some(a), Ok(b)) => {
                assert_eq!(a, b);
                let expected: String = b.lines().iter().map(|l| format!("{l}\n")).collect();
                assert_eq!(String::from_utf8(out).expect("utf8"), expected);
                assert!(err.is_empty());
            }
            (None, Err(e)) => {
                assert!(out.is_empty());
                assert_eq!(
                    String::from_utf8(err).expect("utf8"),
                    format!("{}\n", e.to_string())
                );
            }
            (printed, executed) => panic!("run gave {printed:?} but the use case gave {executed:?}"),
        }
    }
}

// ---------------------------------------------------------------------
// The fake itself.
// ---------------------------------------------------------------------

fn small_mandate() -> Mandate {
    parse(
        r#"
name: Test
rules:
  - id: has-owner
    type: script
    run: ./scripts/owner.sh
governs:
  - doc: docs/a.md
    rules: [has-owner]
code:
  - path: src/a.ts
    docs: [docs/a.md]
"#,
    )
}

#[test]
fn read_rejects_a_name_with_a_separator() {
    let vm = FakeVirtualMachine::empty();

    let err = vm.read(Path::new("/repo"), "../a.yaml").unwrap_err();

    assert_eq!(
        err,
        StoreError("invalid mandate file name: ../a.yaml".to_string())
    );
}

#[test]
fn support_with_every_file_in_makes_a_mandate_pass() {
    let mandate = small_mandate();
    let vm = FakeVirtualMachine::with_every_file_in(&mandate);

    let lines = check(&mandate, &vm);

    assert_passes(lines);
}

#[test]
#[should_panic(expected = "is not present")]
fn support_remove_of_a_missing_path_panics_naming_the_path() {
    FakeVirtualMachine::empty().remove("docs/does-not-exist.md");
}

#[test]
fn support_rename_moves_the_path() {
    let vm = FakeVirtualMachine::empty()
        .add("docs/a.md")
        .rename("docs/a.md", "docs/b.md");

    assert!(!vm.snapshot().path_exists("docs/a.md"));
    assert!(vm.snapshot().path_exists("docs/b.md"));
}

/// A set of repository-relative paths answering [`FileTree`] questions.
struct PathSet {
    paths: std::collections::HashSet<String>,
}

impl PathSet {
    fn empty() -> Self {
        Self {
            paths: Default::default(),
        }
    }

    fn with_every_file_in(mandate: &Mandate) -> Self {
        let mut set = Self::empty();
        for governed in &mandate.governs {
            set = set.add(&governed.doc);
        }
        for code in &mandate.code {
            set = set.add(&code.path);
        }
        set
    }

    fn add(mut self, path: &str) -> Self {
        self.paths.insert(path.to_string());
        self
    }

    fn remove(mut self, path: &str) -> Self {
        if !self.paths.remove(path) {
            panic!("PathSet::remove: '{path}' is not present");
        }
        self
    }

    fn rename(self, from: &str, to: &str) -> Self {
        self.remove(from).add(to)
    }
}

impl FileTree for PathSet {
    // Any answer this tree gives is one it may give.
    fn has(&self, _repo_relative_path: &str, _r: bool) -> bool {
        true
    }

    fn path_exists(&self, repo_relative_path: &str) -> bool {
        self.paths.contains(repo_relative_path)
    }
}

fn check_tree(mandate: &Mandate, tree: &PathSet) -> Vec<String> {
    let mut snapshot = FileTreeSnapshot::empty();
    for path in &tree.paths {
        snapshot.insert(path, EntryKind::File);
    }
    validate(mandate, &snapshot).lines()
}

#[test]
fn mod_with_every_file_in_makes_a_mandate_pass() {
    let mandate = small_mandate();
    let vm = PathSet::with_every_file_in(&mandate);

    let lines = check_tree(&mandate, &vm);

    assert_passes(lines);
}

#[test]
#[should_panic(expected = "is not present")]
fn mod_remove_of_a_missing_path_panics_naming_the_path() {
    PathSet::empty().remove("docs/does-not-exist.md");
}

#[test]
fn mod_rename_moves_the_path() {
    let vm = PathSet::empty().add("docs/a.md").rename("docs/a.md", "docs/b.md");

    assert!(!vm.path_exists("docs/a.md"));
    assert!(vm.path_exists("docs/b.md"));
}

// ---------------------------------------------------------------------
// The single-mandate command.
// ---------------------------------------------------------------------

const MINIMAL_MANDATE: &str = r#"
name: Minimal
rules:
  - id: has-owner
    type: script
    run: ./scripts/owner.sh
governs:
  - doc: docs/a.md
    rules:
      - has-owner
code:
  - path: src/a.ts
    docs:
      - docs/a.md
"#;

fn args(strs: &[&str]) -> Vec<String> {
    strs.iter().map(|s| s.to_string()).collect()
}

#[test]
fn parse_args_with_no_args_is_usage_error() {
    let result = parse_args(&args(&[]));

    let err = result.expect_err("expected an error");
    assert!(err.contains("usage:"), "got: {err}");
}

#[test]
fn parse_args_with_wrong_command_is_unknown_command_error() {
    let result = parse_args(&args(&["bogus", "mandate.yaml"]));

    let err = result.expect_err("expected an error");
    assert!(err.contains("unknown command"), "got: {err}");
}

#[test]
fn parse_args_without_root_is_usage_error() {
    let result = parse_args(&args(&["validate", "mandate.yaml"]));

    let err = result.expect_err("expected an error");
    assert!(err.contains("usage:"), "got: {err}");
}

#[test]
fn parse_args_with_validate_and_root_succeeds() {
    let result = parse_args(&args(&["validate", "mandate.yaml", "--root", "."]));

    let invocation = result.expect("expected success");
    assert_eq!(invocation.mandate_path, "mandate.yaml");
    assert_eq!(invocation.root, ".");
}

#[test]
fn execute_with_valid_mandate_and_all_files_present_returns_zero_and_prints_summary() {
    let tree = InMemoryFileTree::new(vec!["docs/a.md".to_string(), "src/a.ts".to_string()]);
    let mut out = Vec::new();
    let mut err = Vec::new();

    let code = execute(
        "mandate.yaml",
        parse_mandate(MINIMAL_MANDATE),
        &tree,
        &mut out,
        &mut err,
    );

    assert_eq!(code, 0);
    let out = String::from_utf8(out).expect("utf8 stdout");
    assert!(
        out.contains("is valid: 1 rules, 1 documents, 1 source files"),
        "out: {out}"
    );
    assert!(err.is_empty(), "err: {}", String::from_utf8_lossy(&err));
}

#[test]
fn execute_with_missing_files_returns_one_and_lists_errors() {
    let tree = InMemoryFileTree::new(Vec::new());
    let mut out = Vec::new();
    let mut err = Vec::new();

    let code = execute(
        "mandate.yaml",
        parse_mandate(MINIMAL_MANDATE),
        &tree,
        &mut out,
        &mut err,
    );

    assert_eq!(code, 1);
    let out = String::from_utf8(out).expect("utf8 stdout");
    assert!(out.contains("governed document not found:"), "out: {out}");
    assert!(out.contains("missing source file:"), "out: {out}");
}

#[test]
fn execute_with_unparseable_mandate_returns_one_and_prints_parse_error() {
    let yaml = r#"
name: Bad
rules:
  - id: has-owner
    type: script
    run: ./scripts/owner.sh
governs: []
code: []
bogus_top_level_field: true
"#;
    let tree = InMemoryFileTree::new(Vec::new());
    let mut out = Vec::new();
    let mut err = Vec::new();

    let code = execute("mandate.yaml", parse_mandate(yaml), &tree, &mut out, &mut err);

    assert_eq!(code, 1);
    let err = String::from_utf8(err).expect("utf8 stderr");
    assert!(err.contains("failed to parse"), "err: {err}");
    assert!(out.is_empty(), "out: {}", String::from_utf8_lossy(&out));
}

#[test]
fn execute_prints_exact_lines() {
    let tree = InMemoryFileTree::new(vec!["docs/a.md".to_string(), "src/a.ts".to_string()]);
    let mut out = Vec::new();
    let mut err = Vec::new();
    let code = execute("m.yaml", parse_mandate(MINIMAL_MANDATE), &tree, &mut out, &mut err);
    assert_eq!(code, 0);
    assert_eq!(
        String::from_utf8(out).unwrap(),
        "mandate 'Minimal' is valid: 1 rules, 1 documents, 1 source files\n"
    );

    let tree = InMemoryFileTree::new(vec!["src/a.ts".to_string()]);
    let mut out = Vec::new();
    let code = execute("m.yaml", parse_mandate(MINIMAL_MANDATE), &tree, &mut out, &mut err);
    assert_eq!(code, 1);
    assert_eq!(
        String::from_utf8(out).unwrap(),
        "error: governed document not found: docs/a.md\n"
    );

    let failure = Err(MandateParseError::InvalidRule {
        id: "r".to_string(),
        reason: "type: agent requires 'prompt'".to_string(),
    });
    let mut out = Vec::new();
    let code = execute("m.yaml", failure, &tree, &mut out, &mut err);
    assert_eq!(code, 1);
    assert!(out.is_empty());
    assert_eq!(
        String::from_utf8(err).unwrap(),
        "failed to parse 'm.yaml': rule 'r': type: agent requires 'prompt'\n"
    );
}

#[test]
fn the_validate_command_explains_bad_arguments_exactly() {
    assert_eq!(
        parse_args(&args(&["check", "m.yaml"])).unwrap_err(),
        "unknown command 'check'; expected 'validate'"
    );
    assert_eq!(
        parse_args(&args(&["validate", "m.yaml", "--base", "."])).unwrap_err(),
        "usage: mandate validate <mandate-file> --root <dir>"
    );
    let ok = parse_args(&args(&["validate", "m.yaml", "--root", "/r", "extra"])).unwrap();
    assert_eq!((ok.mandate_path.as_str(), ok.root.as_str()), ("m.yaml", "/r"));
}

// ---------------------------------------------------------------------
// Reading mandate documents.
// ---------------------------------------------------------------------

#[test]
fn a_full_mandate_reads_into_every_field() {
    let mandate = parse(TODO_APP);
    assert_eq!(mandate.name, "Todo_App");
    assert_eq!(
        mandate.description.as_deref(),
        Some("Keeps the todo app's task documentation honest.")
    );
    assert_eq!(mandate.rules.len(), 3);
    assert_eq!(mandate.rules[0].description.as_deref(), Some("The document names an owner."));
    assert_eq!(mandate.governs.len(), 2);
    assert_eq!(mandate.code.len(), 11);
    assert_eq!(
        mandate.code[1].docs,
        vec![
            "docs/sop/adding-a-task.md".to_string(),
            "docs/sop/todo/completing-a-task.md".to_string()
        ]
    );
}

#[test]
fn an_unknown_field_is_malformed() {
    let err = parse_mandate("name: X\nrules: []\ngovernes: []\ncode: []\n").unwrap_err();
    assert!(matches!(err, MandateParseError::Malformed(ref m) if m.contains("governes")));
}

#[test]
fn a_rule_not_matching_its_type_is_an_invalid_rule() {
    let yaml = "name: X\nrules:\n  - id: a\n    type: script\n  - id: b\n    type: bogus\ngoverns: []\ncode: []\n";
    assert_eq!(
        parse_mandate(yaml),
        Err(MandateParseError::InvalidRule {
            id: "a".to_string(),
            reason: "type: script requires 'run'".to_string()
        })
    );
}

// ---------------------------------------------------------------------
// The filesystem adapters over the fake.
// ---------------------------------------------------------------------

#[test]
fn the_walked_snapshot_equals_the_fake_snapshot() {
    let mandate = parse(TODO_APP);
    let vm = FakeVirtualMachine::with_every_file_in(&mandate).with_mandate("a.yaml", TODO_APP);
    let source = FsFileTreeSource::new(&vm);

    let walked = source.snapshot(Path::new("/repo")).unwrap();

    assert_eq!(walked.paths(), vm.snapshot().paths());
    assert_eq!(walked.len(), 29);
    assert!(walked.is_dir("src/infra/storage/json"));
    assert!(walked.is_file("src/infra/storage/json/file_store.rs"));
    assert_eq!(source.has_directory(Path::new("/repo"), ".mandate"), Ok(true));
    assert_eq!(source.has_directory(Path::new("/repo"), "docs/sop/adding-a-task.md"), Ok(false));
}

#[test]
fn an_unlistable_root_is_a_source_error() {
    let vm = FakeVirtualMachine::empty();
    let source = FsFileTreeSource::new(&vm);

    assert_eq!(
        source.snapshot(Path::new("/elsewhere")),
        Err(SourceError("/elsewhere: not found".to_string()))
    );
}

#[test]
fn the_store_lists_only_yaml_files_sorted_and_reads_by_bare_name() {
    let vm = FakeVirtualMachine::empty()
        .with_mandate("b.yaml", "text-b")
        .with_mandate("a.yaml", "text-a")
        .add(".mandate/mandates/notes.txt")
        .add(".mandate/mandates/.yaml");
    let store = FsMandateStore::new(&vm);

    assert_eq!(
        store.list(Path::new("/repo")).unwrap(),
        vec!["a.yaml".to_string(), "b.yaml".to_string()]
    );
    assert_eq!(
        store.read(Path::new("/repo"), "a.yaml").unwrap(),
        MandateFile {
            file_name: "a.yaml".to_string(),
            text: "text-a".to_string()
        }
    );
    assert_eq!(
        store.read(Path::new("/repo"), "x\\a.yaml"),
        Err(StoreError("invalid mandate file name: x\\a.yaml".to_string()))
    );
    assert_eq!(
        store.read(Path::new("/repo"), "c.yaml"),
        Err(StoreError("/repo/.mandate/mandates/c.yaml: not found".to_string()))
    );
    assert_eq!(
        FsMandateStore::new(&FakeVirtualMachine::empty()).list(Path::new("/repo")),
        Ok(Vec::new())
    );
}

// ---------------------------------------------------------------------
// Reading mandate YAML, case by case.
// ---------------------------------------------------------------------

#[test]
fn parses_a_full_valid_mandate_into_every_field() {
    let yaml = r#"
name: Todo App Mandate
description: Keeps the todo app's docs honest.
rules:
  - id: has-owner
    type: script
    description: Checks the doc names an owner.
    run: ./scripts/check-owner.sh
  - id: claims-match-code
    type: agent
    prompt: Confirm the doc's claims match the linked code.
governs:
  - doc: docs/sop/todo-api.md
    rules:
      - has-owner
      - claims-match-code
  - doc: docs/sop/todo-ui.md
    rules:
      - has-owner
code:
  - path: src/api/todo.rs
    docs:
      - docs/sop/todo-api.md
  - path: src/ui/todo_list.rs
    docs:
      - docs/sop/todo-ui.md
"#;

    let result = parse_mandate(yaml);

    let expected = Mandate {
        name: "Todo App Mandate".to_string(),
        description: Some("Keeps the todo app's docs honest.".to_string()),
        rules: vec![
            Rule {
                id: "has-owner".to_string(),
                description: Some("Checks the doc names an owner.".to_string()),
                kind: RuleKind::Script {
                    run: "./scripts/check-owner.sh".to_string(),
                },
            },
            Rule {
                id: "claims-match-code".to_string(),
                description: None,
                kind: RuleKind::Agent {
                    prompt: "Confirm the doc's claims match the linked code.".to_string(),
                },
            },
        ],
        governs: vec![
            GovernedDoc {
                doc: "docs/sop/todo-api.md".to_string(),
                rules: vec!["has-owner".to_string(), "claims-match-code".to_string()],
            },
            GovernedDoc {
                doc: "docs/sop/todo-ui.md".to_string(),
                rules: vec!["has-owner".to_string()],
            },
        ],
        code: vec![
            CodeLink {
                path: "src/api/todo.rs".to_string(),
                docs: vec!["docs/sop/todo-api.md".to_string()],
            },
            CodeLink {
                path: "src/ui/todo_list.rs".to_string(),
                docs: vec!["docs/sop/todo-ui.md".to_string()],
            },
        ],
    };

    assert_eq!(result, Ok(expected));
}

#[test]
fn yaml_mandate_parser_parse_missing_name_is_error() {
    let yaml = r#"
rules:
  - id: has-owner
    type: script
    run: ./scripts/owner.sh
governs: []
code: []
"#;

    let result = parse_mandate(yaml);

    assert!(
        matches!(result, Err(MandateParseError::Malformed(_))),
        "expected MandateParseError::Malformed, got {result:?}"
    );
}

#[test]
fn yaml_mandate_parser_parse_unknown_top_level_field_is_error() {
    let yaml = r#"
name: X
rules:
  - id: has-owner
    type: script
    run: ./scripts/owner.sh
governes: []
code: []
"#;

    let result = parse_mandate(yaml);

    assert!(
        matches!(result, Err(MandateParseError::Malformed(_))),
        "expected MandateParseError::Malformed, got {result:?}"
    );
    let message = result.unwrap_err().to_string();
    assert!(
        message.contains("governes"),
        "expected the error to name the offending field 'governes', got: {message}"
    );
}

#[test]
fn yaml_mandate_parser_parse_unknown_rule_field_is_error() {
    let yaml = r#"
name: X
rules:
  - id: has-owner
    type: script
    run: ./scripts/owner.sh
    bogus: true
governs: []
code: []
"#;

    let result = parse_mandate(yaml);

    assert!(
        matches!(result, Err(MandateParseError::Malformed(_))),
        "expected MandateParseError::Malformed, got {result:?}"
    );
    let message = result.unwrap_err().to_string();
    assert!(
        message.contains("bogus"),
        "expected the error to name the offending field 'bogus', got: {message}"
    );
}

#[test]
fn yaml_mandate_parser_parse_script_rule_without_run_is_error() {
    let yaml = r#"
name: X
rules:
  - id: has-owner
    type: script
governs: []
code: []
"#;

    let result = parse_mandate(yaml);

    assert!(
        matches!(result, Err(MandateParseError::InvalidRule { ref id, .. }) if id == "has-owner"),
        "expected MandateParseError::InvalidRule for 'has-owner', got {result:?}"
    );
}

#[test]
fn yaml_mandate_parser_parse_agent_rule_without_prompt_is_error() {
    let yaml = r#"
name: X
rules:
  - id: claims-match-code
    type: agent
governs: []
code: []
"#;

    let result = parse_mandate(yaml);

    assert!(
        matches!(result, Err(MandateParseError::InvalidRule { ref id, .. }) if id == "claims-match-code"),
        "expected MandateParseError::InvalidRule for 'claims-match-code', got {result:?}"
    );
}
