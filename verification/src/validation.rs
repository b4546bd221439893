//! Validates a parsed [`Mandate`] against a [`FileTreeSnapshot`], reporting
//! every problem found rather than stopping at the first.

use vstd::prelude::*;

use crate::file_tree::{
    lemma_with_files_records_files, linked_paths, with_files, EntryKind, FileTreeSnapshot,
};
use crate::mandate::{CodeLink, GovernedDoc, Mandate, Rule};
use crate::text::{concat2, concat3, concat5, texts};

verus! {

/// A problem that makes a mandate invalid.
#[derive(Debug, Clone, PartialEq, Eq)]
pub enum ValidationError {
    NoRules,
    DuplicateRuleId { id: String },
    UnknownRule { doc: String, rule: String },
    CodeLinksUngovernedDoc { path: String, doc: String },
    DocMissing { doc: String },
    CodeMissing { path: String },
}

/// A finding worth reporting that does not make a mandate invalid.
#[derive(Debug, Clone, PartialEq, Eq)]
pub enum ValidationWarning {
    UnreferencedRule { id: String },
}

/// Every finding from validating one mandate, with counts from the mandate
/// that was checked, so a caller can render a "valid: N rules, N documents,
/// N source files" summary without holding onto the mandate itself.
#[derive(Debug, Clone, PartialEq, Eq)]
pub struct ValidationReport {
    pub errors: Vec<ValidationError>,
    pub warnings: Vec<ValidationWarning>,
    pub rule_count: usize,
    pub doc_count: usize,
    pub code_count: usize,
}

// ---------------------------------------------------------------------
// The meaning of a validation, as mathematics.
// ---------------------------------------------------------------------

/// The ids of `rules`, in order.
pub open spec fn rule_ids(rules: Seq<Rule>) -> Seq<Seq<char>> {
    rules.map_values(|r: Rule| r.id@)
}

/// The documents `governs` names, in order.
pub open spec fn governed_docs(governs: Seq<GovernedDoc>) -> Seq<Seq<char>> {
    governs.map_values(|g: GovernedDoc| g.doc@)
}

/// `path` is recorded as a file in `tree`.
pub open spec fn is_file_in(tree: Map<Seq<char>, EntryKind>, path: Seq<char>) -> bool {
    tree.dom().contains(path) && tree[path] == EntryKind::File
}

/// `NoRules` when the mandate defines no rule at all.
pub open spec fn no_rules_errors(rules: Seq<Rule>) -> Seq<ValidationError> {
    if rules.len() == 0 {
        seq![ValidationError::NoRules]
    } else {
        seq![]
    }
}

/// One `DuplicateRuleId` for each rule whose id an earlier rule already has.
pub open spec fn duplicate_errors(rules: Seq<Rule>) -> Seq<ValidationError>
    decreases rules.len(),
{
    if rules.len() == 0 {
        seq![]
    } else {
        duplicate_errors(rules.drop_last()) + if rule_ids(rules.drop_last()).contains(
            rules.last().id@,
        ) {
            seq![ValidationError::DuplicateRuleId { id: rules.last().id }]
        } else {
            seq![]
        }
    }
}

/// One `UnknownRule` for each id in `refs` that no rule defines.
pub open spec fn unknown_rule_errors(known: Seq<Seq<char>>, doc: String, refs: Seq<String>) -> Seq<
    ValidationError,
>
    decreases refs.len(),
{
    if refs.len() == 0 {
        seq![]
    } else {
        unknown_rule_errors(known, doc, refs.drop_last()) + if known.contains(refs.last()@) {
            seq![]
        } else {
            seq![ValidationError::UnknownRule { doc: doc, rule: refs.last() }]
        }
    }
}

/// For each governed document in order: `DocMissing` if it is not a file in
/// `tree`, then its references to undefined rules.
pub open spec fn governs_errors(
    known: Seq<Seq<char>>,
    tree: Map<Seq<char>, EntryKind>,
    governs: Seq<GovernedDoc>,
) -> Seq<ValidationError>
    decreases governs.len(),
{
    if governs.len() == 0 {
        seq![]
    } else {
        let g = governs.last();
        governs_errors(known, tree, governs.drop_last()) + (if is_file_in(tree, g.doc@) {
            seq![]
        } else {
            seq![ValidationError::DocMissing { doc: g.doc }]
        }) + unknown_rule_errors(known, g.doc, g.rules@)
    }
}

/// One `CodeLinksUngovernedDoc` for each of `docs` the mandate does not govern.
pub open spec fn ungoverned_errors(governed: Seq<Seq<char>>, path: String, docs: Seq<String>) -> Seq<
    ValidationError,
>
    decreases docs.len(),
{
    if docs.len() == 0 {
        seq![]
    } else {
        ungoverned_errors(governed, path, docs.drop_last()) + if governed.contains(docs.last()@) {
            seq![]
        } else {
            seq![ValidationError::CodeLinksUngovernedDoc { path: path, doc: docs.last() }]
        }
    }
}

/// For each code link in order: `CodeMissing` if its path is not a file in
/// `tree`, then its links to documents the mandate does not govern.
pub open spec fn code_errors(
    governed: Seq<Seq<char>>,
    tree: Map<Seq<char>, EntryKind>,
    code: Seq<CodeLink>,
) -> Seq<ValidationError>
    decreases code.len(),
{
    if code.len() == 0 {
        seq![]
    } else {
        let c = code.last();
        code_errors(governed, tree, code.drop_last()) + (if is_file_in(tree, c.path@) {
            seq![]
        } else {
            seq![ValidationError::CodeMissing { path: c.path }]
        }) + ungoverned_errors(governed, c.path, c.docs@)
    }
}

/// Some governed document lists `id` among its rules.
pub open spec fn is_referenced(governs: Seq<GovernedDoc>, id: Seq<char>) -> bool {
    exists|i: int, j: int|
        0 <= i < governs.len() && 0 <= j < governs[i].rules@.len() && (#[trigger] governs[i].rules@[j])@
            == id
}

/// One `UnreferencedRule` for each rule, in order, that no governed
/// document lists.
pub open spec fn unreferenced_warnings(governs: Seq<GovernedDoc>, rules: Seq<Rule>) -> Seq<
    ValidationWarning,
>
    decreases rules.len(),
{
    if rules.len() == 0 {
        seq![]
    } else {
        unreferenced_warnings(governs, rules.drop_last()) + if is_referenced(governs, rules.last().id@) {
            seq![]
        } else {
            seq![ValidationWarning::UnreferencedRule { id: rules.last().id }]
        }
    }
}

/// Every error validating `m` against `tree` finds, in the order found.
pub open spec fn validation_errors(m: Mandate, tree: Map<Seq<char>, EntryKind>) -> Seq<ValidationError> {
    no_rules_errors(m.rules@) + duplicate_errors(m.rules@) + governs_errors(
        rule_ids(m.rules@),
        tree,
        m.governs@,
    ) + code_errors(governed_docs(m.governs@), tree, m.code@)
}

/// Every warning validating `m` finds, in the order found.
pub open spec fn validation_warnings(m: Mandate) -> Seq<ValidationWarning> {
    unreferenced_warnings(m.governs@, m.rules@)
}

// ---------------------------------------------------------------------
// Searching.
// ---------------------------------------------------------------------

/// Whether one of the first `upto` rules has the id `id`.
fn has_rule_id(rules: &Vec<Rule>, id: &String, upto: usize) -> (r: bool)
    requires
        upto <= rules@.len(),
    ensures
        r == rule_ids(rules@.take(upto as int)).contains(id@),
{
    let ghost ids = rule_ids(rules@.take(upto as int));
    let mut i: usize = 0;
    while i < upto
        invariant
            upto <= rules@.len(),
            ids == rule_ids(rules@.take(upto as int)),
            i <= upto,
            forall|j: int| 0 <= j < i ==> ids[j] != id@,
        decreases upto - i,
    {
        if rules[i].id == *id {
            assert(ids[i as int] == id@);
            return true;
        }
        i = i + 1;
    }
    false
}

/// Whether `doc` is among the documents of `governs`.
fn is_governed(governs: &Vec<GovernedDoc>, doc: &String) -> (r: bool)
    ensures
        r == governed_docs(governs@).contains(doc@),
{
    let ghost docs = governed_docs(governs@);
    let mut i: usize = 0;
    while i < governs.len()
        invariant
            docs == governed_docs(governs@),
            i <= governs@.len(),
            forall|j: int| 0 <= j < i ==> docs[j] != doc@,
        decreases governs.len() - i,
    {
        if governs[i].doc == *doc {
            assert(docs[i as int] == doc@);
            return true;
        }
        i = i + 1;
    }
    false
}

/// Whether some governed document lists `id` among its rules.
fn referenced(governs: &Vec<GovernedDoc>, id: &String) -> (r: bool)
    ensures
        r == is_referenced(governs@, id@),
{
    let mut i: usize = 0;
    while i < governs.len()
        invariant
            i <= governs@.len(),
            forall|a: int, b: int|
                0 <= a < i && 0 <= b < governs@[a].rules@.len() ==> (#[trigger] governs@[a].rules@[b])@
                    != id@,
        decreases governs.len() - i,
    {
        let refs = &governs[i].rules;
        let mut j: usize = 0;
        while j < refs.len()
            invariant
                refs == governs@[i as int].rules,
                i < governs@.len(),
                j <= refs@.len(),
                forall|b: int| 0 <= b < j ==> (#[trigger] refs@[b])@ != id@,
            decreases refs.len() - j,
        {
            if refs[j] == *id {
                assert(governs@[i as int].rules@[j as int]@ == id@);
                return true;
            }
            j = j + 1;
        }
        i = i + 1;
    }
    false
}

/// Checks a mandate against a snapshot of the repository and reports every
/// problem: a missing rule set, duplicate rule ids, governed documents that
/// are not files, references to undefined rules, source files that are not
/// files, links to documents the mandate does not govern, and (as warnings)
/// rules no document references.
pub fn validate(mandate: &Mandate, snapshot: &FileTreeSnapshot) -> (report: ValidationReport)
    ensures
        report.errors@ == validation_errors(*mandate, snapshot@),
        report.warnings@ == validation_warnings(*mandate),
        report.rule_count == mandate.rules@.len(),
        report.doc_count == mandate.governs@.len(),
        report.code_count == mandate.code@.len(),
{
    let ghost tree = snapshot@;
    let ghost known = rule_ids(mandate.rules@);
    let ghost governed = governed_docs(mandate.governs@);
    let mut errors: Vec<ValidationError> = Vec::new();
    let mut warnings: Vec<ValidationWarning> = Vec::new();

    if mandate.rules.len() == 0 {
        errors.push(ValidationError::NoRules);
    }
    let ghost base = errors@;
    assert(base == no_rules_errors(mandate.rules@));

    // Duplicate rule ids.
    let mut i: usize = 0;
    assert(mandate.rules@.take(0) =~= Seq::<Rule>::empty());
    while i < mandate.rules.len()
        invariant
            i <= mandate.rules@.len(),
            base == no_rules_errors(mandate.rules@),
            errors@ == base + duplicate_errors(mandate.rules@.take(i as int)),
        decreases mandate.rules.len() - i,
    {
        let id = &mandate.rules[i].id;
        let ghost prefix = mandate.rules@.take(i as int);
        assert(mandate.rules@.take(i + 1).drop_last() =~= prefix);
        assert(mandate.rules@.take(i + 1).last() == mandate.rules@[i as int]);
        if has_rule_id(&mandate.rules, id, i) {
            errors.push(ValidationError::DuplicateRuleId { id: id.clone() });
        }
        i = i + 1;
    }
    assert(mandate.rules@.take(mandate.rules@.len() as int) =~= mandate.rules@);
    let ghost base2 = errors@;

    // Governed documents: presence, then rule references.
    let n_rules = mandate.rules.len();
    let mut g: usize = 0;
    assert(mandate.governs@.take(0) =~= Seq::<GovernedDoc>::empty());
    while g < mandate.governs.len()
        invariant
            g <= mandate.governs@.len(),
            n_rules == mandate.rules@.len(),
            tree == snapshot@,
            known == rule_ids(mandate.rules@),
            errors@ == base2 + governs_errors(known, tree, mandate.governs@.take(g as int)),
        decreases mandate.governs.len() - g,
    {
        let governed_doc = &mandate.governs[g];
        assert(mandate.governs@.take(g + 1).drop_last() =~= mandate.governs@.take(g as int));
        assert(mandate.governs@.take(g + 1).last() == mandate.governs@[g as int]);
        let ghost before = errors@;
        if !snapshot.is_file(governed_doc.doc.as_str()) {
            errors.push(ValidationError::DocMissing { doc: governed_doc.doc.clone() });
        }
        let ghost mid = errors@;
        let mut r: usize = 0;
        assert(governed_doc.rules@.take(0) =~= Seq::<String>::empty());
        while r < governed_doc.rules.len()
            invariant
                r <= governed_doc.rules@.len(),
                n_rules == mandate.rules@.len(),
                known == rule_ids(mandate.rules@),
                errors@ == mid + unknown_rule_errors(
                    known,
                    governed_doc.doc,
                    governed_doc.rules@.take(r as int),
                ),
            decreases governed_doc.rules.len() - r,
        {
            let rule_id = &governed_doc.rules[r];
            assert(governed_doc.rules@.take(r + 1).drop_last() =~= governed_doc.rules@.take(r as int));
            assert(governed_doc.rules@.take(r + 1).last() == governed_doc.rules@[r as int]);
            assert(mandate.rules@.take(n_rules as int) =~= mandate.rules@);
            if !has_rule_id(&mandate.rules, rule_id, n_rules) {
                errors.push(
                    ValidationError::UnknownRule { doc: governed_doc.doc.clone(), rule: rule_id.clone() },
                );
            }
            r = r + 1;
        }
        assert(governed_doc.rules@.take(governed_doc.rules@.len() as int) =~= governed_doc.rules@);
        g = g + 1;
    }
    assert(mandate.governs@.take(mandate.governs@.len() as int) =~= mandate.governs@);
    let ghost base3 = errors@;

    // Code links: presence, then links to governed documents.
    let mut c: usize = 0;
    assert(mandate.code@.take(0) =~= Seq::<CodeLink>::empty());
    while c < mandate.code.len()
        invariant
            c <= mandate.code@.len(),
            tree == snapshot@,
            governed == governed_docs(mandate.governs@),
            errors@ == base3 + code_errors(governed, tree, mandate.code@.take(c as int)),
        decreases mandate.code.len() - c,
    {
        let link = &mandate.code[c];
        assert(mandate.code@.take(c + 1).drop_last() =~= mandate.code@.take(c as int));
        assert(mandate.code@.take(c + 1).last() == mandate.code@[c as int]);
        if !snapshot.is_file(link.path.as_str()) {
            errors.push(ValidationError::CodeMissing { path: link.path.clone() });
        }
        let ghost mid = errors@;
        let mut d: usize = 0;
        assert(link.docs@.take(0) =~= Seq::<String>::empty());
        while d < link.docs.len()
            invariant
                d <= link.docs@.len(),
                governed == governed_docs(mandate.governs@),
                errors@ == mid + ungoverned_errors(governed, link.path, link.docs@.take(d as int)),
            decreases link.docs.len() - d,
        {
            let doc = &link.docs[d];
            assert(link.docs@.take(d + 1).drop_last() =~= link.docs@.take(d as int));
            assert(link.docs@.take(d + 1).last() == link.docs@[d as int]);
            if !is_governed(&mandate.governs, doc) {
                errors.push(
                    ValidationError::CodeLinksUngovernedDoc { path: link.path.clone(), doc: doc.clone() },
                );
            }
            d = d + 1;
        }
        assert(link.docs@.take(link.docs@.len() as int) =~= link.docs@);
        c = c + 1;
    }
    assert(mandate.code@.take(mandate.code@.len() as int) =~= mandate.code@);

    // Rules no governed document references.
    let mut w: usize = 0;
    assert(mandate.rules@.take(0) =~= Seq::<Rule>::empty());
    while w < mandate.rules.len()
        invariant
            w <= mandate.rules@.len(),
            warnings@ == unreferenced_warnings(mandate.governs@, mandate.rules@.take(w as int)),
        decreases mandate.rules.len() - w,
    {
        let id = &mandate.rules[w].id;
        assert(mandate.rules@.take(w + 1).drop_last() =~= mandate.rules@.take(w as int));
        assert(mandate.rules@.take(w + 1).last() == mandate.rules@[w as int]);
        if !referenced(&mandate.governs, id) {
            warnings.push(ValidationWarning::UnreferencedRule { id: id.clone() });
        }
        w = w + 1;
    }
    assert(mandate.rules@.take(mandate.rules@.len() as int) =~= mandate.rules@);

    ValidationReport {
        errors,
        warnings,
        rule_count: mandate.rules.len(),
        doc_count: mandate.governs.len(),
        code_count: mandate.code.len(),
    }
}

// ---------------------------------------------------------------------
// Rendering.
// ---------------------------------------------------------------------

/// How an error reads, as a sentence.
pub open spec fn error_text(e: ValidationError) -> Seq<char> {
    match e {
        ValidationError::NoRules => "no rules defined; a mandate needs at least one"@,
        ValidationError::DuplicateRuleId { id } => "duplicate rule id '"@ + id@ + "'"@,
        ValidationError::UnknownRule { doc, rule } => "rule '"@ + rule@ + "' is referenced by "@
            + doc@ + " but not defined"@,
        ValidationError::CodeLinksUngovernedDoc { path, doc } => "code "@ + path@ + " links "@
            + doc@ + " which this mandate does not govern"@,
        ValidationError::DocMissing { doc } => "governed document not found: "@ + doc@,
        ValidationError::CodeMissing { path } => "missing source file: "@ + path@,
    }
}

/// How a warning reads, as a sentence.
pub open spec fn warning_text(w: ValidationWarning) -> Seq<char> {
    match w {
        ValidationWarning::UnreferencedRule { id } => "rule '"@ + id@
            + "' is defined but no document references it"@,
    }
}

/// The report as lines: each error prefixed `error: `, in validator order,
/// then each warning prefixed `warning: `.
pub open spec fn report_text_lines(errors: Seq<ValidationError>, warnings: Seq<ValidationWarning>) -> Seq<
    Seq<char>,
> {
    errors.map_values(|e: ValidationError| "error: "@ + error_text(e)) + warnings.map_values(
        |w: ValidationWarning| "warning: "@ + warning_text(w),
    )
}

impl ValidationError {
    /// The error as a sentence.
    pub fn to_string(&self) -> (r: String)
        ensures
            r@ == error_text(*self),
    {
        match self {
            ValidationError::NoRules => {
                let s = "no rules defined; a mandate needs at least one";
                s.to_owned()
            },
            ValidationError::DuplicateRuleId { id } => concat3(
                "duplicate rule id '",
                id.as_str(),
                "'",
            ),
            ValidationError::UnknownRule { doc, rule } => concat5(
                "rule '",
                rule.as_str(),
                "' is referenced by ",
                doc.as_str(),
                " but not defined",
            ),
            ValidationError::CodeLinksUngovernedDoc { path, doc } => concat5(
                "code ",
                path.as_str(),
                " links ",
                doc.as_str(),
                " which this mandate does not govern",
            ),
            ValidationError::DocMissing { doc } => concat2(
                "governed document not found: ",
                doc.as_str(),
            ),
            ValidationError::CodeMissing { path } => concat2("missing source file: ", path.as_str()),
        }
    }
}

impl ValidationWarning {
    /// The warning as a sentence.
    pub fn to_string(&self) -> (r: String)
        ensures
            r@ == warning_text(*self),
    {
        match self {
            ValidationWarning::UnreferencedRule { id } => concat3(
                "rule '",
                id.as_str(),
                "' is defined but no document references it",
            ),
        }
    }
}

impl Default for ValidationReport {
    /// A report with no findings and zero counts.
    fn default() -> (r: Self)
        ensures
            r.errors@.len() == 0,
            r.warnings@.len() == 0,
            r.rule_count == 0,
            r.doc_count == 0,
            r.code_count == 0,
    {
        ValidationReport {
            errors: Vec::new(),
            warnings: Vec::new(),
            rule_count: 0,
            doc_count: 0,
            code_count: 0,
        }
    }
}

impl ValidationReport {
    /// A mandate is valid when it has no errors; warnings do not count.
    pub fn is_valid(&self) -> (r: bool)
        ensures
            r == (self.errors@.len() == 0),
    {
        self.errors.len() == 0
    }

    /// The report rendered one line per finding, errors first in validator
    /// order, then warnings, each prefixed `error: ` or `warning: `.
    pub fn lines(&self) -> (r: Vec<String>)
        ensures
            texts(r@) == report_text_lines(self.errors@, self.warnings@),
    {
        let ghost target = report_text_lines(self.errors@, self.warnings@);
        let mut r: Vec<String> = Vec::new();
        let mut i: usize = 0;
        while i < self.errors.len()
            invariant
                i <= self.errors@.len(),
                target == report_text_lines(self.errors@, self.warnings@),
                r@.len() == i,
                forall|j: int| 0 <= j < i ==> (#[trigger] r@[j])@ == target[j],
            decreases self.errors.len() - i,
        {
            let message = self.errors[i].to_string();
            r.push(concat2("error: ", message.as_str()));
            i = i + 1;
        }
        let n = self.errors.len();
        let mut k: usize = 0;
        while k < self.warnings.len()
            invariant
                n == self.errors@.len(),
                k <= self.warnings@.len(),
                target == report_text_lines(self.errors@, self.warnings@),
                r@.len() == n + k,
                forall|j: int| 0 <= j < n + k ==> (#[trigger] r@[j])@ == target[j],
            decreases self.warnings.len() - k,
        {
            let message = self.warnings[k].to_string();
            r.push(concat2("warning: ", message.as_str()));
            k = k + 1;
        }
        assert(texts(r@) =~= target);
        r
    }
}

// ---------------------------------------------------------------------
// Laws.
// ---------------------------------------------------------------------

/// Every rule id the governed documents reference is defined.
pub open spec fn references_defined(m: Mandate) -> bool {
    forall|i: int, j: int|
        0 <= i < m.governs@.len() && 0 <= j < m.governs@[i].rules@.len() ==> rule_ids(
            m.rules@,
        ).contains((#[trigger] m.governs@[i].rules@[j])@)
}

/// Every document a code link names is one the mandate governs.
pub open spec fn links_governed(m: Mandate) -> bool {
    forall|i: int, j: int|
        0 <= i < m.code@.len() && 0 <= j < m.code@[i].docs@.len() ==> governed_docs(
            m.governs@,
        ).contains((#[trigger] m.code@[i].docs@[j])@)
}

/// Every governed document and every linked source file is a file in `tree`.
pub open spec fn files_present(m: Mandate, tree: Map<Seq<char>, EntryKind>) -> bool {
    &&& forall|i: int| 0 <= i < m.governs@.len() ==> is_file_in(tree, (#[trigger] m.governs@[i]).doc@)
    &&& forall|i: int| 0 <= i < m.code@.len() ==> is_file_in(tree, (#[trigger] m.code@[i]).path@)
}

/// What a mandate needs apart from the files on disk: at least one rule,
/// no rule id twice, only defined rules referenced, only governed
/// documents linked.
pub open spec fn well_formed_mandate(m: Mandate) -> bool {
    &&& m.rules@.len() > 0
    &&& rule_ids(m.rules@).no_duplicates()
    &&& references_defined(m)
    &&& links_governed(m)
}

proof fn lemma_duplicate_errors_empty(rules: Seq<Rule>)
    ensures
        (duplicate_errors(rules).len() == 0) <==> rule_ids(rules).no_duplicates(),
    decreases rules.len(),
{
    if rules.len() > 0 {
        let init = rules.drop_last();
        lemma_duplicate_errors_empty(init);
        let ids = rule_ids(rules);
        let prev = rule_ids(init);
        assert(prev =~= ids.drop_last());
        if ids.no_duplicates() {
            assert(prev.no_duplicates());
            if prev.contains(rules.last().id@) {
                let k = choose|k: int| 0 <= k < prev.len() && prev[k] == rules.last().id@;
                assert(ids[k] == ids[ids.len() - 1]);
            }
        }
        if duplicate_errors(rules).len() == 0 {
            assert forall|a: int, b: int| 0 <= a < ids.len() && 0 <= b < ids.len() && a != b implies ids[a]
                != ids[b] by {
                if a == ids.len() - 1 {
                    assert(!prev.contains(ids[a]));
                    assert(prev[b] == ids[b]);
                } else if b == ids.len() - 1 {
                    assert(!prev.contains(ids[b]));
                    assert(prev[a] == ids[a]);
                } else {
                    assert(prev[a] == ids[a]);
                    assert(prev[b] == ids[b]);
                }
            }
        }
    }
}

proof fn lemma_unknown_rule_errors_empty(known: Seq<Seq<char>>, doc: String, refs: Seq<String>)
    ensures
        (unknown_rule_errors(known, doc, refs).len() == 0) <==> (forall|j: int|
            0 <= j < refs.len() ==> known.contains((#[trigger] refs[j])@)),
    decreases refs.len(),
{
    if refs.len() > 0 {
        lemma_unknown_rule_errors_empty(known, doc, refs.drop_last());
        if unknown_rule_errors(known, doc, refs).len() == 0 {
            assert forall|j: int| 0 <= j < refs.len() implies known.contains((#[trigger] refs[j])@) by {
                if j < refs.len() - 1 {
                    assert(refs.drop_last()[j] == refs[j]);
                }
            }
        }
        if forall|j: int| 0 <= j < refs.len() ==> known.contains((#[trigger] refs[j])@) {
            assert(known.contains(refs[refs.len() - 1]@));
            assert forall|j: int| 0 <= j < refs.drop_last().len() implies known.contains(
                (#[trigger] refs.drop_last()[j])@,
            ) by {
                assert(refs.drop_last()[j] == refs[j]);
            }
        }
    }
}

proof fn lemma_ungoverned_errors_empty(governed: Seq<Seq<char>>, path: String, docs: Seq<String>)
    ensures
        (ungoverned_errors(governed, path, docs).len() == 0) <==> (forall|j: int|
            0 <= j < docs.len() ==> governed.contains((#[trigger] docs[j])@)),
    decreases docs.len(),
{
    if docs.len() > 0 {
        lemma_ungoverned_errors_empty(governed, path, docs.drop_last());
        if ungoverned_errors(governed, path, docs).len() == 0 {
            assert forall|j: int| 0 <= j < docs.len() implies governed.contains((#[trigger] docs[j])@) by {
                if j < docs.len() - 1 {
                    assert(docs.drop_last()[j] == docs[j]);
                }
            }
        }
        if forall|j: int| 0 <= j < docs.len() ==> governed.contains((#[trigger] docs[j])@) {
            assert(governed.contains(docs[docs.len() - 1]@));
            assert forall|j: int| 0 <= j < docs.drop_last().len() implies governed.contains(
                (#[trigger] docs.drop_last()[j])@,
            ) by {
                assert(docs.drop_last()[j] == docs[j]);
            }
        }
    }
}

proof fn lemma_governs_errors_empty(
    known: Seq<Seq<char>>,
    tree: Map<Seq<char>, EntryKind>,
    governs: Seq<GovernedDoc>,
)
    ensures
        (governs_errors(known, tree, governs).len() == 0) <==> (forall|i: int|
            0 <= i < governs.len() ==> is_file_in(tree, (#[trigger] governs[i]).doc@) && forall|j: int|
                0 <= j < governs[i].rules@.len() ==> known.contains((#[trigger] governs[i].rules@[j])@)),
    decreases governs.len(),
{
    if governs.len() > 0 {
        let init = governs.drop_last();
        let g = governs.last();
        lemma_governs_errors_empty(known, tree, init);
        lemma_unknown_rule_errors_empty(known, g.doc, g.rules@);
        if governs_errors(known, tree, governs).len() == 0 {
            assert forall|i: int| 0 <= i < governs.len() implies is_file_in(
                tree,
                (#[trigger] governs[i]).doc@,
            ) && forall|j: int|
                0 <= j < governs[i].rules@.len() ==> known.contains(
                    (#[trigger] governs[i].rules@[j])@,
                ) by {
                if i < governs.len() - 1 {
                    assert(init[i] == governs[i]);
                }
            }
        }
        if forall|i: int|
            0 <= i < governs.len() ==> is_file_in(tree, (#[trigger] governs[i]).doc@) && forall|j: int|
                0 <= j < governs[i].rules@.len() ==> known.contains((#[trigger] governs[i].rules@[j])@) {
            assert(governs[governs.len() - 1] == g);
            assert forall|i: int| 0 <= i < init.len() implies is_file_in(tree, (#[trigger] init[i]).doc@)
                && forall|j: int|
                0 <= j < init[i].rules@.len() ==> known.contains((#[trigger] init[i].rules@[j])@) by {
                assert(init[i] == governs[i]);
            }
        }
    }
}

proof fn lemma_code_errors_empty(
    governed: Seq<Seq<char>>,
    tree: Map<Seq<char>, EntryKind>,
    code: Seq<CodeLink>,
)
    ensures
        (code_errors(governed, tree, code).len() == 0) <==> (forall|i: int|
            0 <= i < code.len() ==> is_file_in(tree, (#[trigger] code[i]).path@) && forall|j: int|
                0 <= j < code[i].docs@.len() ==> governed.contains((#[trigger] code[i].docs@[j])@)),
    decreases code.len(),
{
    if code.len() > 0 {
        let init = code.drop_last();
        let c = code.last();
        lemma_code_errors_empty(governed, tree, init);
        lemma_ungoverned_errors_empty(governed, c.path, c.docs@);
        if code_errors(governed, tree, code).len() == 0 {
            assert forall|i: int| 0 <= i < code.len() implies is_file_in(
                tree,
                (#[trigger] code[i]).path@,
            ) && forall|j: int|
                0 <= j < code[i].docs@.len() ==> governed.contains((#[trigger] code[i].docs@[j])@) by {
                if i < code.len() - 1 {
                    assert(init[i] == code[i]);
                }
            }
        }
        if forall|i: int|
            0 <= i < code.len() ==> is_file_in(tree, (#[trigger] code[i]).path@) && forall|j: int|
                0 <= j < code[i].docs@.len() ==> governed.contains((#[trigger] code[i].docs@[j])@) {
            assert(code[code.len() - 1] == c);
            assert forall|i: int| 0 <= i < init.len() implies is_file_in(tree, (#[trigger] init[i]).path@)
                && forall|j: int|
                0 <= j < init[i].docs@.len() ==> governed.contains((#[trigger] init[i].docs@[j])@) by {
                assert(init[i] == code[i]);
            }
        }
    }
}

/// A mandate validates without errors against a tree exactly when it is
/// well formed and every document it governs and every source file it
/// links is a file in that tree.
pub proof fn lemma_valid_iff_well_formed_and_present(m: Mandate, tree: Map<Seq<char>, EntryKind>)
    ensures
        (validation_errors(m, tree).len() == 0) <==> (well_formed_mandate(m) && files_present(
            m,
            tree,
        )),
{
    lemma_duplicate_errors_empty(m.rules@);
    lemma_governs_errors_empty(rule_ids(m.rules@), tree, m.governs@);
    lemma_code_errors_empty(governed_docs(m.governs@), tree, m.code@);
    if well_formed_mandate(m) && files_present(m, tree) {
        assert forall|i: int| 0 <= i < m.governs@.len() implies is_file_in(
            tree,
            (#[trigger] m.governs@[i]).doc@,
        ) && forall|j: int|
            0 <= j < m.governs@[i].rules@.len() ==> rule_ids(m.rules@).contains(
                (#[trigger] m.governs@[i].rules@[j])@,
            ) by {}
        assert forall|i: int| 0 <= i < m.code@.len() implies is_file_in(tree, (#[trigger] m.code@[i]).path@)
            && forall|j: int|
            0 <= j < m.code@[i].docs@.len() ==> governed_docs(m.governs@).contains(
                (#[trigger] m.code@[i].docs@[j])@,
            ) by {}
    }
}

/// No rule goes unreferenced exactly when the warnings are empty.
pub proof fn lemma_no_warnings_iff_every_rule_referenced(m: Mandate)
    ensures
        (validation_warnings(m).len() == 0) <==> (forall|i: int|
            0 <= i < m.rules@.len() ==> is_referenced(m.governs@, (#[trigger] m.rules@[i]).id@)),
{
    lemma_unreferenced_warnings_empty(m.governs@, m.rules@);
}

proof fn lemma_unreferenced_warnings_empty(governs: Seq<GovernedDoc>, rules: Seq<Rule>)
    ensures
        (unreferenced_warnings(governs, rules).len() == 0) <==> (forall|i: int|
            0 <= i < rules.len() ==> is_referenced(governs, (#[trigger] rules[i]).id@)),
    decreases rules.len(),
{
    if rules.len() > 0 {
        lemma_unreferenced_warnings_empty(governs, rules.drop_last());
        if unreferenced_warnings(governs, rules).len() == 0 {
            assert forall|i: int| 0 <= i < rules.len() implies is_referenced(
                governs,
                (#[trigger] rules[i]).id@,
            ) by {
                if i < rules.len() - 1 {
                    assert(rules.drop_last()[i] == rules[i]);
                }
            }
        }
        if forall|i: int| 0 <= i < rules.len() ==> is_referenced(governs, (#[trigger] rules[i]).id@) {
            assert(rules[rules.len() - 1] == rules.last());
            assert forall|i: int| 0 <= i < rules.drop_last().len() implies is_referenced(
                governs,
                (#[trigger] rules.drop_last()[i]).id@,
            ) by {
                assert(rules.drop_last()[i] == rules[i]);
            }
        }
    }
}

/// The snapshot `FileTreeSnapshot::with_every_file_in` builds from a mandate
/// holds, as files, every document the mandate governs and every source
/// file it links.
pub proof fn lemma_every_linked_file_present(m: Mandate)
    ensures
        files_present(m, with_files(Map::empty(), linked_paths(m))),
{
    let ps = linked_paths(m);
    let tree = with_files(Map::empty(), ps);
    let n = m.governs@.len();
    assert forall|i: int| 0 <= i < m.governs@.len() implies is_file_in(tree, (#[trigger] m.governs@[i]).doc@) by {
        assert(ps[i] == m.governs@[i].doc@);
        lemma_with_files_records_files(Map::empty(), ps, i);
    }
    assert forall|i: int| 0 <= i < m.code@.len() implies is_file_in(tree, (#[trigger] m.code@[i]).path@) by {
        assert(ps[n + i] == m.code@[i].path@);
        lemma_with_files_records_files(Map::empty(), ps, n + i);
    }
}

/// Against the snapshot of its own linked files, a mandate validates
/// without errors exactly when it is well formed.
pub proof fn lemma_own_files_valid_iff_well_formed(m: Mandate)
    ensures
        (validation_errors(m, with_files(Map::empty(), linked_paths(m))).len() == 0)
            <==> well_formed_mandate(m),
{
    lemma_every_linked_file_present(m);
    lemma_valid_iff_well_formed_and_present(m, with_files(Map::empty(), linked_paths(m)));
}

// ---------------------------------------------------------------------
// Every finding is reported, once, in order.
// ---------------------------------------------------------------------

/// Picks out the `DocMissing` errors.
pub open spec fn is_doc_missing() -> spec_fn(ValidationError) -> bool {
    |e: ValidationError| e is DocMissing
}

/// Picks out the governed documents that are not files in `tree`.
pub open spec fn doc_not_in(tree: Map<Seq<char>, EntryKind>) -> spec_fn(GovernedDoc) -> bool {
    |g: GovernedDoc| !is_file_in(tree, g.doc@)
}

/// The error for a governed document that is missing.
pub open spec fn missing_doc_error() -> spec_fn(GovernedDoc) -> ValidationError {
    |g: GovernedDoc| ValidationError::DocMissing { doc: g.doc }
}

/// Picks out the rules that no document of `governs` lists.
pub open spec fn unreferenced_in(governs: Seq<GovernedDoc>) -> spec_fn(Rule) -> bool {
    |r: Rule| !is_referenced(governs, r.id@)
}

/// The warning for a rule that no document lists.
pub open spec fn unreferenced_warning() -> spec_fn(Rule) -> ValidationWarning {
    |r: Rule| ValidationWarning::UnreferencedRule { id: r.id }
}

pub(crate) proof fn lemma_filter_empty<A>(p: spec_fn(A) -> bool)
    ensures
        Seq::<A>::empty().filter(p) == Seq::<A>::empty(),
{
    reveal(Seq::filter);
}

proof fn lemma_filter_one<A>(x: A, p: spec_fn(A) -> bool)
    ensures
        seq![x].filter(p) == (if p(x) {
            seq![x]
        } else {
            Seq::<A>::empty()
        }),
{
    reveal_with_fuel(Seq::filter, 2);
    assert(seq![x].drop_last() =~= Seq::<A>::empty());
}

pub(crate) proof fn lemma_filter_push<A>(s: Seq<A>, x: A, p: spec_fn(A) -> bool)
    ensures
        s.push(x).filter(p) == (if p(x) {
            s.filter(p).push(x)
        } else {
            s.filter(p)
        }),
{
    reveal_with_fuel(Seq::filter, 1);
    assert(s.push(x).drop_last() =~= s);
}

/// The filtered errors of `a + b + c`, when `c` holds none that pass.
proof fn lemma_filter_three<A>(a: Seq<A>, b: Seq<A>, c: Seq<A>, p: spec_fn(A) -> bool)
    requires
        c.filter(p) == Seq::<A>::empty(),
    ensures
        (a + b + c).filter(p) == a.filter(p) + b.filter(p),
{
    Seq::filter_distributes_over_add(a + b, c, p);
    Seq::filter_distributes_over_add(a, b, p);
    assert(a.filter(p) + b.filter(p) + Seq::<A>::empty() =~= a.filter(p) + b.filter(p));
}

proof fn lemma_no_rules_not_missing(rules: Seq<Rule>)
    ensures
        no_rules_errors(rules).filter(is_doc_missing()) == Seq::<ValidationError>::empty(),
{
    if rules.len() == 0 {
        lemma_filter_one(ValidationError::NoRules, is_doc_missing());
    } else {
        lemma_filter_empty(is_doc_missing());
    }
}

proof fn lemma_duplicates_not_missing(rules: Seq<Rule>)
    ensures
        duplicate_errors(rules).filter(is_doc_missing()) == Seq::<ValidationError>::empty(),
    decreases rules.len(),
{
    let p = is_doc_missing();
    if rules.len() == 0 {
        lemma_filter_empty(p);
    } else {
        lemma_duplicates_not_missing(rules.drop_last());
        let tail = if rule_ids(rules.drop_last()).contains(rules.last().id@) {
            seq![ValidationError::DuplicateRuleId { id: rules.last().id }]
        } else {
            Seq::<ValidationError>::empty()
        };
        Seq::filter_distributes_over_add(duplicate_errors(rules.drop_last()), tail, p);
        lemma_filter_empty(p);
        lemma_filter_one(ValidationError::DuplicateRuleId { id: rules.last().id }, p);
        assert(Seq::<ValidationError>::empty() + Seq::<ValidationError>::empty() =~= Seq::<
            ValidationError,
        >::empty());
    }
}

proof fn lemma_unknown_rules_not_missing(known: Seq<Seq<char>>, doc: String, refs: Seq<String>)
    ensures
        unknown_rule_errors(known, doc, refs).filter(is_doc_missing()) == Seq::<ValidationError>::empty(),
    decreases refs.len(),
{
    let p = is_doc_missing();
    if refs.len() == 0 {
        lemma_filter_empty(p);
    } else {
        lemma_unknown_rules_not_missing(known, doc, refs.drop_last());
        let tail = if known.contains(refs.last()@) {
            Seq::<ValidationError>::empty()
        } else {
            seq![ValidationError::UnknownRule { doc: doc, rule: refs.last() }]
        };
        Seq::filter_distributes_over_add(unknown_rule_errors(known, doc, refs.drop_last()), tail, p);
        lemma_filter_empty(p);
        lemma_filter_one(ValidationError::UnknownRule { doc: doc, rule: refs.last() }, p);
        assert(Seq::<ValidationError>::empty() + Seq::<ValidationError>::empty() =~= Seq::<
            ValidationError,
        >::empty());
    }
}

proof fn lemma_ungoverned_not_missing(governed: Seq<Seq<char>>, path: String, docs: Seq<String>)
    ensures
        ungoverned_errors(governed, path, docs).filter(is_doc_missing()) == Seq::<ValidationError>::empty(),
    decreases docs.len(),
{
    let p = is_doc_missing();
    if docs.len() == 0 {
        lemma_filter_empty(p);
    } else {
        lemma_ungoverned_not_missing(governed, path, docs.drop_last());
        let tail = if governed.contains(docs.last()@) {
            Seq::<ValidationError>::empty()
        } else {
            seq![ValidationError::CodeLinksUngovernedDoc { path: path, doc: docs.last() }]
        };
        Seq::filter_distributes_over_add(ungoverned_errors(governed, path, docs.drop_last()), tail, p);
        lemma_filter_empty(p);
        lemma_filter_one(ValidationError::CodeLinksUngovernedDoc { path: path, doc: docs.last() }, p);
        assert(Seq::<ValidationError>::empty() + Seq::<ValidationError>::empty() =~= Seq::<
            ValidationError,
        >::empty());
    }
}

proof fn lemma_code_not_missing(governed: Seq<Seq<char>>, tree: Map<Seq<char>, EntryKind>, code: Seq<CodeLink>)
    ensures
        code_errors(governed, tree, code).filter(is_doc_missing()) == Seq::<ValidationError>::empty(),
    decreases code.len(),
{
    let p = is_doc_missing();
    if code.len() == 0 {
        lemma_filter_empty(p);
    } else {
        let c = code.last();
        lemma_code_not_missing(governed, tree, code.drop_last());
        lemma_ungoverned_not_missing(governed, c.path, c.docs@);
        let mid = if is_file_in(tree, c.path@) {
            Seq::<ValidationError>::empty()
        } else {
            seq![ValidationError::CodeMissing { path: c.path }]
        };
        lemma_filter_three(code_errors(governed, tree, code.drop_last()), mid, ungoverned_errors(governed, c.path, c.docs@), p);
        lemma_filter_empty(p);
        lemma_filter_one(ValidationError::CodeMissing { path: c.path }, p);
        assert(Seq::<ValidationError>::empty() + Seq::<ValidationError>::empty() =~= Seq::<
            ValidationError,
        >::empty());
    }
}

#[verifier::rlimit(40)]
proof fn lemma_governs_missing(known: Seq<Seq<char>>, tree: Map<Seq<char>, EntryKind>, governs: Seq<GovernedDoc>)
    ensures
        governs_errors(known, tree, governs).filter(is_doc_missing()) == governs.filter(doc_not_in(tree)).map_values(
            missing_doc_error(),
        ),
    decreases governs.len(),
{
    let p = is_doc_missing();
    let q = doc_not_in(tree);
    let f = missing_doc_error();
    if governs.len() == 0 {
        lemma_filter_empty(p);
        lemma_filter_empty(q);
        assert(Seq::<GovernedDoc>::empty().map_values(f) =~= Seq::<ValidationError>::empty());
    } else {
        let init = governs.drop_last();
        let g = governs.last();
        let whole = governs_errors(known, tree, governs);
        let first = governs_errors(known, tree, init);
        let unknown = unknown_rule_errors(known, g.doc, g.rules@);
        lemma_governs_missing(known, tree, init);
        lemma_unknown_rules_not_missing(known, g.doc, g.rules@);
        assert(governs =~= init.push(g));
        lemma_filter_push(init, g, q);
        let before = init.filter(q);
        if is_file_in(tree, g.doc@) {
            let mid = Seq::<ValidationError>::empty();
            assert(whole == first + mid + unknown);
            lemma_filter_three(first, mid, unknown, p);
            lemma_filter_empty(p);
            assert(first.filter(p) + mid =~= first.filter(p));
            assert(!q(g));
        } else {
            let mid = seq![ValidationError::DocMissing { doc: g.doc }];
            assert(whole == first + mid + unknown);
            lemma_filter_three(first, mid, unknown, p);
            lemma_filter_one(ValidationError::DocMissing { doc: g.doc }, p);
            assert(q(g));
            assert(before.push(g).map_values(f) =~= before.map_values(f).push(f(g)));
            assert(before.map_values(f) + mid =~= before.map_values(f).push(f(g)));
        }
    }
}

/// Every governed document that is not a file in the tree is reported
/// missing, once, in the order the mandate governs them, and no other
/// `DocMissing` error is reported: validation does not stop at the first
/// missing document.
pub proof fn lemma_every_missing_doc_reported(m: Mandate, tree: Map<Seq<char>, EntryKind>)
    ensures
        validation_errors(m, tree).filter(is_doc_missing()) == m.governs@.filter(doc_not_in(tree)).map_values(
            missing_doc_error(),
        ),
{
    let p = is_doc_missing();
    let a = no_rules_errors(m.rules@);
    let b = duplicate_errors(m.rules@);
    let c = governs_errors(rule_ids(m.rules@), tree, m.governs@);
    let d = code_errors(governed_docs(m.governs@), tree, m.code@);
    lemma_no_rules_not_missing(m.rules@);
    lemma_duplicates_not_missing(m.rules@);
    lemma_governs_missing(rule_ids(m.rules@), tree, m.governs@);
    lemma_code_not_missing(governed_docs(m.governs@), tree, m.code@);
    Seq::filter_distributes_over_add(a + b + c, d, p);
    Seq::filter_distributes_over_add(a + b, c, p);
    Seq::filter_distributes_over_add(a, b, p);
    let e = Seq::<ValidationError>::empty();
    assert(e + e + c.filter(p) + e =~= c.filter(p));
}

/// The warnings of validating `m` are exactly one `UnreferencedRule` for
/// each rule that no governed document lists, in rule order: none is left
/// out and none is repeated.
pub proof fn lemma_every_unreferenced_rule_warned(m: Mandate)
    ensures
        validation_warnings(m) == m.rules@.filter(unreferenced_in(m.governs@)).map_values(
            unreferenced_warning(),
        ),
{
    lemma_unreferenced_warnings_are_filtered(m.governs@, m.rules@);
}

proof fn lemma_unreferenced_warnings_are_filtered(governs: Seq<GovernedDoc>, rules: Seq<Rule>)
    ensures
        unreferenced_warnings(governs, rules) == rules.filter(unreferenced_in(governs)).map_values(
            unreferenced_warning(),
        ),
    decreases rules.len(),
{
    let q = unreferenced_in(governs);
    let f = unreferenced_warning();
    if rules.len() == 0 {
        lemma_filter_empty(q);
        assert(Seq::<Rule>::empty().map_values(f) =~= Seq::<ValidationWarning>::empty());
    } else {
        let init = rules.drop_last();
        let r = rules.last();
        lemma_unreferenced_warnings_are_filtered(governs, init);
        assert(rules =~= init.push(r));
        lemma_filter_push(init, r, q);
        let before = init.filter(q);
        assert(before.push(r).map_values(f) =~= before.map_values(f).push(f(r)));
        assert(before.map_values(f) + Seq::<ValidationWarning>::empty() =~= before.map_values(f));
        assert(before.map_values(f) + seq![ValidationWarning::UnreferencedRule { id: r.id }]
            =~= before.map_values(f).push(f(r)));
    }
}

} // verus!
