//! [`RunReportMandatesValidation`]: the results of validating every mandate
//! found in one run, and how they read.

use vstd::prelude::*;

use crate::ports::{parse_error_text, MandateParseError};
use crate::text::{concat2, concat3, decimal, decimal_text, texts};
use crate::validation::{lemma_filter_empty, lemma_filter_push, report_text_lines, ValidationReport};

verus! {

/// What became of one mandate file.
#[derive(Debug, Clone, PartialEq, Eq)]
pub enum MandateResult {
    ParseFailed(MandateParseError),
    Validated(ValidationReport),
}

/// One mandate file and what became of it.
#[derive(Debug, Clone, PartialEq, Eq)]
pub struct MandateOutcome {
    pub file_name: String,
    pub result: MandateResult,
}

/// A finding about the run as a whole rather than about one mandate.
#[derive(Debug, Clone, PartialEq, Eq)]
pub enum RunWarning {
    NoMandatesFound { mandates_dir: String },
}

/// Where a run discovered its repository, or that it found none. There is
/// no repository in the `NotFound` case, so there is no root path and no
/// snapshot to report.
#[derive(Debug, Clone, PartialEq, Eq)]
pub enum RunLocation {
    Found { root: String, snapshot_entries: usize },
    NotFound { searched_from: String },
}

/// The results of one run.
#[derive(Debug, Clone, PartialEq, Eq)]
pub struct RunReportMandatesValidation {
    pub location: RunLocation,
    pub warnings: Vec<RunWarning>,
    pub mandates: Vec<MandateOutcome>,
}

/// The mandate parsed, and validated without errors.
pub open spec fn result_is_valid(r: MandateResult) -> bool {
    match r {
        MandateResult::ParseFailed(_) => false,
        MandateResult::Validated(report) => report.errors@.len() == 0,
    }
}

/// How many of `outcomes` are not valid.
pub open spec fn invalid_count(outcomes: Seq<MandateOutcome>) -> nat
    decreases outcomes.len(),
{
    if outcomes.len() == 0 {
        0
    } else {
        invalid_count(outcomes.drop_last()) + if result_is_valid(outcomes.last().result) {
            0nat
        } else {
            1nat
        }
    }
}

/// The empty line.
pub open spec fn blank() -> Seq<char> {
    Seq::<char>::empty()
}

/// The lines saying where the run looked.
pub open spec fn location_lines(location: RunLocation) -> Seq<Seq<char>> {
    match location {
        RunLocation::Found { root, snapshot_entries } => seq![
            "repository: "@ + root@,
            "snapshot: "@ + decimal(snapshot_entries as nat) + " entries"@,
            blank(),
        ],
        RunLocation::NotFound { searched_from } => seq![
            "warning: no .mandate folder found from "@ + searched_from@
                + " up to the filesystem root"@,
            blank(),
        ],
    }
}

/// How a run warning reads.
pub open spec fn run_warning_text(w: RunWarning) -> Seq<char> {
    match w {
        RunWarning::NoMandatesFound { mandates_dir } => "warning: no mandates found in "@
            + mandates_dir@,
    }
}

/// One line per run warning, then a blank line if there were any.
pub open spec fn warning_lines(warnings: Seq<RunWarning>) -> Seq<Seq<char>> {
    warnings.map_values(|w: RunWarning| run_warning_text(w)) + if warnings.len() > 0 {
        seq![blank()]
    } else {
        Seq::<Seq<char>>::empty()
    }
}

/// Each line with two spaces in front.
pub open spec fn indented(lines: Seq<Seq<char>>) -> Seq<Seq<char>> {
    lines.map_values(|l: Seq<char>| "  "@ + l)
}

/// The closing line for a validated mandate.
pub open spec fn verdict_line(report: ValidationReport) -> Seq<char> {
    if report.errors@.len() == 0 {
        "  valid: "@ + decimal(report.rule_count as nat) + " rules, "@ + decimal(
            report.doc_count as nat,
        ) + " documents, "@ + decimal(report.code_count as nat) + " source files"@
    } else {
        "  invalid: "@ + decimal(report.errors@.len()) + " errors, "@ + decimal(
            report.warnings@.len(),
        ) + " warnings"@
    }
}

/// The lines for one mandate: its file name, its findings indented, its
/// verdict, then a blank line.
pub open spec fn outcome_lines(outcome: MandateOutcome) -> Seq<Seq<char>> {
    seq![outcome.file_name@] + match outcome.result {
        MandateResult::ParseFailed(e) => seq!["  failed to parse: "@ + parse_error_text(e)],
        MandateResult::Validated(report) => indented(
            report_text_lines(report.errors@, report.warnings@),
        ) + seq![verdict_line(report)],
    } + seq![blank()]
}

/// The lines for each mandate in turn.
pub open spec fn outcomes_lines(outcomes: Seq<MandateOutcome>) -> Seq<Seq<char>>
    decreases outcomes.len(),
{
    if outcomes.len() == 0 {
        Seq::<Seq<char>>::empty()
    } else {
        outcomes_lines(outcomes.drop_last()) + outcome_lines(outcomes.last())
    }
}

/// The last line: how many mandates were checked and how many are invalid.
pub open spec fn summary_line(outcomes: Seq<MandateOutcome>) -> Seq<char> {
    decimal(outcomes.len()) + " mandates checked, "@ + decimal(invalid_count(outcomes))
        + " invalid"@
}

/// A report's summary line counts no invalid mandate exactly when every
/// outcome is valid, that is, exactly when the report is valid.
pub proof fn lemma_no_invalid_iff_all_valid(outcomes: Seq<MandateOutcome>)
    ensures
        (invalid_count(outcomes) == 0) <==> (forall|i: int|
            0 <= i < outcomes.len() ==> result_is_valid(#[trigger] outcomes[i].result)),
    decreases outcomes.len(),
{
    if outcomes.len() > 0 {
        let init = outcomes.drop_last();
        lemma_no_invalid_iff_all_valid(init);
        if invalid_count(outcomes) == 0 {
            assert forall|i: int| 0 <= i < outcomes.len() implies result_is_valid(
                #[trigger] outcomes[i].result,
            ) by {
                if i < init.len() {
                    assert(init[i] == outcomes[i]);
                }
            }
        }
        if forall|i: int| 0 <= i < outcomes.len() ==> result_is_valid(#[trigger] outcomes[i].result) {
            assert forall|i: int| 0 <= i < init.len() implies result_is_valid(#[trigger] init[i].result) by {
                assert(init[i] == outcomes[i]);
            }
            assert(result_is_valid(outcomes[outcomes.len() - 1].result));
        }
    }
}

/// The report's last line is its summary, and that summary counts no
/// invalid mandate exactly when the report is valid.
pub proof fn lemma_summary_reports_validity(report: RunReportMandatesValidation)
    ensures
        run_report_lines(report).last() == summary_line(report.mandates@),
        (invalid_count(report.mandates@) == 0) <==> (forall|i: int|
            0 <= i < report.mandates@.len() ==> result_is_valid(#[trigger] report.mandates@[i].result)),
{
    lemma_no_invalid_iff_all_valid(report.mandates@);
}

/// The whole report as the command line prints it.
pub open spec fn run_report_lines(report: RunReportMandatesValidation) -> Seq<Seq<char>> {
    location_lines(report.location) + warning_lines(report.warnings@) + outcomes_lines(
        report.mandates@,
    ) + seq![summary_line(report.mandates@)]
}

/// Appends `more` to `lines`.
pub(crate) fn push_all(lines: &mut Vec<String>, more: Vec<String>)
    ensures
        texts(final(lines)@) == texts(old(lines)@) + texts(more@),
{
    let ghost added = more@;
    let mut more = more;
    lines.append(&mut more);
    assert(texts(lines@) =~= texts(old(lines)@) + texts(added));
}

/// Whether one mandate's result counts as valid.
fn result_valid(result: &MandateResult) -> (r: bool)
    ensures
        r == result_is_valid(*result),
{
    match result {
        MandateResult::ParseFailed(_) => false,
        MandateResult::Validated(report) => report.is_valid(),
    }
}

/// The lines under a validated mandate's name: its findings indented, then
/// its verdict.
pub(crate) fn validated_body(report: &ValidationReport) -> (r: Vec<String>)
    ensures
        texts(r@) == indented(report_text_lines(report.errors@, report.warnings@)) + seq![
            verdict_line(*report),
        ],
{
    let mut lines: Vec<String> = Vec::new();
    let findings = report.lines();
    let ghost target = report_text_lines(report.errors@, report.warnings@);
    let mut i: usize = 0;
    while i < findings.len()
        invariant
            texts(findings@) == target,
            i <= findings@.len(),
            lines@.len() == i,
            forall|j: int| 0 <= j < i ==> (#[trigger] lines@[j])@ == "  "@ + target[j],
        decreases findings.len() - i,
    {
        assert(findings@[i as int]@ == target[i as int]);
        lines.push(concat2("  ", findings[i].as_str()));
        i = i + 1;
    }
    assert(target.len() == findings@.len());
    assert forall|j: int| 0 <= j < target.len() implies #[trigger] indented(target)[j] == "  "@
        + target[j] by {}
    assert(texts(lines@) =~= indented(target));
    let ghost before = lines@;
    if report.is_valid() {
        let a = decimal_text(report.rule_count);
        let b = decimal_text(report.doc_count);
        let c = decimal_text(report.code_count);
        let head = concat3("  valid: ", a.as_str(), " rules, ");
        let mid = concat3(head.as_str(), b.as_str(), " documents, ");
        lines.push(concat3(mid.as_str(), c.as_str(), " source files"));
    } else {
        let a = decimal_text(report.errors.len());
        let b = decimal_text(report.warnings.len());
        let head = concat3("  invalid: ", a.as_str(), " errors, ");
        lines.push(concat3(head.as_str(), b.as_str(), " warnings"));
    }
    assert(lines@.last()@ == verdict_line(*report));
    assert(texts(lines@) =~= texts(before).push(verdict_line(*report)));
    lines
}

/// The lines for one mandate.
fn outcome_block(outcome: &MandateOutcome) -> (r: Vec<String>)
    ensures
        texts(r@) == outcome_lines(*outcome),
{
    let mut lines: Vec<String> = Vec::new();
    lines.push(outcome.file_name.clone());
    match &outcome.result {
        MandateResult::ParseFailed(e) => {
            let message = e.to_string();
            lines.push(concat2("  failed to parse: ", message.as_str()));
        },
        MandateResult::Validated(report) => {
            let body = validated_body(report);
            push_all(&mut lines, body);
        },
    }
    let ghost before = lines@;
    lines.push(String::new());
    assert(texts(lines@) =~= texts(before).push(blank()));
    assert(texts(lines@) =~= outcome_lines(*outcome));
    lines
}

impl RunReportMandatesValidation {
    /// No mandate failed to parse, and every validated mandate is valid.
    /// An empty list of mandates is always valid, whether because no
    /// `.mandate` folder was found or because the mandates folder was empty.
    pub fn is_valid(&self) -> (r: bool)
        ensures
            r == (forall|i: int|
                0 <= i < self.mandates@.len() ==> result_is_valid(#[trigger] self.mandates@[i].result)),
    {
        let mut i: usize = 0;
        while i < self.mandates.len()
            invariant
                i <= self.mandates@.len(),
                forall|j: int| 0 <= j < i ==> result_is_valid(#[trigger] self.mandates@[j].result),
            decreases self.mandates.len() - i,
        {
            if !result_valid(&self.mandates[i].result) {
                return false;
            }
            i = i + 1;
        }
        true
    }

    /// The report rendered exactly as the command line prints it: where
    /// the run looked, any run-level warnings, then each mandate's outcome,
    /// then a summary line.
    pub fn lines(&self) -> (r: Vec<String>)
        ensures
            texts(r@) == run_report_lines(*self),
    {
        let mut lines: Vec<String> = Vec::new();
        match &self.location {
            RunLocation::Found { root, snapshot_entries } => {
                lines.push(concat2("repository: ", root.as_str()));
                let n = decimal_text(*snapshot_entries);
                lines.push(concat3("snapshot: ", n.as_str(), " entries"));
                lines.push(String::new());
            },
            RunLocation::NotFound { searched_from } => {
                lines.push(
                    concat3(
                        "warning: no .mandate folder found from ",
                        searched_from.as_str(),
                        " up to the filesystem root",
                    ),
                );
                lines.push(String::new());
            },
        }
        assert(texts(lines@) =~= location_lines(self.location));
        let ghost head = texts(lines@);

        let mut w: usize = 0;
        while w < self.warnings.len()
            invariant
                w <= self.warnings@.len(),
                head == location_lines(self.location),
                texts(lines@) == head + self.warnings@.take(w as int).map_values(
                    |x: RunWarning| run_warning_text(x),
                ),
            decreases self.warnings.len() - w,
        {
            let ghost before = lines@;
            let line = match &self.warnings[w] {
                RunWarning::NoMandatesFound { mandates_dir } => {
                    concat2("warning: no mandates found in ", mandates_dir.as_str())
                },
            };
            assert(line@ == run_warning_text(self.warnings@[w as int]));
            lines.push(line);
            assert(texts(lines@) =~= texts(before).push(line@));
            assert(self.warnings@.take(w + 1).map_values(|x: RunWarning| run_warning_text(x))
                =~= self.warnings@.take(w as int).map_values(|x: RunWarning| run_warning_text(x)).push(
                run_warning_text(self.warnings@[w as int]),
            ));
            assert(texts(lines@) =~= head + self.warnings@.take(w + 1).map_values(
                |x: RunWarning| run_warning_text(x),
            ));
            w = w + 1;
        }
        assert(self.warnings@.take(self.warnings@.len() as int) =~= self.warnings@);
        if self.warnings.len() > 0 {
            let ghost before = lines@;
            lines.push(String::new());
            assert(texts(lines@) =~= texts(before).push(blank()));
        }
        assert(texts(lines@) =~= head + warning_lines(self.warnings@));
        let ghost head2 = texts(lines@);

        let mut invalid: usize = 0;
        let mut i: usize = 0;
        assert(self.mandates@.take(0) =~= Seq::<MandateOutcome>::empty());
        while i < self.mandates.len()
            invariant
                i <= self.mandates@.len(),
                invalid == invalid_count(self.mandates@.take(i as int)),
                invalid <= i,
                texts(lines@) == head2 + outcomes_lines(self.mandates@.take(i as int)),
            decreases self.mandates.len() - i,
        {
            assert(self.mandates@.take(i + 1).drop_last() =~= self.mandates@.take(i as int));
            assert(self.mandates@.take(i + 1).last() == self.mandates@[i as int]);
            let block = outcome_block(&self.mandates[i]);
            push_all(&mut lines, block);
            if !result_valid(&self.mandates[i].result) {
                invalid = invalid + 1;
            }
            i = i + 1;
        }
        assert(self.mandates@.take(self.mandates@.len() as int) =~= self.mandates@);
        let checked = decimal_text(self.mandates.len());
        let bad = decimal_text(invalid);
        let head3 = concat3(checked.as_str(), " mandates checked, ", bad.as_str());
        lines.push(concat2(head3.as_str(), " invalid"));
        assert(texts(lines@) =~= run_report_lines(*self));
        lines
    }
}

/// Picks out the outcomes that are not valid: those that failed to parse
/// or whose report has errors.
pub open spec fn is_invalid_outcome() -> spec_fn(MandateOutcome) -> bool {
    |o: MandateOutcome| !result_is_valid(o.result)
}

proof fn lemma_run_invalid_count_counts(outcomes: Seq<MandateOutcome>)
    ensures
        invalid_count(outcomes) == outcomes.filter(is_invalid_outcome()).len(),
    decreases outcomes.len(),
{
    let q = is_invalid_outcome();
    if outcomes.len() == 0 {
        lemma_filter_empty(q);
    } else {
        let init = outcomes.drop_last();
        lemma_run_invalid_count_counts(init);
        assert(outcomes =~= init.push(outcomes.last()));
        lemma_filter_push(init, outcomes.last(), q);
    }
}

/// The summary line counts every mandate checked and every invalid one:
/// its second number is how many outcomes failed to parse or have errors,
/// each counted once.
pub proof fn lemma_run_summary_counts_every_invalid(report: RunReportMandatesValidation)
    ensures
        run_report_lines(report).last() == decimal(report.mandates@.len()) + " mandates checked, "@ + decimal(
            report.mandates@.filter(is_invalid_outcome()).len(),
        ) + " invalid"@,
{
    lemma_run_invalid_count_counts(report.mandates@);
}

} // verus!
