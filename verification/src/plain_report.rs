//! [`RunReportMandatesValidation`] for a run that found its repository,
//! with each parse failure kept as the plain message it was given, and how
//! it reads.

use vstd::prelude::*;

pub use crate::run_report::RunWarning;
use crate::run_report::{
    blank, indented, push_all, validated_body, verdict_line, warning_lines, run_warning_text,
};
use crate::text::{concat2, concat3, decimal, decimal_text, texts};
use crate::validation::{lemma_filter_empty, lemma_filter_push, report_text_lines, ValidationReport};

verus! {

/// What became of one mandate file: the message it failed to parse with,
/// or the report of validating it.
#[derive(Debug, Clone, PartialEq, Eq)]
pub enum MandateResult {
    ParseFailed(String),
    Validated(ValidationReport),
}

/// One mandate file and what became of it.
#[derive(Debug, Clone, PartialEq, Eq)]
pub struct MandateOutcome {
    pub file_name: String,
    pub result: MandateResult,
}

/// The results of one run over the repository at `root`, whose snapshot
/// held `snapshot_entries` entries.
#[derive(Debug, Clone, PartialEq, Eq)]
pub struct RunReportMandatesValidation {
    pub root: String,
    pub snapshot_entries: usize,
    pub warnings: Vec<RunWarning>,
    pub mandates: Vec<MandateOutcome>,
}

/// The mandate parsed, and validated without errors.
pub open spec fn plain_result_is_valid(r: MandateResult) -> bool {
    match r {
        MandateResult::ParseFailed(_) => false,
        MandateResult::Validated(report) => report.errors@.len() == 0,
    }
}

/// How many of `outcomes` are not valid.
pub open spec fn plain_invalid_count(outcomes: Seq<MandateOutcome>) -> nat
    decreases outcomes.len(),
{
    if outcomes.len() == 0 {
        0
    } else {
        plain_invalid_count(outcomes.drop_last()) + if plain_result_is_valid(outcomes.last().result) {
            0nat
        } else {
            1nat
        }
    }
}

/// The lines for one mandate: its file name; the parse message, or its
/// findings indented and its verdict; then a blank line.
pub open spec fn plain_outcome_lines(outcome: MandateOutcome) -> Seq<Seq<char>> {
    seq![outcome.file_name@] + match outcome.result {
        MandateResult::ParseFailed(message) => seq!["  failed to parse: "@ + message@],
        MandateResult::Validated(report) => indented(
            report_text_lines(report.errors@, report.warnings@),
        ) + seq![verdict_line(report)],
    } + seq![blank()]
}

/// The lines for each mandate in turn.
pub open spec fn plain_outcomes_lines(outcomes: Seq<MandateOutcome>) -> Seq<Seq<char>>
    decreases outcomes.len(),
{
    if outcomes.len() == 0 {
        Seq::<Seq<char>>::empty()
    } else {
        plain_outcomes_lines(outcomes.drop_last()) + plain_outcome_lines(outcomes.last())
    }
}

/// The whole report as it reads: the repository and the snapshot's size,
/// a blank line, the run warnings, each mandate, and a summary line.
pub open spec fn plain_report_lines(report: RunReportMandatesValidation) -> Seq<Seq<char>> {
    seq![
        "repository: "@ + report.root@,
        "snapshot: "@ + decimal(report.snapshot_entries as nat) + " entries"@,
        blank(),
    ] + warning_lines(report.warnings@) + plain_outcomes_lines(report.mandates@) + seq![
        decimal(report.mandates@.len()) + " mandates checked, "@ + decimal(
            plain_invalid_count(report.mandates@),
        ) + " invalid"@,
    ]
}

/// Whether one mandate's result counts as valid.
fn plain_result_valid(result: &MandateResult) -> (r: bool)
    ensures
        r == plain_result_is_valid(*result),
{
    match result {
        MandateResult::ParseFailed(_) => false,
        MandateResult::Validated(report) => report.is_valid(),
    }
}

/// The lines for one mandate.
fn plain_outcome_block(outcome: &MandateOutcome) -> (r: Vec<String>)
    ensures
        texts(r@) == plain_outcome_lines(*outcome),
{
    let mut lines: Vec<String> = Vec::new();
    lines.push(outcome.file_name.clone());
    match &outcome.result {
        MandateResult::ParseFailed(message) => {
            lines.push(concat2("  failed to parse: ", message.as_str()));
        },
        MandateResult::Validated(report) => {
            let body = validated_body(report);
            push_all(&mut lines, body);
        },
    }
    let ghost before = lines@;
    lines.push(String::new());
    assert(texts(lines@) =~= texts(before).push(blank()));
    assert(texts(lines@) =~= plain_outcome_lines(*outcome));
    lines
}

impl RunReportMandatesValidation {
    /// No mandate failed to parse, and every validated mandate is valid.
    pub fn is_valid(&self) -> (r: bool)
        ensures
            r == (forall|i: int|
                0 <= i < self.mandates@.len() ==> plain_result_is_valid(
                    #[trigger] self.mandates@[i].result,
                )),
    {
        let mut i: usize = 0;
        while i < self.mandates.len()
            invariant
                i <= self.mandates@.len(),
                forall|j: int| 0 <= j < i ==> plain_result_is_valid(#[trigger] self.mandates@[j].result),
            decreases self.mandates.len() - i,
        {
            if !plain_result_valid(&self.mandates[i].result) {
                return false;
            }
            i = i + 1;
        }
        true
    }

    /// The report rendered line by line: the repository and the snapshot's
    /// size, the run warnings, each mandate's outcome, then a summary line.
    pub fn lines(&self) -> (r: Vec<String>)
        ensures
            texts(r@) == plain_report_lines(*self),
    {
        let mut lines: Vec<String> = Vec::new();
        lines.push(concat2("repository: ", self.root.as_str()));
        let n = decimal_text(self.snapshot_entries);
        lines.push(concat3("snapshot: ", n.as_str(), " entries"));
        lines.push(String::new());
        let ghost head = texts(lines@);
        assert(head =~= seq![
            "repository: "@ + self.root@,
            "snapshot: "@ + decimal(self.snapshot_entries as nat) + " entries"@,
            blank(),
        ]);

        let mut w: usize = 0;
        while w < self.warnings.len()
            invariant
                w <= self.warnings@.len(),
                texts(lines@) == head + self.warnings@.take(w as int).map_values(
                    |x: RunWarning| run_warning_text(x),
                ),
            decreases self.warnings.len() - w,
        {
            let ghost before = lines@;
            let line = match &self.warnings[w] {
                RunWarning::NoMandatesFound { mandates_dir } => {
                    concat2("warning: no mandates found in ", mandates_dir.as_str())
                },
            };
            assert(line@ == run_warning_text(self.warnings@[w as int]));
            lines.push(line);
            assert(texts(lines@) =~= texts(before).push(line@));
            assert(self.warnings@.take(w + 1).map_values(|x: RunWarning| run_warning_text(x))
                =~= self.warnings@.take(w as int).map_values(|x: RunWarning| run_warning_text(x)).push(
                run_warning_text(self.warnings@[w as int]),
            ));
            w = w + 1;
        }
        assert(self.warnings@.take(self.warnings@.len() as int) =~= self.warnings@);
        if self.warnings.len() > 0 {
            let ghost before = lines@;
            lines.push(String::new());
            assert(texts(lines@) =~= texts(before).push(blank()));
        }
        assert(texts(lines@) =~= head + warning_lines(self.warnings@));
        let ghost head2 = texts(lines@);

        let mut invalid: usize = 0;
        let mut i: usize = 0;
        assert(self.mandates@.take(0) =~= Seq::<MandateOutcome>::empty());
        while i < self.mandates.len()
            invariant
                i <= self.mandates@.len(),
                invalid == plain_invalid_count(self.mandates@.take(i as int)),
                invalid <= i,
                texts(lines@) == head2 + plain_outcomes_lines(self.mandates@.take(i as int)),
            decreases self.mandates.len() - i,
        {
            assert(self.mandates@.take(i + 1).drop_last() =~= self.mandates@.take(i as int));
            assert(self.mandates@.take(i + 1).last() == self.mandates@[i as int]);
            let block = plain_outcome_block(&self.mandates[i]);
            push_all(&mut lines, block);
            if !plain_result_valid(&self.mandates[i].result) {
                invalid = invalid + 1;
            }
            i = i + 1;
        }
        assert(self.mandates@.take(self.mandates@.len() as int) =~= self.mandates@);
        let checked = decimal_text(self.mandates.len());
        let bad = decimal_text(invalid);
        let head3 = concat3(checked.as_str(), " mandates checked, ", bad.as_str());
        let ghost before = lines@;
        lines.push(concat2(head3.as_str(), " invalid"));
        assert(texts(lines@) =~= texts(before).push(lines@.last()@));
        assert(texts(lines@) =~= plain_report_lines(*self));
        lines
    }
}

/// Picks out the outcomes that are not valid: those that failed to parse
/// or whose report has errors.
pub open spec fn is_invalid_plain_outcome() -> spec_fn(MandateOutcome) -> bool {
    |o: MandateOutcome| !plain_result_is_valid(o.result)
}

proof fn lemma_plain_invalid_count_counts(outcomes: Seq<MandateOutcome>)
    ensures
        plain_invalid_count(outcomes) == outcomes.filter(is_invalid_plain_outcome()).len(),
    decreases outcomes.len(),
{
    let q = is_invalid_plain_outcome();
    if outcomes.len() == 0 {
        lemma_filter_empty(q);
    } else {
        let init = outcomes.drop_last();
        lemma_plain_invalid_count_counts(init);
        assert(outcomes =~= init.push(outcomes.last()));
        lemma_filter_push(init, outcomes.last(), q);
    }
}

/// The summary line counts every mandate checked and every invalid one:
/// its second number is how many outcomes failed to parse or have errors,
/// each counted once.
pub proof fn lemma_plain_summary_counts_every_invalid(report: RunReportMandatesValidation)
    ensures
        plain_report_lines(report).last() == decimal(report.mandates@.len()) + " mandates checked, "@ + decimal(
            report.mandates@.filter(is_invalid_plain_outcome()).len(),
        ) + " invalid"@,
{
    lemma_plain_invalid_count_counts(report.mandates@);
}

} // verus!
