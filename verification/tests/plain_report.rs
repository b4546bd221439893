use mandate::plain_report::{
    MandateOutcome, MandateResult, RunReportMandatesValidation, RunWarning,
};
use mandate::validation::{ValidationError, ValidationReport, ValidationWarning};

fn valid_report() -> ValidationReport {
    ValidationReport {
        errors: Vec::new(),
        warnings: Vec::new(),
        rule_count: 1,
        doc_count: 1,
        code_count: 1,
    }
}

fn invalid_report() -> ValidationReport {
    ValidationReport {
        errors: vec![ValidationError::DocMissing {
            doc: "docs/a.md".to_string(),
        }],
        warnings: vec![ValidationWarning::UnreferencedRule {
            id: "x".to_string(),
        }],
        rule_count: 1,
        doc_count: 1,
        code_count: 1,
    }
}

#[test]
fn run_report_lines_renders_a_parse_failure() {
    let run = RunReportMandatesValidation {
        root: "/repo".to_string(),
        snapshot_entries: 3,
        warnings: Vec::new(),
        mandates: vec![MandateOutcome {
            file_name: "bad.yaml".to_string(),
            result: MandateResult::ParseFailed("unknown field 'bogus'".to_string()),
        }],
    };

    assert_eq!(
        run.lines(),
        vec![
            "repository: /repo".to_string(),
            "snapshot: 3 entries".to_string(),
            String::new(),
            "bad.yaml".to_string(),
            "  failed to parse: unknown field 'bogus'".to_string(),
            String::new(),
            "1 mandates checked, 1 invalid".to_string(),
        ]
    );
    assert!(!run.is_valid());
}

#[test]
fn plain_report_renders_one_valid_and_one_invalid_mandate() {
    let run = RunReportMandatesValidation {
        root: "/repo".to_string(),
        snapshot_entries: 42,
        warnings: Vec::new(),
        mandates: vec![
            MandateOutcome {
                file_name: "a.yaml".to_string(),
                result: MandateResult::Validated(valid_report()),
            },
            MandateOutcome {
                file_name: "b.yaml".to_string(),
                result: MandateResult::Validated(invalid_report()),
            },
        ],
    };

    assert_eq!(
        run.lines(),
        vec![
            "repository: /repo".to_string(),
            "snapshot: 42 entries".to_string(),
            String::new(),
            "a.yaml".to_string(),
            "  valid: 1 rules, 1 documents, 1 source files".to_string(),
            String::new(),
            "b.yaml".to_string(),
            "  error: governed document not found: docs/a.md".to_string(),
            "  warning: rule 'x' is defined but no document references it".to_string(),
            "  invalid: 1 errors, 1 warnings".to_string(),
            String::new(),
            "2 mandates checked, 1 invalid".to_string(),
        ]
    );
    assert!(!run.is_valid());
}

#[test]
fn plain_report_renders_the_no_mandates_warning() {
    let run = RunReportMandatesValidation {
        root: "/repo".to_string(),
        snapshot_entries: 5,
        warnings: vec![RunWarning::NoMandatesFound {
            mandates_dir: ".mandate/mandates".to_string(),
        }],
        mandates: Vec::new(),
    };

    assert_eq!(
        run.lines(),
        vec![
            "repository: /repo".to_string(),
            "snapshot: 5 entries".to_string(),
            String::new(),
            "warning: no mandates found in .mandate/mandates".to_string(),
            String::new(),
            "0 mandates checked, 0 invalid".to_string(),
        ]
    );
    assert!(run.is_valid());
}

#[test]
fn plain_report_is_valid_only_without_failures() {
    let all_valid = RunReportMandatesValidation {
        root: "/repo".to_string(),
        snapshot_entries: 1,
        warnings: Vec::new(),
        mandates: vec![MandateOutcome {
            file_name: "a.yaml".to_string(),
            result: MandateResult::Validated(valid_report()),
        }],
    };
    assert!(all_valid.is_valid());

    let one_parse_failed = RunReportMandatesValidation {
        mandates: vec![MandateOutcome {
            file_name: "a.yaml".to_string(),
            result: MandateResult::ParseFailed("bad".to_string()),
        }],
        ..all_valid
    };
    assert!(!one_parse_failed.is_valid());
}
