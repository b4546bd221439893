//! What a run's result depends on: when each port answers each question one
//! way, the answers decide the result, so a run of the use case and a run
//! of the command line over the same ports report the same thing.

use std::path::Path;

use vstd::prelude::*;

use crate::file_tree::FileTreeSnapshot;
use crate::fs_path::parent_path;
use crate::ports::{
    FileTreeSource, MandateFile, MandateParseError, MandateParser, MandateStore, SourceError,
    StoreError,
};
use crate::mandate::Mandate;
use crate::run_mandates::{
    all_listed, checked_from, climbed, file_names, found_run, names_to_run, read_failed, read_ok,
    result_of, root_found, run_along, run_result_holds, RunError,
};
use crate::run_report::{
    invalid_count, location_lines, outcome_lines, outcomes_lines, result_is_valid,
    run_report_lines, run_warning_text, MandateOutcome, MandateResult, RunLocation,
    RunReportMandatesValidation, RunWarning,
};
use crate::text::texts;
use crate::validation::ValidationReport;

verus! {

/// The file tree source answers each question one way: one answer per
/// directory and name, one snapshot answer per root.
pub open spec fn source_answers_one_way<S: FileTreeSource>(source: &S) -> bool {
    &&& forall|d: &Path, n1: &str, n2: &str, a: Result<bool, SourceError>, b: Result<bool, SourceError>|
        #![trigger source.finds(d, n1, a), source.finds(d, n2, b)]
        n1@ == n2@ && source.finds(d, n1, a) && source.finds(d, n2, b) ==> a == b
    &&& forall|
        d: &Path,
        a: Result<FileTreeSnapshot, SourceError>,
        b: Result<FileTreeSnapshot, SourceError>,
    |
        #![trigger source.snaps(d, a), source.snaps(d, b)]
        source.snaps(d, a) && source.snaps(d, b) ==> a == b
}

/// The store answers each question one way: one listing per root, one
/// answer per root and file name.
pub open spec fn store_answers_one_way<M: MandateStore>(store: &M) -> bool {
    &&& forall|d: &Path, a: Result<Vec<String>, StoreError>, b: Result<Vec<String>, StoreError>|
        #![trigger store.lists_names(d, a), store.lists_names(d, b)]
        store.lists_names(d, a) && store.lists_names(d, b) ==> a == b
    &&& forall|
        d: &Path,
        n1: &str,
        n2: &str,
        a: Result<MandateFile, StoreError>,
        b: Result<MandateFile, StoreError>,
    |
        #![trigger store.reads_file(d, n1, a), store.reads_file(d, n2, b)]
        n1@ == n2@ && store.reads_file(d, n1, a) && store.reads_file(d, n2, b) ==> a == b
}

/// The parser gives one result per text.
pub open spec fn parser_answers_one_way<P: MandateParser>(parser: &P) -> bool {
    forall|
        t1: &str,
        t2: &str,
        a: Result<Mandate, MandateParseError>,
        b: Result<Mandate, MandateParseError>,
    |
        #![trigger parser.parses(t1, a), parser.parses(t2, b)]
        t1@ == t2@ && parser.parses(t1, a) && parser.parses(t2, b) ==> a == b
}

/// All three ports answer each question one way.
pub open spec fn ports_answer_one_way<S: FileTreeSource, M: MandateStore, P: MandateParser>(
    source: &S,
    store: &M,
    parser: &P,
) -> bool {
    &&& source_answers_one_way(source)
    &&& store_answers_one_way(store)
    &&& parser_answers_one_way(parser)
}

/// Two validation reports hold the same findings and counts.
pub open spec fn same_validation(a: ValidationReport, b: ValidationReport) -> bool {
    &&& a.errors@ == b.errors@
    &&& a.warnings@ == b.warnings@
    &&& a.rule_count == b.rule_count
    &&& a.doc_count == b.doc_count
    &&& a.code_count == b.code_count
}

/// Two mandate results say the same: the same parse error, or reports
/// with the same findings and counts.
pub open spec fn same_mandate_result(a: MandateResult, b: MandateResult) -> bool {
    match (a, b) {
        (MandateResult::ParseFailed(e1), MandateResult::ParseFailed(e2)) => e1 == e2,
        (MandateResult::Validated(x), MandateResult::Validated(y)) => same_validation(x, y),
        _ => false,
    }
}

/// Two locations name the same place.
pub open spec fn same_location(a: RunLocation, b: RunLocation) -> bool {
    match (a, b) {
        (
            RunLocation::Found { root: r1, snapshot_entries: n1 },
            RunLocation::Found { root: r2, snapshot_entries: n2 },
        ) => r1@ == r2@ && n1 == n2,
        (RunLocation::NotFound { searched_from: s1 }, RunLocation::NotFound { searched_from: s2 }) => s1@
            == s2@,
        _ => false,
    }
}

/// Two reports say the same: the same location, the same warnings, and
/// the same mandates in the same order with the same results.
pub open spec fn same_report(a: RunReportMandatesValidation, b: RunReportMandatesValidation) -> bool {
    &&& same_location(a.location, b.location)
    &&& a.warnings@.len() == b.warnings@.len()
    &&& forall|i: int|
        0 <= i < a.warnings@.len() ==> run_warning_text(#[trigger] a.warnings@[i]) == run_warning_text(
            b.warnings@[i],
        )
    &&& a.mandates@.len() == b.mandates@.len()
    &&& forall|i: int|
        0 <= i < a.mandates@.len() ==> (#[trigger] a.mandates@[i]).file_name == b.mandates@[i].file_name
            && same_mandate_result(a.mandates@[i].result, b.mandates@[i].result)
}

/// Two run errors say the same.
pub open spec fn same_error(a: RunError, b: RunError) -> bool {
    match (a, b) {
        (
            RunError::UnknownMandate { name: n1, available: a1 },
            RunError::UnknownMandate { name: n2, available: a2 },
        ) => n1 == n2 && a1@ == a2@,
        (RunError::Source(m1), RunError::Source(m2)) => m1 == m2,
        (RunError::Store(m1), RunError::Store(m2)) => m1 == m2,
        _ => false,
    }
}

/// Two run results say the same: both a report, the same one, or both an
/// error, the same one.
pub open spec fn same_run_result(
    a: Result<RunReportMandatesValidation, RunError>,
    b: Result<RunReportMandatesValidation, RunError>,
) -> bool {
    match (a, b) {
        (Ok(x), Ok(y)) => same_report(x, y),
        (Err(x), Err(y)) => same_error(x, y),
        _ => false,
    }
}

/// The search for a root can stop at `last`: it has no parent, or the
/// source did not answer `Ok(false)` there.
pub open spec fn stops_at<S: FileTreeSource>(source: &S, last: &Path) -> bool {
    ||| parent_path(last) is None
    ||| source.finds(last, ".mandate", Ok(true))
    ||| exists|e: SourceError| #[trigger] source.finds(last, ".mandate", Err(e))
}

/// Outcomes that say the same read the same and count as many invalid.
proof fn lemma_same_outcomes_read_the_same(xs: Seq<MandateOutcome>, ys: Seq<MandateOutcome>)
    requires
        xs.len() == ys.len(),
        forall|i: int|
            0 <= i < xs.len() ==> (#[trigger] xs[i]).file_name == ys[i].file_name && same_mandate_result(
                xs[i].result,
                ys[i].result,
            ),
    ensures
        outcomes_lines(xs) == outcomes_lines(ys),
        invalid_count(xs) == invalid_count(ys),
    decreases xs.len(),
{
    if xs.len() > 0 {
        let xi = xs.drop_last();
        let yi = ys.drop_last();
        assert forall|i: int| 0 <= i < xi.len() implies (#[trigger] xi[i]).file_name == yi[i].file_name
            && same_mandate_result(xi[i].result, yi[i].result) by {
            assert(xi[i] == xs[i]);
            assert(yi[i] == ys[i]);
        }
        lemma_same_outcomes_read_the_same(xi, yi);
        let x = xs.last();
        let y = ys.last();
        assert(x == xs[xs.len() - 1]);
        assert(outcome_lines(x) == outcome_lines(y));
        assert(result_is_valid(x.result) == result_is_valid(y.result));
    }
}

/// Reports that say the same read the same line for line, and one is
/// valid exactly when the other is.
pub proof fn lemma_same_report_reads_the_same(a: RunReportMandatesValidation, b: RunReportMandatesValidation)
    requires
        same_report(a, b),
    ensures
        run_report_lines(a) == run_report_lines(b),
        (forall|i: int| 0 <= i < a.mandates@.len() ==> result_is_valid(#[trigger] a.mandates@[i].result))
            <==> (forall|i: int|
            0 <= i < b.mandates@.len() ==> result_is_valid(#[trigger] b.mandates@[i].result)),
{
    lemma_same_outcomes_read_the_same(a.mandates@, b.mandates@);
    assert(location_lines(a.location) == location_lines(b.location));
    assert(a.warnings@.map_values(|w: RunWarning| run_warning_text(w)) =~= b.warnings@.map_values(
        |w: RunWarning| run_warning_text(w),
    ));
    if forall|i: int| 0 <= i < a.mandates@.len() ==> result_is_valid(#[trigger] a.mandates@[i].result) {
        assert forall|i: int| 0 <= i < b.mandates@.len() implies result_is_valid(
            #[trigger] b.mandates@[i].result,
        ) by {
            assert(result_is_valid(a.mandates@[i].result));
        }
    }
    if forall|i: int| 0 <= i < b.mandates@.len() ==> result_is_valid(#[trigger] b.mandates@[i].result) {
        assert forall|i: int| 0 <= i < a.mandates@.len() implies result_is_valid(
            #[trigger] a.mandates@[i].result,
        ) by {
            assert(result_is_valid(b.mandates@[i].result));
        }
    }
}

/// Two searches from one start agree level by level.
proof fn lemma_chains_agree<S: FileTreeSource>(source: &S, start: &Path, c1: Seq<&Path>, c2: Seq<&Path>, i: int)
    requires
        climbed(source, start, c1),
        climbed(source, start, c2),
        0 <= i < c1.len(),
        i < c2.len(),
    ensures
        c1[i] == c2[i],
    decreases i,
{
    if i > 0 {
        lemma_chains_agree(source, start, c1, c2, i - 1);
        assert(parent_path(c1[i - 1]) == Some(c1[i]));
        assert(parent_path(c2[i - 1]) == Some(c2[i]));
    }
}

/// A search that stopped at the last level of `c1` cannot have gone past it.
proof fn lemma_no_later_stop<S: FileTreeSource>(source: &S, start: &Path, c1: Seq<&Path>, c2: Seq<&Path>)
    requires
        source_answers_one_way(source),
        climbed(source, start, c1),
        climbed(source, start, c2),
        stops_at(source, c1.last()),
    ensures
        c2.len() <= c1.len(),
{
    if c1.len() < c2.len() {
        let k = c1.len() - 1;
        lemma_chains_agree(source, start, c1, c2, k);
        assert(parent_path(c2[k]) == Some(c2[k + 1]));
        assert(source.finds(c2[k], ".mandate", Ok(false)));
        if source.finds(c1.last(), ".mandate", Ok(true)) {
            assert(false);
        }
        if exists|e: SourceError| #[trigger] source.finds(c1.last(), ".mandate", Err(e)) {
            let e = choose|e: SourceError| #[trigger] source.finds(c1.last(), ".mandate", Err(e));
            assert(false);
        }
    }
}

/// Every result a search can stop with stops it at a level where it may
/// stop.
proof fn lemma_run_stops<S: FileTreeSource, M: MandateStore, P: MandateParser>(
    source: &S,
    store: &M,
    parser: &P,
    start: &Path,
    last: &Path,
    selected: Seq<String>,
    r: Result<RunReportMandatesValidation, RunError>,
)
    requires
        run_along(source, store, parser, start, last, selected, r),
    ensures
        stops_at(source, last),
{
    match r {
        Ok(report) => match report.location {
            RunLocation::NotFound { .. } => {},
            RunLocation::Found { .. } => {
                let (s, av) = choose|s: FileTreeSnapshot, av: Vec<String>|
                    #[trigger] found_run(source, store, parser, last, report, s, av, selected);
                assert(found_run(source, store, parser, last, report, s, av, selected));
            },
        },
        Err(RunError::Source(message)) => {
            let e = choose|e: SourceError|
                #![trigger source.finds(last, ".mandate", Err(e))]
                #![trigger source.snaps(last, Err(e))]
                e.0 == message && (source.finds(last, ".mandate", Err(e)) || (source.finds(
                    last,
                    ".mandate",
                    Ok(true),
                ) && source.snaps(last, Err(e))));
            if source.finds(last, ".mandate", Err(e)) {
                assert(exists|e: SourceError| #[trigger] source.finds(last, ".mandate", Err(e)));
            }
        },
        _ => {},
    }
}

/// Two outcomes checked under one root against one tree, for file names
/// with the same text, say the same.
proof fn lemma_checked_agree<M: MandateStore, P: MandateParser>(
    store: &M,
    parser: &P,
    root: &Path,
    tree: Map<Seq<char>, crate::file_tree::EntryKind>,
    n1: String,
    n2: String,
    o1: MandateOutcome,
    o2: MandateOutcome,
)
    requires
        store_answers_one_way(store),
        parser_answers_one_way(parser),
        n1@ == n2@,
        checked_from(store, parser, root, tree, n1, o1),
        checked_from(store, parser, root, tree, n2, o2),
    ensures
        same_mandate_result(o1.result, o2.result),
{
    let (a1, f1) = choose|n: &str, file: MandateFile|
        #![trigger store.reads_file(root, n, Ok(file))]
        n@ == n1@ && store.reads_file(root, n, Ok(file)) && exists|
            t: &str,
            parsed: Result<Mandate, MandateParseError>,
        |
            #![trigger parser.parses(t, parsed)]
            t@ == file.text@ && parser.parses(t, parsed) && result_of(parsed, o1.result, tree);
    let (a2, f2) = choose|n: &str, file: MandateFile|
        #![trigger store.reads_file(root, n, Ok(file))]
        n@ == n2@ && store.reads_file(root, n, Ok(file)) && exists|
            t: &str,
            parsed: Result<Mandate, MandateParseError>,
        |
            #![trigger parser.parses(t, parsed)]
            t@ == file.text@ && parser.parses(t, parsed) && result_of(parsed, o2.result, tree);
    assert(Ok::<MandateFile, StoreError>(f1) == Ok::<MandateFile, StoreError>(f2));
    let (t1, p1) = choose|t: &str, parsed: Result<Mandate, MandateParseError>|
        #![trigger parser.parses(t, parsed)]
        t@ == f1.text@ && parser.parses(t, parsed) && result_of(parsed, o1.result, tree);
    let (t2, p2) = choose|t: &str, parsed: Result<Mandate, MandateParseError>|
        #![trigger parser.parses(t, parsed)]
        t@ == f2.text@ && parser.parses(t, parsed) && result_of(parsed, o2.result, tree);
    assert(p1 == p2);
}

/// Two found runs at one root say the same.
proof fn lemma_found_agree<S: FileTreeSource, M: MandateStore, P: MandateParser>(
    source: &S,
    store: &M,
    parser: &P,
    root: &Path,
    selected: Seq<String>,
    a: RunReportMandatesValidation,
    s1: FileTreeSnapshot,
    av1: Vec<String>,
    b: RunReportMandatesValidation,
    s2: FileTreeSnapshot,
    av2: Vec<String>,
)
    requires
        ports_answer_one_way(source, store, parser),
        found_run(source, store, parser, root, a, s1, av1, selected),
        found_run(source, store, parser, root, b, s2, av2, selected),
    ensures
        same_report(a, b),
{
    assert(Ok::<FileTreeSnapshot, SourceError>(s1) == Ok::<FileTreeSnapshot, SourceError>(s2));
    assert(Ok::<Vec<String>, StoreError>(av1) == Ok::<Vec<String>, StoreError>(av2));
    let names = names_to_run(av1@, selected);
    assert(file_names(a.mandates@).len() == a.mandates@.len());
    assert(file_names(b.mandates@).len() == b.mandates@.len());
    assert forall|i: int| 0 <= i < a.mandates@.len() implies (#[trigger] a.mandates@[i]).file_name
        == b.mandates@[i].file_name && same_mandate_result(a.mandates@[i].result, b.mandates@[i].result) by {
        assert(file_names(a.mandates@)[i] == a.mandates@[i].file_name);
        assert(file_names(b.mandates@)[i] == b.mandates@[i].file_name);
        assert(checked_from(store, parser, root, s1@, a.mandates@[i].file_name, a.mandates@[i]));
        assert(checked_from(store, parser, root, s2@, b.mandates@[i].file_name, b.mandates@[i]));
        lemma_checked_agree(
            store,
            parser,
            root,
            s1@,
            a.mandates@[i].file_name,
            b.mandates@[i].file_name,
            a.mandates@[i],
            b.mandates@[i],
        );
    }
    assert forall|i: int| 0 <= i < a.warnings@.len() implies run_warning_text(#[trigger] a.warnings@[i])
        == run_warning_text(b.warnings@[i]) by {}
}

/// A found run and a store error at one root cannot both come of ports
/// that answer one way.
proof fn lemma_found_excludes_store<S: FileTreeSource, M: MandateStore, P: MandateParser>(
    source: &S,
    store: &M,
    parser: &P,
    start: &Path,
    root: &Path,
    selected: Seq<String>,
    a: RunReportMandatesValidation,
    s: FileTreeSnapshot,
    av: Vec<String>,
    message: String,
)
    requires
        ports_answer_one_way(source, store, parser),
        found_run(source, store, parser, root, a, s, av, selected),
    ensures
        !run_along(source, store, parser, start, root, selected, Err(RunError::Store(message))),
{
    if !run_along(source, store, parser, start, root, selected, Err(RunError::Store(message))) {
    } else if exists|e: StoreError| #[trigger] store.lists_names(root, Err(e)) && e.0 == message {
        let e = choose|e: StoreError| #[trigger] store.lists_names(root, Err(e)) && e.0 == message;
        assert(store.lists_names(root, Ok(av)));
    } else {
        let av2 = choose|available: Vec<String>|
            #[trigger] store.lists_names(root, Ok(available)) && all_listed(available@, selected)
                && exists|k: int|
                0 <= k < names_to_run(available@, selected).len() && read_failed(
                    store,
                    root,
                    #[trigger] names_to_run(available@, selected)[k],
                    message,
                ) && forall|j: int|
                    0 <= j < k ==> read_ok(store, root, #[trigger] names_to_run(available@, selected)[j]);
        assert(Ok::<Vec<String>, StoreError>(av) == Ok::<Vec<String>, StoreError>(av2));
        let names = names_to_run(av@, selected);
        let k = choose|k: int| 0 <= k < names.len() && read_failed(store, root, #[trigger] names[k], message)
            && forall|j: int| 0 <= j < k ==> read_ok(store, root, #[trigger] names[j]);
        assert(file_names(a.mandates@).len() == a.mandates@.len());
        assert(file_names(a.mandates@)[k] == a.mandates@[k].file_name);
        assert(checked_from(store, parser, root, s@, a.mandates@[k].file_name, a.mandates@[k]));
        let (n, e) = choose|n: &str, e: StoreError|
            #![trigger store.reads_file(root, n, Err(e))]
            n@ == names[k]@ && store.reads_file(root, n, Err(e)) && e.0 == message;
        assert(store.reads_file(root, n, Err(e)));
    }
}

/// A source error at `last` leaves no root found there.
proof fn lemma_source_error_finds_no_root<S: FileTreeSource, M: MandateStore, P: MandateParser>(
    source: &S,
    store: &M,
    parser: &P,
    start: &Path,
    last: &Path,
    selected: Seq<String>,
    message: String,
)
    requires
        source_answers_one_way(source),
        run_along(source, store, parser, start, last, selected, Err(RunError::Source(message))),
    ensures
        !root_found(source, last),
{
    if root_found(source, last) {
        let s = choose|snapshot: FileTreeSnapshot| #[trigger] source.snaps(last, Ok(snapshot));
        let e = choose|e: SourceError|
            #![trigger source.finds(last, ".mandate", Err(e))]
            #![trigger source.snaps(last, Err(e))]
            e.0 == message && (source.finds(last, ".mandate", Err(e)) || (source.finds(
                last,
                ".mandate",
                Ok(true),
            ) && source.snaps(last, Err(e))));
        assert(source.finds(last, ".mandate", Ok(true)));
        assert(source.snaps(last, Ok(s)));
        if source.finds(last, ".mandate", Err(e)) {
            assert(false);
        } else {
            assert(source.snaps(last, Err(e)));
            assert(false);
        }
    }
}

/// A store error and an unknown name at one root cannot both come of
/// ports that answer one way.
proof fn lemma_store_error_excludes_unknown<S: FileTreeSource, M: MandateStore, P: MandateParser>(
    source: &S,
    store: &M,
    parser: &P,
    start: &Path,
    last: &Path,
    selected: Seq<String>,
    message: String,
    name: String,
    available: Vec<String>,
)
    requires
        store_answers_one_way(store),
        run_along(source, store, parser, start, last, selected, Err(RunError::Store(message))),
    ensures
        !run_along(
            source,
            store,
            parser,
            start,
            last,
            selected,
            Err(RunError::UnknownMandate { name: name, available: available }),
        ),
{
    if run_along(
        source,
        store,
        parser,
        start,
        last,
        selected,
        Err(RunError::UnknownMandate { name: name, available: available }),
    ) {
        let listed = choose|listed: Vec<String>|
            #[trigger] store.lists_names(last, Ok(listed)) && listed@ == available@;
        let k = choose|k: int|
            0 <= k < selected.len() && #[trigger] selected[k] == name && !texts(available@).contains(
                name@,
            ) && (forall|j: int| 0 <= j < k ==> texts(available@).contains((#[trigger] selected[j])@));
        if exists|e: StoreError| #[trigger] store.lists_names(last, Err(e)) && e.0 == message {
            let e = choose|e: StoreError| #[trigger] store.lists_names(last, Err(e)) && e.0 == message;
            assert(store.lists_names(last, Ok(listed)));
            assert(false);
        } else {
            let av = choose|av: Vec<String>|
                #[trigger] store.lists_names(last, Ok(av)) && all_listed(av@, selected) && exists|k: int|
                    0 <= k < names_to_run(av@, selected).len() && read_failed(
                        store,
                        last,
                        #[trigger] names_to_run(av@, selected)[k],
                        message,
                    ) && forall|j: int|
                        0 <= j < k ==> read_ok(store, last, #[trigger] names_to_run(av@, selected)[j]);
            assert(Ok::<Vec<String>, StoreError>(av) == Ok::<Vec<String>, StoreError>(listed));
            assert(texts(av@).contains(selected[k]@));
            assert(false);
        }
    }
}

/// A report and an error at one level cannot both come of ports that
/// answer one way.
proof fn lemma_report_excludes_error<S: FileTreeSource, M: MandateStore, P: MandateParser>(
    source: &S,
    store: &M,
    parser: &P,
    start: &Path,
    last: &Path,
    selected: Seq<String>,
    a: RunReportMandatesValidation,
    e: RunError,
)
    requires
        ports_answer_one_way(source, store, parser),
        run_along(source, store, parser, start, last, selected, Ok(a)),
    ensures
        !run_along(source, store, parser, start, last, selected, Err(e)),
{
    if run_along(source, store, parser, start, last, selected, Err(e)) {
        match a.location {
            RunLocation::NotFound { .. } => {
                assert(source.finds(last, ".mandate", Ok(false)));
                match e {
                    RunError::Source(message) => {
                        let x = choose|x: SourceError|
                            #![trigger source.finds(last, ".mandate", Err(x))]
                            #![trigger source.snaps(last, Err(x))]
                            x.0 == message && (source.finds(last, ".mandate", Err(x)) || (source.finds(
                                last,
                                ".mandate",
                                Ok(true),
                            ) && source.snaps(last, Err(x))));
                        if source.finds(last, ".mandate", Err(x)) {
                            assert(false);
                        } else {
                            assert(source.finds(last, ".mandate", Ok(true)));
                            assert(false);
                        }
                    },
                    _ => {
                        assert(root_found(source, last));
                        assert(source.finds(last, ".mandate", Ok(true)));
                        assert(false);
                    },
                }
            },
            RunLocation::Found { .. } => {
                let (s, av) = choose|s: FileTreeSnapshot, av: Vec<String>|
                    #[trigger] found_run(source, store, parser, last, a, s, av, selected);
                assert(found_run(source, store, parser, last, a, s, av, selected));
                assert(source.snaps(last, Ok(s)));
                assert(root_found(source, last));
                match e {
                    RunError::Source(message) => {
                        lemma_source_error_finds_no_root(source, store, parser, start, last, selected, message);
                    },
                    RunError::Store(message) => {
                        lemma_found_excludes_store(source, store, parser, start, last, selected, a, s, av, message);
                    },
                    RunError::UnknownMandate { name, available } => {
                        let listed = choose|listed: Vec<String>|
                            #[trigger] store.lists_names(last, Ok(listed)) && listed@ == available@;
                        let k = choose|k: int|
                            0 <= k < selected.len() && #[trigger] selected[k] == name && !texts(
                                available@,
                            ).contains(name@) && (forall|j: int|
                                0 <= j < k ==> texts(available@).contains((#[trigger] selected[j])@));
                        assert(store.lists_names(last, Ok(av)));
                        assert(Ok::<Vec<String>, StoreError>(av) == Ok::<Vec<String>, StoreError>(listed));
                        assert(texts(av@).contains(selected[k]@));
                        assert(false);
                    },
                }
            },
        }
    }
}

/// Two errors at one level say the same.
proof fn lemma_errors_agree<S: FileTreeSource, M: MandateStore, P: MandateParser>(
    source: &S,
    store: &M,
    parser: &P,
    start: &Path,
    last: &Path,
    selected: Seq<String>,
    e1: RunError,
    e2: RunError,
)
    requires
        ports_answer_one_way(source, store, parser),
        run_along(source, store, parser, start, last, selected, Err(e1)),
        run_along(source, store, parser, start, last, selected, Err(e2)),
    ensures
        same_error(e1, e2),
{
    match (e1, e2) {
        (RunError::Source(m1), RunError::Source(m2)) => {
            let x1 = choose|x: SourceError|
                #![trigger source.finds(last, ".mandate", Err(x))]
                #![trigger source.snaps(last, Err(x))]
                x.0 == m1 && (source.finds(last, ".mandate", Err(x)) || (source.finds(
                    last,
                    ".mandate",
                    Ok(true),
                ) && source.snaps(last, Err(x))));
            let x2 = choose|x: SourceError|
                #![trigger source.finds(last, ".mandate", Err(x))]
                #![trigger source.snaps(last, Err(x))]
                x.0 == m2 && (source.finds(last, ".mandate", Err(x)) || (source.finds(
                    last,
                    ".mandate",
                    Ok(true),
                ) && source.snaps(last, Err(x))));
            if source.finds(last, ".mandate", Err(x1)) {
                if !source.finds(last, ".mandate", Err(x2)) {
                    assert(source.finds(last, ".mandate", Ok(true)));
                }
            } else if source.finds(last, ".mandate", Err(x2)) {
                assert(source.finds(last, ".mandate", Ok(true)));
            } else {
                assert(source.snaps(last, Err(x1)));
                assert(source.snaps(last, Err(x2)));
            }
        },
        (RunError::Source(m1), _) => {
            lemma_source_error_finds_no_root(source, store, parser, start, last, selected, m1);
        },
        (_, RunError::Source(m2)) => {
            lemma_source_error_finds_no_root(source, store, parser, start, last, selected, m2);
        },
        (RunError::Store(m1), RunError::Store(m2)) => {
            lemma_store_errors_agree(source, store, parser, start, last, selected, m1, m2);
        },
        (RunError::Store(m1), RunError::UnknownMandate { name, available }) => {
            lemma_store_error_excludes_unknown(source, store, parser, start, last, selected, m1, name, available);
        },
        (RunError::UnknownMandate { name, available }, RunError::Store(m2)) => {
            lemma_store_error_excludes_unknown(source, store, parser, start, last, selected, m2, name, available);
        },
        (
            RunError::UnknownMandate { name: n1, available: a1 },
            RunError::UnknownMandate { name: n2, available: a2 },
        ) => {
            let l1 = choose|listed: Vec<String>|
                #[trigger] store.lists_names(last, Ok(listed)) && listed@ == a1@;
            let l2 = choose|listed: Vec<String>|
                #[trigger] store.lists_names(last, Ok(listed)) && listed@ == a2@;
            assert(Ok::<Vec<String>, StoreError>(l1) == Ok::<Vec<String>, StoreError>(l2));
            let k1 = choose|k: int|
                0 <= k < selected.len() && #[trigger] selected[k] == n1 && !texts(a1@).contains(n1@) && (
                forall|j: int| 0 <= j < k ==> texts(a1@).contains((#[trigger] selected[j])@));
            let k2 = choose|k: int|
                0 <= k < selected.len() && #[trigger] selected[k] == n2 && !texts(a2@).contains(n2@) && (
                forall|j: int| 0 <= j < k ==> texts(a2@).contains((#[trigger] selected[j])@));
            if k1 < k2 {
                assert(texts(a2@).contains(selected[k1]@));
                assert(false);
            } else if k2 < k1 {
                assert(texts(a1@).contains(selected[k2]@));
                assert(false);
            }
        },
    }
}

/// Two store errors at one level carry the same message.
proof fn lemma_store_errors_agree<S: FileTreeSource, M: MandateStore, P: MandateParser>(
    source: &S,
    store: &M,
    parser: &P,
    start: &Path,
    last: &Path,
    selected: Seq<String>,
    m1: String,
    m2: String,
)
    requires
        store_answers_one_way(store),
        run_along(source, store, parser, start, last, selected, Err(RunError::Store(m1))),
        run_along(source, store, parser, start, last, selected, Err(RunError::Store(m2))),
    ensures
        m1 == m2,
{
    if exists|e: StoreError| #[trigger] store.lists_names(last, Err(e)) && e.0 == m1 {
        let x1 = choose|e: StoreError| #[trigger] store.lists_names(last, Err(e)) && e.0 == m1;
        if exists|e: StoreError| #[trigger] store.lists_names(last, Err(e)) && e.0 == m2 {
            let x2 = choose|e: StoreError| #[trigger] store.lists_names(last, Err(e)) && e.0 == m2;
            assert(store.lists_names(last, Err(x1)));
            assert(store.lists_names(last, Err(x2)));
        } else {
            let av = choose|av: Vec<String>| #[trigger] store.lists_names(last, Ok(av)) && all_listed(av@, selected);
            assert(store.lists_names(last, Err(x1)));
            assert(false);
        }
    } else if exists|e: StoreError| #[trigger] store.lists_names(last, Err(e)) && e.0 == m2 {
        let x2 = choose|e: StoreError| #[trigger] store.lists_names(last, Err(e)) && e.0 == m2;
        let av = choose|av: Vec<String>| #[trigger] store.lists_names(last, Ok(av)) && all_listed(av@, selected);
        assert(store.lists_names(last, Err(x2)));
        assert(false);
    } else {
        let av1 = choose|av: Vec<String>|
            #[trigger] store.lists_names(last, Ok(av)) && all_listed(av@, selected) && exists|k: int|
                0 <= k < names_to_run(av@, selected).len() && read_failed(
                    store,
                    last,
                    #[trigger] names_to_run(av@, selected)[k],
                    m1,
                ) && forall|j: int|
                    0 <= j < k ==> read_ok(store, last, #[trigger] names_to_run(av@, selected)[j]);
        let av2 = choose|av: Vec<String>|
            #[trigger] store.lists_names(last, Ok(av)) && all_listed(av@, selected) && exists|k: int|
                0 <= k < names_to_run(av@, selected).len() && read_failed(
                    store,
                    last,
                    #[trigger] names_to_run(av@, selected)[k],
                    m2,
                ) && forall|j: int|
                    0 <= j < k ==> read_ok(store, last, #[trigger] names_to_run(av@, selected)[j]);
        assert(Ok::<Vec<String>, StoreError>(av1) == Ok::<Vec<String>, StoreError>(av2));
        let names = names_to_run(av1@, selected);
        let k1 = choose|k: int| 0 <= k < names.len() && read_failed(store, last, #[trigger] names[k], m1)
            && forall|j: int| 0 <= j < k ==> read_ok(store, last, #[trigger] names[j]);
        let k2 = choose|k: int| 0 <= k < names.len() && read_failed(store, last, #[trigger] names[k], m2)
            && forall|j: int| 0 <= j < k ==> read_ok(store, last, #[trigger] names[j]);
        if k1 != k2 {
            let (lo, m) = if k1 < k2 { (k1, m1) } else { (k2, m2) };
            assert(read_ok(store, last, names[lo]));
            assert(read_failed(store, last, names[lo], m));
            let (n, f) = choose|n: &str, file: MandateFile|
                #![trigger store.reads_file(last, n, Ok(file))]
                n@ == names[lo]@ && store.reads_file(last, n, Ok(file));
            let (n2, x) = choose|n: &str, e: StoreError|
                #![trigger store.reads_file(last, n, Err(e))]
                n@ == names[lo]@ && store.reads_file(last, n, Err(e)) && e.0 == m;
            assert(store.reads_file(last, n, Ok(f)));
            assert(store.reads_file(last, n2, Err(x)));
            assert(false);
        } else {
            let (n1, x1) = choose|n: &str, e: StoreError|
                #![trigger store.reads_file(last, n, Err(e))]
                n@ == names[k1]@ && store.reads_file(last, n, Err(e)) && e.0 == m1;
            let (n2, x2) = choose|n: &str, e: StoreError|
                #![trigger store.reads_file(last, n, Err(e))]
                n@ == names[k1]@ && store.reads_file(last, n, Err(e)) && e.0 == m2;
            assert(store.reads_file(last, n1, Err(x1)));
            assert(store.reads_file(last, n2, Err(x2)));
        }
    }
}

/// Two results of searches that stopped at one level say the same.
proof fn lemma_along_agree<S: FileTreeSource, M: MandateStore, P: MandateParser>(
    source: &S,
    store: &M,
    parser: &P,
    start: &Path,
    last: &Path,
    selected: Seq<String>,
    r1: Result<RunReportMandatesValidation, RunError>,
    r2: Result<RunReportMandatesValidation, RunError>,
)
    requires
        ports_answer_one_way(source, store, parser),
        run_along(source, store, parser, start, last, selected, r1),
        run_along(source, store, parser, start, last, selected, r2),
    ensures
        same_run_result(r1, r2),
{
    match (r1, r2) {
        (Ok(a), Ok(b)) => {
            match (a.location, b.location) {
                (RunLocation::Found { .. }, RunLocation::Found { .. }) => {
                    let (s1, av1) = choose|s: FileTreeSnapshot, av: Vec<String>|
                        #[trigger] found_run(source, store, parser, last, a, s, av, selected);
                    let (s2, av2) = choose|s: FileTreeSnapshot, av: Vec<String>|
                        #[trigger] found_run(source, store, parser, last, b, s, av, selected);
                    lemma_found_agree(source, store, parser, last, selected, a, s1, av1, b, s2, av2);
                },
                (RunLocation::NotFound { .. }, RunLocation::NotFound { .. }) => {},
                (RunLocation::NotFound { .. }, RunLocation::Found { .. }) => {
                    let (s2, av2) = choose|s: FileTreeSnapshot, av: Vec<String>|
                        #[trigger] found_run(source, store, parser, last, b, s, av, selected);
                    assert(source.finds(last, ".mandate", Ok(true)));
                    assert(source.finds(last, ".mandate", Ok(false)));
                },
                (RunLocation::Found { .. }, RunLocation::NotFound { .. }) => {
                    let (s1, av1) = choose|s: FileTreeSnapshot, av: Vec<String>|
                        #[trigger] found_run(source, store, parser, last, a, s, av, selected);
                    assert(source.finds(last, ".mandate", Ok(true)));
                    assert(source.finds(last, ".mandate", Ok(false)));
                },
            }
        },
        (Ok(a), Err(e)) => {
            lemma_report_excludes_error(source, store, parser, start, last, selected, a, e);
        },
        (Err(e), Ok(b)) => {
            lemma_report_excludes_error(source, store, parser, start, last, selected, b, e);
        },
        (Err(e1), Err(e2)) => {
            lemma_errors_agree(source, store, parser, start, last, selected, e1, e2);
        },
    }
}

/// With ports that answer each question one way, everything a run from
/// `start_dir` selecting `selected` can produce says the same: two results
/// that both hold of those ports are both the same report or both the same
/// error.
pub proof fn lemma_run_result_determined<S: FileTreeSource, M: MandateStore, P: MandateParser>(
    source: &S,
    store: &M,
    parser: &P,
    start_dir: &Path,
    selected: Seq<String>,
    r1: Result<RunReportMandatesValidation, RunError>,
    r2: Result<RunReportMandatesValidation, RunError>,
)
    requires
        ports_answer_one_way(source, store, parser),
        run_result_holds(source, store, parser, start_dir, selected, r1),
        run_result_holds(source, store, parser, start_dir, selected, r2),
    ensures
        same_run_result(r1, r2),
{
    let c1 = choose|chain: Seq<&Path>|
        #[trigger] climbed(source, start_dir, chain) && run_along(
            source,
            store,
            parser,
            start_dir,
            chain.last(),
            selected,
            r1,
        );
    let c2 = choose|chain: Seq<&Path>|
        #[trigger] climbed(source, start_dir, chain) && run_along(
            source,
            store,
            parser,
            start_dir,
            chain.last(),
            selected,
            r2,
        );
    lemma_run_stops(source, store, parser, start_dir, c1.last(), selected, r1);
    lemma_run_stops(source, store, parser, start_dir, c2.last(), selected, r2);
    lemma_no_later_stop(source, start_dir, c1, c2);
    lemma_no_later_stop(source, start_dir, c2, c1);
    lemma_chains_agree(source, start_dir, c1, c2, c1.len() - 1);
    lemma_along_agree(source, store, parser, start_dir, c1.last(), selected, r1, r2);
}

/// With ports that answer each question one way, the command line's run
/// and the use case agree: when `printed` is what a run returned (a report
/// that holds of the ports, or nothing after an error that holds of them)
/// and `executed` is any result of the use case over the same ports, the
/// run returned a report exactly when the use case returned one, and the
/// two reports say the same and read the same line for line.
pub proof fn lemma_run_agrees_with_execute<S: FileTreeSource, M: MandateStore, P: MandateParser>(
    source: &S,
    store: &M,
    parser: &P,
    start_dir: &Path,
    selected: Seq<String>,
    printed: Option<RunReportMandatesValidation>,
    executed: Result<RunReportMandatesValidation, RunError>,
)
    requires
        ports_answer_one_way(source, store, parser),
        printed matches Some(report) ==> run_result_holds(source, store, parser, start_dir, selected, Ok(report)),
        printed is None ==> exists|e: RunError|
            #[trigger] run_result_holds(source, store, parser, start_dir, selected, Err(e)),
        run_result_holds(source, store, parser, start_dir, selected, executed),
    ensures
        (printed is Some) <==> (executed is Ok),
        printed matches Some(a) ==> (executed matches Ok(b) && same_report(a, b) && run_report_lines(a)
            == run_report_lines(b)),
{
    match printed {
        Some(a) => {
            lemma_run_result_determined(source, store, parser, start_dir, selected, Ok(a), executed);
            if let Ok(b) = executed {
                lemma_same_report_reads_the_same(a, b);
            }
        },
        None => {
            let e = choose|e: RunError|
                #[trigger] run_result_holds(source, store, parser, start_dir, selected, Err(e));
            lemma_run_result_determined(source, store, parser, start_dir, selected, Err(e), executed);
        },
    }
}

} // verus!
