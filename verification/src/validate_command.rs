//! The single-mandate command, `mandate validate <mandate-file> --root <dir>`:
//! argument parsing, and checking one already-parsed mandate against a
//! [`FileTree`], writing the report exactly as the command prints it.

use vstd::prelude::*;

use crate::cli::{print_line, print_lines, printed};
use crate::file_tree::{linked_paths, EntryKind, FileTreeSnapshot};
use crate::mandate::Mandate;
use crate::ports::{parse_error_text, FileTree, MandateParseError};
use crate::text::{concat2, concat3, concat5, decimal, decimal_text, same_text, texts};
use crate::validation::{
    report_text_lines, validate, validation_errors, validation_warnings,
};

verus! {

/// What the command says when it cannot make sense of its arguments.
pub const USAGE: &'static str = "usage: mandate validate <mandate-file> --root <dir>";

/// The parsed command line: which mandate file to validate and against
/// which repository root.
#[derive(Debug)]
pub struct Invocation {
    pub mandate_path: String,
    pub root: String,
}

/// What the arguments ask for: the mandate path and the root, or the
/// message explaining why they cannot be used. The first argument must be
/// `validate` and the second names the mandate; `--root` and its value
/// must follow. Anything after that is not looked at.
pub open spec fn command_arguments(args: Seq<Seq<char>>) -> Result<(Seq<char>, Seq<char>), Seq<char>> {
    if args.len() < 2 {
        Err(USAGE@)
    } else if args[0] != "validate"@ {
        Err("unknown command '"@ + args[0] + "'; expected 'validate'"@)
    } else if args.len() >= 4 && args[2] == "--root"@ {
        Ok((args[1], args[3]))
    } else {
        Err(USAGE@)
    }
}

/// Parses the process arguments (excluding the program name) into an
/// [`Invocation`].
pub fn parse_args(args: &[String]) -> (r: Result<Invocation, String>)
    ensures
        match command_arguments(texts(args@)) {
            Ok((mandate_path, root)) => r matches Ok(invocation) && invocation.mandate_path@
                == mandate_path && invocation.root@ == root,
            Err(message) => r matches Err(e) && e@ == message,
        },
{
    let ghost all = texts(args@);
    if args.len() < 2 {
        return Err(USAGE.to_owned());
    }
    let command = args[0].as_str();
    assert(command@ == all[0]);
    assert(args[1]@ == all[1]);
    if !same_text(command, "validate") {
        return Err(concat3("unknown command '", command, "'; expected 'validate'"));
    }
    if args.len() >= 4 {
        assert(args[2]@ == all[2]);
        assert(args[3]@ == all[3]);
        if same_text(args[2].as_str(), "--root") {
            return Ok(Invocation { mandate_path: args[1].clone(), root: args[3].clone() });
        }
    }
    Err(USAGE.to_owned())
}

/// The line that reports a mandate file that could not be parsed.
pub open spec fn parse_failure_text(mandate_path: Seq<char>, e: MandateParseError) -> Seq<char> {
    "failed to parse '"@ + mandate_path + "': "@ + parse_error_text(e)
}

/// The line that follows the report of a valid mandate.
pub open spec fn valid_summary_text(m: Mandate) -> Seq<char> {
    "mandate '"@ + m.name@ + "' is valid: "@ + decimal(m.rules@.len()) + " rules, "@ + decimal(
        m.governs@.len(),
    ) + " documents, "@ + decimal(m.code@.len()) + " source files"@
}

/// What the command prints for mandate `m` checked against `tree`: the
/// report's lines, then, when there is no error, the summary line.
pub open spec fn command_lines(m: Mandate, tree: Map<Seq<char>, EntryKind>) -> Seq<Seq<char>> {
    let lines = report_text_lines(validation_errors(m, tree), validation_warnings(m));
    if validation_errors(m, tree).len() == 0 {
        lines.push(valid_summary_text(m))
    } else {
        lines
    }
}

/// The exit code for mandate `m` checked against `tree`: 0 when valid,
/// 1 otherwise.
pub open spec fn command_code(m: Mandate, tree: Map<Seq<char>, EntryKind>) -> i32 {
    if validation_errors(m, tree).len() == 0 {
        0
    } else {
        1
    }
}

/// The summary line for a valid mandate.
fn valid_summary(m: &Mandate) -> (r: String)
    ensures
        r@ == valid_summary_text(*m),
{
    let rules = decimal_text(m.rules.len());
    let docs = decimal_text(m.governs.len());
    let code = decimal_text(m.code.len());
    let head = concat5("mandate '", m.name.as_str(), "' is valid: ", rules.as_str(), " rules, ");
    let middle = concat3(docs.as_str(), " documents, ", code.as_str());
    let all = concat3(head.as_str(), middle.as_str(), " source files");
    proof {
        assert(all@ =~= valid_summary_text(*m));
    }
    all
}

/// Checks the parsed mandate against the files `present` records and
/// writes what the command prints: a parse failure to `err`, else the
/// report (and, when valid, the summary line) to `out`. Returns the exit
/// code: 0 if the mandate is valid, 1 otherwise, parse failure included.
pub fn execute_on(
    mandate_path: &str,
    parsed: Result<Mandate, MandateParseError>,
    present: &FileTreeSnapshot,
    out: &mut Vec<u8>,
    err: &mut Vec<u8>,
) -> (code: i32)
    ensures
        match parsed {
            Err(e) => code == 1 && final(out)@ == old(out)@ && final(err)@ == old(err)@ + printed(
                seq![parse_failure_text(mandate_path@, e)],
            ),
            Ok(m) => code == command_code(m, present@) && final(err)@ == old(err)@ && final(out)@
                == old(out)@ + printed(command_lines(m, present@)),
        },
{
    match parsed {
        Err(e) => {
            let reason = e.to_string();
            let head = concat3("failed to parse '", mandate_path, "': ");
            let line = concat2(head.as_str(), reason.as_str());
            print_line(err, line.as_str());
            proof {
                let one = seq![parse_failure_text(mandate_path@, e)];
                assert(line@ =~= parse_failure_text(mandate_path@, e));
                assert(one.drop_last() =~= Seq::<Seq<char>>::empty());
                assert(printed(one.drop_last()) == Seq::<u8>::empty());
                assert(one.last() == line@);
            }
            1
        },
        Ok(mandate) => {
            let report = validate(&mandate, present);
            let mut lines = report.lines();
            let valid = report.is_valid();
            if valid {
                let summary = valid_summary(&mandate);
                let ghost before = lines@;
                lines.push(summary);
                assert(texts(lines@) =~= texts(before).push(valid_summary_text(mandate)));
            }
            print_lines(out, &lines);
            if valid {
                0
            } else {
                1
            }
        },
    }
}

/// The answers a file tree gave for mandate `m`: every path it recorded is
/// one the mandate links, recorded as a file.
pub open spec fn answered_for(m: Mandate, present: Map<Seq<char>, EntryKind>) -> bool {
    forall|p: Seq<char>|
        #![trigger present.dom().contains(p)]
        present.dom().contains(p) ==> linked_paths(m).contains(p) && present[p] == EntryKind::File
}

/// `tree` answered `true` for every path `present` records.
pub open spec fn recorded_as_answered<T: FileTree>(tree: &T, present: Map<Seq<char>, EntryKind>) -> bool {
    forall|p: Seq<char>|
        #![trigger present.dom().contains(p)]
        present.dom().contains(p) ==> exists|s: &str| s@ == p && #[trigger] tree.has(s, true)
}

/// `tree` answered `false` for each of the first `n` of `paths` that
/// `present` does not record.
pub open spec fn left_out_as_answered<T: FileTree>(
    tree: &T,
    present: Map<Seq<char>, EntryKind>,
    paths: Seq<Seq<char>>,
    n: int,
) -> bool {
    forall|k: int|
        0 <= k < n && !present.dom().contains(#[trigger] paths[k]) ==> exists|s: &str|
            s@ == paths[k] && #[trigger] tree.has(s, false)
}

/// The answers `tree` gave for mandate `m`, as `present` records them:
/// `tree` was asked about every path `m` links; the paths it answered
/// `true` for are recorded as files, those it answered `false` for are not,
/// and nothing else is recorded.
pub open spec fn answered_by<T: FileTree>(tree: &T, m: Mandate, present: Map<Seq<char>, EntryKind>) -> bool {
    &&& answered_for(m, present)
    &&& recorded_as_answered(tree, present)
    &&& left_out_as_answered(tree, present, linked_paths(m), linked_paths(m).len() as int)
}

/// Asks `tree` about `path`, recording it as a file when the answer is
/// `true`.
fn ask_about<T: FileTree>(tree: &T, present: &mut FileTreeSnapshot, path: &str, Ghost(m): Ghost<Mandate>, Ghost(n): Ghost<int>)
    requires
        0 <= n < linked_paths(m).len(),
        linked_paths(m)[n] == path@,
        answered_for(m, old(present)@),
        recorded_as_answered(tree, old(present)@),
        left_out_as_answered(tree, old(present)@, linked_paths(m), n),
    ensures
        answered_for(m, final(present)@),
        recorded_as_answered(tree, final(present)@),
        left_out_as_answered(tree, final(present)@, linked_paths(m), n + 1),
{
    let ghost linked = linked_paths(m);
    let ghost before = present@;
    if tree.path_exists(path) {
        present.insert(path, EntryKind::File);
        assert forall|p: Seq<char>| #![trigger present@.dom().contains(p)] present@.dom().contains(p) implies linked.contains(p)
            && present@[p] == EntryKind::File by {
            if p != path@ {
                assert(before.dom().contains(p));
            }
        }
        assert forall|p: Seq<char>| #![trigger present@.dom().contains(p)] present@.dom().contains(p) implies exists|s: &str|
            s@ == p && #[trigger] tree.has(s, true) by {
            if p != path@ {
                assert(before.dom().contains(p));
            } else {
                assert(tree.has(path, true));
            }
        }
        assert forall|k: int|
            0 <= k < n + 1 && !present@.dom().contains(#[trigger] linked[k]) implies exists|s: &str|
                s@ == linked[k] && #[trigger] tree.has(s, false) by {
            assert(!before.dom().contains(linked[k]));
        }
    } else {
        assert(tree.has(path, false));
        assert forall|k: int|
            0 <= k < n + 1 && !present@.dom().contains(#[trigger] linked[k]) implies exists|s: &str|
                s@ == linked[k] && #[trigger] tree.has(s, false) by {
            if k == n {
                assert(tree.has(path, false));
            }
        }
    }
}

/// Asks `tree` about each governed document and linked source file,
/// recording as a file each one it says exists.
fn present_files<T: FileTree>(mandate: &Mandate, tree: &T) -> (r: FileTreeSnapshot)
    ensures
        answered_by(tree, *mandate, r@),
{
    let ghost linked = linked_paths(*mandate);
    let ghost docs = mandate.governs@.len();
    let mut present = FileTreeSnapshot::empty();
    let mut i: usize = 0;
    while i < mandate.governs.len()
        invariant
            linked == linked_paths(*mandate),
            docs == mandate.governs@.len(),
            linked.len() == docs + mandate.code@.len(),
            i <= docs,
            answered_for(*mandate, present@),
            recorded_as_answered(tree, present@),
            left_out_as_answered(tree, present@, linked, i as int),
        decreases mandate.governs.len() - i,
    {
        let doc = mandate.governs[i].doc.as_str();
        assert(linked[i as int] == doc@);
        ask_about(tree, &mut present, doc, Ghost(*mandate), Ghost(i as int));
        i = i + 1;
    }
    let mut j: usize = 0;
    while j < mandate.code.len()
        invariant
            linked == linked_paths(*mandate),
            docs == mandate.governs@.len(),
            linked.len() == docs + mandate.code@.len(),
            j <= mandate.code@.len(),
            answered_for(*mandate, present@),
            recorded_as_answered(tree, present@),
            left_out_as_answered(tree, present@, linked, docs + j),
        decreases mandate.code.len() - j,
    {
        let path = mandate.code[j].path.as_str();
        assert(linked[docs + j] == path@);
        ask_about(tree, &mut present, path, Ghost(*mandate), Ghost(docs + j));
        j = j + 1;
    }
    present
}

/// Checks the parsed mandate against `tree` and writes what the command
/// prints, as [`execute_on`] does, against the files among those the
/// mandate links that `tree` says exist. Returns the exit code.
pub fn execute<T: FileTree>(
    mandate_path: &str,
    parsed: Result<Mandate, MandateParseError>,
    tree: &T,
    out: &mut Vec<u8>,
    err: &mut Vec<u8>,
) -> (code: i32)
    ensures
        match parsed {
            Err(e) => code == 1 && final(out)@ == old(out)@ && final(err)@ == old(err)@ + printed(
                seq![parse_failure_text(mandate_path@, e)],
            ),
            Ok(m) => final(err)@ == old(err)@ && exists|present: Map<Seq<char>, EntryKind>|
                #[trigger] answered_by(tree, m, present) && code == command_code(m, present)
                    && final(out)@ == old(out)@ + printed(command_lines(m, present)),
        },
{
    let present = match &parsed {
        Ok(mandate) => present_files(mandate, tree),
        Err(_) => FileTreeSnapshot::empty(),
    };
    execute_on(mandate_path, parsed, &present, out, err)
}

/// When mandate `m` validates without errors against `tree`, the command's
/// last line names the mandate and counts, in that order, its rules, the
/// documents it governs and the source files it links.
pub proof fn lemma_valid_summary_counts(m: Mandate, tree: Map<Seq<char>, EntryKind>)
    requires
        validation_errors(m, tree).len() == 0,
    ensures
        command_lines(m, tree).last() == "mandate '"@ + m.name@ + "' is valid: "@ + decimal(m.rules@.len())
            + " rules, "@ + decimal(m.governs@.len()) + " documents, "@ + decimal(m.code@.len())
            + " source files"@,
{
}

} // verus!
