//! The command line as a driving adapter: argument parsing, rendering, and
//! running one invocation, all in-process and writing to byte buffers, so
//! that the program's `main` is left with nothing but real I/O.

use std::path::{Path, PathBuf};

use vstd::prelude::*;
use vstd::utf8::encode_utf8;

use crate::fs_path::{path_from_text, path_of};
use crate::ports::{FileTreeSource, MandateParser, MandateStore};
use crate::run_mandates::{run_error_text, run_result_holds, RunError, RunMandates};
use crate::run_report::{run_report_lines, RunReportMandatesValidation};
use crate::text::{compare_text, concat3, lemma_text_order_equal, texts, TextOrder};
use crate::validation::{report_text_lines, ValidationReport};

verus! {

/// What the command line says when it cannot make sense of its arguments.
pub const USAGE: &'static str = "usage: mandate [--root <dir>] [<mandate-file>.yaml ...]";

/// The parsed command line: an optional discovery root, and the mandate
/// file names to select (empty means "run every discovered mandate").
#[derive(Debug, Clone, PartialEq, Eq)]
pub struct Invocation {
    pub root: Option<PathBuf>,
    pub mandates: Vec<String>,
}

/// Reading `args` from position `i` on, having seen `root` and `mandates`
/// so far: `--root` takes the next argument as the root (a later one wins)
/// and is a usage error with nothing after it; any other argument that
/// starts with `--`, or with `-` and is longer than that, is an unknown
/// option; anything else names a mandate.
pub open spec fn parse_arguments(
    args: Seq<Seq<char>>,
    i: int,
    root: Option<Seq<char>>,
    mandates: Seq<Seq<char>>,
) -> Result<(Option<Seq<char>>, Seq<Seq<char>>), Seq<char>>
    decreases args.len() - i,
{
    if i < 0 || i >= args.len() {
        Ok((root, mandates))
    } else if args[i] == "--root"@ {
        if i + 1 < args.len() {
            parse_arguments(args, i + 2, Some(args[i + 1]), mandates)
        } else {
            Err(USAGE@)
        }
    } else if args[i].len() >= 2 && args[i][0] == '-' && args[i][1] == '-' {
        Err("unknown option '"@ + args[i].skip(2) + "'"@)
    } else if args[i].len() > 1 && args[i][0] == '-' {
        Err("unknown option '"@ + args[i].skip(1) + "'"@)
    } else {
        parse_arguments(args, i + 1, root, mandates.push(args[i]))
    }
}

/// The path for an optional root text.
pub open spec fn root_path(root: Option<Seq<char>>) -> Option<PathBuf> {
    match root {
        Some(text) => Some(path_of(text)),
        None => None,
    }
}

/// Parses the process arguments (excluding the program name) into an
/// [`Invocation`].
pub fn parse_args(args: &[String]) -> (r: Result<Invocation, String>)
    ensures
        match parse_arguments(texts(args@), 0, None, Seq::empty()) {
            Ok((root, mandates)) => r matches Ok(invocation) && invocation.root == root_path(root)
                && texts(invocation.mandates@) == mandates,
            Err(message) => r matches Err(e) && e@ == message,
        },
{
    let ghost all = texts(args@);
    let ghost mut root_text: Option<Seq<char>> = None;
    let mut root: Option<PathBuf> = None;
    let mut mandates: Vec<String> = Vec::new();
    let mut i: usize = 0;
    assert(texts(mandates@) =~= Seq::<Seq<char>>::empty());
    while i < args.len()
        invariant
            all == texts(args@),
            i <= args@.len(),
            root == root_path(root_text),
            parse_arguments(all, 0, None, Seq::empty()) == parse_arguments(
                all,
                i as int,
                root_text,
                texts(mandates@),
            ),
        decreases args.len() - i,
    {
        let arg = args[i].as_str();
        assert(arg@ == all[i as int]);
        let is_root = match compare_text(arg, "--root") {
            TextOrder::Equal => true,
            _ => false,
        };
        proof {
            lemma_text_order_equal(arg@, "--root"@);
        }
        let n = arg.unicode_len();
        if is_root {
            if i + 1 < args.len() {
                let value = args[i + 1].as_str();
                root = Some(path_from_text(value));
                proof {
                    root_text = Some(all[i + 1]);
                }
                i = i + 2;
            } else {
                return Err(USAGE.to_owned());
            }
        } else if n >= 2 && arg.get_char(0) == '-' && arg.get_char(1) == '-' {
            return Err(concat3("unknown option '", arg.substring_char(2, n), "'"));
        } else if n > 1 && arg.get_char(0) == '-' {
            return Err(concat3("unknown option '", arg.substring_char(1, n), "'"));
        } else {
            let ghost before = mandates@;
            mandates.push(args[i].clone());
            assert(texts(mandates@) =~= texts(before).push(all[i as int]));
            i = i + 1;
        }
    }
    Ok(Invocation { root, mandates })
}

/// The validation report rendered one line per finding, errors first in
/// validator order, then warnings, each prefixed `error: ` or `warning: `.
pub fn validation_lines(report: &ValidationReport) -> (r: Vec<String>)
    ensures
        texts(r@) == report_text_lines(report.errors@, report.warnings@),
{
    report.lines()
}

/// The run report rendered exactly as the command line prints it: the
/// repository location, any run-level warnings, then each mandate's
/// outcome, then a summary line.
pub fn report_lines(report: &RunReportMandatesValidation) -> (r: Vec<String>)
    ensures
        texts(r@) == run_report_lines(*report),
{
    report.lines()
}

/// The bytes of `lines` as printed: each line in UTF-8, then a newline.
pub open spec fn printed(lines: Seq<Seq<char>>) -> Seq<u8>
    decreases lines.len(),
{
    if lines.len() == 0 {
        Seq::<u8>::empty()
    } else {
        printed(lines.drop_last()) + encode_utf8(lines.last()) + seq![10u8]
    }
}

/// Appends `line` and a newline to `out`.
pub(crate) fn print_line(out: &mut Vec<u8>, line: &str)
    ensures
        final(out)@ == old(out)@ + encode_utf8(line@) + seq![10u8],
{
    let bytes = line.as_bytes();
    let mut i: usize = 0;
    while i < bytes.len()
        invariant
            bytes@ == encode_utf8(line@),
            i <= bytes@.len(),
            out@ == old(out)@ + bytes@.take(i as int),
        decreases bytes.len() - i,
    {
        out.push(bytes[i]);
        assert(bytes@.take(i + 1) =~= bytes@.take(i as int).push(bytes@[i as int]));
        i = i + 1;
    }
    assert(bytes@.take(bytes@.len() as int) =~= bytes@);
    out.push(10u8);
}

/// Appends each of `lines` to `out`, one per line.
pub(crate) fn print_lines(out: &mut Vec<u8>, lines: &Vec<String>)
    ensures
        final(out)@ == old(out)@ + printed(texts(lines@)),
{
    let ghost all = texts(lines@);
    let mut i: usize = 0;
    assert(all.take(0) =~= Seq::<Seq<char>>::empty());
    while i < lines.len()
        invariant
            all == texts(lines@),
            i <= lines@.len(),
            out@ == old(out)@ + printed(all.take(i as int)),
        decreases lines.len() - i,
    {
        assert(all.take(i + 1).drop_last() =~= all.take(i as int));
        assert(all.take(i + 1).last() == lines@[i as int]@);
        print_line(out, lines[i].as_str());
        i = i + 1;
    }
    assert(all.take(lines@.len() as int) =~= all);
}

/// Writes the report's lines to `out`, one per line.
pub fn render(report: &RunReportMandatesValidation, out: &mut Vec<u8>)
    ensures
        final(out)@ == old(out)@ + printed(run_report_lines(*report)),
{
    let lines = report_lines(report);
    print_lines(out, &lines);
}

/// Runs one invocation end to end: executes the use case, renders the
/// report to `out` or the error to `err`, and hands the report back so the
/// caller can decide the exit code. Never exits the process itself.
pub fn run<S: FileTreeSource, M: MandateStore, P: MandateParser>(
    invocation: &Invocation,
    start_dir: &Path,
    run_mandates: &RunMandates<'_, S, M, P>,
    out: &mut Vec<u8>,
    err: &mut Vec<u8>,
) -> (r: Option<RunReportMandatesValidation>)
    ensures
        match r {
            Some(report) => run_result_holds(
                run_mandates.ports().0,
                run_mandates.ports().1,
                run_mandates.ports().2,
                start_dir,
                invocation.mandates@,
                Ok(report),
            ) && final(out)@ == old(out)@ + printed(run_report_lines(report)) && final(err)@
                == old(err)@,
            None => final(out)@ == old(out)@ && exists|e: RunError|
                #[trigger] run_result_holds(
                    run_mandates.ports().0,
                    run_mandates.ports().1,
                    run_mandates.ports().2,
                    start_dir,
                    invocation.mandates@,
                    Err(e),
                ) && final(err)@ == old(err)@ + printed(seq![run_error_text(e)]),
        },
{
    match run_mandates.execute(start_dir, invocation.mandates.as_slice()) {
        Ok(report) => {
            render(&report, out);
            Some(report)
        },
        Err(e) => {
            let message = e.to_string();
            print_line(err, message.as_str());
            proof {
                let one = seq![run_error_text(e)];
                assert(one.drop_last() =~= Seq::<Seq<char>>::empty());
                assert(printed(one.drop_last()) == Seq::<u8>::empty());
                assert(one.last() == message@);
                assert(printed(one) =~= encode_utf8(message@) + seq![10u8]);
            }
            None
        },
    }
}

} // verus!
