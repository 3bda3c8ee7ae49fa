//! A run of the program: what is done in which order, what is printed and which code is returned.

use vstd::prelude::*;
use vstd::utf8::is_ascii_chars;

use crate::cli::{usage_message, usage_text, Opts, UsageError, HELP};
use crate::disposal::{message_view, results_view, DeleteResult, Mode, ResultView};
use crate::finder::{
    found_paths, found_view, measuring_changes_only_the_bytes, reports_walk, FoundNodeModules,
    FoundView,
};
use crate::path::{
    lossy_text, path_text, paths_view, relative_text, relativize, shown, DirPath, PathView,
};
use crate::report::{
    bytes_sum, count_failures, delete_json, delete_json_text, failures, scan_json, scan_json_text,
    total_bytes,
};
use crate::size::{bytes_text, format_bytes};
use crate::text::{decimal, push_decimal, same_text};
use crate::tree::Tree;
use crate::workspace::{kind_text, workspace_kind_str, WorkspaceKind};

verus! {

/// Whether a run deletes at once: nobody is to be asked, deleting in the background is what is
/// wanted, and no report beside the last one is.
pub open spec fn deletes_at_once(opts: Opts, terminal: bool) -> bool {
    &&& opts.yes || !terminal
    &&& !opts.list
    &&& !opts.sync
    &&& !opts.measure
    &&& !opts.workspace
    &&& !opts.json
}

/// The workspace layout in one line.
pub open spec fn layout_text(kind: WorkspaceKind, packages: nat) -> Seq<char> {
    if kind is NoWorkspace {
        "no workspace config"@
    } else {
        kind_text(kind) + " workspace ("@ + decimal(packages) + (if packages == 1 {
            " package)"@
        } else {
            " packages)"@
        })
    }
}

/// The workspace layout in one line.
pub fn layout_label(kind: WorkspaceKind, packages: usize) -> (text: String)
    ensures
        text@ == layout_text(kind, packages as nat),
{
    if kind == WorkspaceKind::NoWorkspace {
        return "no workspace config".to_owned();
    }
    let mut text = workspace_kind_str(kind).to_owned();
    text.append(" workspace (");
    push_decimal(&mut text, packages as u64);
    if packages == 1 {
        text.append(" package)");
    } else {
        text.append(" packages)");
    }
    text
}

/// `n` spaces.
pub open spec fn spaces(n: nat) -> Seq<char> {
    Seq::new(n, |i: int| ' ')
}

/// `text` moved to the right end of a column of eight characters.
pub open spec fn in_column(text: Seq<char>) -> Seq<char> {
    if text.len() < 8 {
        spaces((8 - text.len()) as nat) + text
    } else {
        text
    }
}

fn push_in_column(out: &mut String, text: &str)
    ensures
        final(out)@ == old(out)@ + in_column(text@),
{
    let ghost before = out@;
    let mut len: usize = text.unicode_len();
    let ghost width = len;
    assert(out@ =~= before + spaces(0));
    while len < 8
        invariant
            width <= len,
            width < 8 ==> len <= 8,
            width >= 8 ==> len == width,
            out@ == before + spaces((len - width) as nat),
        decreases 8 - len,
    {
        out.push(' ');
        assert(out@ =~= before + spaces((len + 1 - width) as nat));
        len += 1;
    }
    out.append(text);
    assert(out@ =~= before + in_column(text@));
}

/// One found directory in the list for people.
pub open spec fn found_line(root: PathView, found: FoundView, measure: bool, separator: u8) -> Seq<
    char,
> {
    if measure {
        "  "@ + in_column(bytes_text(found.bytes as nat)) + "  "@ + relative_text(
            root,
            found.path,
            separator,
        ) + "\n"@
    } else {
        "  "@ + relative_text(root, found.path, separator) + "\n"@
    }
}

/// The found directories in the list for people.
pub open spec fn found_lines(
    root: PathView,
    found: Seq<FoundView>,
    measure: bool,
    separator: u8,
) -> Seq<char>
    decreases found.len(),
{
    if found.len() == 0 {
        Seq::empty()
    } else {
        found_lines(root, found.drop_last(), measure, separator) + found_line(
            root,
            found.last(),
            measure,
            separator,
        )
    }
}

/// The list for people.
pub open spec fn list_text(
    root: PathView,
    layout: Option<Seq<char>>,
    found: Seq<FoundView>,
    measure: bool,
    separator: u8,
) -> Seq<char> {
    let head = "root: "@ + path_text(root, separator) + "\n"@;
    let with_layout = match layout {
        Some(label) => head + "      "@ + label + "\n"@,
        None => head,
    };
    let with_count = if measure {
        with_layout + "found "@ + decimal(found.len()) + " node_modules totalling "@ + bytes_text(
            bytes_sum(found),
        ) + ":\n"@
    } else {
        with_layout + "found "@ + decimal(found.len()) + " node_modules:\n"@
    };
    with_count + found_lines(root, found, measure, separator)
}

/// What is said where nothing was found.
pub open spec fn nothing_text(root: PathView, layout: Option<Seq<char>>, separator: u8) -> Seq<
    char,
> {
    let head = "remnem: no node_modules found under "@ + path_text(root, separator);
    match layout {
        Some(label) => head + " ("@ + label + ")\n"@,
        None => head + "\n"@,
    }
}

/// The question before a deletion.
pub open spec fn question_text(count: nat) -> Seq<char> {
    "\npermanently delete these "@ + decimal(count) + " directories? [y/N] "@
}

/// The label of the workspace layout, where one is asked for.
pub open spec fn layout_wanted(opts: Opts, kind: WorkspaceKind, packages: nat) -> Option<
    Seq<char>,
> {
    if opts.workspace {
        Some(layout_text(kind, packages))
    } else {
        None
    }
}

/// What is printed after a scan.
pub open spec fn scan_output(
    opts: Opts,
    root: PathView,
    kind: WorkspaceKind,
    packages: Seq<PathView>,
    found: Seq<FoundView>,
    separator: u8,
) -> Seq<char> {
    let layout = layout_wanted(opts, kind, packages.len());
    if opts.json {
        if opts.list {
            scan_json_text(root, kind, packages, found, separator)
        } else {
            Seq::empty()
        }
    } else if found.len() == 0 {
        nothing_text(root, layout, separator)
    } else if opts.list {
        list_text(root, layout, found, opts.measure, separator)
            + "\n(list only — nothing deleted)\n"@
    } else {
        list_text(root, layout, found, opts.measure, separator)
    }
}

fn push_found_line(
    out: &mut String,
    root: &DirPath,
    found: &FoundNodeModules,
    measure: bool,
    separator: u8,
)
    ensures
        final(out)@ == old(out)@ + found_line(root@, found@, measure, separator),
{
    let ghost before = out@;
    out.append("  ");
    if measure {
        let size = format_bytes(found.bytes);
        push_in_column(out, size.as_str());
        out.append("  ");
    }
    let text = relativize(root, &found.path, separator);
    out.append(text.as_str());
    out.append("\n");
    assert(out@ =~= before + found_line(root@, found@, measure, separator));
}

fn push_found_lines(
    out: &mut String,
    root: &DirPath,
    found: &Vec<FoundNodeModules>,
    measure: bool,
    separator: u8,
)
    ensures
        final(out)@ == old(out)@ + found_lines(root@, found_view(found@), measure, separator),
{
    let ghost before = out@;
    let ghost all = found_view(found@);
    let mut i: usize = 0;
    assert(out@ =~= before + found_lines(root@, all.take(0), measure, separator));
    while i < found.len()
        invariant
            all == found_view(found@),
            i <= found@.len(),
            out@ == before + found_lines(root@, all.take(i as int), measure, separator),
        decreases found@.len() - i,
    {
        push_found_line(out, root, &found[i], measure, separator);
        proof {
            assert(all.take(i + 1).drop_last() =~= all.take(i as int));
            assert(all.take(i + 1).last() == all[i as int]);
            assert(out@ =~= before + found_lines(root@, all.take(i + 1), measure, separator));
        }
        i += 1;
    }
    assert(all.take(found@.len() as int) =~= all);
}

fn list_for_people(
    root: &DirPath,
    layout: &Option<String>,
    found: &Vec<FoundNodeModules>,
    measure: bool,
    separator: u8,
) -> (text: String)
    requires
        bytes_sum(found_view(found@)) <= u64::MAX,
    ensures
        text@ == list_text(root@, message_view(*layout), found_view(found@), measure, separator),
{
    let mut text = "root: ".to_owned();
    text.append(root.display(separator).as_str());
    text.append("\n");
    if let Some(label) = layout {
        text.append("      ");
        text.append(label.as_str());
        text.append("\n");
    }
    text.append("found ");
    push_decimal(&mut text, found.len() as u64);
    if measure {
        text.append(" node_modules totalling ");
        if let Some(total) = total_bytes(found) {
            text.append(format_bytes(total).as_str());
        }
        text.append(":\n");
    } else {
        text.append(" node_modules:\n");
    }
    push_found_lines(&mut text, root, found, measure, separator);
    text
}

fn nothing_for_people(root: &DirPath, layout: &Option<String>, separator: u8) -> (text: String)
    ensures
        text@ == nothing_text(root@, message_view(*layout), separator),
{
    let mut text = "remnem: no node_modules found under ".to_owned();
    text.append(root.display(separator).as_str());
    match layout {
        Some(label) => {
            text.append(" (");
            text.append(label.as_str());
            text.append(")\n");
        },
        None => {
            text.append("\n");
        },
    }
    text
}

/// Reports on a scan.
pub fn report_scan(
    opts: &Opts,
    root: &DirPath,
    kind: WorkspaceKind,
    packages: &Vec<DirPath>,
    found: &Vec<FoundNodeModules>,
    separator: u8,
) -> (output: String)
    requires
        bytes_sum(found_view(found@)) <= u64::MAX,
    ensures
        output@ == scan_output(
            *opts,
            root@,
            kind,
            paths_view(packages@),
            found_view(found@),
            separator,
        ),
{
    if opts.json {
        if opts.list {
            return scan_json(root, kind, packages, found, separator);
        }
        return String::new();
    }
    let layout = if opts.workspace {
        Some(layout_label(kind, packages.len()))
    } else {
        None
    };
    if found.len() == 0 {
        return nothing_for_people(root, &layout, separator);
    }
    let mut output = list_for_people(root, &layout, found, opts.measure, separator);
    if opts.list {
        output.append("\n(list only — nothing deleted)\n");
    }
    output
}

/// Whether a character has the Unicode property `White_Space`.
pub open spec fn white_space(c: char) -> bool {
    let code = c as nat;
    ||| 9 <= code <= 13
    ||| code == 0x20
    ||| code == 0x85
    ||| code == 0xa0
    ||| code == 0x1680
    ||| 0x2000 <= code <= 0x200a
    ||| 0x2028 <= code <= 0x2029
    ||| code == 0x202f
    ||| code == 0x205f
    ||| code == 0x3000
}

/// `char::is_whitespace`: whether the character has the Unicode property `White_Space`.
pub assume_specification[ char::is_whitespace ](c: char) -> (white: bool)
    ensures
        white == white_space(c),
;

/// A text in lower case: what `str::to_lowercase` returns.
pub uninterp spec fn lower_case(text: Seq<char>) -> Seq<char>;

/// An ASCII letter in lower case; any other character as it is.
pub open spec fn ascii_lower(c: char) -> char {
    if 65 <= c as nat <= 90 {
        (c as nat + 32) as char
    } else {
        c
    }
}

/// `str::to_lowercase`: an ASCII text has its letters replaced by small ones; of other texts, only
/// that the result is a function of them is claimed.
pub assume_specification[ str::to_lowercase ](text: &str) -> (lower: String)
    ensures
        lower@ == lower_case(text@),
        text.is_ascii() ==> lower@ == text@.map_values(|c: char| ascii_lower(c)),
;

/// A text without the white space at its ends.
pub open spec fn trimmed(text: Seq<char>) -> Seq<char>
    decreases text.len(),
{
    if text.len() == 0 {
        text
    } else if white_space(text.first()) {
        trimmed(text.drop_first())
    } else if white_space(text.last()) {
        trimmed(text.drop_last())
    } else {
        text
    }
}

/// Removes the white space at the ends of a text.
pub fn trim(text: &str) -> (inner: &str)
    ensures
        inner@ == trimmed(text@),
        is_ascii_chars(text@) ==> is_ascii_chars(inner@),
{
    let mut lo: usize = 0;
    let mut hi: usize = text.unicode_len();
    assert(text@.subrange(0, hi as int) =~= text@);
    while lo < hi
        invariant
            lo <= hi <= text@.len(),
            trimmed(text@) == trimmed(text@.subrange(lo as int, hi as int)),
        ensures
            lo <= hi <= text@.len(),
            trimmed(text@) == text@.subrange(lo as int, hi as int),
        decreases hi - lo,
    {
        let ghost rest = text@.subrange(lo as int, hi as int);
        assert(rest.drop_first() =~= text@.subrange(lo + 1, hi as int));
        assert(rest.drop_last() =~= text@.subrange(lo as int, hi - 1));
        if text.get_char(lo).is_whitespace() {
            lo += 1;
        } else if text.get_char(hi - 1).is_whitespace() {
            hi -= 1;
        } else {
            break;
        }
    }
    text.substring_char(lo, hi)
}

/// Whether an answer, in lower case and without white space at its ends, means yes.
pub fn means_yes(answer: &str) -> (yes: bool)
    ensures
        yes == (answer@ == "y"@ || answer@ == "yes"@),
{
    same_text(answer, "y") || same_text(answer, "yes")
}

/// Whether an answer means yes, in whatever case and with whatever white space around it.
pub open spec fn is_yes(answer: Seq<char>) -> bool {
    lower_case(trimmed(answer)) == "y"@ || lower_case(trimmed(answer)) == "yes"@
}

/// Whether an answer in ASCII characters means yes.
pub open spec fn is_ascii_yes(answer: Seq<char>) -> bool {
    let word = trimmed(answer).map_values(|c: char| ascii_lower(c));
    word == "y"@ || word == "yes"@
}

/// Whether the bytes of an answer mean yes. No answer means no.
pub fn confirm(answer: &[u8]) -> (yes: bool)
    ensures
        yes == is_yes(shown(answer@)),
        is_ascii_chars(shown(answer@)) ==> yes == is_ascii_yes(shown(answer@)),
{
    let text = lossy_text(answer);
    let word = trim(text.as_str());
    let lower = word.to_lowercase();
    means_yes(lower.as_str())
}

/// The mode of a deletion.
pub fn delete_mode(opts: &Opts) -> (mode: Mode)
    ensures
        mode == if opts.sync {
            Mode::RemoveSync
        } else {
            Mode::Remove
        },
{
    if opts.sync {
        Mode::RemoveSync
    } else {
        Mode::Remove
    }
}

/// The directories to delete: those that were found, in their order.
pub fn paths_of(found: &Vec<FoundNodeModules>) -> (paths: Vec<DirPath>)
    ensures
        paths_view(paths@) == found_paths(found_view(found@)),
{
    let ghost all = found_paths(found_view(found@));
    let mut paths: Vec<DirPath> = Vec::new();
    let mut i: usize = 0;
    while i < found.len()
        invariant
            all == found_paths(found_view(found@)),
            i <= found@.len(),
            paths_view(paths@) == all.take(i as int),
        decreases found@.len() - i,
    {
        let ghost before = paths@;
        paths.push(found[i].path.clone());
        proof {
            assert(all.take(i + 1) =~= all.take(i as int).push(all[i as int]));
            assert(paths_view(paths@) =~= paths_view(before).push(all[i as int]));
        }
        i += 1;
    }
    assert(all.take(found@.len() as int) =~= all);
    paths
}

/// What is printed at the end of a run, on the standard output and on the standard error, and the
/// exit code.
#[derive(Debug)]
pub struct Report {
    pub output: String,
    pub errors: String,
    pub code: u8,
}

/// Ends a run whose command line is refused: the reason goes to the standard error, and the code
/// is 2.
pub fn refused(error: &UsageError) -> (report: Report)
    ensures
        report.output@ == Seq::<char>::empty(),
        report.errors@ == usage_text(*error),
        report.code == 2,
{
    Report { output: String::new(), errors: usage_message(error), code: 2 }
}

/// Ends a run that only shows the help.
pub fn helped() -> (report: Report)
    ensures
        report.output@ == HELP@,
        report.errors@ == Seq::<char>::empty(),
        report.code == 0,
{
    Report { output: HELP.to_owned(), errors: String::new(), code: 0 }
}

/// Ends a run that cannot go on: the reason goes to the standard error, and the code is 1.
pub fn given_up(reason: &str) -> (report: Report)
    ensures
        report.output@ == Seq::<char>::empty(),
        report.errors@ == "remnem: "@ + reason@ + "\n"@,
        report.code == 1,
{
    let mut errors = "remnem: ".to_owned();
    errors.append(reason);
    errors.append("\n");
    Report { output: String::new(), errors, code: 1 }
}

/// The summary of a deletion for people.
pub open spec fn summary_text(
    opts: Opts,
    results: Seq<ResultView>,
    elapsed: Seq<char>,
    bytes: nat,
) -> Seq<char> {
    let done = (results.len() - failures(results)) as nat;
    let head = "deleted: "@ + decimal(done) + "/"@ + decimal(results.len()) + " node_modules"@;
    let line = if opts.measure {
        head + " ("@ + bytes_text(bytes) + ") in "@ + elapsed + "ms\n"@
    } else {
        head + " in "@ + elapsed + "ms\n"@
    };
    if !opts.sync && done > 0 {
        line + "(space is being reclaimed in the background)\n"@
    } else {
        line
    }
}

/// The failures of a deletion for people.
pub open spec fn failure_lines(root: PathView, results: Seq<ResultView>, separator: u8) -> Seq<char>
    decreases results.len(),
{
    if results.len() == 0 {
        Seq::empty()
    } else {
        let before = failure_lines(root, results.drop_last(), separator);
        let last = results.last();
        match last.error {
            Some(message) => before + "  failed: "@ + relative_text(root, last.path, separator)
                + " — "@ + message + "\n"@,
            None => before,
        }
    }
}

fn failures_for_people(root: &DirPath, results: &Vec<DeleteResult>, separator: u8) -> (text: String)
    ensures
        text@ == failure_lines(root@, results_view(results@), separator),
{
    let ghost all = results_view(results@);
    let mut text = String::new();
    let mut i: usize = 0;
    while i < results.len()
        invariant
            all == results_view(results@),
            i <= results@.len(),
            text@ == failure_lines(root@, all.take(i as int), separator),
        decreases results@.len() - i,
    {
        proof {
            assert(all.take(i + 1).drop_last() =~= all.take(i as int));
            assert(all.take(i + 1).last() == all[i as int]);
        }
        if let Some(message) = &results[i].error {
            text.append("  failed: ");
            text.append(relativize(root, &results[i].path, separator).as_str());
            text.append(" — ");
            text.append(message.as_str());
            text.append("\n");
        }
        i += 1;
    }
    assert(all.take(results@.len() as int) =~= all);
    text
}

/// Whether a report is the one on a deletion. In JSON the exit code does not depend on the outcome;
/// for people it is 1 where a directory could not be deleted.
pub open spec fn reports_deletion(
    report: Report,
    root: PathView,
    opts: Opts,
    results: Seq<ResultView>,
    elapsed: Seq<char>,
    bytes: nat,
    separator: u8,
) -> bool {
    if opts.json {
        &&& report.output@ == delete_json_text(results, separator)
        &&& report.errors@ == Seq::<char>::empty()
        &&& report.code == 0
    } else {
        &&& report.output@ == summary_text(opts, results, elapsed, bytes)
        &&& report.errors@ == failure_lines(root, results, separator)
        &&& report.code == if failures(results) > 0 {
            1int
        } else {
            0int
        }
    }
}

/// Reports on a deletion. `elapsed` is the time that it took, in whole milliseconds, and `bytes`
/// what the directories held.
pub fn report_deletion(
    root: &DirPath,
    opts: &Opts,
    results: &Vec<DeleteResult>,
    elapsed: &str,
    bytes: u64,
    separator: u8,
) -> (report: Report)
    ensures
        reports_deletion(
            report,
            root@,
            *opts,
            results_view(results@),
            elapsed@,
            bytes as nat,
            separator,
        ),
{
    if opts.json {
        let output = delete_json(results, separator);
        return Report { output, errors: String::new(), code: 0 };
    }
    let failed: usize = count_failures(results);
    let done: usize = results.len() - failed;
    let mut output = "deleted: ".to_owned();
    push_decimal(&mut output, done as u64);
    output.append("/");
    push_decimal(&mut output, results.len() as u64);
    output.append(" node_modules");
    if opts.measure {
        output.append(" (");
        output.append(format_bytes(bytes).as_str());
        output.append(") in ");
    } else {
        output.append(" in ");
    }
    output.append(elapsed);
    output.append("ms\n");
    if !opts.sync && done > 0 {
        output.append("(space is being reclaimed in the background)\n");
    }
    let errors = failures_for_people(root, results, separator);
    let code: u8 = if failed > 0 {
        1
    } else {
        0
    };
    Report { output, errors, code }
}

/// What a run does next.
#[derive(Debug)]
pub enum RunStep {
    /// Find out the workspace layout.
    ResolveWorkspace,
    /// Find the directories and, if wanted, measure them.
    Scan { measure: bool },
    /// Print `output`, then ask `question`.
    Ask { output: String, question: String },
    /// Print `output`, then delete `paths`.
    Delete { output: String, paths: Vec<DirPath>, mode: Mode },
    /// Print a report and return its code.
    Finish(Report),
}

/// Begins a run: the workspace layout is found out first, where it is wanted.
pub fn begin(opts: &Opts) -> (step: RunStep)
    ensures
        step == if opts.workspace {
            RunStep::ResolveWorkspace
        } else {
            RunStep::Scan { measure: opts.measure }
        },
{
    if opts.workspace {
        RunStep::ResolveWorkspace
    } else {
        RunStep::Scan { measure: opts.measure }
    }
}

/// Goes on when the workspace layout is known.
pub fn workspace_resolved(opts: &Opts) -> (step: RunStep)
    ensures
        step == (RunStep::Scan { measure: opts.measure }),
{
    RunStep::Scan { measure: opts.measure }
}

/// Whether a step is the deletion of all directories that were found, after `output` is printed.
pub open spec fn deletes(
    step: RunStep,
    opts: Opts,
    found: Seq<FoundView>,
    output: Seq<char>,
) -> bool {
    &&& step matches RunStep::Delete { output: printed, paths, mode }
    &&& printed@ == output
    &&& paths_view(paths@) == found_paths(found)
    &&& mode == if opts.sync {
        Mode::RemoveSync
    } else {
        Mode::Remove
    }
}

/// Whether a step ends the run with nothing on the standard error.
pub open spec fn ends(step: RunStep, output: Seq<char>, code: u8) -> bool {
    &&& step matches RunStep::Finish(report)
    &&& report.output@ == output
    &&& report.errors@ == Seq::<char>::empty()
    &&& report.code == code
}

/// What follows on a scan. A run that deletes at once prints nothing before. Otherwise the report
/// on the scan is printed; then the run ends where only a list is wanted or, unless the report is
/// in JSON, where nothing was found; somebody who is there is asked, unless told not to; and the
/// directories are deleted.
pub open spec fn follows_scan(
    step: RunStep,
    opts: Opts,
    found: Seq<FoundView>,
    terminal: bool,
    output: Seq<char>,
) -> bool {
    if deletes_at_once(opts, terminal) {
        deletes(step, opts, found, Seq::empty())
    } else if opts.list || (!opts.json && found.len() == 0) {
        ends(step, output, 0)
    } else if !opts.json && !opts.yes && terminal {
        step matches RunStep::Ask { output: printed, question } && printed@ == output && question@
            == question_text(found.len())
    } else {
        deletes(step, opts, found, output)
    }
}

/// Goes on when the directories are found; `terminal` says whether somebody is there to be asked.
pub fn scanned(
    opts: &Opts,
    root: &DirPath,
    kind: WorkspaceKind,
    packages: &Vec<DirPath>,
    found: &Vec<FoundNodeModules>,
    separator: u8,
    terminal: bool,
) -> (step: RunStep)
    requires
        bytes_sum(found_view(found@)) <= u64::MAX,
    ensures
        follows_scan(
            step,
            *opts,
            found_view(found@),
            terminal,
            scan_output(
                *opts,
                root@,
                kind,
                paths_view(packages@),
                found_view(found@),
                separator,
            ),
        ),
{
    let auto_yes = opts.yes || !terminal;
    if auto_yes && !opts.list && !opts.sync && !opts.measure && !opts.workspace && !opts.json {
        return RunStep::Delete {
            output: String::new(),
            paths: paths_of(found),
            mode: Mode::Remove,
        };
    }
    let output = report_scan(opts, root, kind, packages, found, separator);
    if opts.list || (!opts.json && found.len() == 0) {
        return RunStep::Finish(Report { output, errors: String::new(), code: 0 });
    }
    if !opts.json && !opts.yes && terminal {
        let mut question = "\npermanently delete these ".to_owned();
        push_decimal(&mut question, found.len() as u64);
        question.append(" directories? [y/N] ");
        return RunStep::Ask { output, question };
    }
    RunStep::Delete { output, paths: paths_of(found), mode: delete_mode(opts) }
}

/// What follows on an answer: on a yes the directories are deleted, on anything else the run ends.
pub open spec fn follows_answer(
    step: RunStep,
    opts: Opts,
    found: Seq<FoundView>,
    answer: Seq<char>,
) -> bool {
    if is_yes(answer) {
        deletes(step, opts, found, Seq::empty())
    } else {
        ends(step, "aborted.\n"@, 1)
    }
}

/// Goes on when the answer is there: without a yes nothing is deleted.
pub fn answered(opts: &Opts, found: &Vec<FoundNodeModules>, answer: &[u8]) -> (step: RunStep)
    ensures
        follows_answer(step, *opts, found_view(found@), shown(answer@)),
        is_ascii_chars(shown(answer@)) && is_ascii_yes(shown(answer@)) ==> deletes(
            step,
            *opts,
            found_view(found@),
            Seq::empty(),
        ),
        is_ascii_chars(shown(answer@)) && !is_ascii_yes(shown(answer@)) ==> ends(
            step,
            "aborted.\n"@,
            1,
        ),
{
    if confirm(answer) {
        RunStep::Delete {
            output: String::new(),
            paths: paths_of(found),
            mode: delete_mode(opts),
        }
    } else {
        RunStep::Finish(
            Report { output: "aborted.\n".to_owned(), errors: String::new(), code: 1 },
        )
    }
}

/// Goes on when the directories are deleted: the run ends with the report on that.
pub fn deleted(
    root: &DirPath,
    opts: &Opts,
    results: &Vec<DeleteResult>,
    elapsed: &str,
    bytes: u64,
    separator: u8,
) -> (step: RunStep)
    ensures
        step matches RunStep::Finish(report) && reports_deletion(
            report,
            root@,
            *opts,
            results_view(results@),
            elapsed@,
            bytes as nat,
            separator,
        ),
{
    RunStep::Finish(report_deletion(root, opts, results, elapsed, bytes, separator))
}

/// Where only a list is wanted, nothing is deleted and nobody is asked.
pub proof fn listing_deletes_nothing(
    step: RunStep,
    opts: Opts,
    found: Seq<FoundView>,
    terminal: bool,
    output: Seq<char>,
)
    requires
        opts.list,
        follows_scan(step, opts, found, terminal, output),
    ensures
        ends(step, output, 0),
{
}

/// Somebody who is there is asked before anything is deleted, unless `--yes` or `--json` is given.
pub proof fn nothing_is_deleted_unasked(
    step: RunStep,
    opts: Opts,
    found: Seq<FoundView>,
    terminal: bool,
    output: Seq<char>,
)
    requires
        terminal,
        !opts.yes,
        !opts.json,
        follows_scan(step, opts, found, terminal, output),
    ensures
        !(step is Delete),
{
}

/// Nobody is asked where nobody is there, where `--yes` is given, or where the report is in JSON.
pub proof fn nobody_is_asked_in_vain(
    step: RunStep,
    opts: Opts,
    found: Seq<FoundView>,
    terminal: bool,
    output: Seq<char>,
)
    requires
        !terminal || opts.yes || opts.json,
        follows_scan(step, opts, found, terminal, output),
    ensures
        !(step is Ask),
{
}

/// Whether `step` is what a run comes to after a scan, where a question is answered with `answer`.
pub open spec fn comes_to(
    step: RunStep,
    opts: Opts,
    found: Seq<FoundView>,
    terminal: bool,
    output: Seq<char>,
    answer: Seq<char>,
) -> bool {
    exists|scan: RunStep| #[trigger]
        follows_scan(scan, opts, found, terminal, output) && if scan is Ask {
            follows_answer(step, opts, found, answer)
        } else {
            step == scan
        }
}

/// The workspace layout and the sizes are reported and never change what is deleted: two runs over
/// one tree that differ in nothing but `--workspace` and `--measure` delete the same directories in
/// the same order and in the same mode, where they find any, are not to list only and are not
/// answered with a no.
pub proof fn layout_and_sizes_do_not_change_what_is_deleted(
    root: PathView,
    tree: Tree,
    terminal: bool,
    opts: Opts,
    order: Seq<int>,
    sizes: spec_fn(PathView) -> u64,
    found: Seq<FoundView>,
    output: Seq<char>,
    answer: Seq<char>,
    step: RunStep,
    other_opts: Opts,
    other_order: Seq<int>,
    other_sizes: spec_fn(PathView) -> u64,
    other_found: Seq<FoundView>,
    other_output: Seq<char>,
    other_answer: Seq<char>,
    other_step: RunStep,
)
    requires
        other_opts == (Opts {
            workspace: other_opts.workspace,
            measure: other_opts.measure,
            ..opts
        }),
        !opts.list,
        reports_walk(found, root, tree, order, sizes),
        reports_walk(other_found, root, tree, other_order, other_sizes),
        found.len() > 0,
        is_yes(answer),
        is_yes(other_answer),
        comes_to(step, opts, found, terminal, output, answer),
        comes_to(other_step, other_opts, other_found, terminal, other_output, other_answer),
    ensures
        step matches RunStep::Delete { output: _, paths, mode } && other_step matches
            RunStep::Delete { output: _, paths: other_paths, mode: other_mode } && paths_view(paths@)
            == paths_view(other_paths@) && mode == other_mode,
{
    measuring_changes_only_the_bytes(
        root,
        tree,
        order,
        sizes,
        found,
        other_order,
        other_sizes,
        other_found,
    );
    assert(found_paths(found).len() == found_paths(other_found).len());
}

/// There are failures exactly where a directory has an error.
pub proof fn failures_are_errors(results: Seq<ResultView>)
    ensures
        failures(results) <= results.len(),
        failures(results) == 0 <==> forall|i: int|
            0 <= i < results.len() ==> (#[trigger] results[i]).error is None,
    decreases results.len(),
{
    if results.len() > 0 {
        let before = results.drop_last();
        failures_are_errors(before);
        if failures(results) == 0 {
            assert forall|i: int| 0 <= i < results.len() implies (#[trigger] results[i]).error is
            None by {
                if i < before.len() {
                    assert(before[i].error is None);
                }
            }
        } else if forall|i: int|
            0 <= i < results.len() ==> (#[trigger] results[i]).error is None {
            assert(results[results.len() - 1].error is None);
            assert forall|i: int| 0 <= i < before.len() implies (#[trigger] before[i]).error is
            None by {
                assert(results[i].error is None);
            }
        }
    }
}

} // verus!
