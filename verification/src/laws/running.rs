//! A run: what is printed, what is asked and what is deleted.

use vstd::prelude::*;

use crate::cli::Opts;
use crate::disposal::{message_view, Mode, ResultView};
use crate::finder::{found_paths, FoundView};
use crate::laws::counting::{one_more_directory_adds_its_bytes, one_more_error_is_one_more_failure};
use crate::path::{path_text, paths_view, relative_text, PathView};
use crate::report::{bytes_sum, delete_json_text, failures, scan_json_text};
use crate::run::{
    ascii_lower, failure_lines, follows_answer, follows_scan, found_line, found_lines, in_column,
    is_ascii_yes, is_yes, layout_text, layout_wanted, list_text, lower_case, nothing_text,
    question_text, reports_deletion, scan_output, summary_text, trimmed, white_space, Report,
    RunStep,
};
use crate::size::bytes_text;
use crate::text::decimal;
use crate::workspace::{kind_text, WorkspaceKind};

verus! {

/// The workspace layout is told by its kind and the number of its packages.
pub proof fn layouts_tell_kind_and_packages(kind: WorkspaceKind, packages: nat)
    ensures
        kind == WorkspaceKind::NoWorkspace ==> layout_text(kind, packages)
            == "no workspace config"@,
        kind != WorkspaceKind::NoWorkspace && packages != 1 ==> layout_text(kind, packages)
            == kind_text(kind) + " workspace ("@ + decimal(packages) + " packages)"@,
        kind != WorkspaceKind::NoWorkspace ==> layout_text(kind, 1) == kind_text(kind)
            + " workspace ("@ + decimal(1) + " package)"@,
{
}

/// A text in a column ends with the text, has nothing but spaces before it, and is eight characters
/// wide unless the text is wider.
pub proof fn columns_are_eight_wide(text: Seq<char>)
    ensures
        in_column(text).len() == if text.len() < 8 {
            8
        } else {
            text.len()
        },
        in_column(text).skip(in_column(text).len() - text.len()) == text,
        forall|i: int|
            0 <= i < in_column(text).len() - text.len() ==> #[trigger] in_column(text)[i] == ' ',
{
    assert(in_column(text).skip(in_column(text).len() - text.len()) =~= text);
}

/// One more directory in the list is one more line: its path below the root and, where sizes are
/// measured, its own size in a column before it.
pub proof fn one_more_directory_is_one_more_line(
    root: PathView,
    found: Seq<FoundView>,
    last: FoundView,
    separator: u8,
)
    ensures
        found_lines(root, Seq::empty(), true, separator) == Seq::<char>::empty(),
        found_lines(root, Seq::empty(), false, separator) == Seq::<char>::empty(),
        found_lines(root, found.push(last), false, separator) == found_lines(
            root,
            found,
            false,
            separator,
        ) + "  "@ + relative_text(root, last.path, separator) + "\n"@,
        found_lines(root, found.push(last), true, separator) == found_lines(
            root,
            found,
            true,
            separator,
        ) + "  "@ + in_column(bytes_text(last.bytes as nat)) + "  "@ + relative_text(
            root,
            last.path,
            separator,
        ) + "\n"@,
{
    assert(found.push(last).drop_last() =~= found);
    assert(found_lines(root, found.push(last), false, separator) =~= found_lines(
        root,
        found,
        false,
        separator,
    ) + "  "@ + relative_text(root, last.path, separator) + "\n"@);
    assert(found_lines(root, found.push(last), true, separator) =~= found_lines(
        root,
        found,
        true,
        separator,
    ) + "  "@ + in_column(bytes_text(last.bytes as nat)) + "  "@ + relative_text(
        root,
        last.path,
        separator,
    ) + "\n"@);
}

/// What stands above the found directories: the root and, where it is wanted, the layout.
pub open spec fn heading(root: PathView, layout: Option<Seq<char>>, separator: u8) -> Seq<char> {
    match layout {
        None => "root: "@ + path_text(root, separator) + "\n"@,
        Some(label) => "root: "@ + path_text(root, separator) + "\n"@ + "      "@ + label + "\n"@,
    }
}

/// The list tells the root, the layout where it is wanted, how many directories there are and each
/// of them; a measured one tells the total of all their sizes.
pub proof fn lists_tell_count_and_total(
    root: PathView,
    layout: Option<Seq<char>>,
    found: Seq<FoundView>,
    separator: u8,
)
    ensures
        list_text(root, layout, found, false, separator) == heading(root, layout, separator)
            + "found "@ + decimal(found.len()) + " node_modules:\n"@ + found_lines(
            root,
            found,
            false,
            separator,
        ),
        list_text(root, layout, found, true, separator) == heading(root, layout, separator)
            + "found "@ + decimal(found.len()) + " node_modules totalling "@ + bytes_text(
            bytes_sum(found),
        ) + ":\n"@ + found_lines(root, found, true, separator),
{
    assert(list_text(root, layout, found, false, separator) =~= heading(root, layout, separator)
        + "found "@ + decimal(found.len()) + " node_modules:\n"@ + found_lines(
        root,
        found,
        false,
        separator,
    ));
    assert(list_text(root, layout, found, true, separator) =~= heading(root, layout, separator)
        + "found "@ + decimal(found.len()) + " node_modules totalling "@ + bytes_text(
        bytes_sum(found),
    ) + ":\n"@ + found_lines(root, found, true, separator));
}

/// One more directory in a measured list raises the total that is shown by its bytes, and no
/// directory is left out of it.
pub proof fn one_more_directory_raises_the_total(
    root: PathView,
    layout: Option<Seq<char>>,
    found: Seq<FoundView>,
    last: FoundView,
    separator: u8,
)
    ensures
        list_text(root, layout, found.push(last), true, separator) == heading(
            root,
            layout,
            separator,
        ) + "found "@ + decimal(found.len() + 1) + " node_modules totalling "@ + bytes_text(
            bytes_sum(found) + last.bytes as nat,
        ) + ":\n"@ + found_lines(root, found.push(last), true, separator),
        bytes_sum(Seq::empty()) == 0,
{
    lists_tell_count_and_total(root, layout, found.push(last), separator);
    one_more_directory_adds_its_bytes(found, last);
}

/// Where nothing was found the root is told and, where it is wanted, the layout.
pub proof fn nothing_found_tells_the_root(root: PathView, label: Seq<char>, separator: u8)
    ensures
        nothing_text(root, None, separator) == "remnem: no node_modules found under "@ + path_text(
            root,
            separator,
        ) + "\n"@,
        nothing_text(root, Some(label), separator) == "remnem: no node_modules found under "@
            + path_text(root, separator) + " ("@ + label + ")\n"@,
{
}

/// The question tells how many directories would be deleted.
pub proof fn questions_tell_the_count(count: nat)
    ensures
        question_text(count) == "\npermanently delete these "@ + decimal(count)
            + " directories? [y/N] "@,
{
}

/// What is printed after a scan: in JSON the report where only a list is wanted and nothing
/// otherwise; for people the list, what is said where there is nothing to list, and where only a list
/// is wanted that nothing was deleted.
pub proof fn scans_are_printed_as_wanted(
    opts: Opts,
    root: PathView,
    kind: WorkspaceKind,
    packages: Seq<PathView>,
    found: Seq<FoundView>,
    separator: u8,
)
    ensures
        ({
            let output = scan_output(opts, root, kind, packages, found, separator);
            let layout = if opts.workspace {
                Some(layout_text(kind, packages.len()))
            } else {
                None
            };
            &&& opts.json && opts.list ==> output == scan_json_text(
                root,
                kind,
                packages,
                found,
                separator,
            )
            &&& opts.json && !opts.list ==> output == Seq::<char>::empty()
            &&& !opts.json && found.len() == 0 ==> output == nothing_text(root, layout, separator)
            &&& !opts.json && found.len() > 0 && opts.list ==> output == list_text(
                root,
                layout,
                found,
                opts.measure,
                separator,
            ) + "\n(list only — nothing deleted)\n"@
            &&& !opts.json && found.len() > 0 && !opts.list ==> output == list_text(
                root,
                layout,
                found,
                opts.measure,
                separator,
            )
        }),
{
    assert(layout_wanted(opts, kind, packages.len()) == if opts.workspace {
        Some(layout_text(kind, packages.len()))
    } else {
        None
    });
}

/// Whether there is nothing but white space before `i` and from `j` on.
pub open spec fn is_white_outside(text: Seq<char>, i: int, j: int) -> bool {
    &&& 0 <= i <= j <= text.len()
    &&& forall|k: int| 0 <= k < i ==> white_space(#[trigger] text[k])
    &&& forall|k: int| j <= k < text.len() ==> white_space(#[trigger] text[k])
}

proof fn trimmed_range(text: Seq<char>) -> (range: (int, int))
    ensures
        is_white_outside(text, range.0, range.1),
        trimmed(text) == text.subrange(range.0, range.1),
        trimmed(text).len() > 0 ==> !white_space(trimmed(text).first()) && !white_space(
            trimmed(text).last(),
        ),
    decreases text.len(),
{
    if text.len() == 0 {
        assert(text.subrange(0, 0) =~= trimmed(text));
        (0, 0)
    } else if white_space(text.first()) {
        let less = text.drop_first();
        let (i, j) = trimmed_range(less);
        assert(text.subrange(i + 1, j + 1) =~= less.subrange(i, j));
        assert forall|k: int| 0 <= k < i + 1 implies white_space(#[trigger] text[k]) by {
            if k > 0 {
                assert(white_space(less[k - 1]));
            }
        }
        assert forall|k: int| j + 1 <= k < text.len() implies white_space(#[trigger] text[k]) by {
            assert(white_space(less[k - 1]));
        }
        (i + 1, j + 1)
    } else if white_space(text.last()) {
        let less = text.drop_last();
        let (i, j) = trimmed_range(less);
        assert(text.subrange(i, j) =~= less.subrange(i, j));
        assert forall|k: int| 0 <= k < i implies white_space(#[trigger] text[k]) by {
            assert(white_space(less[k]));
        }
        assert forall|k: int| j <= k < text.len() implies white_space(#[trigger] text[k]) by {
            if k < less.len() {
                assert(white_space(less[k]));
            }
        }
        (i, j)
    } else {
        assert(text.subrange(0, text.len() as int) =~= trimmed(text));
        (0, text.len() as int)
    }
}

/// A trimmed text is the text without some white space in front and some at the end, and neither
/// begins nor ends with white space.
pub proof fn trimming_takes_white_space_from_the_ends(text: Seq<char>)
    ensures
        exists|i: int, j: int| #[trigger]
            is_white_outside(text, i, j) && trimmed(text) == text.subrange(i, j),
        trimmed(text).len() > 0 ==> !white_space(trimmed(text).first()) && !white_space(
            trimmed(text).last(),
        ),
{
    let (i, j) = trimmed_range(text);
    assert(is_white_outside(text, i, j));
}

/// An answer means yes exactly if it is `y` or `yes`, in lower case and without the white space at
/// its ends.
pub proof fn only_y_and_yes_mean_yes(answer: Seq<char>)
    ensures
        is_yes(answer) <==> lower_case(trimmed(answer)) == "y"@ || lower_case(trimmed(answer))
            == "yes"@,
        is_ascii_yes(answer) <==> is_word(trimmed(answer), "y"@, "Y"@) || is_word(
            trimmed(answer),
            "yes"@,
            "YES"@,
        ),
{
    reveal_strlit("y");
    reveal_strlit("Y");
    reveal_strlit("yes");
    reveal_strlit("YES");
    let inner = trimmed(answer);
    let lower = inner.map_values(|c: char| ascii_lower(c));
    assert("y"@[0] == 'y' && "Y"@[0] == 'Y');
    assert("yes"@[0] == 'y' && "yes"@[1] == 'e' && "yes"@[2] == 's');
    assert("YES"@[0] == 'Y' && "YES"@[1] == 'E' && "YES"@[2] == 'S');
    assert forall|c: char| #[trigger] ascii_lower(c) == 'y' implies c == 'y' || c == 'Y' by {
        lower_letters(c, 'y', 'Y');
    }
    assert forall|c: char| #[trigger] ascii_lower(c) == 'e' implies c == 'e' || c == 'E' by {
        lower_letters(c, 'e', 'E');
    }
    assert forall|c: char| #[trigger] ascii_lower(c) == 's' implies c == 's' || c == 'S' by {
        lower_letters(c, 's', 'S');
    }
    assert("y"@.len() == 1 && "Y"@.len() == 1 && "yes"@.len() == 3 && "YES"@.len() == 3);
    assert(lower.len() == inner.len());
    if lower == "y"@ {
        assert(inner.len() == 1);
        assert(lower[0] == ascii_lower(inner[0]));
    }
    if lower == "yes"@ {
        assert(inner.len() == 3);
        assert(lower[0] == ascii_lower(inner[0]));
        assert(lower[1] == ascii_lower(inner[1]));
        assert(lower[2] == ascii_lower(inner[2]));
    }
    lower_letters('Y', 'y', 'Y');
    lower_letters('y', 'y', 'Y');
    lower_letters('E', 'e', 'E');
    lower_letters('e', 'e', 'E');
    lower_letters('S', 's', 'S');
    lower_letters('s', 's', 'S');
    if is_word(inner, "y"@, "Y"@) {
        assert(inner[0] == 'y' || inner[0] == 'Y');
        assert(lower =~= "y"@);
    }
    if is_word(inner, "yes"@, "YES"@) {
        assert(inner[0] == 'y' || inner[0] == 'Y');
        assert(inner[1] == 'e' || inner[1] == 'E');
        assert(inner[2] == 's' || inner[2] == 'S');
        assert(lower =~= "yes"@);
    }
}

/// Whether a text is a word in whatever case, given in small and in capital letters.
pub open spec fn is_word(text: Seq<char>, small: Seq<char>, capital: Seq<char>) -> bool {
    &&& text.len() == small.len()
    &&& forall|i: int|
        0 <= i < text.len() ==> #[trigger] text[i] == small[i] || text[i] == capital[i]
}

proof fn lower_letters(c: char, small: char, capital: char)
    requires
        97 <= small as nat <= 122,
        capital as nat + 32 == small as nat,
    ensures
        ascii_lower(c) == small <==> c == small || c == capital,
{
}

/// Outcomes with an error and outcomes without one are all outcomes.
proof fn the_rest_is_done(results: Seq<ResultView>)
    ensures
        results.filter(|r: ResultView| r.error is None).len() + failures(results)
            == results.len(),
    decreases results.len(),
{
    reveal(Seq::filter);
    if results.len() > 0 {
        the_rest_is_done(results.drop_last());
    }
}

/// The summary of a deletion tells how many outcomes carry no error, how many there are, the size
/// where it is measured, and the time; and that space is being reclaimed, where a directory was
/// deleted and nobody waited for it.
pub proof fn summaries_tell_what_was_deleted(
    opts: Opts,
    results: Seq<ResultView>,
    elapsed: Seq<char>,
    bytes: nat,
)
    ensures
        ({
            let done = results.filter(|r: ResultView| r.error is None).len();
            let head = "deleted: "@ + decimal(done) + "/"@ + decimal(results.len())
                + " node_modules"@;
            let size = if opts.measure {
                " ("@ + bytes_text(bytes) + ")"@
            } else {
                ""@
            };
            let tail = if !opts.sync && done > 0 {
                "(space is being reclaimed in the background)\n"@
            } else {
                ""@
            };
            summary_text(opts, results, elapsed, bytes) == head + size + " in "@ + elapsed
                + "ms\n"@ + tail
        }),
{
    the_rest_is_done(results);
    reveal_strlit("");
    reveal_strlit(")");
    reveal_strlit(" in ");
    reveal_strlit(") in ");
    assert(") in "@ =~= ")"@ + " in "@);
    let done = results.filter(|r: ResultView| r.error is None).len();
    let head = "deleted: "@ + decimal(done) + "/"@ + decimal(results.len()) + " node_modules"@;
    let size = if opts.measure {
        " ("@ + bytes_text(bytes) + ")"@
    } else {
        ""@
    };
    let tail = if !opts.sync && done > 0 {
        "(space is being reclaimed in the background)\n"@
    } else {
        ""@
    };
    assert(summary_text(opts, results, elapsed, bytes) =~= head + size + " in "@ + elapsed
        + "ms\n"@ + tail);
}

/// One more outcome is one more line on the standard error exactly if it carries an error, with its
/// own path and its own message.
pub proof fn one_more_error_is_one_more_line(
    root: PathView,
    results: Seq<ResultView>,
    last: ResultView,
    separator: u8,
)
    ensures
        failure_lines(root, Seq::empty(), separator) == Seq::<char>::empty(),
        last.error is Some ==> failure_lines(root, results.push(last), separator) == failure_lines(
            root,
            results,
            separator,
        ) + "  failed: "@ + relative_text(root, last.path, separator) + " — "@ + last.error->0
            + "\n"@,
        last.error is None ==> failure_lines(root, results.push(last), separator) == failure_lines(
            root,
            results,
            separator,
        ),
{
    assert(results.push(last).drop_last() =~= results);
}

/// The report on a deletion in JSON is nothing but the JSON, with the code 0. For people it is the
/// summary and the failures, and the code is 1 exactly if an outcome carries an error.
pub proof fn the_code_tells_of_errors(
    report: Report,
    root: PathView,
    opts: Opts,
    results: Seq<ResultView>,
    elapsed: Seq<char>,
    bytes: nat,
    separator: u8,
)
    requires
        reports_deletion(report, root, opts, results, elapsed, bytes, separator),
    ensures
        opts.json ==> report.code == 0 && report.errors@.len() == 0 && report.output@
            == delete_json_text(results, separator),
        !opts.json ==> {
            &&& report.output@ == summary_text(opts, results, elapsed, bytes)
            &&& report.errors@ == failure_lines(root, results, separator)
            &&& report.code == 1 || report.code == 0
            &&& report.code == 1 <==> exists|i: int|
                0 <= i < results.len() && (#[trigger] results[i]).error is Some
        },
{
    crate::run::failures_are_errors(results);
}

/// What a run does after a scan. Where only a list is wanted, or nothing was found, it prints what
/// there is to say and ends well. Where somebody is there and was not told not to be asked, it prints
/// the list and asks. Otherwise it deletes exactly what was found, in order; it waits for the space
/// exactly if it is told to, and prints the list before unless no more than a deletion in the
/// background is wanted.
pub proof fn what_a_run_does_after_a_scan(
    step: RunStep,
    opts: Opts,
    found: Seq<FoundView>,
    terminal: bool,
    output: Seq<char>,
)
    requires
        follows_scan(step, opts, found, terminal, output),
    ensures
        ({
            let quiet = opts.yes || !terminal;
            let fast = quiet && !opts.list && !opts.sync && !opts.measure && !opts.workspace
                && !opts.json;
            &&& opts.list || (!opts.json && !fast && found.len() == 0) ==> {
                &&& step matches RunStep::Finish(report)
                &&& report.output@ == output
                &&& report.errors@.len() == 0
                &&& report.code == 0
            }
            &&& !opts.list && !opts.json && !quiet && found.len() > 0 ==> {
                &&& step matches RunStep::Ask { output: printed, question }
                &&& printed@ == output
                &&& question@ == "\npermanently delete these "@ + decimal(found.len())
                    + " directories? [y/N] "@
            }
            &&& !opts.list && (opts.json || quiet) && (fast || opts.json || found.len() > 0) ==> {
                &&& step matches RunStep::Delete { output: printed, paths, mode }
                &&& paths@.len() == found.len()
                &&& forall|i: int|
                    0 <= i < found.len() ==> (#[trigger] paths@[i])@ == found[i].path
                &&& mode == Mode::RemoveSync <==> opts.sync
                &&& fast ==> printed@.len() == 0
                &&& !fast ==> printed@ == output
            }
        }),
{
    if step is Delete {
        let paths = step->paths;
        assert(paths_view(paths@).len() == paths@.len());
        assert(found_paths(found).len() == found.len());
        assert forall|i: int| 0 <= i < found.len() implies (#[trigger] paths@[i])@
            == found[i].path by {
            assert(paths_view(paths@)[i] == found_paths(found)[i]);
        }
    }
}

/// What a run does after an answer: on a yes it deletes exactly what was found, in order, and waits
/// for the space exactly if it is told to; on anything else it says that it stops, with the code 1.
pub proof fn what_a_run_does_after_an_answer(
    step: RunStep,
    opts: Opts,
    found: Seq<FoundView>,
    answer: Seq<char>,
)
    requires
        follows_answer(step, opts, found, answer),
    ensures
        is_yes(answer) ==> {
            &&& step matches RunStep::Delete { output: printed, paths, mode }
            &&& printed@.len() == 0
            &&& paths@.len() == found.len()
            &&& forall|i: int| 0 <= i < found.len() ==> (#[trigger] paths@[i])@ == found[i].path
            &&& mode == Mode::RemoveSync <==> opts.sync
        },
        !is_yes(answer) ==> {
            &&& step matches RunStep::Finish(report)
            &&& report.output@ == "aborted.\n"@
            &&& report.errors@.len() == 0
            &&& report.code == 1
        },
{
    if step is Delete {
        let paths = step->paths;
        assert(paths_view(paths@).len() == paths@.len());
        assert(found_paths(found).len() == found.len());
        assert forall|i: int| 0 <= i < found.len() && is_yes(answer) implies (
        #[trigger] paths@[i])@ == found[i].path by {
            assert(paths_view(paths@)[i] == found_paths(found)[i]);
        }
    }
}

/// An optional text is there exactly if its value is.
pub proof fn optional_texts_keep_their_text(text: Option<String>)
    ensures
        message_view(text) is Some <==> text is Some,
        text is Some ==> message_view(text)->0 == text->0@,
{
}

} // verus!
