//! The command line: what is accepted, and what it turns on.

use vstd::prelude::*;

use crate::cli::{
    asks, is_known, is_option, is_reaper, is_refused, reason, root_of, says, texts_view, usage_text,
    Opts, UsageError, HELP,
};

verus! {

/// Whether an argument begins with a dash.
pub open spec fn has_a_dash(arg: Seq<char>) -> bool {
    arg.len() > 0 && arg[0] == '-'
}

/// The options that exist.
pub open spec fn all_options() -> Seq<Seq<char>> {
    seq![
        "-h"@,
        "--help"@,
        "-l"@,
        "--list"@,
        "-m"@,
        "--measure"@,
        "-w"@,
        "--workspace"@,
        "--sync"@,
        "--json"@,
        "-y"@,
        "--yes"@,
    ]
}

/// Whether the argument number `k` is the first one that begins with no dash.
pub open spec fn is_first_plain(args: Seq<Seq<char>>, k: int) -> bool {
    &&& 0 <= k < args.len()
    &&& !has_a_dash(args[k])
    &&& forall|j: int| 0 <= j < k ==> has_a_dash(#[trigger] args[j])
}

/// The options that are known are those that exist.
pub proof fn known_options_are_those_that_exist(arg: Seq<char>)
    ensures
        is_known(arg) <==> all_options().contains(arg),
        is_option(arg) <==> has_a_dash(arg),
{
    let all = all_options();
    assert(all[0] == "-h"@ && all[1] == "--help"@ && all[2] == "-l"@ && all[3] == "--list"@
        && all[4] == "-m"@ && all[5] == "--measure"@ && all[6] == "-w"@ && all[7]
        == "--workspace"@ && all[8] == "--sync"@ && all[9] == "--json"@ && all[10] == "-y"@
        && all[11] == "--yes"@);
    assert(all.len() == 12);
    if all.contains(arg) {
        let i = all.index_of(arg);
        assert(all[i] == arg);
    }
}

/// The project root is the first argument that begins with no dash; without one there is none.
pub proof fn root_is_the_first_plain_argument(args: Seq<Seq<char>>)
    ensures
        root_of(args) is Some <==> exists|k: int| #[trigger] is_first_plain(args, k),
        forall|k: int| #[trigger] is_first_plain(args, k) ==> root_of(args) == Some(args[k]),
        root_of(args) is None <==> forall|j: int|
            0 <= j < args.len() ==> has_a_dash(#[trigger] args[j]),
    decreases args.len(),
{
    if args.len() > 0 {
        let before = args.drop_last();
        let n = before.len() as int;
        root_is_the_first_plain_argument(before);
        assert(forall|j: int| 0 <= j < n ==> #[trigger] args[j] == before[j]);
        assert forall|k: int| #[trigger] is_first_plain(args, k) implies root_of(args) == Some(
            args[k],
        ) by {
            if k < n {
                assert(is_first_plain(before, k));
            } else {
                assert forall|j: int| 0 <= j < before.len() implies has_a_dash(
                    #[trigger] before[j],
                ) by {
                    assert(has_a_dash(args[j]));
                }
            }
        }
        if root_of(before) is Some {
            let k = choose|k: int| #[trigger] is_first_plain(before, k);
            assert(is_first_plain(args, k));
            assert(!has_a_dash(args[k]));
        } else if !has_a_dash(args[n]) {
            assert forall|j: int| 0 <= j < n implies has_a_dash(#[trigger] args[j]) by {
                assert(has_a_dash(before[j]));
            }
            assert(is_first_plain(args, n));
        } else {
            assert forall|j: int| 0 <= j < args.len() implies has_a_dash(#[trigger] args[j]) by {
                if j < n {
                    assert(has_a_dash(before[j]));
                }
            }
        }
    }
}

/// An argument is refused exactly if it begins with a dash and is no option that exists, or begins
/// with no dash and comes after another that does not.
pub proof fn what_is_refused(args: Seq<Seq<char>>, i: int)
    requires
        0 <= i < args.len(),
    ensures
        has_a_dash(args[i]) ==> (is_refused(args, i) <==> !all_options().contains(args[i])),
        !has_a_dash(args[i]) ==> (is_refused(args, i) <==> exists|j: int|
            0 <= j < i && !has_a_dash(#[trigger] args[j])),
{
    known_options_are_those_that_exist(args[i]);
    let before = args.take(i);
    root_is_the_first_plain_argument(before);
    assert(forall|j: int| 0 <= j < i ==> #[trigger] before[j] == args[j]);
    if !has_a_dash(args[i]) {
        if is_refused(args, i) {
            let j = choose|j: int| 0 <= j < before.len() && !has_a_dash(#[trigger] before[j]);
            assert(!has_a_dash(args[j]));
        }
        if exists|j: int| 0 <= j < i && !has_a_dash(#[trigger] args[j]) {
            let j = choose|j: int| 0 <= j < i && !has_a_dash(#[trigger] args[j]);
            assert(!has_a_dash(before[j]));
        }
    }
}

proof fn asking_is_being_there(args: Seq<Seq<char>>, short: Seq<char>, long: Seq<char>)
    ensures
        asks(args, short, long) <==> args.contains(short) || args.contains(long),
{
    if args.contains(short) {
        let i = args.index_of(short);
        assert(args[i] == short);
    }
    if args.contains(long) {
        let i = args.index_of(long);
        assert(args[i] == long);
    }
}

/// Each switch is on exactly if one of its spellings is among the arguments, and the root is the
/// first argument that begins with no dash.
pub proof fn switches_are_on_if_they_are_given(opts: Opts, args: Seq<Seq<char>>)
    requires
        says(opts, args),
    ensures
        opts.help <==> args.contains("-h"@) || args.contains("--help"@),
        opts.list <==> args.contains("-l"@) || args.contains("--list"@),
        opts.measure <==> args.contains("-m"@) || args.contains("--measure"@),
        opts.workspace <==> args.contains("-w"@) || args.contains("--workspace"@),
        opts.sync <==> args.contains("--sync"@),
        opts.json <==> args.contains("--json"@),
        opts.yes <==> args.contains("-y"@) || args.contains("--yes"@),
        opts.root is None <==> forall|j: int|
            0 <= j < args.len() ==> has_a_dash(#[trigger] args[j]),
        opts.root is Some ==> exists|k: int| #[trigger]
            is_first_plain(args, k) && opts.root->0@ == args[k],
{
    asking_is_being_there(args, "-h"@, "--help"@);
    asking_is_being_there(args, "-l"@, "--list"@);
    asking_is_being_there(args, "-m"@, "--measure"@);
    asking_is_being_there(args, "-w"@, "--workspace"@);
    asking_is_being_there(args, "--sync"@, "--sync"@);
    asking_is_being_there(args, "--json"@, "--json"@);
    asking_is_being_there(args, "-y"@, "--yes"@);
    root_is_the_first_plain_argument(args);
}

/// The reason for a refusal names the argument that is refused: an unknown option begins with a
/// dash, an extra argument does not.
pub proof fn reasons_name_the_argument(args: Seq<Seq<char>>, i: int, error: UsageError)
    requires
        reason(args, i, error),
    ensures
        match error {
            UsageError::UnknownOption(arg) => arg@ == args[i] && has_a_dash(args[i]),
            UsageError::ExtraArgument(arg) => arg@ == args[i] && !has_a_dash(args[i]),
        },
{
}

/// What is printed about a refusal names the argument; the help follows on an unknown option.
pub proof fn refusals_name_the_argument(arg: String)
    ensures
        usage_text(UsageError::UnknownOption(arg)) == "remnem: unknown option "@ + arg@ + "\n\n"@
            + HELP@,
        usage_text(UsageError::ExtraArgument(arg)) == "remnem: unexpected extra argument "@ + arg@
            + "\n"@,
{
}

/// The arguments are those of the background process exactly if the first is `__reap`.
pub proof fn the_first_argument_tells_the_background_process(args: Seq<Seq<char>>)
    ensures
        is_reaper(args) <==> args.len() > 0 && args[0] == "__reap"@,
{
}

/// A list of texts has every text, in its place.
pub proof fn lists_keep_every_text(texts: Seq<String>)
    ensures
        texts_view(texts).len() == texts.len(),
        forall|i: int| 0 <= i < texts.len() ==> #[trigger] texts_view(texts)[i] == texts[i]@,
{
}

/// The help names the program, its argument and each option, with what it does.
pub proof fn the_help_explains_every_option()
    ensures
        HELP@ == "\
remnem — delete every nested node_modules, fast

Usage:
  remnem [path] [options]

Arguments:
  path                 Project root to clean (default: current directory)

Options:
  -l, --list           List what would be cleared; touch nothing
  -m, --measure        Size each node_modules (slow: walks every dependency tree)
  -w, --workspace      Also resolve & report the bun/pnpm workspace layout (slow)
      --sync           Wait for the disk space to actually free before returning
      --json           Print the raw result as JSON
  -y, --yes            Skip the confirmation prompt
  -h, --help           Show this help

Finds every node_modules directory under <path> (root + all workspace packages
+ any nested ones), then deletes them.

By default each node_modules is instantly renamed out of the repository into the
OS temp directory (an O(1) same-volume operation) so it is gone from its
location immediately — a clean reinstall can start right away, and nothing is
left in the tree for git to see — while the bytes are reclaimed by a detached
background process. Pass --sync to block until that reclaim finishes. (If the
temp dir is on a different filesystem, remnem deletes in place synchronously.)
"@,
{
}

} // verus!
