//! The command line.

use vstd::prelude::*;

use crate::text::same_text;

verus! {

/// What `--help` prints.
pub const HELP: &'static str = "\
remnem — delete every nested node_modules, fast

Usage:
  remnem [path] [options]

Arguments:
  path                 Project root to clean (default: current directory)

Options:
  -l, --list           List what would be cleared; touch nothing
  -m, --measure        Size each node_modules (slow: walks every dependency tree)
  -w, --workspace      Also resolve & report the bun/pnpm workspace layout (slow)
      --sync           Wait for the disk space to actually free before returning
      --json           Print the raw result as JSON
  -y, --yes            Skip the confirmation prompt
  -h, --help           Show this help

Finds every node_modules directory under <path> (root + all workspace packages
+ any nested ones), then deletes them.

By default each node_modules is instantly renamed out of the repository into the
OS temp directory (an O(1) same-volume operation) so it is gone from its
location immediately — a clean reinstall can start right away, and nothing is
left in the tree for git to see — while the bytes are reclaimed by a detached
background process. Pass --sync to block until that reclaim finishes. (If the
temp dir is on a different filesystem, remnem deletes in place synchronously.)
";

/// The options of a run.
#[derive(Debug)]
pub struct Opts {
    /// The project root; the current directory where it is absent or empty.
    pub root: Option<String>,
    /// Only list what would be deleted.
    pub list: bool,
    /// Measure each directory.
    pub measure: bool,
    /// Report the workspace layout too.
    pub workspace: bool,
    /// Wait until the space is free.
    pub sync: bool,
    /// Report in JSON.
    pub json: bool,
    /// Do not ask.
    pub yes: bool,
    /// Only show the help.
    pub help: bool,
}

/// Why a command line is refused.
#[derive(Debug)]
pub enum UsageError {
    UnknownOption(String),
    ExtraArgument(String),
}

/// The values of a list of texts.
pub open spec fn texts_view(texts: Seq<String>) -> Seq<Seq<char>> {
    texts.map_values(|text: String| text@)
}

/// Whether an argument has the form of an option.
pub open spec fn is_option(arg: Seq<char>) -> bool {
    arg.len() > 0 && arg[0] == '-'
}

/// Whether an argument is one of the options that exist.
pub open spec fn is_known(arg: Seq<char>) -> bool {
    ||| arg == "-h"@ || arg == "--help"@
    ||| arg == "-l"@ || arg == "--list"@
    ||| arg == "-m"@ || arg == "--measure"@
    ||| arg == "-w"@ || arg == "--workspace"@
    ||| arg == "--sync"@
    ||| arg == "--json"@
    ||| arg == "-y"@ || arg == "--yes"@
}

/// Whether one of the arguments is `short` or `long`.
pub open spec fn asks(args: Seq<Seq<char>>, short: Seq<char>, long: Seq<char>) -> bool {
    exists|i: int| 0 <= i < args.len() && (#[trigger] args[i] == short || args[i] == long)
}

/// The first argument that is no option: the project root.
pub open spec fn root_of(args: Seq<Seq<char>>) -> Option<Seq<char>>
    decreases args.len(),
{
    if args.len() == 0 {
        None
    } else if root_of(args.drop_last()) is None && !is_option(args.last()) {
        Some(args.last())
    } else {
        root_of(args.drop_last())
    }
}

/// Whether the argument number `i` is refused: it is an option that does not exist, or there is a
/// project root already.
pub open spec fn is_refused(args: Seq<Seq<char>>, i: int) -> bool {
    if is_option(args[i]) {
        !is_known(args[i])
    } else {
        root_of(args.take(i)) is Some
    }
}

/// What the options say.
pub open spec fn says(opts: Opts, args: Seq<Seq<char>>) -> bool {
    &&& opts.help == asks(args, "-h"@, "--help"@)
    &&& opts.list == asks(args, "-l"@, "--list"@)
    &&& opts.measure == asks(args, "-m"@, "--measure"@)
    &&& opts.workspace == asks(args, "-w"@, "--workspace"@)
    &&& opts.sync == asks(args, "--sync"@, "--sync"@)
    &&& opts.json == asks(args, "--json"@, "--json"@)
    &&& opts.yes == asks(args, "-y"@, "--yes"@)
    &&& match opts.root {
        Some(root) => root_of(args) == Some(root@),
        None => root_of(args) is None,
    }
}

/// Why the argument number `i` is refused.
pub open spec fn reason(args: Seq<Seq<char>>, i: int, error: UsageError) -> bool {
    match error {
        UsageError::UnknownOption(arg) => is_option(args[i]) && arg@ == args[i],
        UsageError::ExtraArgument(arg) => !is_option(args[i]) && arg@ == args[i],
    }
}

fn has_dash(arg: &str) -> (dash: bool)
    ensures
        dash == is_option(arg@),
{
    !arg.is_empty() && arg.get_char(0) == '-'
}

proof fn asks_one_more(args: Seq<Seq<char>>, i: int, short: Seq<char>, long: Seq<char>)
    requires
        0 <= i < args.len(),
    ensures
        asks(args.take(i + 1), short, long) == (asks(args.take(i), short, long) || args[i] == short
            || args[i] == long),
{
    let now = args.take(i + 1);
    let before = args.take(i);
    if asks(before, short, long) {
        let j = choose|j: int|
            0 <= j < before.len() && (#[trigger] before[j] == short || before[j] == long);
        assert(now[j] == before[j]);
    }
    if asks(now, short, long) {
        let j = choose|j: int|
            0 <= j < now.len() && (#[trigger] now[j] == short || now[j] == long);
        if j < i {
            assert(before[j] == now[j]);
        }
    }
    assert(now[i] == args[i]);
}

/// How the options are told from one another: by the letter after the dashes.
proof fn spelling()
    ensures
        "-h"@.len() == 2 && "-h"@[0] == '-' && "-h"@[1] == 'h',
        "--help"@.len() > 2 && "--help"@[0] == '-' && "--help"@[1] == '-' && "--help"@[2] == 'h',
        "-l"@.len() == 2 && "-l"@[0] == '-' && "-l"@[1] == 'l',
        "--list"@.len() > 2 && "--list"@[0] == '-' && "--list"@[1] == '-' && "--list"@[2] == 'l',
        "-m"@.len() == 2 && "-m"@[0] == '-' && "-m"@[1] == 'm',
        "--measure"@.len() > 2 && "--measure"@[0] == '-' && "--measure"@[1] == '-' && "--measure"@[2] == 'm',
        "-w"@.len() == 2 && "-w"@[0] == '-' && "-w"@[1] == 'w',
        "--workspace"@.len() > 2 && "--workspace"@[0] == '-' && "--workspace"@[1] == '-' && "--workspace"@[2] == 'w',
        "--sync"@.len() > 2 && "--sync"@[0] == '-' && "--sync"@[1] == '-' && "--sync"@[2] == 's',
        "--json"@.len() > 2 && "--json"@[0] == '-' && "--json"@[1] == '-' && "--json"@[2] == 'j',
        "-y"@.len() == 2 && "-y"@[0] == '-' && "-y"@[1] == 'y',
        "--yes"@.len() > 2 && "--yes"@[0] == '-' && "--yes"@[1] == '-' && "--yes"@[2] == 'y',
{
    reveal_strlit("-h");
    reveal_strlit("--help");
    reveal_strlit("-l");
    reveal_strlit("--list");
    reveal_strlit("-m");
    reveal_strlit("--measure");
    reveal_strlit("-w");
    reveal_strlit("--workspace");
    reveal_strlit("--sync");
    reveal_strlit("--json");
    reveal_strlit("-y");
    reveal_strlit("--yes");
}

/// Reads the command line. The first argument that is refused decides the error; otherwise each
/// switch is on exactly if it is among the arguments, and the root is the argument that is no
/// option.
pub fn parse_args(argv: &Vec<String>) -> (parsed: Result<Opts, UsageError>)
    ensures
        match parsed {
            Ok(opts) => says(opts, texts_view(argv@)) && forall|i: int|
                0 <= i < argv@.len() ==> !is_refused(texts_view(argv@), i),
            Err(error) => exists|i: int|
                {
                    &&& 0 <= i < argv@.len()
                    &&& #[trigger] is_refused(texts_view(argv@), i)
                    &&& reason(texts_view(argv@), i, error)
                    &&& forall|j: int| 0 <= j < i ==> !is_refused(texts_view(argv@), j)
                },
        },
{
    let mut opts = Opts {
        root: None,
        list: false,
        measure: false,
        workspace: false,
        sync: false,
        json: false,
        yes: false,
        help: false,
    };
    let ghost args = texts_view(argv@);
    let mut i: usize = 0;
    while i < argv.len()
        invariant
            args == texts_view(argv@),
            i <= argv@.len(),
            says(opts, args.take(i as int)),
            forall|j: int| 0 <= j < i ==> !is_refused(args, j),
        decreases argv@.len() - i,
    {
        let arg = argv[i].as_str();
        proof {
            let k = i as int;
            assert(arg@ == args[k]);
            asks_one_more(args, k, "-h"@, "--help"@);
            asks_one_more(args, k, "-l"@, "--list"@);
            asks_one_more(args, k, "-m"@, "--measure"@);
            asks_one_more(args, k, "-w"@, "--workspace"@);
            asks_one_more(args, k, "--sync"@, "--sync"@);
            asks_one_more(args, k, "--json"@, "--json"@);
            asks_one_more(args, k, "-y"@, "--yes"@);
            assert(args.take(k + 1).drop_last() =~= args.take(k));
            assert(args.take(k + 1).last() == args[k]);
            spelling();
        }
        if same_text(arg, "-h") || same_text(arg, "--help") {
            opts.help = true;
        } else if same_text(arg, "-l") || same_text(arg, "--list") {
            opts.list = true;
        } else if same_text(arg, "-m") || same_text(arg, "--measure") {
            opts.measure = true;
        } else if same_text(arg, "-w") || same_text(arg, "--workspace") {
            opts.workspace = true;
        } else if same_text(arg, "--sync") {
            opts.sync = true;
        } else if same_text(arg, "--json") {
            opts.json = true;
        } else if same_text(arg, "-y") || same_text(arg, "--yes") {
            opts.yes = true;
        } else {
            if has_dash(arg) {
                assert(is_refused(args, i as int));
                return Err(UsageError::UnknownOption(arg.to_owned()));
            }
            if opts.root.is_some() {
                assert(is_refused(args, i as int));
                return Err(UsageError::ExtraArgument(arg.to_owned()));
            }
            opts.root = Some(arg.to_owned());
        }
        i += 1;
    }
    assert(args.take(argv@.len() as int) =~= args);
    Ok(opts)
}

/// What is printed about a command line that is refused.
pub open spec fn usage_text(error: UsageError) -> Seq<char> {
    match error {
        UsageError::UnknownOption(arg) => "remnem: unknown option "@ + arg@ + "\n\n"@ + HELP@,
        UsageError::ExtraArgument(arg) => "remnem: unexpected extra argument "@ + arg@ + "\n"@,
    }
}

/// What is printed about a command line that is refused. The exit code is then 2.
pub fn usage_message(error: &UsageError) -> (text: String)
    ensures
        text@ == usage_text(*error),
{
    match error {
        UsageError::UnknownOption(arg) => {
            let mut text = "remnem: unknown option ".to_owned();
            text.append(arg.as_str());
            text.append("\n\n");
            text.append(HELP);
            text
        },
        UsageError::ExtraArgument(arg) => {
            let mut text = "remnem: unexpected extra argument ".to_owned();
            text.append(arg.as_str());
            text.append("\n");
            text
        },
    }
}

/// What a command line asks for.
#[derive(Debug)]
pub enum Command {
    /// Remove a staging directory in the background. Without one there is nothing to do.
    Reap(Option<String>),
    /// Say why the command line is refused.
    Refuse(UsageError),
    /// Show the help.
    Help,
    /// Find and delete.
    Run(Opts),
}

/// Whether the arguments are those of the background process.
pub open spec fn is_reaper(args: Seq<Seq<char>>) -> bool {
    args.len() > 0 && args[0] == "__reap"@
}

/// Decides what a command line asks for.
pub fn command(argv: &Vec<String>) -> (command: Command)
    ensures
        is_reaper(texts_view(argv@)) ==> (command matches Command::Reap(staging) && match staging {
            Some(dir) => argv@.len() > 1 && dir@ == argv@[1]@,
            None => argv@.len() == 1,
        }),
        !is_reaper(texts_view(argv@)) ==> match command {
            Command::Reap(_) => false,
            Command::Refuse(error) => exists|i: int|
                {
                    &&& 0 <= i < argv@.len()
                    &&& #[trigger] is_refused(texts_view(argv@), i)
                    &&& reason(texts_view(argv@), i, error)
                    &&& forall|j: int| 0 <= j < i ==> !is_refused(texts_view(argv@), j)
                },
            Command::Help => asks(texts_view(argv@), "-h"@, "--help"@) && forall|i: int|
                0 <= i < argv@.len() ==> !is_refused(texts_view(argv@), i),
            Command::Run(opts) => says(opts, texts_view(argv@)) && !opts.help && forall|i: int|
                0 <= i < argv@.len() ==> !is_refused(texts_view(argv@), i),
        },
{
    if argv.len() > 0 && same_text(argv[0].as_str(), "__reap") {
        if argv.len() > 1 {
            return Command::Reap(Some(argv[1].as_str().to_owned()));
        }
        return Command::Reap(None);
    }
    match parse_args(argv) {
        Ok(opts) => {
            if opts.help {
                Command::Help
            } else {
                Command::Run(opts)
            }
        },
        Err(error) => Command::Refuse(error),
    }
}

/// The arguments with which the background process is started for a staging directory.
pub fn reaper_args(staging: String) -> (args: Vec<String>)
    ensures
        texts_view(args@) == seq!["__reap"@, staging@],
        is_reaper(texts_view(args@)),
{
    let mut args: Vec<String> = Vec::new();
    args.push("__reap".to_owned());
    args.push(staging);
    assert(texts_view(args@) =~= seq!["__reap"@, staging@]);
    args
}

} // verus!
