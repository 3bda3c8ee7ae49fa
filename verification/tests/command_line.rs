use remnem::cli::{command, parse_args, reaper_args, usage_message, Command, Opts, UsageError, HELP};

fn args(list: &[&str]) -> Vec<String> {
    list.iter().map(|a| a.to_string()).collect()
}

fn parsed(list: &[&str]) -> Opts {
    parse_args(&args(list)).unwrap()
}

fn switches(opts: &Opts) -> [bool; 7] {
    [opts.list, opts.measure, opts.workspace, opts.sync, opts.json, opts.yes, opts.help]
}

#[test]
fn nothing_is_on_by_default() {
    let opts = parsed(&[]);
    assert_eq!(switches(&opts), [false; 7]);
    assert_eq!(opts.root, None);
}

#[test]
fn each_option_turns_on_its_own_switch() {
    let spellings: [&[&str]; 7] = [
        &["-l", "--list"],
        &["-m", "--measure"],
        &["-w", "--workspace"],
        &["--sync"],
        &["--json"],
        &["-y", "--yes"],
        &["-h", "--help"],
    ];
    for (i, list) in spellings.iter().enumerate() {
        for arg in list.iter() {
            let mut expected = [false; 7];
            expected[i] = true;
            assert_eq!(switches(&parsed(&[arg])), expected, "{arg}");
        }
    }
}

#[test]
fn options_and_root_come_in_any_order() {
    let opts = parsed(&["-l", "repo", "--json", "-l"]);
    assert_eq!(switches(&opts), [true, false, false, false, true, false, false]);
    assert_eq!(opts.root.as_deref(), Some("repo"));
    assert_eq!(parsed(&[""]).root.as_deref(), Some(""));
}

#[test]
fn unknown_options_are_refused() {
    for bad in ["-x", "--lists", "-", "--", "-lm", "-Y"] {
        match parse_args(&args(&["-l", bad, "--worse"])) {
            Err(UsageError::UnknownOption(arg)) => assert_eq!(arg, bad),
            other => panic!("{other:?}"),
        }
    }
    let text = usage_message(&UsageError::UnknownOption("-x".to_string()));
    assert_eq!(text, format!("remnem: unknown option -x\n\n{HELP}"));
}

#[test]
fn a_second_root_is_refused() {
    match parse_args(&args(&["one", "-l", "two", "--bad"])) {
        Err(UsageError::ExtraArgument(arg)) => assert_eq!(arg, "two"),
        other => panic!("{other:?}"),
    }
    match parse_args(&args(&["one", "--bad", "two"])) {
        Err(UsageError::UnknownOption(arg)) => assert_eq!(arg, "--bad"),
        other => panic!("{other:?}"),
    }
    assert_eq!(
        usage_message(&UsageError::ExtraArgument("two".to_string())),
        "remnem: unexpected extra argument two\n"
    );
}

#[test]
fn the_help_describes_every_option() {
    assert!(HELP.starts_with("remnem — delete every nested node_modules, fast\n\nUsage:\n"));
    for option in ["-l, --list ", "-m, --measure ", "-w, --workspace ", "--sync ", "--json ", "-y, --yes ", "-h, --help "] {
        assert!(HELP.contains(option), "{option}");
    }
    assert!(HELP.ends_with("remnem deletes in place synchronously.)\n"));
}

#[test]
fn the_command_line_says_what_to_do() {
    assert!(matches!(command(&args(&["-h"])), Command::Help));
    assert!(matches!(command(&args(&["repo", "-l", "--help"])), Command::Help));
    assert!(matches!(
        command(&args(&["-h", "-x"])),
        Command::Refuse(UsageError::UnknownOption(_))
    ));
    match command(&args(&["repo", "-y"])) {
        Command::Run(opts) => {
            assert!(opts.yes);
            assert_eq!(opts.root.as_deref(), Some("repo"));
        }
        other => panic!("{other:?}"),
    }
    assert!(matches!(command(&args(&[])), Command::Run(_)));
}

#[test]
fn the_background_process_understands_its_arguments() {
    let argv = reaper_args("/tmp/remnem-7".to_string());
    assert_eq!(argv, ["__reap", "/tmp/remnem-7"]);
    match command(&argv) {
        Command::Reap(Some(dir)) => assert_eq!(dir, "/tmp/remnem-7"),
        other => panic!("{other:?}"),
    }
    assert!(matches!(command(&args(&["__reap"])), Command::Reap(None)));
    assert!(matches!(command(&args(&["__reap", "a", "-x"])), Command::Reap(Some(_))));
    // Elsewhere than in front it is a directory like any other.
    match command(&args(&["-l", "__reap"])) {
        Command::Run(opts) => assert_eq!(opts.root.as_deref(), Some("__reap")),
        other => panic!("{other:?}"),
    }
}
