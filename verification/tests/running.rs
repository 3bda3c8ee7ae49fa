use remnem::cli::{parse_args, Opts, UsageError, HELP};
use remnem::disposal::{DeleteResult, Mode};
use remnem::finder::FoundNodeModules;
use remnem::path::DirPath;
use remnem::run::{
    answered, begin, confirm, delete_mode, deleted, given_up, helped, layout_label, paths_of,
    refused, report_deletion, report_scan, scanned, trim, workspace_resolved, RunStep,
};
use remnem::workspace::WorkspaceKind;

fn path(text: &str) -> DirPath {
    let names = text.split('/').filter(|n| !n.is_empty()).map(|n| n.as_bytes().to_vec()).collect();
    DirPath { anchor: b"/".to_vec(), names }
}

fn opts(list: &[&str]) -> Opts {
    parse_args(&list.iter().map(|a| a.to_string()).collect()).unwrap()
}

fn two() -> Vec<FoundNodeModules> {
    vec![
        FoundNodeModules { path: path("/r/apps/web/node_modules"), bytes: 2048 },
        FoundNodeModules { path: path("/r/node_modules"), bytes: 7 },
    ]
}

fn result(text: &str, error: Option<&str>) -> DeleteResult {
    DeleteResult { path: path(text), error: error.map(|e| e.to_string()) }
}

fn after_scan(list: &[&str], found: &Vec<FoundNodeModules>, terminal: bool) -> RunStep {
    let kind = WorkspaceKind::NoWorkspace;
    scanned(&opts(list), &path("/r"), kind, &vec![], found, b'/', terminal)
}

fn shown(paths: &[DirPath]) -> Vec<String> {
    paths.iter().map(|p| p.display(b'/')).collect()
}

#[test]
fn the_layout_is_found_out_only_where_it_is_wanted() {
    assert!(matches!(begin(&opts(&[])), RunStep::Scan { measure: false }));
    assert!(matches!(begin(&opts(&["-m"])), RunStep::Scan { measure: true }));
    assert!(matches!(begin(&opts(&["-m", "-w"])), RunStep::ResolveWorkspace));
    assert!(matches!(workspace_resolved(&opts(&["-m", "-w"])), RunStep::Scan { measure: true }));
    assert!(matches!(workspace_resolved(&opts(&["-w"])), RunStep::Scan { measure: false }));
}

#[test]
fn layouts_are_described() {
    assert_eq!(layout_label(WorkspaceKind::NoWorkspace, 3), "no workspace config");
    assert_eq!(layout_label(WorkspaceKind::Pnpm, 0), "pnpm workspace (0 packages)");
    assert_eq!(layout_label(WorkspaceKind::Pnpm, 1), "pnpm workspace (1 package)");
    assert_eq!(layout_label(WorkspaceKind::PackageJson, 12), "package.json workspace (12 packages)");
}

#[test]
fn somebody_who_is_there_is_asked() {
    match after_scan(&[], &two(), true) {
        RunStep::Ask { output, question } => {
            assert_eq!(
                output,
                "root: /r\nfound 2 node_modules:\n  apps/web/node_modules\n  node_modules\n"
            );
            assert_eq!(question, "\npermanently delete these 2 directories? [y/N] ");
        }
        other => panic!("{other:?}"),
    }
}

#[test]
fn with_yes_everything_is_deleted_at_once() {
    for (list, terminal) in [(&["-y"] as &[&str], true), (&[], false), (&["-y"], false)] {
        match after_scan(list, &two(), terminal) {
            RunStep::Delete { output, paths, mode } => {
                assert_eq!(output, "");
                assert_eq!(shown(&paths), ["/r/apps/web/node_modules", "/r/node_modules"]);
                assert_eq!(mode, Mode::Remove);
            }
            other => panic!("{other:?}"),
        }
    }
}

#[test]
fn deleting_at_once_does_not_mind_that_there_is_nothing() {
    match after_scan(&["-y"], &vec![], true) {
        RunStep::Delete { output, paths, .. } => {
            assert_eq!(output, "");
            assert!(paths.is_empty());
        }
        other => panic!("{other:?}"),
    }
}

#[test]
fn a_wanted_report_comes_before_the_deletion() {
    match after_scan(&["-y", "--sync"], &two(), true) {
        RunStep::Delete { output, paths, mode } => {
            assert!(output.starts_with("root: /r\nfound 2 node_modules:\n"));
            assert_eq!(paths.len(), 2);
            assert_eq!(mode, Mode::RemoveSync);
        }
        other => panic!("{other:?}"),
    }
    match after_scan(&["-m"], &two(), false) {
        RunStep::Delete { output, mode, .. } => {
            assert_eq!(
                output,
                "root: /r\nfound 2 node_modules totalling 2.0 KB:\n    \
                 2.0 KB  apps/web/node_modules\n       7 B  node_modules\n"
            );
            assert_eq!(mode, Mode::Remove);
        }
        other => panic!("{other:?}"),
    }
}

#[test]
fn a_deletion_in_json_says_nothing_before_and_asks_nobody() {
    match after_scan(&["--json"], &two(), true) {
        RunStep::Delete { output, paths, .. } => {
            assert_eq!(output, "");
            assert_eq!(paths.len(), 2);
        }
        other => panic!("{other:?}"),
    }
    assert!(matches!(after_scan(&["--json"], &vec![], true), RunStep::Delete { .. }));
}

#[test]
fn a_list_deletes_nothing() {
    for (list, terminal) in [(&["-l"] as &[&str], true), (&["-l", "-y"], false), (&["-l", "--sync"], true)] {
        match after_scan(list, &two(), terminal) {
            RunStep::Finish(report) => {
                assert_eq!(
                    report.output,
                    "root: /r\nfound 2 node_modules:\n  apps/web/node_modules\n  node_modules\n\n\
                     (list only — nothing deleted)\n"
                );
                assert_eq!(report.errors, "");
                assert_eq!(report.code, 0);
            }
            other => panic!("{other:?}"),
        }
    }
    match after_scan(&["-l", "--json"], &two(), true) {
        RunStep::Finish(report) => assert!(report.output.starts_with("{\n  \"root\": \"/r\",\n")),
        other => panic!("{other:?}"),
    }
}

#[test]
fn where_nothing_is_found_the_run_ends() {
    match after_scan(&[], &vec![], true) {
        RunStep::Finish(report) => {
            assert_eq!(report.output, "remnem: no node_modules found under /r\n");
            assert_eq!(report.code, 0);
        }
        other => panic!("{other:?}"),
    }
    let text = report_scan(
        &opts(&["-w"]),
        &path("/r"),
        WorkspaceKind::Pnpm,
        &vec![path("/r/a")],
        &vec![],
        b'/',
    );
    assert_eq!(text, "remnem: no node_modules found under /r (pnpm workspace (1 package))\n");
}

#[test]
fn the_layout_stands_below_the_root() {
    let text = report_scan(
        &opts(&["-w"]),
        &path("/r"),
        WorkspaceKind::NoWorkspace,
        &vec![],
        &two(),
        b'/',
    );
    assert_eq!(
        text,
        "root: /r\n      no workspace config\nfound 2 node_modules:\n  apps/web/node_modules\n  node_modules\n"
    );
}

#[test]
fn sizes_stand_in_a_column() {
    let found = vec![FoundNodeModules { path: path("/r/node_modules"), bytes: u64::MAX }];
    let kind = WorkspaceKind::NoWorkspace;
    let text = report_scan(&opts(&["-m"]), &path("/r"), kind, &vec![], &found, b'/');
    assert_eq!(
        text,
        "root: /r\nfound 1 node_modules totalling 16777216 TB:\n  16777216 TB  node_modules\n"
    );
}

#[test]
fn only_a_yes_confirms() {
    for yes in ["y", "Y\n", "yes", "YES\r\n", "  yEs\t", "\u{a0}y\u{2003}"] {
        assert!(confirm(yes.as_bytes()), "{yes:?}");
    }
    for no in ["", "\n", "n", "no", "ye", "yess", "y y", "ý", "ja"] {
        assert!(!confirm(no.as_bytes()), "{no:?}");
    }
    assert!(!confirm(&[0xff, b'y']));
    assert!(!confirm(&[b'y', 0xff]));
}

#[test]
fn white_space_is_removed_at_the_ends() {
    assert_eq!(trim(" \t\n a b \r\u{b}\u{c}"), "a b");
    assert_eq!(trim("\u{3000}ä\u{85}"), "ä");
    assert_eq!(trim(" \n "), "");
    assert_eq!(trim(""), "");
    assert_eq!(trim("\u{200b}x"), "\u{200b}x");
    for code in 0..=0xffffu32 {
        if let Some(c) = char::from_u32(code) {
            let listed = matches!(
                code,
                9..=13 | 0x20 | 0x85 | 0xa0 | 0x1680 | 0x2000..=0x200a | 0x2028 | 0x2029 | 0x202f
                    | 0x205f | 0x3000
            );
            assert_eq!(trim(&c.to_string()).is_empty(), listed, "{code:x}");
        }
    }
}

#[test]
fn without_a_yes_nothing_is_deleted() {
    match answered(&opts(&["--sync"]), &two(), b"y\n") {
        RunStep::Delete { output, paths, mode } => {
            assert_eq!(output, "");
            assert_eq!(shown(&paths), ["/r/apps/web/node_modules", "/r/node_modules"]);
            assert_eq!(mode, Mode::RemoveSync);
        }
        other => panic!("{other:?}"),
    }
    match answered(&opts(&[]), &two(), b"no\n") {
        RunStep::Finish(report) => {
            assert_eq!(report.output, "aborted.\n");
            assert_eq!(report.errors, "");
            assert_eq!(report.code, 1);
        }
        other => panic!("{other:?}"),
    }
}

#[test]
fn the_mode_follows_from_the_options() {
    assert_eq!(delete_mode(&opts(&[])), Mode::Remove);
    assert_eq!(delete_mode(&opts(&["--sync"])), Mode::RemoveSync);
    assert_eq!(shown(&paths_of(&two())), ["/r/apps/web/node_modules", "/r/node_modules"]);
}

#[test]
fn a_deletion_is_summed_up() {
    let results = vec![result("/r/node_modules", None), result("/r/a/node_modules", None)];
    let report = report_deletion(&path("/r"), &opts(&[]), &results, "130", 0, b'/');
    assert_eq!(
        report.output,
        "deleted: 2/2 node_modules in 130ms\n(space is being reclaimed in the background)\n"
    );
    assert_eq!(report.errors, "");
    assert_eq!(report.code, 0);
    let report = report_deletion(&path("/r"), &opts(&["--sync", "-m"]), &results, "9", 1536, b'/');
    assert_eq!(report.output, "deleted: 2/2 node_modules (1.5 KB) in 9ms\n");
}

#[test]
fn failures_are_told_on_the_standard_error() {
    let results = vec![
        result("/r/node_modules", Some("denied")),
        result("/r/a/node_modules", None),
        result("/r/b/node_modules", Some("busy")),
    ];
    let report = report_deletion(&path("/r"), &opts(&[]), &results, "1", 0, b'/');
    assert_eq!(
        report.output,
        "deleted: 1/3 node_modules in 1ms\n(space is being reclaimed in the background)\n"
    );
    assert_eq!(
        report.errors,
        "  failed: node_modules — denied\n  failed: b/node_modules — busy\n"
    );
    assert_eq!(report.code, 1);
    let report = report_deletion(&path("/r"), &opts(&["--json"]), &results, "1", 0, b'/');
    assert!(report.output.contains("\"failed\": 2,\n"));
    assert_eq!(report.errors, "");
    assert_eq!(report.code, 0);
}

#[test]
fn nothing_is_reclaimed_where_nothing_was_deleted() {
    let results = vec![result("/r/node_modules", Some("denied"))];
    let report = report_deletion(&path("/r"), &opts(&[]), &results, "1", 0, b'/');
    assert_eq!(report.output, "deleted: 0/1 node_modules in 1ms\n");
    let report = report_deletion(&path("/r"), &opts(&[]), &vec![], "0", 0, b'/');
    assert_eq!(report.output, "deleted: 0/0 node_modules in 0ms\n");
    assert_eq!(report.code, 0);
}

#[test]
fn a_run_ends_with_the_report_on_the_deletion() {
    let results = vec![result("/r/node_modules", Some("denied"))];
    match deleted(&path("/r"), &opts(&["-m"]), &results, "12", 7, b'/') {
        RunStep::Finish(report) => {
            assert_eq!(report.output, "deleted: 0/1 node_modules (7 B) in 12ms\n");
            assert_eq!(report.errors, "  failed: node_modules — denied\n");
            assert_eq!(report.code, 1);
        }
        other => panic!("{other:?}"),
    }
}

#[test]
fn a_run_without_work_ends_with_its_own_code() {
    let report = refused(&UsageError::ExtraArgument("two".to_string()));
    assert_eq!(report.output, "");
    assert_eq!(report.errors, "remnem: unexpected extra argument two\n");
    assert_eq!(report.code, 2);
    let report = helped();
    assert_eq!((report.output.as_str(), report.errors.as_str(), report.code), (HELP, "", 0));
    let report = given_up("root is not a directory: /x");
    assert_eq!(report.output, "");
    assert_eq!(report.errors, "remnem: root is not a directory: /x\n");
    assert_eq!(report.code, 1);
}

#[test]
fn layout_and_sizes_are_only_reported() {
    let unmeasured: Vec<FoundNodeModules> =
        two().into_iter().map(|f| FoundNodeModules { path: f.path, bytes: 0 }).collect();
    let runs: [(&[&str], Vec<FoundNodeModules>); 4] =
        [(&[], unmeasured), (&["-m"], two()), (&["-w"], two()), (&["-w", "-m"], two())];
    for terminal in [true, false] {
        for (list, found) in &runs {
            let step = match after_scan(list, found, terminal) {
                RunStep::Ask { .. } => answered(&opts(list), found, b"yes\n"),
                other => other,
            };
            match step {
                RunStep::Delete { paths, mode, .. } => {
                    assert_eq!(shown(&paths), ["/r/apps/web/node_modules", "/r/node_modules"]);
                    assert_eq!(mode, Mode::Remove);
                }
                other => panic!("{other:?}"),
            }
        }
    }
}
