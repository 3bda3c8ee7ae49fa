use remnem::api::{
    clean, collect_packages, deleted_dirs, no_current_dir, plan_clean, resolve_root, resolve_workspace, root_given,
    CleanOptions, CleanedDir, Disposed, Fate,
};
use remnem::disposal::{DeleteResult, Mode, Removal};
use remnem::finder::FoundNodeModules;
use remnem::path::DirPath;
use remnem::trash::{plan_trash, trashed};
use remnem::workspace::WorkspaceKind;

fn path(text: &str) -> DirPath {
    let names = text.split('/').filter(|n| !n.is_empty()).map(|n| n.as_bytes().to_vec()).collect();
    DirPath { anchor: b"/".to_vec(), names }
}

fn options(dry_run: Option<bool>, measure: Option<bool>, trash: Option<bool>) -> Option<CleanOptions> {
    Some(CleanOptions { root: Some("r".to_string()), dry_run, measure, trash })
}

fn found() -> Vec<FoundNodeModules> {
    vec![
        FoundNodeModules { path: path("/r/a/node_modules"), bytes: 5 },
        FoundNodeModules { path: path("/r/node_modules"), bytes: 37 },
    ]
}

fn disposed(text: &str, error: Option<&str>, trashed: bool) -> Disposed {
    let result = DeleteResult { path: path(text), error: error.map(|e| e.to_string()) };
    Disposed { result, trashed }
}

fn row(dir: &CleanedDir) -> (&str, u64, bool, bool, Option<&str>) {
    (&dir.path, dir.bytes, dir.deleted, dir.trashed, dir.error.as_deref())
}

#[test]
fn what_is_left_out_has_its_default() {
    let plan = plan_clean(None);
    assert_eq!(plan.root, None);
    assert!(plan.measure);
    assert_eq!(plan.fate, Fate::Deleted(Mode::RemoveSync));
    let plan = plan_clean(options(None, None, None));
    assert_eq!(plan.root.as_deref(), Some("r"));
    assert!(plan.measure);
    assert_eq!(plan.fate, Fate::Deleted(Mode::RemoveSync));
}

#[test]
fn options_decide_what_becomes_of_the_directories() {
    assert_eq!(plan_clean(options(Some(true), None, None)).fate, Fate::Kept);
    assert_eq!(plan_clean(options(Some(true), None, Some(true))).fate, Fate::Kept);
    assert_eq!(plan_clean(options(Some(false), None, Some(true))).fate, Fate::Trashed);
    assert_eq!(plan_clean(options(None, None, Some(false))).fate, Fate::Deleted(Mode::RemoveSync));
    assert!(!plan_clean(options(None, Some(false), None)).measure);
}

#[test]
fn an_empty_root_is_none() {
    assert_eq!(root_given(None), None);
    assert_eq!(root_given(Some(String::new())), None);
    assert_eq!(root_given(Some("r".to_string())).as_deref(), Some("r"));
}

#[test]
fn a_root_is_a_directory() {
    assert_eq!(resolve_root(path("/r"), true, b'/').unwrap().display(b'/'), "/r");
    assert_eq!(
        resolve_root(path("/r/f"), false, b'/').unwrap_err(),
        "root is not a directory: /r/f"
    );
    assert_eq!(no_current_dir("gone"), "cannot read current directory: gone");
}

#[test]
fn packages_are_named() {
    assert_eq!(collect_packages(Some(vec![path("/r/a"), path("/r/b")]), b'/'), ["/r/a", "/r/b"]);
    assert!(collect_packages(None, b'/').is_empty());
}

#[test]
fn a_layout_is_summed_up_without_looking_for_anything() {
    let result =
        resolve_workspace(&path("/r"), WorkspaceKind::PackageJson, Some(vec![path("/r/a")]), b'/');
    assert_eq!(result.root, "/r");
    assert_eq!(result.workspace_kind, "package.json");
    assert_eq!(result.workspace_packages, ["/r/a"]);
    assert!(result.cleaned.is_empty());
    assert_eq!((result.total_bytes, result.count, result.failed), (0, 0, 0));
}

#[test]
fn a_dry_run_names_everything_that_would_be_deleted() {
    let result = clean(&path("/r"), WorkspaceKind::Pnpm, None, &found(), None, b'/');
    let rows: Vec<_> = result.cleaned.iter().map(row).collect();
    assert_eq!(
        rows,
        [
            ("/r/a/node_modules", 5, true, false, None),
            ("/r/node_modules", 37, true, false, None),
        ]
    );
    assert_eq!(result.root, "/r");
    assert_eq!(result.workspace_kind, "pnpm");
    assert!(result.workspace_packages.is_empty());
    assert_eq!((result.total_bytes, result.count, result.failed), (42, 2, 0));
}

#[test]
fn a_deletion_is_reported_with_the_bytes_of_each_directory() {
    let outcomes = vec![
        disposed("/r/node_modules", Some("busy"), false),
        disposed("/r/a/node_modules", None, true),
        disposed("/elsewhere", None, false),
    ];
    let kind = WorkspaceKind::NoWorkspace;
    let result = clean(&path("/r"), kind, Some(vec![]), &found(), Some(outcomes), b'/');
    let rows: Vec<_> = result.cleaned.iter().map(row).collect();
    assert_eq!(
        rows,
        [
            ("/r/node_modules", 37, false, false, Some("busy")),
            ("/r/a/node_modules", 5, true, true, None),
            ("/elsewhere", 0, true, false, None),
        ]
    );
    assert_eq!(result.workspace_kind, "none");
    assert_eq!((result.total_bytes, result.count, result.failed), (42, 2, 1));
}

#[test]
fn each_directory_has_a_place_of_its_own_in_the_trash() {
    let moves = plan_trash(vec![path("/r/a"), path("/r/b"), path("/r/c")], &path("/t"), 99);
    let shown: Vec<(String, String)> =
        moves.iter().map(|m| (m.from.display(b'/'), m.to.display(b'/'))).collect();
    assert_eq!(
        shown,
        [
            ("/r/a".to_string(), "/t/node_modules-99-0".to_string()),
            ("/r/b".to_string(), "/t/node_modules-99-1".to_string()),
            ("/r/c".to_string(), "/t/node_modules-99-2".to_string()),
        ]
    );
    let outcomes = vec![Removal::Removed, Removal::NotFound, Removal::Failed("busy".to_string())];
    let disposed = trashed(moves, &outcomes);
    let rows: Vec<_> = disposed
        .iter()
        .map(|d| (d.result.path.display(b'/'), d.result.error.as_deref(), d.trashed))
        .collect();
    assert_eq!(
        rows,
        [
            ("/r/a".to_string(), None, true),
            ("/r/b".to_string(), None, false),
            ("/r/c".to_string(), Some("busy"), false),
        ]
    );
}

#[test]
fn deleted_directories_are_not_in_the_trash() {
    let results = vec![
        DeleteResult { path: path("/a"), error: None },
        DeleteResult { path: path("/b"), error: Some("busy".to_string()) },
    ];
    let disposed = deleted_dirs(results);
    let rows: Vec<_> = disposed
        .iter()
        .map(|d| (d.result.path.display(b'/'), d.result.error.as_deref(), d.trashed))
        .collect();
    assert_eq!(rows, [("/a".to_string(), None, false), ("/b".to_string(), Some("busy"), false)]);
}

#[test]
fn dry_runs_with_and_without_sizes_agree_otherwise() {
    let kind = WorkspaceKind::Pnpm;
    let unmeasured: Vec<FoundNodeModules> =
        found().into_iter().map(|f| FoundNodeModules { path: f.path, bytes: 0 }).collect();
    let a = clean(&path("/r"), kind, Some(vec![path("/r/a")]), &unmeasured, None, b'/');
    let b = clean(&path("/r"), kind, Some(vec![path("/r/a")]), &found(), None, b'/');
    assert_eq!((&a.root, &a.workspace_kind), (&b.root, &b.workspace_kind));
    assert_eq!(a.workspace_packages, b.workspace_packages);
    assert_eq!((a.count, a.failed, a.total_bytes), (b.count, b.failed, 0));
    assert_eq!(b.total_bytes, 42);
    for (x, y) in a.cleaned.iter().zip(&b.cleaned) {
        assert_eq!(row(x), (y.path.as_str(), 0, y.deleted, y.trashed, y.error.as_deref()));
    }
}

#[test]
fn both_calls_tell_one_layout() {
    let kind = WorkspaceKind::PackageJson;
    let layout = resolve_workspace(&path("/r"), kind, Some(vec![path("/r/a")]), b'/');
    let dry = clean(&path("/r"), kind, Some(vec![path("/r/a")]), &found(), None, b'/');
    assert_eq!((layout.root, layout.workspace_kind), (dry.root, dry.workspace_kind));
    assert_eq!(layout.workspace_packages, dry.workspace_packages);
}
