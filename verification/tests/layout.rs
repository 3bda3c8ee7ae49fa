use remnem::workspace::{
    is_package, manifest_patterns, package_json_patterns, pnpm_patterns, resolve,
    workspace_kind_str, Manifest, Workspace, WorkspaceKind, WorkspaceMatcher,
};

fn matcher(patterns: &[&str]) -> WorkspaceMatcher {
    WorkspaceMatcher::build(&Workspace {
        kind: WorkspaceKind::Pnpm,
        patterns: patterns.iter().map(|p| p.to_string()).collect(),
    })
}

fn holds(matcher: &WorkspaceMatcher, path: &str) -> bool {
    let names = path.split('/').filter(|n| !n.is_empty()).map(|n| n.to_string()).collect();
    matcher.is_workspace_dir(&names)
}

#[test]
fn kinds_have_names() {
    assert_eq!(workspace_kind_str(WorkspaceKind::NoWorkspace), "none");
    assert_eq!(workspace_kind_str(WorkspaceKind::PackageJson), "package.json");
    assert_eq!(workspace_kind_str(WorkspaceKind::Pnpm), "pnpm");
}

#[test]
fn one_star_is_one_name() {
    let m = matcher(&["packages/*"]);
    assert!(holds(&m, "packages/a"));
    assert!(!holds(&m, "packages/a/b"));
    assert!(!holds(&m, "packages"));
    assert!(!holds(&m, "libs/a"));
    assert!(!holds(&m, ""));
}

#[test]
fn two_stars_are_any_number_of_names() {
    let m = matcher(&["components/**"]);
    assert!(holds(&m, "components"));
    assert!(holds(&m, "components/a"));
    assert!(holds(&m, "components/a/b/c"));
    assert!(!holds(&m, "component"));
    assert!(!holds(&m, "src/components"));
    let m = matcher(&["apps/**/web"]);
    assert!(holds(&m, "apps/web"));
    assert!(holds(&m, "apps/a/b/web"));
    assert!(!holds(&m, "apps/a/b"));
}

#[test]
fn an_exclamation_mark_takes_out_again() {
    let m = matcher(&["packages/*", "!packages/excluded"]);
    assert!(holds(&m, "packages/a"));
    assert!(!holds(&m, "packages/excluded"));
    let m = matcher(&["packages/**", "!**/test/**"]);
    assert!(holds(&m, "packages/a/src"));
    assert!(!holds(&m, "packages/a/test"));
    assert!(!holds(&m, "packages/a/test/deep/down"));
    assert!(!holds(&m, "test"));
    assert!(holds(&m, "packages/tests"));
}

#[test]
fn the_last_pattern_that_fits_decides() {
    let m = matcher(&["!packages/a", "packages/*"]);
    assert!(holds(&m, "packages/a"));
    let m = matcher(&["packages/*", "!packages/*", "packages/b"]);
    assert!(!holds(&m, "packages/a"));
    assert!(holds(&m, "packages/b"));
    assert!(!holds(&matcher(&["!packages/a"]), "packages/b"));
    assert!(!holds(&matcher(&[]), "packages/b"));
}

#[test]
fn stars_stand_for_parts_of_names() {
    let m = matcher(&["libs/lib-*", "x*y*z"]);
    assert!(holds(&m, "libs/lib-"));
    assert!(holds(&m, "libs/lib-core"));
    assert!(!holds(&m, "libs/core"));
    assert!(holds(&m, "xyz"));
    assert!(holds(&m, "x-yy-z"));
    assert!(!holds(&m, "x-z"));
}

#[test]
fn slashes_at_the_ends_do_not_count() {
    let m = matcher(&["/packages/*/"]);
    assert!(holds(&m, "packages/a"));
    assert!(!holds(&m, "packages"));
    assert!(holds(&matcher(&["libs"]), "libs"));
}

#[test]
fn a_pnpm_manifest_comes_first() {
    let list = |p: &str| Some(vec![p.to_string()]);
    let both = resolve(list("a"), list("b"));
    assert_eq!((both.kind, both.patterns[0].as_str()), (WorkspaceKind::Pnpm, "a"));
    let one = resolve(None, list("b"));
    assert_eq!((one.kind, one.patterns[0].as_str()), (WorkspaceKind::PackageJson, "b"));
    let none = resolve(None, None);
    assert_eq!(none.kind, WorkspaceKind::NoWorkspace);
    assert!(none.patterns.is_empty());
    assert_eq!(resolve(Some(vec![]), list("b")).kind, WorkspaceKind::Pnpm);
}

#[test]
fn braces_are_choices() {
    let m = matcher(&["packages/{a,b}", "{libs,tools/{x,y,z}}/*"]);
    assert!(holds(&m, "packages/a"));
    assert!(holds(&m, "packages/b"));
    assert!(!holds(&m, "packages/c"));
    assert!(!holds(&m, "packages/{a,b}"));
    assert!(holds(&m, "libs/one"));
    assert!(holds(&m, "tools/x/one"));
    assert!(holds(&m, "tools/y/one"));
    assert!(holds(&m, "tools/z/one"));
    assert!(!holds(&m, "tools/one"));
    let m = matcher(&["a{,-core}", "!{a-core,b}"]);
    assert!(holds(&m, "a"));
    assert!(!holds(&m, "a-core"));
}

#[test]
fn braces_without_a_choice_are_themselves() {
    let m = matcher(&["{a}", "{b,c", "d}"]);
    assert!(holds(&m, "{a}"));
    assert!(!holds(&m, "a"));
    assert!(holds(&m, "{b,c"));
    assert!(holds(&m, "d}"));
}

#[test]
fn a_question_mark_is_one_character() {
    let m = matcher(&["lib?", "?x"]);
    assert!(holds(&m, "lib1"));
    assert!(!holds(&m, "lib"));
    assert!(!holds(&m, "lib12"));
    assert!(holds(&m, "yx"));
    assert!(!holds(&m, ".x"));
}

#[test]
fn brackets_are_one_character_of_a_set() {
    let m = matcher(&["lib[abx-z]", "v[^0-9]", "[]a]", "open[", "[.]dot"]);
    for yes in ["liba", "libb", "libx", "liby", "libz", "vx", "]", "a", "open[", ".dot"] {
        assert!(holds(&m, yes), "{yes}");
    }
    for no in ["libc", "lib", "libw", "lib[", "v5", "v", "b", "open"] {
        assert!(!holds(&m, no), "{no}");
    }
}

#[test]
fn stars_do_not_stand_for_a_dot_in_front() {
    let m = matcher(&["packages/*", "components/**", "x/.*"]);
    assert!(!holds(&m, "packages/.hidden"));
    assert!(holds(&m, "packages/a.b"));
    assert!(!holds(&m, "components/.cache"));
    assert!(!holds(&m, "components/.cache/a"));
    assert!(!holds(&m, "components/a/.b/c"));
    assert!(holds(&m, "components/a/b"));
    assert!(holds(&m, "x/.hidden"));
    let m = matcher(&["**/.config/**"]);
    assert!(holds(&m, "a/.config/b"));
    assert!(!holds(&m, ".a/.config/b"));
}

#[test]
fn a_dot_and_a_slash_in_front_do_not_count() {
    let m = matcher(&["./packages/*", "!./packages/b"]);
    assert!(holds(&m, "packages/a"));
    assert!(!holds(&m, "packages/b"));
}

#[test]
fn workspaces_are_a_list_or_hold_one() {
    let list = |p: &str| Some(vec![p.to_string()]);
    assert_eq!(package_json_patterns(list("a"), list("b")), list("a"));
    assert_eq!(package_json_patterns(None, list("b")), list("b"));
    assert_eq!(package_json_patterns(None, None), None);
}

#[test]
fn a_package_matches_and_holds_a_manifest() {
    let m = matcher(&["packages/*"]);
    let names = |path: &str| path.split('/').map(|n| n.to_string()).collect::<Vec<_>>();
    assert!(is_package(&m, &names("packages/a"), true));
    assert!(!is_package(&m, &names("packages/a"), false));
    assert!(!is_package(&m, &names("libs/a"), true));
}

fn list(items: &[&str]) -> Manifest {
    let mut values: Vec<Manifest> =
        items.iter().map(|text| Manifest::Text(text.to_string())).collect();
    values.push(Manifest::Other);
    Manifest::List(values)
}

fn object(members: Vec<(&str, Manifest)>) -> Manifest {
    Manifest::Object(members.into_iter().map(|(key, value)| (key.to_string(), value)).collect())
}

#[test]
fn patterns_are_read_from_package_json() {
    let patterns = |items: &[&str]| Some(items.iter().map(|p| p.to_string()).collect::<Vec<_>>());
    let name = || ("name", Manifest::Text("x".to_string()));
    let flat = object(vec![name(), ("workspaces", list(&["packages/*", "!packages/excluded"]))]);
    assert_eq!(manifest_patterns(&flat), patterns(&["packages/*", "!packages/excluded"]));
    let nested = object(vec![("workspaces", object(vec![("packages", list(&["libs/*"]))])), name()]);
    assert_eq!(manifest_patterns(&nested), patterns(&["libs/*"]));
    assert_eq!(manifest_patterns(&object(vec![name()])), None);
    assert_eq!(manifest_patterns(&object(vec![("workspaces", object(vec![name()]))])), None);
    assert_eq!(manifest_patterns(&object(vec![("workspaces", Manifest::Other)])), None);
    assert_eq!(manifest_patterns(&object(vec![("packages", list(&["a"]))])), None);
    assert_eq!(manifest_patterns(&list(&["a"])), None);
}

#[test]
fn patterns_are_read_from_a_pnpm_manifest() {
    let manifest = object(vec![("packages", list(&["packages/*", "!**/test/**"]))]);
    assert_eq!(
        pnpm_patterns(&manifest),
        Some(vec!["packages/*".to_string(), "!**/test/**".to_string()])
    );
    assert_eq!(pnpm_patterns(&object(vec![("workspaces", list(&["a"]))])), None);
    assert_eq!(pnpm_patterns(&Manifest::Other), None);
}
