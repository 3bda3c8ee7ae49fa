//! The workspace layout of a project.

use vstd::prelude::*;

use crate::cli::texts_view;
use crate::glob::{chars_of, parts_view, path_fits, path_matches, pattern_parts, take_apart};
use crate::text::same_text;

verus! {

/// Which manifest describes the workspace.
#[derive(Debug, Clone, Copy, PartialEq, Eq, Structural)]
pub enum WorkspaceKind {
    /// There is none.
    NoWorkspace,
    PackageJson,
    Pnpm,
}

/// The name of a kind in reports.
pub open spec fn kind_text(kind: WorkspaceKind) -> Seq<char> {
    match kind {
        WorkspaceKind::NoWorkspace => "none"@,
        WorkspaceKind::PackageJson => "package.json"@,
        WorkspaceKind::Pnpm => "pnpm"@,
    }
}

/// The name of a kind in reports.
pub fn workspace_kind_str(kind: WorkspaceKind) -> (text: &'static str)
    ensures
        text@ == kind_text(kind),
{
    match kind {
        WorkspaceKind::NoWorkspace => "none",
        WorkspaceKind::PackageJson => "package.json",
        WorkspaceKind::Pnpm => "pnpm",
    }
}

/// The patterns of a workspace, in the order of its manifest.
#[derive(Debug)]
pub struct Workspace {
    pub kind: WorkspaceKind,
    pub patterns: Vec<String>,
}

/// The workspace that the manifests of a project describe: `pnpm` and `package_json` are the
/// patterns that each of them names, where it names any. A pnpm manifest comes before
/// `package.json`, and without either there is no workspace.
pub fn resolve(pnpm: Option<Vec<String>>, package_json: Option<Vec<String>>) -> (workspace:
    Workspace)
    ensures
        match pnpm {
            Some(patterns) => workspace == (Workspace { kind: WorkspaceKind::Pnpm, patterns }),
            None => match package_json {
                Some(patterns) => workspace == (Workspace {
                    kind: WorkspaceKind::PackageJson,
                    patterns,
                }),
                None => workspace.kind == WorkspaceKind::NoWorkspace && workspace.patterns@.len()
                    == 0,
            },
        },
{
    match pnpm {
        Some(patterns) => Workspace { kind: WorkspaceKind::Pnpm, patterns },
        None => match package_json {
            Some(patterns) => Workspace { kind: WorkspaceKind::PackageJson, patterns },
            None => Workspace { kind: WorkspaceKind::NoWorkspace, patterns: Vec::new() },
        },
    }
}

/// The patterns that `package.json` names: `workspaces`, where that is a list, and otherwise
/// `workspaces.packages`.
pub fn package_json_patterns(list: Option<Vec<String>>, nested: Option<Vec<String>>) -> (patterns:
    Option<Vec<String>>)
    ensures
        patterns == if list is Some {
            list
        } else {
            nested
        },
{
    match list {
        Some(patterns) => Some(patterns),
        None => nested,
    }
}

/// What a manifest says, as far as it matters here: texts, lists and objects. Everything else is
/// passed over.
#[derive(Debug)]
pub enum Manifest {
    Text(String),
    List(Vec<Manifest>),
    Object(Vec<(String, Manifest)>),
    Other,
}

/// The value of the last member named `key` among `members`.
pub open spec fn member_of(members: Seq<(String, Manifest)>, key: Seq<char>) -> Option<Manifest>
    decreases members.len(),
{
    if members.len() == 0 {
        None
    } else if members.last().0@ == key {
        Some(members.last().1)
    } else {
        member_of(members.drop_last(), key)
    }
}

/// The value of the member named `key`; none where the manifest is no object.
pub open spec fn member(manifest: Manifest, key: Seq<char>) -> Option<Manifest> {
    match manifest {
        Manifest::Object(members) => member_of(members@, key),
        _ => None,
    }
}

/// The texts in a list, in their order.
pub open spec fn texts_among(items: Seq<Manifest>) -> Seq<Seq<char>>
    decreases items.len(),
{
    if items.len() == 0 {
        Seq::empty()
    } else {
        let before = texts_among(items.drop_last());
        match items.last() {
            Manifest::Text(text) => before.push(text@),
            _ => before,
        }
    }
}

/// The texts in a list; none where the manifest is no list.
pub open spec fn texts_in(manifest: Manifest) -> Option<Seq<Seq<char>>> {
    match manifest {
        Manifest::List(items) => Some(texts_among(items@)),
        _ => None,
    }
}

/// The texts in the list that is the member named `key`.
pub open spec fn member_texts(manifest: Manifest, key: Seq<char>) -> Option<Seq<Seq<char>>> {
    match member(manifest, key) {
        Some(value) => texts_in(value),
        None => None,
    }
}

/// The values of an optional list of texts.
pub open spec fn patterns_view(patterns: Option<Vec<String>>) -> Option<Seq<Seq<char>>> {
    match patterns {
        Some(list) => Some(texts_view(list@)),
        None => None,
    }
}

fn get_member<'a>(manifest: &'a Manifest, key: &str) -> (value: Option<&'a Manifest>)
    ensures
        match value {
            Some(found) => member(*manifest, key@) == Some(*found),
            None => member(*manifest, key@) is None,
        },
{
    match manifest {
        Manifest::Object(members) => {
            let mut i: usize = members.len();
            assert(members@.take(i as int) =~= members@);
            while i > 0
                invariant
                    i <= members@.len(),
                    member(*manifest, key@) == member_of(members@, key@),
                    member_of(members@, key@) == member_of(members@.take(i as int), key@),
                decreases i,
            {
                i -= 1;
                assert(members@.take(i + 1).drop_last() =~= members@.take(i as int));
                assert(members@.take(i + 1).last() == members@[i as int]);
                if same_text(members[i].0.as_str(), key) {
                    return Some(&members[i].1);
                }
            }
            None
        },
        _ => None,
    }
}

fn get_texts(manifest: &Manifest) -> (texts: Option<Vec<String>>)
    ensures
        patterns_view(texts) == texts_in(*manifest),
{
    match manifest {
        Manifest::List(items) => {
            let mut texts: Vec<String> = Vec::new();
            let mut i: usize = 0;
            assert(texts_view(texts@) =~= texts_among(items@.take(0)));
            while i < items.len()
                invariant
                    i <= items@.len(),
                    texts_view(texts@) == texts_among(items@.take(i as int)),
                decreases items@.len() - i,
            {
                let ghost before = texts@;
                proof {
                    assert(items@.take(i + 1).drop_last() =~= items@.take(i as int));
                    assert(items@.take(i + 1).last() == items@[i as int]);
                }
                if let Manifest::Text(text) = &items[i] {
                    texts.push(text.as_str().to_owned());
                    assert(texts_view(texts@) =~= texts_view(before).push(text@));
                }
                i += 1;
            }
            assert(items@.take(items@.len() as int) =~= items@);
            Some(texts)
        },
        _ => None,
    }
}

fn get_member_texts(manifest: &Manifest, key: &str) -> (texts: Option<Vec<String>>)
    ensures
        patterns_view(texts) == member_texts(*manifest, key@),
{
    match get_member(manifest, key) {
        Some(value) => get_texts(value),
        None => None,
    }
}

/// The patterns in `package.json`: those in the list `workspaces` or, where that is no list, in the
/// list `packages` in it.
pub fn manifest_patterns(manifest: &Manifest) -> (patterns: Option<Vec<String>>)
    ensures
        patterns_view(patterns) == match member(*manifest, "workspaces"@) {
            None => None,
            Some(workspaces) => match texts_in(workspaces) {
                Some(texts) => Some(texts),
                None => member_texts(workspaces, "packages"@),
            },
        },
{
    match get_member(manifest, "workspaces") {
        Some(workspaces) => package_json_patterns(
            get_texts(workspaces),
            get_member_texts(workspaces, "packages"),
        ),
        None => None,
    }
}

/// The patterns in `pnpm-workspace.yaml`: those in the list `packages`.
pub fn pnpm_patterns(manifest: &Manifest) -> (patterns: Option<Vec<String>>)
    ensures
        patterns_view(patterns) == member_texts(*manifest, "packages"@),
{
    get_member_texts(manifest, "packages")
}

/// One pattern of a workspace. One that is negated takes directories out again.
#[derive(Debug)]
pub struct Rule {
    pub negated: bool,
    /// The parts of the pattern, once for each choice among its braces.
    pub patterns: Vec<Vec<String>>,
}

/// A pattern as a mathematical value.
pub struct RuleView {
    pub negated: bool,
    pub patterns: Seq<Seq<Seq<char>>>,
}

impl View for Rule {
    type V = RuleView;

    open spec fn view(&self) -> RuleView {
        RuleView { negated: self.negated, patterns: parts_view(self.patterns@) }
    }
}

/// What a pattern means: an exclamation mark in front negates the rest.
pub open spec fn rule_of(pattern: Seq<char>) -> RuleView {
    if pattern.len() > 0 && pattern[0] == '!' {
        RuleView { negated: true, patterns: pattern_parts(pattern.drop_first()) }
    } else {
        RuleView { negated: false, patterns: pattern_parts(pattern) }
    }
}

/// Whether a directory matches a pattern, with one choice or another among its braces.
pub open spec fn rule_matches(rule: RuleView, path: Seq<Seq<char>>) -> bool {
    exists|k: int| 0 <= k < rule.patterns.len() && path_matches(#[trigger] rule.patterns[k], path)
}

/// Whether a directory belongs to the workspace: of the patterns that it matches, the last one
/// decides.
pub open spec fn is_member(rules: Seq<RuleView>, path: Seq<Seq<char>>) -> bool
    decreases rules.len(),
{
    if rules.len() == 0 {
        false
    } else if rule_matches(rules.last(), path) {
        !rules.last().negated
    } else {
        is_member(rules.drop_last(), path)
    }
}

/// The patterns of a workspace, taken apart.
#[derive(Debug)]
pub struct WorkspaceMatcher {
    pub rules: Vec<Rule>,
}

/// The values of a list of patterns.
pub open spec fn rules_view(rules: Seq<Rule>) -> Seq<RuleView> {
    rules.map_values(|r: Rule| r@)
}

impl Rule {
    /// Whether the directory that `path` leads to from the root matches the pattern.
    pub fn matches(&self, path: &Vec<String>) -> (fits: bool)
        ensures
            fits == rule_matches(self@, texts_view(path@)),
    {
        let ghost all = parts_view(self.patterns@);
        let mut k: usize = 0;
        assert(texts_view(path@).skip(0) =~= texts_view(path@));
        while k < self.patterns.len()
            invariant
                all == parts_view(self.patterns@),
                k <= self.patterns@.len(),
                texts_view(path@).skip(0) == texts_view(path@),
                forall|j: int| 0 <= j < k ==> !path_matches(#[trigger] all[j], texts_view(path@)),
            decreases self.patterns@.len() - k,
        {
            assert(all[k as int].skip(0) =~= all[k as int]);
            if path_fits(&self.patterns[k], path, 0, 0) {
                assert(path_matches(self@.patterns[k as int], texts_view(path@)));
                return true;
            }
            k += 1;
        }
        false
    }
}

impl WorkspaceMatcher {
    /// Takes the patterns of a workspace apart.
    pub fn build(workspace: &Workspace) -> (matcher: WorkspaceMatcher)
        ensures
            rules_view(matcher.rules@) == texts_view(workspace.patterns@).map_values(
                |p: Seq<char>| rule_of(p),
            ),
    {
        let ghost all = texts_view(workspace.patterns@).map_values(|p: Seq<char>| rule_of(p));
        let mut rules: Vec<Rule> = Vec::new();
        let mut i: usize = 0;
        while i < workspace.patterns.len()
            invariant
                all == texts_view(workspace.patterns@).map_values(|p: Seq<char>| rule_of(p)),
                i <= workspace.patterns@.len(),
                rules_view(rules@) == all.take(i as int),
            decreases workspace.patterns@.len() - i,
        {
            let ghost before = rules@;
            let pattern = chars_of(workspace.patterns[i].as_str());
            let negated = pattern.len() > 0 && pattern[0] == '!';
            let patterns = if negated {
                assert(pattern@.skip(1) =~= pattern@.drop_first());
                take_apart(&pattern, 1)
            } else {
                assert(pattern@.skip(0) =~= pattern@);
                take_apart(&pattern, 0)
            };
            rules.push(Rule { negated, patterns });
            proof {
                assert(all.take(i + 1) =~= all.take(i as int).push(all[i as int]));
                assert(rules_view(rules@) =~= rules_view(before).push(all[i as int]));
            }
            i += 1;
        }
        assert(all.take(workspace.patterns@.len() as int) =~= all);
        WorkspaceMatcher { rules }
    }

    /// Whether the directory that `path` leads to from the root belongs to the workspace.
    pub fn is_workspace_dir(&self, path: &Vec<String>) -> (member: bool)
        ensures
            member == is_member(rules_view(self.rules@), texts_view(path@)),
    {
        let ghost all = rules_view(self.rules@);
        let mut i: usize = self.rules.len();
        assert(all.take(i as int) =~= all);
        while i > 0
            invariant
                all == rules_view(self.rules@),
                i <= self.rules@.len(),
                is_member(all, texts_view(path@)) == is_member(
                    all.take(i as int),
                    texts_view(path@),
                ),
            decreases i,
        {
            i -= 1;
            assert(all.take(i + 1).drop_last() =~= all.take(i as int));
            assert(all.take(i + 1).last() == all[i as int]);
            if self.rules[i].matches(path) {
                return !self.rules[i].negated;
            }
        }
        false
    }
}

/// Whether the directory that `path` leads to from the root is a package of the workspace: the
/// patterns let it in, and it holds a `package.json`.
pub fn is_package(matcher: &WorkspaceMatcher, path: &Vec<String>, has_manifest: bool) -> (package:
    bool)
    ensures
        package == (has_manifest && is_member(rules_view(matcher.rules@), texts_view(path@))),
{
    has_manifest && matcher.is_workspace_dir(path)
}

/// A negated pattern takes the directories that match it out of those that the patterns before it
/// have let in, and lets none in.
pub proof fn negated_pattern_excludes(
    rules: Seq<RuleView>,
    negated: RuleView,
    path: Seq<Seq<char>>,
)
    requires
        negated.negated,
    ensures
        is_member(rules.push(negated), path) <==> is_member(rules, path) && !rule_matches(negated, path),
{
    assert(rules.push(negated).drop_last() =~= rules);
}

} // verus!
