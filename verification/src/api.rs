//! The library interface: one call that finds, deletes and returns a summary.

use vstd::prelude::*;

use crate::cli::texts_view;
use crate::disposal::{message_view, DeleteResult, Mode, ResultView};
use crate::finder::{
    all_different, found_paths, found_view, measuring_changes_only_the_bytes, reports_walk,
    FoundNodeModules, FoundView,
};
use crate::path::{path_text, paths_view, DirPath, PathView};
use crate::report::{bytes_sum, total_bytes};
use crate::tree::Tree;
use crate::workspace::{kind_text, workspace_kind_str, WorkspaceKind};

verus! {

/// Options of [`clean`]. Each may be left out.
#[derive(Debug)]
pub struct CleanOptions {
    /// Project root; the current directory by default.
    pub root: Option<String>,
    /// Only find, do not delete; off by default.
    pub dry_run: Option<bool>,
    /// Measure each directory before it is deleted; on by default.
    pub measure: Option<bool>,
    /// When on, each directory is moved to the trash: a rename on one volume, which takes no time
    /// and can be undone; the space comes back when the trash is emptied. When off, as it is by
    /// default, the directories are removed for good where they are, in parallel, which frees the
    /// space at once.
    pub trash: Option<bool>,
}

/// One directory that was deleted or would be.
#[derive(Debug)]
pub struct CleanedDir {
    pub path: String,
    /// Bytes the directory held; 0 where they were not measured.
    pub bytes: u64,
    /// Whether it was, or would be, disposed of.
    pub deleted: bool,
    /// Whether it was moved to the trash.
    pub trashed: bool,
    /// Why it could not be disposed of.
    pub error: Option<String>,
}

/// The summary of a call.
#[derive(Debug)]
pub struct CleanResult {
    /// The project root.
    pub root: String,
    /// Which manifest describes the workspace: `none`, `package.json` or `pnpm`.
    pub workspace_kind: String,
    /// The directories of the workspace packages.
    pub workspace_packages: Vec<String>,
    /// Every directory that was found.
    pub cleaned: Vec<CleanedDir>,
    /// Bytes in all of them.
    pub total_bytes: u64,
    /// How many were found.
    pub count: u32,
    /// How many could not be disposed of.
    pub failed: u32,
}

/// One directory of a summary as a mathematical value.
pub struct CleanedView {
    pub path: Seq<char>,
    pub bytes: u64,
    pub deleted: bool,
    pub trashed: bool,
    pub error: Option<Seq<char>>,
}

impl View for CleanedDir {
    type V = CleanedView;

    open spec fn view(&self) -> CleanedView {
        CleanedView {
            path: self.path@,
            bytes: self.bytes,
            deleted: self.deleted,
            trashed: self.trashed,
            error: message_view(self.error),
        }
    }
}

/// The values of the directories of a summary.
pub open spec fn cleaned_view(cleaned: Seq<CleanedDir>) -> Seq<CleanedView> {
    cleaned.map_values(|c: CleanedDir| c@)
}

/// What becomes of the directories that are found.
#[derive(Debug, Clone, Copy, PartialEq, Eq, Structural)]
pub enum Fate {
    /// They stay where they are.
    Kept,
    /// They are moved to the trash.
    Trashed,
    /// They are deleted.
    Deleted(Mode),
}

/// The options with what they are by default.
#[derive(Debug)]
pub struct CleanPlan {
    pub root: Option<String>,
    pub measure: bool,
    pub fate: Fate,
}

/// The value of a switch that may be left out.
pub open spec fn switch(value: Option<bool>, default: bool) -> bool {
    match value {
        Some(on) => on,
        None => default,
    }
}

/// Fills in what is left out of the options.
pub fn plan_clean(options: Option<CleanOptions>) -> (plan: CleanPlan)
    ensures
        match options {
            None => plan.root is None && plan.measure && plan.fate == Fate::Deleted(
                Mode::RemoveSync,
            ),
            Some(given) => {
                &&& plan.root == given.root
                &&& plan.measure == switch(given.measure, true)
                &&& plan.fate == if switch(given.dry_run, false) {
                    Fate::Kept
                } else if switch(given.trash, false) {
                    Fate::Trashed
                } else {
                    Fate::Deleted(Mode::RemoveSync)
                }
            },
        },
{
    let given = match options {
        Some(given) => given,
        None => CleanOptions { root: None, dry_run: None, measure: None, trash: None },
    };
    let measure = given.measure.unwrap_or(true);
    let fate = if given.dry_run.unwrap_or(false) {
        Fate::Kept
    } else if given.trash.unwrap_or(false) {
        Fate::Trashed
    } else {
        Fate::Deleted(Mode::RemoveSync)
    };
    CleanPlan { root: given.root, measure, fate }
}

/// The root that was asked for; none, for the current directory, where it is absent or empty.
pub fn root_given(root: Option<String>) -> (given: Option<String>)
    ensures
        match root {
            Some(text) => given == if text@.len() == 0 {
                None
            } else {
                Some(text)
            },
            None => given is None,
        },
{
    match root {
        Some(text) => {
            if text.as_str().is_empty() {
                None
            } else {
                Some(text)
            }
        },
        None => None,
    }
}

/// What comes of a root: one that is a directory is accepted, anything else is an error.
pub open spec fn root_resolved(
    resolved: Result<DirPath, String>,
    root: DirPath,
    is_dir: bool,
    separator: u8,
) -> bool {
    if is_dir {
        resolved == Ok::<DirPath, String>(root)
    } else {
        resolved matches Err(message) && message@ == "root is not a directory: "@ + path_text(
            root@,
            separator,
        )
    }
}

/// Accepts a root that is a directory; anything else is an error.
pub fn resolve_root(root: DirPath, is_dir: bool, separator: u8) -> (resolved: Result<
    DirPath,
    String,
>)
    ensures
        root_resolved(resolved, root, is_dir, separator),
{
    if is_dir {
        return Ok(root);
    }
    let mut message = "root is not a directory: ".to_owned();
    message.append(root.display(separator).as_str());
    Err(message)
}

/// What is said where the current directory cannot be told.
pub fn no_current_dir(reason: &str) -> (message: String)
    ensures
        message@ == "cannot read current directory: "@ + reason@,
{
    let mut message = "cannot read current directory: ".to_owned();
    message.append(reason);
    message
}

/// The texts of the package directories; none where the patterns of the workspace were not
/// understood.
pub open spec fn package_texts(dirs: Option<Vec<DirPath>>, separator: u8) -> Seq<Seq<char>> {
    match dirs {
        Some(list) => paths_view(list@).map_values(|p: PathView| path_text(p, separator)),
        None => Seq::empty(),
    }
}

/// The texts of the package directories; none where the patterns of the workspace were not
/// understood.
pub fn collect_packages(dirs: Option<Vec<DirPath>>, separator: u8) -> (packages: Vec<String>)
    ensures
        texts_view(packages@) == package_texts(dirs, separator),
{
    let mut packages: Vec<String> = Vec::new();
    match dirs {
        None => {},
        Some(list) => {
            let ghost all = paths_view(list@).map_values(|p: PathView| path_text(p, separator));
            let mut i: usize = 0;
            while i < list.len()
                invariant
                    all == paths_view(list@).map_values(|p: PathView| path_text(p, separator)),
                    i <= list@.len(),
                    texts_view(packages@) == all.take(i as int),
                decreases list@.len() - i,
            {
                let ghost before = packages@;
                packages.push(list[i].display(separator));
                proof {
                    assert(all.take(i + 1) =~= all.take(i as int).push(all[i as int]));
                    assert(texts_view(packages@) =~= texts_view(before).push(all[i as int]));
                }
                i += 1;
            }
            assert(all.take(list@.len() as int) =~= all);
        },
    }
    assert(dirs is None ==> texts_view(packages@) =~= Seq::empty());
    packages
}

/// Whether a summary tells the root and the layout of its workspace.
pub open spec fn tells_layout(
    result: CleanResult,
    root: PathView,
    kind: WorkspaceKind,
    dirs: Option<Vec<DirPath>>,
    separator: u8,
) -> bool {
    &&& result.root@ == path_text(root, separator)
    &&& result.workspace_kind@ == kind_text(kind)
    &&& texts_view(result.workspace_packages@) == package_texts(dirs, separator)
}

/// Whether a summary is of a call that looked for nothing.
pub open spec fn cleans_nothing(result: CleanResult) -> bool {
    &&& result.cleaned@.len() == 0
    &&& result.total_bytes == 0
    &&& result.count == 0
    &&& result.failed == 0
}

/// The summary of a workspace layout: nothing is looked for and nothing is deleted.
pub fn resolve_workspace(
    root: &DirPath,
    kind: WorkspaceKind,
    dirs: Option<Vec<DirPath>>,
    separator: u8,
) -> (result: CleanResult)
    ensures
        tells_layout(result, root@, kind, dirs, separator),
        cleans_nothing(result),
{
    CleanResult {
        root: root.display(separator),
        workspace_kind: workspace_kind_str(kind).to_owned(),
        workspace_packages: collect_packages(dirs, separator),
        cleaned: Vec::new(),
        total_bytes: 0,
        count: 0,
        failed: 0,
    }
}

/// What became of one directory, and whether it is in the trash.
#[derive(Debug)]
pub struct Disposed {
    pub result: DeleteResult,
    pub trashed: bool,
}

/// What became of directories that were deleted: none of them is in the trash.
pub fn deleted_dirs(results: Vec<DeleteResult>) -> (disposed: Vec<Disposed>)
    ensures
        disposed@.len() == results@.len(),
        forall|i: int|
            0 <= i < disposed@.len() ==> (#[trigger] disposed@[i]).result == results@[i]
                && !disposed@[i].trashed,
{
    let mut disposed: Vec<Disposed> = Vec::new();
    for result in taken: results.into_iter()
        invariant
            taken.seq() == results@,
            disposed@.len() == taken.index(),
            forall|i: int|
                0 <= i < disposed@.len() ==> (#[trigger] disposed@[i]).result == results@[i]
                    && !disposed@[i].trashed,
    {
        disposed.push(Disposed { result, trashed: false });
    }
    disposed
}

/// The bytes of the directory `path` among those that were found: the last entry counts, and a
/// directory that was not found counts none.
pub open spec fn bytes_at(found: Seq<FoundView>, path: PathView) -> u64
    decreases found.len(),
{
    if found.len() == 0 {
        0
    } else if found.last().path == path {
        found.last().bytes
    } else {
        bytes_at(found.drop_last(), path)
    }
}

/// A directory that was found and left where it is: it would be disposed of.
pub open spec fn kept_view(found: FoundView, separator: u8) -> CleanedView {
    CleanedView {
        path: path_text(found.path, separator),
        bytes: found.bytes,
        deleted: true,
        trashed: false,
        error: None,
    }
}

/// A directory that was found and disposed of.
pub open spec fn disposed_view(
    found: Seq<FoundView>,
    result: ResultView,
    trashed: bool,
    separator: u8,
) -> CleanedView {
    CleanedView {
        path: path_text(result.path, separator),
        bytes: bytes_at(found, result.path),
        deleted: result.error is None,
        trashed,
        error: result.error,
    }
}

/// The directories of a summary: those that were found, where nothing was disposed of, and
/// otherwise those that were disposed of, in the order in which that was reported.
pub open spec fn summary_view(
    found: Seq<FoundView>,
    disposed: Option<Seq<Disposed>>,
    separator: u8,
) -> Seq<CleanedView> {
    match disposed {
        None => found.map_values(|f: FoundView| kept_view(f, separator)),
        Some(list) => list.map_values(
            |d: Disposed| disposed_view(found, d.result@, d.trashed, separator),
        ),
    }
}

/// The directories of a summary that could not be disposed of.
pub open spec fn failed_count(cleaned: Seq<CleanedView>) -> nat
    decreases cleaned.len(),
{
    if cleaned.len() == 0 {
        0
    } else {
        failed_count(cleaned.drop_last()) + if cleaned.last().error is Some {
            1nat
        } else {
            0nat
        }
    }
}

fn bytes_of(found: &Vec<FoundNodeModules>, path: &DirPath) -> (bytes: u64)
    ensures
        bytes == bytes_at(found_view(found@), path@),
{
    let ghost all = found_view(found@);
    let mut i: usize = found.len();
    assert(all.take(i as int) =~= all);
    while i > 0
        invariant
            all == found_view(found@),
            i <= found@.len(),
            bytes_at(all, path@) == bytes_at(all.take(i as int), path@),
        decreases i,
    {
        i -= 1;
        assert(all.take(i + 1).drop_last() =~= all.take(i as int));
        assert(all.take(i + 1).last() == all[i as int]);
        if found[i].path.same_as(path) {
            return found[i].bytes;
        }
    }
    0
}

fn kept_dirs(found: &Vec<FoundNodeModules>, separator: u8) -> (cleaned: Vec<CleanedDir>)
    ensures
        cleaned_view(cleaned@) == summary_view(found_view(found@), None, separator),
{
    let ghost all = summary_view(found_view(found@), None, separator);
    let mut cleaned: Vec<CleanedDir> = Vec::new();
    let mut i: usize = 0;
    while i < found.len()
        invariant
            all == summary_view(found_view(found@), None, separator),
            i <= found@.len(),
            cleaned_view(cleaned@) == all.take(i as int),
        decreases found@.len() - i,
    {
        let ghost before = cleaned@;
        cleaned.push(
            CleanedDir {
                path: found[i].path.display(separator),
                bytes: found[i].bytes,
                deleted: true,
                trashed: false,
                error: None,
            },
        );
        proof {
            assert(all.take(i + 1) =~= all.take(i as int).push(all[i as int]));
            assert(cleaned_view(cleaned@) =~= cleaned_view(before).push(all[i as int]));
        }
        i += 1;
    }
    assert(all.take(found@.len() as int) =~= all);
    cleaned
}

fn disposed_dirs(found: &Vec<FoundNodeModules>, disposed: Vec<Disposed>, separator: u8) -> (cleaned:
    Vec<CleanedDir>)
    ensures
        cleaned_view(cleaned@) == summary_view(found_view(found@), Some(disposed@), separator),
{
    let ghost all = summary_view(found_view(found@), Some(disposed@), separator);
    let mut cleaned: Vec<CleanedDir> = Vec::new();
    for one in taken: disposed.into_iter()
        invariant
            taken.seq() == disposed@,
            all == summary_view(found_view(found@), Some(disposed@), separator),
            cleaned_view(cleaned@) == all.take(taken.index() as int),
    {
        let ghost i = taken.index() as int;
        let ghost before = cleaned@;
        let bytes: u64 = bytes_of(found, &one.result.path);
        let path = one.result.path.display(separator);
        let deleted = one.result.error.is_none();
        cleaned.push(
            CleanedDir { path, bytes, deleted, trashed: one.trashed, error: one.result.error },
        );
        proof {
            assert(all.take(i + 1) =~= all.take(i).push(all[i]));
            assert(cleaned_view(cleaned@) =~= cleaned_view(before).push(all[i]));
        }
    }
    assert(all.take(disposed@.len() as int) =~= all);
    cleaned
}

fn count_failed(cleaned: &Vec<CleanedDir>) -> (failed: usize)
    ensures
        failed == failed_count(cleaned_view(cleaned@)),
{
    let ghost all = cleaned_view(cleaned@);
    let mut failed: usize = 0;
    let mut i: usize = 0;
    while i < cleaned.len()
        invariant
            all == cleaned_view(cleaned@),
            failed <= i <= cleaned@.len(),
            failed == failed_count(all.take(i as int)),
        decreases cleaned@.len() - i,
    {
        proof {
            assert(all.take(i + 1).drop_last() =~= all.take(i as int));
            assert(all.take(i + 1).last() == all[i as int]);
        }
        if cleaned[i].error.is_some() {
            failed += 1;
        }
        i += 1;
    }
    assert(all.take(cleaned@.len() as int) =~= all);
    failed
}

/// What 32 bits keep of a count.
pub open spec fn in_32_bits(n: nat) -> nat {
    n % 0x1_0000_0000
}

fn low_32_bits(n: usize) -> (low: u32)
    ensures
        low == in_32_bits(n as nat),
{
    (n as u64 % 0x1_0000_0000) as u32
}

/// Whether a summary tells what was found and what became of it.
pub open spec fn sums_up(
    result: CleanResult,
    found: Seq<FoundView>,
    disposed: Option<Seq<Disposed>>,
    separator: u8,
) -> bool {
    &&& cleaned_view(result.cleaned@) == summary_view(found, disposed, separator)
    &&& result.total_bytes == bytes_sum(found)
    &&& result.count == in_32_bits(found.len())
    &&& result.failed == in_32_bits(failed_count(cleaned_view(result.cleaned@)))
}

/// Sums up a call: what was found below `root` and, unless everything was left where it is, what
/// became of it.
pub fn clean(
    root: &DirPath,
    kind: WorkspaceKind,
    dirs: Option<Vec<DirPath>>,
    found: &Vec<FoundNodeModules>,
    disposed: Option<Vec<Disposed>>,
    separator: u8,
) -> (result: CleanResult)
    requires
        bytes_sum(found_view(found@)) <= u64::MAX,
    ensures
        tells_layout(result, root@, kind, dirs, separator),
        sums_up(
            result,
            found_view(found@),
            match disposed {
                Some(list) => Some(list@),
                None => None,
            },
            separator,
        ),
{
    let sum: u64 = match total_bytes(found) {
        Some(sum) => sum,
        None => 0,
    };
    let cleaned = match disposed {
        None => kept_dirs(found, separator),
        Some(list) => disposed_dirs(found, list, separator),
    };
    let failed: u32 = low_32_bits(count_failed(&cleaned));
    CleanResult {
        root: root.display(separator),
        workspace_kind: workspace_kind_str(kind).to_owned(),
        workspace_packages: collect_packages(dirs, separator),
        cleaned,
        total_bytes: sum,
        count: low_32_bits(found.len()),
        failed,
    }
}

/// Where no directory was found twice, each one that was found is summed up with its own bytes.
pub proof fn every_directory_has_its_bytes(found: Seq<FoundView>, i: int)
    requires
        all_different(found),
        0 <= i < found.len(),
    ensures
        bytes_at(found, found[i].path) == found[i].bytes,
    decreases found.len(),
{
    if i < found.len() - 1 {
        let before = found.drop_last();
        assert forall|j: int, k: int| 0 <= j < k < before.len() implies #[trigger] before[j].path
            != #[trigger] before[k].path by {
            assert(found[j].path != found[k].path);
        }
        every_directory_has_its_bytes(before, i);
        assert(before[i] == found[i]);
        assert(found[i].path != found[found.len() - 1].path);
    }
}

/// A summary without disposal names every directory that was found, in order and with its bytes,
/// as one that would be disposed of, and none as failed or in the trash.
pub proof fn dry_run_reports_everything_and_fails_nothing(found: Seq<FoundView>, separator: u8)
    ensures
        summary_view(found, None, separator).len() == found.len(),
        failed_count(summary_view(found, None, separator)) == 0,
        forall|i: int|
            0 <= i < found.len() ==> {
                &&& (#[trigger] summary_view(found, None, separator)[i]).deleted
                &&& !summary_view(found, None, separator)[i].trashed
                &&& summary_view(found, None, separator)[i].path == path_text(
                    found[i].path,
                    separator,
                )
                &&& summary_view(found, None, separator)[i].bytes == found[i].bytes
            },
    decreases found.len(),
{
    let all = summary_view(found, None, separator);
    if found.len() > 0 {
        dry_run_reports_everything_and_fails_nothing(found.drop_last(), separator);
        assert(all.drop_last() =~= summary_view(found.drop_last(), None, separator));
    }
}

proof fn without_bytes_the_sum_is_nothing(found: Seq<FoundView>)
    requires
        forall|i: int| 0 <= i < found.len() ==> (#[trigger] found[i]).bytes == 0,
    ensures
        bytes_sum(found) == 0,
    decreases found.len(),
{
    if found.len() > 0 {
        let before = found.drop_last();
        assert forall|i: int| 0 <= i < before.len() implies (#[trigger] before[i]).bytes == 0 by {
            assert(found[i].bytes == 0);
        }
        without_bytes_the_sum_is_nothing(before);
        assert(found[found.len() - 1].bytes == 0);
    }
}

/// Two dry runs over one tree, of which one measures and the other does not, agree in everything
/// but the bytes: the one that does not measure counts none, and the other counts for each
/// directory what `sizes` gives for it.
pub proof fn dry_runs_differ_in_the_bytes_only(
    root: PathView,
    tree: Tree,
    kind: WorkspaceKind,
    dirs: Option<Vec<DirPath>>,
    separator: u8,
    order: Seq<int>,
    found: Seq<FoundView>,
    result: CleanResult,
    other_order: Seq<int>,
    sizes: spec_fn(PathView) -> u64,
    other_found: Seq<FoundView>,
    measured: CleanResult,
)
    requires
        reports_walk(found, root, tree, order, |path: PathView| 0u64),
        reports_walk(other_found, root, tree, other_order, sizes),
        tells_layout(result, root, kind, dirs, separator),
        tells_layout(measured, root, kind, dirs, separator),
        sums_up(result, found, None, separator),
        sums_up(measured, other_found, None, separator),
    ensures
        result.root@ == measured.root@,
        result.workspace_kind@ == measured.workspace_kind@,
        texts_view(result.workspace_packages@) == texts_view(measured.workspace_packages@),
        result.count == measured.count,
        result.failed == measured.failed,
        result.cleaned@.len() == measured.cleaned@.len(),
        result.total_bytes == 0,
        measured.total_bytes == bytes_sum(other_found),
        forall|i: int|
            0 <= i < result.cleaned@.len() ==> {
                let a = (#[trigger] result.cleaned@[i])@;
                let b = measured.cleaned@[i]@;
                &&& a.bytes == 0
                &&& b.bytes == sizes(other_found[i].path)
                &&& b.path == path_text(other_found[i].path, separator)
                &&& a == (CleanedView { bytes: 0, ..b })
            },
{
    measuring_changes_only_the_bytes(
        root,
        tree,
        order,
        |path: PathView| 0u64,
        found,
        other_order,
        sizes,
        other_found,
    );
    without_bytes_the_sum_is_nothing(found);
    dry_run_reports_everything_and_fails_nothing(found, separator);
    dry_run_reports_everything_and_fails_nothing(other_found, separator);
    assert(found_paths(found).len() == found_paths(other_found).len());
    assert forall|i: int| 0 <= i < result.cleaned@.len() implies {
        let a = (#[trigger] result.cleaned@[i])@;
        let b = measured.cleaned@[i]@;
        &&& a.bytes == 0
        &&& b.bytes == sizes(other_found[i].path)
        &&& b.path == path_text(other_found[i].path, separator)
        &&& a == (CleanedView { bytes: 0, ..b })
    } by {
        assert(cleaned_view(result.cleaned@)[i] == kept_view(found[i], separator));
        assert(cleaned_view(measured.cleaned@)[i] == kept_view(other_found[i], separator));
        assert(found_paths(found)[i] == found_paths(other_found)[i]);
    }
}

/// A call that only resolves the workspace and a dry run, with the same root and the same layout,
/// agree: one accepts the root exactly if the other does, and both tell the same root, the same
/// kind, which is one of three, and the same packages. The first finds and deletes nothing.
pub proof fn both_calls_tell_the_same_layout(
    given: DirPath,
    is_dir: bool,
    resolved: Result<DirPath, String>,
    other_resolved: Result<DirPath, String>,
    kind: WorkspaceKind,
    dirs: Option<Vec<DirPath>>,
    separator: u8,
    found: Seq<FoundView>,
    layout: CleanResult,
    cleaned: CleanResult,
)
    requires
        root_resolved(resolved, given, is_dir, separator),
        root_resolved(other_resolved, given, is_dir, separator),
        resolved matches Ok(root) ==> tells_layout(layout, root@, kind, dirs, separator)
            && cleans_nothing(layout),
        other_resolved matches Ok(root) ==> tells_layout(cleaned, root@, kind, dirs, separator)
            && sums_up(cleaned, found, None, separator),
    ensures
        resolved is Ok <==> other_resolved is Ok,
        resolved is Ok ==> {
            &&& layout.root@ == cleaned.root@
            &&& layout.workspace_kind@ == cleaned.workspace_kind@
            &&& layout.workspace_kind@ == "none"@ || layout.workspace_kind@ == "package.json"@
                || layout.workspace_kind@ == "pnpm"@
            &&& texts_view(layout.workspace_packages@) == texts_view(cleaned.workspace_packages@)
            &&& cleans_nothing(layout)
        },
{
}

} // verus!
