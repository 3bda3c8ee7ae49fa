//! Summaries of calls: what they tell of each directory.

use vstd::prelude::*;

use crate::api::{
    bytes_at, cleaned_view, cleans_nothing, failed_count, package_texts, root_resolved,
    summary_view, sums_up, switch, tells_layout, CleanResult, CleanedDir, Disposed,
};
use crate::cli::texts_view;
use crate::finder::FoundView;
use crate::path::{path_text, paths_view, DirPath, PathView};
use crate::report::bytes_sum;
use crate::workspace::{kind_text, WorkspaceKind};

verus! {

/// A switch is what it is set to, and its default where it is left out.
pub proof fn switches_have_defaults(on: bool, default: bool)
    ensures
        switch(Some(on), default) == on,
        switch(None, default) == default,
{
}

/// A root is accepted exactly if it is a directory; otherwise the error names it.
pub proof fn only_directories_are_roots(
    resolved: Result<DirPath, String>,
    root: DirPath,
    is_dir: bool,
    separator: u8,
)
    requires
        root_resolved(resolved, root, is_dir, separator),
    ensures
        resolved is Ok <==> is_dir,
        is_dir ==> resolved->Ok_0@ == root@,
        !is_dir ==> resolved->Err_0@ == "root is not a directory: "@ + path_text(
            root@,
            separator,
        ),
{
}

/// The packages are told one by one, in their order; none where there is no list.
pub proof fn every_package_is_told(dirs: Vec<DirPath>, separator: u8)
    ensures
        package_texts(None, separator).len() == 0,
        package_texts(Some(dirs), separator).len() == dirs@.len(),
        forall|i: int|
            0 <= i < dirs@.len() ==> #[trigger] package_texts(Some(dirs), separator)[i]
                == path_text(dirs@[i]@, separator),
{
    assert forall|i: int| 0 <= i < dirs@.len() implies #[trigger] package_texts(
        Some(dirs),
        separator,
    )[i] == path_text(dirs@[i]@, separator) by {
        assert(paths_view(dirs@)[i] == dirs@[i]@);
    }
}

/// A summary tells the root, the kind and each package, in order.
pub proof fn summaries_tell_the_layout(
    result: CleanResult,
    root: PathView,
    kind: WorkspaceKind,
    dirs: Vec<DirPath>,
    separator: u8,
)
    requires
        tells_layout(result, root, kind, Some(dirs), separator),
    ensures
        result.root@ == path_text(root, separator),
        result.workspace_kind@ == kind_text(kind),
        result.workspace_packages@.len() == dirs@.len(),
        forall|i: int|
            0 <= i < dirs@.len() ==> (#[trigger] result.workspace_packages@[i])@ == path_text(
                dirs@[i]@,
                separator,
            ),
{
    every_package_is_told(dirs, separator);
    let texts = texts_view(result.workspace_packages@);
    assert(texts.len() == result.workspace_packages@.len());
    assert forall|i: int| 0 <= i < dirs@.len() implies (
    #[trigger] result.workspace_packages@[i])@ == path_text(dirs@[i]@, separator) by {
        assert(texts[i] == result.workspace_packages@[i]@);
        assert(package_texts(Some(dirs), separator)[i] == path_text(dirs@[i]@, separator));
    }
}

/// A summary of a call that looked for nothing has no directories and no counts.
pub proof fn nothing_looked_for_is_nothing_told(result: CleanResult)
    requires
        cleans_nothing(result),
    ensures
        result.cleaned@.len() == 0,
        result.total_bytes == 0,
        result.count == 0,
        result.failed == 0,
{
}

/// A list of directories in a summary has every one with all that is told of it, in its place.
pub proof fn lists_keep_every_directory(cleaned: Seq<CleanedDir>)
    ensures
        cleaned_view(cleaned).len() == cleaned.len(),
        forall|i: int|
            0 <= i < cleaned.len() ==> {
                let c = #[trigger] cleaned_view(cleaned)[i];
                &&& c.path == cleaned[i].path@
                &&& c.bytes == cleaned[i].bytes
                &&& c.deleted == cleaned[i].deleted
                &&& c.trashed == cleaned[i].trashed
                &&& c.error is Some <==> cleaned[i].error is Some
                &&& c.error is Some ==> c.error->0 == cleaned[i].error->0@
            },
{
}

/// The summary of a dry run tells, of each directory that was found and in their order, the path, the
/// bytes and that it would be disposed of; the count is their number, the total the sum of their
/// bytes, and nothing failed.
pub proof fn dry_runs_tell_what_would_be_deleted(
    result: CleanResult,
    found: Seq<FoundView>,
    separator: u8,
)
    requires
        sums_up(result, found, None, separator),
    ensures
        result.cleaned@.len() == found.len(),
        forall|i: int|
            0 <= i < found.len() ==> {
                let c = #[trigger] result.cleaned@[i];
                &&& c.path@ == path_text(found[i].path, separator)
                &&& c.bytes == found[i].bytes
                &&& c.deleted
                &&& !c.trashed
                &&& c.error is None
            },
        result.total_bytes == bytes_sum(found),
        found.len() <= u32::MAX ==> result.count == found.len(),
        result.failed == 0,
{
    crate::api::dry_run_reports_everything_and_fails_nothing(found, separator);
    let view = cleaned_view(result.cleaned@);
    lists_keep_every_directory(result.cleaned@);
    assert forall|i: int| 0 <= i < found.len() implies {
        let c = #[trigger] result.cleaned@[i];
        &&& c.path@ == path_text(found[i].path, separator)
        &&& c.bytes == found[i].bytes
        &&& c.deleted
        &&& !c.trashed
        &&& c.error is None
    } by {
        assert(view[i] == summary_view(found, None, separator)[i]);
    }
}

/// The summary of a deletion tells, of each directory that was disposed of and in the order in which
/// that was reported, its own path, its bytes, whether it was disposed of, whether it is in the trash
/// and its own error; the count is the number of directories that were found, the total the sum of
/// their bytes, and the failures are the directories with an error.
pub proof fn deletions_tell_what_became_of_each(
    result: CleanResult,
    found: Seq<FoundView>,
    disposed: Seq<Disposed>,
    separator: u8,
)
    requires
        sums_up(result, found, Some(disposed), separator),
    ensures
        result.cleaned@.len() == disposed.len(),
        forall|i: int|
            0 <= i < disposed.len() ==> {
                let c = #[trigger] result.cleaned@[i];
                let d = disposed[i];
                &&& c.path@ == path_text(d.result.path@, separator)
                &&& c.bytes == bytes_at(found, d.result.path@)
                &&& c.deleted <==> d.result.error is None
                &&& c.trashed == d.trashed
                &&& c.error is Some <==> d.result.error is Some
                &&& c.error is Some ==> c.error->0@ == d.result.error->0@
            },
        result.total_bytes == bytes_sum(found),
        found.len() <= u32::MAX ==> result.count == found.len(),
        disposed.len() <= u32::MAX ==> result.failed == failed_count(
            cleaned_view(result.cleaned@),
        ),
{
    let view = cleaned_view(result.cleaned@);
    lists_keep_every_directory(result.cleaned@);
    assert forall|i: int| 0 <= i < disposed.len() implies {
        let c = #[trigger] result.cleaned@[i];
        let d = disposed[i];
        &&& c.path@ == path_text(d.result.path@, separator)
        &&& c.bytes == bytes_at(found, d.result.path@)
        &&& c.deleted <==> d.result.error is None
        &&& c.trashed == d.trashed
        &&& c.error is Some <==> d.result.error is Some
        &&& c.error is Some ==> c.error->0@ == d.result.error->0@
    } by {
        assert(view[i] == summary_view(found, Some(disposed), separator)[i]);
    }
    failed_are_no_more_than_all(view);
}

proof fn failed_are_no_more_than_all(cleaned: Seq<crate::api::CleanedView>)
    ensures
        failed_count(cleaned) <= cleaned.len(),
    decreases cleaned.len(),
{
    if cleaned.len() > 0 {
        failed_are_no_more_than_all(cleaned.drop_last());
    }
}

} // verus!
