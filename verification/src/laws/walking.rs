//! Listings: what is found, what is entered, and what is counted.

use vstd::prelude::*;
use vstd::utf8::encode_utf8;

use crate::finder::{found_paths, found_view, in_path_order, walked_view, FoundNodeModules};
use crate::order::path_order;
use crate::path::{paths_view, DirPath, PathView};
use crate::walk::{
    bytes_here, found_here, listing_view, sized_next, walked_next, wrapped, Entry, EntryKind,
    EntryView, Fan,
};

verus! {

/// A listing has every entry with its name, its kind and its length; a directory that cannot be
/// read has no entries.
pub proof fn listings_keep_every_entry(entries: Vec<Entry>)
    ensures
        listing_view(None) == Seq::<EntryView>::empty(),
        listing_view(Some(entries)).len() == entries@.len(),
        forall|i: int|
            0 <= i < entries@.len() ==> {
                let e = #[trigger] listing_view(Some(entries))[i];
                &&& e.name == entries@[i].name@
                &&& e.kind == entries@[i].kind
                &&& e.len == entries@[i].len
            },
{
}

/// One more entry in a listing raises the bytes by its length, if it is a regular file whose length
/// could be read, whatever its name; any other entry leaves them. An empty listing has none.
pub proof fn one_more_file_counts_its_length(entries: Seq<EntryView>, entry: EntryView)
    ensures
        bytes_here(Seq::empty()) == 0,
        entry.kind == EntryKind::File && entry.len is Some ==> bytes_here(entries.push(entry))
            == bytes_here(entries) + entry.len->0,
        entry.kind != EntryKind::File || entry.len is None ==> bytes_here(entries.push(entry))
            == bytes_here(entries),
{
    assert(entries.push(entry).drop_last() =~= entries);
}

/// The bytes of two listings together are the bytes of the one and of the other.
pub proof fn bytes_of_listings_add_up(a: Seq<EntryView>, b: Seq<EntryView>)
    ensures
        bytes_here(a + b) == bytes_here(a) + bytes_here(b),
    decreases b.len(),
{
    if b.len() == 0 {
        assert(a + b =~= a);
    } else {
        assert((a + b).drop_last() =~= a + b.drop_last());
        bytes_of_listings_add_up(a, b.drop_last());
    }
}

/// A sum that 64 bits can hold is kept; one round of 64 bits more changes nothing.
pub proof fn sums_wrap_at_64_bits(sum: nat)
    ensures
        sum <= u64::MAX ==> wrapped(sum) == sum,
        wrapped(sum) <= u64::MAX,
        wrapped(sum + 0x1_0000_0000_0000_0000) == wrapped(sum),
{
}

/// The path of an entry is the path of the directory and the name of the entry.
pub open spec fn entry_path(dir: PathView, entry: EntryView) -> PathView {
    PathView { anchor: dir.anchor, names: dir.names.push(entry.name) }
}

/// One more entry in a listing is found exactly if it is a directory named `node_modules`.
pub proof fn one_more_node_modules_is_found(
    dir: PathView,
    entries: Seq<EntryView>,
    entry: EntryView,
)
    ensures
        found_here(dir, Seq::empty()) == Seq::<PathView>::empty(),
        entry.kind == EntryKind::Directory && entry.name == encode_utf8("node_modules"@)
            ==> found_here(dir, entries.push(entry)) == found_here(dir, entries).push(
            entry_path(dir, entry),
        ),
        entry.kind != EntryKind::Directory || entry.name != encode_utf8("node_modules"@)
            ==> found_here(dir, entries.push(entry)) == found_here(dir, entries),
{
    assert(entries.push(entry).drop_last() =~= entries);
}

/// The walk goes on with one more entry exactly if it is a directory named neither `node_modules`
/// nor `.git`.
pub proof fn one_more_directory_is_entered(
    dir: PathView,
    entries: Seq<EntryView>,
    entry: EntryView,
)
    ensures
        walked_next(dir, Seq::empty()) == Seq::<PathView>::empty(),
        entry.kind == EntryKind::Directory && entry.name != encode_utf8("node_modules"@)
            && entry.name != encode_utf8(".git"@) ==> walked_next(dir, entries.push(entry))
            == walked_next(dir, entries).push(entry_path(dir, entry)),
        entry.kind != EntryKind::Directory || entry.name == encode_utf8("node_modules"@)
            || entry.name == encode_utf8(".git"@) ==> walked_next(dir, entries.push(entry))
            == walked_next(dir, entries),
{
    assert(entries.push(entry).drop_last() =~= entries);
}

/// The measuring goes on with one more entry exactly if it is a directory, whatever its name.
pub proof fn one_more_directory_is_measured(
    dir: PathView,
    entries: Seq<EntryView>,
    entry: EntryView,
)
    ensures
        sized_next(dir, Seq::empty()) == Seq::<PathView>::empty(),
        entry.kind == EntryKind::Directory ==> sized_next(dir, entries.push(entry)) == sized_next(
            dir,
            entries,
        ).push(entry_path(dir, entry)),
        entry.kind != EntryKind::Directory ==> sized_next(dir, entries.push(entry)) == sized_next(
            dir,
            entries,
        ),
{
    assert(entries.push(entry).drop_last() =~= entries);
}

/// The next directories are those that are handed on and, after them, the one that is kept; one is
/// kept wherever there is one.
pub proof fn next_directories_are_handed_on_or_kept(fan: Fan)
    ensures
        fan.all().len() == fan.spawned@.len() + if fan.kept is Some {
            1int
        } else {
            0int
        },
        forall|i: int|
            0 <= i < fan.spawned@.len() ==> #[trigger] fan.all()[i] == fan.spawned@[i]@,
        fan.kept is Some ==> fan.all().last() == fan.kept->0@,
        fan.keeps_one() && fan.all().len() > 0 ==> fan.kept is Some,
{
}

/// A list of paths has every path, in its place.
pub proof fn lists_keep_every_path(paths: Seq<DirPath>)
    ensures
        paths_view(paths).len() == paths.len(),
        forall|i: int|
            0 <= i < paths.len() ==> {
                let path = #[trigger] paths_view(paths)[i];
                &&& path.anchor == paths[i].anchor@
                &&& path.names.len() == paths[i].names@.len()
                &&& forall|j: int|
                    0 <= j < path.names.len() ==> #[trigger] path.names[j] == paths[i].names@[j]@
            },
{
}

/// A list of findings has every directory with its path and its bytes, in its place.
pub proof fn lists_keep_every_finding(found: Seq<FoundNodeModules>)
    ensures
        found_view(found).len() == found.len(),
        found_paths(found_view(found)).len() == found.len(),
        forall|i: int|
            0 <= i < found.len() ==> {
                &&& (#[trigger] found_view(found)[i]).path == found[i].path@
                &&& found_view(found)[i].bytes == found[i].bytes
                &&& found_paths(found_view(found))[i] == found[i].path@
            },
{
}

/// A walk comes back with every directory and its size; one that was not measured has no bytes.
pub proof fn walks_keep_every_size(walked: Seq<(DirPath, Option<u64>)>)
    ensures
        walked_view(walked).len() == walked.len(),
        forall|i: int|
            0 <= i < walked.len() ==> {
                &&& (#[trigger] walked_view(walked)[i]).path == walked[i].0@
                &&& walked[i].1 is Some ==> walked_view(walked)[i].bytes == walked[i].1->0
                &&& walked[i].1 is None ==> walked_view(walked)[i].bytes == 0
            },
{
}

/// Whether a finding is of a walked directory and has its size.
pub open spec fn is_finding_of(found: FoundNodeModules, walked: (DirPath, Option<u64>)) -> bool {
    &&& found.path@ == walked.0@
    &&& walked.1 is Some ==> found.bytes == walked.1->0
    &&& walked.1 is None ==> found.bytes == 0
}

/// Whether a walked directory is among the findings.
pub open spec fn is_found(walked: (DirPath, Option<u64>), found: Seq<FoundNodeModules>) -> bool {
    exists|j: int| 0 <= j < found.len() && is_finding_of(#[trigger] found[j], walked)
}

/// Whether a finding is of a directory that was walked.
pub open spec fn was_walked(found: FoundNodeModules, walked: Seq<(DirPath, Option<u64>)>) -> bool {
    exists|i: int| 0 <= i < walked.len() && is_finding_of(found, #[trigger] walked[i])
}

/// What `find` makes of a walk is the same directories, each with its own size, none left out and
/// none made up, and no directory comes before one whose path is earlier.
pub proof fn findings_are_what_was_walked(
    found: Seq<FoundNodeModules>,
    walked: Seq<(DirPath, Option<u64>)>,
)
    requires
        in_path_order(found_view(found)),
        found_view(found).to_multiset() == walked_view(walked).to_multiset(),
    ensures
        found.len() == walked.len(),
        forall|i: int, j: int|
            0 <= i < j < found.len() ==> path_order(
                (#[trigger] found[i]).path@,
                (#[trigger] found[j]).path@,
            ) <= 0,
        forall|i: int| 0 <= i < walked.len() ==> is_found(#[trigger] walked[i], found),
        forall|j: int| 0 <= j < found.len() ==> was_walked(#[trigger] found[j], walked),
{
    broadcast use vstd::seq_lib::group_to_multiset_ensures;

    let a = found_view(found);
    let b = walked_view(walked);
    assert(a.to_multiset().len() == b.to_multiset().len());
    assert forall|i: int, j: int| 0 <= i < j < found.len() implies path_order(
        (#[trigger] found[i]).path@,
        (#[trigger] found[j]).path@,
    ) <= 0 by {
        assert(path_order(a[i].path, a[j].path) <= 0);
    }
    assert forall|i: int| 0 <= i < walked.len() implies is_found(#[trigger] walked[i], found) by {
        assert(b.contains(b[i]));
        assert(a.to_multiset().count(b[i]) > 0);
        assert(a.contains(b[i]));
        let j = a.index_of(b[i]);
        assert(a[j] == b[i]);
        assert(is_finding_of(found[j], walked[i]));
    }
    assert forall|j: int| 0 <= j < found.len() implies was_walked(#[trigger] found[j], walked) by {
        assert(a.contains(a[j]));
        assert(b.to_multiset().count(a[j]) > 0);
        assert(b.contains(a[j]));
        let i = b.index_of(a[j]);
        assert(b[i] == a[j]);
        assert(is_finding_of(found[j], walked[i]));
    }
}

} // verus!
