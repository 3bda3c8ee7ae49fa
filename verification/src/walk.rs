//! Walking a directory tree, one listing at a time.
//!
//! The walk itself reads directories and hands work to other threads; what it does with each
//! listing is decided here.

use vstd::prelude::*;
use vstd::utf8::encode_utf8;

use crate::path::{paths_view, DirPath, PathView};
use crate::text::same_bytes;

verus! {

/// What a directory entry is. The type of an entry may be impossible to tell.
#[derive(Debug, Clone, Copy, PartialEq, Eq, Structural)]
pub enum EntryKind {
    Directory,
    File,
    Other,
    Unknown,
}

/// One entry of a directory listing. `len` is the length of a file, where it was asked for and
/// could be read.
#[derive(Debug)]
pub struct Entry {
    pub name: Vec<u8>,
    pub kind: EntryKind,
    pub len: Option<u64>,
}

/// A directory entry as a mathematical value.
pub struct EntryView {
    pub name: Seq<u8>,
    pub kind: EntryKind,
    pub len: Option<u64>,
}

impl View for Entry {
    type V = EntryView;

    open spec fn view(&self) -> EntryView {
        EntryView { name: self.name@, kind: self.kind, len: self.len }
    }
}

/// The entries of a listing; a directory that cannot be read has none.
pub open spec fn listing_view(listing: Option<Vec<Entry>>) -> Seq<EntryView> {
    match listing {
        Some(entries) => entries@.map_values(|e: Entry| e@),
        None => Seq::empty(),
    }
}

/// The name of the directories that are looked for.
pub open spec fn node_modules() -> Seq<u8> {
    encode_utf8("node_modules"@)
}

/// The name of the directories that are passed over.
pub open spec fn git() -> Seq<u8> {
    encode_utf8(".git"@)
}

impl EntryView {
    /// Whether the entry is a `node_modules` directory.
    pub open spec fn is_doomed(self) -> bool {
        self.kind is Directory && self.name == node_modules()
    }

    /// Whether the walk goes on below the entry: into directories, but neither into
    /// `node_modules` nor into `.git`.
    pub open spec fn is_descended(self) -> bool {
        self.kind is Directory && self.name != node_modules() && self.name != git()
    }

    /// The bytes that the entry itself counts for: the length of a regular file.
    pub open spec fn counted(self) -> nat {
        match self.len {
            Some(len) => if self.kind is File {
                len as nat
            } else {
                0
            },
            None => 0,
        }
    }
}

/// The paths of the entries in `dir` that satisfy `keep`, in the order of the listing.
pub open spec fn kept_paths(
    dir: PathView,
    entries: Seq<EntryView>,
    keep: spec_fn(EntryView) -> bool,
) -> Seq<PathView>
    decreases entries.len(),
{
    if entries.len() == 0 {
        Seq::empty()
    } else {
        let before = kept_paths(dir, entries.drop_last(), keep);
        if keep(entries.last()) {
            before.push(dir.child(entries.last().name))
        } else {
            before
        }
    }
}

/// The `node_modules` directories that are entries of `dir`.
pub open spec fn found_here(dir: PathView, entries: Seq<EntryView>) -> Seq<PathView> {
    kept_paths(dir, entries, |e: EntryView| e.is_doomed())
}

/// The directories below `dir` that the walk goes on with.
pub open spec fn walked_next(dir: PathView, entries: Seq<EntryView>) -> Seq<PathView> {
    kept_paths(dir, entries, |e: EntryView| e.is_descended())
}

/// All directories that are entries of `dir`.
pub open spec fn sized_next(dir: PathView, entries: Seq<EntryView>) -> Seq<PathView> {
    kept_paths(dir, entries, |e: EntryView| e.kind is Directory)
}

/// The bytes in the regular files that are entries of a listing.
pub open spec fn bytes_here(entries: Seq<EntryView>) -> nat
    decreases entries.len(),
{
    if entries.len() == 0 {
        0
    } else {
        bytes_here(entries.drop_last()) + entries.last().counted()
    }
}

/// What is left of a sum in 64 bits.
pub open spec fn wrapped(sum: nat) -> nat {
    sum % 0x1_0000_0000_0000_0000
}

/// The next directories of a walk. The last one stays with the thread that read the listing; the
/// others can be handed to other threads.
#[derive(Debug)]
pub struct Fan {
    pub spawned: Vec<DirPath>,
    pub kept: Option<DirPath>,
}

impl Fan {
    /// All the next directories, in the order of the listing.
    pub open spec fn all(self) -> Seq<PathView> {
        match self.kept {
            Some(path) => paths_view(self.spawned@).push(path@),
            None => paths_view(self.spawned@),
        }
    }

    /// Whether a directory stays with the thread wherever there is one.
    pub open spec fn keeps_one(self) -> bool {
        self.kept is None ==> self.spawned@.len() == 0
    }
}

/// Deals out the next directories.
fn fan_out(dirs: Vec<DirPath>) -> (fan: Fan)
    ensures
        fan.all() == paths_view(dirs@),
        fan.keeps_one(),
{
    let mut spawned = dirs;
    let kept = spawned.pop();
    let fan = Fan { spawned, kept };
    assert(fan.all() =~= paths_view(dirs@));
    fan
}

/// What one directory gives to the walk for `node_modules`.
#[derive(Debug)]
pub struct WalkStep {
    pub found: Vec<DirPath>,
    pub next: Fan,
}

/// Sorts the entries of `dir` into `node_modules` directories, which are found and not entered,
/// and directories to go on with. Files, `.git` and entries of unknown type are passed over. A
/// directory that cannot be read contributes nothing.
pub fn walk_dir(dir: &DirPath, listing: Option<Vec<Entry>>) -> (step: WalkStep)
    ensures
        paths_view(step.found@) == found_here(dir@, listing_view(listing)),
        step.next.all() == walked_next(dir@, listing_view(listing)),
        step.next.keeps_one(),
{
    let mut found: Vec<DirPath> = Vec::new();
    let mut subdirs: Vec<DirPath> = Vec::new();
    let ghost all = listing_view(listing);
    assert(paths_view(found@) =~= Seq::empty());
    assert(paths_view(subdirs@) =~= Seq::empty());
    if let Some(entries) = &listing {
        let mut i: usize = 0;
        assert(all.take(0) =~= Seq::empty());
        while i < entries.len()
            invariant
                i <= entries@.len(),
                all == listing_view(Some(*entries)),
                paths_view(found@) == found_here(dir@, all.take(i as int)),
                paths_view(subdirs@) == walked_next(dir@, all.take(i as int)),
            decreases entries@.len() - i,
        {
            let entry = &entries[i];
            let ghost found_before = found@;
            let ghost subdirs_before = subdirs@;
            proof {
                assert(all.take(i + 1).drop_last() =~= all.take(i as int));
                assert(all.take(i + 1).last() == entry@);
            }
            if entry.kind == EntryKind::Directory {
                if same_bytes(entry.name.as_slice(), "node_modules".as_bytes()) {
                    found.push(dir.join(&entry.name));
                    assert(paths_view(found@) =~= paths_view(found_before).push(
                        dir@.child(entry@.name),
                    ));
                } else if !same_bytes(entry.name.as_slice(), ".git".as_bytes()) {
                    subdirs.push(dir.join(&entry.name));
                    assert(paths_view(subdirs@) =~= paths_view(subdirs_before).push(
                        dir@.child(entry@.name),
                    ));
                }
            }
            i += 1;
        }
        assert(all.take(entries@.len() as int) =~= all);
    }
    WalkStep { found, next: fan_out(subdirs) }
}

/// What one directory gives to the measuring of a tree.
#[derive(Debug)]
pub struct SizeStep {
    pub bytes: u64,
    pub next: Fan,
}

/// Adds up the regular files of `dir` and picks out the directories to go on with. A file whose
/// length could not be read counts nothing, and so does a directory that cannot be read. Sums are
/// taken modulo two to the power of 64.
pub fn size_dir(dir: &DirPath, listing: Option<Vec<Entry>>) -> (step: SizeStep)
    ensures
        step.bytes == wrapped(bytes_here(listing_view(listing))),
        step.next.all() == sized_next(dir@, listing_view(listing)),
        step.next.keeps_one(),
{
    let mut bytes: u64 = 0;
    let mut subdirs: Vec<DirPath> = Vec::new();
    let ghost all = listing_view(listing);
    assert(paths_view(subdirs@) =~= Seq::empty());
    if let Some(entries) = &listing {
        let mut i: usize = 0;
        assert(all.take(0) =~= Seq::empty());
        while i < entries.len()
            invariant
                i <= entries@.len(),
                all == listing_view(Some(*entries)),
                bytes == wrapped(bytes_here(all.take(i as int))),
                paths_view(subdirs@) == sized_next(dir@, all.take(i as int)),
            decreases entries@.len() - i,
        {
            let entry = &entries[i];
            let ghost subdirs_before = subdirs@;
            proof {
                assert(all.take(i + 1).drop_last() =~= all.take(i as int));
                assert(all.take(i + 1).last() == entry@);
            }
            if entry.kind == EntryKind::Directory {
                subdirs.push(dir.join(&entry.name));
                assert(paths_view(subdirs@) =~= paths_view(subdirs_before).push(
                    dir@.child(entry@.name),
                ));
            } else if entry.kind == EntryKind::File {
                if let Some(len) = entry.len {
                    bytes = bytes.wrapping_add(len);
                }
            }
            i += 1;
        }
        assert(all.take(entries@.len() as int) =~= all);
    }
    SizeStep { bytes, next: fan_out(subdirs) }
}

} // verus!
