//! What a walk over a whole tree comes to, whatever order its directories are visited in.

use vstd::multiset::Multiset;
use vstd::prelude::*;
use vstd::seq_lib::{group_to_multiset_ensures, lemma_multiset_commutative};

use crate::path::PathView;
use crate::walk::{
    bytes_here, found_here, git, kept_paths, node_modules, sized_next, walked_next, wrapped,
    EntryView,
};

verus! {

/// A directory tree at one moment. A directory may be unreadable.
pub enum Tree {
    Unreadable,
    Readable(Seq<Branch>),
}

/// An entry of a directory and, where the entry is a directory, what lies below it.
pub struct Branch {
    pub entry: EntryView,
    pub below: Tree,
}

impl Tree {
    /// The entries of the directory; none where it cannot be read.
    pub open spec fn branches(self) -> Seq<Branch> {
        match self {
            Tree::Unreadable => Seq::empty(),
            Tree::Readable(branches) => branches,
        }
    }

    /// What reading the directory gives.
    pub open spec fn listing(self) -> Seq<EntryView> {
        entries_of(self.branches())
    }
}

/// The entries themselves, without what lies below them.
pub open spec fn entries_of(branches: Seq<Branch>) -> Seq<EntryView> {
    branches.map_values(|b: Branch| b.entry)
}

/// The subtrees below `dir` whose entries satisfy `keep`, with their paths.
pub open spec fn kept_trees(
    dir: PathView,
    branches: Seq<Branch>,
    keep: spec_fn(EntryView) -> bool,
) -> Seq<(PathView, Tree)>
    decreases branches.len(),
{
    if branches.len() == 0 {
        Seq::empty()
    } else {
        let before = kept_trees(dir, branches.drop_last(), keep);
        let last = branches.last();
        if keep(last.entry) {
            before.push((dir.child(last.entry.name), last.below))
        } else {
            before
        }
    }
}

/// The subtrees that the walk for `node_modules` goes on with.
pub open spec fn walked_trees(dir: PathView, branches: Seq<Branch>) -> Seq<(PathView, Tree)> {
    kept_trees(dir, branches, |e: EntryView| e.is_descended())
}

/// The subtrees that the measuring goes on with.
pub open spec fn sized_trees(dir: PathView, branches: Seq<Branch>) -> Seq<(PathView, Tree)> {
    kept_trees(dir, branches, |e: EntryView| e.kind is Directory)
}

/// The directories of a list of subtrees.
pub open spec fn roots(pending: Seq<(PathView, Tree)>) -> Seq<PathView> {
    pending.map_values(|p: (PathView, Tree)| p.0)
}

/// Every `node_modules` directory of the tree that is in no other `node_modules` and in no
/// `.git`.
pub open spec fn doomed(dir: PathView, tree: Tree) -> Multiset<PathView>
    decreases tree,
{
    match tree {
        Tree::Unreadable => Multiset::empty(),
        Tree::Readable(branches) => doomed_in(dir, branches),
    }
}

/// The same for the tree that has `branches` at its top.
pub open spec fn doomed_in(dir: PathView, branches: Seq<Branch>) -> Multiset<PathView>
    decreases branches,
{
    if branches.len() == 0 {
        Multiset::empty()
    } else {
        let before = doomed_in(dir, branches.drop_last());
        let last = branches.last();
        let path = dir.child(last.entry.name);
        if last.entry.is_doomed() {
            before.insert(path)
        } else if last.entry.is_descended() {
            before.add(doomed(path, last.below))
        } else {
            before
        }
    }
}

/// The bytes in all regular files of the tree.
pub open spec fn tree_bytes(tree: Tree) -> nat
    decreases tree,
{
    match tree {
        Tree::Unreadable => 0,
        Tree::Readable(branches) => bytes_in(branches),
    }
}

/// The same for the tree that has `branches` at its top.
pub open spec fn bytes_in(branches: Seq<Branch>) -> nat
    decreases branches,
{
    if branches.len() == 0 {
        0
    } else {
        let last = branches.last();
        bytes_in(branches.drop_last()) + last.entry.counted() + if last.entry.kind is Directory {
            tree_bytes(last.below)
        } else {
            0
        }
    }
}

/// Lists of directories that a walk has still to visit and of those it has found.
pub struct WalkState {
    pub pending: Seq<(PathView, Tree)>,
    pub found: Seq<PathView>,
}

impl WalkState {
    /// A walk that has only the root to visit.
    pub open spec fn start(root: PathView, tree: Tree) -> WalkState {
        WalkState { pending: seq![(root, tree)], found: Seq::empty() }
    }

    /// The walk after a visit to the pending directory number `i`: what is found there is kept,
    /// and the directories to go on with become pending.
    pub open spec fn visit(self, i: int) -> WalkState {
        let (dir, tree) = self.pending[i];
        WalkState {
            pending: self.pending.remove(i) + walked_trees(dir, tree.branches()),
            found: self.found + found_here(dir, tree.listing()),
        }
    }

    /// The walk after visits in the given order.
    pub open spec fn run(self, order: Seq<int>) -> WalkState
        decreases order.len(),
    {
        if order.len() == 0 {
            self
        } else {
            self.run(order.drop_last()).visit(order.last())
        }
    }

    /// Whether every visit in the given order is to a directory that is pending then.
    pub open spec fn admits(self, order: Seq<int>) -> bool
        decreases order.len(),
    {
        order.len() > 0 ==> {
            &&& self.admits(order.drop_last())
            &&& 0 <= order.last() < self.run(order.drop_last()).pending.len()
        }
    }
}

/// A sum of lengths that a measuring has reached, and the directories it has still to visit.
pub struct SizeState {
    pub pending: Seq<(PathView, Tree)>,
    pub bytes: nat,
}

impl SizeState {
    /// A measuring that has only the root to visit.
    pub open spec fn start(root: PathView, tree: Tree) -> SizeState {
        SizeState { pending: seq![(root, tree)], bytes: 0 }
    }

    /// The measuring after a visit to the pending directory number `i`. The sum wraps around.
    pub open spec fn visit(self, i: int) -> SizeState {
        let (dir, tree) = self.pending[i];
        SizeState {
            pending: self.pending.remove(i) + sized_trees(dir, tree.branches()),
            bytes: wrapped(self.bytes + wrapped(bytes_here(tree.listing()))),
        }
    }

    /// The measuring after visits in the given order.
    pub open spec fn run(self, order: Seq<int>) -> SizeState
        decreases order.len(),
    {
        if order.len() == 0 {
            self
        } else {
            self.run(order.drop_last()).visit(order.last())
        }
    }

    /// Whether every visit in the given order is to a directory that is pending then.
    pub open spec fn admits(self, order: Seq<int>) -> bool
        decreases order.len(),
    {
        order.len() > 0 ==> {
            &&& self.admits(order.drop_last())
            &&& 0 <= order.last() < self.run(order.drop_last()).pending.len()
        }
    }
}

/// What the pending directories still have to give.
spec fn doomed_all(pending: Seq<(PathView, Tree)>) -> Multiset<PathView>
    decreases pending.len(),
{
    if pending.len() == 0 {
        Multiset::empty()
    } else {
        doomed_all(pending.drop_last()).add(doomed(pending.last().0, pending.last().1))
    }
}

proof fn doomed_all_of_one(dir: PathView, tree: Tree)
    ensures
        doomed_all(seq![(dir, tree)]) =~= doomed(dir, tree),
{
    let one = seq![(dir, tree)];
    assert(one.drop_last() =~= Seq::empty());
    assert(doomed_all(one.drop_last()) =~= Multiset::empty());
}

proof fn doomed_all_of_two(a: Seq<(PathView, Tree)>, b: Seq<(PathView, Tree)>)
    ensures
        doomed_all(a + b) =~= doomed_all(a).add(doomed_all(b)),
    decreases b.len(),
{
    if b.len() == 0 {
        assert(a + b =~= a);
    } else {
        assert((a + b).drop_last() =~= a + b.drop_last());
        doomed_all_of_two(a, b.drop_last());
    }
}

proof fn doomed_all_without(pending: Seq<(PathView, Tree)>, i: int)
    requires
        0 <= i < pending.len(),
    ensures
        doomed_all(pending) =~= doomed_all(pending.remove(i)).add(
            doomed(pending[i].0, pending[i].1),
        ),
{
    let one = seq![pending[i]];
    let before = pending.take(i);
    let after = pending.skip(i + 1);
    assert(pending =~= before + one + after);
    assert(pending.remove(i) =~= before + after);
    doomed_all_of_two(before + one, after);
    doomed_all_of_two(before, one);
    doomed_all_of_two(before, after);
    doomed_all_of_one(pending[i].0, pending[i].1);
}

proof fn doomed_in_splits(dir: PathView, branches: Seq<Branch>)
    ensures
        doomed_in(dir, branches) =~= found_here(dir, entries_of(branches)).to_multiset().add(
            doomed_all(walked_trees(dir, branches)),
        ),
    decreases branches.len(),
{
    broadcast use group_to_multiset_ensures;

    let entries = entries_of(branches);
    if branches.len() > 0 {
        doomed_in_splits(dir, branches.drop_last());
        assert(entries.drop_last() =~= entries_of(branches.drop_last()));
        assert(entries.last() == branches.last().entry);
        let before = walked_trees(dir, branches.drop_last());
        if branches.last().entry.is_descended() {
            assert(walked_trees(dir, branches).drop_last() =~= before);
        }
    }
}

proof fn walk_loses_nothing(root: PathView, tree: Tree, order: Seq<int>)
    requires
        WalkState::start(root, tree).admits(order),
    ensures
        ({
            let state = WalkState::start(root, tree).run(order);
            state.found.to_multiset().add(doomed_all(state.pending)) =~= doomed(root, tree)
        }),
    decreases order.len(),
{
    broadcast use group_to_multiset_ensures;

    let start = WalkState::start(root, tree);
    if order.len() == 0 {
        doomed_all_of_one(root, tree);
    } else {
        walk_loses_nothing(root, tree, order.drop_last());
        let state = start.run(order.drop_last());
        let i = order.last();
        let (dir, at) = state.pending[i];
        doomed_all_without(state.pending, i);
        doomed_in_splits(dir, at.branches());
        assert(doomed(dir, at) =~= doomed_in(dir, at.branches()));
        doomed_all_of_two(state.pending.remove(i), walked_trees(dir, at.branches()));
        lemma_multiset_commutative(state.found, found_here(dir, at.listing()));
    }
}

/// Whatever order the directories are visited in, a walk that has nothing left to visit has
/// found every `node_modules` of the tree that lies in no other and in no `.git`, and each once.
pub proof fn every_walk_finds_the_same(root: PathView, tree: Tree, order: Seq<int>)
    requires
        WalkState::start(root, tree).admits(order),
        WalkState::start(root, tree).run(order).pending.len() == 0,
    ensures
        WalkState::start(root, tree).run(order).found.to_multiset() == doomed(root, tree),
{
    walk_loses_nothing(root, tree, order);
    assert(WalkState::start(root, tree).run(order).found.to_multiset() =~= doomed(root, tree));
}

/// The bytes that the pending directories still have to give.
spec fn bytes_all(pending: Seq<(PathView, Tree)>) -> nat
    decreases pending.len(),
{
    if pending.len() == 0 {
        0
    } else {
        bytes_all(pending.drop_last()) + tree_bytes(pending.last().1)
    }
}

proof fn bytes_all_of_two(a: Seq<(PathView, Tree)>, b: Seq<(PathView, Tree)>)
    ensures
        bytes_all(a + b) == bytes_all(a) + bytes_all(b),
    decreases b.len(),
{
    if b.len() == 0 {
        assert(a + b =~= a);
    } else {
        assert((a + b).drop_last() =~= a + b.drop_last());
        bytes_all_of_two(a, b.drop_last());
    }
}

proof fn bytes_all_of_one(dir: PathView, tree: Tree)
    ensures
        bytes_all(seq![(dir, tree)]) == tree_bytes(tree),
{
    let one = seq![(dir, tree)];
    assert(one.drop_last() =~= Seq::empty());
    assert(bytes_all(one.drop_last()) == 0);
}

proof fn bytes_all_without(pending: Seq<(PathView, Tree)>, i: int)
    requires
        0 <= i < pending.len(),
    ensures
        bytes_all(pending) == bytes_all(pending.remove(i)) + tree_bytes(pending[i].1),
{
    let one = seq![pending[i]];
    let before = pending.take(i);
    let after = pending.skip(i + 1);
    assert(pending =~= before + one + after);
    assert(pending.remove(i) =~= before + after);
    bytes_all_of_two(before + one, after);
    bytes_all_of_two(before, one);
    bytes_all_of_two(before, after);
    bytes_all_of_one(pending[i].0, pending[i].1);
}

proof fn bytes_in_splits(dir: PathView, branches: Seq<Branch>)
    ensures
        bytes_in(branches) == bytes_here(entries_of(branches)) + bytes_all(
            sized_trees(dir, branches),
        ),
    decreases branches.len(),
{
    let entries = entries_of(branches);
    if branches.len() > 0 {
        bytes_in_splits(dir, branches.drop_last());
        assert(entries.drop_last() =~= entries_of(branches.drop_last()));
        assert(entries.last() == branches.last().entry);
        if branches.last().entry.kind is Directory {
            assert(sized_trees(dir, branches).drop_last() =~= sized_trees(
                dir,
                branches.drop_last(),
            ));
        }
    }
}

proof fn measuring_loses_nothing(root: PathView, tree: Tree, order: Seq<int>)
    requires
        SizeState::start(root, tree).admits(order),
    ensures
        ({
            let state = SizeState::start(root, tree).run(order);
            &&& wrapped(state.bytes + bytes_all(state.pending)) == wrapped(tree_bytes(tree))
            &&& state.bytes == wrapped(state.bytes)
        }),
    decreases order.len(),
{
    let start = SizeState::start(root, tree);
    if order.len() == 0 {
        bytes_all_of_one(root, tree);
    } else {
        measuring_loses_nothing(root, tree, order.drop_last());
        let state = start.run(order.drop_last());
        let i = order.last();
        let (dir, at) = state.pending[i];
        bytes_all_without(state.pending, i);
        bytes_in_splits(dir, at.branches());
        assert(tree_bytes(at) == bytes_in(at.branches()));
        bytes_all_of_two(state.pending.remove(i), sized_trees(dir, at.branches()));
    }
}

/// Whatever order the directories are visited in, a measuring that has nothing left to visit has
/// added up all regular files of the tree, modulo two to the power of 64.
pub proof fn every_measuring_adds_up_the_same(root: PathView, tree: Tree, order: Seq<int>)
    requires
        SizeState::start(root, tree).admits(order),
        SizeState::start(root, tree).run(order).pending.len() == 0,
    ensures
        SizeState::start(root, tree).run(order).bytes == wrapped(tree_bytes(tree)),
{
    measuring_loses_nothing(root, tree, order);
}

proof fn kept_trees_and_paths_agree(
    dir: PathView,
    branches: Seq<Branch>,
    keep: spec_fn(EntryView) -> bool,
)
    ensures
        roots(kept_trees(dir, branches, keep)) == kept_paths(dir, entries_of(branches), keep),
    decreases branches.len(),
{
    let entries = entries_of(branches);
    if branches.len() > 0 {
        kept_trees_and_paths_agree(dir, branches.drop_last(), keep);
        assert(entries.drop_last() =~= entries_of(branches.drop_last()));
        assert(entries.last() == branches.last().entry);
    }
    assert(roots(kept_trees(dir, branches, keep)) =~= kept_paths(dir, entries, keep));
}

/// The subtrees that a walk and a measuring go on with lie in the directories that
/// `walk_dir` and `size_dir` name.
pub proof fn next_directories_are_the_roots_of_the_next_trees(dir: PathView, tree: Tree)
    ensures
        roots(walked_trees(dir, tree.branches())) == walked_next(dir, tree.listing()),
        roots(sized_trees(dir, tree.branches())) == sized_next(dir, tree.listing()),
{
    kept_trees_and_paths_agree(dir, tree.branches(), |e: EntryView| e.is_descended());
    kept_trees_and_paths_agree(dir, tree.branches(), |e: EntryView| e.kind is Directory);
}

/// Whether `names` lead from the top of the tree, through readable directories that are neither
/// `node_modules` nor `.git`, to a `node_modules` directory.
pub open spec fn leads_to_doomed(tree: Tree, names: Seq<Seq<u8>>) -> bool
    decreases names.len(), 1nat,
{
    some_branch_leads(tree.branches(), names)
}

/// Whether one of `branches` is the first step on such a way.
pub open spec fn some_branch_leads(branches: Seq<Branch>, names: Seq<Seq<u8>>) -> bool
    decreases names.len(), 0nat,
{
    exists|i: int|
        0 <= i < branches.len() && #[trigger] branches[i].entry.name == names.first()
            && names.len() > 0 && if names.len() == 1 {
            branches[i].entry.is_doomed()
        } else {
            branches[i].entry.is_descended() && leads_to_doomed(
                branches[i].below,
                names.drop_first(),
            )
        }
}

/// Whether `names` lead from the top of the tree to a directory in it.
pub open spec fn holds_directory(tree: Tree, names: Seq<Seq<u8>>) -> bool
    decreases names.len(),
{
    names.len() > 0 ==> exists|i: int|
        0 <= i < tree.branches().len() && #[trigger] tree.branches()[i].entry.name == names.first()
            && tree.branches()[i].entry.kind is Directory && holds_directory(
            tree.branches()[i].below,
            names.drop_first(),
        )
}

proof fn doomed_in_grows(dir: PathView, branches: Seq<Branch>, i: int)
    requires
        0 <= i < branches.len(),
    ensures
        ({
            let b = branches[i];
            let path = dir.child(b.entry.name);
            &&& b.entry.is_doomed() ==> doomed_in(dir, branches).contains(path)
            &&& b.entry.is_descended() ==> doomed(path, b.below).subset_of(
                doomed_in(dir, branches),
            )
        }),
    decreases branches.len(),
{
    if i < branches.len() - 1 {
        doomed_in_grows(dir, branches.drop_last(), i);
    }
}

proof fn led_to_is_doomed(dir: PathView, tree: Tree, names: Seq<Seq<u8>>)
    requires
        leads_to_doomed(tree, names),
    ensures
        doomed(dir, tree).contains(dir.below(names)),
    decreases names.len(),
{
    let branches = tree.branches();
    let i = choose|i: int|
        0 <= i < branches.len() && #[trigger] branches[i].entry.name == names.first()
            && names.len() > 0 && if names.len() == 1 {
            branches[i].entry.is_doomed()
        } else {
            branches[i].entry.is_descended() && leads_to_doomed(
                branches[i].below,
                names.drop_first(),
            )
        };
    let path = dir.child(branches[i].entry.name);
    doomed_in_grows(dir, branches, i);
    if names.len() == 1 {
        assert(dir.below(names) =~= path);
    } else {
        led_to_is_doomed(path, branches[i].below, names.drop_first());
        assert(path.below(names.drop_first()) =~= dir.below(names));
    }
}

proof fn doomed_is_led_to(dir: PathView, branches: Seq<Branch>, path: PathView) -> (names: Seq<
    Seq<u8>,
>)
    requires
        doomed_in(dir, branches).contains(path),
    ensures
        path == dir.below(names),
        some_branch_leads(branches, names),
    decreases branches,
{
    let last = branches.last();
    let step = dir.child(last.entry.name);
    let before = branches.drop_last();
    if doomed_in(dir, before).contains(path) {
        let names = doomed_is_led_to(dir, before, path);
        let i = choose|i: int|
            0 <= i < before.len() && #[trigger] before[i].entry.name == names.first()
                && names.len() > 0 && if names.len() == 1 {
                before[i].entry.is_doomed()
            } else {
                before[i].entry.is_descended() && leads_to_doomed(
                    before[i].below,
                    names.drop_first(),
                )
            };
        assert(branches[i] == before[i]);
        assert(branches[i].entry.name == names.first());
        names
    } else if last.entry.is_doomed() {
        let names = seq![last.entry.name];
        assert(path =~= dir.below(names));
        assert(branches[branches.len() - 1].entry.name == names.first());
        names
    } else {
        assert(doomed(step, last.below).contains(path));
        match last.below {
            Tree::Readable(deeper) => {
                assert(doomed_in(step, deeper).contains(path));
                let rest = doomed_is_led_to(step, deeper, path);
                let names = seq![last.entry.name] + rest;
                assert(names.drop_first() =~= rest);
                assert(step.below(rest) =~= dir.below(names));
                assert(leads_to_doomed(last.below, rest));
                assert(branches[branches.len() - 1].entry.name == names.first());
                names
            },
            Tree::Unreadable => Seq::empty(),
        }
    }
}

/// A walk finds a directory exactly if it is a `node_modules` that can be reached from the root
/// through readable directories that are neither `node_modules` nor `.git`.
pub proof fn doomed_exactly_if_reachable(root: PathView, tree: Tree, path: PathView)
    ensures
        doomed(root, tree).contains(path) <==> exists|names: Seq<Seq<u8>>|
            path == root.below(names) && #[trigger] leads_to_doomed(tree, names),
{
    if doomed(root, tree).contains(path) {
        assert(doomed(root, tree) =~= doomed_in(root, tree.branches()));
        let names = doomed_is_led_to(root, tree.branches(), path);
        assert(leads_to_doomed(tree, names));
    }
    if exists|names: Seq<Seq<u8>>|
        path == root.below(names) && #[trigger] leads_to_doomed(tree, names) {
        let names = choose|names: Seq<Seq<u8>>|
            path == root.below(names) && #[trigger] leads_to_doomed(tree, names);
        led_to_is_doomed(root, tree, names);
    }
}

/// The names that lead to a directory to delete end in `node_modules`; none before is
/// `node_modules` or `.git`.
pub proof fn only_node_modules_is_doomed(tree: Tree, names: Seq<Seq<u8>>)
    requires
        leads_to_doomed(tree, names),
    ensures
        names.len() > 0,
        names.last() == node_modules(),
        forall|j: int| 0 <= j < names.len() - 1 ==> names[j] != node_modules() && names[j] != git(),
    decreases names.len(),
{
    let branches = tree.branches();
    let i = choose|i: int|
        0 <= i < branches.len() && #[trigger] branches[i].entry.name == names.first()
            && names.len() > 0 && if names.len() == 1 {
            branches[i].entry.is_doomed()
        } else {
            branches[i].entry.is_descended() && leads_to_doomed(
                branches[i].below,
                names.drop_first(),
            )
        };
    if names.len() > 1 {
        only_node_modules_is_doomed(branches[i].below, names.drop_first());
        assert forall|j: int| 0 <= j < names.len() - 1 implies names[j] != node_modules()
            && names[j] != git() by {
            if j > 0 {
                assert(names[j] == names.drop_first()[j - 1]);
            }
        }
    }
}

/// No directory to delete lies inside another.
pub proof fn doomed_directories_are_not_nested(tree: Tree, outer: Seq<Seq<u8>>, inner: Seq<Seq<u8>>)
    requires
        leads_to_doomed(tree, outer),
        leads_to_doomed(tree, inner),
        outer.is_prefix_of(inner),
    ensures
        outer == inner,
{
    only_node_modules_is_doomed(tree, outer);
    only_node_modules_is_doomed(tree, inner);
    assert(outer.last() == inner[outer.len() - 1]);
    assert(outer =~= inner);
}

/// Every `node_modules` directory of the tree that is in no `.git` is deleted: it is found, or it
/// lies in one that is.
pub proof fn every_node_modules_is_covered(tree: Tree, names: Seq<Seq<u8>>) -> (depth: int)
    requires
        holds_directory(tree, names),
        names.len() > 0,
        names.last() == node_modules(),
        !names.contains(git()),
    ensures
        0 < depth <= names.len(),
        leads_to_doomed(tree, names.take(depth)),
    decreases names.len(),
{
    let branches = tree.branches();
    let i = choose|i: int|
        0 <= i < branches.len() && #[trigger] branches[i].entry.name == names.first()
            && branches[i].entry.kind is Directory && holds_directory(
            branches[i].below,
            names.drop_first(),
        );
    assert(names.contains(names[0]));
    if names[0] == node_modules() {
        assert(branches[i].entry.name == names.take(1).first());
        1
    } else {
        let rest = names.drop_first();
        assert forall|j: int| 0 <= j < rest.len() implies rest[j] != git() by {
            assert(names.contains(names[j + 1]));
        }
        let depth = every_node_modules_is_covered(branches[i].below, rest);
        let prefix = names.take(depth + 1);
        assert(prefix.drop_first() =~= rest.take(depth));
        assert(branches[i].entry.name == prefix.first());
        depth + 1
    }
}

/// Whether a directory lies below `root` without a `node_modules` or a `.git` on the way.
pub open spec fn in_the_clear(root: PathView, path: PathView) -> bool {
    &&& path.is_within(root)
    &&& forall|j: int|
        root.names.len() <= j < path.names.len() ==> #[trigger] path.names[j] != node_modules()
            && path.names[j] != git()
}

proof fn walked_trees_in_the_clear(root: PathView, dir: PathView, branches: Seq<Branch>)
    requires
        in_the_clear(root, dir),
    ensures
        forall|i: int|
            0 <= i < walked_trees(dir, branches).len() ==> in_the_clear(
                root,
                #[trigger] walked_trees(dir, branches)[i].0,
            ),
    decreases branches.len(),
{
    if branches.len() > 0 {
        walked_trees_in_the_clear(root, dir, branches.drop_last());
        let before = walked_trees(dir, branches.drop_last());
        let child = dir.child(branches.last().entry.name);
        if branches.last().entry.is_descended() {
            assert(child.names.subrange(0, root.names.len() as int) =~= dir.names.subrange(
                0,
                root.names.len() as int,
            ));
            assert(in_the_clear(root, child));
            assert(walked_trees(dir, branches) =~= before.push((child, branches.last().below)));
        }
        assert forall|i: int| 0 <= i < walked_trees(dir, branches).len() implies in_the_clear(
            root,
            #[trigger] walked_trees(dir, branches)[i].0,
        ) by {
            if i < before.len() {
                assert(walked_trees(dir, branches)[i] == before[i]);
            }
        }
    }
}

/// A walk never visits a `node_modules` or a `.git`, nor anything below one.
pub proof fn walk_enters_no_node_modules(root: PathView, tree: Tree, order: Seq<int>)
    requires
        WalkState::start(root, tree).admits(order),
    ensures
        forall|i: int|
            0 <= i < WalkState::start(root, tree).run(order).pending.len() ==> in_the_clear(
                root,
                #[trigger] WalkState::start(root, tree).run(order).pending[i].0,
            ),
    decreases order.len(),
{
    let start = WalkState::start(root, tree);
    if order.len() == 0 {
        assert(root.names.take(root.names.len() as int) =~= root.names);
    } else {
        walk_enters_no_node_modules(root, tree, order.drop_last());
        let state = start.run(order.drop_last());
        let (dir, at) = state.pending[order.last()];
        walked_trees_in_the_clear(root, dir, at.branches());
        assert forall|i: int| 0 <= i < start.run(order).pending.len() implies in_the_clear(
            root,
            #[trigger] start.run(order).pending[i].0,
        ) by {
            let kept = state.pending.remove(order.last());
            if i < kept.len() {
                let j = if i < order.last() {
                    i
                } else {
                    i + 1
                };
                assert(start.run(order).pending[i] == state.pending[j]);
            } else {
                assert(start.run(order).pending[i] == walked_trees(dir, at.branches())[i
                    - kept.len()]);
            }
        }
    }
}

/// Whether no directory of the tree holds two entries of one name.
pub open spec fn well_named(tree: Tree) -> bool
    decreases tree,
{
    match tree {
        Tree::Unreadable => true,
        Tree::Readable(branches) => {
            &&& forall|i: int, j: int|
                0 <= i < j < branches.len() ==> #[trigger] branches[i].entry.name
                    != #[trigger] branches[j].entry.name
            &&& forall|i: int|
                0 <= i < branches.len() ==> well_named(#[trigger] branches[i].below)
        },
    }
}

proof fn doomed_in_once(dir: PathView, branches: Seq<Branch>, path: PathView)
    requires
        well_named(Tree::Readable(branches)),
    ensures
        doomed_in(dir, branches).count(path) <= 1,
    decreases branches,
{
    if branches.len() > 0 {
        let before = branches.drop_last();
        let last = branches.last();
        let step = dir.child(last.entry.name);
        assert forall|i: int, j: int| 0 <= i < j < before.len() implies #[trigger] before[i].entry.name
            != #[trigger] before[j].entry.name by {
            assert(before[i] == branches[i] && before[j] == branches[j]);
        }
        assert forall|i: int| 0 <= i < before.len() implies well_named(
            #[trigger] before[i].below,
        ) by {
            assert(before[i] == branches[i]);
        }
        doomed_in_once(dir, before, path);
        assert(well_named(branches[branches.len() - 1].below));
        let below = doomed(step, last.below);
        match last.below {
            Tree::Readable(deeper) => {
                doomed_in_once(step, deeper, path);
                assert(below == doomed_in(step, deeper));
            },
            Tree::Unreadable => {
                assert(below == Multiset::<PathView>::empty());
            },
        }
        if doomed_in(dir, before).contains(path) {
            let names = doomed_is_led_to(dir, before, path);
            let i = choose|i: int|
                0 <= i < before.len() && #[trigger] before[i].entry.name == names.first()
                    && names.len() > 0 && if names.len() == 1 {
                    before[i].entry.is_doomed()
                } else {
                    before[i].entry.is_descended() && leads_to_doomed(
                        before[i].below,
                        names.drop_first(),
                    )
                };
            assert(path.names[dir.names.len() as int] == before[i].entry.name);
            assert(branches[i].entry.name != branches[branches.len() - 1].entry.name);
            assert(path != step);
            if below.contains(path) {
                let rest = doomed_is_led_to(step, last.below.branches(), path);
                assert(path.names[dir.names.len() as int] == last.entry.name);
            }
        }
    }
}

/// In a tree without two entries of one name in one directory, no directory is found twice.
pub proof fn nothing_is_found_twice(root: PathView, tree: Tree, path: PathView)
    requires
        well_named(tree),
    ensures
        doomed(root, tree).count(path) <= 1,
{
    match tree {
        Tree::Readable(branches) => {
            doomed_in_once(root, branches, path);
        },
        Tree::Unreadable => {},
    }
}

} // verus!
