//! The directories that were found, in order.

use vstd::prelude::*;
use vstd::relations::{sorted_by, total_ordering};
use vstd::seq_lib::{group_to_multiset_ensures, lemma_multiset_commutative, lemma_sorted_unique};

use crate::order::{path_first, path_order, path_order_laws};
use crate::path::{DirPath, PathView};
use crate::tree::{
    every_walk_finds_the_same, nothing_is_found_twice, well_named, Tree, WalkState,
};

verus! {

/// A discovered `node_modules` directory and the number of bytes it holds.
#[derive(Debug)]
pub struct FoundNodeModules {
    pub path: DirPath,
    pub bytes: u64,
}

/// A discovered directory as a mathematical value.
pub struct FoundView {
    pub path: PathView,
    pub bytes: u64,
}

impl View for FoundNodeModules {
    type V = FoundView;

    open spec fn view(&self) -> FoundView {
        FoundView { path: self.path@, bytes: self.bytes }
    }
}

/// The values of a list of discovered directories.
pub open spec fn found_view(found: Seq<FoundNodeModules>) -> Seq<FoundView> {
    found.map_values(|f: FoundNodeModules| f@)
}

/// What a walk came back with: each directory and its size, where it was measured. A directory
/// that was not measured counts no bytes.
pub open spec fn walked_view(walked: Seq<(DirPath, Option<u64>)>) -> Seq<FoundView> {
    walked.map_values(
        |w: (DirPath, Option<u64>)|
            FoundView {
                path: w.0@,
                bytes: match w.1 {
                    Some(bytes) => bytes,
                    None => 0,
                },
            },
    )
}

/// Whether the directories come in the order of their paths.
pub open spec fn in_path_order(found: Seq<FoundView>) -> bool {
    forall|i: int, j: int|
        0 <= i < j < found.len() ==> path_order(#[trigger] found[i].path, #[trigger] found[j].path)
            <= 0
}

/// Whether every directory of `a` comes no later than every directory of `b`.
spec fn all_before(a: Seq<FoundView>, b: Seq<FoundView>) -> bool {
    forall|i: int, j: int|
        0 <= i < a.len() && 0 <= j < b.len() ==> path_order(
            #[trigger] a[i].path,
            #[trigger] b[j].path,
        ) <= 0
}

/// Whether the directories come in the reverse of the order of their paths.
spec fn in_reverse_order(found: Seq<FoundView>) -> bool {
    forall|i: int, j: int|
        0 <= i < j < found.len() ==> path_order(#[trigger] found[j].path, #[trigger] found[i].path)
            <= 0
}

proof fn transitive(a: PathView, b: PathView, c: PathView)
    requires
        path_order(a, b) <= 0,
        path_order(b, c) <= 0,
    ensures
        path_order(a, c) <= 0,
{
    path_order_laws(a, b, c);
}

/// Moves the last of `from` to the end of `out`.
fn take_last(from: &mut Vec<FoundNodeModules>, out: &mut Vec<FoundNodeModules>)
    requires
        old(from)@.len() > 0,
    ensures
        final(from)@ == old(from)@.drop_last(),
        final(out)@ == old(out)@.push(old(from)@.last()),
        found_view(final(from)@) == found_view(old(from)@).drop_last(),
        found_view(final(out)@) == found_view(old(out)@).push(found_view(old(from)@).last()),
        found_view(final(from)@).to_multiset().insert(found_view(old(from)@).last()) == found_view(
            old(from)@,
        ).to_multiset(),
        found_view(final(out)@).to_multiset() == found_view(old(out)@).to_multiset().insert(
            found_view(old(from)@).last(),
        ),
{
    broadcast use group_to_multiset_ensures;

    if let Some(last) = from.pop() {
        out.push(last);
        assert(found_view(out@) =~= found_view(old(out)@).push(found_view(old(from)@).last()));
    }
    assert(from@ =~= old(from)@.drop_last());
    assert(found_view(from@) =~= found_view(old(from)@).drop_last());
    assert(found_view(old(from)@) =~= found_view(from@).push(found_view(old(from)@).last()));
}

/// Turns a list round.
fn reversed(list: Vec<FoundNodeModules>) -> (turned: Vec<FoundNodeModules>)
    requires
        in_reverse_order(found_view(list@)),
    ensures
        in_path_order(found_view(turned@)),
        found_view(turned@).to_multiset() == found_view(list@).to_multiset(),
{
    let mut rest = list;
    let mut turned: Vec<FoundNodeModules> = Vec::new();
    let ghost all = found_view(list@).to_multiset();
    proof {
        broadcast use group_to_multiset_ensures;

        assert(found_view(turned@) =~= Seq::empty());
        assert(found_view(rest@).to_multiset().add(found_view(turned@).to_multiset()) =~= all);
    }
    while rest.len() > 0
        invariant
            in_reverse_order(found_view(rest@)),
            in_path_order(found_view(turned@)),
            all_before(found_view(turned@), found_view(rest@)),
            found_view(rest@).to_multiset().add(found_view(turned@).to_multiset()) == all,
        decreases rest@.len(),
    {
        take_last(&mut rest, &mut turned);
        assert(found_view(rest@).to_multiset().add(found_view(turned@).to_multiset()) =~= all);
    }
    proof {
        broadcast use group_to_multiset_ensures;

        assert(found_view(rest@) =~= Seq::empty());
        assert(found_view(turned@).to_multiset() =~= all);
    }
    turned
}

/// Merges two lists that are in order.
fn merge(left: Vec<FoundNodeModules>, right: Vec<FoundNodeModules>) -> (merged: Vec<
    FoundNodeModules,
>)
    requires
        in_path_order(found_view(left@)),
        in_path_order(found_view(right@)),
    ensures
        in_path_order(found_view(merged@)),
        found_view(merged@).to_multiset() == found_view(left@).to_multiset().add(
            found_view(right@).to_multiset(),
        ),
{
    let ghost all = found_view(left@).to_multiset().add(found_view(right@).to_multiset());
    let mut left = left;
    let mut right = right;
    let mut out: Vec<FoundNodeModules> = Vec::new();
    proof {
        broadcast use group_to_multiset_ensures;

        assert(found_view(out@) =~= Seq::empty());
        assert(found_view(left@).to_multiset().add(found_view(right@).to_multiset()).add(
            found_view(out@).to_multiset(),
        ) =~= all);
    }
    while left.len() > 0 || right.len() > 0
        invariant
            in_path_order(found_view(left@)),
            in_path_order(found_view(right@)),
            in_reverse_order(found_view(out@)),
            all_before(found_view(left@), found_view(out@)),
            all_before(found_view(right@), found_view(out@)),
            found_view(left@).to_multiset().add(found_view(right@).to_multiset()).add(
                found_view(out@).to_multiset(),
            ) == all,
        decreases left@.len() + right@.len(),
    {
        let ghost l = found_view(left@);
        let ghost r = found_view(right@);
        let from_right = if left.len() == 0 {
            true
        } else if right.len() == 0 {
            false
        } else {
            path_first(&left[left.len() - 1].path, &right[right.len() - 1].path)
        };
        if from_right {
            take_last(&mut right, &mut out);
            proof {
                let last = r.last().path;
                path_order_laws(last, last, last);
                assert forall|i: int| 0 <= i < l.len() implies path_order(
                    #[trigger] l[i].path,
                    last,
                ) <= 0 by {
                    if i < l.len() - 1 {
                        transitive(l[i].path, l.last().path, last);
                    }
                }
            }
        } else {
            take_last(&mut left, &mut out);
            proof {
                let last = l.last().path;
                if r.len() > 0 {
                    path_order_laws(r.last().path, last, last);
                    path_order_laws(last, r.last().path, last);
                }
                assert forall|i: int| 0 <= i < r.len() implies path_order(
                    #[trigger] r[i].path,
                    last,
                ) <= 0 by {
                    if i < r.len() - 1 {
                        transitive(r[i].path, r.last().path, last);
                    }
                }
            }
        }
        assert(found_view(left@).to_multiset().add(found_view(right@).to_multiset()).add(
            found_view(out@).to_multiset(),
        ) =~= all);
    }
    proof {
        broadcast use group_to_multiset_ensures;

        assert(found_view(left@) =~= Seq::empty());
        assert(found_view(right@) =~= Seq::empty());
        assert(found_view(out@).to_multiset() =~= all);
    }
    reversed(out)
}

/// Sorts directories by their paths.
fn sort_found(list: Vec<FoundNodeModules>) -> (sorted: Vec<FoundNodeModules>)
    ensures
        in_path_order(found_view(sorted@)),
        found_view(sorted@).to_multiset() == found_view(list@).to_multiset(),
    decreases list@.len(),
{
    if list.len() < 2 {
        return list;
    }
    let mut left = list;
    let half: usize = left.len() / 2;
    let right = left.split_off(half);
    proof {
        let all = found_view(list@);
        assert(found_view(left@) + found_view(right@) =~= all);
        lemma_multiset_commutative(found_view(left@), found_view(right@));
    }
    merge(sort_found(left), sort_found(right))
}

/// The directories that a walk came back with, sorted by path. Each keeps its measured size; one
/// that was not measured counts no bytes.
pub fn find(walked: Vec<(DirPath, Option<u64>)>) -> (found: Vec<FoundNodeModules>)
    ensures
        in_path_order(found_view(found@)),
        found_view(found@).to_multiset() == walked_view(walked@).to_multiset(),
{
    let mut rest = walked;
    let mut list: Vec<FoundNodeModules> = Vec::new();
    let ghost all = walked_view(walked@).to_multiset();
    proof {
        broadcast use group_to_multiset_ensures;

        assert(found_view(list@) =~= Seq::empty());
        assert(walked_view(rest@).to_multiset().add(found_view(list@).to_multiset()) =~= all);
    }
    while rest.len() > 0
        invariant
            walked_view(rest@).to_multiset().add(found_view(list@).to_multiset()) == all,
        decreases rest@.len(),
    {
        broadcast use group_to_multiset_ensures;

        let ghost before = rest@;
        let ghost done = list@;
        if let Some((path, size)) = rest.pop() {
            let bytes: u64 = match size {
                Some(bytes) => bytes,
                None => 0,
            };
            list.push(FoundNodeModules { path, bytes });
            proof {
                let last = walked_view(before).last();
                assert(walked_view(before) =~= walked_view(rest@).push(last));
                assert(found_view(list@) =~= found_view(done).push(last));
                assert(walked_view(rest@).to_multiset().add(found_view(list@).to_multiset())
                    =~= all);
            }
        }
    }
    proof {
        broadcast use group_to_multiset_ensures;

        assert(walked_view(rest@) =~= Seq::empty());
        assert(found_view(list@).to_multiset() =~= all);
    }
    sort_found(list)
}

/// Whether no two directories of a list have the same path.
pub open spec fn all_different(found: Seq<FoundView>) -> bool {
    forall|i: int, j: int|
        0 <= i < j < found.len() ==> #[trigger] found[i].path != #[trigger] found[j].path
}

proof fn different_in_any_order(a: Seq<FoundView>, b: Seq<FoundView>)
    requires
        all_different(a),
        a.to_multiset() == b.to_multiset(),
    ensures
        all_different(b),
{
    broadcast use group_to_multiset_ensures;

    assert(a.no_duplicates()) by {
        assert forall|i: int, j: int| 0 <= i < a.len() && 0 <= j < a.len() && i != j implies a[i]
            != a[j] by {
            if i < j {
                assert(a[i].path != a[j].path);
            } else {
                assert(a[j].path != a[i].path);
            }
        }
    }
    a.lemma_multiset_has_no_duplicates();
    b.lemma_multiset_has_no_duplicates_conv();
    assert forall|i: int, j: int| 0 <= i < j < b.len() implies #[trigger] b[i].path
        != #[trigger] b[j].path by {
        assert(b.contains(b[i]) && b.contains(b[j]));
        assert(a.to_multiset().count(b[i]) > 0 && a.to_multiset().count(b[j]) > 0);
        assert(a.contains(b[i]) && a.contains(b[j]));
        let k = a.index_of(b[i]);
        let l = a.index_of(b[j]);
        assert(b[i] != b[j]);
        if k < l {
            assert(a[k].path != a[l].path);
        } else {
            assert(a[l].path != a[k].path);
        }
    }
}

/// There is one way only to put directories with different paths in order.
pub proof fn order_is_unique(a: Seq<FoundView>, b: Seq<FoundView>)
    requires
        in_path_order(a),
        in_path_order(b),
        a.to_multiset() == b.to_multiset(),
        all_different(a),
    ensures
        a == b,
{
    broadcast use group_to_multiset_ensures;

    let leq = |x: FoundView, y: FoundView|
        path_order(x.path, y.path) < 0 || (x.path == y.path && x.bytes <= y.bytes);
    assert forall|x: FoundView| #[trigger] leq(x, x) by {
        path_order_laws(x.path, x.path, x.path);
    }
    assert forall|x: FoundView, y: FoundView|
        (#[trigger] leq(x, y) && #[trigger] leq(y, x)) implies x == y by {
        path_order_laws(x.path, y.path, x.path);
    }
    assert forall|x: FoundView, y: FoundView, z: FoundView|
        (#[trigger] leq(x, y) && #[trigger] leq(y, z)) implies leq(x, z) by {
        path_order_laws(x.path, y.path, z.path);
        path_order_laws(y.path, z.path, x.path);
        path_order_laws(x.path, z.path, y.path);
    }
    assert forall|x: FoundView, y: FoundView| #[trigger] leq(x, y) || leq(y, x) by {
        path_order_laws(x.path, y.path, x.path);
        path_order_laws(y.path, x.path, y.path);
    }
    assert(total_ordering(leq));
    assert(all_different(b)) by {
        different_in_any_order(a, b);
    }
    assert(sorted_by(a, leq)) by {
        assert forall|i: int, j: int| 0 <= i < j < a.len() implies #[trigger] leq(
            a[i],
            a[j],
        ) by {
            path_order_laws(a[i].path, a[j].path, a[i].path);
        }
    }
    assert(sorted_by(b, leq)) by {
        assert forall|i: int, j: int| 0 <= i < j < b.len() implies #[trigger] leq(
            b[i],
            b[j],
        ) by {
            path_order_laws(b[i].path, b[j].path, b[i].path);
        }
    }
    lemma_sorted_unique(a, b, leq);
}

/// Directories, each with the size that `sizes` gives for it.
pub open spec fn sized(paths: Seq<PathView>, sizes: spec_fn(PathView) -> u64) -> Seq<FoundView> {
    paths.map_values(|path: PathView| FoundView { path, bytes: sizes(path) })
}

/// The paths of discovered directories.
pub open spec fn found_paths(found: Seq<FoundView>) -> Seq<PathView> {
    found.map_values(|f: FoundView| f.path)
}

/// Whether `found` is what `find` makes of a whole walk over a tree in the given order, where each
/// directory has the size that `sizes` gives for it.
pub open spec fn reports_walk(
    found: Seq<FoundView>,
    root: PathView,
    tree: Tree,
    order: Seq<int>,
    sizes: spec_fn(PathView) -> u64,
) -> bool {
    let start = WalkState::start(root, tree);
    &&& start.admits(order)
    &&& start.run(order).pending.len() == 0
    &&& in_path_order(found)
    &&& found.to_multiset() == sized(start.run(order).found, sizes).to_multiset()
}

proof fn mapped_in_any_order<A, B>(a: Seq<A>, b: Seq<A>, f: spec_fn(A) -> B)
    requires
        a.to_multiset() == b.to_multiset(),
    ensures
        a.map_values(f).to_multiset() == b.map_values(f).to_multiset(),
    decreases a.len(),
{
    broadcast use group_to_multiset_ensures;

    if a.len() == 0 {
        assert(a.to_multiset().len() == 0);
        assert(a =~= b);
    } else {
        let last = a.last();
        assert(a.contains(last));
        assert(b.to_multiset().count(last) > 0);
        assert(b.contains(last));
        let k = b.index_of(last);
        let a1 = a.drop_last();
        let b1 = b.remove(k);
        assert(a1 =~= a.remove(a.len() - 1));
        mapped_in_any_order(a1, b1, f);
        assert(a.map_values(f) =~= a1.map_values(f).push(f(last)));
        assert(b.map_values(f) =~= b1.map_values(f).insert(k, f(last)));
        vstd::seq_lib::to_multiset_insert(b1.map_values(f), k, f(last));
    }
}

proof fn sized_in_any_order(
    a: Seq<PathView>,
    b: Seq<PathView>,
    sizes: spec_fn(PathView) -> u64,
)
    requires
        a.to_multiset() == b.to_multiset(),
    ensures
        sized(a, sizes).to_multiset() == sized(b, sizes).to_multiset(),
{
    let f = |path: PathView| FoundView { path, bytes: sizes(path) };
    mapped_in_any_order(a, b, f);
    assert(sized(a, sizes) =~= a.map_values(f));
    assert(sized(b, sizes) =~= b.map_values(f));
}

proof fn paths_in_any_order(a: Seq<FoundView>, b: Seq<FoundView>)
    requires
        a.to_multiset() == b.to_multiset(),
    ensures
        found_paths(a).to_multiset() == found_paths(b).to_multiset(),
{
    let f = |found: FoundView| found.path;
    mapped_in_any_order(a, b, f);
    assert(found_paths(a) =~= a.map_values(f));
    assert(found_paths(b) =~= b.map_values(f));
}

/// There is one way only to put paths in order.
proof fn path_order_is_unique(a: Seq<FoundView>, b: Seq<FoundView>)
    requires
        in_path_order(a),
        in_path_order(b),
        found_paths(a).to_multiset() == found_paths(b).to_multiset(),
    ensures
        found_paths(a) == found_paths(b),
{
    let leq = |x: PathView, y: PathView| path_order(x, y) <= 0;
    assert forall|x: PathView| #[trigger] leq(x, x) by {
        path_order_laws(x, x, x);
    }
    assert forall|x: PathView, y: PathView|
        (#[trigger] leq(x, y) && #[trigger] leq(y, x)) implies x == y by {
        path_order_laws(x, y, x);
        path_order_laws(y, x, y);
    }
    assert forall|x: PathView, y: PathView, z: PathView|
        (#[trigger] leq(x, y) && #[trigger] leq(y, z)) implies leq(x, z) by {
        path_order_laws(x, y, z);
    }
    assert forall|x: PathView, y: PathView| #[trigger] leq(x, y) || leq(y, x) by {
        path_order_laws(x, y, x);
        path_order_laws(y, x, y);
    }
    assert(total_ordering(leq));
    assert(sorted_by(found_paths(a), leq)) by {
        assert forall|i: int, j: int| 0 <= i < j < a.len() implies #[trigger] leq(
            found_paths(a)[i],
            found_paths(a)[j],
        ) by {
            assert(path_order(a[i].path, a[j].path) <= 0);
        }
    }
    assert(sorted_by(found_paths(b), leq)) by {
        assert forall|i: int, j: int| 0 <= i < j < b.len() implies #[trigger] leq(
            found_paths(b)[i],
            found_paths(b)[j],
        ) by {
            assert(path_order(b[i].path, b[j].path) <= 0);
        }
    }
    lemma_sorted_unique(found_paths(a), found_paths(b), leq);
}

proof fn sizes_stay_with_their_paths(
    found: Seq<FoundView>,
    paths: Seq<PathView>,
    sizes: spec_fn(PathView) -> u64,
)
    requires
        found.to_multiset() == sized(paths, sizes).to_multiset(),
    ensures
        forall|i: int|
            0 <= i < found.len() ==> (#[trigger] found[i]).bytes == sizes(found[i].path),
        found_paths(found).to_multiset() == paths.to_multiset(),
{
    broadcast use group_to_multiset_ensures;

    let list = sized(paths, sizes);
    assert forall|i: int| 0 <= i < found.len() implies (#[trigger] found[i]).bytes == sizes(
        found[i].path,
    ) by {
        assert(found.contains(found[i]));
        assert(list.to_multiset().count(found[i]) > 0);
        assert(list.contains(found[i]));
        let j = list.index_of(found[i]);
        assert(list[j] == found[i]);
    }
    paths_in_any_order(found, list);
    assert(found_paths(list) =~= paths);
}

/// Two walks over a tree, whatever orders its directories are visited in, find the same
/// directories in the same order, whatever sizes they are given: measuring changes the bytes and
/// nothing else.
pub proof fn measuring_changes_only_the_bytes(
    root: PathView,
    tree: Tree,
    order: Seq<int>,
    sizes: spec_fn(PathView) -> u64,
    found: Seq<FoundView>,
    other_order: Seq<int>,
    other_sizes: spec_fn(PathView) -> u64,
    other_found: Seq<FoundView>,
)
    requires
        reports_walk(found, root, tree, order, sizes),
        reports_walk(other_found, root, tree, other_order, other_sizes),
    ensures
        found_paths(found) == found_paths(other_found),
        forall|i: int|
            0 <= i < found.len() ==> (#[trigger] found[i]).bytes == sizes(found[i].path),
        forall|i: int|
            0 <= i < other_found.len() ==> (#[trigger] other_found[i]).bytes == other_sizes(
                other_found[i].path,
            ),
{
    let paths = WalkState::start(root, tree).run(order).found;
    let other_paths = WalkState::start(root, tree).run(other_order).found;
    every_walk_finds_the_same(root, tree, order);
    every_walk_finds_the_same(root, tree, other_order);
    sizes_stay_with_their_paths(found, paths, sizes);
    sizes_stay_with_their_paths(other_found, other_paths, other_sizes);
    path_order_is_unique(found, other_found);
}

/// Whatever order the directories of a tree are visited in, the sorted list of what was found is
/// the same.
pub proof fn every_walk_reports_the_same(
    root: PathView,
    tree: Tree,
    sizes: spec_fn(PathView) -> u64,
    order: Seq<int>,
    other_order: Seq<int>,
    found: Seq<FoundView>,
    other_found: Seq<FoundView>,
)
    requires
        well_named(tree),
        reports_walk(found, root, tree, order, sizes),
        reports_walk(other_found, root, tree, other_order, sizes),
    ensures
        found == other_found,
{
    broadcast use group_to_multiset_ensures;

    let paths = WalkState::start(root, tree).run(order).found;
    let other_paths = WalkState::start(root, tree).run(other_order).found;
    every_walk_finds_the_same(root, tree, order);
    every_walk_finds_the_same(root, tree, other_order);
    sized_in_any_order(paths, other_paths, sizes);
    assert forall|path: PathView| paths.to_multiset().contains(path) implies
        paths.to_multiset().count(path) == 1 by {
        nothing_is_found_twice(root, tree, path);
    }
    paths.lemma_multiset_has_no_duplicates_conv();
    let list = sized(paths, sizes);
    assert forall|i: int, j: int| 0 <= i < j < list.len() implies #[trigger] list[i].path
        != #[trigger] list[j].path by {
        assert(paths[i] != paths[j]);
    }
    different_in_any_order(list, found);
    order_is_unique(found, other_found);
}

} // verus!
