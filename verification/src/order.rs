//! The order of paths.

use vstd::prelude::*;

use crate::path::{names_view, DirPath, PathView};

verus! {

/// Byte strings in dictionary order: negative where `a` comes first, positive where `b` does.
pub open spec fn bytes_order(a: Seq<u8>, b: Seq<u8>) -> int
    decreases a.len(),
{
    if a.len() == 0 || b.len() == 0 {
        a.len() - b.len()
    } else if a[0] != b[0] {
        a[0] - b[0]
    } else {
        bytes_order(a.drop_first(), b.drop_first())
    }
}

/// Lists of names in dictionary order, name by name.
pub open spec fn names_order(a: Seq<Seq<u8>>, b: Seq<Seq<u8>>) -> int
    decreases a.len(),
{
    if a.len() == 0 || b.len() == 0 {
        a.len() - b.len()
    } else if a[0] != b[0] {
        bytes_order(a[0], b[0])
    } else {
        names_order(a.drop_first(), b.drop_first())
    }
}

/// Paths in order: by what they are anchored at, then name by name. A directory comes before
/// everything under it, and `a/b` comes before `a-b`.
pub open spec fn path_order(a: PathView, b: PathView) -> int {
    if a.anchor != b.anchor {
        bytes_order(a.anchor, b.anchor)
    } else {
        names_order(a.names, b.names)
    }
}

/// Byte strings are totally ordered.
pub proof fn bytes_order_laws(a: Seq<u8>, b: Seq<u8>, c: Seq<u8>)
    ensures
        bytes_order(a, b) == 0 <==> a == b,
        bytes_order(a, b) < 0 <==> bytes_order(b, a) > 0,
        bytes_order(a, b) <= 0 && bytes_order(b, c) <= 0 ==> bytes_order(a, c) <= 0,
    decreases a.len() + b.len() + c.len(),
{
    if a.len() > 0 && b.len() > 0 && a[0] == b[0] {
        let c1 = if c.len() > 0 {
            c.drop_first()
        } else {
            c
        };
        bytes_order_laws(a.drop_first(), b.drop_first(), c1);
        if a.drop_first() == b.drop_first() {
            assert(a =~= seq![a[0]] + a.drop_first());
            assert(b =~= seq![b[0]] + b.drop_first());
        }
    } else if a.len() == 0 && b.len() == 0 {
        assert(a =~= b);
    }
}

/// Lists of names are totally ordered.
pub proof fn names_order_laws(a: Seq<Seq<u8>>, b: Seq<Seq<u8>>, c: Seq<Seq<u8>>)
    ensures
        names_order(a, b) == 0 <==> a == b,
        names_order(a, b) < 0 <==> names_order(b, a) > 0,
        names_order(a, b) <= 0 && names_order(b, c) <= 0 ==> names_order(a, c) <= 0,
    decreases a.len() + b.len() + c.len(),
{
    if a.len() > 0 && b.len() > 0 {
        let c1 = if c.len() > 0 {
            c.drop_first()
        } else {
            c
        };
        let c0 = if c.len() > 0 {
            c[0]
        } else {
            Seq::empty()
        };
        bytes_order_laws(a[0], b[0], c0);
        bytes_order_laws(b[0], c0, a[0]);
        bytes_order_laws(a[0], c0, b[0]);
        if a[0] == b[0] {
            names_order_laws(a.drop_first(), b.drop_first(), c1);
            if a.drop_first() == b.drop_first() {
                assert(a =~= seq![a[0]] + a.drop_first());
                assert(b =~= seq![b[0]] + b.drop_first());
            }
        }
    } else if a.len() == 0 && b.len() == 0 {
        assert(a =~= b);
    }
}

/// Paths are totally ordered: only equal paths are level with one another, of two different
/// paths exactly one comes first, and the order is transitive.
pub proof fn path_order_laws(a: PathView, b: PathView, c: PathView)
    ensures
        path_order(a, b) == 0 <==> a == b,
        path_order(a, b) < 0 <==> path_order(b, a) > 0,
        path_order(a, b) <= 0 && path_order(b, c) <= 0 ==> path_order(a, c) <= 0,
{
    bytes_order_laws(a.anchor, b.anchor, c.anchor);
    bytes_order_laws(b.anchor, c.anchor, a.anchor);
    bytes_order_laws(a.anchor, c.anchor, b.anchor);
    names_order_laws(a.names, b.names, c.names);
}

/// A directory comes before everything under it.
pub proof fn directory_comes_before_its_contents(path: PathView, names: Seq<Seq<u8>>)
    requires
        names.len() > 0,
    ensures
        path_order(path, path.below(names)) < 0,
{
    prefix_comes_first(path.names, names);
}

proof fn prefix_comes_first(start: Seq<Seq<u8>>, more: Seq<Seq<u8>>)
    requires
        more.len() > 0,
    ensures
        names_order(start, start + more) < 0,
    decreases start.len(),
{
    if start.len() > 0 {
        assert((start + more).drop_first() =~= start.drop_first() + more);
        prefix_comes_first(start.drop_first(), more);
    }
}

/// Which of two byte strings comes first.
fn order_of_bytes(a: &Vec<u8>, b: &Vec<u8>) -> (order: i8)
    ensures
        order < 0 <==> bytes_order(a@, b@) < 0,
        order > 0 <==> bytes_order(a@, b@) > 0,
{
    let mut i: usize = 0;
    assert(a@.skip(0) =~= a@);
    assert(b@.skip(0) =~= b@);
    while i < a.len() && i < b.len()
        invariant
            i <= a@.len(),
            i <= b@.len(),
            bytes_order(a@, b@) == bytes_order(a@.skip(i as int), b@.skip(i as int)),
        decreases a@.len() - i,
    {
        if a[i] < b[i] {
            return -1;
        }
        if b[i] < a[i] {
            return 1;
        }
        assert(a@.skip(i as int).drop_first() =~= a@.skip(i + 1));
        assert(b@.skip(i as int).drop_first() =~= b@.skip(i + 1));
        i += 1;
    }
    if a.len() < b.len() {
        -1
    } else if b.len() < a.len() {
        1
    } else {
        0
    }
}

/// Which of two lists of names comes first.
fn order_of_names(a: &Vec<Vec<u8>>, b: &Vec<Vec<u8>>) -> (order: i8)
    ensures
        order < 0 <==> names_order(names_view(a@), names_view(b@)) < 0,
        order > 0 <==> names_order(names_view(a@), names_view(b@)) > 0,
{
    let ghost av = names_view(a@);
    let ghost bv = names_view(b@);
    let mut i: usize = 0;
    assert(av.skip(0) =~= av);
    assert(bv.skip(0) =~= bv);
    while i < a.len() && i < b.len()
        invariant
            av == names_view(a@),
            bv == names_view(b@),
            i <= a@.len(),
            i <= b@.len(),
            names_order(av, bv) == names_order(av.skip(i as int), bv.skip(i as int)),
        decreases a@.len() - i,
    {
        let order: i8 = order_of_bytes(&a[i], &b[i]);
        proof {
            bytes_order_laws(av[i as int], bv[i as int], av[i as int]);
        }
        if order != 0 {
            return order;
        }
        assert(av.skip(i as int).drop_first() =~= av.skip(i + 1));
        assert(bv.skip(i as int).drop_first() =~= bv.skip(i + 1));
        i += 1;
    }
    if a.len() < b.len() {
        -1
    } else if b.len() < a.len() {
        1
    } else {
        0
    }
}

/// Whether `a` comes no later than `b`.
pub fn path_first(a: &DirPath, b: &DirPath) -> (first: bool)
    ensures
        first == (path_order(a@, b@) <= 0),
{
    let order: i8 = order_of_bytes(&a.anchor, &b.anchor);
    proof {
        bytes_order_laws(a.anchor@, b.anchor@, a.anchor@);
    }
    if order != 0 {
        return order < 0;
    }
    order_of_names(&a.names, &b.names) <= 0
}

} // verus!
