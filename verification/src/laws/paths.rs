//! Paths: their order and their texts.

use vstd::prelude::*;
use vstd::utf8::{decode_utf8, valid_utf8};

use crate::order::{bytes_order, bytes_order_laws, names_order, names_order_laws, path_order};
use crate::path::{
    joined, lossy, mended, names_text, path_text, relative_text, text_needs_no_mending, PathView,
};

verus! {

/// Byte strings come in dictionary order: where they differ first, the one with the smaller byte
/// comes first, and a string comes before its continuations.
pub proof fn the_first_different_byte_decides(
    start: Seq<u8>,
    x: u8,
    y: u8,
    a: Seq<u8>,
    b: Seq<u8>,
)
    ensures
        x < y ==> bytes_order(start.push(x) + a, start.push(y) + b) < 0,
        x > y ==> bytes_order(start.push(x) + a, start.push(y) + b) > 0,
        bytes_order(start, start.push(x) + a) < 0,
        bytes_order(start.push(x) + a, start) > 0,
        bytes_order(start, start) == 0,
    decreases start.len(),
{
    let left = start.push(x) + a;
    let right = start.push(y) + b;
    if start.len() > 0 {
        let rest = start.drop_first();
        assert(left.drop_first() =~= rest.push(x) + a);
        assert(right.drop_first() =~= rest.push(y) + b);
        the_first_different_byte_decides(rest, x, y, a, b);
    }
}

/// Lists of names come in dictionary order, name by name: where they differ first, the one with the
/// earlier name comes first, and a list comes before its continuations.
pub proof fn the_first_different_name_decides(
    start: Seq<Seq<u8>>,
    x: Seq<u8>,
    y: Seq<u8>,
    a: Seq<Seq<u8>>,
    b: Seq<Seq<u8>>,
)
    ensures
        bytes_order(x, y) < 0 ==> names_order(start.push(x) + a, start.push(y) + b) < 0,
        bytes_order(x, y) > 0 ==> names_order(start.push(x) + a, start.push(y) + b) > 0,
        names_order(start, start.push(x) + a) < 0,
        names_order(start.push(x) + a, start) > 0,
        names_order(start, start) == 0,
    decreases start.len(),
{
    let left = start.push(x) + a;
    let right = start.push(y) + b;
    if start.len() > 0 {
        let rest = start.drop_first();
        assert(left.drop_first() =~= rest.push(x) + a);
        assert(right.drop_first() =~= rest.push(y) + b);
        the_first_different_name_decides(rest, x, y, a, b);
    } else {
        bytes_order_laws(x, y, x);
    }
}

/// Of two paths the one whose anchor comes first comes first; with one anchor, the names decide.
pub proof fn anchors_decide_before_names(a: PathView, b: PathView)
    ensures
        bytes_order(a.anchor, b.anchor) < 0 ==> path_order(a, b) < 0,
        bytes_order(a.anchor, b.anchor) > 0 ==> path_order(a, b) > 0,
        a.anchor == b.anchor && names_order(a.names, b.names) < 0 ==> path_order(a, b) < 0,
        a.anchor == b.anchor && names_order(a.names, b.names) > 0 ==> path_order(a, b) > 0,
        a.anchor == b.anchor && a.names == b.names ==> path_order(a, b) == 0,
{
    bytes_order_laws(a.anchor, b.anchor, a.anchor);
    names_order_laws(a.names, b.names, a.names);
}

/// The entry of a directory has the names of the directory and one more; what lies below it, any
/// number more; and a path is within another exactly if it is reached from there.
pub proof fn paths_are_made_of_names(path: PathView, root: PathView, name: Seq<u8>, names: Seq<
    Seq<u8>,
>)
    ensures
        path.child(name).anchor == path.anchor,
        path.child(name).names == path.names.push(name),
        path.below(names).anchor == path.anchor,
        path.below(names).names == path.names + names,
        path.below(names).is_within(path),
        path.below(names).names_from(path) == names,
        path.is_within(root) ==> path == root.below(path.names_from(root)),
{
    assert(path.below(names).names.subrange(0, path.names.len() as int) =~= path.names);
    assert(path.below(names).names_from(path) =~= names);
    if path.is_within(root) {
        assert(path =~= root.below(path.names_from(root)));
    }
}

/// Joined names have a separator between each two and nowhere else.
pub proof fn one_more_name_is_joined(names: Seq<Seq<u8>>, name: Seq<u8>, separator: u8)
    ensures
        joined(Seq::empty(), separator) == Seq::<u8>::empty(),
        joined(seq![name], separator) == name,
        names.len() > 0 ==> joined(names.push(name), separator) == joined(names, separator)
            + seq![separator] + name,
{
    if names.len() > 0 {
        assert(names.push(name).drop_last() =~= names);
        assert(joined(names.push(name), separator) =~= joined(names, separator) + seq![separator]
            + name);
    }
}

/// The text of a path is what its bytes encode, where they are UTF-8; elsewhere than where a
/// backslash separates names, it is what `String::from_utf8_lossy` makes of them otherwise.
pub proof fn texts_are_what_the_bytes_encode(path: PathView, separator: u8)
    ensures
        valid_utf8(path.anchor + joined(path.names, separator)) ==> path_text(path, separator)
            == decode_utf8(path.anchor + joined(path.names, separator)),
        separator != 0x5c && !valid_utf8(path.anchor + joined(path.names, separator))
            ==> path_text(path, separator) == lossy(path.anchor + joined(path.names, separator)),
        valid_utf8(joined(path.names, separator)) ==> names_text(path.names, separator)
            == decode_utf8(joined(path.names, separator)),
        separator != 0x5c && !valid_utf8(joined(path.names, separator)) ==> names_text(
            path.names,
            separator,
        ) == lossy(joined(path.names, separator)),
{
    let whole = path.anchor + joined(path.names, separator);
    if valid_utf8(whole) {
        text_needs_no_mending(whole);
    }
    if valid_utf8(joined(path.names, separator)) {
        text_needs_no_mending(joined(path.names, separator));
    }
}

/// Where a backslash separates names, a path whose bytes are UTF-8 once each unpaired surrogate is
/// replaced has the text that they encode then.
pub proof fn surrogates_are_replaced_in_texts(path: PathView)
    ensures
        valid_utf8(mended(path.anchor + joined(path.names, 0x5c))) ==> path_text(path, 0x5c)
            == decode_utf8(mended(path.anchor + joined(path.names, 0x5c))),
        valid_utf8(mended(joined(path.names, 0x5c))) ==> names_text(path.names, 0x5c)
            == decode_utf8(mended(joined(path.names, 0x5c))),
{
}

/// An unpaired surrogate becomes one replacement character, and every other byte stays.
pub proof fn one_more_byte_is_mended(first: u8, second: u8, third: u8, rest: Seq<u8>)
    ensures
        mended(Seq::empty()) == Seq::<u8>::empty(),
        first != 0xed ==> mended(seq![first] + rest) == seq![first] + mended(rest),
        second < 0xa0 || second > 0xbf ==> mended(seq![first, second] + rest) == seq![first]
            + mended(seq![second] + rest),
        0xa0 <= second <= 0xbf ==> mended(seq![0xedu8, second, third] + rest) == seq![
            0xefu8,
            0xbfu8,
            0xbdu8,
        ] + mended(rest),
{
    assert((seq![first] + rest).skip(1) =~= rest);
    assert((seq![first, second] + rest).skip(1) =~= seq![second] + rest);
    assert((seq![0xedu8, second, third] + rest).skip(3) =~= rest);
}

/// A path is shown as a dot where it is the root, by the names below the root where there are any,
/// and as a whole elsewhere.
pub proof fn texts_below_the_root(root: PathView, names: Seq<Seq<u8>>, path: PathView, separator: u8)
    ensures
        relative_text(root, root, separator) == "."@,
        names.len() > 0 ==> relative_text(root, root.below(names), separator) == names_text(
            names,
            separator,
        ),
        !path.is_within(root) ==> relative_text(root, path, separator) == path_text(
            path,
            separator,
        ),
{
    paths_are_made_of_names(root, root, Seq::empty(), names);
    if names.len() > 0 {
        assert(root.below(names).names.len() > root.names.len());
    }
    assert(root.names.subrange(0, root.names.len() as int) =~= root.names);
}

} // verus!
