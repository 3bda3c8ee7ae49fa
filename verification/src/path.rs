//! Directory paths as the names they are made of.

use vstd::prelude::*;
use vstd::utf8::{
    decode_utf8, decode_utf8_encode_utf8, encode_utf8, encode_utf8_valid_utf8,
    is_ascii_chars_encode_utf8, length_of_first_scalar, pop_first_scalar, valid_utf8,
    valid_utf8_concat,
};

use crate::text::{one_more_part, one_part, parts_from, same_bytes};

verus! {

/// A directory path: what it is anchored at (`/`, a drive, or nothing for a relative path) and
/// the names that lead from there to the directory. A name is held as the operating system
/// holds it, so it need not be text.
#[derive(Debug)]
pub struct DirPath {
    pub anchor: Vec<u8>,
    pub names: Vec<Vec<u8>>,
}

/// A path as a mathematical value.
#[verifier::ext_equal]
pub struct PathView {
    pub anchor: Seq<u8>,
    pub names: Seq<Seq<u8>>,
}

impl PathView {
    /// The path of the entry `name` in this directory.
    pub open spec fn child(self, name: Seq<u8>) -> PathView {
        PathView { anchor: self.anchor, names: self.names.push(name) }
    }

    /// The path reached from this directory by following `names`.
    pub open spec fn below(self, names: Seq<Seq<u8>>) -> PathView {
        PathView { anchor: self.anchor, names: self.names + names }
    }

    /// Whether this path is `root` or lies somewhere under it.
    pub open spec fn is_within(self, root: PathView) -> bool {
        self.anchor == root.anchor && root.names.is_prefix_of(self.names)
    }

    /// The names that lead from `root` to this path.
    pub open spec fn names_from(self, root: PathView) -> Seq<Seq<u8>> {
        self.names.skip(root.names.len() as int)
    }
}

/// The values of a list of names.
pub open spec fn names_view(names: Seq<Vec<u8>>) -> Seq<Seq<u8>> {
    names.map_values(|name: Vec<u8>| name@)
}

/// The values of a list of paths.
pub open spec fn paths_view(paths: Seq<DirPath>) -> Seq<PathView> {
    paths.map_values(|path: DirPath| path@)
}

impl View for DirPath {
    type V = PathView;

    open spec fn view(&self) -> PathView {
        PathView { anchor: self.anchor@, names: names_view(self.names@) }
    }
}

/// `names` written one after the other with `separator` between them.
pub open spec fn joined(names: Seq<Seq<u8>>, separator: u8) -> Seq<u8>
    decreases names.len(),
{
    if names.len() == 0 {
        Seq::empty()
    } else if names.len() == 1 {
        names[0]
    } else {
        joined(names.drop_last(), separator).push(separator) + names.last()
    }
}

/// What `String::from_utf8_lossy` makes of bytes that are not UTF-8.
pub uninterp spec fn lossy(bytes: Seq<u8>) -> Seq<char>;

/// The text that stands for `bytes`: what they encode, where they are UTF-8.
pub open spec fn shown(bytes: Seq<u8>) -> Seq<char> {
    if valid_utf8(bytes) {
        decode_utf8(bytes)
    } else {
        lossy(bytes)
    }
}

/// `String::from_utf8_lossy`: bytes that are UTF-8 give the text that they encode; of other bytes,
/// only that the text is a function of them is claimed (the ill-formed parts are replaced).
#[verifier::external_body]
pub(crate) fn lossy_text(bytes: &[u8]) -> (text: String)
    ensures
        valid_utf8(bytes@) ==> text@ == decode_utf8(bytes@),
        !valid_utf8(bytes@) ==> text@ == lossy(bytes@),
{
    String::from_utf8_lossy(bytes).into_owned()
}

/// Whether `bytes` begin with an unpaired surrogate: half of a character, in three bytes. Windows
/// allows such halves in names.
pub open spec fn begins_with_surrogate(bytes: Seq<u8>) -> bool {
    bytes.len() >= 3 && bytes[0] == 0xed && 0xa0 <= bytes[1] <= 0xbf
}

/// `bytes` with a replacement character, in its own three bytes, for each unpaired surrogate.
pub open spec fn mended(bytes: Seq<u8>) -> Seq<u8>
    decreases bytes.len(),
{
    if bytes.len() == 0 {
        bytes
    } else if begins_with_surrogate(bytes) {
        seq![0xefu8, 0xbfu8, 0xbdu8] + mended(bytes.skip(3))
    } else {
        seq![bytes[0]] + mended(bytes.skip(1))
    }
}

/// The text that stands for the bytes of a path. Where names are separated by backslashes, an
/// unpaired surrogate is shown as one replacement character.
pub open spec fn path_shown(bytes: Seq<u8>, separator: u8) -> Seq<char> {
    if separator == 0x5c {
        shown(mended(bytes))
    } else {
        shown(bytes)
    }
}

/// `names` as a text.
pub open spec fn names_text(names: Seq<Seq<u8>>, separator: u8) -> Seq<char> {
    path_shown(joined(names, separator), separator)
}

/// A whole path as a text.
pub open spec fn path_text(path: PathView, separator: u8) -> Seq<char> {
    path_shown(path.anchor + joined(path.names, separator), separator)
}

/// How a path is shown to somebody who knows the root: `.` for the root itself, the part below
/// the root for a path under it, and the whole path otherwise.
pub open spec fn relative_text(root: PathView, path: PathView, separator: u8) -> Seq<char> {
    if path == root {
        "."@
    } else if path.is_within(root) {
        names_text(path.names_from(root), separator)
    } else {
        path_text(path, separator)
    }
}

/// A copy of a name.
fn copy_name(name: &Vec<u8>) -> (copy: Vec<u8>)
    ensures
        copy@ == name@,
{
    let copy = name.clone();
    assert(copy@ =~= name@);
    copy
}

fn mend(bytes: &Vec<u8>) -> (out: Vec<u8>)
    ensures
        out@ == mended(bytes@),
{
    let mut out: Vec<u8> = Vec::new();
    let mut i: usize = 0;
    assert(bytes@.skip(0) =~= bytes@);
    assert(out@ + mended(bytes@.skip(0)) =~= mended(bytes@));
    while i < bytes.len()
        invariant
            i <= bytes@.len(),
            out@ + mended(bytes@.skip(i as int)) == mended(bytes@),
        decreases bytes@.len() - i,
    {
        let ghost before = out@;
        let ghost rest = bytes@.skip(i as int);
        if bytes.len() - i >= 3 && bytes[i] == 0xed && 0xa0 <= bytes[i + 1] && bytes[i + 1]
            <= 0xbf {
            out.push(0xef);
            out.push(0xbf);
            out.push(0xbd);
            assert(rest.skip(3) =~= bytes@.skip(i + 3));
            assert(out@ =~= before + seq![0xefu8, 0xbfu8, 0xbdu8]);
            i += 3;
        } else {
            out.push(bytes[i]);
            assert(rest.skip(1) =~= bytes@.skip(i + 1));
            assert(out@ =~= before + seq![rest[0]]);
            i += 1;
        }
        assert(out@ + mended(bytes@.skip(i as int)) =~= before + mended(rest));
    }
    assert(out@ + mended(bytes@.skip(i as int)) =~= out@);
    out
}

/// The text that stands for the bytes of a path.
fn show_path(bytes: &Vec<u8>, separator: u8) -> (text: String)
    ensures
        text@ == path_shown(bytes@, separator),
{
    if separator == 0x5c {
        let whole = mend(bytes);
        lossy_text(whole.as_slice())
    } else {
        lossy_text(bytes.as_slice())
    }
}

/// Appends `names[from..]`, separated, to `out`.
fn push_joined(out: &mut Vec<u8>, names: &Vec<Vec<u8>>, from: usize, separator: u8)
    requires
        from <= names@.len(),
    ensures
        final(out)@ == old(out)@ + joined(names_view(names@).skip(from as int), separator),
{
    let ghost before = out@;
    let ghost all = names_view(names@).skip(from as int);
    let mut i: usize = from;
    assert(out@ =~= before + joined(all.take(0), separator));
    while i < names.len()
        invariant
            from <= i <= names@.len(),
            all == names_view(names@).skip(from as int),
            out@ == before + joined(all.take(i - from), separator),
        decreases names@.len() - i,
    {
        if i > from {
            out.push(separator);
        }
        let mut name = copy_name(&names[i]);
        out.append(&mut name);
        proof {
            let next = all.take(i + 1 - from);
            assert(next.drop_last() =~= all.take(i - from));
            assert(next.last() == names@[i as int]@);
            assert(out@ =~= before + joined(next, separator));
        }
        i += 1;
    }
    assert(all.take(names@.len() - from) =~= all);
}

impl Clone for DirPath {
    fn clone(&self) -> (copy: Self)
        ensures
            copy@ == self@,
    {
        let mut names: Vec<Vec<u8>> = Vec::new();
        let mut i: usize = 0;
        while i < self.names.len()
            invariant
                i <= self.names@.len(),
                names_view(names@) == names_view(self.names@).take(i as int),
            decreases self.names@.len() - i,
        {
            let ghost before = names@;
            names.push(copy_name(&self.names[i]));
            assert(names_view(names@) =~= names_view(before).push(self.names@[i as int]@));
            assert(names_view(self.names@).take(i + 1) =~= names_view(self.names@).take(
                i as int,
            ).push(self.names@[i as int]@));
            i += 1;
        }
        let anchor = copy_name(&self.anchor);
        let copy = DirPath { anchor, names };
        assert(copy@ =~= self@);
        copy
    }
}

impl DirPath {
    /// The path of the entry `name` in this directory.
    pub fn join(&self, name: &Vec<u8>) -> (path: DirPath)
        ensures
            path@ == self@.child(name@),
    {
        let mut path = self.clone();
        let ghost before = path.names@;
        path.names.push(copy_name(name));
        assert(names_view(path.names@) =~= names_view(before).push(name@));
        path
    }

    /// The path of the entry whose name is the text `name`.
    pub fn join_text(&self, name: &str) -> (path: DirPath)
        ensures
            path@ == self@.child(encode_utf8(name@)),
    {
        self.join(&name.as_bytes_vec())
    }

    /// Whether this path is `root` or lies somewhere under it.
    pub fn within(&self, root: &DirPath) -> (inside: bool)
        ensures
            inside == self@.is_within(root@),
    {
        if !same_bytes(self.anchor.as_slice(), root.anchor.as_slice()) {
            return false;
        }
        if self.names.len() < root.names.len() {
            return false;
        }
        let mut i: usize = 0;
        while i < root.names.len()
            invariant
                i <= root.names@.len() <= self.names@.len(),
                forall|j: int|
                    0 <= j < i ==> names_view(self.names@)[j] == names_view(root.names@)[j],
            decreases root.names@.len() - i,
        {
            if !same_bytes(self.names[i].as_slice(), root.names[i].as_slice()) {
                assert(names_view(self.names@)[i as int] != names_view(root.names@)[i as int]);
                assert(names_view(self.names@).take(root.names@.len() as int)[i as int]
                    != names_view(root.names@)[i as int]);
                return false;
            }
            i += 1;
        }
        assert(self@.names.take(root@.names.len() as int) =~= root@.names);
        true
    }

    /// Whether the two paths are the same.
    pub fn same_as(&self, other: &DirPath) -> (same: bool)
        ensures
            same == (self@ == other@),
    {
        if self.names.len() != other.names.len() {
            assert(self@.names.len() != other@.names.len());
            return false;
        }
        let same = self.within(other);
        proof {
            if same {
                assert(self@.names.take(other@.names.len() as int) =~= self@.names);
            } else if self@ == other@ {
                assert(self@.names.take(other@.names.len() as int) =~= self@.names);
            }
        }
        same
    }

    /// The whole path as a text; bytes that are no text are shown as replacement characters.
    pub fn display(&self, separator: u8) -> (text: String)
        ensures
            text@ == path_text(self@, separator),
    {
        let mut bytes = copy_name(&self.anchor);
        push_joined(&mut bytes, &self.names, 0, separator);
        assert(names_view(self.names@).skip(0) =~= self@.names);
        show_path(&bytes, separator)
    }
}

/// How `path` is shown below `root`.
pub fn relativize(root: &DirPath, path: &DirPath, separator: u8) -> (text: String)
    ensures
        text@ == relative_text(root@, path@, separator),
{
    if path.same_as(root) {
        return ".".to_owned();
    }
    if path.within(root) {
        let mut bytes: Vec<u8> = Vec::new();
        push_joined(&mut bytes, &path.names, root.names.len(), separator);
        assert(bytes@ =~= joined(path@.names_from(root@), separator));
        show_path(&bytes, separator)
    } else {
        path.display(separator)
    }
}

/// The names in a text, between its separators.
pub open spec fn names_in(bytes: Seq<u8>, separator: u8) -> Seq<Seq<u8>> {
    parts_from(bytes, Seq::empty(), separator)
}

/// The path that `text` means to somebody who is at `root`: `.` is the root itself; a text that
/// begins with `anchor`, as whole paths do, is a whole path; any other text leads on from the root.
pub open spec fn joined_to(
    root: PathView,
    text: Seq<char>,
    anchor: Seq<u8>,
    separator: u8,
) -> PathView {
    let bytes = encode_utf8(text);
    if text == "."@ {
        root
    } else if anchor.is_prefix_of(bytes) {
        PathView { anchor, names: names_in(bytes.skip(anchor.len() as int), separator) }
    } else {
        root.below(names_in(bytes, separator))
    }
}

/// Whether `name` is the text of an entry that a directory can hold, where whole paths begin with
/// `anchor`. A drive is no such name.
pub open spec fn is_entry_name(name: Seq<u8>, anchor: Seq<u8>, separator: u8) -> bool {
    &&& name.len() > 0
    &&& !name.contains(separator)
    &&& name != encode_utf8("."@)
    &&& valid_utf8(name)
    &&& !name.push(separator).is_prefix_of(anchor)
}

/// Bytes that are UTF-8 hold no unpaired surrogate.
pub proof fn text_needs_no_mending(bytes: Seq<u8>)
    requires
        valid_utf8(bytes),
    ensures
        mended(bytes) == bytes,
    decreases bytes.len(),
{
    reveal_with_fuel(mended, 5);
    if bytes.len() > 0 {
        let b0 = bytes[0];
        let w = length_of_first_scalar(bytes);
        let rest = bytes.skip(w);
        assert(pop_first_scalar(bytes) =~= rest);
        text_needs_no_mending(rest);
        assert(!begins_with_surrogate(bytes)) by {
            if begins_with_surrogate(bytes) {
                let b1 = bytes[1];
                let b2 = bytes[2];
                assert(0xd800 <= (((0xedu8 & 0x0F) as u32) << 12) | (((b1 & 0x3f) as u32) << 6) | (
                (b2 & 0x3f) as u32) <= 0xdfff) by (bit_vector)
                    requires
                        0xa0 <= b1 <= 0xbf,
                ;
            }
        }
        assert(mended(bytes) == seq![b0] + mended(bytes.skip(1)));
        if w >= 2 {
            assert(bytes.skip(1).skip(1) =~= bytes.skip(2));
            assert(mended(bytes.skip(1)) == seq![bytes[1]] + mended(bytes.skip(2)));
        }
        if w >= 3 {
            assert(bytes.skip(2).skip(1) =~= bytes.skip(3));
            assert(mended(bytes.skip(2)) == seq![bytes[2]] + mended(bytes.skip(3)));
        }
        if w >= 4 {
            assert(bytes.skip(3).skip(1) =~= bytes.skip(4));
            assert(mended(bytes.skip(3)) == seq![bytes[3]] + mended(bytes.skip(4)));
        }
        assert(mended(bytes) =~= bytes);
    }
}

proof fn names_are_read_back(names: Seq<Seq<u8>>, anchor: Seq<u8>, separator: u8)
    requires
        separator < 128,
        forall|i: int|
            0 <= i < names.len() ==> is_entry_name(#[trigger] names[i], anchor, separator),
    ensures
        names_in(joined(names, separator), separator) == names,
        valid_utf8(joined(names, separator)),
        names.len() > 0 ==> {
            let bytes = joined(names, separator);
            &&& names[0].is_prefix_of(bytes)
            &&& bytes.len() > names[0].len() ==> bytes[names[0].len() as int] == separator
        },
    decreases names.len(),
{
    if names.len() == 0 {
        assert(names_in(joined(names, separator), separator) =~= names);
    } else if names.len() == 1 {
        assert(is_entry_name(names[0], anchor, separator));
        one_part(names[0], separator);
        assert(seq![names[0]] =~= names);
        assert(names[0].subrange(0, names[0].len() as int) =~= names[0]);
    } else {
        let before = names.drop_last();
        assert forall|i: int| 0 <= i < before.len() implies is_entry_name(
            #[trigger] before[i],
            anchor,
            separator,
        ) by {
            assert(names[i] == before[i]);
        }
        names_are_read_back(before, anchor, separator);
        assert(is_entry_name(names[names.len() - 1], anchor, separator));
        let start = joined(before, separator);
        one_more_part(start, Seq::empty(), names.last(), separator);
        assert(before.push(names.last()) =~= names);
        let mark = seq![separator as char];
        encode_utf8_valid_utf8(mark);
        is_ascii_chars_encode_utf8(mark);
        assert(encode_utf8(mark) =~= seq![separator]);
        valid_utf8_concat(start, seq![separator]);
        assert(start + seq![separator] =~= start.push(separator));
        valid_utf8_concat(start.push(separator), names.last());
        let bytes = joined(names, separator);
        let n = names[0].len() as int;
        assert(bytes.subrange(0, n) =~= start.subrange(0, n));
    }
}

/// The text for names below the root is not taken for a whole path.
proof fn names_do_not_begin_with_the_anchor(
    names: Seq<Seq<u8>>,
    anchor: Seq<u8>,
    separator: u8,
)
    requires
        separator < 128,
        anchor.contains(separator),
        names.len() > 0,
        forall|i: int|
            0 <= i < names.len() ==> is_entry_name(#[trigger] names[i], anchor, separator),
    ensures
        !anchor.is_prefix_of(joined(names, separator)),
{
    names_are_read_back(names, anchor, separator);
    let bytes = joined(names, separator);
    let first = names[0];
    assert(is_entry_name(names[0], anchor, separator));
    if anchor.is_prefix_of(bytes) {
        let n = first.len() as int;
        if n < anchor.len() {
            assert(anchor[n] == bytes[n]);
            assert forall|i: int| 0 <= i < n implies anchor[i] == first[i] by {
                assert(anchor[i] == bytes[i]);
                assert(first[i] == bytes[i]);
            }
            assert(first.push(separator) =~= anchor.subrange(0, n + 1));
        } else {
            let k = anchor.index_of(separator);
            assert(anchor[k] == bytes[k]);
            assert(first[k] == bytes[k]);
            assert(first.contains(first[k]));
        }
    }
}

/// Whoever follows the text for an absolute path from the root comes to the path: the root itself
/// is shown as `.`, a path outside the root as a whole.
pub proof fn relative_text_leads_to_the_path(root: PathView, path: PathView, separator: u8)
    requires
        separator < 128,
        separator != 46,
        path.anchor.contains(separator),
        valid_utf8(path.anchor),
        forall|i: int|
            0 <= i < path.names.len() ==> is_entry_name(
                #[trigger] path.names[i],
                path.anchor,
                separator,
            ),
    ensures
        joined_to(root, relative_text(root, path, separator), path.anchor, separator) == path,
        path == root ==> relative_text(root, path, separator) == "."@,
        !path.is_within(root) ==> relative_text(root, path, separator) == path_text(
            path,
            separator,
        ),
{
    let text = relative_text(root, path, separator);
    let anchor = path.anchor;
    reveal_strlit(".");
    is_ascii_chars_encode_utf8("."@);
    assert(encode_utf8("."@) =~= seq![46u8]);
    let k = anchor.index_of(separator);
    if path == root {
    } else if path.is_within(root) {
        let names = path.names_from(root);
        assert forall|i: int| 0 <= i < names.len() implies is_entry_name(
            #[trigger] names[i],
            anchor,
            separator,
        ) by {
            assert(path.names[root.names.len() + i] == names[i]);
        }
        names_are_read_back(names, anchor, separator);
        let bytes = joined(names, separator);
        text_needs_no_mending(bytes);
        decode_utf8_encode_utf8(bytes);
        assert(root.below(names) =~= path);
        if names.len() == 0 {
            assert(path =~= root);
        }
        names_do_not_begin_with_the_anchor(names, anchor, separator);
        assert(is_entry_name(names[0], anchor, separator));
        if text == "."@ {
            one_part(seq![46u8], separator);
            assert(names[0] == seq![46u8]);
        }
    } else {
        names_are_read_back(path.names, anchor, separator);
        let rest = joined(path.names, separator);
        valid_utf8_concat(anchor, rest);
        text_needs_no_mending(anchor + rest);
        decode_utf8_encode_utf8(anchor + rest);
        assert((anchor + rest).skip(anchor.len() as int) =~= rest);
        assert((anchor + rest).subrange(0, anchor.len() as int) =~= anchor);
        if text == "."@ {
            assert((anchor + rest)[k] == separator);
        }
        assert(joined_to(root, text, anchor, separator) =~= path);
    }
}

} // verus!
