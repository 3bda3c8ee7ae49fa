//! Patterns for paths.
//!
//! In a pattern, `/` separates the names of a path. Within a name, `*` stands for any characters,
//! `?` for one character, and `[abc]`, `[a-z]` and `[^abc]` for one character of a set or not of
//! it. `**` in place of a name stands for any number of names, none included. `{a,b}` stands for
//! either of two or more texts, which may hold slashes and further braces. `*`, `?` and `**` do not
//! stand for the dot that a name begins with.

use vstd::prelude::*;

use crate::cli::texts_view;
use crate::text::{parts_from, same_text};

verus! {

/// Where `c` occurs in `s` at `from` or after; the end of `s` where it does not.
pub open spec fn next_of(s: Seq<char>, c: char, from: nat) -> nat
    decreases s.len() - from,
{
    if from >= s.len() {
        s.len()
    } else if s[from as int] == c {
        from
    } else {
        next_of(s, c, from + 1)
    }
}

/// Where the characters of a set that opens a pattern begin: after `[` or `[^`.
pub open spec fn set_start(pattern: Seq<char>) -> nat {
    if pattern.len() > 1 && pattern[1] == '^' {
        2
    } else {
        1
    }
}

/// Where a set that opens a pattern ends. A closing bracket that comes first is one of its
/// characters.
pub open spec fn set_end(pattern: Seq<char>) -> nat {
    next_of(pattern, ']', set_start(pattern) + 1)
}

/// Whether a pattern opens with a set. A bracket that is never closed stands for itself.
pub open spec fn opens_with_set(pattern: Seq<char>) -> bool {
    pattern.len() > 0 && pattern[0] == '[' && set_end(pattern) < pattern.len()
}

/// Whether a character is among those listed, one by one or from one to another.
pub open spec fn is_listed(list: Seq<char>, c: char) -> bool
    decreases list.len(),
{
    if list.len() == 0 {
        false
    } else if list.len() >= 3 && list[1] == '-' {
        list[0] <= c <= list[2] || is_listed(list.skip(3), c)
    } else {
        list[0] == c || is_listed(list.drop_first(), c)
    }
}

/// Whether the set that opens a pattern stands for a character.
pub open spec fn set_holds(pattern: Seq<char>, c: char) -> bool {
    let list = pattern.subrange(set_start(pattern) as int, set_end(pattern) as int);
    is_listed(list, c) == (set_start(pattern) == 1)
}

/// Whether a name matches a pattern for names, without regard to the dot it may begin with.
pub open spec fn name_matches(pattern: Seq<char>, name: Seq<char>) -> bool
    decreases pattern.len(), name.len(),
{
    if pattern.len() == 0 {
        name.len() == 0
    } else if pattern[0] == '*' {
        name_matches(pattern.drop_first(), name) || (name.len() > 0 && name_matches(
            pattern,
            name.drop_first(),
        ))
    } else if opens_with_set(pattern) {
        name.len() > 0 && set_holds(pattern, name[0]) && name_matches(
            pattern.skip(set_end(pattern) as int + 1),
            name.drop_first(),
        )
    } else {
        name.len() > 0 && (pattern[0] == '?' || name[0] == pattern[0]) && name_matches(
            pattern.drop_first(),
            name.drop_first(),
        )
    }
}

/// Whether a name begins with a dot.
pub open spec fn is_dotted(name: Seq<char>) -> bool {
    name.len() > 0 && name[0] == '.'
}

/// Whether a name matches one part of a pattern. A star or a question mark in front does not stand
/// for a dot.
pub open spec fn part_matches(part: Seq<char>, name: Seq<char>) -> bool {
    &&& is_dotted(name) && part.len() > 0 ==> part[0] != '*' && part[0] != '?'
    &&& name_matches(part, name)
}

/// Whether a path matches a pattern, name by name, where `**` stands for any number of names that
/// begin with no dot.
pub open spec fn path_matches(pattern: Seq<Seq<char>>, path: Seq<Seq<char>>) -> bool
    decreases pattern.len(), path.len(),
{
    if pattern.len() == 0 {
        path.len() == 0
    } else if pattern[0] == "**"@ {
        path_matches(pattern.drop_first(), path) || (path.len() > 0 && !is_dotted(path[0])
            && path_matches(pattern, path.drop_first()))
    } else {
        path.len() > 0 && part_matches(pattern[0], path[0]) && path_matches(
            pattern.drop_first(),
            path.drop_first(),
        )
    }
}

/// The parts of a pattern between its slashes; empty parts do not count.
pub open spec fn parts_of(pattern: Seq<char>) -> Seq<Seq<char>> {
    parts_from(pattern, Seq::empty(), '/')
}

/// Where the brace that was opened before `from` is closed, with `depth` further ones open; the
/// end of the pattern where it is not.
pub open spec fn group_close(p: Seq<char>, from: nat, depth: nat) -> nat
    decreases p.len() - from,
{
    if from >= p.len() {
        p.len()
    } else if p[from as int] == '{' {
        group_close(p, from + 1, depth + 1)
    } else if p[from as int] == '}' {
        if depth == 0 {
            from
        } else {
            group_close(p, from + 1, (depth - 1) as nat)
        }
    } else {
        group_close(p, from + 1, depth)
    }
}

/// Where the next comma outside of inner braces is, before `close`; `close` where there is none.
pub open spec fn group_comma(p: Seq<char>, from: nat, close: nat, depth: nat) -> nat
    decreases close - from,
{
    if from >= close {
        close
    } else if p[from as int] == '{' {
        group_comma(p, from + 1, close, depth + 1)
    } else if p[from as int] == '}' {
        group_comma(
            p,
            from + 1,
            close,
            if depth == 0 {
                0
            } else {
                (depth - 1) as nat
            },
        )
    } else if p[from as int] == ',' && depth == 0 {
        from
    } else {
        group_comma(p, from + 1, close, depth)
    }
}

/// Where the braces opened at `i` are closed.
pub open spec fn close_of(p: Seq<char>, i: nat) -> nat {
    group_close(p, i + 1, 0)
}

/// Where the first text in the braces opened at `i` ends.
pub open spec fn comma_of(p: Seq<char>, i: nat) -> nat {
    group_comma(p, i + 1, close_of(p, i), 0)
}

/// Whether braces are opened at `i` that hold two texts or more. Others stand for themselves.
pub open spec fn is_group(p: Seq<char>, i: nat) -> bool {
    i < p.len() && p[i as int] == '{' && comma_of(p, i) < close_of(p, i) < p.len()
}

/// Where the first such braces at `from` or after are opened; the end where there are none.
pub open spec fn first_group(p: Seq<char>, from: nat) -> nat
    decreases p.len() - from,
{
    if from >= p.len() {
        p.len()
    } else if is_group(p, from) {
        from
    } else {
        first_group(p, from + 1)
    }
}

/// The pattern with the first text in place of the braces opened at `i`.
pub open spec fn first_choice(p: Seq<char>, i: nat) -> Seq<char> {
    p.take(i as int) + p.subrange(i as int + 1, comma_of(p, i) as int) + p.skip(
        close_of(p, i) as int + 1,
    )
}

/// The pattern without the first text in the braces opened at `i`; where one text is left, it
/// stands in place of the braces.
pub open spec fn other_choices(p: Seq<char>, i: nat) -> Seq<char> {
    let close = close_of(p, i);
    let rest = p.subrange(comma_of(p, i) as int + 1, close as int);
    if group_comma(p, comma_of(p, i) + 1, close, 0) < close {
        p.take(i as int) + seq!['{'] + rest + seq!['}'] + p.skip(close as int + 1)
    } else {
        p.take(i as int) + rest + p.skip(close as int + 1)
    }
}

proof fn comma_is_inside(p: Seq<char>, from: nat, close: nat, depth: nat)
    requires
        from <= close,
    ensures
        from <= group_comma(p, from, close, depth) <= close,
    decreases close - from,
{
    if from < close {
        comma_is_inside(p, from + 1, close, depth + 1);
        comma_is_inside(p, from + 1, close, depth);
        if depth > 0 {
            comma_is_inside(p, from + 1, close, (depth - 1) as nat);
        }
    }
}

proof fn close_is_behind(p: Seq<char>, from: nat, depth: nat)
    ensures
        from <= p.len() ==> from <= group_close(p, from, depth) <= p.len(),
    decreases p.len() - from,
{
    if from < p.len() {
        close_is_behind(p, from + 1, depth + 1);
        close_is_behind(p, from + 1, depth);
        if depth > 0 {
            close_is_behind(p, from + 1, (depth - 1) as nat);
        }
    }
}

proof fn first_group_is_a_group(p: Seq<char>, from: nat)
    ensures
        first_group(p, from) < p.len() ==> is_group(p, first_group(p, from)),
        first_group(p, from) <= p.len(),
    decreases p.len() - from,
{
    if from < p.len() && !is_group(p, from) {
        first_group_is_a_group(p, from + 1);
    }
}

/// The choices among the first braces of a pattern are shorter than the pattern.
pub proof fn choices_are_shorter(p: Seq<char>)
    ensures
        ({
            let i = first_group(p, 0);
            i < p.len() ==> {
                &&& i < comma_of(p, i) < close_of(p, i) < p.len()
                &&& first_choice(p, i).len() < p.len()
                &&& other_choices(p, i).len() < p.len()
            }
        }),
{
    let i = first_group(p, 0);
    first_group_is_a_group(p, 0);
    if i < p.len() {
        close_is_behind(p, i + 1, 0);
        comma_is_inside(p, i + 1, close_of(p, i), 0);
    }
}

/// The patterns without such braces that a pattern stands for.
pub open spec fn expansions(p: Seq<char>) -> Seq<Seq<char>>
    decreases p.len(),
{
    let i = first_group(p, 0);
    if i >= p.len() {
        seq![p]
    } else {
        proof {
            choices_are_shorter(p);
        }
        expansions(first_choice(p, i)) + expansions(other_choices(p, i))
    }
}

/// What a pattern means: its parts, once for each choice among its braces. `./` in front counts
/// for nothing.
pub open spec fn pattern_parts(pattern: Seq<char>) -> Seq<Seq<Seq<char>>> {
    let start = if pattern.len() >= 2 && pattern[0] == '.' && pattern[1] == '/' {
        pattern.skip(2)
    } else {
        pattern
    };
    expansions(start).map_values(|p: Seq<char>| parts_of(p))
}

fn next_in(s: &Vec<char>, base: usize, c: char, from: usize) -> (at: usize)
    requires
        base <= from,
        base <= s@.len(),
    ensures
        at - base == next_of(s@.skip(base as int), c, (from - base) as nat),
        base <= at,
        from <= s@.len() ==> from <= at <= s@.len(),
{
    let ghost tail = s@.skip(base as int);
    let mut i: usize = from;
    while i < s.len() && s[i] != c
        invariant
            base <= from <= i,
            base <= s@.len(),
            from <= s@.len() ==> i <= s@.len(),
            tail == s@.skip(base as int),
            next_of(tail, c, (from - base) as nat) == next_of(tail, c, (i - base) as nat),
        decreases s@.len() - i,
    {
        i += 1;
    }
    if i < s.len() {
        i
    } else {
        s.len()
    }
}

fn listed(s: &Vec<char>, lo: usize, hi: usize, c: char) -> (found: bool)
    requires
        lo <= hi <= s@.len(),
    ensures
        found == is_listed(s@.subrange(lo as int, hi as int), c),
{
    let ghost all = s@.subrange(lo as int, hi as int);
    let mut i: usize = lo;
    while i < hi
        invariant
            lo <= i <= hi <= s@.len(),
            all == s@.subrange(lo as int, hi as int),
            is_listed(all, c) == is_listed(s@.subrange(i as int, hi as int), c),
        decreases hi - i,
    {
        let ghost rest = s@.subrange(i as int, hi as int);
        if hi - i >= 3 && s[i + 1] == '-' {
            assert(rest.skip(3) =~= s@.subrange(i + 3, hi as int));
            if s[i] <= c && c <= s[i + 2] {
                return true;
            }
            i += 3;
        } else {
            assert(rest.drop_first() =~= s@.subrange(i + 1, hi as int));
            if s[i] == c {
                return true;
            }
            i += 1;
        }
    }
    false
}

fn name_fits(pattern: &Vec<char>, name: &Vec<char>, i: usize, j: usize) -> (fits: bool)
    requires
        i <= pattern@.len(),
        j <= name@.len(),
    ensures
        fits == name_matches(pattern@.skip(i as int), name@.skip(j as int)),
    decreases pattern@.len() - i, name@.len() - j,
{
    let ghost p = pattern@.skip(i as int);
    let ghost n = name@.skip(j as int);
    proof {
        if p.len() > 0 {
            assert(p.drop_first() =~= pattern@.skip(i + 1));
        }
        if n.len() > 0 {
            assert(n.drop_first() =~= name@.skip(j + 1));
        }
    }
    if i == pattern.len() {
        return j == name.len();
    }
    if pattern[i] == '*' {
        return name_fits(pattern, name, i + 1, j) || (j < name.len() && name_fits(
            pattern,
            name,
            i,
            j + 1,
        ));
    }
    if pattern[i] == '[' && pattern.len() - i > 2 {
        let negated = pattern[i + 1] == '^';
        let start: usize = if negated {
            i + 2
        } else {
            i + 1
        };
        let end: usize = next_in(pattern, i, ']', start + 1);
        assert(end - i == set_end(p));
        if end < pattern.len() {
            assert(opens_with_set(p));
            assert(p.subrange(set_start(p) as int, set_end(p) as int) =~= pattern@.subrange(
                start as int,
                end as int,
            ));
            assert(p.skip(set_end(p) as int + 1) =~= pattern@.skip(end + 1));
            return j < name.len() && listed(pattern, start, end, name[j]) != negated && name_fits(
                pattern,
                name,
                end + 1,
                j + 1,
            );
        }
    }
    assert(!opens_with_set(p)) by {
        if p.len() <= 2 {
            assert(set_end(p) == p.len());
        }
    }
    j < name.len() && (pattern[i] == '?' || name[j] == pattern[i]) && name_fits(
        pattern,
        name,
        i + 1,
        j + 1,
    )
}

pub(crate) fn chars_of(text: &str) -> (chars: Vec<char>)
    ensures
        chars@ == text@,
{
    let mut chars: Vec<char> = Vec::new();
    for c in read: text.chars()
        invariant
            read.seq() == text@,
            chars@ == text@.take(read.index() as int),
    {
        chars.push(c);
        assert(text@.take(read.index() + 1) =~= text@.take(read.index() as int).push(c));
    }
    assert(text@.take(text@.len() as int) =~= text@);
    chars
}

fn part_fits(part: &str, name: &str) -> (fits: bool)
    ensures
        fits == part_matches(part@, name@),
{
    let pattern = chars_of(part);
    let name = chars_of(name);
    if name.len() > 0 && name[0] == '.' && pattern.len() > 0 && (pattern[0] == '*' || pattern[0]
        == '?') {
        return false;
    }
    assert(pattern@.skip(0) =~= pattern@);
    assert(name@.skip(0) =~= name@);
    name_fits(&pattern, &name, 0, 0)
}

fn has_dot(name: &str) -> (dot: bool)
    ensures
        dot == is_dotted(name@),
{
    !name.is_empty() && name.get_char(0) == '.'
}

/// Whether the path from number `j` on matches the parts from number `i` on.
pub(crate) fn path_fits(parts: &Vec<String>, path: &Vec<String>, i: usize, j: usize) -> (fits: bool)
    requires
        i <= parts@.len(),
        j <= path@.len(),
    ensures
        fits == path_matches(
            texts_view(parts@).skip(i as int),
            texts_view(path@).skip(j as int),
        ),
    decreases parts@.len() - i, path@.len() - j,
{
    let ghost p = texts_view(parts@).skip(i as int);
    let ghost n = texts_view(path@).skip(j as int);
    proof {
        if p.len() > 0 {
            assert(p.drop_first() =~= texts_view(parts@).skip(i + 1));
        }
        if n.len() > 0 {
            assert(n.drop_first() =~= texts_view(path@).skip(j + 1));
        }
    }
    if i == parts.len() {
        return j == path.len();
    }
    if same_text(parts[i].as_str(), "**") {
        return path_fits(parts, path, i + 1, j) || (j < path.len() && !has_dot(path[j].as_str())
            && path_fits(parts, path, i, j + 1));
    }
    j < path.len() && part_fits(parts[i].as_str(), path[j].as_str()) && path_fits(
        parts,
        path,
        i + 1,
        j + 1,
    )
}

fn text_of(chars: &Vec<char>) -> (text: String)
    ensures
        text@ == chars@,
{
    let mut text = String::new();
    let mut i: usize = 0;
    while i < chars.len()
        invariant
            i <= chars@.len(),
            text@ == chars@.take(i as int),
        decreases chars@.len() - i,
    {
        text.push(chars[i]);
        assert(chars@.take(i + 1) =~= chars@.take(i as int).push(chars@[i as int]));
        i += 1;
    }
    assert(chars@.take(chars@.len() as int) =~= chars@);
    text
}

fn split_parts(pattern: &Vec<char>) -> (parts: Vec<String>)
    ensures
        texts_view(parts@) == parts_of(pattern@),
{
    let ghost all = parts_of(pattern@);
    let mut parts: Vec<String> = Vec::new();
    let mut part: Vec<char> = Vec::new();
    let mut i: usize = 0;
    assert(texts_view(parts@) =~= Seq::empty());
    assert(pattern@.skip(0) =~= pattern@);
    assert(all =~= texts_view(parts@) + parts_from(pattern@.skip(i as int), part@, '/'));
    while i < pattern.len()
        invariant
            i <= pattern@.len(),
            all == texts_view(parts@) + parts_from(pattern@.skip(i as int), part@, '/'),
        decreases pattern@.len() - i,
    {
        let ghost rest = pattern@.skip(i as int);
        let ghost before = parts@;
        assert(rest.drop_first() =~= pattern@.skip(i + 1));
        if pattern[i] == '/' {
            if part.len() > 0 {
                parts.push(text_of(&part));
                assert(texts_view(parts@) =~= texts_view(before).push(part@));
                part = Vec::new();
            }
            assert(part@ =~= Seq::empty());
            assert(texts_view(parts@) + parts_from(rest.drop_first(), part@, '/') =~= all);
        } else {
            part.push(pattern[i]);
        }
        i += 1;
    }
    let ghost before = parts@;
    if part.len() > 0 {
        parts.push(text_of(&part));
        assert(texts_view(parts@) =~= texts_view(before).push(part@));
    }
    assert(texts_view(parts@) =~= all);
    parts
}

fn find_close(p: &Vec<char>, from: usize) -> (close: usize)
    requires
        from <= p@.len(),
    ensures
        close == group_close(p@, from as nat, 0),
        from <= close <= p@.len(),
{
    let mut depth: usize = 0;
    let mut i: usize = from;
    while i < p.len()
        invariant
            from <= i <= p@.len(),
            depth <= i,
            group_close(p@, from as nat, 0) == group_close(p@, i as nat, depth as nat),
        decreases p@.len() - i,
    {
        if p[i] == '{' {
            depth += 1;
        } else if p[i] == '}' {
            if depth == 0 {
                return i;
            }
            depth -= 1;
        }
        i += 1;
    }
    i
}

fn find_comma(p: &Vec<char>, from: usize, close: usize) -> (comma: usize)
    requires
        from <= close <= p@.len(),
    ensures
        comma == group_comma(p@, from as nat, close as nat, 0),
        from <= comma <= close,
{
    let mut depth: usize = 0;
    let mut i: usize = from;
    while i < close
        invariant
            from <= i <= close <= p@.len(),
            depth <= i,
            group_comma(p@, from as nat, close as nat, 0) == group_comma(
                p@,
                i as nat,
                close as nat,
                depth as nat,
            ),
        decreases close - i,
    {
        if p[i] == '{' {
            depth += 1;
        } else if p[i] == '}' {
            if depth > 0 {
                depth -= 1;
            }
        } else if p[i] == ',' && depth == 0 {
            return i;
        }
        i += 1;
    }
    i
}

fn find_group(p: &Vec<char>) -> (at: usize)
    ensures
        at == first_group(p@, 0),
        at <= p@.len(),
{
    let mut i: usize = 0;
    while i < p.len()
        invariant
            i <= p@.len(),
            first_group(p@, 0) == first_group(p@, i as nat),
        decreases p@.len() - i,
    {
        if p[i] == '{' {
            let close: usize = find_close(p, i + 1);
            if close < p.len() && find_comma(p, i + 1, close) < close {
                return i;
            }
        }
        i += 1;
    }
    i
}

fn push_range(out: &mut Vec<char>, p: &Vec<char>, lo: usize, hi: usize)
    requires
        lo <= hi <= p@.len(),
    ensures
        final(out)@ == old(out)@ + p@.subrange(lo as int, hi as int),
{
    let ghost before = out@;
    let mut i: usize = lo;
    assert(out@ =~= before + p@.subrange(lo as int, lo as int));
    while i < hi
        invariant
            lo <= i <= hi <= p@.len(),
            out@ == before + p@.subrange(lo as int, i as int),
        decreases hi - i,
    {
        out.push(p[i]);
        assert(out@ =~= before + p@.subrange(lo as int, i + 1));
        i += 1;
    }
}

/// The values of a list of character lists.
spec fn chars_view(lists: Seq<Vec<char>>) -> Seq<Seq<char>> {
    lists.map_values(|chars: Vec<char>| chars@)
}

fn expand(p: Vec<char>) -> (patterns: Vec<Vec<char>>)
    ensures
        chars_view(patterns@) == expansions(p@),
    decreases p@.len(),
{
    let i: usize = find_group(&p);
    if i == p.len() {
        let ghost whole = p@;
        let mut patterns: Vec<Vec<char>> = Vec::new();
        patterns.push(p);
        assert(chars_view(patterns@) =~= seq![whole]);
        return patterns;
    }
    proof {
        choices_are_shorter(p@);
    }
    let close: usize = find_close(&p, i + 1);
    let comma: usize = find_comma(&p, i + 1, close);
    let more = find_comma(&p, comma + 1, close) < close;
    let mut first: Vec<char> = Vec::new();
    push_range(&mut first, &p, 0, i);
    push_range(&mut first, &p, i + 1, comma);
    push_range(&mut first, &p, close + 1, p.len());
    assert(first@ =~= first_choice(p@, i as nat));
    let mut other: Vec<char> = Vec::new();
    push_range(&mut other, &p, 0, i);
    if more {
        other.push('{');
    }
    push_range(&mut other, &p, comma + 1, close);
    if more {
        other.push('}');
    }
    push_range(&mut other, &p, close + 1, p.len());
    assert(other@ =~= other_choices(p@, i as nat));
    let mut patterns = expand(first);
    let mut others = expand(other);
    let ghost a = patterns@;
    let ghost b = others@;
    patterns.append(&mut others);
    assert(chars_view(patterns@) =~= chars_view(a) + chars_view(b));
    patterns
}

/// The values of the parts of several patterns.
pub open spec fn parts_view(patterns: Seq<Vec<String>>) -> Seq<Seq<Seq<char>>> {
    patterns.map_values(|parts: Vec<String>| texts_view(parts@))
}

/// Takes the pattern from the character number `start` on apart.
pub(crate) fn take_apart(pattern: &Vec<char>, start: usize) -> (patterns: Vec<Vec<String>>)
    requires
        start <= pattern@.len(),
    ensures
        parts_view(patterns@) == pattern_parts(pattern@.skip(start as int)),
{
    let ghost whole = pattern@.skip(start as int);
    let from: usize = if pattern.len() - start >= 2 && pattern[start] == '.' && pattern[start + 1]
        == '/' {
        start + 2
    } else {
        start
    };
    let mut body: Vec<char> = Vec::new();
    push_range(&mut body, pattern, from, pattern.len());
    proof {
        assert(body@ =~= pattern@.skip(from as int));
        if whole.len() >= 2 {
            assert(whole.skip(2) =~= pattern@.skip(start + 2));
        }
    }
    let plain = expand(body);
    let ghost all = pattern_parts(whole);
    assert(all == chars_view(plain@).map_values(|p: Seq<char>| parts_of(p)));
    let mut patterns: Vec<Vec<String>> = Vec::new();
    let mut i: usize = 0;
    while i < plain.len()
        invariant
            i <= plain@.len(),
            all == chars_view(plain@).map_values(|p: Seq<char>| parts_of(p)),
            parts_view(patterns@) == all.take(i as int),
        decreases plain@.len() - i,
    {
        let ghost before = patterns@;
        patterns.push(split_parts(&plain[i]));
        proof {
            assert(all.take(i + 1) =~= all.take(i as int).push(all[i as int]));
            assert(parts_view(patterns@) =~= parts_view(before).push(all[i as int]));
        }
        i += 1;
    }
    assert(all.take(plain@.len() as int) =~= all);
    patterns
}

proof fn star_matches_any_name(name: Seq<char>)
    ensures
        name_matches("*"@, name),
    decreases name.len(),
{
    reveal_with_fuel(name_matches, 3);
    reveal_strlit("*");
    assert("*"@[0] == '*');
    assert("*"@.drop_first() =~= Seq::empty());
    if name.len() > 0 {
        star_matches_any_name(name.drop_first());
    }
}

/// Whether a pattern for names has none of the characters that stand for others.
pub open spec fn is_literal(pattern: Seq<char>) -> bool {
    forall|i: int|
        0 <= i < pattern.len() ==> #[trigger] pattern[i] != '*' && pattern[i] != '?' && pattern[i]
            != '['
}

/// A pattern for names without a star, a question mark or a bracket matches only itself.
pub proof fn literal_name_matches_itself(pattern: Seq<char>, name: Seq<char>)
    requires
        is_literal(pattern),
    ensures
        name_matches(pattern, name) <==> name == pattern,
        part_matches(pattern, name) <==> name == pattern,
    decreases pattern.len(),
{
    if pattern.len() == 0 {
        assert(name.len() == 0 ==> name =~= pattern);
    } else {
        assert(pattern[0] != '*' && pattern[0] != '[');
        if name.len() > 0 {
            let rest = pattern.drop_first();
            assert forall|i: int| 0 <= i < rest.len() implies #[trigger] rest[i] != '*' && rest[i]
                != '?' && rest[i] != '[' by {
                assert(pattern[i + 1] == rest[i]);
            }
            literal_name_matches_itself(rest, name.drop_first());
            if name[0] == pattern[0] && name.drop_first() == rest {
                assert(name =~= seq![name[0]] + name.drop_first());
                assert(pattern =~= seq![pattern[0]] + rest);
            }
        }
    }
}

/// A question mark stands for exactly one character.
pub proof fn question_mark_stands_for_one_character(rest: Seq<char>, name: Seq<char>)
    ensures
        name_matches(seq!['?'] + rest, name) <==> name.len() > 0 && name_matches(
            rest,
            name.drop_first(),
        ),
{
    assert((seq!['?'] + rest).drop_first() =~= rest);
}

proof fn next_is_there(s: Seq<char>, c: char, from: nat, at: nat)
    requires
        from <= at < s.len(),
        s[at as int] == c,
        forall|i: int| from <= i < at ==> s[i] != c,
    ensures
        next_of(s, c, from) == at,
    decreases at - from,
{
    if from < at {
        next_is_there(s, c, from + 1, at);
    }
}

proof fn listed_one_by_one(list: Seq<char>, c: char)
    requires
        !list.contains('-'),
    ensures
        is_listed(list, c) <==> list.contains(c),
    decreases list.len(),
{
    if list.len() > 0 {
        let rest = list.drop_first();
        assert forall|i: int| 0 <= i < rest.len() implies rest[i] != '-' by {
            assert(list.contains(list[i + 1]));
        }
        listed_one_by_one(rest, c);
        if list.len() >= 3 {
            assert(list.contains(list[1]));
        }
        if list.contains(c) {
            let k = list.index_of(c);
            if k > 0 {
                assert(rest[k - 1] == c);
            }
        }
        if rest.contains(c) {
            let k = rest.index_of(c);
            assert(list[k + 1] == c);
        }
    }
}

/// Characters in brackets stand for one of them; behind a `^`, for one that is none of them.
pub proof fn brackets_stand_for_one_character(
    list: Seq<char>,
    rest: Seq<char>,
    name: Seq<char>,
)
    requires
        list.len() > 0,
        !list.contains('-'),
        !list.contains(']'),
        list[0] != '^',
    ensures
        name_matches(seq!['['] + list + seq![']'] + rest, name) <==> name.len() > 0
            && list.contains(name[0]) && name_matches(rest, name.drop_first()),
        name_matches(seq!['[', '^'] + list + seq![']'] + rest, name) <==> name.len() > 0
            && !list.contains(name[0]) && name_matches(rest, name.drop_first()),
{
    let plain = seq!['['] + list + seq![']'] + rest;
    let n = list.len();
    assert forall|i: int| 2 <= i < n + 1 implies plain[i] != ']' by {
        assert(list.contains(list[i - 1]));
    }
    assert(plain[1] == list[0]);
    next_is_there(plain, ']', 2, n + 1);
    assert(plain.subrange(1, n as int + 1) =~= list);
    assert(plain.skip(n as int + 2) =~= rest);
    let other = seq!['[', '^'] + list + seq![']'] + rest;
    assert forall|i: int| 3 <= i < n + 2 implies other[i] != ']' by {
        assert(list.contains(list[i - 2]));
    }
    assert(other[1] == '^');
    next_is_there(other, ']', 3, n + 2);
    assert(other.subrange(2, n as int + 2) =~= list);
    assert(other.skip(n as int + 3) =~= rest);
    if name.len() > 0 {
        listed_one_by_one(list, name[0]);
    }
}

/// A star or a question mark does not stand for the dot that a name begins with.
pub proof fn dotted_names_must_be_named(part: Seq<char>, name: Seq<char>)
    requires
        is_dotted(name),
        part_matches(part, name),
    ensures
        part[0] == '.' || opens_with_set(part),
{
}

/// A star at the end of a pattern stands for exactly one more name, which begins with no dot:
/// `packages/*` matches `packages/a`, but neither `packages` nor `packages/a/b`.
pub proof fn star_stands_for_one_name(pattern: Seq<Seq<char>>, path: Seq<Seq<char>>)
    ensures
        path_matches(pattern.push("*"@), path) <==> path.len() > 0 && !is_dotted(path.last())
            && path_matches(pattern, path.drop_last()),
    decreases pattern.len(), path.len(),
{
    reveal_with_fuel(path_matches, 3);
    let longer = pattern.push("*"@);
    reveal_strlit("*");
    reveal_strlit("**");
    assert("*"@.len() != "**"@.len());
    assert("*"@[0] == '*');
    if pattern.len() == 0 {
        assert(longer.drop_first() =~= Seq::empty());
        if path.len() > 0 {
            star_matches_any_name(path[0]);
            assert(path.drop_first().len() == 0 <==> path.drop_last().len() == 0);
        }
    } else {
        assert(longer.drop_first() =~= pattern.drop_first().push("*"@));
        star_stands_for_one_name(pattern.drop_first(), path);
        if path.len() > 0 {
            let rest = path.drop_first();
            star_stands_for_one_name(pattern, rest);
            star_stands_for_one_name(pattern.drop_first(), rest);
            if path.len() > 1 {
                assert(rest.drop_last() =~= path.drop_last().drop_first());
            }
        }
    }
}

/// Whether no name of a path begins with a dot.
pub open spec fn is_undotted(path: Seq<Seq<char>>) -> bool {
    forall|i: int| 0 <= i < path.len() ==> !is_dotted(#[trigger] path[i])
}

/// Whether a pattern matches the first `k` names of a path, and no name after them begins with a
/// dot.
pub open spec fn matches_down_to(pattern: Seq<Seq<char>>, path: Seq<Seq<char>>, k: int) -> bool {
    0 <= k <= path.len() && path_matches(pattern, path.take(k)) && is_undotted(path.skip(k))
}

proof fn matches_one_further_down(
    pattern: Seq<Seq<char>>,
    inner: Seq<Seq<char>>,
    path: Seq<Seq<char>>,
    k: int,
)
    requires
        path.len() > 0,
        pattern.len() > 0,
        matches_down_to(inner, path.drop_first(), k),
        pattern[0] == "**"@ ==> inner == pattern && !is_dotted(path[0]),
        pattern[0] != "**"@ ==> inner == pattern.drop_first() && part_matches(
            pattern[0],
            path[0],
        ),
    ensures
        matches_down_to(pattern, path, k + 1),
{
    assert(path.take(k + 1).drop_first() =~= path.drop_first().take(k));
    assert(path.take(k + 1)[0] == path[0]);
    assert(path.skip(k + 1) =~= path.drop_first().skip(k));
}

/// Two stars at the end of a pattern stand for any number of names, none included, that begin with
/// no dot: `components/**` matches `components` and everything beneath it.
pub proof fn trailing_stars_match_everything_beneath(
    pattern: Seq<Seq<char>>,
    path: Seq<Seq<char>>,
)
    ensures
        path_matches(pattern.push("**"@), path) <==> exists|k: int|
            #[trigger] matches_down_to(pattern, path, k),
    decreases pattern.len(), path.len(),
{
    reveal_with_fuel(path_matches, 3);
    let longer = pattern.push("**"@);
    if pattern.len() == 0 {
        assert(longer.drop_first() =~= Seq::empty());
        assert(path.take(0).len() == 0);
        assert(path.skip(0) =~= path);
        if path.len() > 0 {
            let rest = path.drop_first();
            trailing_stars_match_everything_beneath(pattern, rest);
            assert(rest.skip(0) =~= rest);
            assert(path_matches(longer, path) <==> !is_dotted(path[0]) && path_matches(
                longer,
                rest,
            ));
            if path_matches(longer, path) {
                let k = choose|k: int| #[trigger] matches_down_to(pattern, rest, k);
                assert(rest.take(k).len() == 0);
                assert(k == 0);
                assert forall|i: int| 0 <= i < path.len() implies !is_dotted(
                    #[trigger] path[i],
                ) by {
                    if i > 0 {
                        assert(rest.skip(0)[i - 1] == path[i]);
                    }
                }
                assert(matches_down_to(pattern, path, 0));
            }
            if exists|k: int| #[trigger] matches_down_to(pattern, path, k) {
                let k = choose|k: int| #[trigger] matches_down_to(pattern, path, k);
                assert(path.take(k).len() == 0);
                assert(k == 0);
                assert(!is_dotted(path.skip(0)[0]));
                assert forall|i: int| 0 <= i < rest.len() implies !is_dotted(
                    #[trigger] rest[i],
                ) by {
                    assert(path.skip(0)[i + 1] == rest[i]);
                }
                assert(rest.take(0).len() == 0);
                assert(matches_down_to(pattern, rest, 0));
            }
        } else {
            assert(matches_down_to(pattern, path, 0));
        }
    } else {
        assert(longer.drop_first() =~= pattern.drop_first().push("**"@));
        let shorter = pattern.drop_first();
        trailing_stars_match_everything_beneath(shorter, path);
        if path.len() > 0 {
            trailing_stars_match_everything_beneath(pattern, path.drop_first());
            trailing_stars_match_everything_beneath(shorter, path.drop_first());
        }
        if path_matches(longer, path) {
            if pattern[0] == "**"@ && path_matches(shorter.push("**"@), path) {
                let k = choose|k: int| #[trigger] matches_down_to(shorter, path, k);
                assert(matches_down_to(pattern, path, k));
            } else {
                let inner = if pattern[0] == "**"@ {
                    pattern
                } else {
                    shorter
                };
                let k = choose|k: int| #[trigger] matches_down_to(inner, path.drop_first(), k);
                matches_one_further_down(pattern, inner, path, k);
            }
        }
        if exists|k: int| #[trigger] matches_down_to(pattern, path, k) {
            let k = choose|k: int| #[trigger] matches_down_to(pattern, path, k);
            let part = path.take(k);
            if pattern[0] == "**"@ && path_matches(shorter, part) {
                assert(matches_down_to(shorter, path, k));
            } else {
                let rest = path.drop_first();
                assert(part.drop_first() =~= rest.take(k - 1));
                assert(part[0] == path[0]);
                assert(rest.skip(k - 1) =~= path.skip(k));
                let inner = if pattern[0] == "**"@ {
                    pattern
                } else {
                    shorter
                };
                assert(matches_down_to(inner, rest, k - 1));
            }
        }
    }
}

/// Whether the name number `i` of a path is `name`, and no other name of the path begins with a
/// dot.
pub open spec fn occurs_at(name: Seq<char>, path: Seq<Seq<char>>, i: int) -> bool {
    0 <= i < path.len() && path[i] == name && is_undotted(path.take(i)) && is_undotted(
        path.skip(i + 1),
    )
}

/// A name between two pairs of stars matches every path on which it occurs: `**/test/**` matches
/// every directory named `test` and everything beneath one, as long as no other name on the path
/// begins with a dot.
pub proof fn stars_around_a_name_match_where_it_occurs(name: Seq<char>, path: Seq<Seq<char>>)
    requires
        is_literal(name),
    ensures
        path_matches(seq!["**"@, name, "**"@], path) <==> exists|i: int|
            #[trigger] occurs_at(name, path, i),
    decreases path.len(),
{
    reveal_with_fuel(path_matches, 3);
    reveal_strlit("**");
    let pattern = seq!["**"@, name, "**"@];
    let inner = seq![name, "**"@];
    assert(pattern.drop_first() =~= inner);
    assert("**"@[0] == '*');
    assert(name != "**"@);
    if path.len() > 0 {
        let rest = path.drop_first();
        stars_around_a_name_match_where_it_occurs(name, rest);
        literal_name_matches_itself(name, path[0]);
        let tail = Seq::<Seq<char>>::empty().push("**"@);
        assert(inner.drop_first() =~= tail);
        trailing_stars_match_everything_beneath(Seq::empty(), rest);
        assert(path_matches(tail, rest) <==> is_undotted(rest)) by {
            if path_matches(tail, rest) {
                let k = choose|k: int| #[trigger] matches_down_to(Seq::empty(), rest, k);
                assert(rest.take(k).len() == 0);
                assert(rest.skip(0) =~= rest);
            }
            if is_undotted(rest) {
                assert(rest.skip(0) =~= rest);
                assert(rest.take(0).len() == 0);
                assert(matches_down_to(Seq::empty(), rest, 0));
            }
        }
        assert(path_matches(inner, path) <==> path[0] == name && is_undotted(rest));
        assert(path.skip(1) =~= rest);
        assert(path_matches(inner, path) <==> occurs_at(name, path, 0)) by {
            assert(is_undotted(path.take(0)));
        }
        assert forall|i: int| 0 < i < path.len() implies (occurs_at(name, path, i) <==> !is_dotted(
            path[0],
        ) && #[trigger] occurs_at(name, rest, i - 1)) by {
            assert(path.skip(i + 1) =~= rest.skip(i - 1 + 1));
            assert(rest[i - 1] == path[i]);
            if is_undotted(path.take(i)) {
                assert(!is_dotted(path.take(i)[0]));
                assert forall|j: int| 0 <= j < i - 1 implies !is_dotted(
                    #[trigger] rest.take(i - 1)[j],
                ) by {
                    assert(path.take(i)[j + 1] == rest.take(i - 1)[j]);
                }
            }
            if !is_dotted(path[0]) && is_undotted(rest.take(i - 1)) {
                assert forall|j: int| 0 <= j < i implies !is_dotted(
                    #[trigger] path.take(i)[j],
                ) by {
                    if j > 0 {
                        assert(rest.take(i - 1)[j - 1] == path.take(i)[j]);
                    }
                }
            }
        }
        if exists|i: int| #[trigger] occurs_at(name, path, i) {
            let i = choose|i: int| #[trigger] occurs_at(name, path, i);
            if i > 0 {
                assert(occurs_at(name, rest, i - 1));
            }
        }
        if !is_dotted(path[0]) && exists|i: int| #[trigger] occurs_at(name, rest, i) {
            let i = choose|i: int| #[trigger] occurs_at(name, rest, i);
            assert(occurs_at(name, rest, (i + 1) - 1));
            assert(occurs_at(name, path, i + 1));
        }
    }
}

/// `./` in front of a pattern counts for nothing.
pub proof fn dot_slash_in_front_counts_for_nothing(pattern: Seq<char>)
    requires
        !(pattern.len() >= 2 && pattern[0] == '.' && pattern[1] == '/'),
    ensures
        pattern_parts(seq!['.', '/'] + pattern) == pattern_parts(pattern),
{
    assert((seq!['.', '/'] + pattern).skip(2) =~= pattern);
}

/// Whether a text has neither braces nor commas.
pub open spec fn is_braceless(text: Seq<char>) -> bool {
    forall|i: int|
        0 <= i < text.len() ==> #[trigger] text[i] != '{' && text[i] != '}' && text[i] != ','
}

proof fn close_is_there(p: Seq<char>, from: nat, at: nat)
    requires
        from <= at < p.len(),
        p[at as int] == '}',
        forall|i: int| from <= i < at ==> p[i] != '{' && p[i] != '}',
    ensures
        group_close(p, from, 0) == at,
    decreases at - from,
{
    if from < at {
        close_is_there(p, from + 1, at);
    }
}

proof fn comma_is_there(p: Seq<char>, from: nat, at: nat, close: nat)
    requires
        from <= at <= close < p.len(),
        at < close ==> p[at as int] == ',',
        forall|i: int| from <= i < at ==> p[i] != '{' && p[i] != '}' && p[i] != ',',
    ensures
        group_comma(p, from, close, 0) == at,
    decreases at - from,
{
    if from < at {
        comma_is_there(p, from + 1, at, close);
    }
}

proof fn group_is_there(p: Seq<char>, from: nat, at: nat)
    requires
        from <= at < p.len(),
        is_group(p, at),
        forall|i: int| from <= i < at ==> p[i] != '{',
    ensures
        first_group(p, from) == at,
    decreases at - from,
{
    if from < at {
        group_is_there(p, from + 1, at);
    }
}

/// Two texts in braces, with a comma between them, stand for either of the two.
pub proof fn braces_stand_for_either_text(
    before: Seq<char>,
    a: Seq<char>,
    b: Seq<char>,
    after: Seq<char>,
)
    requires
        is_braceless(before),
        is_braceless(a),
        is_braceless(b),
    ensures
        expansions(before + seq!['{'] + a + seq![','] + b + seq!['}'] + after) == expansions(
            before + a + after,
        ) + expansions(before + b + after),
{
    let p = before + seq!['{'] + a + seq![','] + b + seq!['}'] + after;
    let i = before.len();
    let comma = i + 1 + a.len();
    let close = comma + 1 + b.len();
    assert forall|j: int| i < j < comma implies p[j] != '{' && p[j] != '}' && p[j] != ',' by {
        assert(p[j] == a[j - i - 1]);
    }
    assert forall|j: int| comma < j < close implies p[j] != '{' && p[j] != '}' && p[j] != ',' by {
        assert(p[j] == b[j - comma - 1]);
    }
    assert(p[comma as int] == ',');
    assert(p[close as int] == '}');
    close_is_there(p, i + 1, close);
    comma_is_there(p, i + 1, comma, close);
    comma_is_there(p, comma + 1, close, close);
    assert(p[i as int] == '{');
    assert forall|j: int| 0 <= j < i implies p[j] != '{' by {
        assert(p[j] == before[j]);
    }
    group_is_there(p, 0, i);
    assert(first_choice(p, i) =~= before + a + after);
    assert(other_choices(p, i) =~= before + b + after);
}

} // verus!
