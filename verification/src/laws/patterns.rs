//! Patterns and workspaces: which directories are let in.

use vstd::prelude::*;

use crate::glob::{
    comma_of, close_of, expansions, first_choice, first_group, group_close, group_comma, is_dotted,
    is_group, is_listed, name_matches, next_of, other_choices, part_matches,
    parts_view, path_matches, pattern_parts, set_end, set_start,
};
use crate::text::parts_from;
use crate::workspace::{
    is_member, kind_text, member, member_of, member_texts, patterns_view, rule_matches, rule_of,
    rules_view, texts_among, texts_in, Manifest, Rule, RuleView, WorkspaceKind,
};

verus! {

/// Nothing but the empty name matches the empty pattern.
pub proof fn the_empty_pattern_matches_the_empty_name(name: Seq<char>)
    ensures
        name_matches(Seq::empty(), name) <==> name.len() == 0,
{
}

/// A star within a name stands for any text: what follows it matches some end of the name.
pub proof fn a_star_stands_for_any_text(rest: Seq<char>, name: Seq<char>)
    ensures
        name_matches(seq!['*'] + rest, name) <==> exists|k: int|
            0 <= k <= name.len() && name_matches(rest, #[trigger] name.skip(k)),
    decreases name.len(),
{
    let pattern = seq!['*'] + rest;
    assert(pattern[0] == '*');
    assert(pattern.drop_first() =~= rest);
    assert(name.skip(0) =~= name);
    if name.len() > 0 {
        let less = name.drop_first();
        a_star_stands_for_any_text(rest, less);
        if name_matches(pattern, less) {
            let k = choose|k: int|
                0 <= k <= less.len() && name_matches(rest, #[trigger] less.skip(k));
            assert(less.skip(k) =~= name.skip(k + 1));
        }
        if exists|k: int| 0 <= k <= name.len() && name_matches(rest, #[trigger] name.skip(k)) {
            let k = choose|k: int|
                0 <= k <= name.len() && name_matches(rest, #[trigger] name.skip(k));
            if k > 0 {
                assert(less.skip(k - 1) =~= name.skip(k));
            }
        }
    }
}

/// A character that is no star, question mark or bracket stands for itself.
pub proof fn other_characters_stand_for_themselves(c: char, rest: Seq<char>, name: Seq<char>)
    requires
        c != '*' && c != '?' && c != '[',
    ensures
        name_matches(seq![c] + rest, name) <==> name.len() > 0 && name[0] == c && name_matches(
            rest,
            name.drop_first(),
        ),
{
    let pattern = seq![c] + rest;
    assert(pattern[0] == c);
    assert(pattern.drop_first() =~= rest);
}

proof fn next_is_nowhere(s: Seq<char>, c: char, from: nat)
    requires
        forall|i: int| from <= i < s.len() ==> s[i] != c,
    ensures
        next_of(s, c, from) == s.len(),
    decreases s.len() - from,
{
    if from < s.len() {
        next_is_nowhere(s, c, from + 1);
    }
}

proof fn next_is_at(s: Seq<char>, c: char, from: nat, at: nat)
    requires
        from <= at < s.len(),
        s[at as int] == c,
        forall|i: int| from <= i < at ==> s[i] != c,
    ensures
        next_of(s, c, from) == at,
    decreases at - from,
{
    if from < at {
        next_is_at(s, c, from + 1, at);
    }
}

/// A bracket that is never closed stands for itself. A closing bracket right behind it, or right
/// behind its `^`, does not close it.
pub proof fn an_open_bracket_stands_for_itself(rest: Seq<char>, name: Seq<char>)
    requires
        forall|i: int|
            (if rest.len() > 0 && rest[0] == '^' {
                2
            } else {
                1int
            }) <= i < rest.len() ==> rest[i] != ']',
    ensures
        name_matches(seq!['['] + rest, name) <==> name.len() > 0 && name[0] == '[' && name_matches(
            rest,
            name.drop_first(),
        ),
{
    let pattern = seq!['['] + rest;
    assert(pattern[0] == '[');
    assert(pattern.drop_first() =~= rest);
    if rest.len() > 0 {
        assert(pattern[1] == rest[0]);
    }
    assert forall|i: int| set_start(pattern) + 1 <= i < pattern.len() implies pattern[i] != ']' by {
        assert(pattern[i] == rest[i - 1]);
    }
    next_is_nowhere(pattern, ']', set_start(pattern) + 1);
}

/// A list in brackets, of characters and of ranges, stands for one character that it lists; behind a
/// `^`, for one that it does not list. A closing bracket in front of the list is in the list.
pub proof fn brackets_stand_for_what_they_list(list: Seq<char>, rest: Seq<char>, name: Seq<char>)
    requires
        list.len() > 0,
        forall|i: int| 1 <= i < list.len() ==> list[i] != ']',
        list[0] != '^',
    ensures
        name_matches(seq!['['] + list + seq![']'] + rest, name) <==> name.len() > 0 && is_listed(
            list,
            name[0],
        ) && name_matches(rest, name.drop_first()),
        name_matches(seq!['[', '^'] + list + seq![']'] + rest, name) <==> name.len() > 0
            && !is_listed(list, name[0]) && name_matches(rest, name.drop_first()),
{
    let plain = seq!['['] + list + seq![']'] + rest;
    let n = list.len();
    assert(plain[0] == '[');
    assert(plain[1] == list[0]);
    assert forall|i: int| 2 <= i < n + 1 implies plain[i] != ']' by {
        assert(plain[i] == list[i - 1]);
    }
    assert(plain[n as int + 1] == ']');
    next_is_at(plain, ']', 2, n + 1);
    assert(plain.subrange(1, n as int + 1) =~= list);
    assert(plain.skip(n as int + 2) =~= rest);
    let other = seq!['[', '^'] + list + seq![']'] + rest;
    assert(other[0] == '[');
    assert(other[1] == '^');
    assert forall|i: int| 3 <= i < n + 2 implies other[i] != ']' by {
        assert(other[i] == list[i - 2]);
    }
    assert(other[n as int + 2] == ']');
    next_is_at(other, ']', 3, n + 2);
    assert(other.subrange(2, n as int + 2) =~= list);
    assert(other.skip(n as int + 3) =~= rest);
}

/// A list lists each of its characters, and everything from one character to another where a dash
/// stands between them.
pub proof fn lists_hold_characters_and_ranges(a: char, b: char, list: Seq<char>, c: char)
    ensures
        !is_listed(Seq::empty(), c),
        is_listed(seq![a, '-', b] + list, c) <==> a <= c <= b || is_listed(list, c),
        !(list.len() >= 2 && list[0] == '-') ==> (is_listed(seq![a] + list, c) <==> a == c
            || is_listed(list, c)),
{
    assert((seq![a, '-', b] + list).skip(3) =~= list);
    assert((seq![a] + list).drop_first() =~= list);
}

/// A name that begins with no dot matches a part as it is; one that does, only if the part begins
/// with neither a star nor a question mark.
pub proof fn dots_must_be_named(part: Seq<char>, name: Seq<char>)
    ensures
        !(name.len() > 0 && name[0] == '.') ==> (part_matches(part, name) <==> name_matches(
            part,
            name,
        )),
        name.len() > 0 && name[0] == '.' && part.len() > 0 && (part[0] == '*' || part[0] == '?')
            ==> !part_matches(part, name),
        part.len() > 0 && part[0] != '*' && part[0] != '?' ==> (part_matches(part, name)
            <==> name_matches(part, name)),
        part.len() == 0 ==> (part_matches(part, name) <==> name.len() == 0),
        is_dotted(name) <==> name.len() > 0 && name[0] == '.',
{
}

/// A part that is not `**` stands for exactly one name, and nothing but the empty path matches the
/// empty pattern.
pub proof fn one_part_stands_for_one_name(
    part: Seq<char>,
    rest: Seq<Seq<char>>,
    path: Seq<Seq<char>>,
)
    ensures
        path_matches(Seq::empty(), path) <==> path.len() == 0,
        part != "**"@ ==> (path_matches(seq![part] + rest, path) <==> path.len() > 0
            && part_matches(part, path[0]) && path_matches(rest, path.drop_first())),
{
    let pattern = seq![part] + rest;
    assert(pattern[0] == part);
    assert(pattern.drop_first() =~= rest);
}

/// Whether no name of a path begins with a dot.
pub open spec fn no_dot_in_front(path: Seq<Seq<char>>) -> bool {
    forall|i: int|
        0 <= i < path.len() ==> !((#[trigger] path[i]).len() > 0 && path[i][0] == '.')
}

/// `**` stands for any number of names that begin with no dot: what follows it matches what is left
/// of the path.
pub proof fn two_stars_stand_for_any_number_of_names(rest: Seq<Seq<char>>, path: Seq<Seq<char>>)
    ensures
        path_matches(seq!["**"@] + rest, path) <==> exists|k: int|
            0 <= k <= path.len() && no_dot_in_front(path.take(k)) && path_matches(
                rest,
                #[trigger] path.skip(k),
            ),
    decreases path.len(),
{
    let pattern = seq!["**"@] + rest;
    assert(pattern[0] == "**"@);
    assert(pattern.drop_first() =~= rest);
    assert(path.skip(0) =~= path);
    assert(no_dot_in_front(path.take(0)));
    if path.len() > 0 {
        let less = path.drop_first();
        two_stars_stand_for_any_number_of_names(rest, less);
        if path_matches(pattern, less) && !is_dotted(path[0]) {
            let k = choose|k: int|
                0 <= k <= less.len() && no_dot_in_front(less.take(k)) && path_matches(
                    rest,
                    #[trigger] less.skip(k),
                );
            assert(less.skip(k) =~= path.skip(k + 1));
            assert forall|i: int| 0 <= i < k + 1 implies !is_dotted(
                #[trigger] path.take(k + 1)[i],
            ) by {
                if i > 0 {
                    assert(less.take(k)[i - 1] == path.take(k + 1)[i]);
                }
            }
        }
        if exists|k: int|
            0 <= k <= path.len() && no_dot_in_front(path.take(k)) && path_matches(
                rest,
                #[trigger] path.skip(k),
            ) {
            let k = choose|k: int|
                0 <= k <= path.len() && no_dot_in_front(path.take(k)) && path_matches(
                    rest,
                    #[trigger] path.skip(k),
                );
            if k > 0 {
                assert(less.skip(k - 1) =~= path.skip(k));
                assert(!is_dotted(path.take(k)[0]));
                assert forall|i: int| 0 <= i < k - 1 implies !is_dotted(
                    #[trigger] less.take(k - 1)[i],
                ) by {
                    assert(path.take(k)[i + 1] == less.take(k - 1)[i]);
                }
                assert(no_dot_in_front(less.take(k - 1)));
            }
        }
    }
}

/// How deep in braces the end of a text is that begins `depth` deep; nothing where more are closed
/// than were opened.
pub open spec fn depth_after(text: Seq<char>, depth: nat) -> Option<nat>
    decreases text.len(),
{
    if text.len() == 0 {
        Some(depth)
    } else if text[0] == '{' {
        depth_after(text.drop_first(), depth + 1)
    } else if text[0] == '}' {
        if depth == 0 {
            None
        } else {
            depth_after(text.drop_first(), (depth - 1) as nat)
        }
    } else {
        depth_after(text.drop_first(), depth)
    }
}

/// Whether every comma of a text that begins `depth` deep in braces is in braces.
pub open spec fn commas_are_inside(text: Seq<char>, depth: nat) -> bool
    decreases text.len(),
{
    if text.len() == 0 {
        true
    } else if text[0] == '{' {
        commas_are_inside(text.drop_first(), depth + 1)
    } else if text[0] == '}' {
        depth > 0 && commas_are_inside(text.drop_first(), (depth - 1) as nat)
    } else {
        (depth > 0 || text[0] != ',') && commas_are_inside(text.drop_first(), depth)
    }
}

/// Whether the braces of a text are closed as they are opened.
pub open spec fn is_balanced(text: Seq<char>) -> bool {
    depth_after(text, 0) == Some(0nat)
}

proof fn close_is_behind_text(p: Seq<char>, from: nat, text: Seq<char>, depth: nat)
    requires
        from + text.len() <= p.len(),
        p.subrange(from as int, (from + text.len()) as int) == text,
        depth_after(text, depth) is Some,
    ensures
        group_close(p, from, depth) == group_close(
            p,
            from + text.len(),
            depth_after(text, depth)->0,
        ),
    decreases text.len(),
{
    if text.len() > 0 {
        let less = text.drop_first();
        assert(p[from as int] == text[0]);
        assert(p.subrange(from as int + 1, (from + 1 + less.len()) as int) =~= less);
        if text[0] == '{' {
            close_is_behind_text(p, from + 1, less, depth + 1);
        } else if text[0] == '}' {
            close_is_behind_text(p, from + 1, less, (depth - 1) as nat);
        } else {
            close_is_behind_text(p, from + 1, less, depth);
        }
    }
}

proof fn comma_is_behind_text(p: Seq<char>, from: nat, text: Seq<char>, close: nat, depth: nat)
    requires
        from + text.len() <= close <= p.len(),
        p.subrange(from as int, (from + text.len()) as int) == text,
        depth_after(text, depth) is Some,
        commas_are_inside(text, depth),
    ensures
        group_comma(p, from, close, depth) == group_comma(
            p,
            from + text.len(),
            close,
            depth_after(text, depth)->0,
        ),
    decreases text.len(),
{
    if text.len() > 0 {
        let less = text.drop_first();
        assert(p[from as int] == text[0]);
        assert(p.subrange(from as int + 1, (from + 1 + less.len()) as int) =~= less);
        if text[0] == '{' {
            comma_is_behind_text(p, from + 1, less, close, depth + 1);
        } else if text[0] == '}' {
            comma_is_behind_text(p, from + 1, less, close, (depth - 1) as nat);
        } else {
            comma_is_behind_text(p, from + 1, less, close, depth);
        }
    }
}

proof fn comma_is_within_text(p: Seq<char>, from: nat, text: Seq<char>, close: nat, depth: nat)
    requires
        from + text.len() <= close <= p.len(),
        p.subrange(from as int, (from + text.len()) as int) == text,
        depth_after(text, depth) is Some,
        !commas_are_inside(text, depth),
    ensures
        group_comma(p, from, close, depth) < close,
    decreases text.len(),
{
    if text.len() > 0 {
        let less = text.drop_first();
        assert(p[from as int] == text[0]);
        assert(p.subrange(from as int + 1, (from + 1 + less.len()) as int) =~= less);
        if text[0] == '{' {
            comma_is_within_text(p, from + 1, less, close, depth + 1);
        } else if text[0] == '}' {
            comma_is_within_text(p, from + 1, less, close, (depth - 1) as nat);
        } else if text[0] == ',' && depth == 0 {
        } else {
            comma_is_within_text(p, from + 1, less, close, depth);
        }
    }
}

proof fn group_is_at(p: Seq<char>, from: nat, at: nat)
    requires
        from <= at < p.len(),
        is_group(p, at),
        forall|i: int| from <= i < at ==> p[i] != '{',
    ensures
        first_group(p, from) == at,
    decreases at - from,
{
    if from < at {
        group_is_at(p, from + 1, at);
    }
}

proof fn group_is_nowhere(p: Seq<char>, from: nat)
    requires
        forall|i: nat| from <= i < p.len() ==> !#[trigger] is_group(p, i),
    ensures
        first_group(p, from) >= p.len(),
    decreases p.len() - from,
{
    if from < p.len() {
        assert(!is_group(p, from));
        group_is_nowhere(p, from + 1);
    }
}

/// Texts in braces, with commas between them, stand for one of them: for the first or for one of the
/// others. The texts may hold braces of their own.
pub proof fn braces_stand_for_one_of_their_texts(
    before: Seq<char>,
    first: Seq<char>,
    others: Seq<char>,
    after: Seq<char>,
)
    requires
        !before.contains('{'),
        is_balanced(first),
        commas_are_inside(first, 0),
        is_balanced(others),
    ensures
        expansions(before + seq!['{'] + first + seq![','] + others + seq!['}'] + after)
            == expansions(before + first + after) + expansions(
            if commas_are_inside(others, 0) {
                before + others + after
            } else {
                before + seq!['{'] + others + seq!['}'] + after
            },
        ),
{
    let p = before + seq!['{'] + first + seq![','] + others + seq!['}'] + after;
    let i = before.len();
    let comma = i + 1 + first.len();
    let close = comma + 1 + others.len();
    assert(p[i as int] == '{');
    assert(p[comma as int] == ',');
    assert(p[close as int] == '}');
    assert(p.subrange(i as int + 1, comma as int) =~= first);
    assert(p.subrange(comma as int + 1, close as int) =~= others);
    close_is_behind_text(p, i + 1, first, 0);
    close_is_behind_text(p, comma + 1, others, 0);
    assert(close_of(p, i) == close);
    comma_is_behind_text(p, i + 1, first, close, 0);
    assert(comma_of(p, i) == comma);
    if commas_are_inside(others, 0) {
        comma_is_behind_text(p, comma + 1, others, close, 0);
    } else {
        comma_is_within_text(p, comma + 1, others, close, 0);
    }
    assert forall|j: int| 0 <= j < i implies p[j] != '{' by {
        assert(before.contains(before[j]));
    }
    group_is_at(p, 0, i);
    assert(p.take(i as int) =~= before);
    assert(p.skip(close as int + 1) =~= after);
    assert(first_choice(p, i) =~= before + first + after);
    if commas_are_inside(others, 0) {
        assert(other_choices(p, i) =~= before + others + after);
    } else {
        assert(other_choices(p, i) =~= before + seq!['{'] + others + seq!['}'] + after);
    }
}

/// A pattern without braces stands for itself alone, and so does one with a single text in braces.
pub proof fn braces_without_a_choice_stand_for_themselves(
    before: Seq<char>,
    text: Seq<char>,
    after: Seq<char>,
)
    requires
        !before.contains('{'),
        !text.contains('{'),
        !text.contains('}'),
        !text.contains(','),
        !after.contains('{'),
    ensures
        expansions(before) == seq![before],
        expansions(before + seq!['{'] + text + seq!['}'] + after) == seq![
            before + seq!['{'] + text + seq!['}'] + after,
        ],
{
    assert forall|j: nat| 0 <= j < before.len() implies !#[trigger] is_group(before, j) by {
        assert(before.contains(before[j as int]));
    }
    group_is_nowhere(before, 0);
    let p = before + seq!['{'] + text + seq!['}'] + after;
    let i = before.len();
    let close = i + 1 + text.len();
    plain_text_is_balanced(text, 0);
    assert(p.subrange(i as int + 1, close as int) =~= text);
    assert(p[close as int] == '}');
    close_is_behind_text(p, i + 1, text, 0);
    comma_is_behind_text(p, i + 1, text, close, 0);
    assert forall|j: nat| 0 <= j < p.len() implies !#[trigger] is_group(p, j) by {
        if j < i {
            assert(before.contains(before[j as int]));
        } else if i < j < close {
            assert(text.contains(text[j - i - 1]));
        } else if j > close {
            assert(after.contains(after[j - close - 1]));
        }
    }
    group_is_nowhere(p, 0);
}

proof fn plain_text_is_balanced(text: Seq<char>, depth: nat)
    requires
        !text.contains('{'),
        !text.contains('}'),
        !text.contains(','),
    ensures
        depth_after(text, depth) == Some(depth),
        commas_are_inside(text, depth),
    decreases text.len(),
{
    if text.len() > 0 {
        let less = text.drop_first();
        assert(text.contains(text[0]));
        assert forall|i: int| 0 <= i < less.len() implies less[i] != '{' && less[i] != '}'
            && less[i] != ',' by {
            assert(text.contains(text[i + 1]));
        }
        plain_text_is_balanced(less, depth);
    }
}

/// A pattern means the parts between its slashes, once for each text that it stands for; `./` in
/// front of it counts for nothing.
pub proof fn patterns_mean_their_parts(pattern: Seq<char>)
    requires
        !(pattern.len() >= 2 && pattern[0] == '.' && pattern[1] == '/'),
    ensures
        pattern_parts(pattern).len() == expansions(pattern).len(),
        pattern_parts(seq!['.', '/'] + pattern) == pattern_parts(pattern),
        forall|i: int|
            0 <= i < expansions(pattern).len() ==> #[trigger] pattern_parts(pattern)[i]
                == parts_from(expansions(pattern)[i], Seq::empty(), '/'),
{
    assert((seq!['.', '/'] + pattern).skip(2) =~= pattern);
}

/// An exclamation mark in front of a pattern negates it, and nothing else does.
pub proof fn an_exclamation_mark_negates(pattern: Seq<char>)
    ensures
        rule_of(seq!['!'] + pattern).negated,
        rule_of(seq!['!'] + pattern).patterns == pattern_parts(pattern),
        !(pattern.len() > 0 && pattern[0] == '!') ==> !rule_of(pattern).negated && rule_of(
            pattern,
        ).patterns == pattern_parts(pattern),
{
    assert((seq!['!'] + pattern).drop_first() =~= pattern);
}

/// A directory matches a pattern exactly if it matches one of the texts that it stands for.
pub proof fn one_text_of_a_pattern_is_enough(rule: RuleView, last: Seq<Seq<char>>, path: Seq<
    Seq<char>,
>)
    ensures
        rule.patterns.len() == 0 ==> !rule_matches(rule, path),
        rule_matches(RuleView { negated: rule.negated, patterns: rule.patterns.push(last) }, path)
            <==> rule_matches(rule, path) || path_matches(last, path),
{
    let longer = RuleView { negated: rule.negated, patterns: rule.patterns.push(last) };
    let n = rule.patterns.len() as int;
    assert(longer.patterns[n] == last);
    if rule_matches(rule, path) {
        let k = choose|k: int|
            0 <= k < rule.patterns.len() && path_matches(#[trigger] rule.patterns[k], path);
        assert(longer.patterns[k] == rule.patterns[k]);
    }
    if rule_matches(longer, path) {
        let k = choose|k: int|
            0 <= k < longer.patterns.len() && path_matches(#[trigger] longer.patterns[k], path);
        if k < n {
            assert(rule.patterns[k] == longer.patterns[k]);
        }
    }
}

/// Whether the rule number `k` is the last one that a directory matches.
pub open spec fn is_last_match(rules: Seq<RuleView>, path: Seq<Seq<char>>, k: int) -> bool {
    &&& 0 <= k < rules.len()
    &&& rule_matches(rules[k], path)
    &&& forall|j: int| k < j < rules.len() ==> !rule_matches(#[trigger] rules[j], path)
}

/// The last pattern that a directory matches decides: one that is not negated lets it in, one that is
/// takes it out, and without any match it is not let in.
pub proof fn the_last_match_decides(rules: Seq<RuleView>, path: Seq<Seq<char>>)
    ensures
        is_member(rules, path) <==> exists|k: int| #[trigger]
            is_last_match(rules, path, k) && !rules[k].negated,
    decreases rules.len(),
{
    if rules.len() > 0 {
        let before = rules.drop_last();
        let n = before.len() as int;
        the_last_match_decides(before, path);
        if rule_matches(rules[n], path) {
            assert(is_last_match(rules, path, n));
            assert forall|k: int| #[trigger] is_last_match(rules, path, k) implies k == n by {
                if k < n {
                    assert(!rule_matches(rules[n], path));
                }
            }
        } else {
            assert forall|k: int| #[trigger] is_last_match(before, path, k) implies is_last_match(
                rules,
                path,
                k,
            ) && rules[k] == before[k] by {
                assert forall|j: int| k < j < rules.len() implies !rule_matches(
                    #[trigger] rules[j],
                    path,
                ) by {
                    if j < n {
                        assert(before[j] == rules[j]);
                    }
                }
            }
            if exists|k: int| #[trigger] is_last_match(rules, path, k) && !rules[k].negated {
                let k = choose|k: int| #[trigger]
                    is_last_match(rules, path, k) && !rules[k].negated;
                assert(k < n);
                assert(before[k] == rules[k]);
                assert forall|j: int| k < j < before.len() implies !rule_matches(
                    #[trigger] before[j],
                    path,
                ) by {
                    assert(rules[j] == before[j]);
                }
                assert(is_last_match(before, path, k));
            }
            if exists|k: int| #[trigger] is_last_match(before, path, k) && !before[k].negated {
                let k = choose|k: int| #[trigger]
                    is_last_match(before, path, k) && !before[k].negated;
                assert(is_last_match(rules, path, k));
            }
        }
    }
}

/// A list of rules has every rule with all its texts, in its place.
pub proof fn lists_keep_every_rule(rules: Seq<Rule>)
    ensures
        rules_view(rules).len() == rules.len(),
        forall|i: int|
            0 <= i < rules.len() ==> {
                let r = #[trigger] rules_view(rules)[i];
                &&& r.negated == rules[i].negated
                &&& r.patterns.len() == rules[i].patterns@.len()
                &&& forall|k: int|
                    0 <= k < r.patterns.len() ==> {
                        &&& (#[trigger] r.patterns[k]).len() == rules[i].patterns@[k]@.len()
                        &&& forall|j: int|
                            0 <= j < r.patterns[k].len() ==> #[trigger] r.patterns[k][j]
                                == rules[i].patterns@[k]@[j]@
                    }
            },
        forall|i: int|
            0 <= i < rules.len() ==> #[trigger] rules_view(rules)[i].patterns == parts_view(
                rules[i].patterns@,
            ),
{
}

/// The kinds of workspaces have three names.
pub proof fn kinds_have_their_names()
    ensures
        kind_text(WorkspaceKind::NoWorkspace) == "none"@,
        kind_text(WorkspaceKind::PackageJson) == "package.json"@,
        kind_text(WorkspaceKind::Pnpm) == "pnpm"@,
{
}

/// One more member of an object is the one with its key from then on; the others keep theirs.
pub proof fn the_last_member_with_a_key_counts(
    members: Seq<(String, Manifest)>,
    last: (String, Manifest),
    key: Seq<char>,
)
    ensures
        member_of(Seq::empty(), key) is None,
        last.0@ == key ==> member_of(members.push(last), key) == Some(last.1),
        last.0@ != key ==> member_of(members.push(last), key) == member_of(members, key),
{
    assert(members.push(last).drop_last() =~= members);
}

/// One more item of a list is one more text exactly if it is a text.
pub proof fn only_texts_are_patterns(items: Seq<Manifest>, last: Manifest)
    ensures
        texts_among(Seq::empty()) == Seq::<Seq<char>>::empty(),
        last is Text ==> texts_among(items.push(last)) == texts_among(items).push(last->Text_0@),
        !(last is Text) ==> texts_among(items.push(last)) == texts_among(items),
{
    assert(items.push(last).drop_last() =~= items);
}

/// Members are looked for in objects and texts in lists only.
pub proof fn members_are_in_objects_and_texts_in_lists(
    manifest: Manifest,
    key: Seq<char>,
    patterns: Vec<String>,
)
    ensures
        manifest matches Manifest::Object(members) ==> member(manifest, key) == member_of(
            members@,
            key,
        ),
        !(manifest is Object) ==> member(manifest, key) is None,
        manifest matches Manifest::List(items) ==> texts_in(manifest) == Some(texts_among(items@)),
        !(manifest is List) ==> texts_in(manifest) is None,
        member(manifest, key) matches Some(value) ==> member_texts(manifest, key) == texts_in(
            value,
        ),
        member(manifest, key) is None ==> member_texts(manifest, key) is None,
        patterns_view(None) is None,
        patterns_view(Some(patterns)) is Some,
        patterns_view(Some(patterns))->0.len() == patterns@.len(),
        forall|i: int|
            0 <= i < patterns@.len() ==> #[trigger] patterns_view(Some(patterns))->0[i]
                == patterns@[i]@,
{
}

} // verus!
