//! JSON: writing it, and what a JSON text stands for.

use vstd::prelude::*;

use crate::text::decimal;

verus! {

/// The hexadecimal digit `d`, in lower case.
pub open spec fn hex_digit(d: nat) -> char {
    if d < 10 {
        (48 + d) as char
    } else {
        (87 + d) as char
    }
}

/// One character inside a JSON string.
pub open spec fn escape_char(c: char) -> Seq<char> {
    if c == '"' {
        seq!['\\', '"']
    } else if c == '\\' {
        seq!['\\', '\\']
    } else if c == '\n' {
        seq!['\\', 'n']
    } else if c == '\r' {
        seq!['\\', 'r']
    } else if c == '\t' {
        seq!['\\', 't']
    } else if (c as nat) < 0x20 {
        seq!['\\', 'u', '0', '0', hex_digit(c as nat / 16), hex_digit(c as nat % 16)]
    } else {
        seq![c]
    }
}

/// A text as the inside of a JSON string: each of its characters escaped in turn.
pub open spec fn escaped(s: Seq<char>) -> Seq<char>
    decreases s.len(),
{
    if s.len() == 0 {
        Seq::empty()
    } else {
        escaped(s.drop_last()) + escape_char(s.last())
    }
}

fn push_hex_digit(out: &mut String, d: u8)
    requires
        d < 16,
    ensures
        final(out)@ == old(out)@.push(hex_digit(d as nat)),
{
    if d < 10 {
        out.push((48 + d) as char);
    } else {
        out.push((87 + d) as char);
    }
}

fn push_escaped(out: &mut String, c: char)
    ensures
        final(out)@ == old(out)@ + escape_char(c),
{
    let ghost before = out@;
    if c == '"' {
        out.push('\\');
        out.push('"');
    } else if c == '\\' {
        out.push('\\');
        out.push('\\');
    } else if c == '\n' {
        out.push('\\');
        out.push('n');
    } else if c == '\r' {
        out.push('\\');
        out.push('r');
    } else if c == '\t' {
        out.push('\\');
        out.push('t');
    } else if (c as u32) < 0x20 {
        let code: u8 = c as u8;
        out.push('\\');
        out.push('u');
        out.push('0');
        out.push('0');
        push_hex_digit(out, code / 16);
        push_hex_digit(out, code % 16);
    } else {
        out.push(c);
    }
    assert(out@ =~= before + escape_char(c));
}

/// Appends `s`, escaped for the inside of a JSON string.
pub fn push_json_escaped(out: &mut String, s: &str)
    ensures
        final(out)@ == old(out)@ + escaped(s@),
{
    let ghost before = out@;
    assert(out@ =~= before + escaped(s@.take(0)));
    for c in chars: s.chars()
        invariant
            chars.seq() == s@,
            out@ == before + escaped(s@.take(chars.index() as int)),
    {
        let ghost i = chars.index() as int;
        push_escaped(out, c);
        proof {
            assert(s@.take(i + 1).drop_last() =~= s@.take(i));
            assert(s@.take(i + 1).last() == c);
            assert(out@ =~= before + escaped(s@.take(i + 1)));
        }
    }
    assert(s@.take(s@.len() as int) =~= s@);
}

/// Escapes `s` for the inside of a JSON string.
pub fn json_escape(s: &str) -> (text: String)
    ensures
        text@ == escaped(s@),
{
    let mut text = String::new();
    push_json_escaped(&mut text, s);
    assert(text@ =~= escaped(s@));
    text
}

/// The value of a hexadecimal digit.
pub open spec fn hex_value(c: char) -> Option<nat> {
    let code = c as nat;
    if 48 <= code <= 57 {
        Some((code - 48) as nat)
    } else if 65 <= code <= 70 {
        Some((code - 55) as nat)
    } else if 97 <= code <= 102 {
        Some((code - 87) as nat)
    } else {
        None
    }
}

/// The character that a backslash and `c` stand for.
pub open spec fn short_escape(c: char) -> Option<char> {
    if c == '"' || c == '\\' || c == '/' {
        Some(c)
    } else if c == 'b' {
        Some('\x08')
    } else if c == 'f' {
        Some('\x0c')
    } else if c == 'n' {
        Some('\n')
    } else if c == 'r' {
        Some('\r')
    } else if c == 't' {
        Some('\t')
    } else {
        None
    }
}

/// The character whose number four hexadecimal digits give, unless that is half of a pair.
pub open spec fn long_escape(digits: Seq<char>) -> Option<char> {
    match (
        hex_value(digits[0]),
        hex_value(digits[1]),
        hex_value(digits[2]),
        hex_value(digits[3]),
    ) {
        (Some(a), Some(b), Some(c), Some(d)) => {
            let code = 4096 * a + 256 * b + 16 * c + d;
            if 0xd800 <= code <= 0xdfff {
                None
            } else {
                Some(code as char)
            }
        },
        _ => None,
    }
}

/// What the inside of a JSON string stands for, if it is well-formed. Characters that are written
/// as two escapes are left out.
pub open spec fn unescaped(s: Seq<char>) -> Option<Seq<char>>
    decreases s.len(),
{
    if s.len() == 0 {
        Some(Seq::empty())
    } else if s[0] == '\\' {
        if s.len() >= 6 && s[1] == 'u' {
            match (long_escape(s.subrange(2, 6)), unescaped(s.skip(6))) {
                (Some(c), Some(rest)) => Some(seq![c] + rest),
                _ => None,
            }
        } else if s.len() >= 2 {
            match (short_escape(s[1]), unescaped(s.skip(2))) {
                (Some(c), Some(rest)) => Some(seq![c] + rest),
                _ => None,
            }
        } else {
            None
        }
    } else if s[0] == '"' || (s[0] as nat) < 0x20 {
        None
    } else {
        match unescaped(s.skip(1)) {
            Some(rest) => Some(seq![s[0]] + rest),
            None => None,
        }
    }
}

proof fn escape_char_is_undone(c: char, rest: Seq<char>)
    ensures
        unescaped(escape_char(c) + rest) == match unescaped(rest) {
            Some(text) => Some(seq![c] + text),
            None => None,
        },
{
    let s = escape_char(c) + rest;
    if c == '"' || c == '\\' || c == '\n' || c == '\r' || c == '\t' {
        assert(s.skip(2) =~= rest);
        assert(s[1] != 'u');
    } else if (c as nat) < 0x20 {
        assert(s.skip(6) =~= rest);
        let digits = s.subrange(2, 6);
        assert(digits =~= seq!['0', '0', hex_digit(c as nat / 16), hex_digit(c as nat % 16)]);
        assert(hex_value(hex_digit(c as nat / 16)) == Some(c as nat / 16));
        assert(hex_value(hex_digit(c as nat % 16)) == Some(c as nat % 16));
        assert(long_escape(digits) == Some(c));
    } else {
        assert(s.skip(1) =~= rest);
    }
}

proof fn escaped_from_the_front(s: Seq<char>)
    requires
        s.len() > 0,
    ensures
        escaped(s) =~= escape_char(s.first()) + escaped(s.drop_first()),
    decreases s.len(),
{
    if s.len() == 1 {
        assert(s.drop_last() =~= Seq::empty());
        assert(s.drop_first() =~= Seq::empty());
    } else {
        escaped_from_the_front(s.drop_last());
        assert(s.drop_last().drop_first() =~= s.drop_first().drop_last());
        assert(s.drop_last().first() == s.first());
        assert(s.drop_first().last() == s.last());
    }
}

/// An escaped text stands for the text: nothing is lost and nothing is added.
pub proof fn escaping_is_undone(s: Seq<char>)
    ensures
        unescaped(escaped(s)) == Some(s),
    decreases s.len(),
{
    if s.len() > 0 {
        escaped_from_the_front(s);
        escaping_is_undone(s.drop_first());
        escape_char_is_undone(s.first(), escaped(s.drop_first()));
        assert(seq![s.first()] + s.drop_first() =~= s);
    } else {
        assert(s =~= Seq::empty());
    }
}

/// Different texts are escaped differently.
pub proof fn escaping_is_injective(a: Seq<char>, b: Seq<char>)
    requires
        escaped(a) == escaped(b),
    ensures
        a == b,
{
    escaping_is_undone(a);
    escaping_is_undone(b);
}

/// A text between quotation marks.
pub open spec fn quoted(inside: Seq<char>) -> Seq<char> {
    seq!['"'] + inside + seq!['"']
}

/// A text as a JSON string.
pub open spec fn text_json(text: Seq<char>) -> Seq<char> {
    quoted(escaped(text))
}

/// A key and a value of a JSON object.
pub open spec fn field_json(key: Seq<char>, value: Seq<char>) -> Seq<char> {
    quoted(key) + ": "@ + value
}

/// The items of a JSON list, each on a line of its own.
pub open spec fn items_json(items: Seq<Seq<char>>) -> Seq<char>
    decreases items.len(),
{
    if items.len() == 0 {
        Seq::empty()
    } else if items.len() == 1 {
        "\n    "@ + items[0]
    } else {
        items_json(items.drop_last()) + seq![','] + ("\n    "@ + items.last())
    }
}

/// A JSON list, each of its items on a line of its own.
pub open spec fn list_json(items: Seq<Seq<char>>) -> Seq<char> {
    let end = if items.len() == 0 {
        Seq::empty()
    } else {
        "\n  "@
    };
    seq!['['] + (items_json(items) + end) + seq![']']
}

/// Appends a text between quotation marks, as it is.
pub fn push_quoted(out: &mut String, inside: &str)
    ensures
        final(out)@ == old(out)@ + quoted(inside@),
{
    let ghost before = out@;
    out.push('"');
    out.append(inside);
    out.push('"');
    assert(out@ =~= before + quoted(inside@));
}

/// Appends a text as a JSON string.
pub fn push_text_json(out: &mut String, text: &str)
    ensures
        final(out)@ == old(out)@ + text_json(text@),
{
    let ghost before = out@;
    out.push('"');
    push_json_escaped(out, text);
    out.push('"');
    assert(out@ =~= before + text_json(text@));
}

/// Appends the key of a JSON object, up to its value.
pub fn push_key(out: &mut String, key: &str)
    ensures
        final(out)@ == old(out)@ + quoted(key@) + ": "@,
{
    push_quoted(out, key);
    out.append(": ");
}

/// Appends what stands before the item number `i` of a JSON list.
pub fn push_item_lead(out: &mut String, i: usize)
    ensures
        final(out)@ == old(out)@ + (if i == 0 {
            Seq::empty()
        } else {
            seq![',']
        }) + "\n    "@,
{
    let ghost before = out@;
    if i > 0 {
        out.push(',');
    }
    assert(out@ =~= before + (if i == 0 {
        Seq::empty()
    } else {
        seq![',']
    }));
    out.append("\n    ");
}

/// A JSON value.
pub enum Json {
    Null,
    Truth(bool),
    Number(nat),
    Text(Seq<char>),
    List(Seq<Json>),
    Object(Seq<Member>),
}

/// A key and a value of a JSON object.
pub struct Member {
    pub key: Seq<char>,
    pub value: Json,
}

/// Whether a text is nothing but what may stand between the parts of a JSON text.
pub open spec fn blank(s: Seq<char>) -> bool {
    forall|i: int|
        0 <= i < s.len() ==> #[trigger] s[i] == ' ' || s[i] == '\n' || s[i] == '\r' || s[i] == '\t'
}

/// Whether `s` is a JSON string for `text`.
pub open spec fn is_string(s: Seq<char>, text: Seq<char>) -> bool {
    exists|inside: Seq<char>| s == #[trigger] quoted(inside) && unescaped(inside) == Some(text)
}

/// Whether `s` is a JSON text for `value`, without blanks around it.
pub open spec fn denotes(s: Seq<char>, value: Json) -> bool
    decreases value, 0nat,
{
    match value {
        Json::Null => s == "null"@,
        Json::Truth(truth) => s == if truth {
            "true"@
        } else {
            "false"@
        },
        Json::Number(n) => s == decimal(n),
        Json::Text(text) => is_string(s, text),
        Json::List(items) => exists|inside: Seq<char>|
            s == #[trigger] bracketed(inside) && denotes_items(inside, items),
        Json::Object(members) => exists|inside: Seq<char>|
            s == #[trigger] braced(inside) && denotes_members(inside, members),
    }
}

/// `inside` between square brackets.
pub open spec fn bracketed(inside: Seq<char>) -> Seq<char> {
    seq!['['] + inside + seq![']']
}

/// `inside` between braces.
pub open spec fn braced(inside: Seq<char>) -> Seq<char> {
    seq!['{'] + inside + seq!['}']
}

/// `a`, `s` and `b` in a row.
pub open spec fn between(a: Seq<char>, s: Seq<char>, b: Seq<char>) -> Seq<char> {
    a + s + b
}

/// Whether `s` is a JSON text for `value`, with any blanks around it.
pub open spec fn denotes_padded(s: Seq<char>, value: Json) -> bool
    decreases value, 1nat,
{
    exists|a: Seq<char>, inner: Seq<char>, b: Seq<char>|
        s == #[trigger] between(a, inner, b) && blank(a) && blank(b) && denotes(inner, value)
}

/// Whether `s` is the inside of a JSON list of `items`: texts for the items, with commas between
/// them.
pub open spec fn denotes_items(s: Seq<char>, items: Seq<Json>) -> bool
    decreases items,
{
    if items.len() == 0 {
        blank(s)
    } else if items.len() == 1 {
        denotes_padded(s, items[0])
    } else {
        exists|before: Seq<char>, last: Seq<char>|
            s == #[trigger] between(before, seq![','], last) && denotes_items(
                before,
                items.drop_last(),
            ) && denotes_padded(last, items.last())
    }
}

/// Whether `s` is a key, a colon and a value, with any blanks around each.
pub open spec fn denotes_member(s: Seq<char>, member: Member) -> bool
    decreases member,
{
    exists|a: Seq<char>, key: Seq<char>, b: Seq<char>, value: Seq<char>|
        s == #[trigger] between(between(a, key, b), seq![':'], value) && blank(a) && blank(b)
            && is_string(key, member.key) && denotes_padded(value, member.value)
}

/// Whether `s` is the inside of a JSON object: texts for the members, with commas between them.
pub open spec fn denotes_members(s: Seq<char>, members: Seq<Member>) -> bool
    decreases members,
{
    if members.len() == 0 {
        blank(s)
    } else if members.len() == 1 {
        denotes_member(s, members[0])
    } else {
        exists|before: Seq<char>, last: Seq<char>|
            s == #[trigger] between(before, seq![','], last) && denotes_members(
                before,
                members.drop_last(),
            ) && denotes_member(last, members.last())
    }
}

/// A text as a JSON string stands for the text.
pub proof fn text_json_denotes_text(text: Seq<char>)
    ensures
        denotes(text_json(text), Json::Text(text)),
{
    escaping_is_undone(text);
    assert(text_json(text) == quoted(escaped(text)));
}

/// Whether a text needs no escapes.
pub open spec fn is_plain(text: Seq<char>) -> bool {
    forall|i: int|
        0 <= i < text.len() ==> #[trigger] text[i] != '"' && text[i] != '\\' && text[i] as nat
            >= 0x20
}

/// A text that needs no escapes stands for itself.
pub proof fn plain_text_denotes_itself(text: Seq<char>)
    requires
        is_plain(text),
    ensures
        unescaped(text) == Some(text),
        is_string(quoted(text), text),
    decreases text.len(),
{
    if text.len() > 0 {
        assert(text.skip(1) =~= text.drop_first());
        plain_text_denotes_itself(text.drop_first());
        assert(seq![text[0]] + text.drop_first() =~= text);
    } else {
        assert(text =~= Seq::empty());
    }
    assert(quoted(text) == quoted(text));
}

/// Blanks around a JSON text do not change what it stands for.
pub proof fn padding_changes_nothing(a: Seq<char>, s: Seq<char>, b: Seq<char>, value: Json)
    requires
        denotes(s, value),
        blank(a),
        blank(b),
    ensures
        denotes_padded(a + s + b, value),
{
    assert(a + s + b == between(a, s, b));
}

/// A key and a value, with blanks around, are a member of an object.
pub proof fn field_is_member(
    a: Seq<char>,
    key: Seq<char>,
    text: Seq<char>,
    b: Seq<char>,
    value: Json,
)
    requires
        is_plain(key),
        denotes(text, value),
        blank(a),
        blank(b),
    ensures
        denotes_member(a + field_json(key, text) + b, Member { key, value }),
{
    reveal_strlit(": ");
    let none = Seq::<char>::empty();
    let space = seq![' '];
    plain_text_denotes_itself(key);
    padding_changes_nothing(space, text, b, value);
    let whole = between(between(a, quoted(key), none), seq![':'], space + text + b);
    assert(": "@ =~= seq![':'] + space);
    assert(a + field_json(key, text) + b =~= whole);
}

/// One more member, after a comma.
pub proof fn one_more_member(
    before: Seq<char>,
    members: Seq<Member>,
    last: Seq<char>,
    member: Member,
)
    requires
        members.len() > 0,
        denotes_members(before, members),
        denotes_member(last, member),
    ensures
        denotes_members(before + seq![','] + last, members.push(member)),
{
    assert(members.push(member).drop_last() =~= members);
    assert(before + seq![','] + last == between(before, seq![','], last));
}

proof fn items_json_denotes_items(texts: Seq<Seq<char>>, items: Seq<Json>, end: Seq<char>)
    requires
        texts.len() == items.len() > 0,
        forall|i: int| 0 <= i < texts.len() ==> denotes(#[trigger] texts[i], items[i]),
        blank(end),
    ensures
        denotes_items(items_json(texts) + end, items),
    decreases texts.len(),
{
    reveal_strlit("\n    ");
    let lead = "\n    "@;
    assert(blank(lead));
    let none = Seq::<char>::empty();
    let last = texts.last();
    assert(denotes(texts[texts.len() - 1], items[items.len() - 1]));
    padding_changes_nothing(lead, last, end, items.last());
    if texts.len() > 1 {
        let before = texts.drop_last();
        assert forall|i: int| 0 <= i < before.len() implies denotes(
            #[trigger] before[i],
            items.drop_last()[i],
        ) by {
            assert(before[i] == texts[i]);
        }
        items_json_denotes_items(before, items.drop_last(), none);
        assert(items_json(before) + none =~= items_json(before));
        assert(items_json(texts) + end =~= between(
            items_json(before),
            seq![','],
            lead + last + end,
        ));
    }
}

/// A list of texts that stand for values is a text that stands for the list of these values.
pub proof fn list_json_denotes_list(texts: Seq<Seq<char>>, items: Seq<Json>)
    requires
        texts.len() == items.len(),
        forall|i: int| 0 <= i < texts.len() ==> denotes(#[trigger] texts[i], items[i]),
    ensures
        denotes(list_json(texts), Json::List(items)),
{
    reveal_strlit("\n  ");
    let end = if texts.len() == 0 {
        Seq::empty()
    } else {
        "\n  "@
    };
    if texts.len() > 0 {
        items_json_denotes_items(texts, items, end);
    }
    assert(list_json(texts) == bracketed(items_json(texts) + end));
}

} // verus!
