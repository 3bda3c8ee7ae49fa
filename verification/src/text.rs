//! Text: comparing strings, appending characters and writing numbers.

use vstd::prelude::*;
use vstd::utf8::encode_utf8;

verus! {

/// `String::push`: the character is appended to the text and nothing else changes.
pub assume_specification[ String::push ](s: &mut String, c: char)
    ensures
        final(s)@ == old(s)@.push(c),
;

/// The decimal digit `d`.
pub open spec fn digit(d: nat) -> char {
    (48 + d) as char
}

/// `n` in decimal, without leading zeros.
pub open spec fn decimal(n: nat) -> Seq<char>
    decreases n,
{
    if n < 10 {
        seq![digit(n)]
    } else {
        decimal(n / 10).push(digit(n % 10))
    }
}

/// Appends `n` in decimal.
pub fn push_decimal(out: &mut String, n: u64)
    ensures
        final(out)@ == old(out)@ + decimal(n as nat),
    decreases n,
{
    let ghost before = out@;
    if n >= 10 {
        push_decimal(out, n / 10);
    }
    let d: u8 = (n % 10) as u8;
    out.push((48 + d) as char);
    proof {
        if n >= 10 {
            assert(out@ =~= before + decimal((n / 10) as nat).push(digit((n % 10) as nat)));
        } else {
            assert(out@ =~= before + seq![digit(n as nat)]);
        }
    }
}

/// `n` in decimal.
pub fn decimal_text(n: u64) -> (text: String)
    ensures
        text@ == decimal(n as nat),
{
    let mut text = String::new();
    push_decimal(&mut text, n);
    assert(text@ =~= decimal(n as nat));
    text
}

/// Different numbers have different decimal texts.
pub proof fn decimal_is_injective(m: nat, n: nat)
    requires
        decimal(m) == decimal(n),
    ensures
        m == n,
    decreases m,
{
    let a = decimal(m);
    let b = decimal(n);
    assert(a.last() == digit(m % 10));
    assert(b.last() == digit(n % 10));
    assert(digit(m % 10) as nat == 48 + m % 10);
    assert(digit(n % 10) as nat == 48 + n % 10);
    if m >= 10 {
        assert(a.drop_last() =~= decimal(m / 10));
        assert(decimal(m / 10).len() >= 1);
    }
    if n >= 10 {
        assert(b.drop_last() =~= decimal(n / 10));
        assert(decimal(n / 10).len() >= 1);
    }
    if m >= 10 && n >= 10 {
        decimal_is_injective(m / 10, n / 10);
    }
}

/// The parts of `rest` between separators, where `part` has been read of the first one. Empty
/// parts do not count.
pub open spec fn parts_from<T>(rest: Seq<T>, part: Seq<T>, separator: T) -> Seq<Seq<T>>
    decreases rest.len(),
{
    let done = if part.len() == 0 {
        Seq::empty()
    } else {
        seq![part]
    };
    if rest.len() == 0 {
        done
    } else if rest[0] == separator {
        done + parts_from(rest.drop_first(), Seq::empty(), separator)
    } else {
        parts_from(rest.drop_first(), part.push(rest[0]), separator)
    }
}

proof fn part_to_the_end<T>(rest: Seq<T>, part: Seq<T>, separator: T)
    requires
        !rest.contains(separator),
        part.len() + rest.len() > 0,
    ensures
        parts_from(rest, part, separator) == seq![part + rest],
    decreases rest.len(),
{
    if rest.len() == 0 {
        assert(part + rest =~= part);
    } else {
        assert(rest.contains(rest[0]));
        let less = rest.drop_first();
        assert forall|i: int| 0 <= i < less.len() implies less[i] != separator by {
            assert(rest.contains(rest[i + 1]));
        }
        part_to_the_end(less, part.push(rest[0]), separator);
        assert(part.push(rest[0]) + less =~= part + rest);
    }
}

/// A separator and a text without one, at the end, are one more part.
pub proof fn one_more_part<T>(before: Seq<T>, part: Seq<T>, last: Seq<T>, separator: T)
    requires
        last.len() > 0,
        !last.contains(separator),
    ensures
        parts_from(before.push(separator) + last, part, separator) == parts_from(
            before,
            part,
            separator,
        ).push(last),
    decreases before.len(),
{
    let whole = before.push(separator) + last;
    if before.len() == 0 {
        assert(whole.drop_first() =~= last);
        part_to_the_end(last, Seq::empty(), separator);
        assert(Seq::<T>::empty() + last =~= last);
        assert(parts_from(whole, part, separator) =~= parts_from(before, part, separator).push(
            last,
        ));
    } else {
        let less = before.drop_first();
        assert(whole.drop_first() =~= less.push(separator) + last);
        assert(whole[0] == before[0]);
        if before[0] == separator {
            one_more_part(less, Seq::empty(), last, separator);
        } else {
            one_more_part(less, part.push(before[0]), last, separator);
        }
        assert(parts_from(whole, part, separator) =~= parts_from(before, part, separator).push(
            last,
        ));
    }
}

/// A text without a separator is one part.
pub proof fn one_part<T>(text: Seq<T>, separator: T)
    requires
        text.len() > 0,
        !text.contains(separator),
    ensures
        parts_from(text, Seq::empty(), separator) == seq![text],
{
    part_to_the_end(text, Seq::empty(), separator);
    assert(Seq::<T>::empty() + text =~= text);
}

/// Whether two byte strings are equal.
pub fn same_bytes(a: &[u8], b: &[u8]) -> (same: bool)
    ensures
        same == (a@ == b@),
{
    if a.len() != b.len() {
        return false;
    }
    let mut i: usize = 0;
    while i < a.len()
        invariant
            a@.len() == b@.len(),
            i <= a@.len(),
            forall|j: int| 0 <= j < i ==> a@[j] == b@[j],
        decreases a@.len() - i,
    {
        if a[i] != b[i] {
            return false;
        }
        i += 1;
    }
    assert(a@ =~= b@);
    true
}

/// Texts with the same UTF-8 encoding are the same text.
pub proof fn encoding_is_injective(a: Seq<char>, b: Seq<char>)
    requires
        encode_utf8(a) == encode_utf8(b),
    ensures
        a == b,
{
    vstd::utf8::encode_utf8_decode_utf8(a);
    vstd::utf8::encode_utf8_decode_utf8(b);
}

/// Whether two texts are equal.
pub fn same_text(a: &str, b: &str) -> (same: bool)
    ensures
        same == (a@ == b@),
{
    let same = same_bytes(a.as_bytes(), b.as_bytes());
    proof {
        if same {
            encoding_is_injective(a@, b@);
        }
    }
    same
}

} // verus!
