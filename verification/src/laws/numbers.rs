//! Numbers as texts, and byte counts for people.

use vstd::prelude::*;

use crate::size::{
    bytes_text, half_even, rounded_to_double, spacing, unit_bytes, unit_index,
    unit_name,
};
use crate::text::{decimal, digit, parts_from};

verus! {

/// The number that a text of decimal digits stands for.
pub open spec fn number_in(text: Seq<char>) -> nat
    decreases text.len(),
{
    if text.len() == 0 {
        0
    } else {
        10 * number_in(text.drop_last()) + (text.last() as nat - 48) as nat
    }
}

/// A number in decimal stands for the number, is made of the digits from `0` to `9`, and has no zero
/// in front.
pub proof fn decimal_stands_for_the_number(n: nat)
    ensures
        number_in(decimal(n)) == n,
        decimal(n).len() > 0,
        forall|i: int| 0 <= i < decimal(n).len() ==> '0' <= #[trigger] decimal(n)[i] <= '9',
        n > 0 ==> decimal(n)[0] != '0',
        n == 0 ==> decimal(n).len() == 1,
    decreases n,
{
    reveal_with_fuel(number_in, 2);
    let text = decimal(n);
    assert(digit(n % 10) as nat == 48 + n % 10);
    assert('0' as nat == 48 && '9' as nat == 57);
    if n >= 10 {
        decimal_stands_for_the_number(n / 10);
        assert(text.drop_last() =~= decimal(n / 10));
        assert forall|i: int| 0 <= i < text.len() implies '0' <= #[trigger] text[i] <= '9' by {
            if i < text.len() - 1 {
                assert(text[i] == decimal(n / 10)[i]);
            }
        }
        assert(text[0] == decimal(n / 10)[0]);
    } else {
        assert(text.drop_last() =~= Seq::empty());
    }
}

/// Whether `q` is the whole number nearest to `num / den`, and the even one of two that are as near.
pub open spec fn is_nearest(q: nat, num: nat, den: nat) -> bool {
    &&& 2 * (q * den) <= 2 * num + den
    &&& 2 * num <= 2 * (q * den) + den
    &&& 2 * (q * den) == 2 * num + den || 2 * num == 2 * (q * den) + den ==> q % 2 == 0
}

/// Rounding gives the nearest whole number, and the even one of two that are as near.
pub proof fn rounding_gives_the_nearest(num: nat, den: nat)
    requires
        den > 0,
    ensures
        is_nearest(half_even(num, den), num, den),
{
    let q = num / den;
    let rest = num % den;
    assert(q * den + rest == num && (q + 1) * den == q * den + den && rest < den)
        by (nonlinear_arith)
        requires
            den > 0,
            q == num / den,
            rest == num % den,
    ;
}

/// What is kept of a byte count is the nearest of the numbers that have 53 significant bits.
pub proof fn kept_bytes_have_53_bits(bytes: nat)
    ensures
        exists|m: nat| #[trigger]
            is_nearest(m, bytes, spacing(bytes)) && rounded_to_double(bytes) == m * spacing(bytes),
        bytes < 0x20_0000_0000_0000 ==> spacing(bytes) == 1 && rounded_to_double(bytes) == bytes,
        bytes >= 0x20_0000_0000_0000 ==> spacing(bytes) == 2 * spacing(bytes / 2),
        spacing(bytes) > 0,
{
    spacing_is_some(bytes);
    let m = half_even(bytes, spacing(bytes));
    rounding_gives_the_nearest(bytes, spacing(bytes));
    assert(is_nearest(m, bytes, spacing(bytes)));
    if bytes < 0x20_0000_0000_0000 {
        assert(m == bytes);
        assert(m * spacing(bytes) == m) by (nonlinear_arith)
            requires
                spacing(bytes) == 1,
        ;
    }
}

proof fn spacing_is_some(n: nat)
    ensures
        spacing(n) > 0,
    decreases n,
{
    if n >= 0x20_0000_0000_0000 {
        spacing_is_some(n / 2);
    }
}

/// Whether `name` is the name of a unit of `unit` bytes.
pub open spec fn is_unit(unit: nat, name: Seq<char>) -> bool {
    ||| unit == 1 && name == "B"@
    ||| unit == 1024 && name == "KB"@
    ||| unit == 1024 * 1024 && name == "MB"@
    ||| unit == 1024 * 1024 * 1024 && name == "GB"@
    ||| unit == 1024 * 1024 * 1024 * 1024 && name == "TB"@
}

/// A byte count is shown in the largest unit that is no larger: as the nearest whole number of units
/// from ten units on, and as the nearest tenth below.
pub proof fn bytes_are_shown_in_their_unit(bytes: nat, unit: nat, name: Seq<char>)
    requires
        is_unit(unit, name),
        1024 <= unit ==> unit <= bytes,
        bytes < 1024 * unit || unit == 1024 * 1024 * 1024 * 1024,
    ensures
        unit == 1 ==> bytes_text(bytes) == decimal(bytes) + " B"@,
        unit > 1 && rounded_to_double(bytes) >= 10 * unit ==> exists|q: nat| #[trigger]
            is_nearest(q, rounded_to_double(bytes), unit) && bytes_text(bytes) == decimal(q) + " "@
                + name,
        unit > 1 && rounded_to_double(bytes) < 10 * unit ==> exists|t: nat| #[trigger]
            is_nearest(t, 10 * rounded_to_double(bytes), unit) && bytes_text(bytes) == decimal(
                t / 10,
            ) + "."@ + decimal(t % 10) + " "@ + name,
{
    reveal_strlit(" B");
    reveal_strlit("B");
    reveal_strlit(" ");
    reveal_strlit(".");
    let kept = rounded_to_double(bytes);
    assert(unit_bytes(unit_index(bytes)) == unit);
    assert(unit_name(unit_index(bytes)) == name);
    if unit == 1 {
        kept_bytes_have_53_bits(bytes);
        assert(half_even(bytes, 1) == bytes);
        assert(bytes_text(bytes) =~= decimal(bytes) + " B"@);
    } else if kept >= 10 * unit {
        let q = half_even(kept, unit);
        rounding_gives_the_nearest(kept, unit);
        assert(bytes_text(bytes) =~= decimal(q) + " "@ + name);
    } else {
        let t = half_even(10 * kept, unit);
        rounding_gives_the_nearest(10 * kept, unit);
        assert(decimal(t % 10) =~= seq![digit(t % 10)]);
        assert(bytes_text(bytes) =~= decimal(t / 10) + "."@ + decimal(t % 10) + " "@ + name);
    }
}

/// The parts of a text between separators hold no separator and are not empty, and together they are
/// the text without its separators.
pub proof fn parts_are_the_text_without_separators<T>(
    rest: Seq<T>,
    part: Seq<T>,
    separator: T,
)
    requires
        !part.contains(separator),
    ensures
        parts_from(rest, part, separator).flatten() == part + rest.filter(|c: T| c != separator),
        forall|i: int|
            0 <= i < parts_from(rest, part, separator).len() ==> {
                &&& (#[trigger] parts_from(rest, part, separator)[i]).len() > 0
                &&& !parts_from(rest, part, separator)[i].contains(separator)
            },
    decreases rest.len(),
{
    let f = |c: T| c != separator;
    let all = parts_from(rest, part, separator);
    reveal(Seq::filter);
    if rest.len() == 0 {
        if part.len() == 0 {
            assert(all.flatten() =~= Seq::empty());
        } else {
            assert(all =~= seq![part]);
            assert(all.drop_first() =~= Seq::empty());
            assert(all.drop_first().flatten() =~= Seq::empty());
            assert(all.flatten() =~= part);
        }
        assert(rest.filter(f) =~= Seq::empty());
    } else {
        let less = rest.drop_first();
        assert(rest =~= seq![rest[0]] + less);
        Seq::filter_distributes_over_add(seq![rest[0]], less, f);
        let one = seq![rest[0]];
        assert(one.drop_last() =~= Seq::empty());
        assert(one.drop_last().filter(f) =~= Seq::empty());
        assert(one.filter(f) =~= if rest[0] != separator {
            seq![rest[0]]
        } else {
            Seq::empty()
        });
        if rest[0] == separator {
            let inner = parts_from(less, Seq::empty(), separator);
            parts_are_the_text_without_separators(less, Seq::empty(), separator);
            if part.len() == 0 {
                assert(all =~= inner);
            } else {
                assert(all =~= seq![part] + inner);
                assert(all.drop_first() =~= inner);
                assert(all.first() == part);
            }
            assert(all.flatten() =~= part + rest.filter(f));
        } else {
            let longer = part.push(rest[0]);
            assert forall|i: int| 0 <= i < longer.len() implies longer[i] != separator by {
                if i < part.len() {
                    assert(part.contains(part[i]));
                }
            }
            parts_are_the_text_without_separators(less, longer, separator);
            assert(longer + less.filter(f) =~= part + rest.filter(f));
        }
    }
}

/// A separator at the end of a text adds no part, and one in front of it neither.
pub proof fn separators_at_the_ends_add_no_part<T>(text: Seq<T>, part: Seq<T>, separator: T)
    ensures
        parts_from(text.push(separator), part, separator) == parts_from(text, part, separator),
        parts_from(seq![separator] + text, Seq::empty(), separator) == parts_from(
            text,
            Seq::empty(),
            separator,
        ),
    decreases text.len(),
{
    assert((seq![separator] + text).drop_first() =~= text);
    assert(parts_from(seq![separator] + text, Seq::empty(), separator) =~= parts_from(
        text,
        Seq::empty(),
        separator,
    ));
    let longer = text.push(separator);
    if text.len() == 0 {
        assert(longer.drop_first() =~= text);
        assert(parts_from(text, Seq::<T>::empty(), separator) =~= Seq::empty());
    } else {
        assert(longer.drop_first() =~= text.drop_first().push(separator));
        separators_at_the_ends_add_no_part(text.drop_first(), Seq::empty(), separator);
        separators_at_the_ends_add_no_part(text.drop_first(), part.push(text[0]), separator);
    }
    assert(parts_from(longer, part, separator) =~= parts_from(text, part, separator));
}

} // verus!
