//! Byte counts for people: `format_bytes`.

use vstd::prelude::*;

use crate::text::{decimal, digit, push_decimal};

verus! {

/// `num / den` rounded to the nearest whole number, ties to the even one.
pub open spec fn half_even(num: nat, den: nat) -> nat
    recommends
        den > 0,
{
    let quotient = num / den;
    let rest = num % den;
    if 2 * rest < den || (2 * rest == den && quotient % 2 == 0) {
        quotient
    } else {
        quotient + 1
    }
}

/// The distance between neighbouring numbers of 53 significant bits around `n`.
pub open spec fn spacing(n: nat) -> nat
    decreases n,
{
    if n < 0x20_0000_0000_0000 {
        1
    } else {
        2 * spacing(n / 2)
    }
}

/// `n` rounded to 53 significant bits, ties to even: what a double keeps of it.
pub open spec fn rounded_to_double(n: nat) -> nat {
    half_even(n, spacing(n)) * spacing(n)
}

/// The largest unit, out of five, that is no larger than `bytes`.
pub open spec fn unit_index(bytes: nat) -> nat {
    if bytes < 0x400 {
        0
    } else if bytes < 0x10_0000 {
        1
    } else if bytes < 0x4000_0000 {
        2
    } else if bytes < 0x100_0000_0000 {
        3
    } else {
        4
    }
}

/// The bytes in one unit: `1024` to the power of its index.
pub open spec fn unit_bytes(index: nat) -> nat {
    if index == 0 {
        1
    } else if index == 1 {
        0x400
    } else if index == 2 {
        0x10_0000
    } else if index == 3 {
        0x4000_0000
    } else {
        0x100_0000_0000
    }
}

/// The unit's name.
pub open spec fn unit_name(index: nat) -> Seq<char> {
    if index == 0 {
        "B"@
    } else if index == 1 {
        "KB"@
    } else if index == 2 {
        "MB"@
    } else if index == 3 {
        "GB"@
    } else {
        "TB"@
    }
}

/// A byte count in its unit: without a decimal place from ten units on and for plain bytes,
/// with one decimal place below.
pub open spec fn bytes_text(bytes: nat) -> Seq<char> {
    let index = unit_index(bytes);
    let unit = unit_bytes(index);
    let kept = rounded_to_double(bytes);
    let number = if index == 0 || kept >= 10 * unit {
        decimal(half_even(kept, unit))
    } else {
        let tenths = half_even(10 * kept, unit);
        decimal(tenths / 10).push('.').push(digit(tenths % 10))
    };
    number.push(' ') + unit_name(index)
}

fn divide_half_even(num: u128, den: u128) -> (quotient: u128)
    requires
        den > 0,
        num < 0x1_0000_0000_0000_0000_0000,
        den < 0x1_0000_0000_0000_0000_0000,
    ensures
        quotient == half_even(num as nat, den as nat),
        quotient <= num + 1,
        quotient * den <= num + den,
{
    let quotient: u128 = num / den;
    let rest: u128 = num % den;
    assert(quotient * den + rest == num && quotient <= num && (quotient + 1) * den == quotient * den
        + den) by (nonlinear_arith)
        requires
            den > 0,
            quotient == num / den,
            rest == num % den,
    ;
    if 2 * rest < den || (2 * rest == den && quotient % 2 == 0) {
        quotient
    } else {
        quotient + 1
    }
}

fn spacing_of(n: u64) -> (unit: u64)
    requires
        n > 0,
    ensures
        unit == spacing(n as nat),
        0 < unit <= n,
    decreases n,
{
    if n < 0x20_0000_0000_0000 {
        1
    } else {
        2 * spacing_of(n / 2)
    }
}

/// Writes a byte count the way people read it: `0 B`, `512 B`, `1.5 KB`, `12 MB`.
pub fn format_bytes(bytes: u64) -> (text: String)
    ensures
        text@ == bytes_text(bytes as nat),
{
    let (unit, name): (u128, &str) = if bytes < 0x400 {
        (1, "B")
    } else if bytes < 0x10_0000 {
        (0x400, "KB")
    } else if bytes < 0x4000_0000 {
        (0x10_0000, "MB")
    } else if bytes < 0x100_0000_0000 {
        (0x4000_0000, "GB")
    } else {
        (0x100_0000_0000, "TB")
    };
    let spaced: u64 = if bytes == 0 {
        1
    } else {
        spacing_of(bytes)
    };
    let kept: u128 = divide_half_even(bytes as u128, spaced as u128) * spaced as u128;
    let mut text = String::new();
    if bytes < 0x400 || kept >= 10 * unit {
        let whole: u128 = divide_half_even(kept, unit);
        assert(whole <= u64::MAX) by {
            if unit == 1 {
                assert(half_even(bytes as nat, 1) == bytes);
            } else {
                assert(whole * 0x400 <= whole * unit) by (nonlinear_arith)
                    requires
                        unit >= 0x400,
                ;
            }
        }
        push_decimal(&mut text, whole as u64);
        assert(text@ =~= decimal(whole as nat));
    } else {
        let tenths: u128 = divide_half_even(10 * kept, unit);
        push_decimal(&mut text, (tenths / 10) as u64);
        text.push('.');
        push_decimal(&mut text, (tenths % 10) as u64);
        assert(text@ =~= decimal((tenths / 10) as nat).push('.').push(digit((tenths % 10) as nat)));
    }
    text.push(' ');
    text.append(name);
    text
}

/// Below two to the power of 53 no byte is lost before the count is put into its unit.
pub proof fn small_counts_are_exact(bytes: nat)
    requires
        bytes < 0x20_0000_0000_0000,
    ensures
        rounded_to_double(bytes) == bytes,
{
    assert(spacing(bytes) == 1);
    assert(half_even(bytes, 1) == bytes);
    assert(half_even(bytes, spacing(bytes)) * spacing(bytes) == bytes) by (nonlinear_arith)
        requires
            spacing(bytes) == 1,
            half_even(bytes, spacing(bytes)) == bytes,
    ;
}

/// Rounding changes a count by no more than one part in two to the power of 53.
pub proof fn rounding_is_close(bytes: nat)
    ensures
        2 * (rounded_to_double(bytes) - bytes) <= spacing(bytes),
        2 * (bytes - rounded_to_double(bytes)) <= spacing(bytes),
        bytes > 0 ==> spacing(bytes) * 0x10_0000_0000_0000 <= bytes || spacing(bytes) == 1,
    decreases bytes,
{
    spacing_is_positive(bytes);
    let unit = spacing(bytes);
    let quotient = bytes / unit;
    let rest = bytes % unit;
    assert(quotient * unit + rest == bytes && (quotient + 1) * unit == quotient * unit + unit)
        by (nonlinear_arith)
        requires
            unit > 0,
            quotient == bytes / unit,
            rest == bytes % unit,
    ;
    spacing_is_small(bytes);
}

proof fn spacing_is_positive(n: nat)
    ensures
        spacing(n) > 0,
    decreases n,
{
    if n >= 0x20_0000_0000_0000 {
        spacing_is_positive(n / 2);
    }
}

proof fn spacing_is_small(n: nat)
    ensures
        spacing(n) * 0x10_0000_0000_0000 <= n || spacing(n) == 1,
    decreases n,
{
    if n >= 0x20_0000_0000_0000 {
        spacing_is_small(n / 2);
    }
}

} // verus!
