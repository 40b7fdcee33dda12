//! Human-readable file sizes with three significant digits and a decimal
//! unit (`B`, `KB`, `MB`, ...).
//!
//! The whole computation is done on integers: the size is divided by a power
//! of ten and rounded to the nearest value, ties going to the even one.

use vstd::prelude::*;
use vstd::arithmetic::div_mod::lemma_div_denominator;
use vstd::arithmetic::div_mod::lemma_fundamental_div_mod;
use crate::text::decimal;
use crate::text::digit;
use crate::text::digit_char;
use crate::text::push_decimal;

verus! {

/// Ten to the power `k`.
pub open spec fn pow10(k: nat) -> nat
    decreases k,
{
    if k == 0 {
        1
    } else {
        10 * pow10((k - 1) as nat)
    }
}

/// The number of decimal digits of `n`, less one.
pub open spec fn magnitude(n: nat) -> nat
    decreases n,
{
    if n < 10 {
        0
    } else {
        1 + magnitude(n / 10)
    }
}

/// `n / d` rounded to the nearest integer; a quotient that lies exactly
/// between two integers goes to the even one.
pub open spec fn round_half_even(n: nat, d: nat) -> nat {
    let q = n / d;
    let r = n % d;
    if 2 * r > d || (2 * r == d && q % 2 == 1) {
        q + 1
    } else {
        q
    }
}

/// The unit in which a size of `n` bytes is shown, with the space before it.
pub open spec fn unit_suffix(n: nat) -> Seq<char> {
    if n < 1_000 {
        " B"@
    } else if n < 1_000_000 {
        " KB"@
    } else if n < 1_000_000_000 {
        " MB"@
    } else if n < 1_000_000_000_000 {
        " GB"@
    } else if n < 1_000_000_000_000_000 {
        " TB"@
    } else if n < 1_000_000_000_000_000_000 {
        " PB"@
    } else {
        " EB"@
    }
}

/// `scaled` written with its last `places` digits behind a decimal point,
/// for `places` of 0, 1 or 2.
pub open spec fn fixed_point(scaled: nat, places: nat) -> Seq<char> {
    if places == 0 {
        decimal(scaled)
    } else if places == 1 {
        decimal(scaled / 10).push('.').push(digit((scaled % 10) as int))
    } else {
        decimal(scaled / 100).push('.').push(digit((scaled / 10 % 10) as int)).push(
            digit((scaled % 10) as int),
        )
    }
}

/// The text shown for a size of `length` bytes.
///
/// Below 1000 the size is written out in full. From 1000 on it is cut to
/// its three leading digits, rounded half to even, and the decimal point is
/// placed so that the number counts thousands, millions, ... of bytes:
/// 1234 gives `1.23 KB`, 12345 gives `12.3 KB`, 123456 gives `123 KB`.
/// Rounding may carry into a fourth digit: 999999 gives `1000 KB`.
pub open spec fn size_text(length: nat) -> Seq<char> {
    if length < 1000 {
        decimal(length) + unit_suffix(length)
    } else {
        let e = magnitude(length);
        let places = (2 - e % 3) as nat;
        let scaled = round_half_even(length, pow10((e - 2) as nat));
        fixed_point(scaled, places) + unit_suffix(length)
    }
}

proof fn lemma_magnitude_of_thousands(n: nat)
    requires
        n >= 1000,
    ensures
        magnitude(n) >= 3,
{
    assert(magnitude(n) == 1 + magnitude(n / 10));
    assert(magnitude(n / 10) == 1 + magnitude(n / 10 / 10));
    assert(magnitude(n / 10 / 10) == 1 + magnitude(n / 10 / 10 / 10));
}

proof fn lemma_pow10_split(e: nat)
    requires
        e >= 2,
    ensures
        pow10(e) == 100 * pow10((e - 2) as nat),
        pow10((e - 2) as nat) >= 1,
{
    assert(pow10(e) == 10 * pow10((e - 1) as nat));
    assert(pow10((e - 1) as nat) == 10 * pow10((e - 2) as nat));
    lemma_pow10_positive((e - 2) as nat);
}

proof fn lemma_pow10_positive(k: nat)
    ensures
        pow10(k) >= 1,
    decreases k,
{
    if k > 0 {
        lemma_pow10_positive((k - 1) as nat);
    }
}

/// Appends the unit of a size of `length` bytes.
fn push_unit(out: &mut String, length: u64)
    ensures
        final(out)@ == old(out)@ + unit_suffix(length as nat),
{
    if length < 1_000 {
        out.append(" B");
    } else if length < 1_000_000 {
        out.append(" KB");
    } else if length < 1_000_000_000 {
        out.append(" MB");
    } else if length < 1_000_000_000_000 {
        out.append(" GB");
    } else if length < 1_000_000_000_000_000 {
        out.append(" TB");
    } else if length < 1_000_000_000_000_000_000 {
        out.append(" PB");
    } else {
        out.append(" EB");
    }
}

/// The largest power of ten that is at most `length`, with its exponent.
fn leading_power(length: u64) -> (r: (u64, u64))
    requires
        length >= 1,
    ensures
        r.0 == magnitude(length as nat),
        r.1 == pow10(r.0 as nat),
        r.1 <= length,
        length / r.1 < 10,
{
    let mut rest: u64 = length;
    let mut e: u64 = 0;
    let mut unit: u64 = 1;
    while rest >= 10
        invariant
            1 <= unit <= length,
            rest == length / unit,
            unit == pow10(e as nat),
            magnitude(length as nat) == e + magnitude(rest as nat),
            e < unit,
        decreases rest,
    {
        proof {
            lemma_div_denominator(length as int, unit as int, 10);
            lemma_fundamental_div_mod(length as int, unit as int);
            assert(length >= unit * 10) by (nonlinear_arith)
                requires
                    length == unit * (length / unit) + length % unit,
                    length / unit >= 10,
                    length % unit >= 0,
                    unit >= 1,
            ;
        }
        rest = rest / 10;
        unit = unit * 10;
        e = e + 1;
    }
    (e, unit)
}

/// Renders a size in bytes for display, as `size_text` describes.
pub fn format_file_length(length: u64) -> (out: String)
    ensures
        out@ == size_text(length as nat),
{
    let mut out = String::new();
    if length < 1000 {
        push_decimal(&mut out, length);
        push_unit(&mut out, length);
        return out;
    }
    let (e, unit) = leading_power(length);
    proof {
        lemma_magnitude_of_thousands(length as nat);
        lemma_pow10_split(e as nat);
    }
    let places: u64 = 2 - e % 3;
    let divisor: u64 = unit / 100;
    let q: u64 = length / divisor;
    let r: u64 = length % divisor;
    proof {
        lemma_fundamental_div_mod(length as int, divisor as int);
        assert(q <= length) by (nonlinear_arith)
            requires
                length == divisor * q + r,
                divisor >= 1,
                r >= 0,
        ;
        lemma_fundamental_div_mod(length as int, unit as int);
        assert(q < 1000) by (nonlinear_arith)
            requires
                length == divisor * q + r,
                divisor >= 1,
                r >= 0,
                unit == 100 * divisor,
                length / unit < 10,
                length == unit * (length / unit) + length % unit,
                length % unit < unit,
        ;
    }
    let up: bool = r > divisor - r || (r == divisor - r && q % 2 == 1);
    let scaled: u64 = if up {
        q + 1
    } else {
        q
    };
    assert(scaled == round_half_even(length as nat, pow10((e - 2) as nat)));
    if places == 0 {
        push_decimal(&mut out, scaled);
    } else if places == 1 {
        push_decimal(&mut out, scaled / 10);
        out.push('.');
        out.push(digit_char(scaled % 10));
    } else {
        push_decimal(&mut out, scaled / 100);
        out.push('.');
        out.push(digit_char(scaled / 10 % 10));
        out.push(digit_char(scaled % 10));
    }
    assert(out@ =~= fixed_point(scaled as nat, places as nat));
    push_unit(&mut out, length);
    out
}

} // verus!
