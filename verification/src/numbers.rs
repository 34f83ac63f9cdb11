//! Numbers as the listing page shows them: counts with thousands separators,
//! sizes in binary units with a fixed number of decimals.
use crate::text::{decimal_digits, digit_char, padded_digits, push_decimal, push_padded, string_of};
use vstd::arithmetic::div_mod::lemma_fundamental_div_mod_converse;
use vstd::prelude::*;

verus! {

/// The three decimal digits of a number below a thousand.
pub open spec fn three_digits(n: nat) -> Seq<char> {
    seq![digit_char(n / 100), digit_char((n / 10) % 10), digit_char(n % 10)]
}

/// The decimal notation of `n` with a comma before every group of three digits,
/// counted from the right.
pub open spec fn with_commas(n: nat) -> Seq<char>
    decreases n,
{
    if n < 1000 {
        decimal_digits(n)
    } else {
        with_commas(n / 1000) + seq![','] + three_digits(n % 1000)
    }
}

/// `thousands::Separable::separate_with_commas` on a `u64`: its decimal
/// notation with a comma inserted every three digits from the right.
#[verifier::external_body]
fn separate_with_commas(n: u64) -> (s: String)
    ensures
        s@ == with_commas(n as nat),
{
    thousands::Separable::separate_with_commas(&n)
}

/// A count as the listing page shows it.
pub fn grouped(n: u64) -> (s: String)
    ensures
        s@ == with_commas(n as nat),
{
    separate_with_commas(n)
}

/// The integer nearest to `num / den`; where two are equally near, the even
/// one.
pub open spec fn rounded_ratio(num: nat, den: nat) -> nat {
    let q = num / den;
    let r = num % den;
    if 2 * r < den {
        q
    } else if 2 * r > den {
        q + 1
    } else if q % 2 == 0 {
        q
    } else {
        q + 1
    }
}

/// `hundredths` hundredths, written with two decimals.
pub open spec fn two_decimals(hundredths: nat) -> Seq<char> {
    decimal_digits(hundredths / 100) + seq!['.'] + padded_digits(hundredths % 100, 2)
}

/// `thousandths` thousandths, written with three decimals.
pub open spec fn three_decimals(thousandths: nat) -> Seq<char> {
    decimal_digits(thousandths / 1000) + seq!['.'] + padded_digits(thousandths % 1000, 3)
}

/// The bytes of a mebibyte.
pub const MIB: u64 = 1048576;

/// The bytes of a gibibyte.
pub const GIB: u64 = 1073741824;

/// A size in bytes as mebibytes with two decimals, rounded to the nearest
/// hundredth, a tie to the even one.
pub open spec fn mib_text(size: nat) -> Seq<char> {
    two_decimals(rounded_ratio(size * 100, MIB as nat))
}

/// A size in bytes as gibibytes with three decimals, rounded to the nearest
/// thousandth, a tie to the even one.
pub open spec fn gib_text(size: nat) -> Seq<char> {
    three_decimals(rounded_ratio(size * 1000, GIB as nat))
}

/// Appends `size / den` with `places` decimals to `out`, where `scale` is ten
/// to the power `places`.
fn push_ratio(out: &mut Vec<char>, size: u128, den: u64, scale: u64, places: u8)
    requires
        (den == MIB && scale == 100 && places == 2) || (den == GIB && scale == 1000 && places
            == 3),
    ensures
        final(out)@ == old(out)@ + decimal_digits(
            rounded_ratio((size * scale) as nat, den as nat) / (scale as nat),
        ) + seq!['.'] + padded_digits(
            rounded_ratio((size * scale) as nat, den as nat) % (scale as nat),
            places as nat,
        ),
{
    let den_wide = den as u128;
    let scale_wide = scale as u128;
    let whole: u128 = size / den_wide;
    let rest: u128 = size % den_wide;
    let part: u128 = rest * scale_wide;
    let quotient: u128 = part / den_wide;
    let remainder: u128 = part % den_wide;
    let up: bool = 2 * remainder > den_wide || (2 * remainder == den_wide && quotient % 2 == 1);
    let mut units: u128 = whole;
    let mut fraction: u128 = if up {
        quotient + 1
    } else {
        quotient
    };
    if fraction == scale_wide {
        units = whole + 1;
        fraction = 0;
    }
    proof {
        let total = (size * scale) as int;
        let q = whole * scale + quotient;
        assert(size == whole * den + rest);
        assert(part == quotient * den + remainder);
        assert(total == q * den + remainder) by (nonlinear_arith)
            requires
                total == size * scale,
                size == whole * den + rest,
                rest * scale == quotient * den + remainder,
                q == whole * scale + quotient,
        ;
        lemma_fundamental_div_mod_converse(total, den as int, q, remainder as int);
        assert(q % 2 == quotient % 2) by (nonlinear_arith)
            requires
                q == whole * scale + quotient,
                scale == 100 || scale == 1000,
        ;
        assert(rest * scale < den * scale) by (nonlinear_arith)
            requires
                rest < den,
                scale > 0,
        ;
        assert(quotient < scale) by (nonlinear_arith)
            requires
                rest * scale < den * scale,
                rest * scale == quotient * den + remainder,
                remainder >= 0,
                den > 0,
        ;
        let bumped: int = if up {
            quotient + 1
        } else {
            quotient as int
        };
        let rounded = rounded_ratio(total as nat, den as nat) as int;
        assert(rounded == whole * scale + bumped);
        assert(rounded == units * scale + fraction) by (nonlinear_arith)
            requires
                rounded == whole * scale + bumped,
                (bumped == scale && units == whole + 1 && fraction == 0) || (bumped != scale
                    && units == whole && fraction == bumped),
        ;
        lemma_fundamental_div_mod_converse(rounded, scale as int, units as int, fraction as int);
    }
    push_decimal(out, units);
    out.push('.');
    push_padded(out, fraction, places);
}

/// A size in bytes as the listing page shows it beside a file: mebibytes with
/// two decimals.
pub fn mib(size: u64) -> (s: String)
    ensures
        s@ == mib_text(size as nat),
{
    let mut out: Vec<char> = Vec::new();
    push_ratio(&mut out, size as u128, MIB, 100, 2);
    string_of(out.as_slice())
}

/// A size in bytes as the listing page shows the total: gibibytes with three
/// decimals.
pub fn gib(size: u128) -> (s: String)
    ensures
        s@ == gib_text(size as nat),
{
    let mut out: Vec<char> = Vec::new();
    push_ratio(&mut out, size, GIB, 1000, 3);
    string_of(out.as_slice())
}

} // verus!
