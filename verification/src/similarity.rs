//! How much two names resemble each other, in percent.
use crate::external::{jaro_winkler, jaro_winkler_bits};
use vstd::arithmetic::div_mod::lemma_fundamental_div_mod;
use vstd::arithmetic::power2::{
    lemma2_to64_rest, lemma_pow2_pos, lemma_pow2_strictly_increases, pow2,
};
use vstd::prelude::*;

verus! {

/// `2^52`, by which the fraction of a double is counted.
pub const FRACTION_UNIT: u64 = 0x10_0000_0000_0000;

/// `2^59`, from which on a product of 100 and a 53-bit number has 60 bits.
pub const WIDE_PRODUCT: u64 = 0x800_0000_0000_0000;

/// Whether the sign bit of a double is set.
pub open spec fn is_negative(bits: u64) -> bool {
    bits >= 0x8000_0000_0000_0000
}

/// The biased exponent of a double.
pub open spec fn exponent(bits: u64) -> int {
    (bits / FRACTION_UNIT) as int % 0x800
}

/// The fraction of a double.
pub open spec fn fraction(bits: u64) -> int {
    (bits % FRACTION_UNIT) as int
}

/// `value / unit` rounded to the nearest integer, and to the even one halfway between two.
pub open spec fn nearest_even(value: int, unit: int) -> int {
    let low = value / unit;
    let rest = value % unit;
    if 2 * rest < unit || (2 * rest == unit && low % 2 == 0) {
        low
    } else {
        low + 1
    }
}

/// The significand of a hundred times a normal double: the exact product, rounded to the 53 bits
/// that a double holds.
pub open spec fn hundredfold(fraction: int) -> int {
    let product = 100 * (FRACTION_UNIT + fraction);
    let unit: int = if product < WIDE_PRODUCT {
        64
    } else {
        128
    };
    nearest_even(product, unit) * unit
}

/// `significand / 2^scale` rounded to the nearest integer, and away from zero halfway between two.
pub open spec fn nearest_away(significand: int, scale: nat) -> int {
    (2 * significand + pow2(scale)) / (2 * pow2(scale) as int)
}

/// A hundred times the double with these bits, rounded to an integer between 0 and 100. What is
/// not a number counts as 0.
pub open spec fn percent_of_bits(bits: u64) -> int {
    if is_negative(bits) || (exponent(bits) == 0x7ff && fraction(bits) != 0) {
        0
    } else if exponent(bits) >= 1023 {
        100
    } else if exponent(bits) == 0 {
        0
    } else {
        let percent = nearest_away(hundredfold(fraction(bits)), (1075 - exponent(bits)) as nat);
        if percent > 100 {
            100
        } else {
            percent
        }
    }
}

/// The similarity of two names in percent.
pub open spec fn similarity(a: Seq<char>, b: Seq<char>) -> int {
    percent_of_bits(jaro_winkler_bits(a, b))
}

proof fn lemma_hundredfold_bounds(fraction: int)
    requires
        0 <= fraction < FRACTION_UNIT,
    ensures
        100 * FRACTION_UNIT <= hundredfold(fraction) <= 200 * FRACTION_UNIT,
{
}

/// Rounds a similarity, given by the bits of a double, to percent.
pub fn percent(bits: u64) -> (percent: u16)
    ensures
        percent == percent_of_bits(bits),
        percent <= 100,
{
    let ghost e = exponent(bits);
    let biased: u64 = bits / FRACTION_UNIT % 0x800;
    let tail: u64 = bits % FRACTION_UNIT;
    if bits >= 0x8000_0000_0000_0000 || (biased == 0x7ff && tail != 0) {
        return 0;
    }
    if biased >= 1023 {
        return 100;
    }
    if biased == 0 {
        return 0;
    }
    proof {
        lemma_hundredfold_bounds(tail as int);
        lemma2_to64_rest();
    }
    if biased < 1015 {
        proof {
            let scale = (1075 - e) as nat;
            if scale > 61 {
                lemma_pow2_strictly_increases(61, scale);
            }
            assert(pow2(61) == 0x2000_0000_0000_0000);
            let p = hundredfold(tail as int);
            assert((2 * p + pow2(scale)) / (2 * pow2(scale) as int) == 0) by (nonlinear_arith)
                requires
                    0 <= p,
                    2 * p < pow2(scale),
            ;
        }
        return 0;
    }
    let product: u64 = 100 * (FRACTION_UNIT + tail);
    let unit: u64 = if product < WIDE_PRODUCT {
        64
    } else {
        128
    };
    let low: u64 = product / unit;
    let rest: u64 = product % unit;
    let rounded: u64 = if 2 * rest < unit || (2 * rest == unit && low % 2 == 0) {
        low
    } else {
        low + 1
    };
    let significand: u64 = rounded * unit;
    let mut scale: u64 = 53;
    let mut power: u64 = 0x20_0000_0000_0000;
    while scale < 1075 - biased
        invariant
            53 <= scale <= 1075 - biased <= 60,
            power == pow2(scale as nat),
            power <= 0x1000_0000_0000_0000,
        decreases 60 - scale,
    {
        proof {
            lemma2_to64_rest();
            if scale + 1 < 60 {
                lemma_pow2_strictly_increases((scale + 1) as nat, 60);
            }
        }
        power = power * 2;
        scale = scale + 1;
    }
    let value: u64 = (2 * significand + power) / (2 * power);
    if value > 100 {
        100
    } else {
        value as u16
    }
}

/// The bits of a double that is not negative are its exponent and its fraction.
pub proof fn law_parts_of_a_double(bits: u64)
    ensures
        is_negative(bits) <==> bits >= 0x8000_0000_0000_0000,
        0 <= fraction(bits) < 0x10_0000_0000_0000,
        0 <= exponent(bits) < 0x800,
        !is_negative(bits) ==> bits == exponent(bits) * 0x10_0000_0000_0000 + fraction(bits),
{
}

/// What is below zero, no number, or smaller than any normal double is no percent, and what is one
/// or more is a hundred percent.
pub proof fn law_percent_of_other_doubles(bits: u64)
    ensures
        is_negative(bits) ==> percent_of_bits(bits) == 0,
        exponent(bits) == 0x7ff && fraction(bits) != 0 ==> percent_of_bits(bits) == 0,
        !is_negative(bits) && exponent(bits) == 0 ==> percent_of_bits(bits) == 0,
        !is_negative(bits) && 1023 <= exponent(bits) < 0x7ff ==> percent_of_bits(bits) == 100,
        !is_negative(bits) && exponent(bits) == 0x7ff && fraction(bits) == 0 ==> percent_of_bits(
            bits,
        ) == 100,
{
}

/// A hundred times a normal double is off by at most half of the last bit of a double, and the
/// percentage is the integer nearest to that, the upper one of two, and at most a hundred.
pub proof fn law_percent_is_the_nearest(bits: u64)
    requires
        !is_negative(bits),
        0 < exponent(bits) < 1023,
    ensures
        ({
            let exact = 100 * (0x10_0000_0000_0000 + fraction(bits));
            let rounded = hundredfold(fraction(bits));
            let one = pow2((1075 - exponent(bits)) as nat) as int;
            let percent = percent_of_bits(bits);
            &&& exact - 64 <= rounded <= exact + 64
            &&& exact < 0x800_0000_0000_0000 ==> exact - 32 <= rounded <= exact + 32
            &&& 0 <= percent <= 100
            &&& percent < 100 ==> 2 * rounded - one < 2 * (percent * one) <= 2 * rounded + one
            &&& percent == 100 ==> 199 * one <= 2 * rounded
        }),
{
    let rounded = hundredfold(fraction(bits));
    let scale = (1075 - exponent(bits)) as nat;
    let one = pow2(scale) as int;
    lemma_pow2_pos(scale);
    lemma_hundredfold_bounds(fraction(bits));
    let quotient = nearest_away(rounded, scale);
    lemma_fundamental_div_mod(2 * rounded + one, 2 * one);
    assert(2 * rounded + one == (2 * one) * quotient + (2 * rounded + one) % (2 * one));
    assert(0 <= (2 * rounded + one) % (2 * one) < 2 * one) by (nonlinear_arith)
        requires
            one > 0,
    ;
    assert((2 * one) * quotient == 2 * (quotient * one)) by (nonlinear_arith);
    assert(quotient >= 0) by (nonlinear_arith)
        requires
            one > 0,
            2 * (quotient * one) > 2 * rounded - one,
            rounded >= 0,
    ;
    assert(quotient >= 100 ==> quotient * one >= 100 * one) by (nonlinear_arith)
        requires
            one > 0,
    ;
}

/// Two names are as similar as the percentage of their Jaro-Winkler similarity, the first one
/// compared with the second.
pub proof fn law_similarity_of_names(a: Seq<char>, b: Seq<char>)
    ensures
        similarity(a, b) == percent_of_bits(jaro_winkler_bits(a, b)),
{
}

/// Compares two names.
pub fn name_similarity(a: &str, b: &str) -> (score: u16)
    ensures
        score == similarity(a@, b@),
        score <= 100,
{
    percent(jaro_winkler(a, b))
}

} // verus!
