//! The runtime number: an IEEE-754 binary64 value, carried as its 64-bit
//! pattern.  Equality, ordering and negation are defined here directly on
//! the bit pattern and verified.  Addition, subtraction, multiplication,
//! division and the parsing of numeric literals go through
//! `rustc_apfloat`, a software implementation of the same IEEE-754
//! arithmetic; their results are named, not computed, in specifications.

use vstd::prelude::*;

use rustc_apfloat::Float;
use rustc_apfloat::ieee::Double;

use crate::tokenize::is_digit_c;
use crate::tokenize::num_run;

verus! {

/// The bit pattern with the sign bit cleared.
pub open spec fn num_abs(a: u64) -> u64 {
    a & 0x7fff_ffff_ffff_ffff
}

/// A NaN: exponent all ones and a nonzero mantissa.
pub open spec fn num_is_nan(a: u64) -> bool {
    num_abs(a) > 0x7ff0_0000_0000_0000
}

/// The sign bit.
pub open spec fn num_is_negative(a: u64) -> bool {
    a >= 0x8000_0000_0000_0000
}

/// Positive or negative zero.
pub open spec fn num_is_zero(a: u64) -> bool {
    num_abs(a) == 0
}

/// IEEE-754 equality: a NaN equals nothing, the two zeros are equal, and
/// otherwise equal bit patterns are equal values.
pub open spec fn num_eq(a: u64, b: u64) -> bool {
    !num_is_nan(a) && !num_is_nan(b) && (a == b || (num_is_zero(a) && num_is_zero(b)))
}

/// IEEE-754 ordering: any comparison with a NaN is false; the two zeros
/// are unordered against each other; otherwise negative values sort below
/// positive ones and, within one sign, magnitudes order the values (for
/// negative values, the larger magnitude is the smaller value).
pub open spec fn num_lt(a: u64, b: u64) -> bool {
    &&& !num_is_nan(a)
    &&& !num_is_nan(b)
    &&& !(num_is_zero(a) && num_is_zero(b))
    &&& if num_is_negative(a) != num_is_negative(b) {
        num_is_negative(a)
    } else if num_is_negative(a) {
        num_abs(b) < num_abs(a)
    } else {
        num_abs(a) < num_abs(b)
    }
}

pub open spec fn num_le(a: u64, b: u64) -> bool {
    num_lt(a, b) || num_eq(a, b)
}

/// IEEE-754 negation flips the sign bit and nothing else.
pub open spec fn num_neg(a: u64) -> u64 {
    a ^ 0x8000_0000_0000_0000
}

pub fn eq_number(a: u64, b: u64) -> (r: bool)
    ensures
        r == num_eq(a, b),
{
    let aa = a & 0x7fff_ffff_ffff_ffff;
    let ab = b & 0x7fff_ffff_ffff_ffff;
    if aa > 0x7ff0_0000_0000_0000 || ab > 0x7ff0_0000_0000_0000 {
        false
    } else {
        a == b || (aa == 0 && ab == 0)
    }
}

pub fn lt_number(a: u64, b: u64) -> (r: bool)
    ensures
        r == num_lt(a, b),
{
    let aa = a & 0x7fff_ffff_ffff_ffff;
    let ab = b & 0x7fff_ffff_ffff_ffff;
    if aa > 0x7ff0_0000_0000_0000 || ab > 0x7ff0_0000_0000_0000 {
        return false;
    }
    if aa == 0 && ab == 0 {
        return false;
    }
    let neg_a = a >= 0x8000_0000_0000_0000;
    let neg_b = b >= 0x8000_0000_0000_0000;
    if neg_a != neg_b {
        neg_a
    } else if neg_a {
        ab < aa
    } else {
        aa < ab
    }
}

pub fn le_number(a: u64, b: u64) -> (r: bool)
    ensures
        r == num_le(a, b),
{
    lt_number(a, b) || eq_number(a, b)
}

pub fn negate_number(a: u64) -> (r: u64)
    ensures
        r == num_neg(a),
{
    a ^ 0x8000_0000_0000_0000
}

/// A well-formed numeric lexeme: nonempty, starting with a digit, made of
/// digits with at most one decimal point — exactly what the scanner's
/// number rule accepts in full.
pub open spec fn is_number_lexeme(s: Seq<char>) -> bool {
    s.len() >= 1 && is_digit_c(s[0]) && num_run(s, false) == s.len()
}

// ---------------------------------------------------------------------
// Names for the results of the outside arithmetic
// ---------------------------------------------------------------------

/// The bits of the IEEE-754 binary64 sum of two values given by bits.
pub uninterp spec fn add_bits(a: u64, b: u64) -> u64;

/// The bits of the IEEE-754 binary64 difference of two values given by bits.
pub uninterp spec fn sub_bits(a: u64, b: u64) -> u64;

/// The bits of the IEEE-754 binary64 product of two values given by bits.
pub uninterp spec fn mul_bits(a: u64, b: u64) -> u64;

/// The bits of the IEEE-754 binary64 quotient of two values given by bits.
pub uninterp spec fn div_bits(a: u64, b: u64) -> u64;

/// The bits of the IEEE-754 binary64 value nearest to a decimal lexeme.
pub uninterp spec fn lit_bits(s: Seq<char>) -> u64;

/// Relies on `rustc_apfloat::ieee::Double`'s `add_r` (through `+`, which
/// rounds to nearest, ties to even): IEEE-754 binary64 addition, a
/// function of the operand bits alone.
#[verifier::external_body]
pub(crate) fn add_number(a: u64, b: u64) -> (r: u64)
    ensures
        r == add_bits(a, b),
{
    (Double::from_bits(a as u128) + Double::from_bits(b as u128)).value.to_bits() as u64
}

/// Relies on `rustc_apfloat::ieee::Double`'s `sub_r` (through `-`, which
/// rounds to nearest, ties to even): IEEE-754 binary64 subtraction, a
/// function of the operand bits alone.
#[verifier::external_body]
pub(crate) fn sub_number(a: u64, b: u64) -> (r: u64)
    ensures
        r == sub_bits(a, b),
{
    (Double::from_bits(a as u128) - Double::from_bits(b as u128)).value.to_bits() as u64
}

/// Relies on `rustc_apfloat::ieee::Double`'s `mul_r` (through `*`, which
/// rounds to nearest, ties to even): IEEE-754 binary64 multiplication, a
/// function of the operand bits alone.
#[verifier::external_body]
pub(crate) fn mul_number(a: u64, b: u64) -> (r: u64)
    ensures
        r == mul_bits(a, b),
{
    (Double::from_bits(a as u128) * Double::from_bits(b as u128)).value.to_bits() as u64
}

/// Relies on `rustc_apfloat::ieee::Double`'s `div_r` (through `/`, which
/// rounds to nearest, ties to even): IEEE-754 binary64 division, a
/// function of the operand bits alone; division by zero yields an
/// infinity or NaN, never a panic.
#[verifier::external_body]
pub(crate) fn div_number(a: u64, b: u64) -> (r: u64)
    ensures
        r == div_bits(a, b),
{
    (Double::from_bits(a as u128) / Double::from_bits(b as u128)).value.to_bits() as u64
}

/// Relies on `rustc_apfloat::ieee::Double`'s `FromStr`: correctly rounded
/// IEEE-754 binary64 decimal parsing, a function of the lexeme alone; a
/// lexeme of digits with at most one decimal point always parses.
#[verifier::external_body]
pub(crate) fn number_of_lexeme(s: &str) -> (r: u64)
    requires
        is_number_lexeme(s@),
    ensures
        r == lit_bits(s@),
{
    match <Double as core::str::FromStr>::from_str(s) {
        Ok(d) => d.to_bits() as u64,
        Err(_) => 0,
    }
}

/// Whether a string is a well-formed numeric lexeme, as `is_number_lexeme`
/// states it.
pub fn check_number_lexeme(s: &str) -> (r: bool)
    ensures
        r == is_number_lexeme(s@),
{
    let len = s.unicode_len();
    if len == 0 {
        return false;
    }
    if !crate::tokenize::is_digit(s.get_char(0)) {
        return false;
    }
    let mut j: usize = 0;
    let mut seen = false;
    proof {
        assert(s@.skip(0) =~= s@);
    }
    loop
        invariant
            j <= len,
            len == s@.len(),
            num_run(s@, false) == j + num_run(s@.skip(j as int), seen),
        ensures
            num_run(s@, false) == j,
            j < len ==> num_run(s@, false) < len,
        decreases len - j,
    {
        proof {
            if j < len {
                assert(s@.skip(j as int)[0] == s@[j as int]);
                assert(s@.skip(j as int).skip(1) =~= s@.skip(j + 1));
            } else {
                assert(s@.skip(j as int).len() == 0);
            }
        }
        if j >= len {
            break ;
        }
        let c = s.get_char(j);
        if crate::tokenize::is_digit(c) {
            j += 1;
        } else if c == '.' && !seen {
            seen = true;
            j += 1;
        } else {
            break ;
        }
    }
    j == len
}

} // verus!
