//! Order codes for binary64 numbers.
//!
//! A binary64 bit pattern is a sign bit followed by 63 magnitude bits, and for
//! everything but NaN a larger magnitude is a larger absolute value. The code of
//! a pattern is its magnitude, negated when the sign bit is set. Codes therefore
//! compare as the numbers do, `+0.0` and `-0.0` share the code 0, and negating a
//! number negates its code.
//!
//! A bit pattern that is not a number has a code beyond that of an infinity.
//! Binary64 finds such a value neither less nor greater than anything and
//! passes over it in a minimum or maximum; the comparisons of this module do
//! the same, and everything in this crate compares through them.

use vstd::prelude::*;

verus! {

/// The sign bit of a binary64 bit pattern.
pub const SIGN_BIT: u64 = 0x8000_0000_0000_0000;

/// The code of 1.0.
pub const ONE: i64 = 0x3FF0_0000_0000_0000;

/// The code of the largest finite number.
pub const MAX: i64 = 0x7FEF_FFFF_FFFF_FFFF;

/// The code of positive infinity.
pub const INFINITY: i64 = 0x7FF0_0000_0000_0000;

/// The code that the bit pattern `bits` stands for.
pub open spec fn code_of(bits: u64) -> int {
    if bits < SIGN_BIT {
        bits as int
    } else {
        -(bits - SIGN_BIT)
    }
}

/// The bit pattern of the code `code`; zero gets the pattern of `+0.0`.
pub open spec fn bits_of(code: int) -> int {
    if code >= 0 {
        code
    } else {
        SIGN_BIT - code
    }
}

/// Whether `code` is the code of some bit pattern.
pub open spec fn is_code(code: int) -> bool {
    -(i64::MAX as int) <= code <= i64::MAX as int
}

/// Whether `code` stands for a number: an infinity or anything between the
/// two. The codes beyond the infinities are those of the bit patterns that
/// are not a number.
pub open spec fn is_number(code: int) -> bool {
    -INFINITY <= code <= INFINITY
}

/// `a < b` as binary64 has it: both are numbers, and `a` is the smaller.
pub open spec fn below(a: int, b: int) -> bool {
    is_number(a) && is_number(b) && a < b
}

/// `a <= b` as binary64 has it: both are numbers, and `a` is not the greater.
pub open spec fn not_above(a: int, b: int) -> bool {
    is_number(a) && is_number(b) && a <= b
}

/// The minimum as binary64 has it: of a number and what is not a number, the
/// number; of two numbers, the smaller. Of two that are not numbers it is
/// the one with the smaller code.
pub open spec fn lesser(a: int, b: int) -> int {
    if is_number(a) && !is_number(b) {
        a
    } else if is_number(b) && !is_number(a) {
        b
    } else if a <= b {
        a
    } else {
        b
    }
}

/// The maximum as binary64 has it: of a number and what is not a number, the
/// number; of two numbers, the greater. Of two that are not numbers it is
/// the one with the greater code.
pub open spec fn greater(a: int, b: int) -> int {
    if is_number(a) && !is_number(b) {
        a
    } else if is_number(b) && !is_number(a) {
        b
    } else if a >= b {
        a
    } else {
        b
    }
}

/// Whether a code stands for a number.
pub fn is_a_number(code: i64) -> (b: bool)
    ensures
        b == is_number(code as int),
{
    -INFINITY <= code && code <= INFINITY
}

/// Whether `a` is less than `b`.
pub fn less(a: i64, b: i64) -> (r: bool)
    ensures
        r == below(a as int, b as int),
{
    is_a_number(a) && is_a_number(b) && a < b
}

/// Whether `a` is less than or equal to `b`.
pub fn at_most(a: i64, b: i64) -> (r: bool)
    ensures
        r == not_above(a as int, b as int),
{
    is_a_number(a) && is_a_number(b) && a <= b
}

/// The minimum of two codes.
pub fn min(a: i64, b: i64) -> (r: i64)
    ensures
        r == lesser(a as int, b as int),
{
    if is_a_number(a) && !is_a_number(b) {
        a
    } else if is_a_number(b) && !is_a_number(a) {
        b
    } else if a <= b {
        a
    } else {
        b
    }
}

/// The maximum of two codes.
pub fn max(a: i64, b: i64) -> (r: i64)
    ensures
        r == greater(a as int, b as int),
{
    if is_a_number(a) && !is_a_number(b) {
        a
    } else if is_a_number(b) && !is_a_number(a) {
        b
    } else if a >= b {
        a
    } else {
        b
    }
}

/// Turns a bit pattern into its code.
pub fn from_bits(bits: u64) -> (code: i64)
    ensures
        code == code_of(bits),
        is_code(code as int),
{
    if bits < SIGN_BIT {
        bits as i64
    } else {
        let magnitude: u64 = bits - SIGN_BIT;
        -(magnitude as i64)
    }
}

/// Turns a code back into a bit pattern.
pub fn to_bits(code: i64) -> (bits: u64)
    requires
        is_code(code as int),
    ensures
        bits == bits_of(code as int),
        code_of(bits) == code,
{
    if code >= 0 {
        code as u64
    } else {
        let magnitude: i64 = -code;
        SIGN_BIT + (magnitude as u64)
    }
}

/// The negation of a code: the code of the negated number.
pub fn negate(code: i64) -> (r: i64)
    requires
        is_code(code as int),
    ensures
        r == -code,
        is_code(r as int),
{
    -code
}

/// Decoding undoes encoding, except that `-0.0` comes back as `+0.0`.
pub proof fn lemma_bits_round_trip(bits: u64)
    ensures
        bits != SIGN_BIT ==> bits_of(code_of(bits)) == bits,
        bits == SIGN_BIT ==> bits_of(code_of(bits)) == 0,
{
}

/// Encoding undoes decoding on every code.
pub proof fn lemma_code_round_trip(code: i64)
    requires
        is_code(code as int),
    ensures
        0 <= bits_of(code as int) <= u64::MAX,
        code_of(bits_of(code as int) as u64) == code,
{
}

/// Setting the sign bit of a pattern negates its code.
pub proof fn lemma_sign_bit_negates(bits: u64)
    requires
        bits < SIGN_BIT,
    ensures
        code_of((bits + SIGN_BIT) as u64) == -code_of(bits),
{
}

/// Among patterns of one sign, codes order as magnitudes do for non-negative
/// patterns and in reverse for negative ones; a negative pattern never has a
/// larger code than a non-negative one.
pub proof fn lemma_code_order(a: u64, b: u64)
    ensures
        a < SIGN_BIT && b < SIGN_BIT ==> (code_of(a) < code_of(b) <==> a < b),
        a >= SIGN_BIT && b >= SIGN_BIT ==> (code_of(a) < code_of(b) <==> a > b),
        a >= SIGN_BIT && b < SIGN_BIT ==> code_of(a) <= code_of(b),
{
}

} // verus!
