//! IEEE-754 binary64 values carried as their `u64` bit patterns.
//!
//! Verified code cannot compute with hardware floating point, so every
//! arithmetic operation goes through `rustc_apfloat`, a software
//! implementation of IEEE-754 whose results on addition, subtraction,
//! multiplication and division are bit-identical to hardware
//! round-to-nearest-even.  The anatomy of a bit pattern (sign, NaN,
//! infinity, ordering of non-NaN values) is defined here directly, so
//! comparisons and classifications are verified code with no trust.

use vstd::prelude::*;

use rustc_apfloat::Float;

verus! {

pub const SIGN_MASK: u64 = 0x8000_0000_0000_0000;
pub const MAG_MASK: u64 = 0x7FFF_FFFF_FFFF_FFFF;
pub const EXP_MASK: u64 = 0x7FF0_0000_0000_0000;
pub const MANT_MASK: u64 = 0x000F_FFFF_FFFF_FFFF;
pub const POS_ZERO: u64 = 0;
pub const ONE_BITS: u64 = 0x3FF0_0000_0000_0000;
pub const TWO_BITS: u64 = 0x4000_0000_0000_0000;
pub const POS_INF: u64 = 0x7FF0_0000_0000_0000;
pub const NEG_INF: u64 = 0xFFF0_0000_0000_0000;
pub const QNAN: u64 = 0x7FF8_0000_0000_0000;
pub const NEG_ZERO: u64 = 0x8000_0000_0000_0000;

/// The sign bit is set (the value is negative, a negative zero, or a NaN
/// with its sign bit set).
pub open spec fn sign_of(b: u64) -> bool {
    b & SIGN_MASK == SIGN_MASK
}

/// Magnitude: the bit pattern with the sign bit cleared.
pub open spec fn mag_of(b: u64) -> u64 {
    b & MAG_MASK
}

pub open spec fn is_nan(b: u64) -> bool {
    mag_of(b) > EXP_MASK
}

pub open spec fn is_inf(b: u64) -> bool {
    mag_of(b) == EXP_MASK
}

pub open spec fn is_finite(b: u64) -> bool {
    mag_of(b) < EXP_MASK
}

pub open spec fn is_zero(b: u64) -> bool {
    mag_of(b) == 0
}

/// Signed-magnitude key.  For non-NaN bit patterns this orders the values
/// exactly as the reals (and infinities) they denote; the two zeros share
/// the key 0.
pub open spec fn key_of(b: u64) -> int {
    if sign_of(b) {
        -(mag_of(b) as int)
    } else {
        mag_of(b) as int
    }
}

/// IEEE `<` on doubles: false whenever either side is NaN.
pub open spec fn f_lt(a: u64, b: u64) -> bool {
    !is_nan(a) && !is_nan(b) && key_of(a) < key_of(b)
}

/// IEEE `<=` on doubles: false whenever either side is NaN.
pub open spec fn f_le(a: u64, b: u64) -> bool {
    !is_nan(a) && !is_nan(b) && key_of(a) <= key_of(b)
}

pub fn sign_bits(b: u64) -> (r: bool)
    ensures
        r == sign_of(b),
{
    b & SIGN_MASK == SIGN_MASK
}

pub fn is_nan_bits(b: u64) -> (r: bool)
    ensures
        r == is_nan(b),
{
    (b & MAG_MASK) > EXP_MASK
}

pub fn is_inf_bits(b: u64) -> (r: bool)
    ensures
        r == is_inf(b),
{
    (b & MAG_MASK) == EXP_MASK
}

pub fn is_finite_bits(b: u64) -> (r: bool)
    ensures
        r == is_finite(b),
{
    (b & MAG_MASK) < EXP_MASK
}

pub fn is_zero_bits(b: u64) -> (r: bool)
    ensures
        r == is_zero(b),
{
    (b & MAG_MASK) == 0
}

/// IEEE `<`, implemented on the bits; equal to `f_lt`.
pub fn lt_bits(a: u64, b: u64) -> (r: bool)
    ensures
        r == f_lt(a, b),
{
    if is_nan_bits(a) || is_nan_bits(b) {
        false
    } else {
        let ma = a & MAG_MASK;
        let mb = b & MAG_MASK;
        let sa = a & SIGN_MASK == SIGN_MASK;
        let sb = b & SIGN_MASK == SIGN_MASK;
        if !sa && !sb {
            ma < mb
        } else if sa && sb {
            mb < ma
        } else if sa {
            // a <= 0 <= b: strictly less unless both are zeros
            ma != 0 || mb != 0
        } else {
            false
        }
    }
}

/// IEEE `<=` on the bits; equal to `f_le`.
pub fn le_bits(a: u64, b: u64) -> (r: bool)
    ensures
        r == f_le(a, b),
{
    if is_nan_bits(a) || is_nan_bits(b) {
        false
    } else {
        !lt_bits(b, a)
    }
}

// ---------------------------------------------------------------------
// Named results of the software IEEE-754 operations (rustc_apfloat).
// Their exact values would take pages to state; each is a function of its
// arguments alone, so it gets a name, and the wrappers below state beside
// the name only facts that IEEE-754 plainly guarantees.
// ---------------------------------------------------------------------

pub uninterp spec fn real_add(a: u64, b: u64) -> u64;

pub uninterp spec fn real_sub(a: u64, b: u64) -> u64;

pub uninterp spec fn real_mul(a: u64, b: u64) -> u64;

pub uninterp spec fn real_div(a: u64, b: u64) -> u64;

pub uninterp spec fn real_of_int(i: int) -> u64;

pub uninterp spec fn real_to_int(b: u64) -> i128;

/// Relies on rustc_apfloat's binary64 addition (round to nearest even).
/// The extra facts are IEEE-754: NaN operands propagate; a sum of
/// non-NaN values is NaN only for infinities of opposite sign; and
/// adding a value that is at least +0 cannot decrease a value, since
/// rounding is monotone.
#[verifier::external_body]
pub(crate) fn add_bits(a: u64, b: u64) -> (r: u64)
    ensures
        r == real_add(a, b),
        (is_nan(a) || is_nan(b)) ==> is_nan(r),
        (!is_nan(a) && !is_nan(b) && !(is_inf(a) && is_inf(b) && sign_of(a) != sign_of(b)))
            ==> !is_nan(r),
        (!is_nan(a) && !is_nan(b) && !sign_of(b) && !(is_inf(a) && is_inf(b) && sign_of(a)
            != sign_of(b))) ==> f_le(a, r),
{
    let x = rustc_apfloat::ieee::Double::from_bits(a as u128);
    let y = rustc_apfloat::ieee::Double::from_bits(b as u128);
    (x + y).value.to_bits() as u64
}

/// Relies on rustc_apfloat's binary64 subtraction (round to nearest even).
/// IEEE-754: a difference of non-NaN values is NaN only for infinities of
/// the same sign.
#[verifier::external_body]
pub(crate) fn sub_bits(a: u64, b: u64) -> (r: u64)
    ensures
        r == real_sub(a, b),
        (!is_nan(a) && !is_nan(b) && !(is_inf(a) && is_inf(b) && sign_of(a) == sign_of(b)))
            ==> !is_nan(r),
{
    let x = rustc_apfloat::ieee::Double::from_bits(a as u128);
    let y = rustc_apfloat::ieee::Double::from_bits(b as u128);
    (x - y).value.to_bits() as u64
}

/// Relies on rustc_apfloat's binary64 multiplication (round to nearest
/// even).  IEEE-754: a product of finite values is never NaN.
#[verifier::external_body]
pub(crate) fn mul_bits(a: u64, b: u64) -> (r: u64)
    ensures
        r == real_mul(a, b),
        (is_finite(a) && is_finite(b)) ==> !is_nan(r),
{
    let x = rustc_apfloat::ieee::Double::from_bits(a as u128);
    let y = rustc_apfloat::ieee::Double::from_bits(b as u128);
    (x * y).value.to_bits() as u64
}

/// Relies on rustc_apfloat's binary64 division (round to nearest even).
/// IEEE-754: a quotient is NaN only for 0/0 or infinity/infinity, and a
/// non-negative value divided by a strictly positive one stays
/// non-negative.
#[verifier::external_body]
pub(crate) fn div_bits(a: u64, b: u64) -> (r: u64)
    ensures
        r == real_div(a, b),
        (!is_nan(a) && !sign_of(a) && !is_nan(b) && f_lt(POS_ZERO, b) && !(is_inf(a) && is_inf(b)))
            ==> (!is_nan(r) && !sign_of(r)),
{
    let x = rustc_apfloat::ieee::Double::from_bits(a as u128);
    let y = rustc_apfloat::ieee::Double::from_bits(b as u128);
    (x / y).value.to_bits() as u64
}

/// Relies on rustc_apfloat's integer-to-binary64 conversion (round to
/// nearest even).  IEEE-754: the conversion of an integer is never NaN,
/// always finite for 128-bit inputs (whose magnitude is far below the
/// binary64 overflow threshold), keeps the sign, and converts 0 to +0.
#[verifier::external_body]
pub(crate) fn of_int_bits(i: i128) -> (r: u64)
    ensures
        r == real_of_int(i as int),
        !is_nan(r),
        is_finite(r),
        i == 0 ==> r == POS_ZERO,
        i > 0 ==> (!sign_of(r) && f_lt(POS_ZERO, r)),
        i < 0 ==> sign_of(r),
{
    rustc_apfloat::ieee::Double::from_i128(i).value.to_bits() as u64
}

/// Relies on rustc_apfloat's binary64-to-integer conversion with round
/// to nearest even, which returns deterministic values on every input
/// (0 for NaN, saturation at the 128-bit bounds).
#[verifier::external_body]
pub(crate) fn to_int_bits(b: u64) -> (r: i128)
    ensures
        r == real_to_int(b),
{
    let mut exact = false;
    rustc_apfloat::ieee::Double::from_bits(b as u128).to_i128_r(
        128,
        rustc_apfloat::Round::NearestTiesToEven,
        &mut exact,
    ).value
}


pub uninterp spec fn f64_of_decimal(s: Seq<char>) -> Option<u64>;

/// Relies on rustc_apfloat's decimal-to-binary64 conversion (correctly
/// rounded to nearest even, the same conversion rustc applies to float
/// literals): whether a text parses, and to which bits, is a function
/// of the text alone.
#[verifier::external_body]
pub(crate) fn parse_decimal(s: &str) -> (r: Option<u64>)
    ensures
        r == f64_of_decimal(s@),
{
    match s.parse::<rustc_apfloat::ieee::Double>() {
        Ok(v) => Some(v.to_bits() as u64),
        Err(_) => None,
    }
}

pub uninterp spec fn sci_decimal(bits: u64, digits: usize) -> Seq<char>;

/// Relies on rustc_apfloat's binary64 formatting with an explicit
/// significant-digit count and scientific layout: the text is a
/// function of the bits and the digit count alone.
#[verifier::external_body]
pub(crate) fn format_sci(bits: u64, digits: usize) -> (r: String)
    ensures
        r@ == sci_decimal(bits, digits),
{
    format!(
        "{:1$.2$}",
        rustc_apfloat::ieee::Double::from_bits(bits as u128),
        0,
        digits,
    )
}

} // verus!
