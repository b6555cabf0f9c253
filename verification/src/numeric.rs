//! Natural logarithm, exponential and power on binary64 bit patterns,
//! built from the named software IEEE-754 operations.
//!
//! These are the library's own algorithms (argument reduction plus a
//! fixed-length series), so each one is a fully specified, deterministic
//! function of its input bits.  They are accurate to a relative error
//! around 1e-15, which is all the simulator needs: the exponential
//! sampler only has to draw from the right distribution, and rate
//! expressions tolerate it by far.

use vstd::prelude::*;
use crate::ieee::{
    ONE_BITS, TWO_BITS, POS_ZERO, POS_INF, QNAN, MANT_MASK, sign_of, mag_of, is_nan, is_inf,
    is_zero, f_lt, f_le, real_add, real_sub, real_mul, real_div, real_of_int, real_to_int,
    add_bits, sub_bits, mul_bits, div_bits, of_int_bits, to_int_bits, sign_bits, is_nan_bits,
    is_inf_bits, is_zero_bits, lt_bits, le_bits,
};

verus! {

/// ln 2, rounded to binary64.
pub const LN2_BITS: u64 = 0x3FE6_2E42_FEFA_39EF;

/// The leading bits of ln 2 (Cody-Waite argument reduction).
pub const LN2_HI_BITS: u64 = 0x3FE6_2E42_FEE0_0000;

/// ln 2 minus its leading bits.
pub const LN2_LO_BITS: u64 = 0x3DEA_39EF_3579_3C76;

/// 1 / ln 2, rounded to binary64.
pub const INV_LN2_BITS: u64 = 0x3FF7_1547_652B_82FE;

/// 710.0: e^x overflows binary64 well below this.
pub const EXP_HI_BITS: u64 = 0x4086_3000_0000_0000;

/// -746.0: e^x underflows to zero below this.
pub const EXP_LO_BITS: u64 = 0xC087_5000_0000_0000;

/// 2^54 as a binary64.
pub const TWO54_BITS: u64 = 0x4350_0000_0000_0000;

/// Accumulator and power of the series 2 atanh(z) = 2 (z + z^3/3 + ...),
/// after `n` terms beyond the first.
pub open spec fn atanh_terms(z: u64, z2: u64, n: nat) -> (u64, u64)
    decreases n,
{
    if n == 0 {
        (z, z)
    } else {
        let prev = atanh_terms(z, z2, (n - 1) as nat);
        let p = real_mul(prev.1, z2);
        (real_add(prev.0, real_div(p, real_of_int(2 * (n as int) + 1))), p)
    }
}

/// ln(m * 2^e) for a mantissa m in [1, 2): the atanh series at
/// z = (m-1)/(m+1) plus e ln 2.
pub open spec fn ln_parts(m: u64, e: int) -> u64 {
    let z = real_div(real_sub(m, ONE_BITS), real_add(m, ONE_BITS));
    let z2 = real_mul(z, z);
    let a = atanh_terms(z, z2, 17).0;
    real_add(real_mul(TWO_BITS, a), real_mul(real_of_int(e), LN2_BITS))
}

/// Computes `ln_parts(m, e)`.
pub fn ln_parts_bits(m: u64, e: i64) -> (r: u64)
    ensures
        r == ln_parts(m, e as int),
{
    let z = div_bits(sub_bits(m, ONE_BITS), add_bits(m, ONE_BITS));
    let z2 = mul_bits(z, z);
    let mut acc = z;
    let mut zpow = z;
    let mut k: u64 = 1;
    while k <= 17
        invariant
            1 <= k <= 18,
            (acc, zpow) == atanh_terms(z, z2, (k - 1) as nat),
        decreases 18 - k,
    {
        zpow = mul_bits(zpow, z2);
        acc = add_bits(acc, div_bits(zpow, of_int_bits((2 * k + 1) as i128)));
        proof {
            assert((acc, zpow) == atanh_terms(z, z2, k as nat));
        }
        k += 1;
    }
    add_bits(mul_bits(TWO_BITS, acc), mul_bits(of_int_bits(e as i128), LN2_BITS))
}

/// The truncated Taylor series of e^x in Horner form, factors `j` up to
/// `n`: 1 + (x/j)(1 + (x/(j+1))(...)).
pub open spec fn exp_tail(x: u64, j: nat, n: nat) -> u64
    decreases (if j <= n { n + 1 - j } else { 0 }),
{
    if j > n || j == 0 {
        ONE_BITS
    } else {
        real_add(ONE_BITS, real_mul(real_div(x, real_of_int(j as int)), exp_tail(x, j + 1, n)))
    }
}

/// 2^n as a binary64 bit pattern, for -1022 <= n <= 1023.
pub open spec fn pow2_bits(n: int) -> u64 {
    ((n + 1023) as u64) << 52u64
}

/// e^x: NaN for NaN, clamped to +inf / +0 outside the binary64 range,
/// otherwise 2^n e^r with x = n ln 2 + r and the series at |r| < ln 2.
pub open spec fn exp_spec(x: u64) -> u64 {
    if is_nan(x) {
        QNAN
    } else if f_le(EXP_HI_BITS, x) {
        POS_INF
    } else if f_le(x, EXP_LO_BITS) {
        POS_ZERO
    } else {
        let q = real_mul(x, INV_LN2_BITS);
        let n0 = real_to_int(q);
        let n = if n0 < -2000 {
            -2000
        } else if n0 > 2000 {
            2000
        } else {
            n0 as int
        };
        let nf = real_of_int(n);
        let r = real_sub(real_sub(x, real_mul(nf, LN2_HI_BITS)), real_mul(nf, LN2_LO_BITS));
        let t = exp_tail(r, 1, 13);
        if -1022 <= n <= 1023 {
            real_mul(t, pow2_bits(n))
        } else if n > 1023 {
            real_mul(real_mul(t, pow2_bits(1023)), pow2_bits(n - 1023))
        } else {
            real_mul(real_mul(t, pow2_bits(-1022)), pow2_bits(n + 1022))
        }
    }
}

/// Computes `exp_spec(x)`.
pub fn exp_bits(x: u64) -> (r: u64)
    ensures
        r == exp_spec(x),
{
    if is_nan_bits(x) {
        return QNAN;
    }
    if le_bits(EXP_HI_BITS, x) {
        return POS_INF;
    }
    if le_bits(x, EXP_LO_BITS) {
        return POS_ZERO;
    }
    let q = mul_bits(x, INV_LN2_BITS);
    let n0 = to_int_bits(q);
    let n: i128 = if n0 < -2000 {
        -2000
    } else if n0 > 2000 {
        2000
    } else {
        n0
    };
    let nf = of_int_bits(n);
    let r = sub_bits(sub_bits(x, mul_bits(nf, LN2_HI_BITS)), mul_bits(nf, LN2_LO_BITS));
    let mut acc = ONE_BITS;
    let mut j: u64 = 13;
    while j >= 1
        invariant
            0 <= j <= 13,
            acc == exp_tail(r, (j + 1) as nat, 13),
        decreases j,
    {
        acc = add_bits(ONE_BITS, mul_bits(div_bits(r, of_int_bits(j as i128)), acc));
        proof {
            assert(acc == exp_tail(r, j as nat, 13));
        }
        j -= 1;
    }
    if -1022 <= n && n <= 1023 {
        mul_bits(acc, pow2_exec(n))
    } else if n > 1023 {
        mul_bits(mul_bits(acc, pow2_exec(1023)), pow2_exec(n - 1023))
    } else {
        mul_bits(mul_bits(acc, pow2_exec(-1022)), pow2_exec(n + 1022))
    }
}

fn pow2_exec(n: i128) -> (r: u64)
    requires
        -1022 <= n <= 1023,
    ensures
        r == pow2_bits(n as int),
{
    ((n + 1023) as u64) << 52u64
}

/// ln(a) for a positive, finite, non-zero `a`: the mantissa is reduced to
/// [1, 2) (subnormals are first scaled by 2^54) and `ln_parts` does the
/// rest.
pub open spec fn ln_pos_spec(a: u64) -> u64 {
    let be = (a >> 52u64) & 0x7FFu64;
    if be == 0 {
        let a2 = real_mul(a, TWO54_BITS);
        let be2 = (a2 >> 52u64) & 0x7FFu64;
        ln_parts((a2 & MANT_MASK) | ONE_BITS, be2 - 1023 - 54)
    } else {
        ln_parts((a & MANT_MASK) | ONE_BITS, be - 1023)
    }
}

/// Computes `ln_pos_spec(a)`.
pub fn ln_pos_bits(a: u64) -> (r: u64)
    requires
        !sign_of(a),
        !is_nan(a),
        !is_inf(a),
        !is_zero(a),
    ensures
        r == ln_pos_spec(a),
{
    let be = (a >> 52u64) & 0x7FFu64;
    if be == 0 {
        let a2 = mul_bits(a, TWO54_BITS);
        let be2 = (a2 >> 52u64) & 0x7FFu64;
        proof {
            assert((a2 >> 52u64) & 0x7FFu64 < 2048) by (bit_vector);
        }
        ln_parts_bits((a2 & MANT_MASK) | ONE_BITS, (be2 as i64) - 1023 - 54)
    } else {
        proof {
            assert((a >> 52u64) & 0x7FFu64 < 2048) by (bit_vector);
        }
        ln_parts_bits((a & MANT_MASK) | ONE_BITS, (be as i64) - 1023)
    }
}

/// The bits denote a mathematical integer (of a finite value).
pub open spec fn is_int_exp(b: u64) -> bool {
    let m = mag_of(b);
    let ef = m >> 52u64;
    if m == 0 {
        true
    } else if ef >= 1075 {
        ef < 2047
    } else if ef >= 1023 {
        (m & MANT_MASK) & ((((1u64 << ((1075 - ef) as u64)) - 1)) as u64) == 0
    } else {
        false
    }
}

/// The bits denote an odd mathematical integer.
pub open spec fn is_odd_int_exp(b: u64) -> bool {
    let m = mag_of(b);
    let ef = m >> 52u64;
    if ef == 1075 {
        m & 1u64 == 1u64
    } else if 1023 <= ef && ef < 1075 {
        is_int_exp(b) && (ef == 1023 || ((m & MANT_MASK) >> ((1075 - ef) as u64)) & 1u64 == 1u64)
    } else {
        false
    }
}

fn is_int_exp_bits(b: u64) -> (r: bool)
    ensures
        r == is_int_exp(b),
{
    let m = b & crate::ieee::MAG_MASK;
    let ef = m >> 52u64;
    if m == 0 {
        true
    } else if ef >= 1075 {
        ef < 2047
    } else if ef >= 1023 {
        let sh = 1075 - ef;
        proof {
            assert(sh <= 52u64 ==> (1u64 << sh) >= 1u64) by (bit_vector);
        }
        (m & MANT_MASK) & ((1u64 << sh) - 1) == 0
    } else {
        false
    }
}

fn is_odd_int_exp_bits(b: u64) -> (r: bool)
    ensures
        r == is_odd_int_exp(b),
{
    let m = b & crate::ieee::MAG_MASK;
    let ef = m >> 52u64;
    if ef == 1075 {
        m & 1u64 == 1u64
    } else if 1023 <= ef && ef < 1075 {
        let sh = 1075 - ef;
        is_int_exp_bits(b) && (ef == 1023 || ((m & MANT_MASK) >> sh) & 1u64 == 1u64)
    } else {
        false
    }
}

/// a^b with the special cases of IEEE-754 `pow` (what `powf` follows):
/// 1 for a zero exponent or a base of +1 or of magnitude 1 under an
/// infinite exponent, NaN when either operand is NaN or when a finite
/// negative base meets a non-integer exponent, the exact limits for
/// zero or infinite operands with the parity of integer exponents
/// respected, and e^(b ln a) for positive finite bases — so a finite
/// negative base with an integer exponent gives the signed power of
/// its magnitude.
pub open spec fn pow_spec(a: u64, b: u64) -> u64 {
    if mag_of(b) == 0 {
        ONE_BITS
    } else if a == ONE_BITS {
        ONE_BITS
    } else if is_nan(a) || is_nan(b) {
        QNAN
    } else if is_inf(b) {
        if mag_of(a) == ONE_BITS {
            ONE_BITS
        } else if (mag_of(a) > ONE_BITS) == !sign_of(b) {
            POS_INF
        } else {
            POS_ZERO
        }
    } else if is_inf(a) {
        if !sign_of(a) {
            if sign_of(b) {
                POS_ZERO
            } else {
                POS_INF
            }
        } else {
            if sign_of(b) {
                if is_odd_int_exp(b) {
                    crate::ieee::NEG_ZERO
                } else {
                    POS_ZERO
                }
            } else {
                if is_odd_int_exp(b) {
                    crate::ieee::NEG_INF
                } else {
                    POS_INF
                }
            }
        }
    } else if mag_of(a) == 0 {
        if !sign_of(a) {
            if sign_of(b) {
                POS_INF
            } else {
                POS_ZERO
            }
        } else {
            if sign_of(b) {
                if is_odd_int_exp(b) {
                    crate::ieee::NEG_INF
                } else {
                    POS_INF
                }
            } else {
                if is_odd_int_exp(b) {
                    crate::ieee::NEG_ZERO
                } else {
                    POS_ZERO
                }
            }
        }
    } else if sign_of(a) {
        if is_int_exp(b) {
            let p = exp_spec(real_mul(b, ln_pos_spec(mag_of(a))));
            if is_odd_int_exp(b) {
                p ^ crate::ieee::SIGN_MASK
            } else {
                p
            }
        } else {
            QNAN
        }
    } else {
        exp_spec(real_mul(b, ln_pos_spec(a)))
    }
}

/// Computes `pow_spec(a, b)`.
pub fn pow_bits(a: u64, b: u64) -> (r: u64)
    ensures
        r == pow_spec(a, b),
{
    if is_zero_bits(b) {
        return ONE_BITS;
    }
    if a == ONE_BITS {
        return ONE_BITS;
    }
    if is_nan_bits(a) || is_nan_bits(b) {
        return QNAN;
    }
    if is_inf_bits(b) {
        let ma = a & crate::ieee::MAG_MASK;
        if ma == ONE_BITS {
            return ONE_BITS;
        }
        if (ma > ONE_BITS) == !sign_bits(b) {
            return POS_INF;
        }
        return POS_ZERO;
    }
    if is_inf_bits(a) {
        if !sign_bits(a) {
            if sign_bits(b) {
                return POS_ZERO;
            }
            return POS_INF;
        }
        if sign_bits(b) {
            if is_odd_int_exp_bits(b) {
                return crate::ieee::NEG_ZERO;
            }
            return POS_ZERO;
        }
        if is_odd_int_exp_bits(b) {
            return crate::ieee::NEG_INF;
        }
        return POS_INF;
    }
    if is_zero_bits(a) {
        if !sign_bits(a) {
            if sign_bits(b) {
                return POS_INF;
            }
            return POS_ZERO;
        }
        if sign_bits(b) {
            if is_odd_int_exp_bits(b) {
                return crate::ieee::NEG_INF;
            }
            return POS_INF;
        }
        if is_odd_int_exp_bits(b) {
            return crate::ieee::NEG_ZERO;
        }
        return POS_ZERO;
    }
    if sign_bits(a) {
        if is_int_exp_bits(b) {
            let ma = a & crate::ieee::MAG_MASK;
            proof {
                assert((a & 0x7FFF_FFFF_FFFF_FFFFu64) & 0x8000_0000_0000_0000u64 == 0u64)
                    by (bit_vector);
                assert((a & 0x7FFF_FFFF_FFFF_FFFFu64) & 0x7FFF_FFFF_FFFF_FFFFu64 == (a
                    & 0x7FFF_FFFF_FFFF_FFFFu64)) by (bit_vector);
            }
            let p = exp_bits(mul_bits(b, ln_pos_bits(ma)));
            if is_odd_int_exp_bits(b) {
                return p ^ crate::ieee::SIGN_MASK;
            }
            return p;
        }
        return QNAN;
    }
    exp_bits(mul_bits(b, ln_pos_bits(a)))
}

} // verus!
