//! The seeded pseudo-random stream behind the engine.
//!
//! The generator is `rand`'s `SmallRng`, used only through `next_u64`,
//! so no floating point crosses the trusted boundary.  Its state is
//! modelled as the sequence of words it holds; seeding and drawing are
//! named deterministic functions of that state, which is what makes a
//! whole simulation a function of its seed.  Uniform and exponential
//! variates are built from the raw words in verified code.

use vstd::prelude::*;
use crate::ieee::{
    ONE_BITS, POS_ZERO, POS_INF, MAG_MASK, MANT_MASK, sign_of, is_nan, is_nan_bits, f_lt,
};
use crate::numeric::{ln_parts, ln_parts_bits};

verus! {

#[verifier::external_type_specification]
#[verifier::external_body]
pub struct ExSmallRng(rand::rngs::SmallRng);

/// The generator's internal state, as the words it holds.
pub uninterp spec fn rng_state(r: rand::rngs::SmallRng) -> Seq<u64>;

/// The state that seeding with a 64-bit seed produces.
pub uninterp spec fn seed_state(seed: u64) -> Seq<u64>;

/// The word drawn and the successor state of one `next_u64` call.
pub uninterp spec fn rng_next(state: Seq<u64>) -> (u64, Seq<u64>);

/// Relies on `SmallRng::seed_from_u64`: seeding is a deterministic
/// function of the seed (on a given platform and library version).
#[verifier::external_body]
pub(crate) fn rng_from_seed(seed: u64) -> (r: rand::rngs::SmallRng)
    ensures
        rng_state(r) == seed_state(seed),
{
    <rand::rngs::SmallRng as rand::SeedableRng>::seed_from_u64(seed)
}

/// Relies on `SmallRng::from_os_rng`: a generator seeded from
/// operating-system entropy; nothing is known of its state.
#[verifier::external_body]
pub(crate) fn rng_from_entropy() -> (r: rand::rngs::SmallRng)
{
    <rand::rngs::SmallRng as rand::SeedableRng>::from_os_rng()
}

/// Relies on `SmallRng`'s `Clone`: the copy carries the same state.
pub assume_specification[ <rand::rngs::SmallRng as Clone>::clone ](
    r: &rand::rngs::SmallRng,
) -> (o: rand::rngs::SmallRng)
    ensures
        rng_state(o) == rng_state(*r),
;

/// Relies on `RngCore::next_u64` for `SmallRng`: the word drawn and the
/// new state are deterministic functions of the old state.
#[verifier::external_body]
pub(crate) fn rng_next_u64(rng: &mut rand::rngs::SmallRng) -> (r: u64)
    ensures
        r == rng_next(rng_state(*old(rng))).0,
        rng_state(*final (rng)) == rng_next(rng_state(*old(rng))).1,
{
    rand::RngCore::next_u64(rng)
}

/// The floor of the base-2 logarithm (0 for 0 and 1).
pub open spec fn floor_log2(k: u64) -> nat
    decreases k,
{
    if k < 2 {
        0
    } else {
        1 + floor_log2((k / 2) as u64)
    }
}

proof fn lemma_floor_log2_bound(k: u64, b: nat)
    requires
        1 <= b,
        (k as nat) < vstd::arithmetic::power2::pow2(b),
    ensures
        floor_log2(k) <= b - 1,
    decreases k,
{
    if k >= 2 {
        vstd::arithmetic::power2::lemma2_to64();
        if b == 1 {
            assert(false);
        } else {
            assert(vstd::arithmetic::power2::pow2(b) == 2 * vstd::arithmetic::power2::pow2(
                (b - 1) as nat,
            )) by {
                vstd::arithmetic::power2::lemma_pow2_unfold(b);
            }
            lemma_floor_log2_bound((k / 2) as u64, (b - 1) as nat);
        }
    }
}

fn floor_log2_exec(k: u64) -> (e: u64)
    ensures
        e as nat == floor_log2(k),
        e <= 63,
{
    proof {
        assert((k as nat) < vstd::arithmetic::power2::pow2(64)) by {
            vstd::arithmetic::power2::lemma2_to64_rest();
        }
        lemma_floor_log2_bound(k, 64);
    }
    let mut e: u64 = 0;
    let mut t = k;
    while t >= 2
        invariant
            floor_log2(k) == e + floor_log2(t),
            e <= floor_log2(k),
            floor_log2(k) <= 63,
        decreases t,
    {
        t = t / 2;
        e = e + 1;
    }
    e
}

/// The uniform variate in [0, 1) drawn from a raw word: the word's top
/// 53 bits scaled by 2^-53, assembled exactly at the bit level.
pub open spec fn unit_of_word(x: u64) -> u64 {
    let k = x >> 11u64;
    if k == 0 {
        POS_ZERO
    } else {
        let e = floor_log2(k);
        (((970 + e) as u64) << 52u64) | ((k << ((52 - e) as u64)) & MANT_MASK)
    }
}

/// The Exp(1) variate drawn from a raw word: -ln(U) by inverse
/// transform, where U is the word's uniform variate.  U == 0 gives
/// +infinity, and a numerical NaN is treated as an unbounded waiting
/// time.
pub open spec fn exp1_of_word(x: u64) -> u64 {
    let k = x >> 11u64;
    if k == 0 {
        POS_INF
    } else {
        let e = floor_log2(k);
        let m = ((k << ((52 - e) as u64)) & MANT_MASK) | ONE_BITS;
        let l = ln_parts(m, e - 53);
        let pos = l & MAG_MASK;
        if is_nan(pos) {
            POS_INF
        } else {
            pos
        }
    }
}

/// Computes `exp1_of_word(x)`.
pub fn exp1_bits(x: u64) -> (r: u64)
    ensures
        r == exp1_of_word(x),
        !is_nan(r),
        !sign_of(r),
{
    let k = x >> 11u64;
    proof {
        assert(x >> 11u64 < 0x20_0000_0000_0000) by (bit_vector);
    }
    if k == 0 {
        proof {
            assert(POS_INF & 0x7FFF_FFFF_FFFF_FFFFu64 == 0x7FF0_0000_0000_0000u64) by (bit_vector);
            assert(POS_INF & 0x8000_0000_0000_0000u64 == 0u64) by (bit_vector);
        }
        return POS_INF;
    }
    proof {
        assert((0x20_0000_0000_0000 as nat) <= vstd::arithmetic::power2::pow2(53)) by {
            vstd::arithmetic::power2::lemma2_to64_rest();
        }
        lemma_floor_log2_bound(k, 53);
    }
    let e = floor_log2_exec(k);
    let m = ((k << (52 - e)) & MANT_MASK) | ONE_BITS;
    let l = ln_parts_bits(m, (e as i64) - 53);
    let pos = l & MAG_MASK;
    proof {
        assert((l & 0x7FFF_FFFF_FFFF_FFFFu64) & 0x8000_0000_0000_0000u64 == 0u64) by (bit_vector);
        assert(POS_INF & 0x7FFF_FFFF_FFFF_FFFFu64 == 0x7FF0_0000_0000_0000u64) by (bit_vector);
        assert(POS_INF & 0x8000_0000_0000_0000u64 == 0u64) by (bit_vector);
    }
    if is_nan_bits(pos) {
        POS_INF
    } else {
        pos
    }
}

/// Draw one word and turn it into an Exp(1) waiting time.
pub fn rng_exp1(rng: &mut rand::rngs::SmallRng) -> (r: u64)
    ensures
        r == exp1_of_word(rng_next(rng_state(*old(rng))).0),
        rng_state(*final (rng)) == rng_next(rng_state(*old(rng))).1,
        !is_nan(r),
        !sign_of(r),
{
    let x = rng_next_u64(rng);
    exp1_bits(x)
}

/// Computes `unit_of_word(x)`.
pub fn unit_bits(x: u64) -> (r: u64)
    ensures
        r == unit_of_word(x),
        !is_nan(r),
        !sign_of(r),
        f_lt(r, ONE_BITS),
{
    let k = x >> 11;
    proof {
        assert(x >> 11u64 < 0x20_0000_0000_0000) by (bit_vector);
    }
    if k == 0 {
        proof {
            assert(0u64 & 0x7FFF_FFFF_FFFF_FFFFu64 == 0u64) by (bit_vector);
            assert(0u64 & 0x8000_0000_0000_0000u64 == 0u64) by (bit_vector);
            assert(ONE_BITS & 0x8000_0000_0000_0000u64 == 0u64) by (bit_vector);
            assert(ONE_BITS & 0x7FFF_FFFF_FFFF_FFFFu64 == 0x3FF0_0000_0000_0000u64) by (bit_vector);
        }
        POS_ZERO
    } else {
        proof {
            assert((0x20_0000_0000_0000 as nat) <= vstd::arithmetic::power2::pow2(53)) by {
                vstd::arithmetic::power2::lemma2_to64_rest();
            }
            lemma_floor_log2_bound(k, 53);
        }
        let e = floor_log2_exec(k);
        let t = k << (52 - e);
        let ec = 970 + e;
        let r = (ec << 52) | (t & MANT_MASK);
        proof {
            let tv = t;
            assert(ec <= 1022u64 ==> ((ec << 52u64) | (tv & 0x000F_FFFF_FFFF_FFFFu64))
                & 0x8000_0000_0000_0000u64 == 0u64) by (bit_vector);
            assert(ec <= 1022u64 ==> (((ec << 52u64) | (tv & 0x000F_FFFF_FFFF_FFFFu64))
                & 0x7FFF_FFFF_FFFF_FFFFu64) == ((ec << 52u64) | (tv
                & 0x000F_FFFF_FFFF_FFFFu64))) by (bit_vector);
            assert(ec <= 1022u64 ==> ((ec << 52u64) | (tv & 0x000F_FFFF_FFFF_FFFFu64))
                < 0x3FF0_0000_0000_0000u64) by (bit_vector);
            assert(ONE_BITS & 0x8000_0000_0000_0000u64 == 0u64) by (bit_vector);
            assert(ONE_BITS & 0x7FFF_FFFF_FFFF_FFFFu64 == 0x3FF0_0000_0000_0000u64) by (bit_vector);
        }
        r
    }
}

/// Draw one word and turn it into a uniform variate in [0, 1).
pub fn rng_unit(rng: &mut rand::rngs::SmallRng) -> (r: u64)
    ensures
        r == unit_of_word(rng_next(rng_state(*old(rng))).0),
        rng_state(*final (rng)) == rng_next(rng_state(*old(rng))).1,
        !is_nan(r),
        !sign_of(r),
        f_lt(r, ONE_BITS),
{
    let x = rng_next_u64(rng);
    unit_bits(x)
}

} // verus!
