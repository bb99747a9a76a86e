//! Reading whole numbers out of IEEE 754 binary64 bit patterns.
//!
//! A wire codec may deliver a number in floating-point form. The codec layer
//! takes such a number by its bit pattern and accepts it only where it
//! denotes a whole number that an unsigned 64-bit integer holds exactly.

use vstd::arithmetic::div_mod::{
    lemma_div_by_multiple,
    lemma_fundamental_div_mod,
    lemma_mod_multiples_basic,
    lemma_small_mod,
};
use vstd::arithmetic::power2::{
    lemma2_to64,
    lemma2_to64_rest,
    lemma_pow2_pos,
    lemma_pow2_strictly_increases,
    pow2,
};
use vstd::bits::{
    lemma_u64_low_bits_mask_is_mod,
    lemma_u64_shl_is_mul,
    lemma_u64_shr_is_div,
    low_bits_mask,
};
use vstd::prelude::*;

verus! {

/// The biased exponent: bits 52 to 62.
pub open spec fn exponent_field(bits: u64) -> nat {
    ((bits >> 52) & 0x7ff) as nat
}

/// The fraction: bits 0 to 51.
pub open spec fn fraction_field(bits: u64) -> nat {
    (bits & 0x000f_ffff_ffff_ffff) as nat
}

/// Whether the sign bit is set.
pub open spec fn is_negative(bits: u64) -> bool {
    (bits >> 63) == 1
}

/// Whether the pattern is a number: neither an infinity nor a NaN.
pub open spec fn is_finite(bits: u64) -> bool {
    exponent_field(bits) != 0x7ff
}

/// The significand `m` of a finite pattern, whose magnitude is
/// `m * 2^exponent(bits)`.
pub open spec fn significand(bits: u64) -> nat {
    if exponent_field(bits) == 0 {
        fraction_field(bits)
    } else {
        fraction_field(bits) + pow2(52)
    }
}

/// The power of two by which the significand of a finite pattern is scaled.
pub open spec fn exponent(bits: u64) -> int {
    if exponent_field(bits) == 0 {
        -1074
    } else {
        exponent_field(bits) - 1075
    }
}

/// The unsigned 64-bit integer that the pattern denotes exactly, if there is
/// one: the number is finite, is zero or positive, has no fractional part and
/// is at most `u64::MAX`. Both zeros denote 0.
pub open spec fn as_u64(bits: u64) -> Option<u64> {
    let m = significand(bits);
    let e = exponent(bits);
    if !is_finite(bits) {
        None
    } else if m == 0 {
        Some(0)
    } else if is_negative(bits) {
        None
    } else if e >= 0 {
        if m * pow2(e as nat) <= u64::MAX {
            Some((m * pow2(e as nat)) as u64)
        } else {
            None
        }
    } else {
        if m % pow2((-e) as nat) == 0 {
            Some((m / pow2((-e) as nat)) as u64)
        } else {
            None
        }
    }
}

/// Whether the pattern denotes the whole number `n`: it is a number, it is
/// not below zero, and its significand scaled by its power of two is `n`.
pub open spec fn denotes(bits: u64, n: int) -> bool {
    let m = significand(bits) as int;
    let e = exponent(bits);
    &&& is_finite(bits)
    &&& is_negative(bits) ==> m == 0
    &&& if e >= 0 {
        n == m * pow2(e as nat)
    } else {
        n * pow2((-e) as nat) == m
    }
}

/// A pattern is read as `n` exactly where it denotes `n` and a `u64` holds
/// `n`.
pub proof fn lemma_as_u64_denotes(bits: u64, n: int)
    ensures
        (0 <= n <= u64::MAX && as_u64(bits) == Some(n as u64)) <==> (0 <= n <= u64::MAX && denotes(
            bits,
            n,
        )),
{
    let m = significand(bits) as int;
    let e = exponent(bits);
    lemma2_to64();
    lemma2_to64_rest();
    assert((bits & 0x000f_ffff_ffff_ffff) < 0x0010_0000_0000_0000) by (bit_vector);
    assert(0 <= m < 0x0020_0000_0000_0000);
    if is_finite(bits) && (m == 0 || !is_negative(bits)) {
        if e >= 0 {
            assert(n == m * pow2(e as nat) && 0 <= n <= u64::MAX ==> as_u64(bits) == Some(
                n as u64,
            ));
        } else {
            let p = pow2((-e) as nat) as int;
            lemma_pow2_pos((-e) as nat);
            lemma_fundamental_div_mod(m, p);
            assert(p * (m / p) == (m / p) * p) by (nonlinear_arith);
            if n * p == m {
                assert(n < 0 ==> n * p < 0) by (nonlinear_arith)
                    requires
                        p > 0,
                ;
                lemma_div_by_multiple(n, p);
                lemma_mod_multiples_basic(n, p);
            }
            if m % p == 0 {
                assert((m / p) * p == m);
                assert(0 <= m / p <= m) by (nonlinear_arith)
                    requires
                        (m / p) * p == m,
                        p >= 1,
                        m >= 0,
                ;
            }
            if m == 0 {
                assert(n * p == 0 ==> n == 0) by (nonlinear_arith)
                    requires
                        p > 0,
                ;
            }
        }
    }
}

/// The unsigned 64-bit integer that a binary64 bit pattern denotes exactly.
pub fn to_u64(bits: u64) -> (whole: Option<u64>)
    ensures
        whole == as_u64(bits),
{
    let field: u64 = (bits >> 52) & 0x7ff;
    let fraction: u64 = bits & 0x000f_ffff_ffff_ffff;
    let negative: bool = (bits >> 63) == 1;
    proof {
        lemma2_to64();
        lemma2_to64_rest();
        assert(((bits >> 52) & 0x7ff) <= 0x7ff) by (bit_vector);
        assert((bits & 0x000f_ffff_ffff_ffff) < 0x0010_0000_0000_0000) by (bit_vector);
    }
    if field == 0x7ff {
        return None;
    }
    let m: u64 = if field == 0 {
        fraction
    } else {
        fraction + 0x0010_0000_0000_0000
    };
    assert(m == significand(bits));
    if m == 0 {
        return Some(0);
    }
    if negative {
        return None;
    }
    if field >= 1075 {
        let shift: u64 = field - 1075;
        assert(shift == exponent(bits));
        if shift > 11 {
            proof {
                if shift > 12 {
                    lemma_pow2_strictly_increases(12, shift as nat);
                }
                assert(m * pow2(shift as nat) > u64::MAX) by (nonlinear_arith)
                    requires
                        m >= 0x10_0000_0000_0000,
                        pow2(shift as nat) >= 0x1000,
                ;
            }
            None
        } else {
            proof {
                if shift < 11 {
                    lemma_pow2_strictly_increases(shift as nat, 11);
                }
                assert(m * pow2(shift as nat) <= u64::MAX) by (nonlinear_arith)
                    requires
                        m < 0x20_0000_0000_0000,
                        pow2(shift as nat) <= 0x800,
                ;
                lemma_u64_shl_is_mul(m, shift);
            }
            Some(m << shift)
        }
    } else {
        let down: u64 = if field == 0 {
            1074
        } else {
            1075 - field
        };
        assert(down == -exponent(bits));
        if down > 52 {
            proof {
                if down > 53 {
                    lemma_pow2_strictly_increases(53, down as nat);
                }
                lemma_small_mod(m as nat, pow2(down as nat));
            }
            None
        } else {
            proof {
                lemma_pow2_strictly_increases(down as nat, 53);
                lemma_u64_shl_is_mul(1, down);
            }
            let mask: u64 = (1u64 << down) - 1;
            proof {
                assert(mask == low_bits_mask(down as nat));
                lemma_u64_low_bits_mask_is_mod(m, down as nat);
                lemma_u64_shr_is_div(m, down);
            }
            if m & mask == 0 {
                Some(m >> down)
            } else {
                None
            }
        }
    }
}

} // verus!
