//! Collateral amounts: whole-token quantities, given as IEEE-754 binary64 bit
//! patterns, turned into fixed-point atto units.
use vstd::arithmetic::power2::{lemma2_to64, lemma2_to64_rest, lemma_pow2_adds, lemma_pow2_pos, lemma_pow2_unfold, pow2};
use vstd::prelude::*;

use crate::errors::ParamError;

verus! {

/// Atto units in one whole token: the fixed-point scale, eighteen decimals.
pub const ATTO_PER_WHOLE: u128 = 1_000_000_000_000_000_000;

/// The total token supply in whole units; no collateral reaches it.
pub const MAX_SUPPLY_WHOLE: u128 = 2_000_000_000;

/// A non-negative token quantity in atto units.
#[derive(Debug, Clone, Copy, PartialEq, Eq, Structural)]
pub struct CollateralAmount {
    pub atto: u128,
}

/// The sign bit of a binary64 bit pattern.
pub open spec fn float_sign(bits: u64) -> bool {
    bits >= 0x8000_0000_0000_0000
}

/// The biased exponent field, eleven bits.
pub open spec fn float_exponent(bits: u64) -> int {
    (bits / 0x10_0000_0000_0000) as int % 0x800
}

/// The fraction field, fifty-two bits.
pub open spec fn float_fraction(bits: u64) -> int {
    (bits % 0x10_0000_0000_0000) as int
}

/// Neither an infinity nor a NaN.
pub open spec fn float_is_finite(bits: u64) -> bool {
    float_exponent(bits) != 0x7ff
}

/// The integer significand, with the hidden bit of normal numbers.
pub open spec fn float_significand(bits: u64) -> int {
    if float_exponent(bits) == 0 {
        float_fraction(bits)
    } else {
        float_fraction(bits) + 0x10_0000_0000_0000
    }
}

/// How far the binary point stands left of the significand's last bit:
/// a finite value is `significand / 2^shift` (or `significand * 2^-shift`).
pub open spec fn float_shift(bits: u64) -> int {
    if float_exponent(bits) == 0 {
        1074
    } else {
        1075 - float_exponent(bits)
    }
}

/// A finite value below zero (negative zero is zero).
pub open spec fn float_is_negative(bits: u64) -> bool {
    float_sign(bits) && float_significand(bits) != 0
}

/// The magnitude of a finite value lies below `m` whole units.
pub open spec fn float_below(bits: u64, m: int) -> bool {
    if float_shift(bits) > 0 {
        float_significand(bits) < m * pow2(float_shift(bits) as nat)
    } else {
        float_significand(bits) * pow2((-float_shift(bits)) as nat) < m
    }
}

/// `n / d` rounded to the nearest integer, ties to the even one.
pub open spec fn round_half_even(n: int, d: int) -> int {
    let q = n / d;
    let r = n % d;
    if 2 * r < d {
        q
    } else if 2 * r > d {
        q + 1
    } else if q % 2 == 0 {
        q
    } else {
        q + 1
    }
}

/// A value that is a valid collateral: finite, not negative, below the supply.
pub open spec fn valid_collateral(bits: u64) -> bool {
    float_is_finite(bits) && !float_is_negative(bits) && float_below(bits, MAX_SUPPLY_WHOLE as int)
}

/// The atto units of a valid collateral: its exact value times the scale,
/// rounded half to even.
pub open spec fn collateral_units(bits: u64) -> int {
    round_half_even(
        float_significand(bits) * ATTO_PER_WHOLE as int,
        pow2(float_shift(bits) as nat) as int,
    )
}

proof fn lemma_pow2_114()
    ensures
        pow2(114) == 0x4_0000_0000_0000_0000_0000_0000_0000,
{
    lemma2_to64();
    lemma2_to64_rest();
    lemma_pow2_adds(64, 50);
    assert(pow2(64) * pow2(50) == 0x4_0000_0000_0000_0000_0000_0000_0000) by (nonlinear_arith)
        requires
            pow2(64) == 0x1_0000_0000_0000_0000,
            pow2(50) == 0x4_0000_0000_0000,
    ;
}

/// `2^e`, for a shift that fits.
fn pow2_u128(e: u64) -> (r: u128)
    requires
        e < 115,
    ensures
        r as nat == pow2(e as nat),
        r <= 0x4_0000_0000_0000_0000_0000_0000_0000,
{
    let mut r: u128 = 1;
    let mut i: u64 = 0;
    proof {
        lemma2_to64();
        lemma_pow2_114();
    }
    while i < e
        invariant
            i <= e < 115,
            r as nat == pow2(i as nat),
            r <= 0x4_0000_0000_0000_0000_0000_0000_0000,
            pow2(114) == 0x4_0000_0000_0000_0000_0000_0000_0000,
        decreases e - i,
    {
        proof {
            lemma_pow2_unfold((i + 1) as nat);
            if i + 1 < 114 {
                vstd::arithmetic::power2::lemma_pow2_strictly_increases((i + 1) as nat, 114);
            }
        }
        r = r * 2;
        i = i + 1;
    }
    r
}

/// Converts a whole-token quantity, given as the bit pattern of a binary64
/// float, to atto units. NaN, infinities, values below zero and values from
/// the total supply upward are refused.
pub fn to_collateral(bits: u64) -> (r: Result<CollateralAmount, ParamError>)
    ensures
        r.is_ok() <==> valid_collateral(bits),
        r matches Ok(c) ==> c.atto == collateral_units(bits),
        r matches Err(e) ==> e == ParamError::InvalidCollateralAmount,
{
    let frac: u64 = bits % 0x10_0000_0000_0000;
    let exp: u64 = (bits / 0x10_0000_0000_0000) % 0x800;
    if exp == 0x7ff {
        return Err(ParamError::InvalidCollateralAmount);
    }
    let sig: u64 = if exp == 0 {
        frac
    } else {
        frac + 0x10_0000_0000_0000
    };
    if bits >= 0x8000_0000_0000_0000 && sig != 0 {
        return Err(ParamError::InvalidCollateralAmount);
    }
    if exp >= 1075 {
        proof {
            lemma_pow2_pos((exp - 1075) as nat);
            assert(sig * pow2((exp - 1075) as nat) >= sig) by (nonlinear_arith)
                requires
                    pow2((exp - 1075) as nat) >= 1,
            ;
        }
        return Err(ParamError::InvalidCollateralAmount);
    }
    let shift: u64 = if exp == 0 {
        1074
    } else {
        1075 - exp
    };
    proof {
        lemma2_to64();
        lemma_pow2_114();
    }
    if shift < 115 {
        let d = pow2_u128(shift);
        if shift < 23 {
            proof {
                vstd::arithmetic::power2::lemma_pow2_strictly_increases(shift as nat, 23);
            }
            if sig as u128 >= MAX_SUPPLY_WHOLE * d {
                return Err(ParamError::InvalidCollateralAmount);
            }
        } else {
            proof {
                if shift > 23 {
                    vstd::arithmetic::power2::lemma_pow2_strictly_increases(23, shift as nat);
                }
                assert(sig < MAX_SUPPLY_WHOLE * pow2(shift as nat)) by (nonlinear_arith)
                    requires
                        pow2(shift as nat) >= 0x80_0000,
                        sig < 0x20_0000_0000_0000,
                ;
            }
        }
        proof {
            lemma_pow2_pos(shift as nat);
            assert(sig as u128 * ATTO_PER_WHOLE < 0x20_0000_0000_0000 * ATTO_PER_WHOLE) by (nonlinear_arith)
                requires
                    sig < 0x20_0000_0000_0000,
            ;
        }
        let num: u128 = sig as u128 * ATTO_PER_WHOLE;
        let q: u128 = num / d;
        let rem: u128 = num % d;
        let atto: u128 = if 2 * rem < d {
            q
        } else if 2 * rem > d {
            q + 1
        } else if q % 2 == 0 {
            q
        } else {
            q + 1
        };
        Ok(CollateralAmount { atto })
    } else {
        proof {
            lemma_pow2_adds(114, (shift - 114) as nat);
            lemma_pow2_pos((shift - 114) as nat);
            let p = pow2(shift as nat);
            assert(p >= pow2(114)) by (nonlinear_arith)
                requires
                    p == pow2(114) * pow2((shift - 114) as nat),
                    pow2((shift - 114) as nat) >= 1,
            ;
            assert(sig < MAX_SUPPLY_WHOLE * p) by (nonlinear_arith)
                requires
                    p >= pow2(114),
                    pow2(114) >= 0x80_0000,
                    sig < 0x20_0000_0000_0000,
            ;
            let num = sig * ATTO_PER_WHOLE as int;
            assert(num < 0x20_0000_0000_0000 * ATTO_PER_WHOLE) by (nonlinear_arith)
                requires
                    sig < 0x20_0000_0000_0000,
                    num == sig * ATTO_PER_WHOLE as int,
            ;
            assert(num / (p as int) == 0 && num % (p as int) == num) by (nonlinear_arith)
                requires
                    0 <= num < p,
            ;
        }
        Ok(CollateralAmount { atto: 0 })
    }
}

} // verus!
