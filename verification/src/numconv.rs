//! Lossy numeric coercions between the integer and float variants. The
//! float variant carries an IEEE 754 bit pattern, so both directions are
//! computed, and specified, over the encoding: sign bit, 11 exponent bits
//! with a bias of 1023, 52 fraction bits with an implicit leading one.

use vstd::prelude::*;
use vstd::arithmetic::power2::pow2;

verus! {

use crate::value::CfgValue;

/// The integer a 64-bit IEEE 754 float truncates to, toward zero,
/// saturating at the `i64` range and sending NaN to zero: the meaning of
/// Rust's `as` cast from `f64` to `i64`, stated over the bit pattern.
pub open spec fn float_bits_to_int(bits: u64) -> i64 {
    let neg = (bits >> 63) == 1u64;
    let e = (bits >> 52) & 0x7ff;
    let m = bits & 0xf_ffff_ffff_ffff;
    if e == 0x7ff {
        // an infinity, or NaN when the fraction is set
        if m != 0 {
            0
        } else if neg {
            i64::MIN
        } else {
            i64::MAX
        }
    } else if e < 1023 {
        // magnitude below one
        0
    } else if e >= 1086 {
        // magnitude at least two to the 63rd
        if neg {
            i64::MIN
        } else {
            i64::MAX
        }
    } else {
        // the integer part of 1.m * 2^(e - 1023): the 52-bit fraction with
        // its implicit bit, shifted so the binary point sits at the end
        let mant = m | 0x10_0000_0000_0000;
        let mag = if e <= 1075 {
            mant >> (1075 - e)
        } else {
            mant << (e - 1075)
        };
        if neg {
            (-(mag as int)) as i64
        } else {
            mag as i64
        }
    }
}

/// The truncation, computed on the bit pattern.
fn trunc_float_bits(bits: u64) -> (r: i64)
    ensures
        r == float_bits_to_int(bits),
{
    let neg: bool = (bits >> 63u64) == 1u64;
    let e: u64 = (bits >> 52u64) & 0x7ffu64;
    let m: u64 = bits & 0xf_ffff_ffff_ffffu64;
    if e == 0x7ff {
        if m != 0 {
            0
        } else if neg {
            i64::MIN
        } else {
            i64::MAX
        }
    } else if e < 1023 {
        0
    } else if e >= 1086 {
        if neg {
            i64::MIN
        } else {
            i64::MAX
        }
    } else {
        let mant: u64 = m | 0x10_0000_0000_0000u64;
        proof {
            assert(mant < 0x20_0000_0000_0000u64) by (bit_vector)
                requires
                    mant == (bits & 0xf_ffff_ffff_ffffu64) | 0x10_0000_0000_0000u64,
            ;
        }
        let mag: u64 = if e <= 1075 {
            mant >> ((1075 - e) as u64)
        } else {
            mant << ((e - 1075) as u64)
        };
        proof {
            if e <= 1075 {
                assert(mant >> ((1075 - e) as u64) <= mant) by (bit_vector);
            } else {
                assert(mant << ((e - 1075) as u64) < 0x8000_0000_0000_0000u64) by (bit_vector)
                    requires
                        mant < 0x20_0000_0000_0000u64,
                        1075u64 < e < 1086u64,
                ;
            }
        }
        if neg {
            -(mag as i64)
        } else {
            mag as i64
        }
    }
}

/// Floor of the base-2 logarithm of a positive integer.
pub open spec fn ilog2(n: int) -> int
    decreases n,
{
    if n <= 1 {
        0
    } else {
        1 + ilog2(n / 2)
    }
}

/// A positive integer lies between the two powers of two its logarithm
/// names.
pub proof fn lemma_ilog2_bounds(n: int)
    requires
        n >= 1,
    ensures
        0 <= ilog2(n),
        pow2(ilog2(n) as nat) <= n < pow2((ilog2(n) + 1) as nat),
    decreases n,
{
    vstd::arithmetic::power2::lemma2_to64();
    if n > 1 {
        lemma_ilog2_bounds(n / 2);
        let h = ilog2(n / 2);
        vstd::arithmetic::power2::lemma_pow2_unfold((h + 1) as nat);
        vstd::arithmetic::power2::lemma_pow2_unfold((h + 2) as nat);
    }
}

/// The nearest 64-bit IEEE 754 float to an integer, ties to even: the
/// meaning of Rust's `as` cast from `i64` to `f64`, as a bit pattern. A
/// magnitude of at most 53 bits is encoded exactly; a wider one is
/// rounded at the 53rd significant bit, to even on a tie.
pub open spec fn int_to_float_bits(x: i64) -> u64 {
    if x == 0 {
        0
    } else {
        let a = if x < 0 {
            -(x as int)
        } else {
            x as int
        };
        let h = ilog2(a);
        let sign: u64 = if x < 0 {
            0x8000_0000_0000_0000
        } else {
            0
        };
        if h <= 52 {
            sign | (((1023 + h) as u64) << 52) | ((a * pow2((52 - h) as nat) - pow2(52)) as u64)
        } else {
            let sh = (h - 52) as nat;
            let q = a / pow2(sh) as int;
            let rem = a % pow2(sh) as int;
            let half = pow2((sh - 1) as nat) as int;
            let q2 = if rem > half || (rem == half && q % 2 == 1) {
                q + 1
            } else {
                q
            };
            if q2 == pow2(53) {
                sign | (((1023 + h + 1) as u64) << 52)
            } else {
                sign | (((1023 + h) as u64) << 52) | ((q2 - pow2(52)) as u64)
            }
        }
    }
}

/// The rounding, computed on the magnitude's bits.
fn float_bits_of_int(x: i64) -> (r: u64)
    ensures
        r == int_to_float_bits(x),
{
    if x == 0 {
        return 0u64;
    }
    let a: u64 = if x >= 0 {
        x as u64
    } else {
        ((-(x + 1)) as u64) + 1
    };
    let ghost ai = if x < 0 {
        -(x as int)
    } else {
        x as int
    };
    proof {
        assert(a == ai);
        vstd::arithmetic::power2::lemma2_to64();
    }
    let sign: u64 = if x < 0 {
        0x8000_0000_0000_0000u64
    } else {
        0u64
    };
    let mut h: u64 = 0;
    let mut t: u64 = a;
    while t > 1
        invariant
            1 <= t <= a,
            h <= 63,
            (t as int) == (a as int) / (pow2(h as nat) as int),
            ilog2(a as int) == h + ilog2(t as int),
        decreases t,
    {
        proof {
            vstd::arithmetic::power2::lemma_pow2_pos(h as nat);
            vstd::arithmetic::power2::lemma_pow2_pos((h + 1) as nat);
            vstd::arithmetic::power2::lemma_pow2_unfold((h + 1) as nat);
            vstd::arithmetic::div_mod::lemma_div_denominator(
                a as int,
                pow2(h as nat) as int,
                2,
            );
            assert(h < 63) by {
                if h == 63 {
                    vstd::arithmetic::power2::lemma2_to64_rest();
                    assert((a as int) >= 2 * pow2(63)) by (nonlinear_arith)
                        requires
                            (t as int) == (a as int) / (pow2(63) as int),
                            t >= 2,
                            pow2(63) > 0,
                    ;
                }
            }
        }
        t = t / 2;
        h = h + 1;
    }
    proof {
        lemma_ilog2_bounds(a as int);
        assert(ilog2(a as int) == h as int);
        vstd::arithmetic::power2::lemma2_to64();
        vstd::arithmetic::power2::lemma2_to64_rest();
    }
    if h <= 52 {
        proof {
            vstd::arithmetic::power2::lemma_pow2_adds((h + 1) as nat, (52 - h) as nat);
            vstd::arithmetic::power2::lemma_pow2_adds(h as nat, (52 - h) as nat);
            vstd::arithmetic::power2::lemma_pow2_pos((52 - h) as nat);
            assert((a as int) * pow2((52 - h) as nat) < pow2(53)) by (nonlinear_arith)
                requires
                    (a as int) < pow2((h + 1) as nat),
                    pow2((h + 1) as nat) * pow2((52 - h) as nat) == pow2(53),
                    pow2((52 - h) as nat) > 0,
            ;
            assert((a as int) * pow2((52 - h) as nat) >= pow2(52)) by (nonlinear_arith)
                requires
                    (a as int) >= pow2(h as nat),
                    pow2(h as nat) * pow2((52 - h) as nat) == pow2(52),
                    pow2((52 - h) as nat) > 0,
            ;
            assert((a as int) * pow2((52 - h) as nat) <= u64::MAX as int);
            vstd::bits::lemma_u64_shl_is_mul(a, (52 - h) as u64);
        }
        let frac: u64 = a << ((52 - h) as u64);
        proof {
            assert(frac >= 0x10_0000_0000_0000u64);
        }
        sign | (((1023 + h) as u64) << 52u64) | (frac - 0x10_0000_0000_0000u64)
    } else {
        let sh: u64 = h - 52;
        proof {
            vstd::arithmetic::power2::lemma_pow2_pos(sh as nat);
            vstd::arithmetic::power2::lemma_pow2_pos((sh - 1) as nat);
            vstd::bits::lemma_u64_shl_is_mul(1u64, sh);
            vstd::bits::lemma_u64_shl_is_mul(1u64, (sh - 1) as u64);
            vstd::arithmetic::power2::lemma_pow2_adds(sh as nat, 53);
            vstd::arithmetic::power2::lemma_pow2_adds(sh as nat, 52);
        }
        let p: u64 = 1u64 << sh;
        let q: u64 = a / p;
        let rem: u64 = a % p;
        let half: u64 = 1u64 << ((sh - 1) as u64);
        proof {
            assert(q < pow2(53)) by (nonlinear_arith)
                requires
                    q == (a as int) / (pow2(sh as nat) as int),
                    (a as int) < pow2(sh as nat) * pow2(53),
                    pow2(sh as nat) > 0,
            ;
            assert(q >= pow2(52)) by (nonlinear_arith)
                requires
                    q == (a as int) / (pow2(sh as nat) as int),
                    (a as int) >= pow2(sh as nat) * pow2(52),
                    pow2(sh as nat) > 0,
            ;
            assert(q >= 0x10_0000_0000_0000u64);
            assert(q < 0x20_0000_0000_0000u64);
        }
        let round_up: bool = rem > half || (rem == half && q % 2 == 1);
        let q2: u64 = if round_up {
            q + 1
        } else {
            q
        };
        if q2 == 0x20_0000_0000_0000u64 {
            sign | (((1023 + h + 1) as u64) << 52u64)
        } else {
            sign | (((1023 + h) as u64) << 52u64) | (q2 - 0x10_0000_0000_0000u64)
        }
    }
}

impl CfgValue {
    /// The contents converted to a float's bit pattern, if the value is
    /// numeric: a `Float` as it is, an `Int` as the bits of the nearest
    /// 64-bit float.
    pub fn to_float(&self) -> (r: Option<u64>)
        ensures
            self@ is Float ==> r == Some(self@->Float_0),
            self@ is Int ==> r == Some(int_to_float_bits(self@->Int_0)),
            (!(self@ is Int) && !(self@ is Float)) ==> r is None,
    {
        match self {
            CfgValue::Float(bits) => Some(*bits),
            CfgValue::Int(x) => Some(float_bits_of_int(*x)),
            _ => None,
        }
    }

    /// The contents converted to an integer, if the value is numeric: an
    /// `Int` as it is, a `Float` truncated toward zero.
    pub fn to_int(&self) -> (r: Option<i64>)
        ensures
            self@ is Int ==> r == Some(self@->Int_0),
            self@ is Float ==> r == Some(float_bits_to_int(self@->Float_0)),
            (!(self@ is Int) && !(self@ is Float)) ==> r is None,
    {
        match self {
            CfgValue::Int(x) => Some(*x),
            CfgValue::Float(bits) => Some(trunc_float_bits(*bits)),
            _ => None,
        }
    }
}

} // verus!
