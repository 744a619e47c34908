//! Two's-complement wrapping arithmetic on 32-bit accumulator values, and
//! floor division by powers of two (the arithmetic right shift the
//! quantization rounding is built on).

use vstd::prelude::*;

verus! {

use vstd::arithmetic::power2::{pow2, lemma_pow2_unfold, lemma_pow2_strictly_increases, lemma2_to64, lemma2_to64_rest};
use vstd::arithmetic::div_mod::{lemma_fundamental_div_mod, lemma_fundamental_div_mod_converse};

/// The value an `i32` accumulator holds after an operation whose mathematical
/// result is `x`: `x` reduced modulo 2^32 into `[-2^31, 2^31)`.
pub open spec fn wrap32(x: int) -> int {
    let m = x % 0x1_0000_0000;
    if m >= 0x8000_0000 {
        m - 0x1_0000_0000
    } else {
        m
    }
}

pub proof fn lemma_wrap32_id(x: int)
    requires
        -0x8000_0000 <= x < 0x8000_0000,
    ensures
        wrap32(x) == x,
{
    if x >= 0 {
        lemma_fundamental_div_mod_converse(x, 0x1_0000_0000, 0, x);
    } else {
        lemma_fundamental_div_mod_converse(x, 0x1_0000_0000, -1, x + 0x1_0000_0000);
    }
}

/// Wrapping addition of two accumulator values.
pub fn wadd(a: i32, b: i32) -> (r: i32)
    ensures
        r as int == wrap32(a + b),
{
    proof {
        let s = a as int + b as int;
        if -0x8000_0000 <= s < 0x8000_0000 {
            lemma_wrap32_id(s);
        } else if s >= 0x8000_0000 {
            lemma_fundamental_div_mod_converse(s, 0x1_0000_0000, 0, s);
        } else {
            lemma_fundamental_div_mod_converse(s, 0x1_0000_0000, -1, s + 0x1_0000_0000);
        }
    }
    a.wrapping_add(b)
}

/// Wrapping multiplication of two accumulator values.
pub fn wmul(a: i32, b: i32) -> (r: i32)
    ensures
        r as int == wrap32(a * b),
{
    a.wrapping_mul(b)
}

/// 2^k, in a machine word.
pub fn pow2_u64(k: u64) -> (r: u64)
    requires
        k < 64,
    ensures
        r as int == pow2(k as nat),
        r >= 1,
{
    let mut i: u64 = 0;
    let mut r: u64 = 1;
    proof {
        lemma2_to64();
        lemma2_to64_rest();
    }
    while i < k
        invariant
            i <= k < 64,
            r as int == pow2(i as nat),
            pow2(63) == 0x8000000000000000,
        decreases k - i,
    {
        proof {
            lemma_pow2_unfold((i + 1) as nat);
            if i + 1 < 63 {
                lemma_pow2_strictly_increases((i + 1) as nat, 63);
            }
        }
        r = r * 2;
        i = i + 1;
    }
    r
}

/// Floor division of `v` by 2^k: the arithmetic right shift of `v` by `k`.
pub open spec fn ashr(v: int, k: nat) -> int {
    v / pow2(k) as int
}

/// Arithmetic right shift of a 64-bit value, computed as a floor division.
pub fn ashr64(v: i64, k: u64) -> (r: i64)
    requires
        k < 64,
        v > i64::MIN,
    ensures
        r as int == ashr(v as int, k as nat),
        v >= 0 ==> 0 <= r <= v,
        v < 0 ==> v <= r <= 0,
{
    let p = pow2_u64(k);
    proof {
        vstd::arithmetic::power2::lemma_pow2_pos(k as nat);
    }
    if v >= 0 {
        let q = (v as u64) / p;
        proof {
            assert((v as u64) as int == v as int);
            assert(q as int == v as int / p as int);
        }
        q as i64
    } else {
        let m = (-v) as u64;
        let q = m / p;
        let rem = m % p;
        proof {
            assert(m as int == -(v as int));
            lemma_fundamental_div_mod(m as int, p as int);
            assert(m as int == p as int * (m as int / p as int) + m as int % p as int);
            assert(q as int == m as int / p as int);
            assert(rem as int == m as int % p as int);
            assert(m as int == q as int * p as int + rem as int) by (nonlinear_arith)
                requires
                    m as int == p as int * (q as int) + rem as int,
            {}
            assert(q as int * p as int >= q as int) by (nonlinear_arith)
                requires
                    p as int >= 1,
                    q as int >= 0,
            {}
            if rem == 0 {
                assert(v as int == (-(q as int)) * p as int + 0) by (nonlinear_arith)
                    requires
                        m as int == q as int * p as int + rem as int,
                        rem == 0,
                        v as int == -(m as int),
                {}
                lemma_fundamental_div_mod_converse(v as int, p as int, -(q as int), 0);
            } else {
                assert(v as int == (-(q as int) - 1) * p as int + (p as int - rem as int))
                    by (nonlinear_arith)
                    requires
                        m as int == q as int * p as int + rem as int,
                        v as int == -(m as int),
                {}
                lemma_fundamental_div_mod_converse(
                    v as int,
                    p as int,
                    -(q as int) - 1,
                    p as int - rem as int,
                );
            }
        }
        if rem == 0 {
            -(q as i64)
        } else {
            -(q as i64) - 1
        }
    }
}

/// An accumulator value clamped into the 8-bit output range: the saturating
/// narrowing conversion a small-integer store performs.
pub open spec fn sat8(x: int) -> int {
    if x > 127 {
        127
    } else if x < -128 {
        -128
    } else {
        x
    }
}

/// Saturating narrowing of an accumulator value to 8 bits.
pub fn sat_narrow_i8(x: i32) -> (r: i8)
    ensures
        r as int == sat8(x as int),
{
    if x > 127 {
        127
    } else if x < -128 {
        -128
    } else {
        x as i8
    }
}

} // verus!
