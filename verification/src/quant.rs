//! Fixed-point requantization: multiply by a Q31 fixed-point multiplier, then
//! arithmetic-right-shift with a rounding policy (to nearest even, towards
//! plus infinity, or away from zero). The bit-exact behaviour here is what
//! quantized-inference numerical compatibility rests on.

use vstd::prelude::*;

verus! {

use crate::arith::{ashr, ashr64};
use vstd::arithmetic::power2::lemma2_to64;
use vstd::arithmetic::div_mod::{lemma_div_is_ordered, lemma_div_multiples_vanish};

/// The multiplier-adjusted value: the high part of the 64-bit product of the
/// accumulator value and the Q31 fixed-point multiplier.
pub open spec fn q_scale(x: int, mult: int) -> int {
    ashr(x * mult, 31)
}

/// Round-to-nearest with ties to even, applied to the magnitude of the
/// shifted quantity, the sign reapplied afterwards.
pub open spec fn q_towards_even(x: int, mult: int, shift: nat) -> int
    recommends
        shift >= 1,
{
    let t = ashr(q_scale(x, mult), (shift - 1) as nat);
    let m = if t < 0 {
        -t
    } else {
        t
    };
    let nudge: int = if m % 4 == 3 {
        1
    } else {
        0
    };
    let r = (m + nudge) / 2;
    if t < 0 {
        -r
    } else {
        r
    }
}

/// Round-to-nearest with ties always up, computed on the signed shifted
/// quantity directly.
pub open spec fn q_towards_plus_inf(x: int, mult: int, shift: nat) -> int
    recommends
        shift >= 1,
{
    let t = ashr(q_scale(x, mult), (shift - 1) as nat);
    (t + 1) / 2
}

/// Round-to-nearest with ties away from zero: the shift and nudge run on the
/// magnitude, the sign reapplied afterwards.
pub open spec fn q_away(x: int, mult: int, shift: nat) -> int
    recommends
        shift >= 1,
{
    let y = q_scale(x, mult);
    let my = if y < 0 {
        -y
    } else {
        y
    };
    let m = ashr(my, (shift - 1) as nat);
    let r = (m + 1) / 2;
    if y < 0 {
        -r
    } else {
        r
    }
}

/// The multiplier-adjusted value, in a 64-bit word.
pub fn q_scale_i64(x: i32, mult: i32) -> (y: i64)
    ensures
        y as int == q_scale(x as int, mult as int),
        -0x8000_0000 <= y <= 0x8000_0000,
{
    proof {
        assert(-0x4000_0000_0000_0000 <= x as int * mult as int <= 0x4000_0000_0000_0000)
            by (nonlinear_arith)
            requires
                -0x8000_0000 <= x as int <= 0x7fff_ffff,
                -0x8000_0000 <= mult as int <= 0x7fff_ffff,
        {}
    }
    let p: i64 = (x as i64) * (mult as i64);
    let y = ashr64(p, 31);
    proof {
        lemma2_to64();
        lemma_div_is_ordered(p as int, 0x4000_0000_0000_0000, 0x8000_0000);
        lemma_div_is_ordered(-0x4000_0000_0000_0000, p as int, 0x8000_0000);
    }
    y
}

/// The signed shifted quantity `t` for a policy that rounds on the signed
/// value, and its bound.
fn q_shifted(x: i32, mult: i32, shift: usize) -> (t: i64)
    requires
        1 <= shift < 64,
    ensures
        t as int == ashr(q_scale(x as int, mult as int), (shift - 1) as nat),
        -0x8000_0000 <= t <= 0x8000_0000,
{
    let y = q_scale_i64(x, mult);
    ashr64(y, (shift - 1) as u64)
}

/// Requantize with round-to-nearest-even.
pub fn round_towards_even(x: i32, mult: i32, shift: usize) -> (r: i32)
    requires
        1 <= shift < 64,
    ensures
        r as int == q_towards_even(x as int, mult as int, shift as nat),
{
    let t = q_shifted(x, mult, shift);
    let m: i64 = if t < 0 {
        -t
    } else {
        t
    };
    let low = (m as u64) % 4;
    let nudge: i64 = if low == 3 {
        1
    } else {
        0
    };
    let r0 = ashr64(m + nudge, 1);
    proof {
        lemma2_to64();
        lemma_div_is_ordered(m as int + nudge as int, 0x8000_0001, 2);
    }
    if t < 0 {
        (-r0) as i32
    } else {
        r0 as i32
    }
}

/// Requantize with ties rounded towards plus infinity.
pub fn round_towards_plus_inf(x: i32, mult: i32, shift: usize) -> (r: i32)
    requires
        1 <= shift < 64,
    ensures
        r as int == q_towards_plus_inf(x as int, mult as int, shift as nat),
{
    let t = q_shifted(x, mult, shift);
    let r0 = ashr64(t + 1, 1);
    proof {
        lemma2_to64();
        lemma_div_is_ordered(t as int + 1, 0x8000_0001, 2);
        lemma_div_is_ordered(-0x8000_0000 + 1, t as int + 1, 2);
    }
    r0 as i32
}

/// Requantize with ties rounded away from zero.
pub fn round_away(x: i32, mult: i32, shift: usize) -> (r: i32)
    requires
        1 <= shift < 64,
    ensures
        r as int == q_away(x as int, mult as int, shift as nat),
{
    let y = q_scale_i64(x, mult);
    let my: i64 = if y < 0 {
        -y
    } else {
        y
    };
    let m = ashr64(my, (shift - 1) as u64);
    let r0 = ashr64(m + 1, 1);
    proof {
        lemma2_to64();
        lemma_div_is_ordered(m as int + 1, 0x8000_0001, 2);
    }
    if y < 0 {
        (-r0) as i32
    } else {
        r0 as i32
    }
}

/// Closed-form reference for the doubled-then-requantized tile of the
/// conformance harness, ties-to-even policy: the net effect on an input `c`
/// is a divide by four of `c >> 1`, the half-way case rounded to even.
pub open spec fn ref_even(c: int) -> int {
    let t = ashr(c, 1);
    let m = if t < 0 {
        -t
    } else {
        t
    };
    let nudge: int = if m % 4 == 3 {
        1
    } else {
        0
    };
    let r = (m + nudge) / 2;
    if t < 0 {
        -r
    } else {
        r
    }
}

/// Closed-form reference, ties-towards-plus-infinity policy.
pub open spec fn ref_plus_inf(c: int) -> int {
    (ashr(c, 1) + 1) / 2
}

/// Closed-form reference, ties-away-from-zero policy.
pub open spec fn ref_away(c: int) -> int {
    let m = ashr(if c < 0 {
        -c
    } else {
        c
    }, 1);
    let r = (m + 1) / 2;
    if c < 0 {
        -r
    } else {
        r
    }
}

/// Doubling an accumulator value and requantizing it with a one-half Q31
/// multiplier and a shift of two agrees, under every rounding policy, with
/// that policy's closed-form reference on the undoubled value.
pub proof fn lemma_round_half_policies(c: int)
    requires
        -20 <= c <= 20,
    ensures
        q_towards_even(2 * c, 0x4000_0000, 2) == ref_even(c),
        q_towards_plus_inf(2 * c, 0x4000_0000, 2) == ref_plus_inf(c),
        q_away(2 * c, 0x4000_0000, 2) == ref_away(c),
{
    lemma2_to64();
    assert(2 * c * 0x4000_0000 == 0x8000_0000 * c) by (nonlinear_arith) {}
    lemma_div_multiples_vanish(c, 0x8000_0000);
    assert(q_scale(2 * c, 0x4000_0000) == c);
}

} // verus!
