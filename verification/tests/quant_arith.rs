use linalg::arith::{ashr64, pow2_u64, sat_narrow_i8, wadd, wmul};
use linalg::quant::{round_away, round_towards_even, round_towards_plus_inf};

#[test]
fn wrapping_add_wraps() {
    assert_eq!(wadd(1, 2), 3);
    assert_eq!(wadd(i32::MAX, 1), i32::MIN);
    assert_eq!(wadd(i32::MIN, -1), i32::MAX);
    assert_eq!(wadd(-5, 5), 0);
}

#[test]
fn wrapping_mul_wraps() {
    assert_eq!(wmul(7, 6), 42);
    assert_eq!(wmul(1 << 16, 1 << 16), 0);
    assert_eq!(wmul(i32::MAX, 2), -2);
    assert_eq!(wmul(-3, 4), -12);
}

#[test]
fn arithmetic_shift_floors() {
    assert_eq!(ashr64(5, 1), 2);
    assert_eq!(ashr64(-5, 1), -3);
    assert_eq!(ashr64(-1, 5), -1);
    assert_eq!(ashr64(1 << 40, 40), 1);
    assert_eq!(ashr64(0, 7), 0);
}

#[test]
fn powers_of_two() {
    assert_eq!(pow2_u64(0), 1);
    assert_eq!(pow2_u64(5), 32);
    assert_eq!(pow2_u64(63), 1u64 << 63);
}

#[test]
fn saturating_narrowing() {
    assert_eq!(sat_narrow_i8(3), 3);
    assert_eq!(sat_narrow_i8(127), 127);
    assert_eq!(sat_narrow_i8(128), 127);
    assert_eq!(sat_narrow_i8(-128), -128);
    assert_eq!(sat_narrow_i8(-129), -128);
    assert_eq!(sat_narrow_i8(i32::MAX), 127);
    assert_eq!(sat_narrow_i8(i32::MIN), -128);
}

// With a one-half Q31 multiplier and a shift of two, an input 2c nets to
// c / 4 with rounding, so c = 2 sits exactly on the half-way point 0.5.
const HALF_Q31: i32 = 1 << 30;

fn ref_even(c: i64) -> i32 {
    let t = c >> 1;
    let m = t.abs();
    let nudge = (m & 0x3 == 0x3) as i64;
    let r = (m + nudge) >> 1;
    (if t < 0 { -r } else { r }) as i32
}

fn ref_plus_inf(c: i64) -> i32 {
    (((c >> 1) + 1) >> 1) as i32
}

fn ref_away(c: i64) -> i32 {
    ((((c.abs() >> 1) + 1) >> 1) * c.signum()) as i32
}

#[test]
fn round_even_matches_reference() {
    for c in -20i64..=20 {
        let got = round_towards_even(2 * c as i32, HALF_Q31, 2);
        assert_eq!(got, ref_even(c), "input {}", c);
    }
    // exact half-way cases: shifted remainder 0.5 rounds to the even side
    assert_eq!(round_towards_even(2 * 2, HALF_Q31, 2), 0);
    assert_eq!(round_towards_even(2 * 6, HALF_Q31, 2), 2);
    assert_eq!(round_towards_even(2 * -2, HALF_Q31, 2), 0);
}

#[test]
fn round_plus_inf_matches_reference() {
    for c in -20i64..=20 {
        let got = round_towards_plus_inf(2 * c as i32, HALF_Q31, 2);
        assert_eq!(got, ref_plus_inf(c), "input {}", c);
    }
    // half-way always moves up
    assert_eq!(round_towards_plus_inf(2 * 2, HALF_Q31, 2), 1);
    assert_eq!(round_towards_plus_inf(2 * -2, HALF_Q31, 2), 0);
}

#[test]
fn round_away_matches_reference() {
    for c in -20i64..=20 {
        let got = round_away(2 * c as i32, HALF_Q31, 2);
        assert_eq!(got, ref_away(c), "input {}", c);
    }
    // half-way moves away from zero on both sides
    assert_eq!(round_away(2 * 2, HALF_Q31, 2), 1);
    assert_eq!(round_away(2 * -2, HALF_Q31, 2), -1);
}
