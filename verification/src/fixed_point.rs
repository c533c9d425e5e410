//! Fixed-point rescaling of prices into the unit range and back.

use vstd::arithmetic::div_mod::{
    lemma_div_is_ordered,
    lemma_div_multiples_vanish,
    lemma_fundamental_div_mod,
    lemma_fundamental_div_mod_converse,
};
use vstd::arithmetic::mul::{lemma_mul_inequality, lemma_mul_is_commutative};
use vstd::prelude::*;

verus! {

/// The fixed-point number that stands for one.
pub const NORM_SCALE: u64 = 1_000_000_000;

/// `x` rescaled so that `min` becomes zero and `max` becomes one, in
/// fixed point, rounded down.
pub open spec fn scaled(x: int, min: int, max: int) -> int {
    ((x - min) * NORM_SCALE as int) / (max - min)
}

/// The price that the fixed-point number `value` stands for between `min`
/// and `max`, rounded down.
pub open spec fn unscaled(value: int, min: int, max: int) -> int {
    (value * (max - min)) / (NORM_SCALE as int) + min
}

/// A product is no larger in magnitude than the product of the bounds on its
/// factors.
proof fn lemma_product_bound(a: int, b: int, la: int, lb: int)
    by (nonlinear_arith)
    requires
        -la <= a <= la,
        -lb <= b <= lb,
        0 <= la,
        0 <= lb,
    ensures
        -(la * lb) <= a * b <= la * lb,
{
}

/// A product of two 64-bit amounts fits in 128 bits.
pub proof fn lemma_product_fits(a: int, b: int)
    requires
        0 <= a <= u64::MAX,
        0 <= b <= u64::MAX,
    ensures
        0 <= a * b <= u128::MAX,
{
    lemma_product_bound(a, b, 0xffff_ffff_ffff_ffff, 0xffff_ffff_ffff_ffff);
    assert(0xffff_ffff_ffff_ffffint * 0xffff_ffff_ffff_ffffint
        == 0xffff_ffff_ffff_fffe_0000_0000_0000_0001int) by (nonlinear_arith);
    assert(0 <= a * b) by (nonlinear_arith)
        requires
            0 <= a,
            0 <= b,
    ;
}

/// Rounding a negative quotient down: `-a / d` is `-ceil(a / d)`.
proof fn lemma_floor_of_negative(a: int, d: int)
    requires
        a > 0,
        d > 0,
    ensures
        (-a) / d == -((a + d - 1) / d),
{
    let q = (a + d - 1) / d;
    let m = (a + d - 1) % d;
    lemma_fundamental_div_mod(a + d - 1, d);
    assert(a + d - 1 == d * q + m);
    assert(0 <= m < d);
    let r = d - 1 - m;
    assert(-a == d * (-q) + r) by (nonlinear_arith)
        requires
            a + d - 1 == d * q + m,
            r == d - 1 - m,
    ;
    lemma_mul_is_commutative(d, -q);
    lemma_fundamental_div_mod_converse(-a, d, -q, r);
}

/// `a / d` rounded down, for a positive divisor.
fn floor_div(a: i128, d: i128) -> (r: i128)
    requires
        d > 0,
        a > i128::MIN + d,
    ensures
        r == a / d,
{
    if a >= 0 {
        a / d
    } else {
        proof {
            lemma_floor_of_negative(-a, d as int);
        }
        -((-a + d - 1) / d)
    }
}

/// A rescaled value of the window itself lies between zero and one.
pub proof fn lemma_scaled_in_unit_range(x: int, min: int, max: int)
    requires
        min <= x <= max,
        min < max,
    ensures
        0 <= scaled(x, min, max) <= NORM_SCALE,
        scaled(min, min, max) == 0,
        scaled(max, min, max) == NORM_SCALE,
{
    let s = NORM_SCALE as int;
    let range = max - min;
    lemma_mul_inequality(0, x - min, s);
    lemma_mul_inequality(x - min, range, s);
    lemma_div_is_ordered(0, (x - min) * s, range);
    lemma_div_is_ordered((x - min) * s, range * s, range);
    lemma_div_multiples_vanish(s, range);
    assert(0int / range == 0) by (nonlinear_arith)
        requires
            range > 0,
    ;
    assert((min - min) * s == 0);
    assert((max - min) * s == range * s);
}

/// Rescaling a value and scaling it back gives the value again, short by at
/// most one tick more than the window's range holds whole units of the
/// scale. This holds of the values of the window and of a target that lies
/// outside it alike. A window whose range is below `NORM_SCALE` ticks comes
/// back within one tick.
pub proof fn lemma_round_trip(x: int, min: int, max: int)
    requires
        min < max,
    ensures
        unscaled(scaled(x, min, max), min, max) <= x,
        x <= unscaled(scaled(x, min, max), min, max) + (max - min) / (NORM_SCALE as int) + 1,
{
    let s = NORM_SCALE as int;
    let range = max - min;
    let offset = x - min;
    let v = (offset * s) / range;
    let m = (offset * s) % range;
    let k = range / s;
    lemma_fundamental_div_mod(offset * s, range);
    lemma_fundamental_div_mod(range, s);
    let p = v * range;
    assert(p == offset * s - m) by (nonlinear_arith)
        requires
            offset * s == range * v + m,
            p == v * range,
    ;
    lemma_div_is_ordered(p, offset * s, s);
    lemma_div_multiples_vanish(offset, s);
    lemma_mul_is_commutative(offset, s);
    assert(p / s <= offset);
    let low = (offset - k - 1) * s;
    assert(low <= p) by (nonlinear_arith)
        requires
            low == (offset - k - 1) * s,
            p == offset * s - m,
            m < range,
            range == s * k + range % s,
            range % s < s,
    ;
    lemma_div_is_ordered(low, p, s);
    lemma_div_multiples_vanish(offset - k - 1, s);
    lemma_mul_is_commutative(offset - k - 1, s);
    assert(offset - k - 1 <= p / s);
}

/// Rescales `x` between `min` and `max`.
pub fn normalize_value(x: u64, min: u64, max: u64) -> (r: i128)
    requires
        min < max,
    ensures
        r == scaled(x as int, min as int, max as int),
{
    let range: i128 = max as i128 - min as i128;
    let offset: i128 = x as i128 - min as i128;
    proof {
        lemma_product_bound(offset as int, NORM_SCALE as int, 0x1_0000_0000_0000_0000, 0x4000_0000);
    }
    floor_div(offset * (NORM_SCALE as i128), range)
}

/// The price that `value` stands for between `min` and `max`:
/// `value * (max - min) + min` in fixed point, rounded down.
pub fn denormalize(value: i64, min: u64, max: u64) -> (r: i128)
    ensures
        r == unscaled(value as int, min as int, max as int),
{
    let range: i128 = max as i128 - min as i128;
    proof {
        lemma_product_bound(
            value as int,
            range as int,
            0x8000_0000_0000_0000,
            0xffff_ffff_ffff_ffff,
        );
        assert(0x8000_0000_0000_0000int * 0xffff_ffff_ffff_ffffint
            == 0x7fff_ffff_ffff_ffff_8000_0000_0000_0000int) by (nonlinear_arith);
    }
    let product: i128 = (value as i128) * range;
    let quotient = floor_div(product, NORM_SCALE as i128);
    proof {
        let limit: int = 0x7fff_ffff_ffff_ffff_8000_0000_0000_0000int;
        lemma_div_is_ordered(product as int, limit, NORM_SCALE as int);
        lemma_div_is_ordered(-limit, product as int, NORM_SCALE as int);
    }
    quotient + min as i128
}

} // verus!
