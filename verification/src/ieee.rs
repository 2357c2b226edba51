//! IEEE 754 numbers carried as their bit patterns.
//!
//! A sensor value arrives as a 32-bit or 64-bit float. The library never
//! computes with it: it asks whether it is finite, how it compares, and which
//! of several comes first. Those questions are answered here on the bits, and
//! the laws at the end tie the answers to the numbers that the bits stand for.
use vstd::arithmetic::power2::*;
use vstd::prelude::*;

verus! {

/// Bits that hold a 32-bit float's exponent and fraction, sign removed.
pub open spec fn f32_magnitude(bits: u32) -> int {
    if bits >= 0x8000_0000 {
        bits - 0x8000_0000
    } else {
        bits as int
    }
}

/// The same for a 64-bit float.
pub open spec fn f64_magnitude(bits: u64) -> int {
    if bits >= 0x8000_0000_0000_0000 {
        bits - 0x8000_0000_0000_0000
    } else {
        bits as int
    }
}

pub open spec fn f32_is_negative(bits: u32) -> bool {
    bits >= 0x8000_0000
}

pub open spec fn f64_is_negative(bits: u64) -> bool {
    bits >= 0x8000_0000_0000_0000
}

pub open spec fn f32_is_nan(bits: u32) -> bool {
    f32_magnitude(bits) > 0x7f80_0000
}

pub open spec fn f64_is_nan(bits: u64) -> bool {
    f64_magnitude(bits) > 0x7ff0_0000_0000_0000
}

pub open spec fn f32_is_finite(bits: u32) -> bool {
    f32_magnitude(bits) < 0x7f80_0000
}

pub open spec fn f64_is_finite(bits: u64) -> bool {
    f64_magnitude(bits) < 0x7ff0_0000_0000_0000
}

/// The size of the number behind a magnitude, in units of the smallest
/// positive number of a format with `width` fraction bits.
pub open spec fn unit_count(magnitude: int, width: nat) -> int {
    let exponent = magnitude / pow2(width) as int;
    let fraction = magnitude % pow2(width) as int;
    if exponent == 0 {
        fraction
    } else {
        (pow2(width) + fraction) * pow2((exponent - 1) as nat)
    }
}

/// The number behind the bits of a finite 32-bit float, times 2^149.
pub open spec fn f32_value(bits: u32) -> int {
    if f32_is_negative(bits) {
        -unit_count(f32_magnitude(bits), 23)
    } else {
        unit_count(f32_magnitude(bits), 23)
    }
}

/// The number behind the bits of a finite 64-bit float, times 2^1074.
pub open spec fn f64_value(bits: u64) -> int {
    if f64_is_negative(bits) {
        -unit_count(f64_magnitude(bits), 52)
    } else {
        unit_count(f64_magnitude(bits), 52)
    }
}

/// Orders 32-bit floats that are not NaN: both zeros share a key.
pub open spec fn f32_key(bits: u32) -> int {
    if f32_is_negative(bits) {
        -f32_magnitude(bits)
    } else {
        f32_magnitude(bits)
    }
}

/// Orders 64-bit floats that are not NaN: both zeros share a key.
pub open spec fn f64_key(bits: u64) -> int {
    if f64_is_negative(bits) {
        -f64_magnitude(bits)
    } else {
        f64_magnitude(bits)
    }
}

/// `left <= right`; false where either is NaN.
pub open spec fn f32_le(left: u32, right: u32) -> bool {
    !f32_is_nan(left) && !f32_is_nan(right) && f32_key(left) <= f32_key(right)
}

/// `left < right`; false where either is NaN.
pub open spec fn f32_lt(left: u32, right: u32) -> bool {
    !f32_is_nan(left) && !f32_is_nan(right) && f32_key(left) < f32_key(right)
}

/// `left <= right`; false where either is NaN.
pub open spec fn f64_le(left: u64, right: u64) -> bool {
    !f64_is_nan(left) && !f64_is_nan(right) && f64_key(left) <= f64_key(right)
}

/// Position of a 32-bit float in the IEEE 754 total order, where -0 comes
/// before +0 and NaNs stand beyond the infinities, on the side of their sign.
pub open spec fn f32_total_key(bits: u32) -> int {
    if f32_is_negative(bits) {
        -f32_magnitude(bits) - 1
    } else {
        f32_magnitude(bits)
    }
}

/// The same for a 64-bit float.
pub open spec fn f64_total_key(bits: u64) -> int {
    if f64_is_negative(bits) {
        -f64_magnitude(bits) - 1
    } else {
        f64_magnitude(bits)
    }
}

/// Finite and greater than zero.
pub open spec fn f32_is_positive_finite(bits: u32) -> bool {
    f32_is_finite(bits) && f32_lt(0, bits)
}

/// Conversion to an integer by dropping the fraction gives one.
pub open spec fn f32_truncates_to_one(bits: u32) -> bool {
    f32_le(0x3f80_0000, bits) && f32_lt(bits, 0x4000_0000)
}

/// Exponent of the greatest power of two that is at most `n`.
pub open spec fn floor_log2(n: nat) -> nat
    decreases n,
{
    if n <= 1 {
        0
    } else {
        floor_log2(n / 2) + 1
    }
}

/// Bits of the 64-bit float that stands for the same number as the 32-bit
/// float. NaN stays NaN.
pub open spec fn f32_as_f64(bits: u32) -> u64 {
    let magnitude = f32_magnitude(bits);
    let exponent = magnitude / 0x80_0000;
    let fraction = magnitude % 0x80_0000;
    let sign = if f32_is_negative(bits) {
        0x8000_0000_0000_0000int
    } else {
        0
    };
    let widened = if exponent == 255 {
        0x7ff0_0000_0000_0000 + fraction * 0x2000_0000
    } else if exponent > 0 {
        (exponent + 896) * 0x10_0000_0000_0000 + fraction * 0x2000_0000
    } else if fraction == 0 {
        0
    } else {
        let top = floor_log2(fraction as nat);
        (874 + top) * 0x10_0000_0000_0000 + (fraction - pow2(top)) * pow2((52 - top) as nat)
    };
    (sign + widened) as u64
}

/// Sign-free bits of a 32-bit float.
fn magnitude32(bits: u32) -> (magnitude: u32)
    ensures
        magnitude == f32_magnitude(bits),
{
    if bits >= 0x8000_0000 {
        bits - 0x8000_0000
    } else {
        bits
    }
}

/// Sign-free bits of a 64-bit float.
fn magnitude64(bits: u64) -> (magnitude: u64)
    ensures
        magnitude == f64_magnitude(bits),
{
    if bits >= 0x8000_0000_0000_0000 {
        bits - 0x8000_0000_0000_0000
    } else {
        bits
    }
}

pub fn is_finite32(bits: u32) -> (finite: bool)
    ensures
        finite == f32_is_finite(bits),
{
    magnitude32(bits) < 0x7f80_0000
}

pub fn is_positive_finite32(bits: u32) -> (positive: bool)
    ensures
        positive == f32_is_positive_finite(bits),
{
    0 < bits && bits < 0x7f80_0000
}

pub fn truncates_to_one32(bits: u32) -> (one: bool)
    ensures
        one == f32_truncates_to_one(bits),
{
    0x3f80_0000 <= bits && bits < 0x4000_0000
}

/// The number's place among numbers that are not NaN.
pub fn key32(bits: u32) -> (key: i64)
    ensures
        key == f32_key(bits),
{
    let magnitude: u32 = magnitude32(bits);
    if bits >= 0x8000_0000 {
        -(magnitude as i64)
    } else {
        magnitude as i64
    }
}

fn key64(bits: u64) -> (key: i64)
    ensures
        key == f64_key(bits),
{
    let magnitude: u64 = magnitude64(bits);
    if bits >= 0x8000_0000_0000_0000 {
        -(magnitude as i64)
    } else {
        magnitude as i64
    }
}

/// The number's place in the total order.
pub fn total_key32(bits: u32) -> (key: i64)
    ensures
        key == f32_total_key(bits),
{
    let magnitude: u32 = magnitude32(bits);
    if bits >= 0x8000_0000 {
        -(magnitude as i64) - 1
    } else {
        magnitude as i64
    }
}

/// The number's place in the total order.
pub fn total_key64(bits: u64) -> (key: i64)
    ensures
        key == f64_total_key(bits),
{
    let magnitude: u64 = magnitude64(bits);
    if bits >= 0x8000_0000_0000_0000 {
        -(magnitude as i64) - 1
    } else {
        magnitude as i64
    }
}

pub fn is_zero64(bits: u64) -> (zero: bool)
    ensures
        zero == (f64_magnitude(bits) == 0),
{
    magnitude64(bits) == 0
}

pub fn le32(left: u32, right: u32) -> (le: bool)
    ensures
        le == f32_le(left, right),
{
    magnitude32(left) <= 0x7f80_0000 && magnitude32(right) <= 0x7f80_0000 && key32(left) <= key32(
        right,
    )
}

pub fn lt32(left: u32, right: u32) -> (lt: bool)
    ensures
        lt == f32_lt(left, right),
{
    magnitude32(left) <= 0x7f80_0000 && magnitude32(right) <= 0x7f80_0000 && key32(left) < key32(
        right,
    )
}

pub fn le64(left: u64, right: u64) -> (le: bool)
    ensures
        le == f64_le(left, right),
{
    magnitude64(left) <= 0x7ff0_0000_0000_0000 && magnitude64(right) <= 0x7ff0_0000_0000_0000
        && key64(left) <= key64(right)
}

proof fn lemma_floor_log2(n: nat)
    requires
        n > 0,
    ensures
        pow2(floor_log2(n)) <= n < pow2(floor_log2(n) + 1),
    decreases n,
{
    lemma2_to64();
    if n > 1 {
        lemma_floor_log2(n / 2);
        lemma_pow2_unfold(floor_log2(n));
        lemma_pow2_unfold(floor_log2(n) + 1);
    }
}

/// Widens a 32-bit float to 64 bits.
pub fn widen(bits: u32) -> (wide: u64)
    ensures
        wide == f32_as_f64(bits),
{
    let magnitude: u32 = magnitude32(bits);
    let exponent: u64 = (magnitude / 0x80_0000) as u64;
    let fraction: u64 = (magnitude % 0x80_0000) as u64;
    let sign: u64 = if bits >= 0x8000_0000 {
        0x8000_0000_0000_0000
    } else {
        0
    };
    if exponent == 255 {
        sign + (0x7ff0_0000_0000_0000 + fraction * 0x2000_0000)
    } else if exponent > 0 {
        sign + ((exponent + 896) * 0x10_0000_0000_0000 + fraction * 0x2000_0000)
    } else if fraction == 0 {
        sign
    } else {
        // Double the fraction until its leading bit has reached bit 52.
        let mut doubled: u64 = fraction;
        let mut top: u64 = 52;
        proof {
            lemma2_to64();
            lemma2_to64_rest();
            lemma_floor_log2(fraction as nat);
            let start = floor_log2(fraction as nat);
            if start >= 23 {
                if start > 23 {
                    lemma_pow2_strictly_increases(23, start);
                }
            }
        }
        let ghost leading = floor_log2(fraction as nat);
        assert(doubled == fraction * pow2(0)) by {
            lemma2_to64();
        }
        while doubled < 0x10_0000_0000_0000
            invariant
                0 < fraction < 0x80_0000,
                pow2(leading) <= fraction < pow2(leading + 1),
                leading <= 22,
                leading <= top <= 52,
                doubled == fraction * pow2((52 - top) as nat),
                doubled < 0x20_0000_0000_0000,
            decreases top,
        {
            proof {
                lemma2_to64();
                lemma2_to64_rest();
                let by = (52 - top) as nat;
                if top == leading {
                    lemma_pow2_adds(leading, by);
                    assert(pow2(leading) * pow2(by) <= fraction * pow2(by)) by (nonlinear_arith)
                        requires
                            pow2(leading) <= fraction,
                            pow2(by) >= 0,
                    ;
                }
                lemma_pow2_unfold(by + 1);
                assert(fraction * pow2(by + 1) == 2 * (fraction * pow2(by))) by (nonlinear_arith)
                    requires
                        pow2(by + 1) == 2 * pow2(by),
                ;
            }
            doubled = doubled * 2;
            top = top - 1;
        }
        proof {
            lemma2_to64();
            lemma2_to64_rest();
            let by = (52 - top) as nat;
            if leading < top {
                lemma_pow2_adds(leading + 1, by);
                assert(fraction * pow2(by) < pow2(leading + 1) * pow2(by)) by (nonlinear_arith)
                    requires
                        fraction < pow2(leading + 1),
                        pow2(by) > 0,
                ;
                lemma_pow2_pos(by);
                if leading + 1 + by < 52 {
                    lemma_pow2_strictly_increases(leading + 1 + by, 52);
                }
            }
            assert(top == leading);
            lemma_pow2_adds(leading, by);
            assert((fraction - pow2(leading)) * pow2(by) == fraction * pow2(by) - pow2(leading)
                * pow2(by)) by (nonlinear_arith);
        }
        sign + ((874 + top) * 0x10_0000_0000_0000 + (doubled - 0x10_0000_0000_0000))
    }
}

/// Every magnitude stands for a number below the least one with the next
/// exponent.
proof fn lemma_unit_count_bounds(magnitude: int, width: nat)
    requires
        0 <= magnitude,
    ensures
        0 <= unit_count(magnitude, width),
        unit_count(magnitude, width) < pow2(width) * pow2((magnitude / pow2(width) as int) as nat),
        magnitude / pow2(width) as int > 0 ==> pow2(width) * pow2(
            (magnitude / pow2(width) as int - 1) as nat,
        ) <= unit_count(magnitude, width),
{
    lemma_pow2_pos(width);
    let base = pow2(width) as int;
    let exponent = magnitude / base;
    let fraction = magnitude % base;
    assert(0 <= exponent && 0 <= fraction < base) by (nonlinear_arith)
        requires
            0 <= magnitude,
            base > 0,
            exponent == magnitude / base,
            fraction == magnitude % base,
    ;
    if exponent == 0 {
        lemma2_to64();
        assert(base * pow2(0) == base) by (nonlinear_arith)
            requires
                pow2(0) == 1,
        ;
    } else {
        let scale = pow2((exponent - 1) as nat) as int;
        lemma_pow2_pos((exponent - 1) as nat);
        lemma_pow2_unfold(exponent as nat);
        assert((base + fraction) * scale < base * (2 * scale)) by (nonlinear_arith)
            requires
                fraction < base,
                scale > 0,
        ;
        assert(base * scale <= (base + fraction) * scale) by (nonlinear_arith)
            requires
                0 <= fraction,
                scale > 0,
        ;
    }
}

/// A greater magnitude stands for a greater number.
proof fn lemma_unit_count_increases(low: int, high: int, width: nat)
    requires
        0 <= low < high,
    ensures
        unit_count(low, width) < unit_count(high, width),
{
    lemma_pow2_pos(width);
    let base = pow2(width) as int;
    lemma_unit_count_bounds(low, width);
    lemma_unit_count_bounds(high, width);
    let below = low / base;
    let above = high / base;
    assert(0 <= below <= above) by (nonlinear_arith)
        requires
            0 <= low < high,
            base > 0,
            below == low / base,
            above == high / base,
    ;
    if below == above {
        let rest_low = low % base;
        let rest_high = high % base;
        assert(rest_low < rest_high) by (nonlinear_arith)
            requires
                low < high,
                base > 0,
                low / base == high / base,
                rest_low == low % base,
                rest_high == high % base,
        ;
        if below > 0 {
            let scale = pow2((below - 1) as nat) as int;
            lemma_pow2_pos((below - 1) as nat);
            assert((base + rest_low) * scale < (base + rest_high) * scale) by (nonlinear_arith)
                requires
                    rest_low < rest_high,
                    scale > 0,
            ;
        }
    } else {
        let reached = pow2(below as nat) as int;
        let start = pow2((above - 1) as nat) as int;
        if below < above - 1 {
            lemma_pow2_strictly_increases(below as nat, (above - 1) as nat);
        }
        assert(base * reached <= base * start) by (nonlinear_arith)
            requires
                reached <= start,
                base > 0,
        ;
    }
}

/// Comparing the bits of two 32-bit floats compares the numbers they stand for.
pub proof fn law_f32_order(left: u32, right: u32)
    requires
        f32_is_finite(left),
        f32_is_finite(right),
    ensures
        f32_le(left, right) <==> f32_value(left) <= f32_value(right),
        f32_lt(left, right) <==> f32_value(left) < f32_value(right),
{
    lemma_ordered_units(f32_magnitude(left), f32_magnitude(right), 23);
    lemma_ordered_units(0, f32_magnitude(left), 23);
    lemma_ordered_units(0, f32_magnitude(right), 23);
    assert(unit_count(0, 23) == 0) by {
        lemma2_to64();
    }
}

/// Comparing the bits of two 64-bit floats compares the numbers they stand for.
pub proof fn law_f64_order(left: u64, right: u64)
    requires
        f64_is_finite(left),
        f64_is_finite(right),
    ensures
        f64_le(left, right) <==> f64_value(left) <= f64_value(right),
{
    lemma_ordered_units(f64_magnitude(left), f64_magnitude(right), 52);
    lemma_ordered_units(0, f64_magnitude(left), 52);
    lemma_ordered_units(0, f64_magnitude(right), 52);
    assert(unit_count(0, 52) == 0) by {
        lemma2_to64();
        lemma2_to64_rest();
    }
}

proof fn lemma_ordered_units(left: int, right: int, width: nat)
    requires
        0 <= left,
        0 <= right,
    ensures
        left < right <==> unit_count(left, width) < unit_count(right, width),
        left == right <==> unit_count(left, width) == unit_count(right, width),
{
    if left < right {
        lemma_unit_count_increases(left, right, width);
    } else if right < left {
        lemma_unit_count_increases(right, left, width);
    }
}

/// Widening keeps the number: the 64-bit value, counted in units of 2^-1074,
/// is the 32-bit value counted in units of 2^-149. Infinities and NaN stay
/// what they are, and so does the sign.
pub proof fn law_widening_is_exact(bits: u32)
    ensures
        f64_is_negative(f32_as_f64(bits)) == f32_is_negative(bits),
        f64_is_nan(f32_as_f64(bits)) == f32_is_nan(bits),
        f64_is_finite(f32_as_f64(bits)) == f32_is_finite(bits),
        f32_is_finite(bits) ==> f64_value(f32_as_f64(bits)) == f32_value(bits) * pow2(925),
{
    lemma2_to64();
    lemma2_to64_rest();
    let magnitude = f32_magnitude(bits);
    let exponent = magnitude / 0x80_0000;
    let fraction = magnitude % 0x80_0000;
    let wide = f32_as_f64(bits);
    if exponent == 255 {
    } else if exponent > 0 {
        let wide_magnitude = f64_magnitude(wide);
        assert(wide_magnitude == (exponent + 896) * 0x10_0000_0000_0000 + fraction * 0x2000_0000);
        assert(wide_magnitude / 0x10_0000_0000_0000 == exponent + 896);
        assert(wide_magnitude % 0x10_0000_0000_0000 == fraction * 0x2000_0000);
        let small = pow2((exponent - 1) as nat) as int;
        lemma_pow2_adds(29, (exponent - 1 + 896) as nat);
        lemma_pow2_adds((exponent - 1) as nat, 925);
        let large = pow2((exponent + 895) as nat) as int;
        assert((0x10_0000_0000_0000 + fraction * 0x2000_0000) * large == (0x80_0000 + fraction)
            * small * pow2(925)) by (nonlinear_arith)
            requires
                0x2000_0000 * large == small * pow2(925),
        ;
    } else if fraction == 0 {
        assert(unit_count(0, 23) == 0);
        assert(unit_count(0, 52) == 0);
        assert(0 * pow2(925) == 0);
    } else {
        let top = floor_log2(fraction as nat);
        lemma_floor_log2(fraction as nat);
        if top >= 23 {
            if top > 23 {
                lemma_pow2_strictly_increases(23, top);
            }
        }
        let by = (52 - top) as nat;
        let rest = (fraction - pow2(top)) * pow2(by);
        lemma_pow2_adds(top, by);
        lemma_pow2_unfold(top + 1);
        lemma_pow2_pos(by);
        assert(0 <= rest < 0x10_0000_0000_0000) by (nonlinear_arith)
            requires
                0 <= fraction - pow2(top) < pow2(top),
                pow2(by) > 0,
                rest == (fraction - pow2(top)) * pow2(by),
                pow2(top) * pow2(by) == 0x10_0000_0000_0000,
        ;
        let wide_magnitude = f64_magnitude(wide);
        assert(wide_magnitude == (874 + top) * 0x10_0000_0000_0000 + rest);
        assert(wide_magnitude / 0x10_0000_0000_0000 == 874 + top);
        assert(wide_magnitude % 0x10_0000_0000_0000 == rest);
        let scale = pow2((873 + top) as nat) as int;
        lemma_pow2_adds(by, (873 + top) as nat);
        assert((0x10_0000_0000_0000 + rest) * scale == fraction * pow2(925)) by (nonlinear_arith)
            requires
                rest == (fraction - pow2(top)) * pow2(by),
                pow2(top) * pow2(by) == 0x10_0000_0000_0000,
                pow2(by) * scale == pow2(925),
        ;
    }
    if f32_is_finite(bits) && f32_is_negative(bits) {
        let count = unit_count(magnitude, 23);
        assert((-count) * pow2(925) == -(count * pow2(925))) by (nonlinear_arith);
    }
}

/// The total order agrees with `<` and puts NaNs outside every number.
pub proof fn law_total_order(left: u32, right: u32)
    ensures
        f32_lt(left, right) ==> f32_total_key(left) < f32_total_key(right),
        f32_is_nan(right) && !f32_is_negative(right) && !f32_is_nan(left) ==> f32_total_key(left)
            < f32_total_key(right),
        f32_is_nan(left) && f32_is_negative(left) && !f32_is_nan(right) ==> f32_total_key(left)
            < f32_total_key(right),
        f32_total_key(left) == f32_total_key(right) <==> left == right,
{
}

/// The numbers that truncate to one are those from one up to, and without, two.
pub proof fn law_truncates_to_one(bits: u32)
    requires
        f32_is_finite(bits),
    ensures
        f32_truncates_to_one(bits) <==> pow2(149) <= f32_value(bits) < pow2(150),
{
    lemma2_to64();
    law_f32_order(0x3f80_0000, bits);
    law_f32_order(bits, 0x4000_0000);
    lemma_pow2_adds(23, 126);
    lemma_pow2_adds(23, 127);
    assert(f32_value(0x3f80_0000) == pow2(149));
    assert(f32_value(0x4000_0000) == pow2(150));
}

/// The total order of 64-bit floats agrees with `<=`, tells any two patterns apart,
/// and puts NaNs outside every number.
pub proof fn law_total_order64(left: u64, right: u64)
    ensures
        f64_le(left, right) && !f64_le(right, left) ==> f64_total_key(left) < f64_total_key(right),
        f64_is_nan(right) && !f64_is_negative(right) && !f64_is_nan(left) ==> f64_total_key(left)
            < f64_total_key(right),
        f64_is_nan(left) && f64_is_negative(left) && !f64_is_nan(right) ==> f64_total_key(left)
            < f64_total_key(right),
        f64_total_key(left) == f64_total_key(right) <==> left == right,
{
}

/// A float is finite where its exponent is not the greatest. With the greatest one it
/// is NaN where it has a fraction, and infinite where it has none.
pub proof fn law_finite_numbers_have_an_exponent(bits: u32, wide: u64)
    ensures
        f32_is_finite(bits) <==> bits as int / 0x80_0000 % 256 != 255,
        f32_is_nan(bits) <==> bits as int / 0x80_0000 % 256 == 255 && bits as int % 0x80_0000 != 0,
        f64_is_finite(wide) <==> wide as int / 0x10_0000_0000_0000 % 2048 != 2047,
        f64_is_nan(wide) <==> wide as int / 0x10_0000_0000_0000 % 2048 == 2047 && wide as int
            % 0x10_0000_0000_0000 != 0,
{
}

} // verus!
