use pipes_rs::ieee;
use pipes_rs::nanos::{self, DurationUnit};
use pipes_rs::order;
use pipes_rs::text;

const SAMPLES: [f32; 14] = [
    0.0,
    -0.0,
    1.0,
    -1.0,
    1.5,
    1.9999999,
    2.0,
    1.0e-45,
    -1.0e-40,
    3.4e38,
    -3.4e38,
    f32::INFINITY,
    f32::NEG_INFINITY,
    f32::NAN,
];

#[test]
fn comparisons_are_those_of_floats() {
    for left in SAMPLES {
        for right in SAMPLES {
            let (a, b) = (left.to_bits(), right.to_bits());
            assert_eq!(ieee::le32(a, b), left <= right);
            assert_eq!(ieee::lt32(a, b), left < right);
            assert_eq!(
                ieee::total_key32(a) < ieee::total_key32(b),
                left.total_cmp(&right).is_lt()
            );
            let (wide_left, wide_right) = (left as f64, right as f64);
            let (c, d) = (wide_left.to_bits(), wide_right.to_bits());
            assert_eq!(ieee::le64(c, d), wide_left <= wide_right);
            assert_eq!(
                ieee::total_key64(c) < ieee::total_key64(d),
                wide_left.total_cmp(&wide_right).is_lt()
            );
        }
    }
}

#[test]
fn classification_is_that_of_floats() {
    for value in SAMPLES {
        let bits = value.to_bits();
        assert_eq!(ieee::is_finite32(bits), value.is_finite());
        assert_eq!(
            ieee::is_positive_finite32(bits),
            value.is_finite() && value > 0.0
        );
        assert_eq!(ieee::truncates_to_one32(bits), value as i8 == 1);
        assert_eq!(
            ieee::is_zero64((value as f64).to_bits()),
            value as f64 == 0.0
        );
    }
}

#[test]
fn widening_is_that_of_floats() {
    for value in SAMPLES {
        if !value.is_nan() {
            assert_eq!(ieee::widen(value.to_bits()), (value as f64).to_bits());
        }
    }
    for exponent in 0..255u32 {
        let value = f32::from_bits((exponent << 23) | 0x0012_3456);
        assert_eq!(ieee::widen(value.to_bits()), (value as f64).to_bits());
    }
    for shift in 0..23u32 {
        let value = f32::from_bits(1 << shift);
        assert_eq!(ieee::widen(value.to_bits()), (value as f64).to_bits());
    }
}

#[test]
fn stable_order_sorts_and_keeps_ties_in_place() {
    let keys: Vec<i128> = vec![3, 1, 2, 1, -5, 3];
    assert_eq!(order::stable_order(&keys), vec![4, 1, 3, 2, 0, 5]);
    assert_eq!(order::stable_order(&[]), Vec::<usize>::new());
}

#[test]
fn numbers_are_written_as_text() {
    assert_eq!(text::decimal_text(0), "0");
    assert_eq!(text::decimal_text(u128::MAX), u128::MAX.to_string());
    assert_eq!(text::signed_text(-42), "-42");
    assert_eq!(text::signed_text(i64::MIN), i64::MIN.to_string());
    assert_eq!(text::hex32_text(0xab), "000000ab");
    assert_eq!(text::hex32_text(u32::MAX), "ffffffff");
}

#[test]
fn text_is_replaced_from_left_to_right() {
    assert_eq!(text::replace_all("aaa", "aa", "b"), "ba");
    assert_eq!(text::replace_all("a-b-c", "-", "--"), "a--b--c");
    assert_eq!(text::replace_all("none", "x", "y"), "none");
}

#[test]
fn rows_are_joined_with_commas() {
    let fields = vec!["a".to_owned(), String::new(), "c".to_owned()];
    assert_eq!(text::comma_row(&fields), "a,,c");
}

#[test]
fn spans_are_clamped() {
    assert_eq!(nanos::clamp_ns(7), 7);
    assert_eq!(nanos::clamp_ns(u64::MAX as u128 + 1), u64::MAX);
    assert_eq!(nanos::span_ns(10, 25), 15);
    assert_eq!(nanos::span_ns(25, 10), 0);
}

#[test]
fn spans_are_shown_in_the_largest_unit() {
    assert_eq!(nanos::duration_unit(999_999), DurationUnit::Micros);
    assert_eq!(nanos::duration_unit(1_000_000), DurationUnit::Millis);
    assert_eq!(nanos::duration_unit(999_999_999), DurationUnit::Millis);
    assert_eq!(nanos::duration_unit(1_000_000_000), DurationUnit::Seconds);
}
