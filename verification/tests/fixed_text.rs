use solder_cortex::binary64::Binary64;
use solder_cortex::fixed::round_shift;

fn shown(x: f64) -> String {
    Binary64::from_bits(x.to_bits()).fixed2()
}

#[test]
fn plain_scores() {
    assert_eq!(shown(0.95), "0.95");
    assert_eq!(shown(0.7), "0.70");
    assert_eq!(shown(0.6), "0.60");
    assert_eq!(shown(0.5), "0.50");
    assert_eq!(shown(0.1), "0.10");
    assert_eq!(shown(0.0), "0.00");
    assert_eq!(shown(1.0), "1.00");
    assert_eq!(shown(12.345), "12.35");
    assert_eq!(shown(1234567.891), "1234567.89");
}

#[test]
fn a_tie_goes_to_the_even_hundredth() {
    assert_eq!(shown(0.125), "0.12");
    assert_eq!(shown(0.375), "0.38");
    assert_eq!(shown(0.625), "0.62");
    assert_eq!(shown(0.875), "0.88");
    assert_eq!(shown(2.125), "2.12");
    assert_eq!(shown(1024.375), "1024.38");
}

#[test]
fn a_decimal_that_is_no_tie_in_binary() {
    assert_eq!(shown(0.005), "0.01");
    assert_eq!(shown(0.015), "0.01");
    assert_eq!(shown(0.995), "0.99");
    assert_eq!(shown(0.999), "1.00");
    assert_eq!(shown(9.999), "10.00");
    assert_eq!(shown(99.995), "100.00");
}

#[test]
fn the_sign_is_shown_also_on_zero() {
    assert_eq!(shown(-0.0), "-0.00");
    assert_eq!(shown(-0.001), "-0.00");
    assert_eq!(shown(-0.5), "-0.50");
    assert_eq!(shown(-12.345), "-12.35");
}

#[test]
fn what_is_no_finite_number() {
    assert_eq!(shown(f64::NAN), "NaN");
    assert_eq!(shown(-f64::NAN), "NaN");
    assert_eq!(shown(f64::INFINITY), "inf");
    assert_eq!(shown(f64::NEG_INFINITY), "-inf");
}

#[test]
fn tiny_numbers_round_to_zero() {
    assert_eq!(shown(f64::from_bits(1)), "0.00");
    assert_eq!(shown(f64::MIN_POSITIVE), "0.00");
    assert_eq!(shown(1e-300), "0.00");
    assert_eq!(shown(0.004999), "0.00");
}

#[test]
fn whole_numbers_beyond_the_significand() {
    assert_eq!(shown(4503599627370496.0), "4503599627370496.00");
    assert_eq!(shown(4503599627370497.0), "4503599627370497.00");
    assert_eq!(shown(9007199254740992.0), "9007199254740992.00");
    assert_eq!(shown(18446744073709551616.0), "18446744073709551616.00");
    assert_eq!(shown(1e21), "1000000000000000000000.00");
    assert_eq!(shown(-1e21), "-1000000000000000000000.00");
}

#[test]
fn the_largest_number_has_three_hundred_and_nine_digits() {
    let text = shown(f64::MAX);
    assert_eq!(text.len(), 309 + 3);
    assert!(text.starts_with("17976931348623157081452742373170435679807056752584"));
    assert!(text.ends_with("4124858368.00"));
}

#[test]
fn just_below_the_whole_numbers() {
    assert_eq!(shown(4503599627370495.5), "4503599627370495.50");
    assert_eq!(shown(2251799813685247.75), "2251799813685247.75");
    assert_eq!(shown(1125899906842623.875), "1125899906842623.88");
    assert_eq!(shown(1125899906842623.625), "1125899906842623.62");
}

#[test]
fn agrees_with_the_formatter_across_the_unit_interval() {
    for i in 0..=20000u32 {
        let x = f64::from(i) / 20000.0;
        assert_eq!(shown(x), format!("{:.2}", x), "score {}", x);
    }
}

#[test]
fn agrees_with_the_formatter_on_eighths() {
    for i in 0..4000u32 {
        let x = f64::from(i) / 8.0;
        assert_eq!(shown(x), format!("{:.2}", x), "number {}", x);
        assert_eq!(shown(-x), format!("{:.2}", -x), "number {}", -x);
    }
}

#[test]
fn agrees_with_the_formatter_on_many_bit_patterns() {
    let mut state: u64 = 0xD1B5_4A32_D192_ED03;
    for _ in 0..400 {
        state = state.wrapping_mul(6364136223846793005).wrapping_add(1442695040888963407);
        let x = f64::from_bits(state);
        assert_eq!(shown(x), format!("{:.2}", x), "bits {:#x}", state);
    }
}

#[test]
fn agrees_with_the_formatter_around_one() {
    let mut state: u64 = 0x853C_49E6_748F_EA9B;
    for _ in 0..20000 {
        state = state.wrapping_mul(6364136223846793005).wrapping_add(1442695040888963407);
        let exponent = 1000 + (state >> 58);
        let bits = (exponent << 52) | (state & 0x000F_FFFF_FFFF_FFFF);
        let x = f64::from_bits(bits);
        assert_eq!(shown(x), format!("{:.2}", x), "bits {:#x}", bits);
    }
}

#[test]
fn agrees_with_the_formatter_on_every_exponent() {
    for exponent in 0..2047u64 {
        for fraction in [0u64, 1, 0x0008_0000_0000_0000, 0x000F_FFFF_FFFF_FFFF, 0x0009_9999_9999_999A] {
            let x = f64::from_bits((exponent << 52) | fraction);
            assert_eq!(shown(x), format!("{:.2}", x), "exponent {} fraction {:#x}", exponent, fraction);
        }
    }
}

#[test]
fn rounding_of_halves() {
    assert_eq!(round_shift(5, 1), 2);
    assert_eq!(round_shift(7, 1), 4);
    assert_eq!(round_shift(3, 1), 2);
    assert_eq!(round_shift(1, 1), 0);
    assert_eq!(round_shift(6, 2), 2);
    assert_eq!(round_shift(10, 2), 2);
    assert_eq!(round_shift(11, 2), 3);
    assert_eq!(round_shift(9, 2), 2);
    assert_eq!(round_shift(12, 0), 12);
}

#[test]
fn rounding_by_a_large_shift() {
    assert_eq!(round_shift(0x0FFF_FFFF_FFFF_FFFF, 61), 0);
    assert_eq!(round_shift(0x0FFF_FFFF_FFFF_FFFF, 60), 1);
    assert_eq!(round_shift(0x0FFF_FFFF_FFFF_FFFF, 62), 0);
    assert_eq!(round_shift(0x0FFF_FFFF_FFFF_FFFF, 1074), 0);
    assert_eq!(round_shift(0x0800_0000_0000_0000, 60), 0);
    assert_eq!(round_shift(0x0800_0000_0000_0001, 60), 1);
    assert_eq!(round_shift(0x0800_0000_0000_0000, 59), 1);
}

#[test]
fn rounding_of_the_largest_numbers() {
    assert_eq!(round_shift(u64::MAX, 0), u64::MAX);
    assert_eq!(round_shift(u64::MAX, 1), 1 << 63);
    assert_eq!(round_shift(u64::MAX - 1, 1), u64::MAX >> 1);
    assert_eq!(round_shift(u64::MAX, 63), 2);
    assert_eq!(round_shift(3 << 62, 63), 2);
    assert_eq!(round_shift(1 << 62, 63), 0);
    assert_eq!(round_shift(u64::MAX, 64), 1);
    assert_eq!(round_shift(1 << 63, 64), 0);
    assert_eq!(round_shift((1 << 63) + 1, 64), 1);
    assert_eq!(round_shift(u64::MAX, 65), 0);
    assert_eq!(round_shift(u64::MAX, u64::MAX), 0);
}

#[test]
fn rounding_agrees_with_wide_arithmetic() {
    let mut state: u64 = 0x2545_F491_4F6C_DD1D;
    for _ in 0..20000 {
        state = state.wrapping_mul(6364136223846793005).wrapping_add(1442695040888963407);
        let shift = state >> 58;
        let num = state.rotate_left(17) >> (state >> 52 & 63);
        let den = 1u128 << shift;
        let quotient = u128::from(num) / den;
        let rest = u128::from(num) % den;
        let up = 2 * rest > den || (2 * rest == den && quotient % 2 == 1);
        let expected = quotient + u128::from(up);
        assert_eq!(u128::from(round_shift(num, shift)), expected, "{} >> {}", num, shift);
    }
}
