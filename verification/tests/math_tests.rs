use swap_sdk::error::DlmmError;
use swap_sdk::math::dlmm_math::{
    calculate_amount_by_growth, calculate_amount_in, calculate_amount_out,
    calculate_fee_exclusive, calculate_fee_inclusive, calculate_growth_by_amount,
};
use swap_sdk::math::full_math::mul_div;
use swap_sdk::math::q64x64_math::{pow, ONE, PRECISION, SCALE_OFFSET};
use swap_sdk::math::{Rounding, BASIS_POINT_MAX};
use swap_sdk::{FEE_PRECISION, MAX_FEE_RATE};

#[test]
fn test_calculate_amount_in() {
    assert!(calculate_amount_in(0, 1 << 64, true).unwrap() == 0);
    assert!(calculate_amount_in(1_000_000, 1 << 64, true).unwrap() == 1_000_000);
    assert!(calculate_amount_in(1_000_000, (1 << 64) - 1, true).unwrap() == 1_000_001);
    assert!(calculate_amount_in(1_000_000, (1 << 64) + 1, true).unwrap() == 1_000_000);
    assert!(calculate_amount_in(1_000_000, 2 << 64, true).unwrap() == 500_000);
    assert!(calculate_amount_in(1_000_000, (2 << 64) - 1, true).unwrap() == 500_001);
    assert!(
        calculate_amount_in(1_000_000, (u64::MAX / 2) as u128, true).unwrap()
            == 2_000_001
    );
    assert!(
        calculate_amount_in(1_000_000, (u64::MAX / 3) as u128, true).unwrap()
            == 3_000_001
    );
    assert!(
        calculate_amount_in(
            1_000_000_000_000,
            (133_333_333 << 64) + ((u64::MAX / 3) as u128),
            true
        )
        .unwrap()
            == 7_501,
    );

    assert!(calculate_amount_in(1_000_000, 1 << 64, false).unwrap() == 1_000_000);
    assert!(calculate_amount_in(1_000_000, (1 << 64) + 1, false).unwrap() == 1_000_001);
    assert!(calculate_amount_in(1_000_000, (1 << 64) - 1, false).unwrap() == 1_000_000);
    assert!(calculate_amount_in(1_000_000, 2 << 64, false).unwrap() == 2_000_000);
    assert!(calculate_amount_in(1_000_000, (u64::MAX / 2) as u128, false).unwrap() == 500_000);
    assert!(calculate_amount_in(1_000_000, (u64::MAX / 3) as u128, false).unwrap() == 333_334);
    assert!(
        calculate_amount_in(
            1_000_000,
            (133_333_333 << 64) + ((u64::MAX / 3) as u128),
            false
        )
        .unwrap()
            == 133_333_333_333_334,
    );
}

#[test]
fn test_calculate_amount_out() {
    assert!(calculate_amount_out(0, 1 << 64, true).unwrap() == 0);
    assert!(calculate_amount_out(1_000_000, 1 << 64, true).unwrap() == 1_000_000);
    assert!(calculate_amount_out(1_000_000, (1 << 64) - 1, true).unwrap() == 999_999);
    assert!(calculate_amount_out(1_000_000, (1 << 64) + 1, true).unwrap() == 1_000_000);
    assert!(calculate_amount_out(1_000_000, 2 << 64, true).unwrap() == 2_000_000);
    assert!(calculate_amount_out(1_000_000, (2 << 64) - 1, true).unwrap() == 1_999_999);
    assert!(
        calculate_amount_out(1_000_000, (u64::MAX / 2) as u128, true).unwrap()
            == 499_999
    );
    assert!(
        calculate_amount_out(1_000_000, (u64::MAX / 3) as u128, true).unwrap()
            == 333_333
    );
    assert!(
        calculate_amount_out(
            1_000_000,
            (133_333_333 << 64) + ((u64::MAX / 3) as u128),
            true
        )
        .unwrap()
            == 133_333_333_333_333,
    );

    assert!(calculate_amount_out(1_000_000, 1 << 64, false).unwrap() == 1_000_000);
    assert!(calculate_amount_out(1_000_000, (1 << 64) + 1, false).unwrap() == 999_999);
    assert!(calculate_amount_out(1_000_000, (1 << 64) - 1, false).unwrap() == 1_000_000);
    assert!(calculate_amount_out(1_000_000, 2 << 64, false).unwrap() == 500_000);
    assert!(calculate_amount_out(1_000_000, (2 << 64) - 1, false).unwrap() == 500_000);
    assert!(calculate_amount_out(1_000_000, (u64::MAX / 2) as u128, false).unwrap() == 2_000_000);
    assert!(calculate_amount_out(1_000_000, (u64::MAX / 3) as u128, false).unwrap() == 3_000_000);
    assert!(
        calculate_amount_out(
            1_000_000_000_000,
            (133_333_333 << 64) + ((u64::MAX / 3) as u128),
            false
        )
        .unwrap()
            == 7_500,
    );
}

#[test]
fn constants_have_their_values() {
    assert_eq!(MAX_FEE_RATE, 100_000_000);
    assert_eq!(FEE_PRECISION, 1_000_000_000);
    assert_eq!(BASIS_POINT_MAX, 10_000);
    assert_eq!(PRECISION, 1_000_000_000_000);
    assert_eq!(SCALE_OFFSET, 64);
    assert_eq!(ONE, 1u128 << 64);
}

#[test]
fn mul_div_rounds_as_asked() {
    assert_eq!(mul_div(7, 3, 2, Rounding::Up), Some(11));
    assert_eq!(mul_div(7, 3, 2, Rounding::Down), Some(10));
    assert_eq!(mul_div(1, 1, u128::MAX, Rounding::Up), Some(1));
    assert_eq!(mul_div(1, 1, u128::MAX, Rounding::Down), Some(0));
    assert_eq!(
        mul_div(u128::MAX, 2, 3, Rounding::Up),
        Some(226854911280625642308916404954512140970)
    );
    assert_eq!(
        mul_div(u128::MAX, 2, 3, Rounding::Down),
        Some(226854911280625642308916404954512140970)
    );
}

#[test]
fn mul_div_is_exact_on_multiples() {
    assert_eq!(mul_div(6, 4, 3, Rounding::Up), Some(8));
    assert_eq!(mul_div(6, 4, 3, Rounding::Down), Some(8));
    assert_eq!(mul_div(0, 5, 7, Rounding::Up), Some(0));
    assert_eq!(mul_div(0, 5, 7, Rounding::Down), Some(0));
}

#[test]
fn mul_div_bounds_the_exact_quotient() {
    let cases: [(u128, u128, u128); 5] = [
        (7, 3, 2),
        (1_000_003, 999_983, 10_007),
        (u64::MAX as u128, 12_345, 6_789),
        (1 << 100, 1 << 27, (1 << 64) + 1),
        (123_456_789_012_345_678, 987_654_321, 1),
    ];
    for (x, y, d) in cases {
        let product = x * y;
        let up = mul_div(x, y, d, Rounding::Up).unwrap();
        let down = mul_div(x, y, d, Rounding::Down).unwrap();
        assert!(down * d <= product);
        assert!(product - down * d < d);
        assert!(up * d >= product);
        assert!(up * d - product < d);
        if product % d == 0 {
            assert_eq!(up, down);
            assert_eq!(up * d, product);
        } else {
            assert_eq!(up, down + 1);
        }
    }
}

#[test]
fn mul_div_uses_the_full_product() {
    assert_eq!(
        mul_div(u128::MAX, u128::MAX, u128::MAX, Rounding::Down),
        Some(u128::MAX)
    );
    assert_eq!(
        mul_div(u128::MAX, u128::MAX - 1, u128::MAX, Rounding::Up),
        Some(u128::MAX - 1)
    );
    assert_eq!(
        mul_div((1 << 127) + 1, 3, 2, Rounding::Up),
        Some(255211775190703847597530955573826158594)
    );
}

#[test]
fn mul_div_refuses_zero_and_overflow() {
    assert_eq!(mul_div(1, 1, 0, Rounding::Up), None);
    assert_eq!(mul_div(0, 0, 0, Rounding::Down), None);
    assert_eq!(mul_div(u128::MAX, u128::MAX, u128::MAX - 1, Rounding::Down), None);
    assert_eq!(mul_div(1 << 127, 1 << 127, 1 << 126, Rounding::Down), None);
    assert_eq!(mul_div(u128::MAX, 2, 1, Rounding::Up), None);
}

#[test]
fn fee_inclusive_values() {
    assert_eq!(calculate_fee_inclusive(1_000_000, 300_000), Ok(300));
    assert_eq!(calculate_fee_inclusive(1, 1), Ok(1));
    assert_eq!(calculate_fee_inclusive(12_345, 2_500_000), Ok(31));
    assert_eq!(calculate_fee_inclusive(u64::MAX, FEE_PRECISION), Ok(u64::MAX));
    assert_eq!(
        calculate_fee_inclusive(u64::MAX, FEE_PRECISION - 1),
        Ok(18446744055262807542)
    );
}

#[test]
fn fee_inclusive_is_zero_without_amount_or_rate() {
    assert_eq!(calculate_fee_inclusive(0, 300_000), Ok(0));
    assert_eq!(calculate_fee_inclusive(1_000_000, 0), Ok(0));
    assert_eq!(calculate_fee_inclusive(0, FEE_PRECISION + 1), Ok(0));
}

#[test]
fn fee_inclusive_refuses_a_rate_above_precision() {
    assert_eq!(
        calculate_fee_inclusive(5, FEE_PRECISION + 1),
        Err(DlmmError::InvalidInput)
    );
    assert_eq!(calculate_fee_inclusive(5, u64::MAX), Err(DlmmError::InvalidInput));
}

#[test]
fn fee_exclusive_values() {
    assert_eq!(calculate_fee_exclusive(1_000_000, 300_000), Ok(301));
    assert_eq!(calculate_fee_exclusive(1, 1), Ok(1));
    assert_eq!(calculate_fee_exclusive(12_345, 2_500_000), Ok(31));
    assert_eq!(calculate_fee_exclusive(1000, FEE_PRECISION / 2), Ok(1000));
    assert_eq!(calculate_fee_exclusive(u64::MAX, FEE_PRECISION / 2), Ok(u64::MAX));
}

#[test]
fn fee_exclusive_is_zero_without_amount_or_rate() {
    assert_eq!(calculate_fee_exclusive(0, 300_000), Ok(0));
    assert_eq!(calculate_fee_exclusive(1_000_000, 0), Ok(0));
    assert_eq!(calculate_fee_exclusive(0, FEE_PRECISION + 1), Ok(0));
}

#[test]
fn fee_exclusive_errors() {
    assert_eq!(
        calculate_fee_exclusive(5, FEE_PRECISION + 1),
        Err(DlmmError::InvalidInput)
    );
    assert_eq!(
        calculate_fee_exclusive(u64::MAX, FEE_PRECISION),
        Err(DlmmError::MathOverflow)
    );
    assert_eq!(
        calculate_fee_exclusive(u64::MAX, FEE_PRECISION - 1),
        Err(DlmmError::MathOverflow)
    );
    assert_eq!(
        calculate_fee_exclusive(u64::MAX, FEE_PRECISION / 2 + 1),
        Err(DlmmError::MathOverflow)
    );
}

#[test]
fn amount_in_of_nothing_is_nothing() {
    for price in [1u128, 1 << 64, (1 << 64) + 1000, u128::MAX] {
        assert_eq!(calculate_amount_in(0, price, true), Ok(0));
        assert_eq!(calculate_amount_in(0, price, false), Ok(0));
    }
}

#[test]
fn amount_in_errors() {
    assert_eq!(calculate_amount_in(5, 0, true), Err(DlmmError::InvalidInput));
    assert_eq!(calculate_amount_in(0, 0, false), Err(DlmmError::InvalidInput));
    assert_eq!(
        calculate_amount_in(u64::MAX, 2 << 64, false),
        Err(DlmmError::MathOverflow)
    );
    assert_eq!(calculate_amount_in(u64::MAX, 1, true), Err(DlmmError::MathOverflow));
}

#[test]
fn amount_in_rounds_up() {
    assert_eq!(calculate_amount_in(u64::MAX, 1 << 64, true), Ok(u64::MAX));
    assert_eq!(calculate_amount_in(3, (1 << 64) + (1 << 63), false), Ok(5));
    assert_eq!(calculate_amount_in(3, (1 << 64) + (1 << 63), true), Ok(2));
}

#[test]
fn amount_out_errors() {
    assert_eq!(calculate_amount_out(5, 0, true), Err(DlmmError::InvalidInput));
    assert_eq!(calculate_amount_out(0, 0, false), Err(DlmmError::InvalidInput));
    assert_eq!(
        calculate_amount_out(u64::MAX, 2 << 64, true),
        Err(DlmmError::MathOverflow)
    );
    assert_eq!(calculate_amount_out(u64::MAX, 1, false), Err(DlmmError::MathOverflow));
}

#[test]
fn amount_out_rounds_down() {
    assert_eq!(calculate_amount_out(u64::MAX, 1 << 64, true), Ok(u64::MAX));
    assert_eq!(calculate_amount_out(3, (1 << 64) + (1 << 63), false), Ok(2));
    assert_eq!(calculate_amount_out(3, (1 << 64) + (1 << 63), true), Ok(4));
    assert_eq!(calculate_amount_out(1, u128::MAX, false), Ok(0));
    assert_eq!(calculate_amount_out(1, u128::MAX, true), Ok(u64::MAX));
}

#[test]
fn conversions_round_against_the_trader() {
    let prices: [u128; 5] = [1 << 64, (1 << 64) + 1, (1 << 64) - 1, 3 << 62, (133_333_333 << 64) + 7];
    for price in prices {
        for a2b in [true, false] {
            for amount in [1u64, 2, 999, 1_000_000, 123_456_789_012] {
                if let Ok(bought) = calculate_amount_out(amount, price, a2b) {
                    assert!(calculate_amount_in(bought, price, a2b).unwrap() <= amount);
                }
                if let Ok(asked) = calculate_amount_in(amount, price, a2b) {
                    if let Ok(bought) = calculate_amount_out(asked, price, a2b) {
                        assert!(bought >= amount);
                    }
                }
            }
        }
    }
    assert_eq!(calculate_amount_out(1_000_000, 3 << 62, true), Ok(750_000));
    assert_eq!(calculate_amount_in(750_000, 3 << 62, true), Ok(1_000_000));
    assert_eq!(calculate_amount_in(999, 3 << 62, true), Ok(1332));
    assert_eq!(calculate_amount_out(1332, 3 << 62, true), Ok(999));
    assert_eq!(calculate_amount_out(999, 3 << 62, false), Ok(1332));
    assert_eq!(calculate_amount_in(1332, 3 << 62, false), Ok(999));
}

#[test]
fn growth_by_amount_values() {
    assert_eq!(calculate_growth_by_amount(1, 2), Ok(1u128 << 127));
    assert_eq!(
        calculate_growth_by_amount(3, 7),
        Ok(145835300108973627198589117470757804909)
    );
    assert_eq!(calculate_growth_by_amount(0, 9), Ok(0));
    assert_eq!(calculate_growth_by_amount(u64::MAX, u128::MAX), Ok(u64::MAX as u128));
    assert_eq!(
        calculate_growth_by_amount(u64::MAX, u64::MAX as u128 + 1),
        Ok(340282366920938463444927863358058659840)
    );
}

#[test]
fn growth_by_amount_errors() {
    assert_eq!(calculate_growth_by_amount(7, 0), Err(DlmmError::MathOverflow));
    assert_eq!(calculate_growth_by_amount(5, 5), Err(DlmmError::MathOverflow));
    assert_eq!(calculate_growth_by_amount(9, 5), Err(DlmmError::MathOverflow));
}

#[test]
fn amount_by_growth_values() {
    assert_eq!(calculate_amount_by_growth(1 << 127, 2), Ok(1));
    assert_eq!(
        calculate_amount_by_growth(145835300108973627198589117470757804909, 7),
        Ok(2)
    );
    assert_eq!(calculate_amount_by_growth(0, 5), Ok(0));
    assert_eq!(
        calculate_amount_by_growth(u128::MAX, u64::MAX as u128),
        Ok(u64::MAX - 1)
    );
    assert_eq!(
        calculate_amount_by_growth(u128::MAX, u64::MAX as u128 + 1),
        Ok(u64::MAX)
    );
    let growth = calculate_growth_by_amount(1000, 3000).unwrap();
    assert_eq!(calculate_amount_by_growth(growth, 2999), Ok(999));
}

#[test]
fn amount_by_growth_errors() {
    assert_eq!(
        calculate_amount_by_growth(u128::MAX, u128::MAX),
        Err(DlmmError::MathOverflow)
    );
    assert_eq!(
        calculate_amount_by_growth(u128::MAX, u64::MAX as u128 + 2),
        Err(DlmmError::MathOverflow)
    );
}

#[test]
fn pow_of_exponent_zero_is_one() {
    for base in [0u128, 1, ONE / 2, ONE, ONE + ONE / 400, u128::MAX] {
        assert_eq!(pow(base, 0), Some(ONE));
    }
}

#[test]
fn pow_values() {
    let base = ONE + ONE * 25 / 10_000;
    assert_eq!(pow(base, 1), Some(18492860933893825495));
    assert_eq!(pow(base, -1), Some(18400742218164141262));
    assert_eq!(pow(base, 2), Some(18539093086228560061));
    assert_eq!(pow(base, 100), Some(23678699809202413098));
    assert_eq!(pow(base, -100), Some(14370821441331513819));
    assert_eq!(pow(ONE, 5), Some(18446744073709551621));
    assert_eq!(pow(ONE / 2, 3), Some(2305843009213693952));
    assert_eq!(pow(ONE / 2, -3), Some(147573952589676412927));
    assert_eq!(pow(3 * ONE, 3), Some(498062089990157894307));
    assert_eq!(pow(1, 1), Some(1));
    assert_eq!(pow(ONE / 2, 63), Some(2));
    assert_eq!(pow(ONE / 2, 64), Some(1));
    assert_eq!(pow(u128::MAX, 1), Some(u128::MAX));
    assert_eq!(pow(u128::MAX, -1), Some(1));
}

#[test]
fn pow_refuses_large_exponents() {
    let base = ONE + ONE * 25 / 10_000;
    assert_eq!(pow(base, 0x80000), None);
    assert_eq!(pow(base, -0x80000), None);
    assert_eq!(pow(base, i32::MAX), None);
    assert_eq!(pow(base, i32::MIN), None);
}

#[test]
fn pow_refuses_vanishing_powers() {
    let base = ONE + ONE * 25 / 10_000;
    assert_eq!(pow(0, 3), None);
    assert_eq!(pow(base, 0x7ffff), None);
    assert_eq!(pow(base, -0x7ffff), None);
    assert_eq!(pow(2 * ONE, 64), None);
    assert_eq!(pow(2 * ONE, -64), None);
}
