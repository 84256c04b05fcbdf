use delphi::{fixed_to_usd_parts, price_to_fixed, OracleError, UsdAmount};

fn usd(value: f64) -> UsdAmount {
    UsdAmount::from_f64_bits(value.to_bits()).unwrap()
}

#[test]
fn encodes_exact_values() {
    assert_eq!(price_to_fixed(usd(42000.0)), Ok(42_000_000_000_000));
    assert_eq!(price_to_fixed(usd(104709.678616563)), Ok(104_709_678_616_563));
    assert_eq!(price_to_fixed(usd(0.000000001)), Ok(1));
    assert_eq!(price_to_fixed(usd(0.0)), Ok(0));
    assert_eq!(price_to_fixed(usd(-0.0)), Ok(0));
}

#[test]
fn rounds_to_nearest_nanodollar() {
    let just_under_half = UsdAmount { negative: false, mantissa: 1, exponent: -31 };
    assert_eq!(price_to_fixed(just_under_half), Ok(0));
    let just_under_one = UsdAmount { negative: false, mantissa: 1, exponent: -30 };
    assert_eq!(price_to_fixed(just_under_one), Ok(1));
    let three_quarters = UsdAmount { negative: false, mantissa: 3, exponent: -2 };
    assert_eq!(price_to_fixed(three_quarters), Ok(750_000_000));
    let tiny = UsdAmount { negative: false, mantissa: u64::MAX, exponent: -1074 };
    assert_eq!(price_to_fixed(tiny), Ok(0));
}

#[test]
fn rejects_negative_prices() {
    assert_eq!(price_to_fixed(usd(-0.5)), Err(OracleError::OutOfRange));
    assert_eq!(price_to_fixed(usd(-1e30)), Err(OracleError::OutOfRange));
}

#[test]
fn rejects_prices_above_safe_maximum() {
    assert_eq!(price_to_fixed(usd(18446744073.0)), Ok(18_446_744_073_000_000_000));
    assert_eq!(price_to_fixed(usd(18446744073.5)), Err(OracleError::Overflow));
    assert_eq!(price_to_fixed(usd(1e300)), Err(OracleError::Overflow));
    let huge = UsdAmount { negative: false, mantissa: 1, exponent: i32::MAX };
    assert_eq!(price_to_fixed(huge), Err(OracleError::Overflow));
}

#[test]
fn round_trip_within_a_nanodollar() {
    for value in [0.1, 1.25, 3.141592653589793, 42000.123456789, 18446744072.999] {
        let fixed = price_to_fixed(usd(value)).unwrap();
        let (whole, nanos) = fixed_to_usd_parts(fixed);
        let back = whole as f64 + nanos as f64 / 1e9;
        assert!((back - value).abs() <= 1e-9 + 4.0 * f64::EPSILON * value);
    }
}

#[test]
fn decodes_whole_and_nanos() {
    assert_eq!(fixed_to_usd_parts(104_709_678_616_563), (104_709, 678_616_563));
    assert_eq!(fixed_to_usd_parts(0), (0, 0));
}

#[test]
fn reads_binary64_fields() {
    assert_eq!(usd(1.0), UsdAmount { negative: false, mantissa: 1 << 52, exponent: -52 });
    assert_eq!(usd(-2.0), UsdAmount { negative: true, mantissa: 1 << 52, exponent: -51 });
    assert_eq!(UsdAmount::from_f64_bits(f64::INFINITY.to_bits()), None);
    assert_eq!(UsdAmount::from_f64_bits(f64::NAN.to_bits()), None);
    assert_eq!(usd(5e-324), UsdAmount { negative: false, mantissa: 1, exponent: -1074 });
}
