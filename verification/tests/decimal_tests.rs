use wallet_engine::decimal::{
    checked_mul, from_smallest_units, parse_decimal, to_smallest_units, ConvError, ScaledDecimal,
};
use wallet_engine::types::TokenInfo;
use wallet_engine::TokenId;

fn dec(negative: bool, mantissa: u128, scale: u32) -> ScaledDecimal {
    ScaledDecimal { negative, mantissa, scale }
}

#[test]
fn round_trip_identity_twelve_decimals() {
    for u in [0u64, 1, 999, 123_456_789, u64::MAX] {
        let d = from_smallest_units(u, 12);
        assert_eq!(to_smallest_units(&d, 12), Ok(u));
    }
}

#[test]
fn round_trip_identity_zero_decimals() {
    let d = from_smallest_units(42, 0);
    assert_eq!(to_smallest_units(&d, 0), Ok(42));
}

#[test]
fn conversion_rescales_up() {
    // 1.5 at scale 1, token with 6 decimals -> 1_500_000
    let d = dec(false, 15, 1);
    assert_eq!(to_smallest_units(&d, 6), Ok(1_500_000));
}

#[test]
fn conversion_rounds_half_away_from_zero() {
    // 1.5 at a 0-decimal token rounds to 2
    assert_eq!(to_smallest_units(&dec(false, 15, 1), 0), Ok(2));
    // 2.5 rounds to 3 (away from zero, not to even)
    assert_eq!(to_smallest_units(&dec(false, 25, 1), 0), Ok(3));
    // 1.4 rounds to 1
    assert_eq!(to_smallest_units(&dec(false, 14, 1), 0), Ok(1));
}

#[test]
fn conversion_of_small_negative_rounds_to_zero() {
    // -0.4 rounds to zero, which is representable
    assert_eq!(to_smallest_units(&dec(true, 4, 1), 0), Ok(0));
}

#[test]
fn conversion_of_negative_fails() {
    // -0.5 rounds away from zero to -1, which is not a u64
    assert_eq!(to_smallest_units(&dec(true, 5, 1), 0), Err(ConvError::IntegerOverflow));
    assert_eq!(to_smallest_units(&dec(true, 7, 0), 3), Err(ConvError::IntegerOverflow));
}

#[test]
fn conversion_decimal_overflow() {
    // (2^96 - 1) * 10^12 no longer fits a 96-bit mantissa
    let d = dec(false, (1u128 << 96) - 1, 0);
    assert_eq!(to_smallest_units(&d, 12), Err(ConvError::DecimalOverflow));
}

#[test]
fn conversion_integer_overflow() {
    // 2^64 fits the 96-bit mantissa but not a u64
    let d = dec(false, 1u128 << 64, 0);
    assert_eq!(to_smallest_units(&d, 0), Err(ConvError::IntegerOverflow));
}

#[test]
fn parse_and_convert() {
    let info = TokenInfo {
        token_id: TokenId(0),
        symbol: String::from("MOB"),
        fee: 9999,
        decimals: 12,
    };
    assert_eq!(info.try_scaled_to_u64("1"), Ok(1_000_000_000_000));
    assert_eq!(info.try_scaled_to_u64("0.5"), Ok(500_000_000_000));
    assert_eq!(info.try_scaled_to_u64("0"), Ok(0));
    assert!(info.try_scaled_to_u64("not a number").is_err());
}

#[test]
fn parse_and_convert_overflow_messages() {
    let info = TokenInfo {
        token_id: TokenId(1),
        symbol: String::from("EUSD"),
        fee: 9999,
        decimals: 6,
    };
    // 2^96 - 1 scaled by 10^6 exceeds the mantissa range
    assert_eq!(
        info.try_scaled_to_u64("79228162514264337593543950335"),
        Err(String::from("decimal overflow"))
    );
    // fits the mantissa but not a u64
    assert_eq!(
        info.try_scaled_to_u64("50000000000000"),
        Err(String::from("u64 overflow"))
    );
    assert_eq!(info.try_scaled_to_u64("-1"), Err(String::from("u64 overflow")));
}

#[test]
fn parse_decimal_reads_sign_mantissa_scale() {
    let d = parse_decimal("-12.345").unwrap();
    assert!(d.negative);
    assert_eq!(d.mantissa, 12_345);
    assert_eq!(d.scale, 3);
    assert!(parse_decimal("").is_err());
}

#[test]
fn checked_mul_multiplies_exactly() {
    // 1.5 * 2.05 == 3.075
    let a = dec(false, 15, 1);
    let b = dec(false, 205, 2);
    let r = checked_mul(&a, &b).unwrap();
    assert!(!r.negative);
    assert_eq!(r.mantissa, 3075);
    assert_eq!(r.scale, 3);
}

#[test]
fn checked_mul_overflow_is_none() {
    let a = dec(false, (1u128 << 96) - 1, 0);
    let b = dec(false, 2, 0);
    assert!(checked_mul(&a, &b).is_none());
    // scales beyond the supported range also fail
    let c = dec(false, 1, 20);
    let d = dec(false, 1, 20);
    assert!(checked_mul(&c, &d).is_none());
}
