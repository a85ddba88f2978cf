use okane::codec::{money_to_bytes, money_to_string, parse_money_bytes, fmt_u128, fmt_i64};
use okane::money::Money;

#[test]
fn test_money_arithmetic_exact() {
    let price = Money::from_int(150);
    let volume = Money::from_int(10);
    let value = price.mul(volume);
    assert_eq!(value, Money::from_int(1_500));
    // 0.0001 commission rate on 1,500 is 0.15.
    let rate = Money::from_raw(1);
    assert_eq!(value.mul_fraction(rate), Money::from_raw(1_500));
    assert_eq!(value.div(volume), Money::from_int(150));
    assert_eq!(value.sub(Money::from_raw(1_500)), Money::from_raw(14_998_500));
}

#[test]
fn test_money_rendering() {
    assert_eq!(money_to_string(Money::from_int(150)), "150");
    assert_eq!(money_to_string(Money::from_raw(1_500)), "0.15");
    assert_eq!(money_to_string(Money::from_raw(9_249_775_000)), "924977.5");
    assert_eq!(money_to_string(Money::from_raw(-10_500)), "-1.05");
    assert_eq!(money_to_string(Money::from_int(0)), "0");
    assert_eq!(money_to_string(Money::from_raw(10_001)), "1.0001");
}

#[test]
fn test_money_parse_round_trip() {
    for raw in [
        0i128,
        1,
        -1,
        10_000,
        -10_000,
        1_500,
        9_249_775_000,
        -89_498_950,
        123_456_789,
    ] {
        let m = Money::from_raw(raw);
        let bytes = money_to_bytes(m);
        let back = parse_money_bytes(bytes.as_slice());
        assert_eq!(back, Some(m), "round trip failed for raw {}", raw);
    }
}

#[test]
fn test_money_parse_exact_strings() {
    assert_eq!(
        parse_money_bytes("150".as_bytes()),
        Some(Money::from_int(150))
    );
    assert_eq!(
        parse_money_bytes("0.15".as_bytes()),
        Some(Money::from_raw(1_500))
    );
    assert_eq!(
        parse_money_bytes("-1.05".as_bytes()),
        Some(Money::from_raw(-10_500))
    );
    // Non-canonical renderings are rejected.
    assert_eq!(parse_money_bytes("01".as_bytes()), None);
    assert_eq!(parse_money_bytes("1.50".as_bytes()), None);
    assert_eq!(parse_money_bytes("".as_bytes()), None);
    assert_eq!(parse_money_bytes("-0".as_bytes()), None);
    assert_eq!(parse_money_bytes("1.".as_bytes()), None);
}

#[test]
fn test_integer_rendering() {
    assert_eq!(fmt_u128(0), b"0".to_vec());
    assert_eq!(fmt_u128(907), b"907".to_vec());
    assert_eq!(fmt_i64(-42), b"-42".to_vec());
    assert_eq!(fmt_i64(1_710_000_000_000), b"1710000000000".to_vec());
}
