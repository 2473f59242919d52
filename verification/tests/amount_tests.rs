use ledger::amount::Amount;
use ledger::digits::parse_u16;
use ledger::digits::parse_u32;
use ledger::digits::parse_u64;
use ledger::digits::render_u64;

#[test]
fn deserialize() {
    let amount = Amount::from_decimal(b"1234.5678").unwrap();
    assert_eq!(amount, Amount::from_scaled(12345678));
    assert_eq!(amount.scaled(), 12345678);
    assert_eq!(Amount::new().scaled(), 0);
}

#[test]
fn parses_whole_and_short_fractions() {
    assert_eq!(Amount::from_decimal(b"2"), Some(Amount::from_scaled(20000)));
    assert_eq!(Amount::from_decimal(b"3."), Some(Amount::from_scaled(30000)));
    assert_eq!(Amount::from_decimal(b"0.5"), Some(Amount::from_scaled(5000)));
    assert_eq!(Amount::from_decimal(b"10.0"), Some(Amount::from_scaled(100000)));
    assert_eq!(Amount::from_decimal(b"007.25"), Some(Amount::from_scaled(72500)));
    assert_eq!(Amount::from_decimal(b"0.0000"), Some(Amount::from_scaled(0)));
}

#[test]
fn rounds_half_away_from_zero() {
    assert_eq!(Amount::from_decimal(b"0.00005"), Some(Amount::from_scaled(1)));
    assert_eq!(Amount::from_decimal(b"0.00004999"), Some(Amount::from_scaled(0)));
    assert_eq!(Amount::from_decimal(b"1.23456"), Some(Amount::from_scaled(12346)));
    assert_eq!(Amount::from_decimal(b"1.23454"), Some(Amount::from_scaled(12345)));
    assert_eq!(Amount::from_decimal(b"0.99999"), Some(Amount::from_scaled(10000)));
}

#[test]
fn rejects_malformed_decimals() {
    assert_eq!(Amount::from_decimal(b""), None);
    assert_eq!(Amount::from_decimal(b"."), None);
    assert_eq!(Amount::from_decimal(b".5"), None);
    assert_eq!(Amount::from_decimal(b"1.2.3"), None);
    assert_eq!(Amount::from_decimal(b"abc"), None);
    assert_eq!(Amount::from_decimal(b"-1"), None);
    assert_eq!(Amount::from_decimal(b"1e5"), None);
    assert_eq!(Amount::from_decimal(b"1 0"), None);
}

#[test]
fn rejects_out_of_range_values() {
    assert_eq!(Amount::from_decimal(b"99999999999999999999999"), None);
    // 1844674407370955.1615 scaled is exactly u64::MAX
    assert_eq!(
        Amount::from_decimal(b"1844674407370955.1615"),
        Some(Amount::from_scaled(u64::MAX))
    );
    assert_eq!(Amount::from_decimal(b"1844674407370955.1616"), None);
}

#[test]
fn renders_four_decimal_places() {
    assert_eq!(Amount::from_scaled(12345678).to_decimal(), b"1234.5678".to_vec());
    assert_eq!(Amount::from_scaled(0).to_decimal(), b"0.0000".to_vec());
    assert_eq!(Amount::from_scaled(100000).to_decimal(), b"10.0000".to_vec());
    assert_eq!(Amount::from_scaled(5000).to_decimal(), b"0.5000".to_vec());
    assert_eq!(Amount::from_scaled(1).to_decimal(), b"0.0001".to_vec());
}

#[test]
fn decimal_text_round_trips() {
    for raw in [0u64, 1, 9999, 10000, 12345678, 999999995000, u64::MAX] {
        let a = Amount::from_scaled(raw);
        assert_eq!(Amount::from_decimal(&a.to_decimal()), Some(a));
    }
}

#[test]
fn integer_parsing_and_rendering() {
    assert_eq!(parse_u64(b"007"), Some(7));
    assert_eq!(parse_u64(b"18446744073709551615"), Some(u64::MAX));
    assert_eq!(parse_u64(b"18446744073709551616"), None);
    assert_eq!(parse_u64(b""), None);
    assert_eq!(parse_u64(b"12x"), None);
    assert_eq!(parse_u16(b"65535"), Some(65535));
    assert_eq!(parse_u16(b"65536"), None);
    assert_eq!(parse_u32(b"4294967295"), Some(4294967295));
    assert_eq!(parse_u32(b"4294967296"), None);
    assert_eq!(render_u64(0), b"0".to_vec());
    assert_eq!(render_u64(9070), b"9070".to_vec());
}
