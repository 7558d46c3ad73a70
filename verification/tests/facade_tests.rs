use matching::decimal::{Decimal, ProductDecimal, DECIMAL_SCALE};
use matching::facade::{
    parse_decimal_bytes, parse_outcome_bytes, parse_side_bytes, parse_u64_bytes, validate_cancel,
    validate_place, ValidationError,
};
use matching::types::{ShareType, Side};

#[test]
fn decimal_arithmetic_is_exact() {
    assert_eq!(DECIMAL_SCALE, 1_000_000);
    let a = Decimal::from_units(600_000);
    let b = Decimal::from_units(250_000);
    assert_eq!(a.plus(&b), Decimal::from_units(850_000));
    assert_eq!(a.minus(&b), Decimal::from_units(350_000));
    assert_eq!(a.min_of(&b), b);
    assert!(b.lt(&a));
    assert!(a.ge(&b));
    assert!(!a.is_zero());
    assert!(Decimal::zero().is_zero());
    // 0.6 * 2.5 = 1.5, exact at twelve fractional digits
    let q = Decimal::from_units(2_500_000);
    assert_eq!(a.times_exact(&q), ProductDecimal::from_units(1_500_000_000_000));
    // no precision is lost even below a millionth: 0.000001 * 0.5 = 0.0000005
    let tiny = Decimal::from_units(1);
    let half = Decimal::from_units(500_000);
    assert_eq!(tiny.times_exact(&half), ProductDecimal::from_units(500_000));
    // clamped sum and product saturate instead of wrapping
    let huge = Decimal::from_units(i128::MAX);
    assert_eq!(huge.plus_clamped(&tiny), Decimal::from_units(i128::MAX));
    let two = Decimal::from_units(2);
    assert_eq!(huge.times_exact(&two), ProductDecimal::from_units(i128::MAX));
}

#[test]
fn parse_u64_accepts_and_rejects() {
    assert_eq!(parse_u64_bytes(b"0"), Some(0));
    assert_eq!(parse_u64_bytes(b"42"), Some(42));
    assert_eq!(parse_u64_bytes(b"0042"), Some(42));
    assert_eq!(parse_u64_bytes(b"18446744073709551615"), Some(u64::MAX));
    assert_eq!(parse_u64_bytes(b"18446744073709551616"), None);
    assert_eq!(parse_u64_bytes(b""), None);
    assert_eq!(parse_u64_bytes(b"12a3"), None);
    assert_eq!(parse_u64_bytes(b"-1"), None);
}

#[test]
fn parse_decimal_accepts_and_rejects() {
    assert_eq!(parse_decimal_bytes(b"0.6"), Some(Decimal::from_units(600_000)));
    assert_eq!(parse_decimal_bytes(b"0.0001"), Some(Decimal::from_units(100)));
    assert_eq!(parse_decimal_bytes(b"12"), Some(Decimal::from_units(12_000_000)));
    assert_eq!(parse_decimal_bytes(b"1.234567"), Some(Decimal::from_units(1_234_567)));
    assert_eq!(parse_decimal_bytes(b"-3.5"), Some(Decimal::from_units(-3_500_000)));
    assert_eq!(parse_decimal_bytes(b""), None);
    assert_eq!(parse_decimal_bytes(b"."), None);
    assert_eq!(parse_decimal_bytes(b"1."), None);
    assert_eq!(parse_decimal_bytes(b".5"), None);
    assert_eq!(parse_decimal_bytes(b"1.2345678"), None); // seven fractional digits
    assert_eq!(parse_decimal_bytes(b"1.2.3"), None);
    assert_eq!(parse_decimal_bytes(b"x.5"), None);
}

#[test]
fn parse_keywords() {
    assert_eq!(parse_side_bytes(b"bid"), Some(Side::Bid));
    assert_eq!(parse_side_bytes(b"ask"), Some(Side::Ask));
    assert_eq!(parse_side_bytes(b"Bid"), None);
    assert_eq!(parse_side_bytes(b""), None);
    assert_eq!(parse_outcome_bytes(b"yes"), Some(ShareType::Yes));
    assert_eq!(parse_outcome_bytes(b"no"), Some(ShareType::No));
    assert_eq!(parse_outcome_bytes(b"maybe"), None);
}

#[test]
fn validate_place_happy_path() {
    let r = validate_place("alice-wallet", "17", "bid", "yes", "0.55", "2.5").unwrap();
    assert_eq!(r.owner, "alice-wallet");
    assert_eq!(r.market_id, 17);
    assert_eq!(r.side, Side::Bid);
    assert_eq!(r.outcome, ShareType::Yes);
    assert_eq!(r.price, Decimal::from_units(550_000));
    assert_eq!(r.qty, Decimal::from_units(2_500_000));
}

#[test]
fn validate_place_rejects_in_order() {
    let e = validate_place("", "17", "bid", "yes", "0.55", "2.5").unwrap_err();
    assert_eq!(e, ValidationError::EmptyOwner);
    let e = validate_place("a", "17x", "bid", "yes", "0.55", "2.5").unwrap_err();
    assert_eq!(e, ValidationError::BadMarketId);
    let e = validate_place("a", "17", "buy", "yes", "0.55", "2.5").unwrap_err();
    assert_eq!(e, ValidationError::BadSide);
    let e = validate_place("a", "17", "bid", "y", "0.55", "2.5").unwrap_err();
    assert_eq!(e, ValidationError::BadOutcome);
    let e = validate_place("a", "17", "bid", "yes", "0.5.5", "2.5").unwrap_err();
    assert_eq!(e, ValidationError::BadPrice);
    let e = validate_place("a", "17", "bid", "yes", "1.0", "2.5").unwrap_err();
    assert_eq!(e, ValidationError::PriceOutOfRange);
    let e = validate_place("a", "17", "bid", "yes", "0", "2.5").unwrap_err();
    assert_eq!(e, ValidationError::PriceOutOfRange);
    let e = validate_place("a", "17", "bid", "yes", "-0.5", "2.5").unwrap_err();
    assert_eq!(e, ValidationError::PriceOutOfRange);
    let e = validate_place("a", "17", "bid", "yes", "0.55", "x").unwrap_err();
    assert_eq!(e, ValidationError::BadQty);
    let e = validate_place("a", "17", "bid", "yes", "0.55", "0").unwrap_err();
    assert_eq!(e, ValidationError::QtyNotPositive);
    let e = validate_place("a", "17", "bid", "yes", "0.55", "-2").unwrap_err();
    assert_eq!(e, ValidationError::QtyNotPositive);
}

#[test]
fn validate_cancel_parses_order_id() {
    let r = validate_cancel("3", "ask", "no", "0.4", "67e55044-10b1-426f-9247-bb680e5fe0c8")
        .unwrap();
    assert_eq!(r.market_id, 3);
    assert_eq!(r.side, Side::Ask);
    assert_eq!(r.outcome, ShareType::No);
    assert_eq!(r.price, Decimal::from_units(400_000));
    let expected = uuid::Uuid::parse_str("67e55044-10b1-426f-9247-bb680e5fe0c8").unwrap();
    assert_eq!(r.order_id.value, expected.as_u128());

    let e = validate_cancel("3", "ask", "no", "0.4", "not-a-uuid").unwrap_err();
    assert_eq!(e, ValidationError::BadOrderId);
}

#[test]
fn validation_error_messages() {
    assert_eq!(ValidationError::EmptyOwner.message(), "owner must not be empty");
    assert_eq!(ValidationError::PriceOutOfRange.message(), "price must be between 0 and 1");
    assert_eq!(ValidationError::BadOrderId.message(), "invalid order id");
}
