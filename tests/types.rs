use svd::types::ScaledNonNegativeInteger;
use svd::utils::extract_prefix;

#[test]
fn decimal() {
    assert_eq!(Some(ScaledNonNegativeInteger(10)), ScaledNonNegativeInteger::from_str("10").ok());
}

#[test]
fn hex() {
    assert_eq!(Some(ScaledNonNegativeInteger(31)), ScaledNonNegativeInteger::from_str("0x1F").ok());
    assert_eq!(Some(ScaledNonNegativeInteger(31)), ScaledNonNegativeInteger::from_str("0X1f").ok());
}

#[test]
fn binary() {
    assert_eq!(Some(ScaledNonNegativeInteger(2)), ScaledNonNegativeInteger::from_str("#10").ok());
}

#[test]
fn invalid() {
    assert!(ScaledNonNegativeInteger::from_str("").is_err());
    assert!(ScaledNonNegativeInteger::from_str("a").is_err());
    assert!(ScaledNonNegativeInteger::from_str("0xg").is_err());
    assert!(ScaledNonNegativeInteger::from_str("#2").is_err());
}

#[test]
fn test_extract_prefix() {
    assert_eq!(("", None), extract_prefix(""));
    assert_eq!(("Foo", None), extract_prefix("Foo"));
    assert_eq!(("Foo", Some(123)), extract_prefix("Foo123"));
    assert_eq!(("Foo123Bar", Some(456)), extract_prefix("Foo123Bar456"));
    assert_eq!(("", Some(456)), extract_prefix("456"));
}

#[test]
fn literal_with_plus_and_overflow() {
    assert_eq!(Some(ScaledNonNegativeInteger(5)), ScaledNonNegativeInteger::from_str("+5").ok());
    assert_eq!(
        Some(ScaledNonNegativeInteger(u64::MAX)),
        ScaledNonNegativeInteger::from_str("18446744073709551615").ok()
    );
    assert!(ScaledNonNegativeInteger::from_str("18446744073709551616").is_err());
    assert!(ScaledNonNegativeInteger::from_str("+").is_err());
    assert!(ScaledNonNegativeInteger::from_str("0x").is_err());
}

#[test]
fn prefix_suffix_too_large() {
    assert_eq!(("A", None), extract_prefix("A99999999999999999999999"));
}
