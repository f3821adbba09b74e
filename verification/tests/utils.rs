use icefun::utils::{parse_addr, scale_addr, AddrError, KIB, MIB};

#[test]
fn plain_numbers_parse_in_every_base() {
    assert_eq!(parse_addr("0").unwrap(), 0);
    assert_eq!(parse_addr("12").unwrap(), 12);
    assert_eq!(parse_addr("0x10").unwrap(), 16);
    assert_eq!(parse_addr("0b101").unwrap(), 5);
    assert_eq!(parse_addr("0o17").unwrap(), 15);
    assert_eq!(parse_addr("1_000").unwrap(), 1000);
}

#[test]
fn suffixes_scale_the_number() {
    assert_eq!((KIB, MIB), (1024, 1024 * 1024));
    assert_eq!(parse_addr("4K").unwrap(), 4096);
    assert_eq!(parse_addr("1M").unwrap(), 1_048_576);
    assert_eq!(parse_addr("0x10K").unwrap(), 16 * 1024);
    assert_eq!(parse_addr("0M").unwrap(), 0);
}

#[test]
fn lower_case_suffixes_are_no_suffixes() {
    assert!(matches!(parse_addr("4k"), Err(AddrError::Parse(_))));
    assert!(matches!(parse_addr("4m"), Err(AddrError::Parse(_))));
}

#[test]
fn text_that_is_no_number_is_a_parse_error() {
    assert!(matches!(parse_addr(""), Err(AddrError::Parse(_))));
    assert!(matches!(parse_addr("K"), Err(AddrError::Parse(_))));
    assert!(matches!(parse_addr("xyz"), Err(AddrError::Parse(_))));
    assert!(matches!(parse_addr("12KK"), Err(AddrError::Parse(_))));
    assert!(matches!(parse_addr("99999999999999999999999"), Err(AddrError::Parse(_))));
}

#[test]
fn minus_sign_is_refused() {
    assert!(matches!(parse_addr("-5"), Err(AddrError::Sign)));
    assert!(matches!(parse_addr("1-2"), Err(AddrError::Sign)));
    assert!(matches!(parse_addr("-1M"), Err(AddrError::Sign)));
}

#[test]
fn scaled_number_that_does_not_fit_is_an_overflow() {
    assert!(matches!(parse_addr("0xFFFFFFFFFFFFFFFFK"), Err(AddrError::Overflow)));
    assert!(matches!(parse_addr("0xFFFFFFFFFFFFFFFFM"), Err(AddrError::Overflow)));
}

#[test]
fn scale_addr_multiplies_or_hands_the_error_on() {
    assert_eq!(scale_addr(1024, Ok(3)).unwrap(), 3072);
    assert_eq!(scale_addr(1, Ok(0)).unwrap(), 0);
    assert!(matches!(scale_addr(2, Ok(u64::MAX)), Err(AddrError::Overflow)));
    let e = "x".parse::<u64>().unwrap_err();
    assert!(matches!(scale_addr(2, Err(e)), Err(AddrError::Parse(_))));
}
