use patternscan::MaskedByte;
use patternscan::Pattern;

#[test]
fn test_pattern_from_str() {
    assert_eq!(
        Pattern::from_str("48 8B 05 ? ? ? ? "),
        Ok(Pattern(vec![
            MaskedByte(Some(0x48)),
            MaskedByte(Some(0x8B)),
            MaskedByte(Some(0x05)),
            MaskedByte(None),
            MaskedByte(None),
            MaskedByte(None),
            MaskedByte(None),
        ]))
    );

    assert_eq!(
        Pattern::from_str("48 89 84 24 ? 00 00 00"),
        Ok(Pattern(vec![
            MaskedByte(Some(0x48)),
            MaskedByte(Some(0x89)),
            MaskedByte(Some(0x84)),
            MaskedByte(Some(0x24)),
            MaskedByte(None),
            MaskedByte(Some(0x00)),
            MaskedByte(Some(0x00)),
            MaskedByte(Some(0x00)),
        ]))
    );

    assert!(matches!(
        Pattern::from_str("aa bb cc dd ee ff gg hh"),
        Err(_)
    ));
}

#[test]
fn from_str_accepts_upper_and_lower_hex() {
    assert_eq!(
        Pattern::from_str("aB Cd"),
        Ok(Pattern(vec![MaskedByte(Some(0xAB)), MaskedByte(Some(0xCD))]))
    );
}

#[test]
fn from_str_accepts_single_digit_tokens() {
    assert_eq!(
        Pattern::from_str("5 f"),
        Ok(Pattern(vec![MaskedByte(Some(0x5)), MaskedByte(Some(0xF))]))
    );
}

#[test]
fn from_str_of_no_tokens_gives_the_empty_pattern() {
    assert_eq!(Pattern::from_str(""), Ok(Pattern(vec![])));
    assert_eq!(Pattern::from_str("  \t \n "), Ok(Pattern(vec![])));
}

#[test]
fn from_str_rejects_malformed_tokens() {
    assert!(matches!(Pattern::from_str("123"), Err(_)));
    assert!(matches!(Pattern::from_str("48 ?? 05"), Err(_)));
    assert!(matches!(Pattern::from_str("4g"), Err(_)));
    assert!(matches!(Pattern::from_str("-1"), Err(_)));
}

#[test]
fn masked_byte_from_str_parses_single_tokens() {
    assert_eq!(MaskedByte::from_str("?"), Ok(MaskedByte(None)));
    assert_eq!(MaskedByte::from_str("ff"), Ok(MaskedByte(Some(0xFF))));
    assert_eq!(MaskedByte::from_str("0"), Ok(MaskedByte(Some(0))));
    assert!(matches!(MaskedByte::from_str("zz"), Err(_)));
    assert!(matches!(MaskedByte::from_str(""), Err(_)));
}

#[test]
fn masked_byte_matches_byte_wildcard_and_concrete() {
    assert!(MaskedByte(None).matches_byte(0x00));
    assert!(MaskedByte(None).matches_byte(0xFF));
    assert!(MaskedByte(Some(0x42)).matches_byte(0x42));
    assert!(!MaskedByte(Some(0x42)).matches_byte(0x43));
}
