use des::key_parsing::{key_from_str, ParseKeyError};

#[test]
fn key_parsing_test_key_from_str() {
    let key_hex_1 = "0ACB-38C4-9EA3-1C71";
    assert_eq!(key_from_str(&key_hex_1), Ok(777_777_777_777_777_777), "Failed to parse a simple key of all 7's");
    // test no move
    assert_eq!(
        key_from_str(&key_hex_1),
        Ok(777_777_777_777_777_777),
        "Key parsing function suddenly changed the input it was given"
    );
    assert_eq!(key_from_str(&"ZFFF-FFFF-0000-0000"), Err(ParseKeyError::NotHexFormat), "Not Hex character in input");
    assert_eq!(
        key_from_str(&"FFF-FFFF-0000-0000"),
        Err(ParseKeyError::BadLength(16)),
        "Key of wrong length (16 hex digits expected)"
    );
    assert_eq!(key_from_str(&"FFFF-FFFF-FFFF-FFFF"), Ok(0xFFFF_FFFF_FFFF_FFFF), "Corner case key: all F's as hex digits");
    assert_eq!(
        key_from_str(&"abcd-ffee-0000-1234"),
        Ok(0xabcd_ffee_0000_1234),
        "Failed to parse a key with different characters"
    );
}

#[test]
fn separators_and_spaces_are_optional() {
    assert_eq!(key_from_str("133457799BBCDFF1"), Ok(0x133457799BBCDFF1));
    assert_eq!(key_from_str("  1334-5779-9bbc-dff1\n"), Ok(0x133457799BBCDFF1));
    assert_eq!(key_from_str("1-3-3-4-5-7-7-9-9-B-B-C-D-F-F-1"), Ok(0x133457799BBCDFF1));
}

#[test]
fn wrong_lengths_are_refused() {
    assert_eq!(key_from_str(""), Err(ParseKeyError::BadLength(16)));
    assert_eq!(key_from_str("0123456789ABCDEF0"), Err(ParseKeyError::BadLength(16)));
    assert_eq!(key_from_str("----"), Err(ParseKeyError::BadLength(16)));
}

#[test]
fn non_hex_characters_are_refused() {
    assert_eq!(key_from_str("0123456789ABCDEG"), Err(ParseKeyError::NotHexFormat));
    assert_eq!(key_from_str("+123456789ABCDEF"), Err(ParseKeyError::NotHexFormat));
    assert_eq!(key_from_str("0123 56789ABCDEF"), Err(ParseKeyError::NotHexFormat));
}

#[test]
fn every_unicode_white_space_is_trimmed() {
    let spaces: Vec<char> = (0..=0x3000u32).filter_map(char::from_u32).filter(|c| c.is_whitespace()).collect();
    assert_eq!(spaces.len(), 25);
    for c in spaces {
        let text = format!("{}{}1334-5779-9BBC-DFF1{}", c, c, c);
        assert_eq!(key_from_str(&text), Ok(0x133457799BBCDFF1));
    }
    // a zero-width space is not white space
    assert_eq!(key_from_str("\u{200B}133457799BBCDFF1"), Err(ParseKeyError::BadLength(16)));
}
