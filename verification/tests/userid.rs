use smppgc::userid::UserId;

#[test]
fn roundtrip_fresh_identity() {
    let original = UserId::new();
    let formatted = original.format();
    assert_eq!(formatted.len(), 33);
    assert!(formatted.starts_with('a'));
    let parsed = UserId::parse_str(&formatted);
    assert_eq!(parsed, Some(original));
}

#[test]
fn parse_linked_key() {
    let key = "l0123456789abcdef0123456789abcdef";
    let parsed = UserId::parse_str(key).expect("valid key");
    assert_eq!(parsed.format(), key);
    assert_eq!(parsed.uuid(), 0x0123456789abcdef0123456789abcdefu128);
}

#[test]
fn parse_uppercase_hex_formats_lowercase() {
    let key = "aABCDEF00000000000000000000000001";
    let parsed = UserId::parse_str(key).expect("valid key");
    assert_eq!(parsed.format(), "aabcdef00000000000000000000000001");
}

#[test]
fn parse_rejects_bad_shapes() {
    assert_eq!(UserId::parse_str(""), None);
    assert_eq!(UserId::parse_str("a0123456789abcdef0123456789abcde"), None);
    assert_eq!(UserId::parse_str("a0123456789abcdef0123456789abcdef0"), None);
    assert_eq!(UserId::parse_str("x0123456789abcdef0123456789abcdef"), None);
    assert_eq!(UserId::parse_str("a0123456789abcdef0123456789abcdeg"), None);
}

#[test]
fn to_bytes_le_layout() {
    let key = "l000102030405060708090a0b0c0d0e0f";
    let parsed = UserId::parse_str(key).expect("valid key");
    let bytes = parsed.to_bytes_le();
    // Mixed-endian UUID layout, then the linked tag byte.
    assert_eq!(
        bytes,
        vec![
            0x03, 0x02, 0x01, 0x00, 0x05, 0x04, 0x07, 0x06, 0x08, 0x09, 0x0a, 0x0b, 0x0c, 0x0d,
            0x0e, 0x0f, 0x6c
        ]
    );
}
