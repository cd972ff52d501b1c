use stgit::oid::ObjectId;

#[test]
fn hex_round_trip() {
    let text = "0123456789abcdef0123456789abcdef01234567";
    let id = ObjectId::from_hex(text).unwrap();
    assert_eq!(id.to_hex(), text);
    assert_eq!(id.to_bytes()[0], 0x01);
    assert_eq!(id.to_bytes()[19], 0x67);
}

#[test]
fn hex_upper_case_is_read() {
    let id = ObjectId::from_hex("ABCDEF0123456789ABCDEF0123456789ABCDEF01").unwrap();
    assert_eq!(id.to_hex(), "abcdef0123456789abcdef0123456789abcdef01");
}

#[test]
fn hex_of_wrong_length_is_refused() {
    assert!(ObjectId::from_hex("").is_none());
    assert!(ObjectId::from_hex("abc").is_none());
    assert!(ObjectId::from_hex("0123456789abcdef0123456789abcdef012345678").is_none());
}

#[test]
fn hex_with_other_characters_is_refused() {
    assert!(ObjectId::from_hex("g123456789abcdef0123456789abcdef01234567").is_none());
}
