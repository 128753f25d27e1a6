use analyze::utils::slice_as_hex_string;

#[test]
fn slice_as_hex_string_works() {
    assert_eq!(slice_as_hex_string(&[]), "");
    assert_eq!(slice_as_hex_string(&[0x12]), "12");
    assert_eq!(slice_as_hex_string(&[0x12, 0x34]), "12 34");
}

#[test]
fn slice_as_hex_string_uses_lowercase_digits() {
    assert_eq!(slice_as_hex_string(&[0xab, 0x0f, 0x00]), "ab 0f 00");
    assert_eq!(slice_as_hex_string(&[0xff]), "ff");
}
