use mailc::theme::parse_hex;

#[test]
fn reads_six_hex_digits_in_either_case() {
    assert_eq!(parse_hex("#a1B2c3"), Some((0xa1, 0xb2, 0xc3)));
    assert_eq!(parse_hex("#000000"), Some((0, 0, 0)));
    assert_eq!(parse_hex("#ffffff"), Some((255, 255, 255)));
}

#[test]
fn surrounding_white_space_is_ignored() {
    assert_eq!(parse_hex("  #102030\n"), Some((0x10, 0x20, 0x30)));
}

#[test]
fn wrong_shapes_give_nothing() {
    assert_eq!(parse_hex("123456"), None);
    assert_eq!(parse_hex("#12345"), None);
    assert_eq!(parse_hex("#1234567"), None);
    assert_eq!(parse_hex("#12345g"), None);
    assert_eq!(parse_hex(""), None);
    assert_eq!(parse_hex("#\u{e9}\u{e9}\u{e9}"), None);
}

#[test]
fn a_pair_may_be_a_plus_sign_and_one_digit() {
    assert_eq!(parse_hex("#+f0a+1"), Some((15, 10, 1)));
    assert_eq!(parse_hex("#-f0a01"), None);
}
