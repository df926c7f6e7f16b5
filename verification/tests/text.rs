use amanda::text::{contains_text, equal_ignoring_ascii_case, hex_string};

#[test]
fn hex_digits() {
    assert_eq!(hex_string(&[]), "");
    assert_eq!(hex_string(&[0x00, 0x0f, 0xa5, 0xff]), "000fa5ff");
    assert_eq!(hex_string(&[0xde, 0xad, 0xbe, 0xef]), hex::encode([0xde, 0xad, 0xbe, 0xef]));
}

#[test]
fn ascii_case_insensitive_equality() {
    assert!(equal_ignoring_ascii_case("Nginx", "nGINX"));
    assert!(!equal_ignoring_ascii_case("nginx", "nginx2"));
    assert!(!equal_ignoring_ascii_case("É", "é"));
    assert!(equal_ignoring_ascii_case("", ""));
}

#[test]
fn substring_search() {
    assert!(contains_text("/usr/sbin/nginx", "nginx"));
    assert!(contains_text("abc", ""));
    assert!(!contains_text("ngin", "nginx"));
    assert!(contains_text("añb", "ñb"));
    assert!(!contains_text("/usr/bin/php", "nginx"));
}
