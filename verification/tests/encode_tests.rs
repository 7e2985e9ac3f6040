use homepage_core::encode::base64_encode;
use homepage_core::strutil::{parse_u64_dec, u64_to_string};

#[test]
fn base64_known_vectors() {
    assert_eq!(base64_encode(""), "");
    assert_eq!(base64_encode("f"), "Zg==");
    assert_eq!(base64_encode("fo"), "Zm8=");
    assert_eq!(base64_encode("foo"), "Zm9v");
    assert_eq!(base64_encode("foob"), "Zm9vYg==");
    assert_eq!(base64_encode("fooba"), "Zm9vYmE=");
    assert_eq!(base64_encode("foobar"), "Zm9vYmFy");
}

#[test]
fn base64_of_credentials() {
    assert_eq!(base64_encode("id:secret"), "aWQ6c2VjcmV0");
    assert_eq!(
        base64_encode("many hands make light work."),
        "bWFueSBoYW5kcyBtYWtlIGxpZ2h0IHdvcmsu"
    );
}

#[test]
fn decimal_formatting() {
    assert_eq!(u64_to_string(0), "0");
    assert_eq!(u64_to_string(7), "7");
    assert_eq!(u64_to_string(12345), "12345");
    assert_eq!(u64_to_string(u64::MAX), "18446744073709551615");
}

#[test]
fn decimal_parsing() {
    assert_eq!(parse_u64_dec(b"0"), Some(0));
    assert_eq!(parse_u64_dec(b"00123"), Some(123));
    assert_eq!(parse_u64_dec(b""), None);
    assert_eq!(parse_u64_dec(b"1x"), None);
    assert_eq!(parse_u64_dec(b"18446744073709551615"), Some(u64::MAX));
    assert_eq!(parse_u64_dec(b"18446744073709551616"), None);
}
