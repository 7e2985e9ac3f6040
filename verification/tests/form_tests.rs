use homepage_core::form::{get_param, parse_query, parse_u64_param, parse_urlencoded, url_decode};

#[test]
fn url_decode_plus_and_percent() {
    assert_eq!(url_decode("a+b"), "a b");
    assert_eq!(url_decode("a%20b"), "a b");
    assert_eq!(url_decode("%41%62c"), "Abc");
    assert_eq!(url_decode("hello"), "hello");
    assert_eq!(url_decode(""), "");
}

#[test]
fn url_decode_mixed_case_hex() {
    assert_eq!(url_decode("%2f%2F"), "//");
    assert_eq!(url_decode("caf%C3%A9"), "café");
}

#[test]
fn url_decode_invalid_escape_drops_percent() {
    assert_eq!(url_decode("%zz"), "zz");
    assert_eq!(url_decode("100%"), "100%");
    assert_eq!(url_decode("%4"), "%4");
}

#[test]
fn parse_urlencoded_splits_pairs() {
    let pairs = parse_urlencoded("author=J%20Doe&content=hi+there");
    assert_eq!(pairs.len(), 2);
    assert_eq!(pairs[0], ("author".to_string(), "J Doe".to_string()));
    assert_eq!(pairs[1], ("content".to_string(), "hi there".to_string()));
}

#[test]
fn parse_urlencoded_skips_pieces_without_equals() {
    let pairs = parse_urlencoded("bogus&a=1");
    assert_eq!(pairs.len(), 1);
    assert_eq!(pairs[0], ("a".to_string(), "1".to_string()));
}

#[test]
fn parse_urlencoded_value_keeps_later_equals() {
    let pairs = parse_urlencoded("k=a=b");
    assert_eq!(pairs[0], ("k".to_string(), "a=b".to_string()));
}

#[test]
fn get_param_last_duplicate_wins() {
    let pairs = parse_urlencoded("a=1&b=2&a=3");
    assert_eq!(get_param(&pairs, "a").map(String::as_str), Some("3"));
    assert_eq!(get_param(&pairs, "b").map(String::as_str), Some("2"));
    assert_eq!(get_param(&pairs, "c"), None);
}

#[test]
fn parse_query_takes_pairs_after_question_mark() {
    let pairs = parse_query("/comp/messages?last_id=5&limit=2");
    assert_eq!(pairs.len(), 2);
    assert_eq!(pairs[0], ("last_id".to_string(), "5".to_string()));
    assert_eq!(pairs[1], ("limit".to_string(), "2".to_string()));
}

#[test]
fn parse_query_without_query_is_empty() {
    assert!(parse_query("/comp/messages").is_empty());
}

#[test]
fn parse_query_does_not_url_decode() {
    let pairs = parse_query("/x?k=a%20b");
    assert_eq!(pairs[0].1, "a%20b");
}

#[test]
fn numeric_params_parse_with_defaults_and_bounds() {
    assert_eq!(parse_u64_param("42"), Some(42));
    assert_eq!(parse_u64_param("+7"), Some(7));
    assert_eq!(parse_u64_param(""), None);
    assert_eq!(parse_u64_param("12a"), None);
    assert_eq!(parse_u64_param("99999999999999999999"), None);
    assert_eq!(parse_u64_param("18446744073709551615"), Some(u64::MAX));
}
