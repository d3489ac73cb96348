use http_codec::query::process_query_string;
use http_codec::error::HTTPError;

#[test]
fn two_declarations_decode_to_a_mapping() {
    let q = process_query_string("a=1&b=2").unwrap();
    assert_eq!(q.get("a").map(String::as_str), Some("1"));
    assert_eq!(q.get("b").map(String::as_str), Some("2"));
    assert_eq!(q.get("c"), None);
}

#[test]
fn declaration_without_equals_fails() {
    let r = process_query_string("a=1&bad");
    assert!(matches!(r, Err(HTTPError::InvalidPath)));
}

#[test]
fn empty_query_string_fails() {
    // the empty string is one declaration with no `=`
    let r = process_query_string("");
    assert!(matches!(r, Err(HTTPError::InvalidPath)));
}

#[test]
fn trailing_ampersand_fails() {
    let r = process_query_string("a=1&");
    assert!(matches!(r, Err(HTTPError::InvalidPath)));
}

#[test]
fn last_write_to_a_key_wins() {
    let q = process_query_string("k=first&k=second").unwrap();
    assert_eq!(q.get("k").map(String::as_str), Some("second"));
}

#[test]
fn value_may_be_empty_and_may_hold_equals() {
    let q = process_query_string("a=&b=x=y").unwrap();
    assert_eq!(q.get("a").map(String::as_str), Some(""));
    // only the first `=` splits a declaration
    assert_eq!(q.get("b").map(String::as_str), Some("x=y"));
}
