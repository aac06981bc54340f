use memster::http::{response_content_length, route, Route};
use memster::text::decimal;

fn gets(method: &str, path: &str) -> Option<String> {
    match route(method, path) {
        Route::GetKey(key) => Some(key),
        _ => None,
    }
}

fn sets(method: &str, path: &str) -> Option<String> {
    match route(method, path) {
        Route::SetKey(key) => Some(key),
        _ => None,
    }
}

fn is_not_allowed(method: &str, path: &str) -> bool {
    matches!(route(method, path), Route::NotAllowed)
}

#[test]
fn requests_are_routed() {
    assert_eq!(Some("key".to_owned()), gets("GET", "/get/key"));
    assert_eq!(Some("key".to_owned()), sets("POST", "/set/key"));
    assert_eq!(None, sets("GET", "/get/key"));
    assert_eq!(None, gets("POST", "/set/key"));
}

#[test]
fn every_key_has_its_paths() {
    for key in ["a", "some-key", "get", "set", "%20", "é", "a b", "?"] {
        assert_eq!(Some(key.to_owned()), gets("GET", &format!("/get/{}", key)));
        assert_eq!(Some(key.to_owned()), sets("POST", &format!("/set/{}", key)));
    }
}

#[test]
fn key_is_the_second_segment() {
    assert_eq!(Some("a".to_owned()), gets("GET", "/get/a/"));
    assert_eq!(Some("a".to_owned()), gets("GET", "/get/a/b/c"));
    assert_eq!(Some("a".to_owned()), sets("POST", "/set/a//b"));
    assert_eq!(Some("a".to_owned()), gets("GET", "get/a"));
}

#[test]
fn anything_else_is_not_allowed() {
    assert!(is_not_allowed("GET", ""));
    assert!(is_not_allowed("GET", "/"));
    assert!(is_not_allowed("GET", "/get"));
    assert!(is_not_allowed("GET", "/get/"));
    assert!(is_not_allowed("GET", "/get//a"));
    assert!(is_not_allowed("GET", "//get/a"));
    assert!(is_not_allowed("GET", "/gets/a"));
    assert!(is_not_allowed("GET", "/ge/a"));
    assert!(is_not_allowed("GET", "/GET/a"));
    assert!(is_not_allowed("GET", "/set/a"));
    assert!(is_not_allowed("POST", "/get/a"));
    assert!(is_not_allowed("PUT", "/set/a"));
    assert!(is_not_allowed("DELETE", "/get/a"));
    assert!(is_not_allowed("", "/get/a"));
    assert!(is_not_allowed("GETS", "/get/a"));
}

#[test]
fn content_length_is_the_size_in_decimal() {
    for (size, text) in [
        (0, "0"),
        (7, "7"),
        (10, "10"),
        (1_234_567_890, "1234567890"),
        (u64::MAX, "18446744073709551615"),
    ] {
        let length = response_content_length(Some(size)).unwrap();
        assert_eq!(text, length.to_str().unwrap());
    }
    assert_eq!(None, response_content_length(None));
}

#[test]
fn decimal_notation() {
    assert_eq!("0", decimal(0));
    assert_eq!("9", decimal(9));
    assert_eq!("10", decimal(10));
    assert_eq!("8080", decimal(8080));
    assert_eq!("18446744073709551615", decimal(u64::MAX));
}
