use pocketbase_sdk::cookie::{cookie_parse, cookie_get, percent_encode, percent_decode};

#[test]
fn test_cookie_parse_simple() {
    let cookies = cookie_parse("foo=bar", None);
    assert_eq!(cookie_get(&cookies, "foo"), Some(&"bar".to_string()));
}

#[test]
fn test_cookie_parse_multiple() {
    let cookies = cookie_parse("foo=bar; baz=qux", None);
    assert_eq!(cookie_get(&cookies, "foo"), Some(&"bar".to_string()));
    assert_eq!(cookie_get(&cookies, "baz"), Some(&"qux".to_string()));
}

#[test]
fn test_cookie_parse_quoted() {
    let cookies = cookie_parse("foo=\"bar baz\"", None);
    assert_eq!(cookie_get(&cookies, "foo"), Some(&"bar baz".to_string()));
}

#[test]
fn test_cookie_parse_empty() {
    let cookies = cookie_parse("", None);
    assert!(cookies.is_empty());
}

#[test]
fn test_cookie_parse_encoded() {
    let cookies = cookie_parse("foo=hello%20world", None);
    assert_eq!(cookie_get(&cookies, "foo"), Some(&"hello world".to_string()));
}

#[test]
fn test_percent_encode_decode() {
    let original = "hello world!";
    let encoded = percent_encode(original);
    let decoded = percent_decode(&encoded);
    assert_eq!(decoded, original);
}

#[test]
fn test_percent_encode_space() {
    assert_eq!(percent_encode("a b"), "a%20b");
}

#[test]
fn test_cookie_parse_first_assignment_wins() {
    let cookies = cookie_parse("foo=one; foo=two", None);
    assert_eq!(cookie_get(&cookies, "foo"), Some(&"one".to_string()));
}

use pocketbase_sdk::cookie::{cookie_serialize, CookiePriority, SameSite, SerializeOptions};

#[test]
fn test_cookie_serialize_simple() {
    let cookie = cookie_serialize("foo", "bar", None).unwrap();
    assert_eq!(cookie, "foo=bar");
}

#[test]
fn test_cookie_serialize_with_options() {
    let opts = SerializeOptions {
        http_only: true,
        secure: true,
        path: Some("/".to_string()),
        same_site: Some(SameSite::Strict),
        ..Default::default()
    };
    let cookie = cookie_serialize("foo", "bar", Some(opts)).unwrap();
    assert!(cookie.contains("foo=bar"));
    assert!(cookie.contains("; HttpOnly"));
    assert!(cookie.contains("; Secure"));
    assert!(cookie.contains("; Path=/"));
    assert!(cookie.contains("; SameSite=Strict"));
}

#[test]
fn test_cookie_serialize_max_age() {
    let opts = SerializeOptions {
        max_age: Some(3600),
        ..Default::default()
    };
    let cookie = cookie_serialize("foo", "bar", Some(opts)).unwrap();
    assert!(cookie.contains("; Max-Age=3600"));
}

#[test]
fn test_cookie_serialize_priority() {
    let opts = SerializeOptions {
        priority: Some(CookiePriority::High),
        ..Default::default()
    };
    let cookie = cookie_serialize("foo", "bar", Some(opts)).unwrap();
    assert!(cookie.contains("; Priority=High"));
}

#[test]
fn test_cookie_serialize_invalid_name() {
    let err = cookie_serialize("bad\nname", "bar", None).unwrap_err();
    assert!(matches!(
        err,
        pocketbase_sdk::cookie::CookieError::InvalidName(_)
    ));
}

#[test]
fn test_cookie_serialize_encodes_value() {
    let cookie = cookie_serialize("foo", "a b", None).unwrap();
    assert_eq!(cookie, "foo=a%20b");
}
