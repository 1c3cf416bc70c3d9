use cookie::Cookie;
use ri_cookie_header_string::reqwest_support::parse_for_reqwest;
use ri_cookie_header_string::{CookieHeaderStringExt, HeaderStringCookies};

fn successes(mut scan: HeaderStringCookies<Cookie<'static>>) -> Vec<Cookie<'static>> {
    let mut out = Vec::new();
    while let Some(item) = scan.next() {
        if let Ok(c) = item {
            out.push(c);
        }
    }
    out
}

fn parse_ok(header: &str) -> Vec<Cookie<'static>> {
    successes(Cookie::header_string_parse(header))
}

#[test]
fn header_string_parse() {
    let cases = [
        ("", vec![]),
        (";;", vec![]),
        ("name=val;ue", vec![("name", "val;ue")]),
        ("name=val;ue;hello=world", vec![("name", "val;ue"), ("hello", "world")]),
    ];

    for (string, expected) in cases {
        let cookies = parse_ok(string);
        let actual: Vec<_> = cookies.iter().map(|c| c.name_value()).collect();
        assert_eq!(expected, actual);
    }
}

#[test]
fn header_string_parse_empty_values() {
    let cookies = parse_ok("name=; other=value");
    assert_eq!(cookies.len(), 2);
    assert_eq!(cookies[0].value(), "");
    assert_eq!(cookies[1].value(), "value");
}

#[test]
fn header_string_parse_whitespace_handling() {
    let cookies = parse_ok("  name  =  value  ;  other  =  val  ");
    assert_eq!(cookies.len(), 2);
    assert_eq!(cookies[0].name_value(), ("name", "value"));
    assert_eq!(cookies[1].name_value(), ("other", "val"));
}

#[test]
fn header_string_parse_multiple_consecutive_semicolons() {
    let cookies = parse_ok("name=;;;value;;;other=val");
    assert!(!cookies.is_empty());
}

#[test]
fn header_string_parse_special_characters() {
    let cookies = parse_ok("session=!@#$%^&*(){}[]; other=value");
    assert_eq!(cookies.len(), 2);
    assert_eq!(cookies[0].value(), "!@#$%^&*(){}[]");
}

#[test]
fn header_string_parse_value_with_equals() {
    let cookies = parse_ok("session=abc=123; other=value");
    assert_eq!(cookies.len(), 2);
    assert_eq!(cookies[0].value(), "abc=123");
}

#[test]
fn header_string_parse_long_values() {
    let long_value = "x".repeat(1000);
    let cookie_header = format!("name={long_value}; other=val");
    let cookies = successes(Cookie::header_string_parse(&cookie_header));
    assert_eq!(cookies.len(), 2);
    assert_eq!(cookies[0].value().len(), 1000);
}

#[test]
fn header_string_parse_complex_semicolons() {
    let cookies = parse_ok("session=abc;def;ghi; other=value");
    assert_eq!(cookies.len(), 2);
    assert_eq!(cookies[0].value(), "abc;def;ghi");
    assert_eq!(cookies[1].value(), "value");
}

#[test]
fn header_string_parse_percent_encoded() {
    let cookies = parse_ok("name=val%20ue");
    assert_eq!(cookies.len(), 1);
    assert_eq!(cookies[0].name_value(), ("name", "val ue"));
}

#[test]
fn header_string_parse_percent_encoded_semicolon() {
    let cookies = parse_ok("name=val%3B123; other=value");
    assert_eq!(cookies.len(), 2);
    assert_eq!(cookies[0].value(), "val;123");
}

#[test]
fn header_string_parse_numeric_names() {
    let cookies = parse_ok("123=value; _456=other");
    assert_eq!(cookies.len(), 2);
    assert_eq!(cookies[0].name(), "123");
}

#[test]
fn header_string_parse_hyphenated_names() {
    let cookies = parse_ok("session-id=value; other-val=data");
    assert_eq!(cookies.len(), 2);
    assert_eq!(cookies[0].name(), "session-id");
}

#[test]
fn header_string_parse_reqwest() {
    let cookies = successes(parse_for_reqwest("session=abc;123; other=value"));
    assert_eq!(cookies.len(), 2);
    assert_eq!(cookies[0].value(), "abc;123");
    assert_eq!(cookies[1].value(), "value");
}
