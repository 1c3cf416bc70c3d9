use cookie::Cookie;
use ri_cookie_header_string::cookies::{encode_pair, Build};
use ri_cookie_header_string::is_cookie_name_start;
use ri_cookie_header_string::scan::{find_real_separator, resolve_entry_end, starts_new_entry};
use ri_cookie_header_string::HeaderStringCookies;

fn entries_of(header: &str, percent_decode: bool) -> Vec<(String, String)> {
    let mut scan: HeaderStringCookies<Cookie<'static>> = HeaderStringCookies::new(header, percent_decode);
    let mut out = Vec::new();
    while let Some(pair) = scan.next_entry() {
        out.push(pair);
    }
    out
}

fn pairs(list: &[(&str, &str)]) -> Vec<(String, String)> {
    list.iter().map(|(n, v)| (n.to_string(), v.to_string())).collect()
}

fn chars(s: &str) -> Vec<char> {
    s.chars().collect()
}

#[test]
fn empty_and_separator_only_inputs_yield_nothing() {
    assert!(entries_of("", true).is_empty());
    assert!(entries_of(";;", true).is_empty());
    assert!(entries_of(";;;;;", true).is_empty());
    assert!(entries_of("   ;  ; ", true).is_empty());
}

#[test]
fn single_entry_is_trimmed() {
    assert_eq!(entries_of("  name =  value ", false), pairs(&[("name", "value")]));
    assert_eq!(entries_of("a=b=c", false), pairs(&[("a", "b=c")]));
}

#[test]
fn literal_semicolons_stay_in_values() {
    assert_eq!(entries_of("name=val;ue", false), pairs(&[("name", "val;ue")]));
    assert_eq!(
        entries_of("name=val;ue;hello=world", false),
        pairs(&[("name", "val;ue"), ("hello", "world")])
    );
    assert_eq!(
        entries_of("session=abc;def;ghi; other=value", false),
        pairs(&[("session", "abc;def;ghi"), ("other", "value")])
    );
}

#[test]
fn empty_values_are_kept() {
    assert_eq!(entries_of("name=; other=value", false), pairs(&[("name", ""), ("other", "value")]));
}

#[test]
fn only_first_equals_splits() {
    assert_eq!(
        entries_of("session=abc=123; other=value", false),
        pairs(&[("session", "abc=123"), ("other", "value")])
    );
}

#[test]
fn malformed_entries_are_skipped() {
    assert_eq!(entries_of("noequals; a=1", false), pairs(&[("a", "1")]));
    assert_eq!(entries_of("=value; b=2", false), pairs(&[("b", "2")]));
    assert_eq!(entries_of(" = ; c=3", false), pairs(&[("c", "3")]));
}

#[test]
fn whitespace_is_trimmed_everywhere() {
    assert_eq!(
        entries_of("\t a \t= 1 ;\n b=\u{a0}2\u{a0} ", false),
        pairs(&[("a", "1"), ("b", "2")])
    );
}

#[test]
fn fresh_scans_agree() {
    let header = "x=1;2; y = 3 ;; z=%41";
    assert_eq!(entries_of(header, true), entries_of(header, true));
}

#[test]
fn raw_entries_are_not_decoded() {
    assert_eq!(entries_of("name=val%20ue", true), pairs(&[("name", "val%20ue")]));
}

#[test]
fn decoding_off_keeps_percent_literal() {
    let mut scan: HeaderStringCookies<Cookie<'static>> = HeaderStringCookies::new("name=val%20ue", false);
    let first = scan.next().unwrap().unwrap();
    assert_eq!(first.name_value(), ("name", "val%20ue"));
    assert!(scan.next().is_none());
    assert!(scan.next().is_none());
}

#[test]
fn decoding_on_decodes_value() {
    let mut scan: HeaderStringCookies<Cookie<'static>> = HeaderStringCookies::new("name=val%20ue; b=%41%42", true);
    assert_eq!(scan.next().unwrap().unwrap().name_value(), ("name", "val ue"));
    assert_eq!(scan.next().unwrap().unwrap().name_value(), ("b", "AB"));
    assert!(scan.next().is_none());
}

#[test]
fn decode_failure_is_reported_and_scan_goes_on() {
    let mut scan: HeaderStringCookies<Cookie<'static>> = HeaderStringCookies::new("a=%FF; b=2", true);
    assert!(scan.next().unwrap().is_err());
    assert_eq!(scan.next().unwrap().unwrap().name_value(), ("b", "2"));
    assert!(scan.next().is_none());
}

#[test]
fn name_start_bytes() {
    for b in [b'a', b'z', b'A', b'Z', b'0', b'9', b'_'] {
        assert!(is_cookie_name_start(b));
    }
    for b in [b'-', b' ', b';', b'=', b'%', 0x80u8, 0xffu8] {
        assert!(!is_cookie_name_start(b));
    }
}

#[test]
fn separator_test_after_semicolon() {
    let s = chars("a=b; c=d");
    assert!(starts_new_entry(&s, 4));
    let s = chars("a=b;ue");
    assert!(!starts_new_entry(&s, 4));
    let s = chars("a=b;  ");
    assert!(starts_new_entry(&s, 4));
    let s = chars("a=b; ;x");
    assert!(starts_new_entry(&s, 4));
    let s = chars("a=b;c d=e");
    assert!(!starts_new_entry(&s, 4));
    let s = chars("a=b;c =e");
    assert!(starts_new_entry(&s, 4));
}

#[test]
fn real_separator_lookahead() {
    let s = chars("session=abc;def;ghi; other=value");
    assert_eq!(find_real_separator(&s, 11), 19);
    assert_eq!(resolve_entry_end(&s, 0), 19);
    let s = chars("name=val;ue");
    assert_eq!(find_real_separator(&s, 8), 11);
    assert_eq!(resolve_entry_end(&s, 0), 11);
}

#[test]
fn build_plan_follows_decoding_setting() {
    let mut scan: HeaderStringCookies<Cookie<'static>> = HeaderStringCookies::new(" n = v%3B1 ;m=plain", true);
    match scan.next_build() {
        Some(Build::FromEncoded { name, value, text }) => {
            assert_eq!(name, "n");
            assert_eq!(value, "v%3B1");
            assert_eq!(text, "n=v%3B1");
        }
        _ => panic!("expected the decoding path"),
    }
    match scan.next_build() {
        Some(Build::FromParts { name, value }) => {
            assert_eq!(name, "m");
            assert_eq!(value, "plain");
        }
        _ => panic!("expected the plain path"),
    }
    assert!(scan.next_build().is_none());

    let mut off: HeaderStringCookies<Cookie<'static>> = HeaderStringCookies::new("n=v%3B1", false);
    assert!(matches!(off.next_build(), Some(Build::FromParts { .. })));
}

#[test]
fn encoded_text_joins_name_and_value() {
    assert_eq!(encode_pair(&"key".to_string(), &"a%20b".to_string()), "key=a%20b");
    assert_eq!(encode_pair(&"k".to_string(), &String::new()), "k=");
}
