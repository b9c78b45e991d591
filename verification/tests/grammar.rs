use http::grammar::{is_token_item, is_ows_item, is_ctl_item, is_text_item, push_quoted_string, quoted_string};

#[test]
fn character_classes_match_rfc2616() {
    assert!(is_token_item(b'a'));
    assert!(is_token_item(b'!'));
    assert!(!is_token_item(b'('));
    assert!(!is_token_item(b' '));
    assert!(!is_token_item(b'"'));
    assert!(is_ows_item(b' '));
    assert!(is_ows_item(b'\t'));
    assert!(!is_ows_item(b'a'));
    assert!(is_ctl_item(0x01));
    assert!(is_ctl_item(0x7f));
    assert!(!is_ctl_item(b'a'));
    assert!(is_text_item(b'\t'));
    assert!(!is_text_item(0x0c));
}

#[test]
fn quoted_string_escapes_quote_and_backslash() {
    let q = quoted_string(&b"a\"b\\c".to_vec());
    assert_eq!(q, b"\"a\\\"b\\\\c\"".to_vec());
}

#[test]
fn push_quoted_string_appends() {
    let out = push_quoted_string(b"W/".to_vec(), &b"t".to_vec());
    assert_eq!(out, b"W/\"t\"".to_vec());
}
