use http::method::{read_method, Method};
use http::HttpError;

#[test]
fn read_method_recognizes_get_and_consumes_space() {
    let data = b"GET /index HTTP/1.1\r\n".to_vec();
    let mut pos = 0usize;
    let m = read_method(&data, &mut pos, 16).unwrap();
    assert_eq!(m, Method::Get);
    assert_eq!(pos, 4);
    assert_eq!(data[pos], b'/');
}

#[test]
fn read_method_truncated_input_is_malformed() {
    let data = b"GE".to_vec();
    let mut pos = 0usize;
    assert_eq!(read_method(&data, &mut pos, 16), Err(HttpError::Malformed));
}

#[test]
fn read_method_unknown_token_is_extension() {
    let data = b"BREW /pot".to_vec();
    let mut pos = 0usize;
    let m = read_method(&data, &mut pos, 16).unwrap();
    assert_eq!(m, Method::ExtensionMethod("BREW".to_string()));
    assert_eq!(pos, 5);
}

#[test]
fn read_method_is_case_sensitive_on_the_wire() {
    let data = b"get /".to_vec();
    let mut pos = 0usize;
    let m = read_method(&data, &mut pos, 16).unwrap();
    assert_eq!(m, Method::ExtensionMethod("get".to_string()));
}

#[test]
fn read_method_too_long_token() {
    let data = b"ABCDEFGHIJKLMNOPQ /".to_vec();
    let mut pos = 0usize;
    assert_eq!(read_method(&data, &mut pos, 16), Err(HttpError::TooLong));
}

#[test]
fn read_method_rejects_separator() {
    let data = b"GE(T /".to_vec();
    let mut pos = 0usize;
    assert_eq!(read_method(&data, &mut pos, 16), Err(HttpError::Malformed));
}

#[test]
fn from_str_or_new_known_and_extension() {
    assert_eq!(Method::from_str_or_new("GET"), Some(Method::Get));
    assert_eq!(Method::from_str_or_new("get"), Some(Method::Get));
    assert_eq!(
        Method::from_str_or_new("BREW"),
        Some(Method::ExtensionMethod("BREW".to_string()))
    );
}

#[test]
fn from_str_known_only() {
    assert_eq!(Method::from_str("PATCH"), Ok(Method::Patch));
    assert_eq!(Method::from_str("patch"), Ok(Method::Patch));
    assert_eq!(Method::from_str("BREW"), Err(()));
}

#[test]
fn method_names_round_trip() {
    for name in ["OPTIONS", "GET", "HEAD", "POST", "PUT", "DELETE", "TRACE", "CONNECT", "PATCH"] {
        let m = Method::from_str_or_new(name).unwrap();
        assert_eq!(m.name(), name);
        assert_eq!(Method::from_str_or_new(&m.name()), Some(m));
    }
    let ext = Method::from_str_or_new("BREW").unwrap();
    assert_eq!(Method::from_str_or_new(&ext.name()), Some(ext));
}
