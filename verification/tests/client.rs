use http::client::{build_request_head, detect_ssl, effective_port};
use http::headers::collection::HeaderCollection;
use http::method::Method;

#[test]
fn effective_port_prefers_explicit_then_scheme() {
    assert_eq!(effective_port("http", Some(8080)), 8080);
    assert_eq!(effective_port("https", Some(8443)), 8443);
    assert_eq!(effective_port("https", None), 443);
    assert_eq!(effective_port("http", None), 80);
    assert_eq!(effective_port("ftp", None), 80);
}

#[test]
fn ssl_detection_is_exact() {
    assert!(detect_ssl("https"));
    assert!(!detect_ssl("http"));
    assert!(!detect_ssl("HTTPS"));
}

#[test]
fn request_head_has_line_headers_and_blank() {
    let mut headers = HeaderCollection::new();
    headers.insert(b"Host".to_vec(), b"example.com".to_vec());
    let head = build_request_head(
        &Method::Get,
        &b"/path".to_vec(),
        &Some(b"q=1".to_vec()),
        &headers,
    );
    assert_eq!(
        String::from_utf8(head).unwrap(),
        "GET /path?q=1 HTTP/1.0\r\nHost: example.com\r\n\r\n"
    );
}

#[test]
fn request_head_without_query() {
    let headers = HeaderCollection::new();
    let head = build_request_head(&Method::Head, &b"/".to_vec(), &None, &headers);
    assert_eq!(String::from_utf8(head).unwrap(), "HEAD / HTTP/1.0\r\n\r\n");
}
