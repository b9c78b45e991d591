use http::headers::collection::{HeaderCollection, Host};
use http::headers::etag::strong_etag;

#[test]
fn content_length_parses_and_serializes() {
    let mut h = HeaderCollection::new();
    h.insert(b"Content-Length".to_vec(), b"0042".to_vec());
    assert_eq!(h.content_length, Some(42));
    let mut out = Vec::new();
    h.write_all(&mut out);
    assert_eq!(out, b"Content-Length: 42\r\n".to_vec());
}

#[test]
fn bad_content_length_is_kept_opaque() {
    let mut h = HeaderCollection::new();
    h.insert(b"Content-Length".to_vec(), b"+5".to_vec());
    assert_eq!(h.content_length, None);
    assert_eq!(h.extensions, vec![(b"Content-Length".to_vec(), b"+5".to_vec())]);
}

#[test]
fn connection_value_kept_verbatim() {
    let mut h = HeaderCollection::new();
    h.insert(b"Connection".to_vec(), b"CLOSE".to_vec());
    assert_eq!(h.connection, Some(b"CLOSE".to_vec()));
    let mut h = HeaderCollection::new();
    h.insert(b"cOnNeCtIoN".to_vec(), b"Keep-Alive".to_vec());
    assert_eq!(h.connection, Some(b"Keep-Alive".to_vec()));
}

#[test]
fn repeated_list_headers_fold_to_comma_list() {
    let mut h = HeaderCollection::new();
    h.insert(b"Connection".to_vec(), b"keep-alive".to_vec());
    h.insert(b"Connection".to_vec(), b"upgrade".to_vec());
    assert_eq!(h.connection, Some(b"keep-alive, upgrade".to_vec()));
    let mut h = HeaderCollection::new();
    h.insert(b"Transfer-Encoding".to_vec(), b"gzip".to_vec());
    h.insert(b"Transfer-Encoding".to_vec(), b"chunked".to_vec());
    assert_eq!(h.transfer_encoding, Some(b"gzip, chunked".to_vec()));
}

#[test]
fn host_with_port_parses() {
    let mut h = HeaderCollection::new();
    h.insert(b"Host".to_vec(), b"example.com:8080".to_vec());
    assert_eq!(
        h.host,
        Some(Host { name: b"example.com".to_vec(), port: Some(8080) })
    );
    let mut out = Vec::new();
    h.write_all(&mut out);
    assert_eq!(out, b"Host: example.com:8080\r\n".to_vec());
}

#[test]
fn host_without_port_parses() {
    let mut h = HeaderCollection::new();
    h.insert(b"host".to_vec(), b"example.com".to_vec());
    assert_eq!(h.host, Some(Host { name: b"example.com".to_vec(), port: None }));
}

#[test]
fn etag_header_parses_into_typed_value() {
    let mut h = HeaderCollection::new();
    h.insert(b"ETag".to_vec(), b"\"xyz\"".to_vec());
    assert_eq!(h.etag, Some(strong_etag(b"xyz".to_vec())));
    let mut out = Vec::new();
    h.write_all(&mut out);
    assert_eq!(out, b"ETag: \"xyz\"\r\n".to_vec());
}

#[test]
fn transfer_encoding_value_kept_verbatim() {
    let mut h = HeaderCollection::new();
    h.insert(b"Transfer-Encoding".to_vec(), b"Chunked".to_vec());
    assert_eq!(h.transfer_encoding, Some(b"Chunked".to_vec()));
}

#[test]
fn unknown_header_preserved_in_order() {
    let mut h = HeaderCollection::new();
    h.insert(b"X-One".to_vec(), b"1".to_vec());
    h.insert(b"X-Two".to_vec(), b"2".to_vec());
    let mut out = Vec::new();
    h.write_all(&mut out);
    assert_eq!(out, b"X-One: 1\r\nX-Two: 2\r\n".to_vec());
}

#[test]
fn repeated_typed_header_keeps_first_and_retains_second() {
    let mut h = HeaderCollection::new();
    h.insert(b"Content-Length".to_vec(), b"1".to_vec());
    h.insert(b"Content-Length".to_vec(), b"2".to_vec());
    assert_eq!(h.content_length, Some(1));
    assert_eq!(h.extensions, vec![(b"Content-Length".to_vec(), b"2".to_vec())]);
}

#[test]
fn typed_values_round_trip_through_wire_form() {
    let mut h = HeaderCollection::new();
    h.insert(b"Host".to_vec(), b"a:1".to_vec());
    h.insert(b"Content-Length".to_vec(), b"7".to_vec());
    h.insert(b"Connection".to_vec(), b"close".to_vec());
    h.insert(b"ETag".to_vec(), b"W/\"t\"".to_vec());
    let mut out = Vec::new();
    h.write_all(&mut out);
    assert_eq!(
        out,
        b"Host: a:1\r\nContent-Length: 7\r\nConnection: close\r\nETag: W/\"t\"\r\n".to_vec()
    );
}

#[test]
fn date_and_server_pass_through_verbatim() {
    let mut h = HeaderCollection::new();
    h.insert(b"Date".to_vec(), b"Tue, 15 Nov 1994 08:12:31 GMT".to_vec());
    h.insert(b"Server".to_vec(), b"Example".to_vec());
    assert_eq!(h.date, Some(b"Tue, 15 Nov 1994 08:12:31 GMT".to_vec()));
    let mut out = Vec::new();
    h.write_all(&mut out);
    assert_eq!(
        out,
        b"Date: Tue, 15 Nov 1994 08:12:31 GMT\r\nServer: Example\r\n".to_vec()
    );
}
