use http::method::Method;
use http::request::Request;

#[test]
fn simple_request_parses() {
    let data = b"GET /index.html HTTP/1.1\r\nHost: x\r\n\r\n".to_vec();
    let mut pos = 0usize;
    let (req, st) = Request::load(&data, &mut pos);
    assert!(st.is_ok());
    assert_eq!(req.method, Method::Get);
    assert_eq!(req.uri, b"/index.html".to_vec());
    assert_eq!(req.version, (1, 1));
    assert_eq!(req.headers.host.as_ref().unwrap().name, b"x".to_vec());
    assert_eq!(req.close_connection, false);
    assert_eq!(pos, data.len());
}

#[test]
fn content_length_frames_exactly_n_body_bytes() {
    let data = b"POST /u HTTP/1.1\r\nContent-Length: 5\r\n\r\nhelloEXTRA".to_vec();
    let mut pos = 0usize;
    let (req, st) = Request::load(&data, &mut pos);
    assert!(st.is_ok());
    assert_eq!(req.body, b"hello".to_vec());
    assert_eq!(req.body.len(), 5);
    assert_eq!(&data[pos..], b"EXTRA");
}

#[test]
fn short_body_is_bad_request() {
    let data = b"POST /u HTTP/1.1\r\nContent-Length: 5\r\n\r\nhi".to_vec();
    let mut pos = 0usize;
    let (req, st) = Request::load(&data, &mut pos);
    assert_eq!(st.unwrap_err().code, 400);
    assert!(req.close_connection);
}

#[test]
fn http10_defaults_to_close() {
    let data = b"GET / HTTP/1.0\r\n\r\n".to_vec();
    let mut pos = 0usize;
    let (req, st) = Request::load(&data, &mut pos);
    assert!(st.is_ok());
    assert!(req.close_connection);
}

#[test]
fn http10_keep_alive_stays_open() {
    let data = b"GET / HTTP/1.0\r\nConnection: keep-alive\r\n\r\n".to_vec();
    let mut pos = 0usize;
    let (req, st) = Request::load(&data, &mut pos);
    assert!(st.is_ok());
    assert!(!req.close_connection);
}

#[test]
fn http11_close_header_closes() {
    let data = b"GET / HTTP/1.1\r\nConnection: close\r\n\r\n".to_vec();
    let mut pos = 0usize;
    let (req, st) = Request::load(&data, &mut pos);
    assert!(st.is_ok());
    assert!(req.close_connection);
}

#[test]
fn foreign_major_version_is_505() {
    let data = b"GET / HTTP/2.0\r\n\r\n".to_vec();
    let mut pos = 0usize;
    let (_, st) = Request::load(&data, &mut pos);
    assert_eq!(st.unwrap_err().code, 505);
}

#[test]
fn over_long_target_is_414() {
    let mut data = b"GET /".to_vec();
    data.extend(std::iter::repeat(b'a').take(9000));
    data.extend_from_slice(b" HTTP/1.1\r\n\r\n");
    let mut pos = 0usize;
    let (_, st) = Request::load(&data, &mut pos);
    assert_eq!(st.unwrap_err().code, 414);
}

#[test]
fn control_byte_in_target_is_400() {
    let data = b"GET /a\x01b HTTP/1.1\r\n\r\n".to_vec();
    let mut pos = 0usize;
    let (_, st) = Request::load(&data, &mut pos);
    assert_eq!(st.unwrap_err().code, 400);
}

#[test]
fn folded_header_value_joins_with_space() {
    let data = b"GET / HTTP/1.1\r\nX-Note: one\r\n \t two\r\n\r\n".to_vec();
    let mut pos = 0usize;
    let (req, st) = Request::load(&data, &mut pos);
    assert!(st.is_ok());
    assert_eq!(req.headers.extensions, vec![(b"X-Note".to_vec(), b"one two".to_vec())]);
}

#[test]
fn unparsable_typed_header_is_demoted_not_fatal() {
    let data = b"GET / HTTP/1.1\r\nContent-Length: ten\r\n\r\n".to_vec();
    let mut pos = 0usize;
    let (req, st) = Request::load(&data, &mut pos);
    assert!(st.is_ok());
    assert_eq!(req.headers.content_length, None);
    assert_eq!(req.headers.extensions, vec![(b"Content-Length".to_vec(), b"ten".to_vec())]);
}

#[test]
fn keep_alive_token_in_list_keeps_http10_open() {
    let data = b"GET / HTTP/1.0\r\nConnection: Keep-Alive, upgrade\r\n\r\n".to_vec();
    let mut pos = 0usize;
    let (req, st) = Request::load(&data, &mut pos);
    assert!(st.is_ok());
    assert!(!req.close_connection);
}

#[test]
fn close_token_in_folded_list_closes_http11() {
    let data =
        b"GET / HTTP/1.1\r\nConnection: upgrade\r\nConnection: close\r\n\r\n".to_vec();
    let mut pos = 0usize;
    let (req, st) = Request::load(&data, &mut pos);
    assert!(st.is_ok());
    assert_eq!(req.headers.connection, Some(b"upgrade, close".to_vec()));
    assert!(req.close_connection);
}

#[test]
fn multi_coded_transfer_encoding_ending_chunked_frames_chunks() {
    let data =
        b"POST /u HTTP/1.1\r\nTransfer-Encoding: gzip, chunked\r\n\r\n2\r\nok\r\n0\r\n\r\n"
            .to_vec();
    let mut pos = 0usize;
    let (req, st) = Request::load(&data, &mut pos);
    assert!(st.is_ok());
    assert_eq!(req.body, b"ok".to_vec());
    assert_eq!(pos, data.len());
}

#[test]
fn chunked_body_is_reassembled() {
    let data =
        b"POST /u HTTP/1.1\r\nTransfer-Encoding: chunked\r\n\r\n5\r\nhello\r\n7\r\n, world\r\n0\r\n\r\nX"
            .to_vec();
    let mut pos = 0usize;
    let (req, st) = Request::load(&data, &mut pos);
    assert!(st.is_ok());
    assert_eq!(req.body, b"hello, world".to_vec());
    assert_eq!(&data[pos..], b"X");
}

#[test]
fn chunked_overrides_content_length() {
    let data =
        b"POST /u HTTP/1.1\r\nContent-Length: 3\r\nTransfer-Encoding: chunked\r\n\r\n2\r\nok\r\n0\r\n\r\n"
            .to_vec();
    let mut pos = 0usize;
    let (req, st) = Request::load(&data, &mut pos);
    assert!(st.is_ok());
    assert_eq!(req.body, b"ok".to_vec());
    assert_eq!(pos, data.len());
}

#[test]
fn chunked_trailers_are_discarded() {
    let data =
        b"POST /u HTTP/1.1\r\nTransfer-Encoding: chunked\r\n\r\n1\r\nz\r\n0\r\nExpires: never\r\n\r\n"
            .to_vec();
    let mut pos = 0usize;
    let (req, st) = Request::load(&data, &mut pos);
    assert!(st.is_ok());
    assert_eq!(req.body, b"z".to_vec());
    assert_eq!(pos, data.len());
}

#[test]
fn malformed_chunk_size_is_400() {
    let data = b"POST /u HTTP/1.1\r\nTransfer-Encoding: chunked\r\n\r\nzz\r\n".to_vec();
    let mut pos = 0usize;
    let (_, st) = Request::load(&data, &mut pos);
    assert_eq!(st.unwrap_err().code, 400);
}
