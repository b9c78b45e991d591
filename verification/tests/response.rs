use http::response::ResponseWriter;
use http::status::Status;
use http::HttpError;

fn text(bytes: &[u8]) -> String {
    String::from_utf8(bytes.to_vec()).unwrap()
}

#[test]
fn headers_written_exactly_once() {
    let mut w = ResponseWriter::new();
    w.headers.content_length = Some(2);
    w.try_write_headers().unwrap();
    w.try_write_headers().unwrap();
    w.write(b"ab").unwrap();
    w.finish_response().unwrap();
    let s = text(&w.into_bytes());
    assert_eq!(s, "HTTP/1.1 200 OK\r\nContent-Length: 2\r\n\r\nab");
}

#[test]
fn write_after_finish_is_already_finalized() {
    let mut w = ResponseWriter::new();
    w.headers.content_length = Some(0);
    w.finish_response().unwrap();
    assert_eq!(w.write(b"late"), Err(HttpError::AlreadyFinalized));
    assert_eq!(w.finish_response(), Err(HttpError::AlreadyFinalized));
}

#[test]
fn missing_length_forces_close_header() {
    let mut w = ResponseWriter::new();
    w.write(b"body").unwrap();
    w.finish_response().unwrap();
    let s = text(&w.into_bytes());
    assert_eq!(s, "HTTP/1.1 200 OK\r\nConnection: close\r\n\r\nbody");
}

#[test]
fn chunked_framing_wraps_each_write() {
    let mut w = ResponseWriter::new();
    w.headers.transfer_encoding = Some(b"chunked".to_vec());
    w.write(b"hello, ").unwrap();
    w.write(b"world").unwrap();
    w.finish_response().unwrap();
    let s = text(&w.into_bytes());
    assert_eq!(
        s,
        "HTTP/1.1 200 OK\r\nTransfer-Encoding: chunked\r\n\r\n7\r\nhello, \r\n5\r\nworld\r\n0\r\n\r\n"
    );
}

#[test]
fn custom_status_goes_on_the_wire() {
    let mut w = ResponseWriter::new();
    w.status = Status::from_code(404);
    w.headers.content_length = Some(0);
    w.finish_response().unwrap();
    let s = text(&w.into_bytes());
    assert_eq!(s, "HTTP/1.1 404 Not Found\r\nContent-Length: 0\r\n\r\n");
}
