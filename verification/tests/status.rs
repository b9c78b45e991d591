use http::status::{parse_status_line, write_status_line, Status};

#[test]
fn known_codes_have_canonical_reasons_and_categories() {
    let s = Status::from_code(200);
    assert_eq!(s.code, 200);
    assert_eq!(s.reason, "OK");
    assert_eq!(s.category(), 2);
    let s = Status::from_code(404);
    assert_eq!(s.reason, "Not Found");
    assert_eq!(s.category(), 4);
    let s = Status::from_code(505);
    assert_eq!(s.reason, "HTTP Version Not Supported");
    assert_eq!(s.category(), 5);
}

#[test]
fn unknown_code_is_unregistered_with_category() {
    let s = Status::from_code(299);
    assert_eq!(s.reason, "Unregistered");
    assert_eq!(s.category(), 2);
    let s = Status::from_code(499);
    assert_eq!(s.reason, "Unregistered");
    assert_eq!(s.category(), 4);
}

#[test]
fn equality_is_by_code_alone() {
    let a = Status::from_code(299);
    let b = Status {
        code: 299,
        reason: "Whatever".to_string(),
    };
    assert!(a == b);
    assert!(Status::from_code(200) != Status::from_code(204));
}

#[test]
fn parse_status_line_404() {
    let data = b"HTTP/1.1 404 Not Found\r\n".to_vec();
    let mut pos = 0usize;
    let (version, status) = parse_status_line(&data, &mut pos).unwrap();
    assert_eq!(version, (1, 1));
    assert_eq!(status.code, 404);
    assert_eq!(status.reason, "Not Found");
    assert_eq!(status.category(), 4);
    assert_eq!(pos, data.len());
}

#[test]
fn status_line_serializes_zero_padded() {
    let mut out = Vec::new();
    write_status_line(&mut out, &Status::from_code(204)).unwrap();
    assert_eq!(out, b"HTTP/1.1 204 No Content\r\n".to_vec());
    let mut out = Vec::new();
    write_status_line(&mut out, &Status { code: 7, reason: "Odd".to_string() }).unwrap();
    assert_eq!(out, b"HTTP/1.1 007 Odd\r\n".to_vec());
}

#[test]
fn status_line_round_trips() {
    let mut out = Vec::new();
    write_status_line(&mut out, &Status::from_code(503)).unwrap();
    let mut pos = 0usize;
    let (version, status) = parse_status_line(&out, &mut pos).unwrap();
    assert_eq!(version, (1, 1));
    assert_eq!(status.code, 503);
    assert_eq!(status.reason, "Service Unavailable");
}

#[test]
fn malformed_status_lines_fail() {
    for bad in [&b"HTTP/1.1 40 Not Found\r\n"[..], b"HTP/1.1 404 x\r\n", b"HTTP/1.1 404 Not Found"] {
        let data = bad.to_vec();
        let mut pos = 0usize;
        assert!(parse_status_line(&data, &mut pos).is_err());
    }
}
