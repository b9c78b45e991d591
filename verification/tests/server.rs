use http::request::Request;
use http::response::ResponseWriter;
use http::server::{after_response, handle_connection, handle_one, Config, ConnectionDecision, PerfStats, Server};
use http::SocketAddress;

#[derive(Clone)]
struct HelloServer;

impl Server for HelloServer {
    fn handle_request(&self, _request: Request, response: &mut ResponseWriter) {
        response.write(b"hi\n").unwrap();
    }

    fn get_config(&self) -> Config {
        Config {
            bind_address: SocketAddress { ip0: 127, ip1: 0, ip2: 0, ip3: 1, port: 8001 },
        }
    }
}

#[derive(Clone)]
struct SizedServer;

impl Server for SizedServer {
    fn handle_request(&self, _request: Request, response: &mut ResponseWriter) {
        response.headers.content_length = Some(3);
        response.write(b"ok\n").unwrap();
    }

    fn get_config(&self) -> Config {
        Config {
            bind_address: SocketAddress { ip0: 127, ip1: 0, ip2: 0, ip3: 1, port: 8001 },
        }
    }
}

fn text(bytes: &[u8]) -> String {
    String::from_utf8(bytes.to_vec()).unwrap()
}

#[test]
fn response_without_length_forces_connection_close() {
    let input = b"GET / HTTP/1.0\r\n\r\n".to_vec();
    let (out, _n) = handle_connection(&HelloServer, &input, None);
    let s = text(&out);
    assert!(s.starts_with("HTTP/1.1 200 OK\r\n"));
    assert!(s.contains("Connection: close\r\n"));
    assert!(s.ends_with("\r\n\r\nhi\n"));
}

#[test]
fn close_in_first_request_stops_after_one_response() {
    let input = b"GET / HTTP/1.1\r\nHost: x\r\nConnection: close\r\n\r\nGET / HTTP/1.1\r\nHost: x\r\n\r\n"
        .to_vec();
    let (out, n) = handle_connection(&SizedServer, &input, None);
    let s = text(&out);
    assert_eq!(n, 1);
    assert_eq!(s.matches("HTTP/1.1 200 OK").count(), 1);
}

#[test]
fn keep_alive_serves_two_requests_in_order() {
    let input =
        b"GET /a HTTP/1.1\r\nHost: x\r\n\r\nGET /b HTTP/1.1\r\nHost: x\r\n\r\n".to_vec();
    let (out, n) = handle_connection(&SizedServer, &input, None);
    let s = text(&out);
    assert_eq!(n, 2);
    assert_eq!(s.matches("HTTP/1.1 200 OK\r\nDate: ").count(), 2);
    assert_eq!(s.matches("Content-Length: 3\r\n\r\nok\n").count(), 2);
    assert!(s.starts_with("HTTP/1.1 200 OK\r\nDate: "));
    assert!(s.ends_with("Content-Length: 3\r\n\r\nok\n"));
}

#[test]
fn handler_responses_receive_a_date_header() {
    let input = b"GET / HTTP/1.0\r\n\r\n".to_vec();
    let (out, _n) = handle_connection(&HelloServer, &input, None);
    let s = text(&out);
    assert_eq!(s.matches("\r\nDate: ").count(), 1);
    assert!(s.contains(" GMT\r\n"));
}

#[test]
fn malformed_request_gets_minimal_400_and_close() {
    let input = b"garbage\r\n\r\n".to_vec();
    let (out, n) = handle_connection(&SizedServer, &input, None);
    let s = text(&out);
    assert_eq!(n, 1);
    assert_eq!(s, "HTTP/1.1 400 Bad Request\r\nContent-Length: 0\r\n\r\n");
}

#[test]
fn handle_one_serves_exactly_one_request() {
    let input =
        b"GET /a HTTP/1.1\r\nHost: x\r\n\r\nGET /b HTTP/1.1\r\nHost: x\r\n\r\n".to_vec();
    let (out, close) = handle_one(&SizedServer, &input, None);
    let s = text(&out);
    assert_eq!(s.matches("HTTP/1.1 200 OK").count(), 1);
    assert!(!close);
}

#[test]
fn perf_stats_accumulate_phases() {
    let mut stats = PerfStats::new();
    stats.add((10, 12, 15, 19, 24));
    assert_eq!(stats.td_spawn, 2);
    assert_eq!(stats.td_request, 3);
    assert_eq!(stats.td_response, 4);
    assert_eq!(stats.td_handle, 5);
    assert_eq!(stats.td_total, 14);
    assert_eq!(stats.count, 1);
    assert!(!stats.should_dump());
}

#[test]
fn keep_alive_decision_table() {
    assert_eq!(after_response(false, false, false), ConnectionDecision::AwaitingRequest);
    assert_eq!(after_response(true, false, false), ConnectionDecision::Done);
    assert_eq!(after_response(false, true, false), ConnectionDecision::Done);
    assert_eq!(after_response(false, false, true), ConnectionDecision::Done);
}
