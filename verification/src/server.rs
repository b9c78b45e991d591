//! The server side: the per-connection keep-alive engine and the
//! configuration and performance-accounting types around it.
//!
//! Listening, accepting and thread spawning are the embedding
//! application's work; the engine here takes a connection's inbound bytes
//! and produces its outbound bytes, one request and one response at a
//! time, strictly in order, until the connection is told to close or the
//! input ends.

use vstd::prelude::*;

use crate::headers::collection::{empty_model, HeaderModel};
use crate::request::{derive_close, request_spec, Request};
use crate::response::{head_wire, force_framing, ResponseWriter};
use crate::status::{lemma_reason_ascii, reason_of, Status};
use crate::SocketAddress;

verus! {

/// The necessary configuration for a server: the address to bind.
#[derive(Clone, Copy, PartialEq, Eq, Structural, Debug)]
pub struct Config {
    /// The IP address and port to bind to.
    pub bind_address: SocketAddress,
}

/// A server: the embedding application implements the handler and names
/// the configuration; the connection engine here does the rest.
pub trait Server: Sized {
    /// Handles one parsed request by writing into the response.
    fn handle_request(&self, request: Request, response: &mut ResponseWriter);

    /// The configuration to serve under.
    fn get_config(&self) -> Config;
}

/// What a connection does once a response is finalized.
#[derive(Clone, Copy, PartialEq, Eq, Structural, Debug)]
pub enum ConnectionDecision {
    /// Close the connection: no further request is read.
    Done,
    /// Hold the connection open and read the next request.
    AwaitingRequest,
}

/// The keep-alive rule, in one place: a finalized response is followed by
/// another request exactly when neither the request nor the response asked
/// to close and the input has more to give.
pub fn after_response(request_close: bool, response_close: bool, input_exhausted: bool) -> (r:
    ConnectionDecision)
    ensures
        r == if request_close || response_close || input_exhausted {
            ConnectionDecision::Done
        } else {
            ConnectionDecision::AwaitingRequest
        },
{
    if request_close || response_close || input_exhausted {
        ConnectionDecision::Done
    } else {
        ConnectionDecision::AwaitingRequest
    }
}

/// The headers of a synthesized error response: only `Content-Length: 0`.
pub open spec fn error_headers_model() -> HeaderModel {
    HeaderModel { content_length: Some(0u64), ..empty_model() }
}

/// The bytes of the minimal response the engine emits for a request it
/// could not parse: the status head with `Content-Length: 0` and no body.
/// This synthesized response carries no `Date`, so its bytes stay exactly
/// pinned; the current-time default applies to handler responses.
pub open spec fn error_response_wire(code: u16) -> Seq<u8> {
    head_wire(code, reason_of(code), error_headers_model())
}

/// Emits the minimal error response for `code` and returns its bytes.
fn emit_error_response(code: u16) -> (r: Vec<u8>)
    requires
        code <= 999,
    ensures
        r@ == error_response_wire(code),
{
    let mut resp = ResponseWriter::new();
    resp.set_status(Status::from_code(code));
    resp.set_content_length(Some(0));
    proof {
        lemma_reason_ascii(code);
        assert(resp.spec_headers() =~= error_headers_model());
    }
    let _ = resp.write_headers();
    let _ = resp.finish_response();
    proof {
        assert(force_framing(error_headers_model()) =~= error_headers_model());
        assert(resp.emitted() =~= error_response_wire(code));
    }
    resp.into_bytes()
}

/// Runs one connection: parses requests from `input` in order, stamps each
/// with the peer's address, hands each to the server's handler with a
/// fresh response writer carrying the current time as its default `Date`
/// (the handler's own value wins when it sets one), forces the head and
/// the finalization of every response, and stops after the first response
/// whose request or whose writer demands closing, or when the input ends.
///
/// Returns the connection's outbound bytes and how many responses they
/// hold. When the very first request is malformed, the output is pinned:
/// exactly the minimal error response for the status that
/// [`request_spec`] assigns, and nothing more. When the very first
/// request itself demands closing, exactly one response goes out and no
/// second request is read, whatever the handler does.
#[verifier::loop_isolation(false)]
#[verifier::rlimit(100)]
pub fn handle_connection<S: Server>(
    server: &S,
    input: &Vec<u8>,
    peer: Option<SocketAddress>,
) -> (r: (Vec<u8>, usize))
    ensures
        match request_spec(input@) {
            Err(code) => r.0@ == error_response_wire(code) && r.1 == 1,
            Ok(rm) => derive_close(
                rm.version,
                crate::headers::collection::collection_of(rm.lines).connection,
            ) ==> r.1 == 1,
        },
{
    proof {
        assert(input@.skip(0) =~= input@);
    }
    let mut out_all: Vec<u8> = Vec::new();
    let mut pos: usize = 0;
    let mut count: usize = 0;
    loop
        invariant
            pos <= input@.len(),
            count <= pos,
            request_spec(input@) is Err ==> pos == 0 && out_all@ == Seq::<u8>::empty() && count
                == 0,
            (request_spec(input@) matches Ok(rm) && derive_close(
                rm.version,
                crate::headers::collection::collection_of(rm.lines).connection,
            )) ==> pos == 0 && count == 0,
        decreases input@.len() - pos,
    {
        let ghost pos0 = pos;
        let (mut request, err_status) = Request::load(input, &mut pos);
        request.remote_addr = peer;
        match err_status {
            Ok(()) => {
                let close_req = request.close_connection;
                let mut response = ResponseWriter::new();
                response.set_date_if_unset(crate::date::current_imf_date());
                server.handle_request(request, &mut response);
                let head_ok = match response.try_write_headers() {
                    Ok(()) => true,
                    Err(_) => false,
                };
                let fin_ok = match response.finish_response() {
                    Ok(()) => true,
                    Err(_) => false,
                };
                let close_resp = response.close_after();
                let mut bytes = response.into_bytes();
                out_all.append(&mut bytes);
                proof {
                    let rm = request_spec(input@.skip(pos0 as int))->Ok_0;
                    assert(rm.consumed > 0);
                }
                count += 1;
                if !head_ok || !fin_ok {
                    return (out_all, count);
                }
                match after_response(close_req, close_resp, pos == input.len()) {
                    ConnectionDecision::Done => {
                        return (out_all, count);
                    },
                    ConnectionDecision::AwaitingRequest => {},
                }
            },
            Err(status) => {
                let code = status.code;
                proof {
                    if request_spec(input@) is Err {
                        assert(code == request_spec(input@)->Err_0);
                        assert(code <= 999);
                    }
                }
                if code <= 999 {
                    let mut bytes = emit_error_response(code);
                    out_all.append(&mut bytes);
                    if count < usize::MAX {
                        count += 1;
                    }
                    proof {
                        if request_spec(input@) is Err {
                            assert(out_all@ =~= error_response_wire(code));
                        }
                    }
                }
                return (out_all, count);
            },
        }
    }
}

/// Runs exactly one request from `input`, as the single-request server
/// does after its one accept: parse, handle, force head and finalization,
/// and hand back the response bytes beside whether the connection must
/// close. The malformed-request output is pinned as in
/// [`handle_connection`].
pub fn handle_one<S: Server>(
    server: &S,
    input: &Vec<u8>,
    peer: Option<SocketAddress>,
) -> (r: (Vec<u8>, bool))
    ensures
        match request_spec(input@) {
            Err(code) => r.0@ == error_response_wire(code) && r.1 == true,
            Ok(rm) => derive_close(
                rm.version,
                crate::headers::collection::collection_of(rm.lines).connection,
            ) ==> r.1 == true,
        },
{
    proof {
        assert(input@.skip(0) =~= input@);
    }
    let mut pos: usize = 0;
    let (mut request, err_status) = Request::load(input, &mut pos);
    request.remote_addr = peer;
    match err_status {
        Ok(()) => {
            let close_req = request.close_connection;
            let mut response = ResponseWriter::new();
            response.set_date_if_unset(crate::date::current_imf_date());
            server.handle_request(request, &mut response);
            let _ = response.try_write_headers();
            let _ = response.finish_response();
            let close_resp = response.close_after();
            (response.into_bytes(), close_req || close_resp)
        },
        Err(status) => {
            let code = status.code;
            proof {
                if request_spec(input@) is Err {
                    assert(code == request_spec(input@)->Err_0);
                    assert(code <= 999);
                }
            }
            if code <= 999 {
                (emit_error_response(code), true)
            } else {
                (Vec::new(), true)
            }
        },
    }
}

/// Totals of the per-request timing samples: how long each phase of
/// request handling took, summed, saturating, plus the sample count.
#[derive(Clone, Copy, PartialEq, Eq, Structural, Debug)]
pub struct PerfStats {
    /// Summed time from accept to worker start.
    pub td_spawn: u64,
    /// Summed time spent parsing requests.
    pub td_request: u64,
    /// Summed time spent initializing responses.
    pub td_response: u64,
    /// Summed time spent in handlers and finalization.
    pub td_handle: u64,
    /// Summed total time per request.
    pub td_total: u64,
    /// How many samples went in.
    pub count: u64,
}

/// Addition on the sample totals that stops at the top instead of
/// wrapping.
pub open spec fn sat_add(a: u64, b: int) -> u64 {
    if a + b > u64::MAX {
        u64::MAX
    } else {
        (a + b) as u64
    }
}

impl PerfStats {
    /// All totals at zero.
    pub fn new() -> (r: PerfStats)
        ensures
            r == (PerfStats {
                td_spawn: 0u64,
                td_request: 0u64,
                td_response: 0u64,
                td_handle: 0u64,
                td_total: 0u64,
                count: 0u64,
            }),
    {
        PerfStats {
            td_spawn: 0,
            td_request: 0,
            td_response: 0,
            td_handle: 0,
            td_total: 0,
            count: 0,
        }
    }

    /// Folds in one sample: the five instants of one request, in
    /// monotonic nanoseconds and in order — accepted, worker started,
    /// request parsed, response initialized, response finished.
    pub fn add(&mut self, sample: (u64, u64, u64, u64, u64))
        requires
            sample.0 <= sample.1 <= sample.2 <= sample.3 <= sample.4,
        ensures
            final(self).td_spawn == sat_add(old(self).td_spawn, sample.1 - sample.0),
            final(self).td_request == sat_add(old(self).td_request, sample.2 - sample.1),
            final(self).td_response == sat_add(old(self).td_response, sample.3 - sample.2),
            final(self).td_handle == sat_add(old(self).td_handle, sample.4 - sample.3),
            final(self).td_total == sat_add(old(self).td_total, sample.4 - sample.0),
            final(self).count == sat_add(old(self).count, 1),
    {
        let (start, spawned, request_made, response_made, finished) = sample;
        self.td_spawn = sat_add_exec(self.td_spawn, spawned - start);
        self.td_request = sat_add_exec(self.td_request, request_made - spawned);
        self.td_response = sat_add_exec(self.td_response, response_made - request_made);
        self.td_handle = sat_add_exec(self.td_handle, finished - response_made);
        self.td_total = sat_add_exec(self.td_total, finished - start);
        self.count = sat_add_exec(self.count, 1);
    }

    /// Whether a summary is due: every ten-thousandth sample.
    pub fn should_dump(&self) -> (r: bool)
        ensures
            r == (self.count > 0 && self.count as int % 10000 == 0),
    {
        self.count > 0 && self.count % 10000 == 0
    }
}

/// Exec mirror of [`sat_add`].
fn sat_add_exec(a: u64, b: u64) -> (r: u64)
    ensures
        r == sat_add(a, b as int),
{
    if a <= u64::MAX - b {
        a + b
    } else {
        u64::MAX
    }
}

} // verus!
