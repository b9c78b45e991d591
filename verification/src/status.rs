//! Response status codes: the code/reason table, categories, and the
//! status-line codec.
//!
//! A status is a code and a reason phrase; the category is the code divided
//! by 100. A built-in table maps well-known codes to canonical phrases, and
//! every unknown code receives the phrase `Unregistered` while keeping its
//! category. Status equality is by code alone.

use vstd::prelude::*;

use crate::grammar::{crlf_pos, find_crlf, lemma_crlf_pos_at, CR, LF, SP};
use crate::{all_ascii_bytes, ascii_seq, ascii_to_string, bytes_to_chars, HttpError};

verus! {

/// ASCII digit zero.
pub const DIGIT_0: u8 = 48;

/// Full stop, `.`.
pub const DOT: u8 = 46;

/// A decimal digit octet.
pub open spec fn is_digit_byte(b: u8) -> bool {
    48 <= b <= 57
}

/// The canonical reason phrase of a well-known status code.
pub open spec fn canonical_reason_of(code: u16) -> Option<Seq<char>> {
    if code == 100 {
        Some("Continue"@)
    } else if code == 101 {
        Some("Switching Protocols"@)
    } else if code == 200 {
        Some("OK"@)
    } else if code == 201 {
        Some("Created"@)
    } else if code == 202 {
        Some("Accepted"@)
    } else if code == 203 {
        Some("Non-Authoritative Information"@)
    } else if code == 204 {
        Some("No Content"@)
    } else if code == 205 {
        Some("Reset Content"@)
    } else if code == 206 {
        Some("Partial Content"@)
    } else if code == 300 {
        Some("Multiple Choices"@)
    } else if code == 301 {
        Some("Moved Permanently"@)
    } else if code == 302 {
        Some("Found"@)
    } else if code == 303 {
        Some("See Other"@)
    } else if code == 304 {
        Some("Not Modified"@)
    } else if code == 305 {
        Some("Use Proxy"@)
    } else if code == 307 {
        Some("Temporary Redirect"@)
    } else if code == 400 {
        Some("Bad Request"@)
    } else if code == 401 {
        Some("Unauthorized"@)
    } else if code == 402 {
        Some("Payment Required"@)
    } else if code == 403 {
        Some("Forbidden"@)
    } else if code == 404 {
        Some("Not Found"@)
    } else if code == 405 {
        Some("Method Not Allowed"@)
    } else if code == 406 {
        Some("Not Acceptable"@)
    } else if code == 407 {
        Some("Proxy Authentication Required"@)
    } else if code == 408 {
        Some("Request Timeout"@)
    } else if code == 409 {
        Some("Conflict"@)
    } else if code == 410 {
        Some("Gone"@)
    } else if code == 411 {
        Some("Length Required"@)
    } else if code == 412 {
        Some("Precondition Failed"@)
    } else if code == 413 {
        Some("Request Entity Too Large"@)
    } else if code == 414 {
        Some("Request-URI Too Long"@)
    } else if code == 415 {
        Some("Unsupported Media Type"@)
    } else if code == 416 {
        Some("Requested Range Not Satisfiable"@)
    } else if code == 417 {
        Some("Expectation Failed"@)
    } else if code == 500 {
        Some("Internal Server Error"@)
    } else if code == 501 {
        Some("Not Implemented"@)
    } else if code == 502 {
        Some("Bad Gateway"@)
    } else if code == 503 {
        Some("Service Unavailable"@)
    } else if code == 504 {
        Some("Gateway Timeout"@)
    } else if code == 505 {
        Some("HTTP Version Not Supported"@)
    } else {
        None
    }
}

/// The reason phrase a code receives: its canonical phrase, or
/// `Unregistered` for a code outside the table.
pub open spec fn reason_of(code: u16) -> Seq<char> {
    match canonical_reason_of(code) {
        Some(r) => r,
        None => "Unregistered"@,
    }
}

/// A response status: code and reason phrase. Equality is by code alone.
#[derive(Clone, Debug)]
pub struct Status {
    /// The three-digit status code.
    pub code: u16,
    /// The reason phrase sent beside the code.
    pub reason: String,
}

impl PartialEq for Status {
    fn eq(&self, other: &Status) -> (r: bool) {
        self.code == other.code
    }
}

impl vstd::std_specs::cmp::PartialEqSpecImpl for Status {
    open spec fn obeys_eq_spec() -> bool {
        true
    }

    open spec fn eq_spec(&self, other: &Status) -> bool {
        self.code == other.code
    }
}

impl Status {
    /// A status carrying the table's phrase for `code`, or `Unregistered`.
    pub fn from_code(code: u16) -> (r: Status)
        ensures
            r.code == code,
            r.reason@ == reason_of(code),
    {
        let reason = match Status::canonical(code) {
            Some(phrase) => phrase,
            None => String::from_str("Unregistered"),
        };
        Status { code, reason }
    }

    /// The canonical phrase of a well-known code, or nothing.
    pub fn canonical(code: u16) -> (r: Option<String>)
        ensures
            match canonical_reason_of(code) {
                Some(phrase) => r is Some && r->Some_0@ == phrase,
                None => r is None,
            },
    {
        if code == 100 {
            Some(String::from_str("Continue"))
        } else if code == 101 {
            Some(String::from_str("Switching Protocols"))
        } else if code == 200 {
            Some(String::from_str("OK"))
        } else if code == 201 {
            Some(String::from_str("Created"))
        } else if code == 202 {
            Some(String::from_str("Accepted"))
        } else if code == 203 {
            Some(String::from_str("Non-Authoritative Information"))
        } else if code == 204 {
            Some(String::from_str("No Content"))
        } else if code == 205 {
            Some(String::from_str("Reset Content"))
        } else if code == 206 {
            Some(String::from_str("Partial Content"))
        } else if code == 300 {
            Some(String::from_str("Multiple Choices"))
        } else if code == 301 {
            Some(String::from_str("Moved Permanently"))
        } else if code == 302 {
            Some(String::from_str("Found"))
        } else if code == 303 {
            Some(String::from_str("See Other"))
        } else if code == 304 {
            Some(String::from_str("Not Modified"))
        } else if code == 305 {
            Some(String::from_str("Use Proxy"))
        } else if code == 307 {
            Some(String::from_str("Temporary Redirect"))
        } else if code == 400 {
            Some(String::from_str("Bad Request"))
        } else if code == 401 {
            Some(String::from_str("Unauthorized"))
        } else if code == 402 {
            Some(String::from_str("Payment Required"))
        } else if code == 403 {
            Some(String::from_str("Forbidden"))
        } else if code == 404 {
            Some(String::from_str("Not Found"))
        } else if code == 405 {
            Some(String::from_str("Method Not Allowed"))
        } else if code == 406 {
            Some(String::from_str("Not Acceptable"))
        } else if code == 407 {
            Some(String::from_str("Proxy Authentication Required"))
        } else if code == 408 {
            Some(String::from_str("Request Timeout"))
        } else if code == 409 {
            Some(String::from_str("Conflict"))
        } else if code == 410 {
            Some(String::from_str("Gone"))
        } else if code == 411 {
            Some(String::from_str("Length Required"))
        } else if code == 412 {
            Some(String::from_str("Precondition Failed"))
        } else if code == 413 {
            Some(String::from_str("Request Entity Too Large"))
        } else if code == 414 {
            Some(String::from_str("Request-URI Too Long"))
        } else if code == 415 {
            Some(String::from_str("Unsupported Media Type"))
        } else if code == 416 {
            Some(String::from_str("Requested Range Not Satisfiable"))
        } else if code == 417 {
            Some(String::from_str("Expectation Failed"))
        } else if code == 500 {
            Some(String::from_str("Internal Server Error"))
        } else if code == 501 {
            Some(String::from_str("Not Implemented"))
        } else if code == 502 {
            Some(String::from_str("Bad Gateway"))
        } else if code == 503 {
            Some(String::from_str("Service Unavailable"))
        } else if code == 504 {
            Some(String::from_str("Gateway Timeout"))
        } else if code == 505 {
            Some(String::from_str("HTTP Version Not Supported"))
        } else {
            None
        }
    }

    /// The status category: the code divided by 100.
    pub fn category(&self) -> (r: u16)
        ensures
            r == self.code as int / 100,
    {
        self.code / 100
    }
}

/// Every well-known code lies between 100 and 505, so its category is the
/// code divided by 100 and falls in the five defined classes; an unknown
/// code keeps its category the same way and its phrase is `Unregistered`.
pub proof fn lemma_status_category(code: u16)
    ensures
        canonical_reason_of(code) is Some ==> 1 <= code as int / 100 <= 5,
        canonical_reason_of(code) is None ==> reason_of(code) == "Unregistered"@,
{
}

/// A reason phrase the status-line serializer accepts: ASCII, with no
/// carriage return or line feed (either would let a phrase inject header
/// lines).
pub open spec fn clean_reason(s: Seq<char>) -> bool {
    vstd::utf8::is_ascii_chars(s) && forall|i: int|
        0 <= i < s.len() ==> (#[trigger] s[i] as int != 13 && s[i] as int != 10)
}

/// Exec mirror of [`clean_reason`].
pub fn is_clean_reason(s: &String) -> (r: bool)
    ensures
        r == clean_reason(s@),
{
    let st = s.as_str();
    if !st.is_ascii() {
        return false;
    }
    proof {
        vstd::string::is_ascii_spec_bytes(st);
    }
    let bytes = st.as_bytes_vec();
    let mut i: usize = 0;
    while i < bytes.len()
        invariant
            i <= bytes@.len(),
            bytes@.len() == s@.len(),
            forall|j: int| 0 <= j < bytes@.len() ==> bytes@[j] == s@[j] as u8,
            vstd::utf8::is_ascii_chars(s@),
            forall|j: int| 0 <= j < i ==> (#[trigger] s@[j] as int != 13 && s@[j] as int != 10),
        decreases bytes@.len() - i,
    {
        let b = bytes[i];
        if b == 13 || b == 10 {
            proof {
                assert(s@[i as int] as u8 == b);
                assert('\0' <= s@[i as int] <= '\u{7f}');
            }
            return false;
        }
        proof {
            assert(s@[i as int] as u8 == b);
            assert('\0' <= s@[i as int] <= '\u{7f}');
        }
        i += 1;
    }
    true
}

/// Every phrase the table hands out is ASCII without control octets, so
/// any status made by [`Status::from_code`] can be serialized.
pub proof fn lemma_reason_ascii(code: u16)
    ensures
        vstd::utf8::is_ascii_chars(reason_of(code)),
        clean_reason(reason_of(code)),
{
    reveal_strlit("Continue");
    reveal_strlit("Switching Protocols");
    reveal_strlit("OK");
    reveal_strlit("Created");
    reveal_strlit("Accepted");
    reveal_strlit("Non-Authoritative Information");
    reveal_strlit("No Content");
    reveal_strlit("Reset Content");
    reveal_strlit("Partial Content");
    reveal_strlit("Multiple Choices");
    reveal_strlit("Moved Permanently");
    reveal_strlit("Found");
    reveal_strlit("See Other");
    reveal_strlit("Not Modified");
    reveal_strlit("Use Proxy");
    reveal_strlit("Temporary Redirect");
    reveal_strlit("Bad Request");
    reveal_strlit("Unauthorized");
    reveal_strlit("Payment Required");
    reveal_strlit("Forbidden");
    reveal_strlit("Not Found");
    reveal_strlit("Method Not Allowed");
    reveal_strlit("Not Acceptable");
    reveal_strlit("Proxy Authentication Required");
    reveal_strlit("Request Timeout");
    reveal_strlit("Conflict");
    reveal_strlit("Gone");
    reveal_strlit("Length Required");
    reveal_strlit("Precondition Failed");
    reveal_strlit("Request Entity Too Large");
    reveal_strlit("Request-URI Too Long");
    reveal_strlit("Unsupported Media Type");
    reveal_strlit("Requested Range Not Satisfiable");
    reveal_strlit("Expectation Failed");
    reveal_strlit("Internal Server Error");
    reveal_strlit("Not Implemented");
    reveal_strlit("Bad Gateway");
    reveal_strlit("Service Unavailable");
    reveal_strlit("Gateway Timeout");
    reveal_strlit("HTTP Version Not Supported");
    reveal_strlit("Unregistered");
}

/// The three ASCII digits of a code below 1000, zero-padded.
pub open spec fn digits3(code: u16) -> Seq<u8> {
    let c = code as int;
    seq![(48 + c / 100) as u8, (48 + (c / 10) % 10) as u8, (48 + c % 10) as u8]
}

/// The wire form of a status line: `HTTP/1.1 `, the three-digit code, a
/// space, the reason phrase, CRLF.
pub open spec fn status_line_wire(code: u16, reason: Seq<char>) -> Seq<u8> {
    ascii_seq("HTTP/1.1 "@) + digits3(code) + seq![SP] + ascii_seq(reason) + seq![CR, LF]
}

/// Appends the status line for `status` onto `out`.
pub fn write_status_line(out: &mut Vec<u8>, status: &Status) -> (r: Result<(), HttpError>)
    requires
        status.code <= 999,
        clean_reason(status.reason@),
    ensures
        r == Ok::<(), HttpError>(()),
        final(out)@ == old(out)@ + status_line_wire(status.code, status.reason@),
    {
        proof {
            reveal_strlit("HTTP/1.1 ");
        }
        out.push(72);  // H
        out.push(84);  // T
        out.push(84);  // T
        out.push(80);  // P
        out.push(47);  // /
        out.push(49);  // 1
        out.push(DOT);
        out.push(49);  // 1
        out.push(SP);
        let d0: u8 = (status.code / 100) as u8 + DIGIT_0;
        let d1: u8 = ((status.code / 10) % 10) as u8 + DIGIT_0;
        let d2: u8 = (status.code % 10) as u8 + DIGIT_0;
        out.push(d0);
        out.push(d1);
        out.push(d2);
        out.push(SP);
        let reason_str = status.reason.as_str();
        let reason_bytes = reason_str.as_bytes_vec();
        let mut i: usize = 0;
        let ghost head = out@;
        while i < reason_bytes.len()
            invariant
                i <= reason_bytes@.len(),
                out@ == head + reason_bytes@.take(i as int),
            decreases reason_bytes@.len() - i,
        {
            out.push(reason_bytes[i]);
            proof {
                assert(reason_bytes@.take(i + 1) =~= reason_bytes@.take(i as int).push(
                    reason_bytes@[i as int],
                ));
            }
            i += 1;
        }
        out.push(CR);
        out.push(LF);
        proof {
            assert(reason_bytes@.take(reason_bytes@.len() as int) =~= reason_bytes@);
            vstd::string::is_ascii_spec_bytes(reason_str);
            assert(reason_bytes@ =~= ascii_seq(status.reason@));
            assert(final(out)@ =~= old(out)@ + status_line_wire(status.code, status.reason@));
        }
        Ok(())
    }

} // verus!

verus! {

/// The spec-level parse of a status line from the front of `s`: the fixed
/// `HTTP/` prefix, single version digits joined by a dot, a space, three
/// code digits, a space, then an ASCII reason phrase running to the first
/// CRLF. On success: version digit pair, code, reason bytes, and how many
/// bytes the line occupies.
pub open spec fn parse_status_line_spec(s: Seq<u8>) -> Option<((u8, u8), u16, Seq<u8>, nat)> {
    if s.len() >= 13 && s[0] == 72 && s[1] == 84 && s[2] == 84 && s[3] == 80 && s[4] == 47
        && is_digit_byte(s[5]) && s[6] == DOT && is_digit_byte(s[7]) && s[8] == SP && is_digit_byte(
        s[9],
    ) && is_digit_byte(s[10]) && is_digit_byte(s[11]) && s[12] == SP {
        match crlf_pos(s.skip(13)) {
            Some(k) => {
                let reason = s.skip(13).take(k as int);
                if all_ascii_bytes(reason) {
                    Some(
                        (
                            ((s[5] - 48) as u8, (s[7] - 48) as u8),
                            ((s[9] as int - 48) * 100 + (s[10] as int - 48) * 10 + (s[11] as int
                                - 48)) as u16,
                            reason,
                            (13 + k + 2) as nat,
                        ),
                    )
                } else {
                    None
                }
            },
            None => None,
        }
    } else {
        None
    }
}

/// Parses a status line at `*pos` in `data`, consuming it through the CRLF.
///
/// The result is pinned by [`parse_status_line_spec`]: on a well-formed
/// line the version digits, the code, and the reason phrase are returned
/// and exactly the line's bytes are consumed; on anything else `Malformed`.
#[verifier::loop_isolation(false)]
pub fn parse_status_line(data: &Vec<u8>, pos: &mut usize) -> (r: Result<
    ((u8, u8), Status),
    HttpError,
>)
    requires
        *old(pos) <= data@.len(),
    ensures
        *old(pos) <= *final(pos) <= data@.len(),
        match parse_status_line_spec(data@.skip(*old(pos) as int)) {
            Some(p) => r is Ok && r->Ok_0.0 == p.0 && r->Ok_0.1.code == p.1
                && r->Ok_0.1.reason@ == bytes_to_chars(p.2) && *final(pos) == *old(pos) + p.3,
            None => r == Err::<((u8, u8), Status), HttpError>(HttpError::Malformed),
        },
{
    let ghost s = data@.skip(*old(pos) as int);
    let start = *pos;
    if data.len() - start < 13 {
        return Err(HttpError::Malformed);
    }
    let ok_prefix = data[start] == 72 && data[start + 1] == 84 && data[start + 2] == 84
        && data[start + 3] == 80 && data[start + 4] == 47;
    let b5 = data[start + 5];
    let b6 = data[start + 6];
    let b7 = data[start + 7];
    let b8 = data[start + 8];
    let b9 = data[start + 9];
    let b10 = data[start + 10];
    let b11 = data[start + 11];
    let b12 = data[start + 12];
    if !(ok_prefix && DIGIT_0 <= b5 && b5 <= 57 && b6 == DOT && DIGIT_0 <= b7 && b7 <= 57 && b8
        == SP && DIGIT_0 <= b9 && b9 <= 57 && DIGIT_0 <= b10 && b10 <= 57 && DIGIT_0 <= b11 && b11
        <= 57 && b12 == SP) {
        return Err(HttpError::Malformed);
    }
    let crlf = match find_crlf(data, start + 13) {
        Some(at) => at,
        None => {
            proof {
                assert(s.skip(13) =~= data@.skip(start + 13));
            }
            return Err(HttpError::Malformed);
        },
    };
    proof {
        assert(s.skip(13) =~= data@.skip(start + 13));
    }
    let ghost k = crlf - (start + 13);
    let mut reason_bytes: Vec<u8> = Vec::new();
    let mut i: usize = start + 13;
    while i < crlf
        invariant
            start + 13 <= i <= crlf,
            reason_bytes@ == data@.subrange(start + 13, i as int),
            crate::all_ascii_bytes(reason_bytes@),
        decreases crlf - i,
    {
        let b = data[i];
        if b >= 128 {
            proof {
                let j = i - (start + 13);
                assert(s.skip(13).take(k as int)[j] == data@[i as int]);
            }
            return Err(HttpError::Malformed);
        }
        reason_bytes.push(b);
        proof {
            assert(reason_bytes@ =~= data@.subrange(start + 13, i + 1));
        }
        i += 1;
    }
    proof {
        assert(reason_bytes@ =~= s.skip(13).take(k as int));
    }
    let code: u16 = ((b9 - DIGIT_0) as u16) * 100 + ((b10 - DIGIT_0) as u16) * 10 + ((b11
        - DIGIT_0) as u16);
    let reason = ascii_to_string(reason_bytes);
    *pos = crlf + 2;
    Ok(((b5 - DIGIT_0, b7 - DIGIT_0), Status { code, reason }))
}

/// Round trip for status lines: serializing any code up to three digits
/// with an ASCII reason phrase free of carriage returns and line feeds, and
/// parsing the result, gives back the code, the reason, and an `HTTP/1.1`
/// version marker, consuming the whole line.
pub proof fn lemma_status_line_round_trip(code: u16, reason: Seq<char>)
    requires
        code <= 999,
        vstd::utf8::is_ascii_chars(reason),
        forall|i: int| 0 <= i < reason.len() ==> #[trigger] reason[i] as int != 13,
    ensures
        parse_status_line_spec(status_line_wire(code, reason)) == Some(
            ((1u8, 1u8), code, ascii_seq(reason), status_line_wire(code, reason).len() as nat),
        ),
{
    reveal_strlit("HTTP/1.1 ");
    let wire = status_line_wire(code, reason);
    let tail = wire.skip(13);
    assert(tail =~= ascii_seq(reason) + seq![CR, LF]);
    let k = reason.len() as nat;
    assert(tail[k as int] == CR);
    assert(tail[k as int + 1] == LF);
    assert forall|j: int| 0 <= j < k implies !(#[trigger] tail[j] == CR && tail[j + 1] == LF) by {
        assert(tail[j] == reason[j] as u8);
        assert('\0' <= reason[j] <= '\u{7f}');
    }
    lemma_crlf_pos_at(tail, k);
    assert(tail.take(k as int) =~= ascii_seq(reason));
    assert forall|i: int| 0 <= i < k implies #[trigger] ascii_seq(reason)[i] < 128 by {
        assert('\0' <= reason[i] <= '\u{7f}');
    }
    let c = code as int;
    assert(wire[9] == (48 + c / 100) as u8);
    assert((wire[9] as int - 48) * 100 + (wire[10] as int - 48) * 10 + (wire[11] as int - 48)
        == c) by (nonlinear_arith)
        requires
            0 <= c <= 999,
            wire[9] as int == 48 + c / 100,
            wire[10] as int == 48 + (c / 10) % 10,
            wire[11] as int == 48 + c % 10,
    ;
    assert(wire.len() == 13 + k + 2);
}

} // verus!
