//! Response building: status line and header emission, body framing, and
//! forced finalization.
//!
//! A writer moves through three states. While pristine, the
//! status and headers may be changed freely; the first body write, or an
//! explicit header write, emits the head exactly once. When no
//! `Content-Length` is set and the framing is not chunked, the body can
//! only be delimited by closing the connection, so `Connection: close` is
//! forced onto the headers and the writer remembers to close. After
//! finalization every mutation fails with `AlreadyFinalized`.

use vstd::prelude::*;

use crate::grammar::{CR, LF};
use crate::headers::collection::{
    collection_chunked, headers_chunked, headers_wire, HeaderCollection, HeaderModel,
};
use crate::{ascii_seq, lemma_lit_bytes};
use crate::status::{reason_of, status_line_wire, Status};
use crate::HttpError;

verus! {

/// Where a response stands in its lifecycle.
#[derive(Clone, Copy, PartialEq, Eq, Structural, Debug)]
pub enum ResponseState {
    /// Nothing emitted; status and headers still mutable.
    Pristine,
    /// Status line and headers emitted; body bytes may follow.
    HeadersSent,
    /// Response complete; every further mutation fails.
    Finalized,
}

/// The hexadecimal digits of a non-negative number, lowercase, no leading
/// zeros.
pub open spec fn hex_u64(n: int) -> Seq<u8>
    decreases n,
{
    if n <= 0 {
        seq![48u8]
    } else if n < 16 {
        seq![hex_digit(n)]
    } else {
        hex_u64(n / 16) + seq![hex_digit(n % 16)]
    }
}

/// One hexadecimal digit, lowercase.
pub open spec fn hex_digit(d: int) -> u8 {
    if d < 10 {
        (48 + d) as u8
    } else {
        (87 + d) as u8
    }
}

/// Appends the hexadecimal digits of `n` onto `out`.
pub fn push_hex_u64(out: &mut Vec<u8>, n: u64)
    ensures
        final(out)@ == old(out)@ + hex_u64(n as int),
    decreases n,
{
    if n == 0 {
        out.push(48);
        proof {
            assert(final(out)@ =~= old(out)@ + hex_u64(n as int));
        }
    } else if n < 16 {
        let d = n as u8;
        out.push(
            if d < 10 {
                48 + d
            } else {
                87 + d
            },
        );
        proof {
            assert(final(out)@ =~= old(out)@ + hex_u64(n as int));
        }
    } else {
        proof {
            assert(n / 16 < n) by (nonlinear_arith)
                requires
                    n >= 16,
            ;
        }
        push_hex_u64(out, n / 16);
        let d = (n % 16) as u8;
        out.push(
            if d < 10 {
                48 + d
            } else {
                87 + d
            },
        );
        proof {
            assert(final(out)@ =~= old(out)@ + hex_u64(n as int));
        }
    }
}

/// One chunk of a chunked body: the length in hexadecimal, CRLF, the
/// bytes, CRLF.
pub open spec fn chunk_wire(b: Seq<u8>) -> Seq<u8> {
    hex_u64(b.len() as int) + seq![CR, LF] + b + seq![CR, LF]
}

/// The terminator of a chunked body: a zero-length chunk and the empty
/// trailer section.
pub open spec fn chunked_end_wire() -> Seq<u8> {
    seq![48u8, CR, LF, CR, LF]
}

/// The framing adjustment made when headers are emitted: without a
/// `Content-Length` and without chunked framing, the body can only end
/// with the connection, so `Connection: close` is forced.
pub open spec fn force_framing(m: HeaderModel) -> HeaderModel {
    if m.content_length is None && !headers_chunked(m) {
        HeaderModel { connection: Some(ascii_seq("close"@)), ..m }
    } else {
        m
    }
}

/// Whether emitting headers for `m` forces the connection closed.
pub open spec fn framing_forces_close(m: HeaderModel) -> bool {
    m.content_length is None && !headers_chunked(m)
}

/// The full response head: status line, headers, blank line.
pub open spec fn head_wire(code: u16, reason: Seq<char>, m: HeaderModel) -> Seq<u8> {
    status_line_wire(code, reason) + headers_wire(m) + seq![CR, LF]
}

/// A status the writer can serialize: three digits and an ASCII phrase
/// free of carriage returns and line feeds.
pub open spec fn writable_status(s: Status) -> bool {
    s.code <= 999 && crate::status::clean_reason(s.reason@)
}

/// Writes one response onto an in-memory buffer that stands for the
/// connection's outbound stream.
pub struct ResponseWriter {
    out: Vec<u8>,
    /// The status to send; `200 OK` until changed.
    pub status: Status,
    /// The headers to send.
    pub headers: HeaderCollection,
    state: ResponseState,
    chunked: bool,
    close_after: bool,
    body_bytes: u64,
}

impl ResponseWriter {
    /// Every byte this response has emitted, in order.
    pub closed spec fn emitted(&self) -> Seq<u8> {
        self.out@
    }

    /// The status as the writer sees it.
    pub closed spec fn spec_status(&self) -> Status {
        self.status
    }

    /// The headers as the writer sees them.
    pub closed spec fn spec_headers(&self) -> HeaderModel {
        self.headers@
    }

    /// Where the response stands.
    pub closed spec fn state(&self) -> ResponseState {
        self.state
    }

    /// Whether the body is being sent with chunked framing.
    pub closed spec fn is_chunked(&self) -> bool {
        self.chunked
    }

    /// Whether this response obliges the connection to close.
    pub closed spec fn must_close(&self) -> bool {
        self.close_after
    }

    /// How many body bytes have been written, saturating.
    pub closed spec fn body_bytes_written(&self) -> u64 {
        self.body_bytes
    }

    /// A fresh, pristine writer: `200 OK`, no headers, nothing emitted.
    pub fn new() -> (r: ResponseWriter)
        ensures
            r.emitted() == Seq::<u8>::empty(),
            r.state() == ResponseState::Pristine,
            r.spec_status().code == 200,
            r.spec_status().reason@ == reason_of(200),
            r.spec_headers() == crate::headers::collection::empty_model(),
            r.must_close() == false,
            r.body_bytes_written() == 0,
    {
        ResponseWriter {
            out: Vec::new(),
            status: Status::from_code(200),
            headers: HeaderCollection::new(),
            state: ResponseState::Pristine,
            chunked: false,
            close_after: false,
            body_bytes: 0,
        }
    }

    /// Emits the status line and headers exactly once; idempotent.
    ///
    /// On a pristine writer with a writable status, the head is emitted
    /// with the framing adjustment of [`force_framing`] applied to the
    /// headers first, and the state moves on. A head already sent is
    /// `Ok` with nothing emitted; a finalized writer is `AlreadyFinalized`;
    /// a status outside the wire grammar is `InvalidState`.
    pub fn try_write_headers(&mut self) -> (r: Result<(), HttpError>)
        ensures
            match old(self).state() {
                ResponseState::Finalized => r == Err::<(), HttpError>(HttpError::AlreadyFinalized)
                    && *final(self) == *old(self),
                ResponseState::HeadersSent => r == Ok::<(), HttpError>(()) && *final(self)
                    == *old(self),
                ResponseState::Pristine => if writable_status(old(self).spec_status()) {
                    &&& r == Ok::<(), HttpError>(())
                    &&& final(self).emitted() == old(self).emitted() + head_wire(
                        old(self).spec_status().code,
                        old(self).spec_status().reason@,
                        force_framing(old(self).spec_headers()),
                    )
                    &&& final(self).state() == ResponseState::HeadersSent
                    &&& final(self).spec_headers() == force_framing(old(self).spec_headers())
                    &&& final(self).spec_status() == old(self).spec_status()
                    &&& final(self).must_close() == (old(self).must_close()
                        || framing_forces_close(old(self).spec_headers()))
                    &&& final(self).is_chunked() == headers_chunked(old(self).spec_headers())
                    &&& final(self).body_bytes_written() == old(self).body_bytes_written()
                } else {
                    r == Err::<(), HttpError>(HttpError::InvalidState) && *final(self) == *old(self)
                },
            },
    {
        match self.state {
            ResponseState::Finalized => Err(HttpError::AlreadyFinalized),
            ResponseState::HeadersSent => Ok(()),
            ResponseState::Pristine => self.write_headers(),
        }
    }

    /// Emits the status line and headers; fails with `InvalidState` unless
    /// the writer is still pristine with a writable status.
    pub fn write_headers(&mut self) -> (r: Result<(), HttpError>)
        ensures
            if old(self).state() == ResponseState::Pristine && writable_status(old(self).spec_status()) {
                &&& r == Ok::<(), HttpError>(())
                &&& final(self).emitted() == old(self).emitted() + head_wire(
                    old(self).spec_status().code,
                    old(self).spec_status().reason@,
                    force_framing(old(self).spec_headers()),
                )
                &&& final(self).state() == ResponseState::HeadersSent
                &&& final(self).spec_headers() == force_framing(old(self).spec_headers())
                &&& final(self).spec_status() == old(self).spec_status()
                &&& final(self).must_close() == (old(self).must_close() || framing_forces_close(
                    old(self).spec_headers(),
                ))
                &&& final(self).is_chunked() == headers_chunked(old(self).spec_headers())
                &&& final(self).body_bytes_written() == old(self).body_bytes_written()
            } else if old(self).state() == ResponseState::Finalized {
                r == Err::<(), HttpError>(HttpError::AlreadyFinalized) && *final(self) == *old(self)
            } else {
                r == Err::<(), HttpError>(HttpError::InvalidState) && *final(self) == *old(self)
            },
    {
        match self.state {
            ResponseState::Finalized => {
                return Err(HttpError::AlreadyFinalized);
            },
            ResponseState::HeadersSent => {
                return Err(HttpError::InvalidState);
            },
            ResponseState::Pristine => {},
        }
        if self.status.code > 999 || !crate::status::is_clean_reason(&self.status.reason) {
            return Err(HttpError::InvalidState);
        }
        let chunked = collection_chunked(&self.headers);
        if self.headers.content_length.is_none() && !chunked {
            proof {
                reveal_strlit("close");
                lemma_lit_bytes("close");
            }
            let mut close_value: Vec<u8> = Vec::new();
            close_value.extend_from_slice("close".as_bytes());
            self.headers.connection = Some(close_value);
            self.close_after = true;
            proof {
                assert(self.headers@ =~= force_framing(old(self).spec_headers()));
            }
        } else {
            proof {
                assert(self.headers@ =~= force_framing(old(self).spec_headers()));
            }
        }
        crate::status::write_status_line(&mut self.out, &self.status)?;
        self.headers.write_all(&mut self.out);
        self.out.push(CR);
        self.out.push(LF);
        self.chunked = chunked;
        self.state = ResponseState::HeadersSent;
        proof {
            assert(self.emitted() =~= old(self).emitted() + head_wire(
                old(self).spec_status().code,
                old(self).spec_status().reason@,
                force_framing(old(self).spec_headers()),
            ));
        }
        Ok(())
    }

    /// Writes body bytes, emitting the head first if it has not gone out.
    ///
    /// With chunked framing each call becomes one chunk; otherwise the
    /// bytes are emitted raw. The body byte counter grows by the bytes
    /// written, saturating. Fails like [`ResponseWriter::try_write_headers`]
    /// when the head cannot be emitted, and with `AlreadyFinalized` after
    /// finalization.
    pub fn write(&mut self, bytes: &[u8]) -> (r: Result<(), HttpError>)
        ensures
            match old(self).state() {
                ResponseState::Finalized => r == Err::<(), HttpError>(HttpError::AlreadyFinalized)
                    && *final(self) == *old(self),
                ResponseState::HeadersSent => {
                    &&& r == Ok::<(), HttpError>(())
                    &&& final(self).emitted() == old(self).emitted() + (if old(
                        self,
                    ).is_chunked() {
                        chunk_wire(bytes@)
                    } else {
                        bytes@
                    })
                    &&& final(self).state() == ResponseState::HeadersSent
                    &&& final(self).must_close() == old(self).must_close()
                    &&& final(self).is_chunked() == old(self).is_chunked()
                    &&& final(self).spec_headers() == old(self).spec_headers()
                    &&& final(self).spec_status() == old(self).spec_status()
                    &&& final(self).body_bytes_written() == crate::server::sat_add(
                        old(self).body_bytes_written(),
                        bytes@.len() as int,
                    )
                },
                ResponseState::Pristine => if writable_status(old(self).spec_status()) {
                    let head = head_wire(
                        old(self).spec_status().code,
                        old(self).spec_status().reason@,
                        force_framing(old(self).spec_headers()),
                    );
                    let chunked = headers_chunked(old(self).spec_headers());
                    &&& r == Ok::<(), HttpError>(())
                    &&& final(self).emitted() == old(self).emitted() + head + (if chunked {
                        chunk_wire(bytes@)
                    } else {
                        bytes@
                    })
                    &&& final(self).state() == ResponseState::HeadersSent
                    &&& final(self).must_close() == (old(self).must_close()
                        || framing_forces_close(old(self).spec_headers()))
                    &&& final(self).is_chunked() == chunked
                    &&& final(self).spec_headers() == force_framing(old(self).spec_headers())
                    &&& final(self).spec_status() == old(self).spec_status()
                    &&& final(self).body_bytes_written() == crate::server::sat_add(
                        old(self).body_bytes_written(),
                        bytes@.len() as int,
                    )
                } else {
                    r == Err::<(), HttpError>(HttpError::InvalidState) && *final(self) == *old(self)
                },
            },
    {
        match self.state {
            ResponseState::Finalized => {
                return Err(HttpError::AlreadyFinalized);
            },
            _ => {},
        }
        self.try_write_headers()?;
        if self.chunked {
            push_hex_u64(&mut self.out, bytes.len() as u64);
            self.out.push(CR);
            self.out.push(LF);
            self.out.extend_from_slice(bytes);
            self.out.push(CR);
            self.out.push(LF);
            proof {
                assert(self.out@ =~= old(self).emitted() + (if old(self).state()
                    == ResponseState::Pristine {
                    head_wire(
                        old(self).spec_status().code,
                        old(self).spec_status().reason@,
                        force_framing(old(self).spec_headers()),
                    )
                } else {
                    Seq::<u8>::empty()
                }) + chunk_wire(bytes@));
                assert(old(self).state() == ResponseState::HeadersSent ==> old(self).emitted()
                    + Seq::<u8>::empty() + chunk_wire(bytes@) =~= old(self).emitted()
                    + chunk_wire(bytes@));
            }
        } else {
            self.out.extend_from_slice(bytes);
            proof {
                assert(old(self).state() == ResponseState::HeadersSent ==> self.out@ =~= old(
                    self,
                ).emitted() + bytes@);
            }
        }
        let n = bytes.len() as u64;
        if self.body_bytes <= u64::MAX - n {
            self.body_bytes = self.body_bytes + n;
        } else {
            self.body_bytes = u64::MAX;
        }
        Ok(())
    }

    /// Ends the response: the chunked terminator goes out if the framing
    /// was chunked, the head goes out first if it never did, and the
    /// writer is finalized. After that, `AlreadyFinalized`.
    pub fn finish_response(&mut self) -> (r: Result<(), HttpError>)
        ensures
            match old(self).state() {
                ResponseState::Finalized => r == Err::<(), HttpError>(HttpError::AlreadyFinalized)
                    && *final(self) == *old(self),
                ResponseState::HeadersSent => {
                    &&& r == Ok::<(), HttpError>(())
                    &&& final(self).emitted() == old(self).emitted() + (if old(
                        self,
                    ).is_chunked() {
                        chunked_end_wire()
                    } else {
                        Seq::<u8>::empty()
                    })
                    &&& final(self).state() == ResponseState::Finalized
                    &&& final(self).must_close() == old(self).must_close()
                    &&& final(self).is_chunked() == old(self).is_chunked()
                    &&& final(self).spec_headers() == old(self).spec_headers()
                    &&& final(self).spec_status() == old(self).spec_status()
                    &&& final(self).body_bytes_written() == old(self).body_bytes_written()
                },
                ResponseState::Pristine => if writable_status(old(self).spec_status()) {
                    let head = head_wire(
                        old(self).spec_status().code,
                        old(self).spec_status().reason@,
                        force_framing(old(self).spec_headers()),
                    );
                    let chunked = headers_chunked(old(self).spec_headers());
                    &&& r == Ok::<(), HttpError>(())
                    &&& final(self).emitted() == old(self).emitted() + head + (if chunked {
                        chunked_end_wire()
                    } else {
                        Seq::<u8>::empty()
                    })
                    &&& final(self).state() == ResponseState::Finalized
                    &&& final(self).must_close() == (old(self).must_close()
                        || framing_forces_close(old(self).spec_headers()))
                    &&& final(self).is_chunked() == chunked
                    &&& final(self).spec_headers() == force_framing(old(self).spec_headers())
                    &&& final(self).spec_status() == old(self).spec_status()
                    &&& final(self).body_bytes_written() == old(self).body_bytes_written()
                } else {
                    r == Err::<(), HttpError>(HttpError::InvalidState) && *final(self) == *old(self)
                },
            },
    {
        match self.state {
            ResponseState::Finalized => {
                return Err(HttpError::AlreadyFinalized);
            },
            _ => {},
        }
        self.try_write_headers()?;
        if self.chunked {
            self.out.push(48);
            self.out.push(CR);
            self.out.push(LF);
            self.out.push(CR);
            self.out.push(LF);
            proof {
                assert(old(self).state() == ResponseState::HeadersSent ==> self.out@ =~= old(
                    self,
                ).emitted() + chunked_end_wire());
                assert(old(self).state() == ResponseState::Pristine ==> self.out@ =~= old(
                    self,
                ).emitted() + head_wire(
                    old(self).spec_status().code,
                    old(self).spec_status().reason@,
                    force_framing(old(self).spec_headers()),
                ) + chunked_end_wire());
            }
        }
        self.state = ResponseState::Finalized;
        proof {
            assert(old(self).state() == ResponseState::HeadersSent && !old(self).is_chunked()
                ==> self.emitted() =~= old(self).emitted() + Seq::<u8>::empty());
        }
        Ok(())
    }

    /// Replaces the status to send; bytes already emitted are unaffected.
    pub fn set_status(&mut self, status: Status)
        ensures
            final(self).spec_status() == status,
            final(self).emitted() == old(self).emitted(),
            final(self).state() == old(self).state(),
            final(self).spec_headers() == old(self).spec_headers(),
            final(self).is_chunked() == old(self).is_chunked(),
            final(self).must_close() == old(self).must_close(),
            final(self).body_bytes_written() == old(self).body_bytes_written(),
    {
        self.status = status;
    }

    /// Replaces the `Content-Length` header; bytes already emitted are
    /// unaffected.
    pub fn set_content_length(&mut self, n: Option<u64>)
        ensures
            final(self).spec_headers() == (HeaderModel {
                content_length: n,
                ..old(self).spec_headers()
            }),
            final(self).spec_status() == old(self).spec_status(),
            final(self).emitted() == old(self).emitted(),
            final(self).state() == old(self).state(),
            final(self).is_chunked() == old(self).is_chunked(),
            final(self).must_close() == old(self).must_close(),
            final(self).body_bytes_written() == old(self).body_bytes_written(),
    {
        self.headers.content_length = n;
        proof {
            assert(self.headers@ =~= (HeaderModel {
                content_length: n,
                ..old(self).spec_headers()
            }));
        }
    }

    /// Sets the `Date` header when none is set yet, leaving a set one
    /// alone; bytes already emitted are unaffected. The connection engine
    /// calls this with the current IMF-fixdate before forcing the head
    /// out, which is how an unset `Date` receives the current time.
    pub fn set_date_if_unset(&mut self, date: Vec<u8>)
        ensures
            final(self).spec_headers() == (HeaderModel {
                date: Some(
                    match old(self).spec_headers().date {
                        Some(d) => d,
                        None => date@,
                    },
                ),
                ..old(self).spec_headers()
            }),
            final(self).spec_status() == old(self).spec_status(),
            final(self).emitted() == old(self).emitted(),
            final(self).state() == old(self).state(),
            final(self).is_chunked() == old(self).is_chunked(),
            final(self).must_close() == old(self).must_close(),
            final(self).body_bytes_written() == old(self).body_bytes_written(),
    {
        if self.headers.date.is_none() {
            self.headers.date = Some(date);
        }
        proof {
            assert(self.headers@ =~= (HeaderModel {
                date: Some(
                    match old(self).spec_headers().date {
                        Some(d) => d,
                        None => date@,
                    },
                ),
                ..old(self).spec_headers()
            }));
        }
    }

    /// Whether this response obliges the connection to close, as an
    /// executable check.
    pub fn close_after(&self) -> (r: bool)
        ensures
            r == self.must_close(),
    {
        self.close_after
    }

    /// Hands out every emitted byte, consuming the writer.
    pub fn into_bytes(self) -> (r: Vec<u8>)
        ensures
            r@ == self.emitted(),
    {
        self.out
    }
}

} // verus!
