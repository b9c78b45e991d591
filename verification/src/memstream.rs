//! In-memory stand-ins for a network stream: a write-only stream backed by a
//! growable byte vector, and a read-only stream over an owned byte vector.
//!
//! These are what the protocol engine is exercised against: a connection's
//! inbound bytes live in a `MemReaderFakeStream`-style buffer and the
//! outbound bytes in a `MemWriterFakeStream`-style buffer.

use vstd::prelude::*;

use crate::HttpError;

verus! {

/// Writes to an owned, growable byte vector; reading it back is not offered.
pub struct MemWriterFakeStream {
    buf: Vec<u8>,
}

impl View for MemWriterFakeStream {
    type V = Seq<u8>;

    closed spec fn view(&self) -> Seq<u8> {
        self.buf@
    }
}

impl MemWriterFakeStream {
    /// A fresh stream holding no bytes.
    pub fn new() -> (r: MemWriterFakeStream)
        ensures
            r@ == Seq::<u8>::empty(),
    {
        MemWriterFakeStream { buf: Vec::new() }
    }

    /// All bytes written so far, in order.
    pub fn get_ref(&self) -> (r: &[u8])
        ensures
            r@ == self@,
    {
        self.buf.as_slice()
    }

    /// Appends every byte of `buf`; never fails.
    pub fn write_all(&mut self, buf: &[u8]) -> (r: Result<(), HttpError>)
        ensures
            final(self)@ == old(self)@ + buf@,
            r == Ok::<(), HttpError>(()),
    {
        self.buf.extend_from_slice(buf);
        Ok(())
    }

    /// Nothing is buffered beyond the vector itself, so this does nothing.
    pub fn flush(&mut self) -> (r: Result<(), HttpError>)
        ensures
            final(self)@ == old(self)@,
            r == Ok::<(), HttpError>(()),
    {
        Ok(())
    }
}

/// The seek origins understood by [`MemReaderFakeStream::seek`].
#[derive(Clone, Copy, PartialEq, Eq, Structural, Debug)]
pub enum SeekStyle {
    /// Offset from the start of the stream.
    SeekSet,
    /// Offset from the end of the stream.
    SeekEnd,
    /// Offset from the current position.
    SeekCur,
}

/// Reads from an owned byte vector; writing to it is not offered.
pub struct MemReaderFakeStream {
    buf: Vec<u8>,
    pos: usize,
}

impl MemReaderFakeStream {
    /// The full byte contents the stream was created over.
    pub closed spec fn contents(&self) -> Seq<u8> {
        self.buf@
    }

    /// How many bytes have been consumed so far.
    pub closed spec fn position(&self) -> nat {
        self.pos as nat
    }

    /// The position never runs past the contents.
    pub closed spec fn wf(&self) -> bool {
        self.pos <= self.buf.len()
    }

    /// A stream positioned at the start of `buf`.
    pub fn new(buf: Vec<u8>) -> (r: MemReaderFakeStream)
        ensures
            r.contents() == buf@,
            r.position() == 0,
            r.wf(),
    {
        MemReaderFakeStream { buf, pos: 0 }
    }

    /// Fills a prefix of `out` with the next bytes of the stream.
    ///
    /// At end of stream every read, the empty-buffer one included, yields
    /// `EndOfFile`; otherwise as many bytes as are available, up to
    /// `out.len()`, are copied into `out[0..n]` and consumed.
    pub fn read(&mut self, out: &mut Vec<u8>) -> (r: Result<usize, HttpError>)
        requires
            old(self).wf(),
        ensures
            final(self).wf(),
            final(self).contents() == old(self).contents(),
            final(out)@.len() == old(out)@.len(),
            if old(self).position() == old(self).contents().len() {
                r == Err::<usize, HttpError>(HttpError::EndOfFile) && final(self).position() == old(
                    self,
                ).position() && final(out)@ == old(out)@
            } else {
                {
                    let n = vstd::math::min(
                        old(out)@.len() as int,
                        old(self).contents().len() - old(self).position(),
                    );
                    r == Ok::<usize, HttpError>(n as usize) && final(self).position() == old(
                        self,
                    ).position() + n && final(out)@ == old(self).contents().subrange(
                        old(self).position() as int,
                        old(self).position() + n,
                    ) + old(out)@.skip(n)
                }
            },
    {
        if self.pos == self.buf.len() {
            return Err(HttpError::EndOfFile);
        }
        let avail = self.buf.len() - self.pos;
        let n = if out.len() < avail {
            out.len()
        } else {
            avail
        };
        let mut i: usize = 0;
        while i < n
            invariant
                i <= n,
                n <= out@.len(),
                self.pos + n <= self.buf.len(),
                out@.len() == old(out)@.len(),
                self == old(self),
                forall|j: int|
                    0 <= j < i ==> out@[j] == self.buf@[self.pos + j],
                forall|j: int| i <= j < out@.len() ==> out@[j] == old(out)@[j],
            decreases n - i,
        {
            let b = self.buf[self.pos + i];
            out.set(i, b);
            i += 1;
        }
        self.pos = self.pos + n;
        proof {
            assert(out@ =~= old(self).contents().subrange(
                old(self).position() as int,
                old(self).position() + n,
            ) + old(out)@.skip(n as int));
        }
        Ok(n)
    }

    /// The current position, as a byte offset from the start.
    pub fn tell(&self) -> (r: Result<u64, HttpError>)
        requires
            self.wf(),
        ensures
            r == Ok::<u64, HttpError>(self.position() as u64),
    {
        Ok(self.pos as u64)
    }

    /// Moves the position to `pos` relative to the chosen origin.
    ///
    /// A target outside `0..=contents().len()` is refused with
    /// `InvalidState` and leaves the position unchanged.
    pub fn seek(&mut self, pos: i64, style: SeekStyle) -> (r: Result<(), HttpError>)
        requires
            old(self).wf(),
        ensures
            final(self).wf(),
            final(self).contents() == old(self).contents(),
            ({
                let base: int = match style {
                    SeekStyle::SeekSet => 0,
                    SeekStyle::SeekEnd => old(self).contents().len() as int,
                    SeekStyle::SeekCur => old(self).position() as int,
                };
                let target = base + pos as int;
                if 0 <= target <= old(self).contents().len() {
                    r == Ok::<(), HttpError>(()) && final(self).position() == target
                } else {
                    r == Err::<(), HttpError>(HttpError::InvalidState) && final(self).position() == old(
                        self,
                    ).position()
                }
            }),
    {
        let base: i128 = match style {
            SeekStyle::SeekSet => 0i128,
            SeekStyle::SeekEnd => self.buf.len() as i128,
            SeekStyle::SeekCur => self.pos as i128,
        };
        let target: i128 = base + pos as i128;
        if target < 0 || target > self.buf.len() as i128 {
            return Err(HttpError::InvalidState);
        }
        self.pos = target as usize;
        Ok(())
    }
}

} // verus!
