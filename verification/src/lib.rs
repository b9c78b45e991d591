//! An HTTP/1.x protocol core: wire-level parsing and serialization of
//! request-lines, status-lines and header blocks, body framing, and the
//! per-connection keep-alive lifecycle, with machine-checked contracts.
//!
//! All protocol logic works over in-memory byte buffers; sockets, threads
//! and the clock live with the embedding application.

use vstd::prelude::*;

pub mod client;
pub mod date;
pub mod grammar;
pub mod headers;
pub mod memstream;
pub mod method;
pub mod request;
pub mod response;
pub mod server;
pub mod status;

verus! {

/// The characters a byte sequence spells, one char per byte.
pub open spec fn bytes_to_chars(s: Seq<u8>) -> Seq<char> {
    s.map_values(|b: u8| b as char)
}

/// The bytes a character sequence spells, one byte per char; faithful only
/// for ASCII characters.
pub open spec fn ascii_seq(s: Seq<char>) -> Seq<u8> {
    s.map_values(|c: char| c as u8)
}

/// Every byte of `s` is ASCII.
pub open spec fn all_ascii_bytes(s: Seq<u8>) -> bool {
    forall|i: int| 0 <= i < s.len() ==> #[trigger] s[i] < 128
}

/// Relies on `String::from_utf8`: ASCII bytes are valid UTF-8 and decode to
/// one char per byte, preserved in order.
#[verifier::external_body]
pub(crate) fn ascii_to_string(v: Vec<u8>) -> (r: String)
    requires
        all_ascii_bytes(v@),
    ensures
        r@ == bytes_to_chars(v@),
{
    String::from_utf8(v).unwrap_or_default()
}

/// Byte-for-byte equality of two slices.
pub fn bytes_eq(a: &[u8], b: &[u8]) -> (r: bool)
    ensures
        r == (a@ == b@),
{
    if a.len() != b.len() {
        return false;
    }
    let n = a.len();
    let mut i: usize = 0;
    while i < n
        invariant
            i <= n,
            n == a@.len(),
            n == b@.len(),
            forall|j: int| 0 <= j < i ==> a@[j] == b@[j],
        decreases n - i,
    {
        if a[i] != b[i] {
            return false;
        }
        i += 1;
    }
    proof {
        assert(a@ =~= b@);
    }
    true
}

/// Character-for-character equality of two strings.
pub fn str_eq(a: &str, b: &str) -> (r: bool)
    ensures
        r == (a@ == b@),
{
    let la = a.unicode_len();
    let lb = b.unicode_len();
    if la != lb {
        return false;
    }
    let mut i: usize = 0;
    while i < la
        invariant
            i <= la,
            la == a@.len(),
            lb == b@.len(),
            la == lb,
            forall|j: int| 0 <= j < i ==> a@[j] == b@[j],
        decreases la - i,
    {
        if a.get_char(i) != b.get_char(i) {
            return false;
        }
        i += 1;
    }
    proof {
        assert(a@ =~= b@);
    }
    true
}

/// A copy of `v[a..b]` as a fresh vector.
pub fn vec_sub(v: &Vec<u8>, a: usize, b: usize) -> (r: Vec<u8>)
    requires
        a <= b <= v@.len(),
    ensures
        r@ == v@.subrange(a as int, b as int),
{
    let mut out: Vec<u8> = Vec::new();
    let mut i: usize = a;
    while i < b
        invariant
            a <= i <= b <= v@.len(),
            out@ == v@.subrange(a as int, i as int),
        decreases b - i,
    {
        out.push(v[i]);
        proof {
            assert(out@ =~= v@.subrange(a as int, i + 1));
        }
        i += 1;
    }
    out
}

/// An ASCII string literal's UTF-8 bytes are its characters, byte for byte.
pub proof fn lemma_lit_bytes(s: &str)
    requires
        vstd::string::is_ascii(s),
    ensures
        vstd::string::StringSliceAdditionalSpecFns::spec_bytes(s) == ascii_seq(s@),
{
    vstd::string::is_ascii_spec_bytes(s);
    assert(ascii_seq(s@) =~= Seq::new(s@.len(), |i: int| s@.index(i) as u8));
}

/// Spelling ASCII characters as bytes and back gives the characters again.
pub proof fn lemma_ascii_chars_round_trip(s: Seq<char>)
    requires
        vstd::utf8::is_ascii_chars(s),
    ensures
        bytes_to_chars(ascii_seq(s)) == s,
{
    assert forall|i: int| 0 <= i < s.len() implies bytes_to_chars(ascii_seq(s))[i] == s[i] by {
        assert('\0' <= s[i] <= '\u{7f}');
    }
    assert(bytes_to_chars(ascii_seq(s)) =~= s);
}

/// An IPv4 socket address as plain values: the four octets and the port.
#[derive(Clone, Copy, PartialEq, Eq, Structural, Debug)]
pub struct SocketAddress {
    /// The first IPv4 address octet.
    pub ip0: u8,
    /// The second IPv4 address octet.
    pub ip1: u8,
    /// The third IPv4 address octet.
    pub ip2: u8,
    /// The fourth IPv4 address octet.
    pub ip3: u8,
    /// The TCP port.
    pub port: u16,
}

/// The error kinds of this library.
///
/// Parsing errors inside a request become a `Status` to emit instead; these
/// kinds cover stream misuse and malformed values.
#[derive(Clone, Copy, PartialEq, Eq, Structural, Debug, Hash)]
pub enum HttpError {
    /// The stream has no more bytes to give.
    EndOfFile,
    /// A value did not conform to its wire grammar.
    Malformed,
    /// A bounded read exceeded its limit.
    TooLong,
    /// An `HTTP/x.y` version this library does not speak.
    UnsupportedVersion,
    /// A response was mutated after `finish_response`.
    AlreadyFinalized,
    /// An operation was called in a state that does not permit it.
    InvalidState,
}

} // verus!
