//! HTTP methods, as defined in RFC 2616 §5.1.1.
//!
//! A closed set of known methods plus an open extension holding any token.
//! On the wire a method token is matched case-sensitively, one byte at a
//! time, stopping at the terminating space; from human input the closed set
//! is matched regardless of ASCII case.

use vstd::prelude::*;

use crate::grammar::{is_token_byte, is_token_item, SP};
use vstd::string::StringSliceAdditionalSpecFns;
use crate::{ascii_seq, ascii_to_string, bytes_eq, bytes_to_chars, lemma_lit_bytes, HttpError};

verus! {

/// An HTTP request method.
#[derive(PartialEq, Eq, Clone, Hash, Debug)]
pub enum Method {
    Options,
    Get,
    Head,
    Post,
    Put,
    Delete,
    Trace,
    Connect,
    Patch,
    /// An unregistered method; the name must be a non-empty RFC 2616 token.
    ExtensionMethod(String),
}

/// The canonical rendering of a method.
pub open spec fn method_name(m: Method) -> Seq<char> {
    match m {
        Method::Options => "OPTIONS"@,
        Method::Get => "GET"@,
        Method::Head => "HEAD"@,
        Method::Post => "POST"@,
        Method::Put => "PUT"@,
        Method::Delete => "DELETE"@,
        Method::Trace => "TRACE"@,
        Method::Connect => "CONNECT"@,
        Method::Patch => "PATCH"@,
        Method::ExtensionMethod(s) => s@,
    }
}

/// A character's code with ASCII lowercase letters raised to uppercase.
pub open spec fn upper_code(c: char) -> int {
    if 97 <= c as int <= 122 {
        c as int - 32
    } else {
        c as int
    }
}

/// Equality of character sequences regardless of ASCII case.
pub open spec fn iequal_str(s: Seq<char>, t: Seq<char>) -> bool {
    s.len() == t.len() && forall|i: int|
        0 <= i < s.len() ==> upper_code(#[trigger] s[i]) == upper_code(t[i])
}

/// The known method a human-input name denotes, regardless of ASCII case.
pub open spec fn known_method_of(s: Seq<char>) -> Option<Method> {
    if iequal_str(s, "OPTIONS"@) {
        Some(Method::Options)
    } else if iequal_str(s, "GET"@) {
        Some(Method::Get)
    } else if iequal_str(s, "HEAD"@) {
        Some(Method::Head)
    } else if iequal_str(s, "POST"@) {
        Some(Method::Post)
    } else if iequal_str(s, "PUT"@) {
        Some(Method::Put)
    } else if iequal_str(s, "DELETE"@) {
        Some(Method::Delete)
    } else if iequal_str(s, "TRACE"@) {
        Some(Method::Trace)
    } else if iequal_str(s, "CONNECT"@) {
        Some(Method::Connect)
    } else if iequal_str(s, "PATCH"@) {
        Some(Method::Patch)
    } else {
        None
    }
}

/// What parsing the human-input name `s` must yield: the known method it
/// denotes, or an extension carrying `s` itself.
pub open spec fn human_parse_matches(s: Seq<char>, m: Method) -> bool {
    match known_method_of(s) {
        Some(k) => m == k,
        None => m matches Method::ExtensionMethod(t) && t@ == s,
    }
}

/// Compares two strings for equality regardless of ASCII case.
pub fn str_iequal(a: &str, b: &str) -> (r: bool)
    ensures
        r == iequal_str(a@, b@),
{
    let la = a.unicode_len();
    let lb = b.unicode_len();
    if la != lb {
        return false;
    }
    let mut i: usize = 0;
    while i < la
        invariant
            i <= la,
            la == a@.len(),
            lb == b@.len(),
            la == lb,
            forall|j: int| 0 <= j < i ==> upper_code(#[trigger] a@[j]) == upper_code(b@[j]),
        decreases la - i,
    {
        let ca = a.get_char(i) as u32;
        let cb = b.get_char(i) as u32;
        let ua = if 97 <= ca && ca <= 122 {
            ca - 32
        } else {
            ca
        };
        let ub = if 97 <= cb && cb <= 122 {
            cb - 32
        } else {
            cb
        };
        if ua != ub {
            return false;
        }
        i += 1;
    }
    true
}

impl Method {
    /// The canonical name of this method: the registered spelling for the
    /// closed set, the extension token as given otherwise.
    pub fn name(&self) -> (r: String)
        ensures
            r@ == method_name(*self),
    {
        match self {
            Method::Options => String::from_str("OPTIONS"),
            Method::Get => String::from_str("GET"),
            Method::Head => String::from_str("HEAD"),
            Method::Post => String::from_str("POST"),
            Method::Put => String::from_str("PUT"),
            Method::Delete => String::from_str("DELETE"),
            Method::Trace => String::from_str("TRACE"),
            Method::Connect => String::from_str("CONNECT"),
            Method::Patch => String::from_str("PATCH"),
            Method::ExtensionMethod(s) => s.clone(),
        }
    }

    /// A known method from a human-input name, regardless of ASCII case;
    /// unregistered names are refused.
    pub fn from_str(method: &str) -> (r: Result<Method, ()>)
        ensures
            r == match known_method_of(method@) {
                Some(m) => Ok::<Method, ()>(m),
                None => Err::<Method, ()>(()),
            },
    {
        if str_iequal(method, "OPTIONS") {
            Ok(Method::Options)
        } else if str_iequal(method, "GET") {
            Ok(Method::Get)
        } else if str_iequal(method, "HEAD") {
            Ok(Method::Head)
        } else if str_iequal(method, "POST") {
            Ok(Method::Post)
        } else if str_iequal(method, "PUT") {
            Ok(Method::Put)
        } else if str_iequal(method, "DELETE") {
            Ok(Method::Delete)
        } else if str_iequal(method, "TRACE") {
            Ok(Method::Trace)
        } else if str_iequal(method, "CONNECT") {
            Ok(Method::Connect)
        } else if str_iequal(method, "PATCH") {
            Ok(Method::Patch)
        } else {
            Err(())
        }
    }

    /// A method from a human-input ASCII name: the known method it denotes
    /// regardless of case, or an extension method carrying the name.
    pub fn from_str_or_new(method: &str) -> (r: Option<Method>)
        requires
            method.is_ascii(),
        ensures
            r is Some,
            human_parse_matches(method@, r->Some_0),
    {
        match Method::from_str(method) {
            Ok(m) => Some(m),
            Err(()) => Some(Method::ExtensionMethod(String::from_str(method))),
        }
    }
}

/// The known method a wire token denotes; matching here is case-sensitive.
pub open spec fn known_wire_method(s: Seq<u8>) -> Option<Method> {
    if s == ascii_seq("OPTIONS"@) {
        Some(Method::Options)
    } else if s == ascii_seq("GET"@) {
        Some(Method::Get)
    } else if s == ascii_seq("HEAD"@) {
        Some(Method::Head)
    } else if s == ascii_seq("POST"@) {
        Some(Method::Post)
    } else if s == ascii_seq("PUT"@) {
        Some(Method::Put)
    } else if s == ascii_seq("DELETE"@) {
        Some(Method::Delete)
    } else if s == ascii_seq("TRACE"@) {
        Some(Method::Trace)
    } else if s == ascii_seq("CONNECT"@) {
        Some(Method::Connect)
    } else if s == ascii_seq("PATCH"@) {
        Some(Method::Patch)
    } else {
        None
    }
}

/// What recognizing the wire token `bytes` must yield: the registered
/// method spelled exactly so, or an extension carrying the token's
/// characters.
pub open spec fn wire_parse_matches(bytes: Seq<u8>, m: Method) -> bool {
    match known_wire_method(bytes) {
        Some(k) => m == k,
        None => m matches Method::ExtensionMethod(t) && t@ == bytes_to_chars(bytes),
    }
}

/// The length of the token prefix of `s`: how many leading bytes are
/// `token` octets.
pub open spec fn token_len(s: Seq<u8>) -> nat
    decreases s.len(),
{
    if s.len() == 0 || !is_token_byte(s[0]) {
        0
    } else {
        1 + token_len(s.skip(1))
    }
}

/// The token prefix never runs past the sequence.
pub proof fn lemma_token_len_bound(s: Seq<u8>)
    ensures
        token_len(s) <= s.len(),
    decreases s.len(),
{
    if s.len() == 0 || !is_token_byte(s[0]) {
    } else {
        lemma_token_len_bound(s.skip(1));
    }
}

/// A maximal run of `k` token bytes pins the token prefix length at `k`.
pub proof fn lemma_token_len(s: Seq<u8>, k: nat)
    requires
        k <= s.len(),
        forall|i: int| 0 <= i < k ==> is_token_byte(#[trigger] s[i]),
        k < s.len() ==> !is_token_byte(s[k as int]),
    ensures
        token_len(s) == k,
    decreases k,
{
    if k == 0 {
    } else {
        assert(is_token_byte(s[0]));
        assert forall|i: int| 0 <= i < k - 1 implies is_token_byte(#[trigger] s.skip(1)[i]) by {
            assert(s.skip(1)[i] == s[i + 1]);
        }
        assert(k - 1 < s.skip(1).len() ==> !is_token_byte(s.skip(1)[k - 1]));
        lemma_token_len(s.skip(1), (k - 1) as nat);
    }
}

/// A run of `k` token bytes puts the token prefix length at `k` or more.
pub proof fn lemma_token_len_ge(s: Seq<u8>, k: nat)
    requires
        k <= s.len(),
        forall|i: int| 0 <= i < k ==> is_token_byte(#[trigger] s[i]),
    ensures
        token_len(s) >= k,
    decreases k,
{
    if k == 0 {
    } else {
        assert(is_token_byte(s[0]));
        assert forall|i: int| 0 <= i < k - 1 implies is_token_byte(#[trigger] s.skip(1)[i]) by {
            assert(s.skip(1)[i] == s[i + 1]);
        }
        lemma_token_len_ge(s.skip(1), (k - 1) as nat);
    }
}

/// The registered method whose name is spelled exactly by `buf`, if any.
fn match_known_wire(buf: &Vec<u8>) -> (r: Option<Method>)
    ensures
        r == known_wire_method(buf@),
{
    proof {
        reveal_strlit("OPTIONS");
        reveal_strlit("GET");
        reveal_strlit("HEAD");
        reveal_strlit("POST");
        reveal_strlit("PUT");
        reveal_strlit("DELETE");
        reveal_strlit("TRACE");
        reveal_strlit("CONNECT");
        reveal_strlit("PATCH");
        lemma_lit_bytes("OPTIONS");
        lemma_lit_bytes("GET");
        lemma_lit_bytes("HEAD");
        lemma_lit_bytes("POST");
        lemma_lit_bytes("PUT");
        lemma_lit_bytes("DELETE");
        lemma_lit_bytes("TRACE");
        lemma_lit_bytes("CONNECT");
        lemma_lit_bytes("PATCH");
    }
    if bytes_eq(buf.as_slice(), "OPTIONS".as_bytes()) {
        Some(Method::Options)
    } else if bytes_eq(buf.as_slice(), "GET".as_bytes()) {
        Some(Method::Get)
    } else if bytes_eq(buf.as_slice(), "HEAD".as_bytes()) {
        Some(Method::Head)
    } else if bytes_eq(buf.as_slice(), "POST".as_bytes()) {
        Some(Method::Post)
    } else if bytes_eq(buf.as_slice(), "PUT".as_bytes()) {
        Some(Method::Put)
    } else if bytes_eq(buf.as_slice(), "DELETE".as_bytes()) {
        Some(Method::Delete)
    } else if bytes_eq(buf.as_slice(), "TRACE".as_bytes()) {
        Some(Method::Trace)
    } else if bytes_eq(buf.as_slice(), "CONNECT".as_bytes()) {
        Some(Method::Connect)
    } else if bytes_eq(buf.as_slice(), "PATCH".as_bytes()) {
        Some(Method::Patch)
    } else {
        None
    }
}

/// Recognizes the request method at `*pos` in `data`, one byte per step,
/// consuming the method token and the single space that terminates it and
/// never a byte beyond that space.
///
/// With `n` the token prefix length of the remaining input: more than
/// `max_len` token bytes without a space is `TooLong`; input ending inside
/// the token, an empty token, or a non-token byte where the space should be
/// is `Malformed`; otherwise the token is recognized per
/// [`wire_parse_matches`] and exactly `n + 1` bytes are consumed.
pub fn read_method(data: &Vec<u8>, pos: &mut usize, max_len: usize) -> (r: Result<
    Method,
    HttpError,
>)
    requires
        *old(pos) <= data@.len(),
    ensures
        *final(pos) <= data@.len(),
        *old(pos) <= *final(pos),
        ({
            let rem = data@.skip(*old(pos) as int);
            let n = token_len(rem);
            if n > max_len {
                r == Err::<Method, HttpError>(HttpError::TooLong)
            } else if n == rem.len() {
                r == Err::<Method, HttpError>(HttpError::Malformed)
            } else if rem[n as int] == SP {
                if n == 0 {
                    r == Err::<Method, HttpError>(HttpError::Malformed)
                } else {
                    r is Ok && wire_parse_matches(rem.take(n as int), r->Ok_0) && *final(pos)
                        == *old(pos) + n + 1
                }
            } else {
                r == Err::<Method, HttpError>(HttpError::Malformed)
            }
        }),
{
    let ghost rem = data@.skip(*old(pos) as int);
    let mut buf: Vec<u8> = Vec::new();
    loop
        invariant
            *old(pos) <= *pos <= data@.len(),
            rem == data@.skip(*old(pos) as int),
            *pos == *old(pos) + buf@.len(),
            buf@.len() <= max_len,
            buf@ == rem.take(buf@.len() as int),
            forall|i: int| 0 <= i < buf@.len() ==> is_token_byte(#[trigger] rem[i]),
        decreases data@.len() - *pos,
    {
        if *pos == data.len() {
            proof {
                lemma_token_len(rem, buf@.len() as nat);
            }
            return Err(HttpError::Malformed);
        }
        let b = data[*pos];
        proof {
            assert(rem[buf@.len() as int] == b);
        }
        if b == SP {
            proof {
                lemma_token_len(rem, buf@.len() as nat);
            }
            *pos = *pos + 1;
            if buf.len() == 0 {
                return Err(HttpError::Malformed);
            }
            let m = match match_known_wire(&buf) {
                Some(k) => k,
                None => {
                    proof {
                        assert(crate::all_ascii_bytes(buf@));
                    }
                    Method::ExtensionMethod(ascii_to_string(buf))
                },
            };
            return Ok(m);
        } else if is_token_item(b) {
            if buf.len() == max_len {
                proof {
                    lemma_token_len_ge(rem, (buf@.len() + 1) as nat);
                    assert(rem.take(buf@.len() as int + 1).drop_last() =~= rem.take(buf@.len() as int));
                }
                return Err(HttpError::TooLong);
            }
            let ghost bl = buf@.len() as int;
            buf.push(b);
            *pos = *pos + 1;
            proof {
                assert(buf@ =~= rem.take(bl + 1));
            }
        } else {
            proof {
                lemma_token_len(rem, buf@.len() as nat);
            }
            return Err(HttpError::Malformed);
        }
    }
}

/// Round trip through the wire recognizer: for every method whose name is a
/// token that is not the exact spelling of a registered method (the
/// registered ones spell themselves), the serialized name followed by a
/// space is recognized as that method again. An extension whose name merely
/// differs in case from a registered name, say `get`, still round-trips
/// here: wire matching is case-sensitive.
pub proof fn lemma_method_wire_round_trip(m: Method)
    requires
        m matches Method::ExtensionMethod(t) ==> {
            &&& vstd::utf8::is_ascii_chars(t@)
            &&& crate::grammar::all_token(ascii_seq(t@))
            &&& known_wire_method(ascii_seq(t@)) is None
        },
    ensures
        ({
            let wire = ascii_seq(method_name(m)).push(SP);
            &&& token_len(wire) == method_name(m).len()
            &&& token_len(wire) < wire.len()
            &&& wire[token_len(wire) as int] == SP
            &&& wire_parse_matches(wire.take(token_len(wire) as int), m)
        }),
{
    reveal_strlit("OPTIONS");
    reveal_strlit("GET");
    reveal_strlit("HEAD");
    reveal_strlit("POST");
    reveal_strlit("PUT");
    reveal_strlit("DELETE");
    reveal_strlit("TRACE");
    reveal_strlit("CONNECT");
    reveal_strlit("PATCH");
    let name = method_name(m);
    let bytes = ascii_seq(name);
    let wire = bytes.push(SP);
    assert(wire.take(bytes.len() as int) =~= bytes);
    match m {
        Method::ExtensionMethod(t) => {
            assert forall|i: int| 0 <= i < bytes.len() implies is_token_byte(
                #[trigger] wire[i],
            ) by {
                assert(wire[i] == bytes[i]);
            }
            lemma_token_len(wire, bytes.len() as nat);
            crate::lemma_ascii_chars_round_trip(t@);
        },
        _ => {
            assert forall|i: int| 0 <= i < bytes.len() implies is_token_byte(
                #[trigger] wire[i],
            ) by {
                assert(wire[i] == bytes[i]);
            }
            lemma_token_len(wire, bytes.len() as nat);
        },
    }
}

/// Round trip through the human-input parser: parsing the canonical name of
/// any method gives that method back, as long as an extension's name does
/// not denote a registered method regardless of case (`get` names `GET`
/// there, so the extension `get` is recognized as the registered method
/// instead).
pub proof fn lemma_method_human_round_trip(m: Method)
    requires
        m matches Method::ExtensionMethod(t) ==> known_method_of(t@) is None,
    ensures
        human_parse_matches(method_name(m), m),
{
    reveal_strlit("OPTIONS");
    reveal_strlit("GET");
    reveal_strlit("HEAD");
    reveal_strlit("POST");
    reveal_strlit("PUT");
    reveal_strlit("DELETE");
    reveal_strlit("TRACE");
    reveal_strlit("CONNECT");
    reveal_strlit("PATCH");
    assert(upper_code("PUT"@[0]) != upper_code("GET"@[0]));
    assert(upper_code("POST"@[0]) != upper_code("HEAD"@[0]));
    assert(upper_code("CONNECT"@[0]) != upper_code("OPTIONS"@[0]));
    assert(upper_code("PATCH"@[0]) != upper_code("TRACE"@[0]));
}

} // verus!
