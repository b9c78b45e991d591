//! The client side: everything of request writing that is computation.
//!
//! Connecting, name resolution and the TLS choice of stream live with the
//! embedding application; here stand the decisions they need — the
//! effective port and the TLS detection — and the serializer that builds
//! the bytes of a request head from its parts.

use vstd::prelude::*;

use vstd::string::StringSliceAdditionalSpecFns;

use crate::grammar::{CR, LF, SP};
use crate::headers::collection::{headers_wire, HeaderCollection, HeaderModel};
use crate::method::{method_name, Method};
use crate::{ascii_seq, lemma_lit_bytes};

verus! {

/// Question mark, `?`.
pub const QUESTION: u8 = 63;

/// Whether a scheme calls for TLS: exactly the spelling `https`.
pub open spec fn scheme_is_https(s: Seq<char>) -> bool {
    s == "https"@
}

/// Exec mirror of [`scheme_is_https`].
pub fn detect_ssl(scheme: &str) -> (r: bool)
    ensures
        r == scheme_is_https(scheme@),
{
    crate::str_eq(scheme, "https")
}

/// The port a request goes to: the explicit one when the URL named one,
/// else 443 for `https`, else 80.
pub fn effective_port(scheme: &str, explicit: Option<u16>) -> (r: u16)
    ensures
        r == match explicit {
            Some(p) => p,
            None => if scheme_is_https(scheme@) {
                443u16
            } else {
                80u16
            },
        },
{
    match explicit {
        Some(p) => p,
        None => if detect_ssl(scheme) {
            443
        } else {
            80
        },
    }
}

/// The bytes of a request head: the request line with the method, the
/// path with its optional query, and `HTTP/1.0`, then the headers and the
/// blank line. The client speaks 1.0 so that it never has to produce a
/// chunked request body.
pub open spec fn request_head_wire(
    mname: Seq<char>,
    path: Seq<u8>,
    query: Option<Seq<u8>>,
    m: HeaderModel,
) -> Seq<u8> {
    ascii_seq(mname) + seq![SP] + path + (match query {
        Some(q) => seq![QUESTION] + q,
        None => Seq::<u8>::empty(),
    }) + seq![SP] + ascii_seq("HTTP/1.0"@) + seq![CR, LF] + headers_wire(m) + seq![CR, LF]
}

/// Builds the request head for one request from its parts.
pub fn build_request_head(
    method: &Method,
    path: &Vec<u8>,
    query: &Option<Vec<u8>>,
    headers: &HeaderCollection,
) -> (r: Vec<u8>)
    requires
        vstd::utf8::is_ascii_chars(method_name(*method)),
    ensures
        r@ == request_head_wire(
            method_name(*method),
            path@,
            match query {
                Some(q) => Some(q@),
                None => None,
            },
            headers@,
        ),
{
    proof {
        reveal_strlit("HTTP/1.0");
        lemma_lit_bytes("HTTP/1.0");
    }
    let mut out: Vec<u8> = Vec::new();
    let name = method.name();
    let name_str = name.as_str();
    let name_bytes = name_str.as_bytes_vec();
    proof {
        vstd::string::is_ascii_spec_bytes(name_str);
        assert(name_bytes@ =~= ascii_seq(method_name(*method)));
    }
    let mut out2 = out;
    out2.append(&mut { name_bytes });
    out2.push(SP);
    out2.extend_from_slice(path.as_slice());
    match query {
        Some(q) => {
            out2.push(QUESTION);
            out2.extend_from_slice(q.as_slice());
        },
        None => {},
    }
    out2.push(SP);
    out2.extend_from_slice("HTTP/1.0".as_bytes());
    out2.push(CR);
    out2.push(LF);
    headers.write_all(&mut out2);
    out2.push(CR);
    out2.push(LF);
    proof {
        assert(out2@ =~= request_head_wire(
            method_name(*method),
            path@,
            match query {
                Some(q) => Some(q@),
                None => None,
            },
            headers@,
        ));
    }
    out2
}

} // verus!
