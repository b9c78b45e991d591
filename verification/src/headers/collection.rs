//! The header collection: a fixed set of typed headers plus an ordered
//! list of opaque `(name, raw value)` pairs for everything else.
//!
//! Header names are matched regardless of ASCII case. A typed header whose
//! value fails its grammar is not an error: the pair is retained verbatim
//! in the extension list. A repeated occurrence of an already-set typed
//! header is likewise retained verbatim rather than dropped.

use vstd::prelude::*;

use crate::grammar::{COLON, COMMA, CR, LF, SP};
use crate::headers::etag::{etag_wire, parse_etag, EntityTag};
use crate::headers::{
    all_digits, bytes_iequal, dec_u64, dec_val, find_byte, iequal_bytes, lemma_dec_round_trip,
    lemma_find_byte_at, lemma_find_byte_none, parse_u64_dec, push_u64_dec,
    HeaderValueByteIterator,
};
use crate::{ascii_seq, lemma_lit_bytes, vec_sub};

verus! {

/// A `Host` header value: host name and optional port.
#[derive(Clone, PartialEq, Eq, Debug)]
pub struct Host {
    /// The host name, verbatim.
    pub name: Vec<u8>,
    /// The port, when one was given after a colon.
    pub port: Option<u16>,
}

/// The spec-level model of a [`Host`].
#[verifier::ext_equal]
pub struct HostModel {
    pub name: Seq<u8>,
    pub port: Option<u16>,
}

impl View for Host {
    type V = HostModel;

    open spec fn view(&self) -> HostModel {
        HostModel { name: self.name@, port: self.port }
    }
}

/// The typed headers this library understands, plus opaque extensions in
/// insertion order.
#[derive(Clone, Debug)]
pub struct HeaderCollection {
    pub host: Option<Host>,
    /// The `Date` value, verbatim IMF-fixdate bytes.
    pub date: Option<Vec<u8>>,
    /// The `Content-Type` value, verbatim.
    pub content_type: Option<Vec<u8>>,
    pub content_length: Option<u64>,
    /// The `Transfer-Encoding` coding list, verbatim; repeats comma-join.
    pub transfer_encoding: Option<Vec<u8>>,
    /// The `Connection` option list, verbatim; repeats comma-join.
    pub connection: Option<Vec<u8>>,
    pub etag: Option<EntityTag>,
    /// The `Server` value, verbatim.
    pub server: Option<Vec<u8>>,
    /// Unrecognized or unparsable headers, in insertion order.
    pub extensions: Vec<(Vec<u8>, Vec<u8>)>,
}

/// The spec-level model of a [`HeaderCollection`].
#[verifier::ext_equal]
pub struct HeaderModel {
    pub host: Option<HostModel>,
    pub date: Option<Seq<u8>>,
    pub content_type: Option<Seq<u8>>,
    pub content_length: Option<u64>,
    pub transfer_encoding: Option<Seq<u8>>,
    pub connection: Option<Seq<u8>>,
    pub etag: Option<(bool, Seq<u8>)>,
    pub server: Option<Seq<u8>>,
    pub extensions: Seq<(Seq<u8>, Seq<u8>)>,
}

impl View for HeaderCollection {
    type V = HeaderModel;

    open spec fn view(&self) -> HeaderModel {
        HeaderModel {
            host: match self.host {
                Some(h) => Some(h@),
                None => None,
            },
            date: match self.date {
                Some(v) => Some(v@),
                None => None,
            },
            content_type: match self.content_type {
                Some(v) => Some(v@),
                None => None,
            },
            content_length: self.content_length,
            transfer_encoding: match self.transfer_encoding {
                Some(t) => Some(t@),
                None => None,
            },
            connection: match self.connection {
                Some(c) => Some(c@),
                None => None,
            },
            etag: match self.etag {
                Some(e) => Some((e.weak, e.opaque_tag@)),
                None => None,
            },
            server: match self.server {
                Some(v) => Some(v@),
                None => None,
            },
            extensions: self.extensions@.map_values(|p: (Vec<u8>, Vec<u8>)| (p.0@, p.1@)),
        }
    }
}

/// The model of an empty collection.
pub open spec fn empty_model() -> HeaderModel {
    HeaderModel {
        host: None,
        date: None,
        content_type: None,
        content_length: None,
        transfer_encoding: None,
        connection: None,
        etag: None,
        server: None,
        extensions: Seq::empty(),
    }
}

/// The spec-level parse of a `Host` value: a non-empty name, optionally a
/// colon and a decimal port that fits `u16`.
pub open spec fn parse_host_value(v: Seq<u8>) -> Option<HostModel> {
    match find_byte(v, COLON) {
        Some(c) => {
            let ps = v.skip(c as int + 1);
            if c > 0 && ps.len() > 0 && all_digits(ps) && dec_val(ps) <= 65535 {
                Some(HostModel { name: v.take(c as int), port: Some(dec_val(ps) as u16) })
            } else {
                None
            }
        },
        None => if v.len() > 0 {
            Some(HostModel { name: v, port: None })
        } else {
            None
        },
    }
}

/// Whether the coding list of a `Transfer-Encoding` value ends with the
/// `chunked` coding, regardless of ASCII case: the framing is chunked
/// exactly then.
pub open spec fn headers_chunked(m: HeaderModel) -> bool {
    match m.transfer_encoding {
        Some(v) => crate::headers::list_ends_token(v, ascii_seq("chunked"@)),
        None => false,
    }
}

/// Exec mirror of [`headers_chunked`].
pub fn collection_chunked(h: &HeaderCollection) -> (r: bool)
    ensures
        r == headers_chunked(h@),
{
    proof {
        reveal_strlit("chunked");
        lemma_lit_bytes("chunked");
    }
    match &h.transfer_encoding {
        Some(v) => {
            proof {
                assert(v@.skip(0) =~= v@);
            }
            crate::headers::list_ends_token_exec(v, 0, "chunked".as_bytes())
        },
        None => false,
    }
}

/// The spec-level parse of a `Content-Length` value: one or more decimal
/// digits, no sign, fitting `u64`.
pub open spec fn parse_cl_value(v: Seq<u8>) -> Option<u64> {
    if v.len() > 0 && all_digits(v) && dec_val(v) <= u64::MAX {
        Some(dec_val(v) as u64)
    } else {
        None
    }
}

/// The model with `(name, value)` appended to the extension list.
pub open spec fn ext_model(h: HeaderModel, name: Seq<u8>, value: Seq<u8>) -> HeaderModel {
    HeaderModel { extensions: h.extensions + seq![(name, value)], ..h }
}

/// What inserting one header line does to the model: a recognized name
/// whose slot is free and whose value parses fills that slot; everything
/// else, repeated names and failed parses included, joins the extension
/// list verbatim.
pub open spec fn insert_header_model(h: HeaderModel, name: Seq<u8>, value: Seq<u8>) -> HeaderModel {
    if iequal_bytes(name, ascii_seq("host"@)) {
        if h.host is None {
            match parse_host_value(value) {
                Some(v) => HeaderModel { host: Some(v), ..h },
                None => ext_model(h, name, value),
            }
        } else {
            ext_model(h, name, value)
        }
    } else if iequal_bytes(name, ascii_seq("date"@)) {
        if h.date is None {
            HeaderModel { date: Some(value), ..h }
        } else {
            ext_model(h, name, value)
        }
    } else if iequal_bytes(name, ascii_seq("content-type"@)) {
        if h.content_type is None {
            HeaderModel { content_type: Some(value), ..h }
        } else {
            ext_model(h, name, value)
        }
    } else if iequal_bytes(name, ascii_seq("content-length"@)) {
        if h.content_length is None {
            match parse_cl_value(value) {
                Some(v) => HeaderModel { content_length: Some(v), ..h },
                None => ext_model(h, name, value),
            }
        } else {
            ext_model(h, name, value)
        }
    } else if iequal_bytes(name, ascii_seq("transfer-encoding"@)) {
        if value.len() == 0 {
            ext_model(h, name, value)
        } else {
            match h.transfer_encoding {
                None => HeaderModel { transfer_encoding: Some(value), ..h },
                Some(prev) => HeaderModel {
                    transfer_encoding: Some(prev + seq![COMMA, SP] + value),
                    ..h
                },
            }
        }
    } else if iequal_bytes(name, ascii_seq("connection"@)) {
        if value.len() == 0 {
            ext_model(h, name, value)
        } else {
            match h.connection {
                None => HeaderModel { connection: Some(value), ..h },
                Some(prev) => HeaderModel { connection: Some(prev + seq![COMMA, SP] + value), ..h },
            }
        }
    } else if iequal_bytes(name, ascii_seq("etag"@)) {
        if h.etag is None {
            match parse_etag(value) {
                Some(v) => HeaderModel { etag: Some(v), ..h },
                None => ext_model(h, name, value),
            }
        } else {
            ext_model(h, name, value)
        }
    } else if iequal_bytes(name, ascii_seq("server"@)) {
        if h.server is None {
            HeaderModel { server: Some(value), ..h }
        } else {
            ext_model(h, name, value)
        }
    } else {
        ext_model(h, name, value)
    }
}

/// Parses a `Host` value, exactly as [`parse_host_value`] says.
#[verifier::loop_isolation(false)]
pub fn parse_host(v: &Vec<u8>) -> (r: Option<Host>)
    ensures
        match parse_host_value(v@) {
            Some(m) => r is Some && r->Some_0@ == m,
            None => r is None,
        },
{
    let mut c: usize = 0;
    while c < v.len()
        invariant
            c <= v@.len(),
            forall|j: int| 0 <= j < c ==> #[trigger] v@[j] != COLON,
        decreases v@.len() - c,
    {
        if v[c] == COLON {
            proof {
                lemma_find_byte_at(v@, COLON, c as nat);
            }
            if c == 0 {
                return None;
            }
            let ps = vec_sub(v, c + 1, v.len());
            proof {
                assert(ps@ =~= v@.skip(c + 1));
            }
            let port = match parse_u64_dec(ps.as_slice()) {
                Some(p) => p,
                None => {
                    return None;
                },
            };
            proof {
                crate::headers::lemma_dec_val_nonneg(ps@);
            }
            if port > 65535 {
                return None;
            }
            let name = vec_sub(v, 0, c);
            proof {
                assert(name@ =~= v@.take(c as int));
            }
            return Some(Host { name, port: Some(port as u16) });
        }
        c += 1;
    }
    proof {
        lemma_find_byte_none(v@, COLON);
    }
    if v.len() == 0 {
        return None;
    }
    let name = vec_sub(v, 0, v.len());
    proof {
        assert(name@ =~= v@);
    }
    Some(Host { name, port: None })
}

impl HeaderCollection {
    /// A collection with nothing set.
    pub fn new() -> (r: HeaderCollection)
        ensures
            r@ == empty_model(),
    {
        let r = HeaderCollection {
            host: None,
            date: None,
            content_type: None,
            content_length: None,
            transfer_encoding: None,
            connection: None,
            etag: None,
            server: None,
            extensions: Vec::new(),
        };
        proof {
            assert(r@ =~= empty_model());
        }
        r
    }

    /// Appends a pair to the extension list verbatim.
    fn push_ext(&mut self, name: Vec<u8>, value: Vec<u8>)
        ensures
            final(self)@ == ext_model(old(self)@, name@, value@),
    {
        let ghost n = name@;
        let ghost v = value@;
        self.extensions.push((name, value));
        proof {
            assert(self@.extensions =~= old(self)@.extensions + seq![(n, v)]);
            assert(self@ =~= ext_model(old(self)@, n, v));
        }
    }

    /// Inserts one header line, exactly as [`insert_header_model`] says.
    pub fn insert(&mut self, name: Vec<u8>, value: Vec<u8>)
        ensures
            final(self)@ == insert_header_model(old(self)@, name@, value@),
    {
        proof {
            reveal_strlit("host");
            reveal_strlit("date");
            reveal_strlit("content-type");
            reveal_strlit("content-length");
            reveal_strlit("transfer-encoding");
            reveal_strlit("connection");
            reveal_strlit("etag");
            reveal_strlit("server");
            lemma_lit_bytes("host");
            lemma_lit_bytes("date");
            lemma_lit_bytes("content-type");
            lemma_lit_bytes("content-length");
            lemma_lit_bytes("transfer-encoding");
            lemma_lit_bytes("connection");
            lemma_lit_bytes("etag");
            lemma_lit_bytes("server");
        }
        if bytes_iequal(name.as_slice(), "host".as_bytes()) {
            if self.host.is_none() {
                if let Some(h) = parse_host(&value) {
                    self.host = Some(h);
                    proof {
                        assert(self@ =~= insert_header_model(old(self)@, name@, value@));
                    }
                    return;
                }
            }
            self.push_ext(name, value);
        } else if bytes_iequal(name.as_slice(), "date".as_bytes()) {
            if self.date.is_none() {
                let ghost v = value@;
                self.date = Some(value);
                proof {
                    assert(self@ =~= insert_header_model(old(self)@, name@, v));
                }
                return;
            }
            self.push_ext(name, value);
        } else if bytes_iequal(name.as_slice(), "content-type".as_bytes()) {
            if self.content_type.is_none() {
                let ghost v = value@;
                self.content_type = Some(value);
                proof {
                    assert(self@ =~= insert_header_model(old(self)@, name@, v));
                }
                return;
            }
            self.push_ext(name, value);
        } else if bytes_iequal(name.as_slice(), "content-length".as_bytes()) {
            if self.content_length.is_none() {
                if let Some(n) = parse_u64_dec(value.as_slice()) {
                    self.content_length = Some(n);
                    proof {
                        assert(self@ =~= insert_header_model(old(self)@, name@, value@));
                    }
                    return;
                }
            }
            self.push_ext(name, value);
        } else if bytes_iequal(name.as_slice(), "transfer-encoding".as_bytes()) {
            if value.len() == 0 {
                self.push_ext(name, value);
                return;
            }
            let ghost v = value@;
            match &self.transfer_encoding {
                None => {
                    self.transfer_encoding = Some(value);
                },
                Some(prev) => {
                    let mut joined = vec_sub(prev, 0, prev.len());
                    joined.push(COMMA);
                    joined.push(SP);
                    joined.extend_from_slice(value.as_slice());
                    proof {
                        assert(joined@ =~= old(self)@.transfer_encoding->Some_0 + seq![COMMA, SP]
                            + v);
                    }
                    self.transfer_encoding = Some(joined);
                },
            }
            proof {
                assert(self@ =~= insert_header_model(old(self)@, name@, v));
            }
        } else if bytes_iequal(name.as_slice(), "connection".as_bytes()) {
            if value.len() == 0 {
                self.push_ext(name, value);
                return;
            }
            let ghost v = value@;
            match &self.connection {
                None => {
                    self.connection = Some(value);
                },
                Some(prev) => {
                    let mut joined = vec_sub(prev, 0, prev.len());
                    joined.push(COMMA);
                    joined.push(SP);
                    joined.extend_from_slice(value.as_slice());
                    proof {
                        assert(joined@ =~= old(self)@.connection->Some_0 + seq![COMMA, SP] + v);
                    }
                    self.connection = Some(joined);
                },
            }
            proof {
                assert(self@ =~= insert_header_model(old(self)@, name@, v));
            }
        } else if bytes_iequal(name.as_slice(), "etag".as_bytes()) {
            if self.etag.is_none() {
                let mut it = HeaderValueByteIterator::new(vec_sub(&value, 0, value.len()));
                proof {
                    assert(it.remaining() =~= value@);
                }
                if let Some(e) = EntityTag::from_stream(&mut it) {
                    self.etag = Some(e);
                    proof {
                        assert(self@ =~= insert_header_model(old(self)@, name@, value@));
                    }
                    return;
                }
            }
            self.push_ext(name, value);
        } else if bytes_iequal(name.as_slice(), "server".as_bytes()) {
            if self.server.is_none() {
                let ghost v = value@;
                self.server = Some(value);
                proof {
                    assert(self@ =~= insert_header_model(old(self)@, name@, v));
                }
                return;
            }
            self.push_ext(name, value);
        } else {
            self.push_ext(name, value);
        }
    }
}

} // verus!

verus! {

/// The model built by inserting a list of header lines, in order, into an
/// empty collection.
pub open spec fn collection_of(lines: Seq<(Seq<u8>, Seq<u8>)>) -> HeaderModel
    decreases lines.len(),
{
    if lines.len() == 0 {
        empty_model()
    } else {
        insert_header_model(collection_of(lines.drop_last()), lines.last().0, lines.last().1)
    }
}

/// One serialized header line: `Name: value` and CRLF.
pub open spec fn line_wire(name: Seq<u8>, value: Seq<u8>) -> Seq<u8> {
    name + seq![COLON, SP] + value + seq![CR, LF]
}

/// The serialized value of a `Host` header.
pub open spec fn host_value_wire(h: HostModel) -> Seq<u8> {
    h.name + match h.port {
        Some(p) => seq![COLON] + dec_u64(p as int),
        None => Seq::<u8>::empty(),
    }
}

/// The serialized extension lines, in insertion order.
pub open spec fn exts_wire(s: Seq<(Seq<u8>, Seq<u8>)>) -> Seq<u8>
    decreases s.len(),
{
    if s.len() == 0 {
        Seq::empty()
    } else {
        exts_wire(s.drop_last()) + line_wire(s.last().0, s.last().1)
    }
}

/// The serialized first group of typed headers.
pub open spec fn typed_a_wire(m: HeaderModel) -> Seq<u8> {
    (match m.host {
        Some(h) => line_wire(ascii_seq("Host"@), host_value_wire(h)),
        None => Seq::<u8>::empty(),
    }) + (match m.date {
        Some(v) => line_wire(ascii_seq("Date"@), v),
        None => Seq::<u8>::empty(),
    }) + (match m.content_type {
        Some(v) => line_wire(ascii_seq("Content-Type"@), v),
        None => Seq::<u8>::empty(),
    }) + (match m.content_length {
        Some(n) => line_wire(ascii_seq("Content-Length"@), dec_u64(n as int)),
        None => Seq::<u8>::empty(),
    })
}

/// The serialized second group of typed headers.
pub open spec fn typed_b_wire(m: HeaderModel) -> Seq<u8> {
    (match m.transfer_encoding {
        Some(v) => line_wire(ascii_seq("Transfer-Encoding"@), v),
        None => Seq::<u8>::empty(),
    }) + (match m.connection {
        Some(v) => line_wire(ascii_seq("Connection"@), v),
        None => Seq::<u8>::empty(),
    }) + (match m.etag {
        Some(e) => line_wire(ascii_seq("ETag"@), etag_wire(e.0, e.1)),
        None => Seq::<u8>::empty(),
    }) + (match m.server {
        Some(v) => line_wire(ascii_seq("Server"@), v),
        None => Seq::<u8>::empty(),
    })
}

/// The serialized typed headers of a collection, each set one on its own
/// line, in a fixed order.
pub open spec fn typed_wire(m: HeaderModel) -> Seq<u8> {
    typed_a_wire(m) + typed_b_wire(m)
}

/// The serialized header block of a collection, without the blank line
/// that ends a block: the typed headers, then the extensions in insertion
/// order.
pub open spec fn headers_wire(m: HeaderModel) -> Seq<u8> {
    typed_wire(m) + exts_wire(m.extensions)
}

/// Appends `Name: value` and CRLF onto `out`.
fn push_line(out: &mut Vec<u8>, name: &[u8], value: &[u8])
    ensures
        final(out)@ == old(out)@ + line_wire(name@, value@),
{
    out.extend_from_slice(name);
    out.push(COLON);
    out.push(SP);
    out.extend_from_slice(value);
    out.push(CR);
    out.push(LF);
    proof {
        assert(final(out)@ =~= old(out)@ + line_wire(name@, value@));
    }
}

impl HeaderCollection {
    /// Serializes the `Host`, `Date`, `Content-Type` and `Content-Length`
    /// headers, those that are set.
    #[verifier::rlimit(60)]
    fn write_typed_a(&self, out: &mut Vec<u8>)
        ensures
            final(out)@ == old(out)@ + typed_a_wire(self@),
    {
        proof {
            reveal_strlit("Host");
            reveal_strlit("Date");
            reveal_strlit("Content-Type");
            reveal_strlit("Content-Length");
            lemma_lit_bytes("Host");
            lemma_lit_bytes("Date");
            lemma_lit_bytes("Content-Type");
            lemma_lit_bytes("Content-Length");
        }
        let ghost m = self@;
        let ghost w1 = match m.host {
            Some(h) => line_wire(ascii_seq("Host"@), host_value_wire(h)),
            None => Seq::<u8>::empty(),
        };
        let ghost w2 = match m.date {
            Some(v) => line_wire(ascii_seq("Date"@), v),
            None => Seq::<u8>::empty(),
        };
        let ghost w3 = match m.content_type {
            Some(v) => line_wire(ascii_seq("Content-Type"@), v),
            None => Seq::<u8>::empty(),
        };
        let ghost w4 = match m.content_length {
            Some(n) => line_wire(ascii_seq("Content-Length"@), dec_u64(n as int)),
            None => Seq::<u8>::empty(),
        };
        if let Some(h) = &self.host {
            let mut hv = vec_sub(&h.name, 0, h.name.len());
            if let Some(p) = h.port {
                hv.push(COLON);
                push_u64_dec(&mut hv, p as u64);
            }
            proof {
                assert(hv@ =~= host_value_wire(h@));
            }
            push_line(out, "Host".as_bytes(), hv.as_slice());
        }
        proof {
            assert(out@ =~= old(out)@ + w1);
        }
        if let Some(v) = &self.date {
            push_line(out, "Date".as_bytes(), v.as_slice());
        }
        proof {
            assert(out@ =~= old(out)@ + w1 + w2);
        }
        if let Some(v) = &self.content_type {
            push_line(out, "Content-Type".as_bytes(), v.as_slice());
        }
        proof {
            assert(out@ =~= old(out)@ + w1 + w2 + w3);
        }
        if let Some(n) = self.content_length {
            let mut nv: Vec<u8> = Vec::new();
            push_u64_dec(&mut nv, n);
            push_line(out, "Content-Length".as_bytes(), nv.as_slice());
        }
        proof {
            assert(out@ =~= old(out)@ + w1 + w2 + w3 + w4);
            assert(final(out)@ =~= old(out)@ + typed_a_wire(self@));
        }
    }

    /// Serializes the `Transfer-Encoding`, `Connection`, `ETag` and
    /// `Server` headers, those that are set.
    #[verifier::rlimit(60)]
    fn write_typed_b(&self, out: &mut Vec<u8>)
        ensures
            final(out)@ == old(out)@ + typed_b_wire(self@),
    {
        proof {
            reveal_strlit("Transfer-Encoding");
            reveal_strlit("Connection");
            reveal_strlit("ETag");
            reveal_strlit("Server");
            lemma_lit_bytes("Transfer-Encoding");
            lemma_lit_bytes("Connection");
            lemma_lit_bytes("ETag");
            lemma_lit_bytes("Server");
        }
        let ghost m = self@;
        let ghost w5 = match m.transfer_encoding {
            Some(v) => line_wire(ascii_seq("Transfer-Encoding"@), v),
            None => Seq::<u8>::empty(),
        };
        let ghost w6 = match m.connection {
            Some(v) => line_wire(ascii_seq("Connection"@), v),
            None => Seq::<u8>::empty(),
        };
        let ghost w7 = match m.etag {
            Some(e) => line_wire(ascii_seq("ETag"@), etag_wire(e.0, e.1)),
            None => Seq::<u8>::empty(),
        };
        let ghost w8 = match m.server {
            Some(v) => line_wire(ascii_seq("Server"@), v),
            None => Seq::<u8>::empty(),
        };
        if let Some(v) = &self.transfer_encoding {
            push_line(out, "Transfer-Encoding".as_bytes(), v.as_slice());
        }
        proof {
            assert(out@ =~= old(out)@ + w5);
        }
        if let Some(v) = &self.connection {
            push_line(out, "Connection".as_bytes(), v.as_slice());
        }
        proof {
            assert(out@ =~= old(out)@ + w5 + w6);
        }
        if let Some(e) = &self.etag {
            let ev = e.http_value();
            push_line(out, "ETag".as_bytes(), ev.as_slice());
        }
        proof {
            assert(out@ =~= old(out)@ + w5 + w6 + w7);
        }
        if let Some(v) = &self.server {
            push_line(out, "Server".as_bytes(), v.as_slice());
        }
        proof {
            assert(out@ =~= old(out)@ + w5 + w6 + w7 + w8);
            assert(final(out)@ =~= old(out)@ + typed_b_wire(self@));
        }
    }

    /// Serializes every set header onto `out`, exactly as [`headers_wire`]
    /// says: typed headers in a fixed order under their canonical names,
    /// then the extensions verbatim in insertion order.
    #[verifier::loop_isolation(false)]
    pub fn write_all(&self, out: &mut Vec<u8>)
        ensures
            final(out)@ == old(out)@ + headers_wire(self@),
    {
        self.write_typed_a(out);
        self.write_typed_b(out);
        proof {
            assert(out@ =~= old(out)@ + typed_wire(self@));
        }
        let ghost base = out@;
        let mut i: usize = 0;
        while i < self.extensions.len()
            invariant
                i <= self.extensions@.len(),
                base == old(out)@ + typed_wire(self@),
                out@ == base + exts_wire(self@.extensions.take(i as int)),
            decreases self.extensions@.len() - i,
        {
            let name = &self.extensions[i].0;
            let value = &self.extensions[i].1;
            push_line(out, name.as_slice(), value.as_slice());
            proof {
                assert(self@.extensions.take(i + 1).drop_last() =~= self@.extensions.take(
                    i as int,
                ));
                assert(self@.extensions.take(i + 1).last() == self@.extensions[i as int]);
                assert(out@ =~= base + exts_wire(self@.extensions.take(i + 1)));
            }
            i += 1;
        }
        proof {
            assert(self@.extensions.take(self.extensions@.len() as int) =~= self@.extensions);
            assert(final(out)@ =~= old(out)@ + headers_wire(self@));
        }
    }
}

/// Round trip for the `Host` header: serializing any value whose name is
/// non-empty and free of colons, and parsing the result, gives the value
/// back. (A name holding a colon would read back as name and port, so such
/// names are left out.)
pub proof fn lemma_host_round_trip(h: HostModel)
    requires
        h.name.len() > 0,
        forall|i: int| 0 <= i < h.name.len() ==> #[trigger] h.name[i] != COLON,
    ensures
        parse_host_value(host_value_wire(h)) == Some(h),
{
    let w = host_value_wire(h);
    match h.port {
        None => {
            assert(w =~= h.name);
            lemma_find_byte_none(w, COLON);
        },
        Some(p) => {
            let d = dec_u64(p as int);
            lemma_dec_round_trip(p as int);
            let k = h.name.len() as nat;
            assert(w[k as int] == COLON);
            assert forall|j: int| 0 <= j < k implies #[trigger] w[j] != COLON by {
                assert(w[j] == h.name[j]);
            }
            lemma_find_byte_at(w, COLON, k);
            assert(w.skip(k as int + 1) =~= d);
            assert(w.take(k as int) =~= h.name);
            assert(parse_host_value(w)->Some_0 =~= h);
        },
    }
}

/// Round trip for the `Content-Length` header: the canonical digits of any
/// `u64` parse back to that number.
pub proof fn lemma_cl_round_trip(n: u64)
    ensures
        parse_cl_value(dec_u64(n as int)) == Some(n),
{
    lemma_dec_round_trip(n as int);
}

} // verus!
