//! The `ETag` header value: an entity tag per RFC 2616 §3.11.
//!
//! Wire form: an optional `W/` prefix marking a weak validator, then the
//! opaque tag as a quoted string. A lowercase `w/` is accepted on input and
//! normalized to `W/` on output. The opaque tag is preserved byte for byte
//! across a parse/serialize round trip, which the lemmas below prove.

use vstd::prelude::*;

use crate::grammar::{
    all_text, canonically_escaped, dequote_bytes, escape_bytes, quoted_string, quoted_wire,
    lemma_dequote_escape, lemma_escape_dequote, QUOTE,
};
use crate::headers::HeaderValueByteIterator;
use crate::memstream::MemWriterFakeStream;
use crate::HttpError;

verus! {

/// Uppercase `W`, the canonical weakness prefix.
pub const UPPER_W: u8 = 87;

/// Lowercase `w`, accepted on input only.
pub const LOWER_W: u8 = 119;

/// Forward slash, `/`.
pub const SLASH: u8 = 47;

/// An entity tag: a weakness flag and the opaque validator bytes.
#[derive(Clone, PartialEq, Eq, Debug)]
pub struct EntityTag {
    /// `true` for a weak validator (`W/` prefix on the wire).
    pub weak: bool,
    /// The opaque tag, without quotes and with escapes decoded.
    pub opaque_tag: Vec<u8>,
}

/// A weak entity tag with the given opaque bytes.
pub fn weak_etag(opaque_tag: Vec<u8>) -> (r: EntityTag)
    ensures
        r.weak == true,
        r.opaque_tag == opaque_tag,
{
    EntityTag { weak: true, opaque_tag }
}

/// A strong entity tag with the given opaque bytes.
pub fn strong_etag(opaque_tag: Vec<u8>) -> (r: EntityTag)
    ensures
        r.weak == false,
        r.opaque_tag == opaque_tag,
{
    EntityTag { weak: false, opaque_tag }
}

/// The serialized wire form of an entity tag: `W/` when weak, then the
/// quoted opaque tag.
pub open spec fn etag_wire(weak: bool, tag: Seq<u8>) -> Seq<u8> {
    (if weak {
        seq![UPPER_W, SLASH]
    } else {
        Seq::<u8>::empty()
    }) + quoted_wire(tag)
}

/// The spec-level parse of a whole header value as an entity tag: the
/// weakness prefix (either case of `w`), then a quoted string that consumes
/// the value exactly.
pub open spec fn parse_etag(s: Seq<u8>) -> Option<(bool, Seq<u8>)> {
    if s.len() >= 1 && s[0] == QUOTE {
        match dequote_bytes(s.skip(1)) {
            Some(p) => if 1 + p.1 == s.len() {
                Some((false, p.0))
            } else {
                None
            },
            None => None,
        }
    } else if s.len() >= 3 && (s[0] == UPPER_W || s[0] == LOWER_W) && s[1] == SLASH && s[2]
        == QUOTE {
        match dequote_bytes(s.skip(3)) {
            Some(p) => if 3 + p.1 == s.len() {
                Some((true, p.0))
            } else {
                None
            },
            None => None,
        }
    } else {
        None
    }
}

impl EntityTag {
    /// Parses an entity tag from the remaining value bytes, which must be
    /// consumed exactly; the result is pinned by [`parse_etag`]. The
    /// iterator's contents are untouched, and on success the whole value
    /// has been consumed.
    pub fn from_stream(reader: &mut HeaderValueByteIterator) -> (r: Option<EntityTag>)
        requires
            old(reader).wf(),
        ensures
            final(reader).wf(),
            final(reader).contents() == old(reader).contents(),
            old(reader).position() <= final(reader).position(),
            match parse_etag(old(reader).remaining()) {
                Some(p) => r is Some && r->Some_0.weak == p.0 && r->Some_0.opaque_tag@ == p.1
                    && final(reader).position() == final(reader).contents().len(),
                None => r is None,
            },
    {
        let ghost rem = reader.remaining();
        let first = reader.next();
        let weak: bool;
        if first == Some(UPPER_W) || first == Some(LOWER_W) {
            let slash = reader.next();
            let quote = reader.next();
            if !(slash == Some(SLASH) && quote == Some(QUOTE)) {
                return None;
            }
            weak = true;
        } else if first == Some(QUOTE) {
            weak = false;
        } else {
            return None;
        }
        let ghost skipped: int = if weak {
            3
        } else {
            1
        };
        proof {
            assert(reader.remaining() =~= rem.skip(skipped));
        }
        let opaque_tag = match reader.read_quoted_string() {
            Some(tag) => tag,
            None => {
                return None;
            },
        };
        reader.some_if_consumed(EntityTag { weak, opaque_tag })
    }

    /// Writes the wire form of this tag: `W/` when weak, then the quoted
    /// opaque bytes.
    pub fn to_stream(&self, writer: &mut MemWriterFakeStream) -> (r: Result<(), HttpError>)
        ensures
            r == Ok::<(), HttpError>(()),
            final(writer)@ == old(writer)@ + etag_wire(self.weak, self.opaque_tag@),
    {
        if self.weak {
            let prefix: [u8; 2] = [UPPER_W, SLASH];
            writer.write_all(prefix.as_slice())?;
            proof {
                assert(writer@ =~= old(writer)@ + seq![UPPER_W, SLASH]);
            }
        }
        let quoted = quoted_string(&self.opaque_tag);
        writer.write_all(quoted.as_slice())?;
        proof {
            assert(final(writer)@ =~= old(writer)@ + etag_wire(self.weak, self.opaque_tag@));
        }
        Ok(())
    }

    /// The wire form of this tag as a byte vector.
    pub fn http_value(&self) -> (r: Vec<u8>)
        ensures
            r@ == etag_wire(self.weak, self.opaque_tag@),
    {
        let mut out: Vec<u8> = Vec::new();
        if self.weak {
            out.push(UPPER_W);
            out.push(SLASH);
        }
        let quoted = quoted_string(&self.opaque_tag);
        let mut out2 = out;
        out2.append(&mut { quoted });
        proof {
            assert(out2@ =~= etag_wire(self.weak, self.opaque_tag@));
        }
        out2
    }
}

/// Round trip, weak and strong alike: parsing the serialized form of any
/// entity tag whose opaque bytes are all `TEXT` gives the tag back exactly.
/// (An opaque tag holding a control octet, say byte 1, serializes to a wire
/// form whose bare control octet no parse accepts, so such tags are left
/// out.)
pub proof fn lemma_etag_round_trip(weak: bool, tag: Seq<u8>)
    requires
        all_text(tag),
    ensures
        parse_etag(etag_wire(weak, tag)) == Some((weak, tag)),
{
    let wire = etag_wire(weak, tag);
    lemma_dequote_escape(tag, Seq::<u8>::empty());
    assert(escape_bytes(tag) + seq![QUOTE] + Seq::<u8>::empty() =~= escape_bytes(tag)
        + seq![QUOTE]);
    if weak {
        assert(wire[0] == UPPER_W);
        assert(wire[1] == SLASH);
        assert(wire[2] == QUOTE);
        assert(wire.skip(3) =~= escape_bytes(tag) + seq![QUOTE]);
    } else {
        assert(wire[0] == QUOTE);
        assert(wire.skip(1) =~= escape_bytes(tag) + seq![QUOTE]);
    }
}

/// A lowercase `w/` prefix is accepted and means the same weak tag, so
/// re-serializing normalizes it to `W/`.
pub proof fn lemma_etag_weak_lowercase(tag: Seq<u8>)
    requires
        all_text(tag),
    ensures
        parse_etag(seq![LOWER_W, SLASH] + quoted_wire(tag)) == Some((true, tag)),
        etag_wire(true, tag) == seq![UPPER_W, SLASH] + quoted_wire(tag),
{
    let wire = seq![LOWER_W, SLASH] + quoted_wire(tag);
    lemma_dequote_escape(tag, Seq::<u8>::empty());
    assert(escape_bytes(tag) + seq![QUOTE] + Seq::<u8>::empty() =~= escape_bytes(tag)
        + seq![QUOTE]);
    assert(wire[0] == LOWER_W);
    assert(wire[1] == SLASH);
    assert(wire[2] == QUOTE);
    assert(wire.skip(3) =~= escape_bytes(tag) + seq![QUOTE]);
    assert(etag_wire(true, tag) =~= seq![UPPER_W, SLASH] + quoted_wire(tag));
}

/// The strong wire form is canonical: parsing a canonically escaped quoted
/// string and serializing the result reproduces the input bytes exactly.
pub proof fn lemma_etag_canonical_strong(s: Seq<u8>)
    requires
        s.len() >= 1,
        s[0] == QUOTE,
        canonically_escaped(s.skip(1)),
        dequote_bytes(s.skip(1))->Some_0.1 + 1 == s.len(),
    ensures
        parse_etag(s) is Some,
        parse_etag(s)->Some_0.0 == false,
        etag_wire(false, parse_etag(s)->Some_0.1) == s,
{
    lemma_escape_dequote(s.skip(1));
    let p = dequote_bytes(s.skip(1))->Some_0;
    assert(s.skip(1).take(p.1 as int) =~= s.skip(1));
    assert(etag_wire(false, p.0) =~= seq![QUOTE] + (escape_bytes(p.0) + seq![QUOTE]));
    assert(seq![QUOTE] + s.skip(1) =~= s);
}

/// The weak wire form with the canonical `W/` prefix is canonical in the
/// same way.
pub proof fn lemma_etag_canonical_weak(s: Seq<u8>)
    requires
        s.len() >= 3,
        s[0] == UPPER_W,
        s[1] == SLASH,
        s[2] == QUOTE,
        canonically_escaped(s.skip(3)),
        dequote_bytes(s.skip(3))->Some_0.1 + 3 == s.len(),
    ensures
        parse_etag(s) is Some,
        parse_etag(s)->Some_0.0 == true,
        etag_wire(true, parse_etag(s)->Some_0.1) == s,
{
    lemma_escape_dequote(s.skip(3));
    let p = dequote_bytes(s.skip(3))->Some_0;
    assert(s.skip(3).take(p.1 as int) =~= s.skip(3));
    assert(etag_wire(true, p.0) =~= seq![UPPER_W, SLASH, QUOTE] + (escape_bytes(p.0)
        + seq![QUOTE]));
    assert(seq![UPPER_W, SLASH, QUOTE] + s.skip(3) =~= s);
}

} // verus!
