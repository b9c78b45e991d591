//! Request parsing: request line, header block with obsolete line folding,
//! connection-close derivation, and body framing.
//!
//! A whole request is pinned by [`request_spec`]: on a malformed component
//! the parser hands back a partially filled request and the status the
//! server must emit — 400 for malformed bytes, 413 for too many headers,
//! 414 for an over-long request target, 505 for a foreign major version —
//! and the connection is closed.

use vstd::prelude::*;

use crate::grammar::{
    crlf_pos, find_crlf, is_ctl_byte, is_ows_item, is_token_item, CR, LF, SP, COLON,
};
use crate::headers::collection::{
    collection_chunked, collection_of, headers_chunked, insert_header_model, HeaderCollection,
};
use crate::headers::{list_has_token, list_has_token_exec};
use crate::{ascii_seq, lemma_lit_bytes};
use crate::headers::{find_byte, lemma_find_byte_at, lemma_find_byte_none, ows_run, lemma_ows_run};
use crate::method::{lemma_token_len, read_method, token_len, wire_parse_matches, Method};
use crate::status::{is_digit_byte, Status, DOT};
use crate::{HttpError, vec_sub, SocketAddress};

verus! {

/// The longest method token the reader accepts.
pub const MAX_METHOD_LEN: usize = 16;

/// The longest request target the reader accepts.
pub const MAX_URI_LEN: usize = 8192;

/// The most header lines one request may carry.
pub const MAX_HEADERS: usize = 100;

/// The most bytes one request's header block may occupy, blank line
/// included.
pub const MAX_HEADERS_SIZE: usize = 8192;

/// The spec-level parse of one header name: a non-empty token followed by
/// a colon, both consumed.
pub open spec fn name_spec(s: Seq<u8>) -> Option<(Seq<u8>, nat)> {
    let n = token_len(s);
    if n > 0 && n < s.len() && s[n as int] == COLON {
        Some((s.take(n as int), (n + 1) as nat))
    } else {
        None
    }
}

/// The spec-level parse of one header value: bytes to the first CRLF, with
/// each folded continuation line joined on by a single space, the
/// continuation's leading whitespace dropped.
pub open spec fn value_spec(s: Seq<u8>) -> Option<(Seq<u8>, nat)>
    decreases s.len(),
    via value_spec_decreases
{
    match crlf_pos(s) {
        None => None,
        Some(k) => {
            let rest = s.skip(k as int + 2);
            if rest.len() > 0 && crate::grammar::is_ows_byte(rest[0]) {
                let w = ows_run(rest);
                match value_spec(rest.skip(w as int)) {
                    Some(p) => Some(
                        (s.take(k as int) + seq![SP] + p.0, (k + 2 + w + p.1) as nat),
                    ),
                    None => None,
                }
            } else {
                Some((s.take(k as int), (k + 2) as nat))
            }
        },
    }
}

#[via_fn]
proof fn value_spec_decreases(s: Seq<u8>) {
    crate::grammar::lemma_crlf_pos_bound(s);
    if crlf_pos(s) is Some {
        let k = crlf_pos(s)->Some_0;
        let rest = s.skip(k as int + 2);
        crate::headers::lemma_ows_run_bound(rest);
    }
}

/// Whatever the value parser consumes starts past zero and stays within
/// the sequence.
pub proof fn lemma_value_spec_bound(s: Seq<u8>)
    ensures
        value_spec(s) is Some ==> 0 < value_spec(s)->Some_0.1 <= s.len(),
    decreases s.len(),
{
    crate::grammar::lemma_crlf_pos_bound(s);
    if crlf_pos(s) is Some {
        let k = crlf_pos(s)->Some_0;
        let rest = s.skip(k as int + 2);
        crate::headers::lemma_ows_run_bound(rest);
        if rest.len() > 0 && crate::grammar::is_ows_byte(rest[0]) {
            let w = ows_run(rest);
            lemma_value_spec_bound(rest.skip(w as int));
        }
    }
}

/// The spec-level parse of a header block: lines of name, optional
/// whitespace, value, ended by a bare CRLF, which is consumed.
pub open spec fn header_block_spec(s: Seq<u8>) -> Option<(Seq<(Seq<u8>, Seq<u8>)>, nat)>
    decreases s.len(),
    via header_block_spec_decreases
{
    if s.len() >= 2 && s[0] == CR && s[1] == LF {
        Some((Seq::empty(), 2nat))
    } else {
        match name_spec(s) {
            None => None,
            Some((name, n1)) => {
                let after = s.skip(n1 as int);
                let w = ows_run(after);
                match value_spec(after.skip(w as int)) {
                    None => None,
                    Some((value, n2)) => {
                        match header_block_spec(after.skip(w as int + n2 as int)) {
                            None => None,
                            Some((lines, n3)) => Some(
                                (seq![(name, value)] + lines, (n1 + w + n2 + n3) as nat),
                            ),
                        }
                    },
                }
            },
        }
    }
}

#[via_fn]
proof fn header_block_spec_decreases(s: Seq<u8>) {
    if !(s.len() >= 2 && s[0] == CR && s[1] == LF) && name_spec(s) is Some {
        let n1 = name_spec(s)->Some_0.1;
        crate::method::lemma_token_len_bound(s);
        let after = s.skip(n1 as int);
        crate::headers::lemma_ows_run_bound(after);
        let w = ows_run(after);
        lemma_value_spec_bound(after.skip(w as int));
    }
}

/// Reads one header name at `*pos`: a non-empty token and its colon.
#[verifier::loop_isolation(false)]
fn read_header_name(data: &Vec<u8>, pos: &mut usize) -> (r: Option<Vec<u8>>)
    requires
        *old(pos) <= data@.len(),
    ensures
        *old(pos) <= *final(pos) <= data@.len(),
        match name_spec(data@.skip(*old(pos) as int)) {
            Some(p) => r is Some && r->Some_0@ == p.0 && *final(pos) == *old(pos) + p.1,
            None => r is None,
        },
{
    let ghost rem = data@.skip(*old(pos) as int);
    let start = *pos;
    let mut i: usize = *pos;
    while i < data.len() && is_token_item(data[i])
        invariant
            start <= i <= data@.len(),
            forall|j: int| 0 <= j < i - start ==> crate::grammar::is_token_byte(
                #[trigger] rem[j],
            ),
        decreases data@.len() - i,
    {
        proof {
            assert(rem[i - start] == data@[i as int]);
        }
        i += 1;
    }
    proof {
        if i < data.len() {
            assert(rem[i - start] == data@[i as int]);
        }
        lemma_token_len(rem, (i - start) as nat);
    }
    if i == start || i == data.len() {
        return None;
    }
    if data[i] != COLON {
        return None;
    }
    let name = vec_sub(data, start, i);
    proof {
        assert(name@ =~= rem.take(i - start));
    }
    *pos = i + 1;
    Some(name)
}

/// Reads one header value at `*pos`, joining folded continuation lines
/// with a single space, and consumes it through its final CRLF.
#[verifier::loop_isolation(false)]
fn read_header_value(data: &Vec<u8>, pos: &mut usize) -> (r: Option<Vec<u8>>)
    requires
        *old(pos) <= data@.len(),
    ensures
        *old(pos) <= *final(pos) <= data@.len(),
        match value_spec(data@.skip(*old(pos) as int)) {
            Some(p) => r is Some && r->Some_0@ == p.0 && *final(pos) == *old(pos) + p.1,
            None => r is None,
        },
    decreases data@.len() - *old(pos),
{
    let ghost rem = data@.skip(*old(pos) as int);
    let dlen = data.len();
    let start = *pos;
    let at = match crate::grammar::find_crlf(data, start) {
        Some(a) => a,
        None => {
            return None;
        },
    };
    let mut seg = vec_sub(data, start, at);
    proof {
        assert(seg@ =~= rem.take(at - start));
    }
    *pos = at + 2;
    let ghost rest = rem.skip((at - start) as int + 2);
    proof {
        assert(rest =~= data@.skip(at + 2));
    }
    if *pos < data.len() && is_ows_item(data[*pos]) {
        proof {
            assert(rest.len() > 0 && crate::grammar::is_ows_byte(rest[0]));
        }
        let ows_start = *pos;
        let mut w: usize = *pos;
        while w < data.len() && is_ows_item(data[w])
            invariant
                ows_start <= w <= data@.len(),
                forall|j: int| 0 <= j < w - ows_start ==> crate::grammar::is_ows_byte(
                    #[trigger] rest[j],
                ),
            decreases data@.len() - w,
        {
            proof {
                assert(rest[w - ows_start] == data@[w as int]);
            }
            w += 1;
        }
        proof {
            if w < data.len() {
                assert(rest[w - ows_start] == data@[w as int]);
            }
            lemma_ows_run(rest, (w - ows_start) as nat);
        }
        *pos = w;
        seg.push(SP);
        proof {
            assert(data@.skip(w as int) =~= rest.skip((w - ows_start) as int));
        }
        match read_header_value(data, pos) {
            Some(mut cont) => {
                let ghost seg_snap = seg@;
                seg.append(&mut cont);
                proof {
                    let p = value_spec(rest.skip((w - ows_start) as int))->Some_0;
                    assert(seg@ =~= rem.take((at - start) as int) + seq![SP] + p.0);
                }
                return Some(seg);
            },
            None => {
                return None;
            },
        }
    }
    proof {
        assert(!(rest.len() > 0 && crate::grammar::is_ows_byte(rest[0])));
    }
    Some(seg)
}

/// Composes already-parsed lines and consumed bytes onto a later block
/// parse result.
pub open spec fn hb_shift(
    lines: Seq<(Seq<u8>, Seq<u8>)>,
    k: nat,
    o: Option<(Seq<(Seq<u8>, Seq<u8>)>, nat)>,
) -> Option<(Seq<(Seq<u8>, Seq<u8>)>, nat)> {
    match o {
        Some(p) => Some((lines + p.0, (p.1 + k) as nat)),
        None => None,
    }
}

/// Shifting twice composes: line lists concatenate and counts add.
proof fn lemma_hb_shift_assoc(
    orig: Seq<u8>,
    a: Seq<(Seq<u8>, Seq<u8>)>,
    b: Seq<(Seq<u8>, Seq<u8>)>,
    k: nat,
    j: nat,
    o: Option<(Seq<(Seq<u8>, Seq<u8>)>, nat)>,
)
    requires
        header_block_spec(orig) == hb_shift(a, k, hb_shift(b, j, o)),
    ensures
        header_block_spec(orig) == hb_shift(a + b, (k + j) as nat, o),
{
    match o {
        Some(p) => {
            assert(a + (b + p.0) =~= (a + b) + p.0);
        },
        None => {},
    }
}

/// Parses a header block at `*pos` into a collection, consuming it through
/// the blank line: the result is [`collection_of`] the block's lines. A
/// well-formed block of more than `MAX_HEADERS` lines, or of more than
/// `MAX_HEADERS_SIZE` bytes, is `TooLong`; one that does not follow the
/// grammar, its final blank line included, is `Malformed`.
#[verifier::loop_isolation(false)]
pub fn parse_headers(data: &Vec<u8>, pos: &mut usize) -> (r: Result<HeaderCollection, HttpError>)
    requires
        *old(pos) <= data@.len(),
    ensures
        *old(pos) <= *final(pos) <= data@.len(),
        match header_block_spec(data@.skip(*old(pos) as int)) {
            Some(p) => if p.0.len() <= MAX_HEADERS && p.1 <= MAX_HEADERS_SIZE {
                r is Ok && r->Ok_0@ == collection_of(p.0) && *final(pos) == *old(pos) + p.1
            } else {
                r == Err::<HeaderCollection, HttpError>(HttpError::TooLong)
            },
            None => r == Err::<HeaderCollection, HttpError>(HttpError::Malformed),
        },
{
    let ghost orig = data@.skip(*old(pos) as int);
    let start = *pos;
    let mut h = HeaderCollection::new();
    let mut count: usize = 0;
    let ghost mut done: Seq<(Seq<u8>, Seq<u8>)> = Seq::empty();
    proof {
        assert(Seq::<(Seq<u8>, Seq<u8>)>::empty() + header_block_spec(orig)->Some_0.0
            =~= header_block_spec(orig)->Some_0.0);
    }
    loop
        invariant
            *old(pos) <= *pos <= data@.len(),
            count == done.len(),
            count <= *pos - *old(pos),
            h@ == collection_of(done),
            header_block_spec(orig) == hb_shift(
                done,
                (*pos - *old(pos)) as nat,
                header_block_spec(data@.skip(*pos as int)),
            ),
        decreases data@.len() - *pos,
    {
        let ghost rem = data@.skip(*pos as int);
        let ghost d = (*pos - *old(pos)) as nat;
        if data.len() - *pos >= 2 && data[*pos] == CR && data[*pos + 1] == LF {
            proof {
                assert(rem[0] == CR);
                assert(rem[1] == LF);
                assert(header_block_spec(rem) == Some((Seq::<(Seq<u8>, Seq<u8>)>::empty(), 2nat)));
                assert(done + Seq::<(Seq<u8>, Seq<u8>)>::empty() =~= done);
            }
            *pos = *pos + 2;
            if count > MAX_HEADERS || *pos - start > MAX_HEADERS_SIZE {
                return Err(HttpError::TooLong);
            }
            return Ok(h);
        }
        proof {
            if rem.len() >= 2 && rem[0] == CR && rem[1] == LF {
                assert(rem[0] == data@[*pos as int]);
                assert(rem[1] == data@[*pos + 1]);
                assert(false);
            }
        }
        let name = match read_header_name(data, pos) {
            Some(n) => n,
            None => {
                return Err(HttpError::Malformed);
            },
        };
        let ghost n1 = name_spec(rem)->Some_0.1;
        let ghost after = rem.skip(n1 as int);
        proof {
            assert(after =~= data@.skip(*pos as int));
        }
        let ows_start = *pos;
        let mut w: usize = *pos;
        while w < data.len() && is_ows_item(data[w])
            invariant
                ows_start <= w <= data@.len(),
                forall|j: int| 0 <= j < w - ows_start ==> crate::grammar::is_ows_byte(
                    #[trigger] after[j],
                ),
            decreases data@.len() - w,
        {
            proof {
                assert(after[w - ows_start] == data@[w as int]);
            }
            w += 1;
        }
        proof {
            if w < data.len() {
                assert(after[w - ows_start] == data@[w as int]);
            }
            lemma_ows_run(after, (w - ows_start) as nat);
            assert(data@.skip(w as int) =~= after.skip((w - ows_start) as int));
        }
        let ghost wn = (w - ows_start) as nat;
        *pos = w;
        let value = match read_header_value(data, pos) {
            Some(v) => v,
            None => {
                return Err(HttpError::Malformed);
            },
        };
        let ghost n2 = value_spec(after.skip(wn as int))->Some_0.1;
        let ghost hname = name@;
        let ghost hvalue = value@;
        proof {
            assert(data@.skip(*pos as int) =~= after.skip(wn as int + n2 as int));
            assert(header_block_spec(rem) == hb_shift(
                seq![(hname, hvalue)],
                (n1 + wn + n2) as nat,
                header_block_spec(after.skip(wn as int + n2 as int)),
            ));
            lemma_hb_shift_assoc(
                orig,
                done,
                seq![(hname, hvalue)],
                d,
                (n1 + wn + n2) as nat,
                header_block_spec(after.skip(wn as int + n2 as int)),
            );
        }
        proof {
            lemma_value_spec_bound(after.skip(wn as int));
        }
        count += 1;
        h.insert(name, value);
        proof {
            let new_done = done + seq![(hname, hvalue)];
            assert(new_done.drop_last() =~= done);
            assert(new_done.last() == (hname, hvalue));
            assert(collection_of(new_done) == insert_header_model(
                collection_of(done),
                hname,
                hvalue,
            ));
            done = new_done;
        }
    }
}

} // verus!

verus! {

/// A hexadecimal digit octet, either case.
pub open spec fn is_hex_digit_byte(b: u8) -> bool {
    (48 <= b <= 57) || (97 <= b <= 102) || (65 <= b <= 70)
}

/// The value of one hexadecimal digit octet.
pub open spec fn hex_digit_val(b: u8) -> int {
    if 48 <= b <= 57 {
        b - 48
    } else if 97 <= b <= 102 {
        b - 87
    } else {
        b - 55
    }
}

/// How many leading bytes of `s` are hexadecimal digits.
pub open spec fn hex_prefix_len(s: Seq<u8>) -> nat
    decreases s.len(),
{
    if s.len() == 0 || !is_hex_digit_byte(s[0]) {
        0
    } else {
        1 + hex_prefix_len(s.skip(1))
    }
}

/// A maximal run of `k` hexadecimal digits pins down [`hex_prefix_len`].
pub proof fn lemma_hex_prefix_len(s: Seq<u8>, k: nat)
    requires
        k <= s.len(),
        forall|i: int| 0 <= i < k ==> is_hex_digit_byte(#[trigger] s[i]),
        k < s.len() ==> !is_hex_digit_byte(s[k as int]),
    ensures
        hex_prefix_len(s) == k,
    decreases k,
{
    if k == 0 {
    } else {
        assert(is_hex_digit_byte(s[0]));
        assert forall|i: int| 0 <= i < k - 1 implies is_hex_digit_byte(
            #[trigger] s.skip(1)[i],
        ) by {
            assert(s.skip(1)[i] == s[i + 1]);
        }
        assert(k - 1 < s.skip(1).len() ==> !is_hex_digit_byte(s.skip(1)[k - 1]));
        lemma_hex_prefix_len(s.skip(1), (k - 1) as nat);
    }
}

/// The number a hexadecimal digit string denotes, most significant first.
pub open spec fn hex_val_of(s: Seq<u8>) -> int
    decreases s.len(),
{
    if s.len() == 0 {
        0
    } else {
        hex_val_of(s.drop_last()) * 16 + hex_digit_val(s.last())
    }
}

/// Every byte of `s` is a hexadecimal digit.
pub open spec fn all_hex_digits(s: Seq<u8>) -> bool {
    forall|i: int| 0 <= i < s.len() ==> is_hex_digit_byte(#[trigger] s[i])
}

/// A hexadecimal digit string never denotes a negative number.
pub proof fn lemma_hex_val_nonneg(s: Seq<u8>)
    requires
        all_hex_digits(s),
    ensures
        hex_val_of(s) >= 0,
    decreases s.len(),
{
    if s.len() == 0 {
    } else {
        assert(all_hex_digits(s.drop_last()));
        lemma_hex_val_nonneg(s.drop_last());
        assert(is_hex_digit_byte(s.last()));
        assert(hex_val_of(s.drop_last()) * 16 >= 0) by (nonlinear_arith)
            requires
                hex_val_of(s.drop_last()) >= 0,
        ;
    }
}

/// A hexadecimal string denotes at least as much as any of its prefixes.
pub proof fn lemma_hex_val_bounds(s: Seq<u8>, i: int)
    requires
        all_hex_digits(s),
        0 <= i <= s.len(),
    ensures
        0 <= hex_val_of(s.take(i)),
        hex_val_of(s.take(i)) <= hex_val_of(s),
    decreases s.len() - i,
{
    assert(all_hex_digits(s.take(i)));
    lemma_hex_val_nonneg(s.take(i));
    if i == s.len() {
        assert(s.take(i) =~= s);
    } else {
        lemma_hex_val_bounds(s, i + 1);
        assert(s.take(i + 1).drop_last() =~= s.take(i));
        assert(is_hex_digit_byte(s[i]));
        assert(hex_val_of(s.take(i + 1)) == hex_val_of(s.take(i)) * 16 + hex_digit_val(s[i]));
        assert(hex_val_of(s.take(i)) * 16 >= hex_val_of(s.take(i))) by (nonlinear_arith)
            requires
                hex_val_of(s.take(i)) >= 0,
        ;
    }
}

/// Exec mirror of [`is_hex_digit_byte`].
pub fn is_hex_digit_item(b: u8) -> (r: bool)
    ensures
        r == is_hex_digit_byte(b),
{
    (48 <= b && b <= 57) || (97 <= b && b <= 102) || (65 <= b && b <= 70)
}

/// Parses a hexadecimal integer: at least one digit, digits only; values
/// beyond `u64` range are refused.
pub fn parse_hex_u64(v: &[u8]) -> (r: Option<u64>)
    ensures
        if v@.len() > 0 && all_hex_digits(v@) && hex_val_of(v@) <= u64::MAX {
            r == Some(hex_val_of(v@) as u64)
        } else {
            r is None
        },
{
    if v.len() == 0 {
        return None;
    }
    let mut n: u64 = 0;
    let mut i: usize = 0;
    while i < v.len()
        invariant
            i <= v@.len(),
            all_hex_digits(v@.take(i as int)),
            n == hex_val_of(v@.take(i as int)),
        decreases v@.len() - i,
    {
        let b = v[i];
        if !is_hex_digit_item(b) {
            return None;
        }
        let d: u64 = if 48 <= b && b <= 57 {
            (b - 48) as u64
        } else if 97 <= b && b <= 102 {
            (b - 87) as u64
        } else {
            (b - 55) as u64
        };
        if n > (u64::MAX - d) / 16 {
            proof {
                assert(v@.take(i + 1).drop_last() =~= v@.take(i as int));
                assert(hex_val_of(v@.take(i + 1)) == n * 16 + d);
                assert(n * 16 + d > u64::MAX) by (nonlinear_arith)
                    requires
                        n > (u64::MAX - d) / 16,
                        0 <= d <= 15,
                        n >= 0,
                ;
                if all_hex_digits(v@) {
                    lemma_hex_val_bounds(v@, i + 1);
                }
            }
            return None;
        }
        proof {
            assert(n * 16 + d <= u64::MAX) by (nonlinear_arith)
                requires
                    n <= (u64::MAX - d) / 16,
                    0 <= d <= 15,
                    n >= 0,
            ;
            assert(v@.take(i + 1).drop_last() =~= v@.take(i as int));
        }
        n = n * 16 + d;
        i += 1;
    }
    proof {
        assert(v@.take(v@.len() as int) =~= v@);
    }
    Some(n)
}

/// The spec-level parse of a chunked body: chunks of a hexadecimal size
/// line and that many bytes, each CRLF-terminated, down to the zero-sized
/// chunk, then trailer header lines, discarded, through their blank line.
pub open spec fn chunked_spec(s: Seq<u8>) -> Option<(Seq<u8>, nat)>
    decreases s.len(),
    via chunked_spec_decreases
{
    let h = hex_prefix_len(s);
    if h == 0 || h + 2 > s.len() || s[h as int] != CR || s[h as int + 1] != LF || hex_val_of(
        s.take(h as int),
    ) > u64::MAX {
        None
    } else {
        let size = hex_val_of(s.take(h as int));
        if size == 0 {
            match header_block_spec(s.skip(h as int + 2)) {
                Some((lines, tn)) => if lines.len() <= MAX_HEADERS && tn <= MAX_HEADERS_SIZE {
                    Some((Seq::empty(), (h + 2 + tn) as nat))
                } else {
                    None
                },
                None => None,
            }
        } else if h + 2 + size + 2 <= s.len() && s[h + 2 + size] == CR && s[h + 2 + size + 1]
            == LF {
            match chunked_spec(s.skip(h + 2 + size + 2)) {
                Some((rest, n)) => Some(
                    (s.subrange(h as int + 2, h as int + 2 + size) + rest, (h + 2 + size + 2 + n) as nat),
                ),
                None => None,
            }
        } else {
            None
        }
    }
}

#[via_fn]
proof fn chunked_spec_decreases(s: Seq<u8>) {
    lemma_hex_prefix_digits(s);
    let h = hex_prefix_len(s);
    if h + 2 <= s.len() {
        lemma_hex_val_nonneg(s.take(h as int));
    }
}

/// The hexadecimal prefix consists of hexadecimal digits.
pub proof fn lemma_hex_prefix_digits(s: Seq<u8>)
    ensures
        all_hex_digits(s.take(hex_prefix_len(s) as int)),
        hex_prefix_len(s) <= s.len(),
    decreases s.len(),
{
    if s.len() == 0 || !is_hex_digit_byte(s[0]) {
        assert(s.take(0) =~= Seq::<u8>::empty());
    } else {
        lemma_hex_prefix_digits(s.skip(1));
        let h = hex_prefix_len(s);
        assert forall|i: int| 0 <= i < h implies is_hex_digit_byte(
            #[trigger] s.take(h as int)[i],
        ) by {
            if i == 0 {
            } else {
                assert(s.take(h as int)[i] == s.skip(1).take(hex_prefix_len(s.skip(1)) as int)[i
                    - 1]);
            }
        }
    }
}

/// Reads a chunked body at `*pos`, consuming it through the trailers'
/// blank line; the result is pinned by [`chunked_spec`].
#[verifier::loop_isolation(false)]
#[verifier::rlimit(60)]
pub fn read_chunked_body(data: &Vec<u8>, pos: &mut usize) -> (r: Result<Vec<u8>, HttpError>)
    requires
        *old(pos) <= data@.len(),
    ensures
        *old(pos) <= *final(pos) <= data@.len(),
        match chunked_spec(data@.skip(*old(pos) as int)) {
            Some(p) => r is Ok && r->Ok_0@ == p.0 && *final(pos) == *old(pos) + p.1,
            None => r == Err::<Vec<u8>, HttpError>(HttpError::Malformed),
        },
    decreases data@.len() - *old(pos),
{
    let ghost rem = data@.skip(*old(pos) as int);
    let dlen = data.len();
    let start = *pos;
    let mut i: usize = start;
    while i < dlen && is_hex_digit_item(data[i])
        invariant
            start <= i <= dlen,
            forall|j: int| 0 <= j < i - start ==> is_hex_digit_byte(#[trigger] rem[j]),
        decreases dlen - i,
    {
        proof {
            assert(rem[i - start] == data@[i as int]);
        }
        i += 1;
    }
    proof {
        if i < dlen {
            assert(rem[i - start] == data@[i as int]);
        }
        lemma_hex_prefix_len(rem, (i - start) as nat);
    }
    let ghost h = (i - start) as nat;
    if i == start || dlen - i < 2 {
        return Err(HttpError::Malformed);
    }
    if !(data[i] == CR && data[i + 1] == LF) {
        proof {
            assert(rem[h as int] == data@[i as int]);
            assert(rem[h as int + 1] == data@[i + 1]);
        }
        return Err(HttpError::Malformed);
    }
    proof {
        assert(rem[h as int] == data@[i as int]);
        assert(rem[h as int + 1] == data@[i + 1]);
    }
    let size_digits = vec_sub(data, start, i);
    proof {
        assert(size_digits@ =~= rem.take(h as int));
    }
    let size = match parse_hex_u64(size_digits.as_slice()) {
        Some(v) => v,
        None => {
            return Err(HttpError::Malformed);
        },
    };
    proof {
        lemma_hex_val_nonneg(size_digits@);
    }
    *pos = i + 2;
    proof {
        assert(rem.skip(h as int + 2) =~= data@.skip(i + 2));
    }
    if size == 0 {
        match parse_headers(data, pos) {
            Ok(_) => {},
            Err(_) => {
                return Err(HttpError::Malformed);
            },
        }
        return Ok(Vec::new());
    }
    if (size as u64) > (dlen - *pos) as u64 {
        return Err(HttpError::Malformed);
    }
    let size_us = size as usize;
    if dlen - (*pos + size_us) < 2 {
        return Err(HttpError::Malformed);
    }
    let chunk_end = *pos + size_us;
    if !(data[chunk_end] == CR && data[chunk_end + 1] == LF) {
        proof {
            assert(rem[h + 2 + size as int] == data@[chunk_end as int]);
            assert(rem[h + 2 + size as int + 1] == data@[chunk_end as int + 1]);
        }
        return Err(HttpError::Malformed);
    }
    proof {
        assert(rem[h + 2 + size as int] == data@[chunk_end as int]);
        assert(rem[h + 2 + size as int + 1] == data@[chunk_end as int + 1]);
    }
    let mut chunk = vec_sub(data, *pos, chunk_end);
    proof {
        assert(chunk@ =~= rem.subrange(h as int + 2, h + 2 + size as int));
    }
    *pos = chunk_end + 2;
    proof {
        assert(data@.skip(*pos as int) =~= rem.skip(h + 2 + size as int + 2));
    }
    match read_chunked_body(data, pos) {
        Ok(mut rest) => {
            chunk.append(&mut rest);
            proof {
                let p = chunked_spec(rem.skip(h + 2 + size as int + 2))->Some_0;
                assert(chunk@ =~= rem.subrange(h as int + 2, h + 2 + size as int) + p.0);
            }
            Ok(chunk)
        },
        Err(e) => Err(e),
    }
}

/// A parsed request.
#[derive(Debug)]
pub struct Request {
    /// The request method.
    pub method: Method,
    /// The request target, verbatim bytes between the two spaces.
    pub uri: Vec<u8>,
    /// The protocol version digits, major and minor.
    pub version: (u8, u8),
    /// The parsed header block.
    pub headers: HeaderCollection,
    /// The body, framed by `Content-Length`.
    pub body: Vec<u8>,
    /// Whether the connection must close after this request's response.
    pub close_connection: bool,
    /// The peer the request arrived from, when known.
    pub remote_addr: Option<SocketAddress>,
}

/// Whether the connection closes after this request: HTTP/1.0 closes
/// unless the `Connection` list carries `keep-alive`; HTTP/1.1 stays open
/// unless the list carries `close`. Both tokens are matched per element
/// of the comma-separated list, regardless of ASCII case.
pub open spec fn derive_close(version: (u8, u8), conn: Option<Seq<u8>>) -> bool {
    if version.1 == 0 {
        !(conn matches Some(v) && list_has_token(v, ascii_seq("keep-alive"@)))
    } else {
        conn matches Some(v) && list_has_token(v, ascii_seq("close"@))
    }
}

/// The spec-level model of a fully parsed request.
#[verifier::ext_equal]
pub struct ReqModel {
    /// The method token's bytes.
    pub method_token: Seq<u8>,
    /// The request target bytes.
    pub uri: Seq<u8>,
    /// The version digits.
    pub version: (u8, u8),
    /// The header lines, names and unfolded values.
    pub lines: Seq<(Seq<u8>, Seq<u8>)>,
    /// The body bytes.
    pub body: Seq<u8>,
    /// How many input bytes the whole request occupies.
    pub consumed: nat,
}

/// The spec-level parse of a whole request from the front of `s`: method
/// token and space, target and space, `HTTP/x.y` and CRLF, header block,
/// then `Content-Length` body bytes. On failure, the status code to emit:
/// 505 for a major version other than 1, 414 for an over-long target, 413
/// for too many headers, else 400.
pub open spec fn request_spec(s: Seq<u8>) -> Result<ReqModel, u16> {
    let n = token_len(s);
    if n == 0 || n > MAX_METHOD_LEN || n >= s.len() || s[n as int] != SP {
        Err(400u16)
    } else {
        let after_m = s.skip(n as int + 1);
        match find_byte(after_m, SP) {
            None => Err(400u16),
            Some(u) => if u == 0 {
                Err(400u16)
            } else if u > MAX_URI_LEN {
                Err(414u16)
            } else if exists|i: int| 0 <= i < u && is_ctl_byte(#[trigger] after_m[i]) {
                Err(400u16)
            } else {
                let after_u = after_m.skip(u as int + 1);
                if after_u.len() >= 10 && after_u[0] == 72 && after_u[1] == 84 && after_u[2] == 84
                    && after_u[3] == 80 && after_u[4] == 47 && is_digit_byte(after_u[5])
                    && after_u[6] == DOT && is_digit_byte(after_u[7]) && after_u[8] == CR
                    && after_u[9] == LF {
                    if after_u[5] != 49 {
                        Err(505u16)
                    } else {
                        let after_v = after_u.skip(10);
                        match header_block_spec(after_v) {
                            None => Err(400u16),
                            Some((lines, hn)) => if lines.len() > MAX_HEADERS || hn
                                > MAX_HEADERS_SIZE {
                                Err(413u16)
                            } else {
                                let hm = collection_of(lines);
                                let after_h = after_v.skip(hn as int);
                                if headers_chunked(hm) {
                                    match chunked_spec(after_h) {
                                        Some((body, bn)) => Ok(
                                            ReqModel {
                                                method_token: s.take(n as int),
                                                uri: after_m.take(u as int),
                                                version: (
                                                    (after_u[5] - 48) as u8,
                                                    (after_u[7] - 48) as u8,
                                                ),
                                                lines,
                                                body,
                                                consumed: (n + 1 + u + 1 + 10 + hn + bn) as nat,
                                            },
                                        ),
                                        None => Err(400u16),
                                    }
                                } else {
                                    let blen: int = match hm.content_length {
                                        Some(cl) => cl as int,
                                        None => 0,
                                    };
                                    if after_h.len() < blen {
                                        Err(400u16)
                                    } else {
                                        Ok(
                                            ReqModel {
                                                method_token: s.take(n as int),
                                                uri: after_m.take(u as int),
                                                version: (
                                                    (after_u[5] - 48) as u8,
                                                    (after_u[7] - 48) as u8,
                                                ),
                                                lines,
                                                body: after_h.take(blen),
                                                consumed: (n + 1 + u + 1 + 10 + hn + blen) as nat,
                                            },
                                        )
                                    }
                                }
                            },
                        }
                    }
                } else {
                    Err(400u16)
                }
            },
        }
    }
}

impl Request {
    /// Parses one request at `*pos` in `data`, exactly as [`request_spec`]
    /// says. On success the parsed request is handed back with `Ok(())`
    /// and its fields pinned: the method per the wire recognizer, target
    /// and body verbatim, headers per [`collection_of`], and
    /// `close_connection` per [`derive_close`]. On failure a partially
    /// filled request comes back marked to close, beside the status to
    /// emit.
    #[verifier::loop_isolation(false)]
    #[verifier::rlimit(100)]
    pub fn load(data: &Vec<u8>, pos: &mut usize) -> (r: (Request, Result<(), Status>))
        requires
            *old(pos) <= data@.len(),
        ensures
            *old(pos) <= *final(pos) <= data@.len(),
            match request_spec(data@.skip(*old(pos) as int)) {
                Ok(rm) => {
                    &&& r.1 is Ok
                    &&& wire_parse_matches(rm.method_token, r.0.method)
                    &&& r.0.uri@ == rm.uri
                    &&& r.0.version == rm.version
                    &&& r.0.headers@ == collection_of(rm.lines)
                    &&& r.0.body@ == rm.body
                    &&& r.0.close_connection == derive_close(
                        rm.version,
                        collection_of(rm.lines).connection,
                    )
                    &&& *final(pos) == *old(pos) + rm.consumed
                },
                Err(code) => {
                    &&& r.1 is Err
                    &&& r.1->Err_0.code == code
                    &&& r.0.close_connection == true
                },
            },
    {
        let ghost s = data@.skip(*old(pos) as int);
        let dlen = data.len();
        let mut req = Request {
            method: Method::Get,
            uri: Vec::new(),
            version: (1, 1),
            headers: HeaderCollection::new(),
            body: Vec::new(),
            close_connection: true,
            remote_addr: None,
        };
        let method = match read_method(data, pos, MAX_METHOD_LEN) {
            Ok(m) => m,
            Err(_) => {
                return (req, Err(Status::from_code(400)));
            },
        };
        let ghost n = token_len(s);
        let ghost after_m = s.skip(n as int + 1);
        proof {
            assert(after_m =~= data@.skip(*pos as int));
        }
        let uri_start = *pos;
        let mut i: usize = *pos;
        let mut saw_ctl = false;
        while i < dlen && data[i] != SP
            invariant
                uri_start <= i <= dlen,
                dlen == data@.len(),
                forall|j: int| 0 <= j < i - uri_start ==> #[trigger] after_m[j] != SP,
                saw_ctl == exists|j: int|
                    0 <= j < i - uri_start && is_ctl_byte(#[trigger] after_m[j]),
            decreases dlen - i,
        {
            proof {
                assert(after_m[i - uri_start] == data@[i as int]);
            }
            if crate::grammar::is_ctl_item(data[i]) {
                saw_ctl = true;
            }
            i += 1;
        }
        if i == dlen {
            proof {
                lemma_find_byte_none(after_m, SP);
            }
            return (req, Err(Status::from_code(400)));
        }
        proof {
            assert(after_m[i - uri_start] == data@[i as int]);
            lemma_find_byte_at(after_m, SP, (i - uri_start) as nat);
        }
        let ghost u = (i - uri_start) as nat;
        if i == uri_start {
            *pos = i + 1;
            return (req, Err(Status::from_code(400)));
        }
        if i - uri_start > MAX_URI_LEN {
            *pos = i + 1;
            return (req, Err(Status::from_code(414)));
        }
        if saw_ctl {
            *pos = i + 1;
            return (req, Err(Status::from_code(400)));
        }
        let uri = vec_sub(data, uri_start, i);
        proof {
            assert(uri@ =~= after_m.take(u as int));
        }
        *pos = i + 1;
        let ghost after_u = after_m.skip(u as int + 1);
        proof {
            assert(after_u =~= data@.skip(*pos as int));
        }
        if dlen - *pos < 10 {
            return (req, Err(Status::from_code(400)));
        }
        let v = *pos;
        let shape_ok = data[v] == 72 && data[v + 1] == 84 && data[v + 2] == 84 && data[v + 3]
            == 80 && data[v + 4] == 47 && 48 <= data[v + 5] && data[v + 5] <= 57 && data[v + 6]
            == DOT && 48 <= data[v + 7] && data[v + 7] <= 57 && data[v + 8] == CR && data[v + 9]
            == LF;
        if !shape_ok {
            return (req, Err(Status::from_code(400)));
        }
        if data[v + 5] != 49 {
            return (req, Err(Status::from_code(505)));
        }
        let major = data[v + 5] - 48;
        let minor = data[v + 7] - 48;
        *pos = v + 10;
        let ghost after_v = after_u.skip(10);
        proof {
            assert(after_v =~= data@.skip(*pos as int));
        }
        let headers = match parse_headers(data, pos) {
            Ok(h) => h,
            Err(HttpError::TooLong) => {
                return (req, Err(Status::from_code(413)));
            },
            Err(_) => {
                return (req, Err(Status::from_code(400)));
            },
        };
        let ghost hb = header_block_spec(after_v)->Some_0;
        let ghost after_h = after_v.skip(hb.1 as int);
        proof {
            assert(after_h =~= data@.skip(*pos as int));
        }
        let te_chunked = collection_chunked(&headers);
        let body: Vec<u8>;
        if te_chunked {
            body = match read_chunked_body(data, pos) {
                Ok(b) => b,
                Err(_) => {
                    return (req, Err(Status::from_code(400)));
                },
            };
        } else {
            let blen_u64: u64 = match headers.content_length {
                Some(cl) => cl,
                None => 0,
            };
            if blen_u64 > (dlen - *pos) as u64 {
                return (req, Err(Status::from_code(400)));
            }
            let blen = blen_u64 as usize;
            let b = vec_sub(data, *pos, *pos + blen);
            proof {
                assert(b@ =~= after_h.take(blen as int));
            }
            *pos = *pos + blen;
            body = b;
        }
        proof {
            reveal_strlit("keep-alive");
            reveal_strlit("close");
            lemma_lit_bytes("keep-alive");
            lemma_lit_bytes("close");
        }
        let conn_keep_alive = match &headers.connection {
            Some(v) => {
                proof {
                    assert(v@.skip(0) =~= v@);
                }
                list_has_token_exec(v, 0, "keep-alive".as_bytes())
            },
            None => false,
        };
        let conn_close = match &headers.connection {
            Some(v) => {
                proof {
                    assert(v@.skip(0) =~= v@);
                }
                list_has_token_exec(v, 0, "close".as_bytes())
            },
            None => false,
        };
        let close_connection = if minor == 0 {
            !conn_keep_alive
        } else {
            conn_close
        };
        req = Request {
            method,
            uri,
            version: (major, minor),
            headers,
            body,
            close_connection,
            remote_addr: None,
        };
        (req, Ok(()))
    }
}

} // verus!
