//! Typed header values and the byte iterator their parsers read from.
//!
//! A [`HeaderValueByteIterator`] holds the value bytes of one header with
//! obsolete line folding already undone, so the terminating CRLF and any
//! folded continuation lines are gone by the time a typed parser runs. A
//! parser finishes with [`HeaderValueByteIterator::some_if_consumed`]:
//! surplus trailing bytes make the parse fail.

use vstd::prelude::*;

use crate::grammar::{dequote_bytes, is_qdtext_item, is_ows_byte, is_ows_item, BACKSLASH, COMMA, QUOTE};

pub mod collection;
pub mod etag;

verus! {

/// Composes a decoded prefix and consumed count onto a later parse result.
pub open spec fn dq_shift(prefix: Seq<u8>, k: nat, o: Option<(Seq<u8>, nat)>) -> Option<
    (Seq<u8>, nat),
> {
    match o {
        Some(p) => Some((prefix + p.0, (p.1 + k) as nat)),
        None => None,
    }
}

/// Yields the value bytes of a single header, one at a time.
pub struct HeaderValueByteIterator {
    data: Vec<u8>,
    pos: usize,
}

impl HeaderValueByteIterator {
    /// The full unfolded value this iterator was created over.
    pub closed spec fn contents(&self) -> Seq<u8> {
        self.data@
    }

    /// How many value bytes have been yielded.
    pub closed spec fn position(&self) -> nat {
        self.pos as nat
    }

    /// The value bytes not yet yielded.
    pub open spec fn remaining(&self) -> Seq<u8> {
        self.contents().skip(self.position() as int)
    }

    /// The position never runs past the value.
    pub closed spec fn wf(&self) -> bool {
        self.pos <= self.data.len()
    }

    /// An iterator over the unfolded value bytes `data`.
    pub fn new(data: Vec<u8>) -> (r: HeaderValueByteIterator)
        ensures
            r.contents() == data@,
            r.position() == 0,
            r.wf(),
    {
        HeaderValueByteIterator { data, pos: 0 }
    }

    /// The next value byte, or `None` once the value is exhausted.
    pub fn next(&mut self) -> (r: Option<u8>)
        requires
            old(self).wf(),
        ensures
            final(self).wf(),
            final(self).contents() == old(self).contents(),
            if old(self).remaining().len() == 0 {
                r is None && final(self).position() == old(self).position()
            } else {
                r == Some(old(self).remaining()[0]) && final(self).position() == old(
                    self,
                ).position() + 1
            },
    {
        if self.pos == self.data.len() {
            None
        } else {
            let b = self.data[self.pos];
            self.pos = self.pos + 1;
            Some(b)
        }
    }

    /// Hands `v` back only if the whole value has been consumed; a parser
    /// returns through this so that surplus trailing bytes fail the parse.
    pub fn some_if_consumed<T>(&self, v: T) -> (r: Option<T>)
        requires
            self.wf(),
        ensures
            r == if self.remaining().len() == 0 {
                Some(v)
            } else {
                None::<T>
            },
    {
        if self.pos == self.data.len() {
            Some(v)
        } else {
            None
        }
    }

    /// Reads a quoted string whose opening `"` has already been consumed,
    /// decoding `\X` escapes to `X`, through the closing `"`.
    ///
    /// Returns the decoded payload exactly when the remaining value starts
    /// with a well-formed quoted-string tail ([`dequote_bytes`]), consuming
    /// exactly those bytes.
    pub fn read_quoted_string(&mut self) -> (r: Option<Vec<u8>>)
        requires
            old(self).wf(),
        ensures
            final(self).wf(),
            final(self).contents() == old(self).contents(),
            old(self).position() <= final(self).position(),
            match dequote_bytes(old(self).remaining()) {
                Some(p) => r is Some && r->Some_0@ == p.0 && final(self).position() == old(
                    self,
                ).position() + p.1,
                None => r is None,
            },
    {
        let mut out: Vec<u8> = Vec::new();
        let ghost orig = self.remaining();
        let ghost start = self.position();
        loop
            invariant
                self.wf(),
                self.contents() == old(self).contents(),
                start == old(self).position(),
                orig == old(self).remaining(),
                start <= self.position(),
                dequote_bytes(orig) == dq_shift(
                    out@,
                    (self.position() - start) as nat,
                    dequote_bytes(self.remaining()),
                ),
            decreases self.contents().len() - self.position(),
        {
            let ghost rem = self.remaining();
            let ghost d = (self.position() - start) as nat;
            if self.pos == self.data.len() {
                proof {
                    assert(rem.len() == 0);
                    assert(dequote_bytes(rem) is None);
                }
                return None;
            }
            let b = self.data[self.pos];
            proof {
                assert(rem[0] == b);
            }
            if b == QUOTE {
                self.pos = self.pos + 1;
                proof {
                    assert(dequote_bytes(rem) == Some((Seq::<u8>::empty(), 1nat)));
                    assert(out@ + Seq::<u8>::empty() =~= out@);
                }
                return Some(out);
            } else if b == BACKSLASH {
                if self.pos + 1 == self.data.len() {
                    proof {
                        assert(rem.len() == 1);
                        assert(dequote_bytes(rem) is None);
                    }
                    return None;
                }
                let c = self.data[self.pos + 1];
                self.pos = self.pos + 2;
                let ghost out_old = out@;
                out.push(c);
                proof {
                    assert(rem.len() >= 2);
                    assert(rem[1] == c);
                    assert(self.remaining() =~= rem.skip(2));
                    assert(dequote_bytes(rem) == dq_shift(
                        seq![c],
                        2nat,
                        dequote_bytes(rem.skip(2)),
                    ));
                    lemma_dq_shift_assoc(
                        old(self).remaining(),
                        out_old,
                        seq![c],
                        d,
                        2nat,
                        dequote_bytes(rem.skip(2)),
                    );
                    assert(out_old + seq![c] =~= out@);
                }
            } else if is_qdtext_item(b) {
                self.pos = self.pos + 1;
                let ghost out_old = out@;
                out.push(b);
                proof {
                    assert(self.remaining() =~= rem.skip(1));
                    assert(dequote_bytes(rem) == dq_shift(
                        seq![b],
                        1nat,
                        dequote_bytes(rem.skip(1)),
                    ));
                    lemma_dq_shift_assoc(
                        old(self).remaining(),
                        out_old,
                        seq![b],
                        d,
                        1nat,
                        dequote_bytes(rem.skip(1)),
                    );
                    assert(out_old + seq![b] =~= out@);
                }
            } else {
                proof {
                    assert(dequote_bytes(rem) is None);
                }
                return None;
            }
        }
    }
}

/// Shifting twice composes: prefixes concatenate and counts add.
proof fn lemma_dq_shift_assoc(
    orig: Seq<u8>,
    a: Seq<u8>,
    b: Seq<u8>,
    k: nat,
    j: nat,
    o: Option<(Seq<u8>, nat)>,
)
    requires
        dequote_bytes(orig) == dq_shift(a, k, dq_shift(b, j, o)),
    ensures
        dequote_bytes(orig) == dq_shift(a + b, (k + j) as nat, o),
{
    match o {
        Some(p) => {
            assert(a + (b + p.0) =~= (a + b) + p.0);
        },
        None => {},
    }
}

} // verus!

verus! {

/// A byte with an ASCII lowercase letter raised to uppercase.
pub open spec fn upper_byte(b: u8) -> u8 {
    if 97 <= b <= 122 {
        (b - 32) as u8
    } else {
        b
    }
}

/// Equality of byte sequences regardless of ASCII case.
pub open spec fn iequal_bytes(s: Seq<u8>, t: Seq<u8>) -> bool {
    s.len() == t.len() && forall|i: int|
        0 <= i < s.len() ==> upper_byte(#[trigger] s[i]) == upper_byte(t[i])
}

/// Compares two byte slices for equality regardless of ASCII case.
pub fn bytes_iequal(a: &[u8], b: &[u8]) -> (r: bool)
    ensures
        r == iequal_bytes(a@, b@),
{
    if a.len() != b.len() {
        return false;
    }
    let n = a.len();
    let mut i: usize = 0;
    while i < n
        invariant
            i <= n,
            n == a@.len(),
            n == b@.len(),
            forall|j: int| 0 <= j < i ==> upper_byte(#[trigger] a@[j]) == upper_byte(b@[j]),
        decreases n - i,
    {
        let ba = a[i];
        let bb = b[i];
        let ua = if 97 <= ba && ba <= 122 {
            ba - 32
        } else {
            ba
        };
        let ub = if 97 <= bb && bb <= 122 {
            bb - 32
        } else {
            bb
        };
        if ua != ub {
            return false;
        }
        i += 1;
    }
    true
}

/// The index of the first occurrence of `b` in `s`, if any.
pub open spec fn find_byte(s: Seq<u8>, b: u8) -> Option<nat>
    decreases s.len(),
{
    if s.len() == 0 {
        None
    } else if s[0] == b {
        Some(0nat)
    } else {
        match find_byte(s.skip(1), b) {
            Some(n) => Some(n + 1),
            None => None,
        }
    }
}

/// An occurrence of `b` at `k` with none before pins down [`find_byte`].
pub proof fn lemma_find_byte_at(s: Seq<u8>, b: u8, k: nat)
    requires
        k < s.len(),
        s[k as int] == b,
        forall|j: int| 0 <= j < k ==> #[trigger] s[j] != b,
    ensures
        find_byte(s, b) == Some(k),
    decreases k,
{
    if k == 0 {
    } else {
        assert forall|j: int| 0 <= j < k - 1 implies #[trigger] s.skip(1)[j] != b by {
            assert(s.skip(1)[j] == s[j + 1]);
        }
        assert(s.skip(1)[k - 1] == s[k as int]);
        lemma_find_byte_at(s.skip(1), b, (k - 1) as nat);
    }
}

/// With `b` nowhere in `s`, [`find_byte`] finds nothing.
pub proof fn lemma_find_byte_none(s: Seq<u8>, b: u8)
    requires
        forall|j: int| 0 <= j < s.len() ==> #[trigger] s[j] != b,
    ensures
        find_byte(s, b) is None,
    decreases s.len(),
{
    if s.len() == 0 {
    } else {
        assert forall|j: int| 0 <= j < s.skip(1).len() implies #[trigger] s.skip(1)[j] != b by {
            assert(s.skip(1)[j] == s[j + 1]);
        }
        lemma_find_byte_none(s.skip(1), b);
    }
}

/// How many leading bytes of `s` are optional whitespace.
pub open spec fn ows_run(s: Seq<u8>) -> nat
    decreases s.len(),
{
    if s.len() == 0 || !is_ows_byte(s[0]) {
        0
    } else {
        1 + ows_run(s.skip(1))
    }
}

/// The whitespace run never runs past the sequence.
pub proof fn lemma_ows_run_bound(s: Seq<u8>)
    ensures
        ows_run(s) <= s.len(),
    decreases s.len(),
{
    if s.len() == 0 || !is_ows_byte(s[0]) {
    } else {
        lemma_ows_run_bound(s.skip(1));
    }
}

/// A maximal run of `k` whitespace bytes pins down [`ows_run`].
pub proof fn lemma_ows_run(s: Seq<u8>, k: nat)
    requires
        k <= s.len(),
        forall|i: int| 0 <= i < k ==> is_ows_byte(#[trigger] s[i]),
        k < s.len() ==> !is_ows_byte(s[k as int]),
    ensures
        ows_run(s) == k,
    decreases k,
{
    if k == 0 {
    } else {
        assert(is_ows_byte(s[0]));
        assert forall|i: int| 0 <= i < k - 1 implies is_ows_byte(#[trigger] s.skip(1)[i]) by {
            assert(s.skip(1)[i] == s[i + 1]);
        }
        assert(k - 1 < s.skip(1).len() ==> !is_ows_byte(s.skip(1)[k - 1]));
        lemma_ows_run(s.skip(1), (k - 1) as nat);
    }
}

/// Every byte of `s` is a decimal digit.
pub open spec fn all_digits(s: Seq<u8>) -> bool {
    forall|i: int| 0 <= i < s.len() ==> crate::status::is_digit_byte(#[trigger] s[i])
}

/// The number a digit string denotes, most significant digit first.
pub open spec fn dec_val(s: Seq<u8>) -> int
    decreases s.len(),
{
    if s.len() == 0 {
        0
    } else {
        dec_val(s.drop_last()) * 10 + (s.last() - 48)
    }
}

/// The canonical decimal digits of a non-negative number, no leading zeros.
pub open spec fn dec_u64(n: int) -> Seq<u8>
    decreases n,
{
    if n <= 0 {
        seq![48u8]
    } else if n < 10 {
        seq![(48 + n) as u8]
    } else {
        dec_u64(n / 10) + seq![(48 + n % 10) as u8]
    }
}

/// A digit string denotes at least zero, and denotes at least as much as
/// any of its prefixes.
pub proof fn lemma_dec_val_bounds(s: Seq<u8>, i: int)
    requires
        all_digits(s),
        0 <= i <= s.len(),
    ensures
        0 <= dec_val(s.take(i)),
        dec_val(s.take(i)) <= dec_val(s),
    decreases s.len() - i,
{
    lemma_dec_val_nonneg(s.take(i));
    if i == s.len() {
        assert(s.take(i) =~= s);
    } else {
        lemma_dec_val_bounds(s, i + 1);
        assert(s.take(i + 1).drop_last() =~= s.take(i));
        assert(crate::status::is_digit_byte(s[i]));
        assert(dec_val(s.take(i + 1)) == dec_val(s.take(i)) * 10 + (s[i] - 48));
        lemma_dec_val_nonneg(s.take(i));
        assert(dec_val(s.take(i)) * 10 >= dec_val(s.take(i))) by (nonlinear_arith)
            requires
                dec_val(s.take(i)) >= 0,
        ;
    }
}

/// A digit string never denotes a negative number.
pub proof fn lemma_dec_val_nonneg(s: Seq<u8>)
    requires
        all_digits(s),
    ensures
        dec_val(s) >= 0,
    decreases s.len(),
{
    if s.len() == 0 {
    } else {
        assert(all_digits(s.drop_last()));
        lemma_dec_val_nonneg(s.drop_last());
        assert(crate::status::is_digit_byte(s.last()));
        assert(dec_val(s.drop_last()) * 10 >= 0) by (nonlinear_arith)
            requires
                dec_val(s.drop_last()) >= 0,
        ;
    }
}

/// Parses a non-negative decimal integer: at least one digit, digits only,
/// no sign; values beyond `u64` range are refused.
pub fn parse_u64_dec(v: &[u8]) -> (r: Option<u64>)
    ensures
        if v@.len() > 0 && all_digits(v@) && dec_val(v@) <= u64::MAX {
            r == Some(dec_val(v@) as u64)
        } else {
            r is None
        },
{
    if v.len() == 0 {
        return None;
    }
    let mut n: u64 = 0;
    let mut i: usize = 0;
    while i < v.len()
        invariant
            i <= v@.len(),
            all_digits(v@.take(i as int)),
            n == dec_val(v@.take(i as int)),
        decreases v@.len() - i,
    {
        let b = v[i];
        if b < 48 || b > 57 {
            return None;
        }
        let d: u64 = (b - 48) as u64;
        if n > (u64::MAX - d) / 10 {
            proof {
                assert(v@.take(i + 1).drop_last() =~= v@.take(i as int));
                assert(dec_val(v@.take(i + 1)) == n * 10 + d);
                assert(n * 10 + d > u64::MAX) by (nonlinear_arith)
                    requires
                        n > (u64::MAX - d) / 10,
                        0 <= d <= 9,
                        n >= 0,
                ;
                if all_digits(v@) {
                    lemma_dec_val_bounds(v@, i + 1);
                }
            }
            return None;
        }
        proof {
            assert(n * 10 + d <= u64::MAX) by (nonlinear_arith)
                requires
                    n <= (u64::MAX - d) / 10,
                    0 <= d <= 9,
                    n >= 0,
            ;
            assert(v@.take(i + 1).drop_last() =~= v@.take(i as int));
        }
        n = n * 10 + d;
        i += 1;
    }
    proof {
        assert(v@.take(v@.len() as int) =~= v@);
    }
    Some(n)
}

/// Appends the canonical decimal digits of `n` onto `out`.
pub fn push_u64_dec(out: &mut Vec<u8>, n: u64)
    ensures
        final(out)@ == old(out)@ + dec_u64(n as int),
    decreases n,
{
    if n < 10 {
        out.push(48 + n as u8);
        proof {
            assert(final(out)@ =~= old(out)@ + dec_u64(n as int));
        }
    } else {
        proof {
            assert(n / 10 < n) by (nonlinear_arith)
                requires
                    n >= 10,
            ;
        }
        push_u64_dec(out, n / 10);
        out.push(48 + (n % 10) as u8);
        proof {
            assert(final(out)@ =~= old(out)@ + dec_u64(n as int));
        }
    }
}

/// Round trip for the decimal codec: the canonical digits of any `u64`
/// denote that number again, are digits throughout, and carry no leading
/// zero unless the number is zero itself.
pub proof fn lemma_dec_round_trip(n: int)
    requires
        0 <= n <= u64::MAX,
    ensures
        all_digits(dec_u64(n)),
        dec_val(dec_u64(n)) == n,
        dec_u64(n).len() > 0,
        dec_u64(n)[0] == 48 ==> dec_u64(n).len() == 1,
    decreases n,
{
    assert(dec_val(Seq::<u8>::empty()) == 0);
    if n <= 0 {
        assert(seq![48u8].drop_last() =~= Seq::<u8>::empty());
        assert(dec_val(seq![48u8]) == 0);
        assert(dec_u64(n) == seq![48u8]);
        assert(dec_val(dec_u64(n)) == n);
    } else if n < 10 {
        assert(dec_u64(n) == seq![(48 + n) as u8]);
        assert(dec_u64(n).drop_last() =~= Seq::<u8>::empty());
        assert(dec_val(dec_u64(n)) == n);
    } else {
        lemma_dec_round_trip(n / 10);
        let pre = dec_u64(n / 10);
        assert forall|i: int| 0 <= i < dec_u64(n).len() implies crate::status::is_digit_byte(
            #[trigger] dec_u64(n)[i],
        ) by {
            if i < pre.len() {
                assert(dec_u64(n)[i] == pre[i]);
                assert(crate::status::is_digit_byte(pre[i]));
            } else {
                assert(dec_u64(n)[i] == (48 + n % 10) as u8);
            }
        }
        assert((dec_u64(n)).drop_last() =~= pre);
        assert(dec_u64(n).last() == (48 + n % 10) as u8);
        assert(dec_val(dec_u64(n)) == dec_val(pre) * 10 + n % 10);
        assert(n / 10 * 10 + n % 10 == n);
        assert(n / 10 >= 1);
        assert(dec_u64(n)[0] == pre[0]);
        if pre[0] == 48 {
            assert(pre.len() == 1);
            assert(pre.drop_last() =~= Seq::<u8>::empty());
            assert(dec_val(pre) == pre[0] - 48);
            assert(false);
        }
        assert(dec_val(dec_u64(n)) == n);
        assert(dec_u64(n).len() > 1);
    }
}

/// A digit string with a non-zero leading digit denotes at least one.
pub proof fn lemma_dec_val_pos(s: Seq<u8>)
    requires
        s.len() > 0,
        all_digits(s),
        s[0] != 48,
    ensures
        dec_val(s) >= 1,
    decreases s.len(),
{
    if s.len() == 1 {
        assert(s.drop_last() =~= Seq::<u8>::empty());
        assert(dec_val(Seq::<u8>::empty()) == 0);
    } else {
        let pre = s.drop_last();
        assert(pre[0] == s[0]);
        assert(all_digits(pre));
        lemma_dec_val_pos(pre);
        assert(crate::status::is_digit_byte(s.last()));
        assert(dec_val(pre) * 10 >= 10) by (nonlinear_arith)
            requires
                dec_val(pre) >= 1,
        ;
    }
}

/// Canonical form for the decimal codec: a digit string without a
/// superfluous leading zero is reproduced exactly by serializing the
/// number it denotes. (`007` denotes 7 but serializes as `7`, so such
/// strings are left out.)
pub proof fn lemma_dec_canonical(s: Seq<u8>)
    requires
        s.len() > 0,
        all_digits(s),
        dec_val(s) <= u64::MAX,
        s[0] == 48 ==> s.len() == 1,
    ensures
        dec_u64(dec_val(s)) == s,
    decreases s.len(),
{
    assert(dec_val(Seq::<u8>::empty()) == 0);
    if s.len() == 1 {
        assert(s.drop_last() =~= Seq::<u8>::empty());
        let d = s[0] - 48;
        assert(dec_val(s) == d);
        assert(dec_u64(d) =~= s);
    } else {
        let pre = s.drop_last();
        let d = s.last() - 48;
        assert(all_digits(pre));
        assert(pre[0] == s[0]);
        assert(s[0] != 48);
        lemma_dec_val_pos(pre);
        lemma_dec_val_nonneg(pre);
        let v = dec_val(s);
        assert(v == dec_val(pre) * 10 + d);
        assert(dec_val(pre) <= u64::MAX && v >= 10) by (nonlinear_arith)
            requires
                v == dec_val(pre) * 10 + d,
                v <= u64::MAX,
                0 <= d <= 9,
                dec_val(pre) >= 1,
        ;
        lemma_dec_canonical(pre);
        assert(v / 10 == dec_val(pre) && v % 10 == d) by (nonlinear_arith)
            requires
                v == dec_val(pre) * 10 + d,
                0 <= d <= 9,
                dec_val(pre) >= 0,
        ;
        assert(dec_u64(v) =~= pre + seq![(48 + d as int) as u8]);
        assert(pre + seq![(48 + d as int) as u8] =~= s);
    }
}

} // verus!

verus! {

/// How many trailing bytes of `s` are optional whitespace.
pub open spec fn rev_ows_run(s: Seq<u8>) -> nat
    decreases s.len(),
{
    if s.len() == 0 || !is_ows_byte(s.last()) {
        0
    } else {
        1 + rev_ows_run(s.drop_last())
    }
}

/// A maximal trailing run of `k` whitespace bytes pins down
/// [`rev_ows_run`].
pub proof fn lemma_rev_ows_run(s: Seq<u8>, k: nat)
    requires
        k <= s.len(),
        forall|i: int| s.len() - k <= i < s.len() ==> is_ows_byte(#[trigger] s[i]),
        k < s.len() ==> !is_ows_byte(s[s.len() - k - 1]),
    ensures
        rev_ows_run(s) == k,
    decreases k,
{
    if k == 0 {
    } else {
        assert(is_ows_byte(s.last()));
        assert forall|i: int| s.drop_last().len() - (k - 1) <= i < s.drop_last().len()
            implies is_ows_byte(#[trigger] s.drop_last()[i]) by {
            assert(s.drop_last()[i] == s[i]);
        }
        assert(k - 1 < s.drop_last().len() ==> !is_ows_byte(
            s.drop_last()[s.drop_last().len() - (k - 1) - 1],
        ));
        lemma_rev_ows_run(s.drop_last(), (k - 1) as nat);
    }
}

/// The trailing whitespace run never runs past the sequence.
pub proof fn lemma_rev_ows_run_bound(s: Seq<u8>)
    ensures
        rev_ows_run(s) <= s.len(),
    decreases s.len(),
{
    if s.len() == 0 || !is_ows_byte(s.last()) {
    } else {
        lemma_rev_ows_run_bound(s.drop_last());
    }
}

/// `s` with its leading and trailing optional whitespace dropped.
pub open spec fn trim_ows(s: Seq<u8>) -> Seq<u8> {
    let t = s.skip(ows_run(s) as int);
    t.take(t.len() - rev_ows_run(t))
}

/// A found byte lies inside the sequence.
pub proof fn lemma_find_byte_bound(s: Seq<u8>, b: u8)
    ensures
        find_byte(s, b) is Some ==> find_byte(s, b)->Some_0 < s.len(),
    decreases s.len(),
{
    if s.len() == 0 {
    } else if s[0] == b {
    } else {
        lemma_find_byte_bound(s.skip(1), b);
    }
}

/// Whether any comma-separated element of the list value `v`, with its
/// surrounding whitespace dropped, spells `tok` regardless of ASCII case.
pub open spec fn list_has_token(v: Seq<u8>, tok: Seq<u8>) -> bool
    decreases v.len(),
    via list_has_token_decreases
{
    match find_byte(v, COMMA) {
        None => iequal_bytes(trim_ows(v), tok),
        Some(i) => iequal_bytes(trim_ows(v.take(i as int)), tok) || list_has_token(
            v.skip(i as int + 1),
            tok,
        ),
    }
}

#[via_fn]
proof fn list_has_token_decreases(v: Seq<u8>, tok: Seq<u8>) {
    lemma_find_byte_bound(v, COMMA);
}

/// Whether the last comma-separated element of the list value `v`, with
/// its surrounding whitespace dropped, spells `tok` regardless of ASCII
/// case.
pub open spec fn list_ends_token(v: Seq<u8>, tok: Seq<u8>) -> bool
    decreases v.len(),
    via list_ends_token_decreases
{
    match find_byte(v, COMMA) {
        None => iequal_bytes(trim_ows(v), tok),
        Some(i) => list_ends_token(v.skip(i as int + 1), tok),
    }
}

#[via_fn]
proof fn list_ends_token_decreases(v: Seq<u8>, tok: Seq<u8>) {
    lemma_find_byte_bound(v, COMMA);
}

/// Finds the comma that ends the element starting at `start`, then the
/// element's bounds with whitespace trimmed.
#[verifier::loop_isolation(false)]
fn scan_list_element(v: &Vec<u8>, start: usize) -> (r: (Option<usize>, usize, usize))
    requires
        start <= v@.len(),
    ensures
        v@.len() <= usize::MAX,
        ({
            let rem = v@.skip(start as int);
            let seg = match find_byte(rem, COMMA) {
                Some(i) => rem.take(i as int),
                None => rem,
            };
            &&& match find_byte(rem, COMMA) {
                Some(i) => r.0 is Some && r.0->Some_0 == start + i && r.0->Some_0 < v@.len(),
                None => r.0 is None,
            }
            &&& start <= r.1 <= r.2 <= v@.len()
            &&& v@.subrange(r.1 as int, r.2 as int) == trim_ows(seg)
        }),
{
    let ghost rem = v@.skip(start as int);
    let mut i: usize = start;
    while i < v.len() && v[i] != COMMA
        invariant
            start <= i <= v@.len(),
            forall|j: int| 0 <= j < i - start ==> #[trigger] rem[j] != COMMA,
        decreases v@.len() - i,
    {
        proof {
            assert(rem[i - start] == v@[i as int]);
        }
        i += 1;
    }
    let comma: Option<usize>;
    if i < v.len() {
        proof {
            assert(rem[i - start] == v@[i as int]);
            lemma_find_byte_at(rem, COMMA, (i - start) as nat);
        }
        comma = Some(i);
    } else {
        proof {
            lemma_find_byte_none(rem, COMMA);
        }
        comma = None;
    }
    let ghost seg = match find_byte(rem, COMMA) {
        Some(k) => rem.take(k as int),
        None => rem,
    };
    proof {
        assert(seg =~= v@.subrange(start as int, i as int));
    }
    let mut lo: usize = start;
    while lo < i && is_ows_item(v[lo])
        invariant
            start <= lo <= i,
            forall|j: int| 0 <= j < lo - start ==> is_ows_byte(#[trigger] seg[j]),
        decreases i - lo,
    {
        proof {
            assert(seg[lo - start] == v@[lo as int]);
        }
        lo += 1;
    }
    proof {
        if lo < i {
            assert(seg[lo - start] == v@[lo as int]);
        }
        lemma_ows_run(seg, (lo - start) as nat);
    }
    let ghost after = seg.skip((lo - start) as int);
    let mut hi: usize = i;
    while hi > lo && is_ows_item(v[hi - 1])
        invariant
            lo <= hi <= i,
            forall|j: int| after.len() - (i - hi) <= j < after.len() ==> is_ows_byte(
                #[trigger] after[j],
            ),
        decreases hi - lo,
    {
        proof {
            assert(after[hi - 1 - lo] == v@[hi - 1]);
        }
        hi -= 1;
    }
    proof {
        if hi > lo {
            assert(after[hi - 1 - lo] == v@[hi - 1]);
        }
        lemma_rev_ows_run(after, (i - hi) as nat);
        assert(trim_ows(seg) =~= v@.subrange(lo as int, hi as int));
    }
    (comma, lo, hi)
}

/// Whether any element of the list value at `start` in `v` spells `tok`,
/// exactly as [`list_has_token`] says.
#[verifier::loop_isolation(false)]
pub fn list_has_token_exec(v: &Vec<u8>, start: usize, tok: &[u8]) -> (r: bool)
    requires
        start <= v@.len(),
    ensures
        r == list_has_token(v@.skip(start as int), tok@),
    decreases v@.len() - start,
{
    let (comma, lo, hi) = scan_list_element(v, start);
    let seg = crate::vec_sub(v, lo, hi);
    let eq = bytes_iequal(seg.as_slice(), tok);
    match comma {
        None => eq,
        Some(c) => {
            if eq {
                true
            } else {
                proof {
                    assert(v@.skip(c + 1) =~= v@.skip(start as int).skip(
                        find_byte(v@.skip(start as int), COMMA)->Some_0 as int + 1,
                    ));
                }
                list_has_token_exec(v, c + 1, tok)
            }
        },
    }
}

/// Whether the last element of the list value at `start` in `v` spells
/// `tok`, exactly as [`list_ends_token`] says.
#[verifier::loop_isolation(false)]
pub fn list_ends_token_exec(v: &Vec<u8>, start: usize, tok: &[u8]) -> (r: bool)
    requires
        start <= v@.len(),
    ensures
        r == list_ends_token(v@.skip(start as int), tok@),
    decreases v@.len() - start,
{
    let (comma, lo, hi) = scan_list_element(v, start);
    match comma {
        None => {
            let seg = crate::vec_sub(v, lo, hi);
            bytes_iequal(seg.as_slice(), tok)
        },
        Some(c) => {
            proof {
                assert(v@.skip(c + 1) =~= v@.skip(start as int).skip(
                    find_byte(v@.skip(start as int), COMMA)->Some_0 as int + 1,
                ));
            }
            list_ends_token_exec(v, c + 1, tok)
        },
    }
}

} // verus!
