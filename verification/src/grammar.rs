//! RFC 2616 character classes and the quoted-string codec.
//!
//! The wire form of a quoted string is `"` + escaped payload + `"`, where the
//! serializer escapes exactly `"` and `\` with a leading backslash and the
//! parser decodes `\X` to `X` for any octet `X`. The spec-level functions
//! [`escape_bytes`] and [`dequote_bytes`] model the two directions, and the
//! lemmas at the bottom prove them inverse on the values each can produce.

use vstd::prelude::*;

verus! {

/// Double quote, `"`.
pub const QUOTE: u8 = 34;

/// Backslash, `\`.
pub const BACKSLASH: u8 = 92;

/// Space.
pub const SP: u8 = 32;

/// Horizontal tab.
pub const HT: u8 = 9;

/// Carriage return.
pub const CR: u8 = 13;

/// Line feed.
pub const LF: u8 = 10;

/// Colon, `:`.
pub const COLON: u8 = 58;

/// Comma, `,`.
pub const COMMA: u8 = 44;

/// A control octet: 0–31 or DEL.
pub open spec fn is_ctl_byte(b: u8) -> bool {
    b < 32 || b == 127
}

/// Optional whitespace: space or horizontal tab.
pub open spec fn is_ows_byte(b: u8) -> bool {
    b == SP || b == HT
}

/// A `TEXT` octet: anything but a control, with the tab allowed.
pub open spec fn is_text_byte(b: u8) -> bool {
    !is_ctl_byte(b) || b == HT
}

/// A `separator` octet per RFC 2616 §2.2.
pub open spec fn is_separator_byte(b: u8) -> bool {
    b == 40 || b == 41 || b == 60 || b == 62 || b == 64  // ( ) < > @
    || b == 44 || b == 59 || b == 58 || b == 92 || b == 34  // , ; : \ "
    || b == 47 || b == 91 || b == 93 || b == 63 || b == 61  // / [ ] ? =
    || b == 123 || b == 125 || b == SP || b == HT  // { }
}

/// A `token` octet: printable ASCII that is neither a control nor a separator.
pub open spec fn is_token_byte(b: u8) -> bool {
    32 < b < 127 && !is_separator_byte(b)
}

/// An octet that may stand unescaped inside a quoted string.
pub open spec fn is_qdtext_byte(b: u8) -> bool {
    is_text_byte(b) && b != QUOTE && b != BACKSLASH
}

/// Exec mirror of [`is_ctl_byte`].
pub fn is_ctl_item(b: u8) -> (r: bool)
    ensures
        r == is_ctl_byte(b),
{
    b < 32 || b == 127
}

/// Exec mirror of [`is_ows_byte`].
pub fn is_ows_item(b: u8) -> (r: bool)
    ensures
        r == is_ows_byte(b),
{
    b == SP || b == HT
}

/// Exec mirror of [`is_text_byte`].
pub fn is_text_item(b: u8) -> (r: bool)
    ensures
        r == is_text_byte(b),
{
    !(b < 32 || b == 127) || b == HT
}

/// Exec mirror of [`is_token_byte`].
pub fn is_token_item(b: u8) -> (r: bool)
    ensures
        r == is_token_byte(b),
{
    32 < b && b < 127 && !(b == 40 || b == 41 || b == 60 || b == 62 || b == 64 || b == 44 || b == 59
        || b == 58 || b == 92 || b == 34 || b == 47 || b == 91 || b == 93 || b == 63 || b == 61
        || b == 123 || b == 125)
}

/// Exec mirror of [`is_qdtext_byte`].
pub fn is_qdtext_item(b: u8) -> (r: bool)
    ensures
        r == is_qdtext_byte(b),
{
    is_text_item(b) && b != QUOTE && b != BACKSLASH
}

/// Every byte of `s` is a `TEXT` octet.
pub open spec fn all_text(s: Seq<u8>) -> bool {
    forall|i: int| 0 <= i < s.len() ==> is_text_byte(#[trigger] s[i])
}

/// Every byte of `s` is a `token` octet.
pub open spec fn all_token(s: Seq<u8>) -> bool {
    forall|i: int| 0 <= i < s.len() ==> is_token_byte(#[trigger] s[i])
}

/// The escaped payload of a quoted string: a backslash is put before every
/// `"` and `\`; every other byte stands as itself.
pub open spec fn escape_bytes(s: Seq<u8>) -> Seq<u8>
    decreases s.len(),
{
    if s.len() == 0 {
        Seq::empty()
    } else {
        (if s[0] == QUOTE || s[0] == BACKSLASH {
            seq![BACKSLASH, s[0]]
        } else {
            seq![s[0]]
        }) + escape_bytes(s.skip(1))
    }
}

/// The full wire form of a quoted string: `"` + escaped payload + `"`.
pub open spec fn quoted_wire(s: Seq<u8>) -> Seq<u8> {
    seq![QUOTE] + escape_bytes(s) + seq![QUOTE]
}

/// The spec-level quoted-string parser, applied to the bytes that follow the
/// opening `"`. On success it yields the decoded payload and how many input
/// bytes were consumed, the closing `"` included. `\X` decodes to `X` for
/// any octet; a bare octet must be qdtext; anything else fails.
pub open spec fn dequote_bytes(s: Seq<u8>) -> Option<(Seq<u8>, nat)>
    decreases s.len(),
{
    if s.len() == 0 {
        None
    } else if s[0] == QUOTE {
        Some((Seq::empty(), 1nat))
    } else if s[0] == BACKSLASH {
        if s.len() < 2 {
            None
        } else {
            match dequote_bytes(s.skip(2)) {
                Some(p) => Some((seq![s[1]] + p.0, p.1 + 2)),
                None => None,
            }
        }
    } else if is_qdtext_byte(s[0]) {
        match dequote_bytes(s.skip(1)) {
            Some(p) => Some((seq![s[0]] + p.0, p.1 + 1)),
            None => None,
        }
    } else {
        None
    }
}

/// The wire bytes after the opening `"` are canonically escaped: a backslash
/// stands only before `"` or `\`, every other payload byte is qdtext, and a
/// closing `"` arrives. This is exactly the form the serializer emits.
pub open spec fn canonically_escaped(s: Seq<u8>) -> bool
    decreases s.len(),
{
    if s.len() == 0 {
        false
    } else if s[0] == QUOTE {
        true
    } else if s[0] == BACKSLASH {
        s.len() >= 2 && (s[1] == QUOTE || s[1] == BACKSLASH) && canonically_escaped(s.skip(2))
    } else if is_qdtext_byte(s[0]) {
        canonically_escaped(s.skip(1))
    } else {
        false
    }
}

/// Round trip, parse after serialize: decoding the serialized payload of any
/// all-`TEXT` string, with anything at all following the closing quote,
/// gives back exactly that string and consumes exactly the serialized bytes.
pub proof fn lemma_dequote_escape(s: Seq<u8>, rest: Seq<u8>)
    requires
        all_text(s),
    ensures
        dequote_bytes(escape_bytes(s) + seq![QUOTE] + rest) == Some(
            (s, (escape_bytes(s).len() + 1) as nat),
        ),
    decreases s.len(),
{
    let input = escape_bytes(s) + seq![QUOTE] + rest;
    if s.len() == 0 {
        assert(input =~= seq![QUOTE] + rest);
        assert(dequote_bytes(input) == Some((Seq::<u8>::empty(), 1nat)));
        assert(s =~= Seq::<u8>::empty());
    } else {
        let tail = s.skip(1);
        assert(all_text(tail));
        lemma_dequote_escape(tail, rest);
        let sub = escape_bytes(tail) + seq![QUOTE] + rest;
        if s[0] == QUOTE || s[0] == BACKSLASH {
            assert(input =~= seq![BACKSLASH, s[0]] + sub);
            assert(input[0] == BACKSLASH);
            assert(input.skip(2) =~= sub);
            assert(input[1] == s[0]);
            assert(seq![s[0]] + tail =~= s);
        } else {
            assert(is_text_byte(s[0]));
            assert(is_qdtext_byte(s[0]));
            assert(input =~= seq![s[0]] + sub);
            assert(input[0] == s[0]);
            assert(input.skip(1) =~= sub);
            assert(seq![s[0]] + tail =~= s);
        }
    }
}

/// Canonical form, serialize after parse: a canonically escaped wire string
/// parses, and re-serializing the decoded payload reproduces the consumed
/// wire bytes exactly.
pub proof fn lemma_escape_dequote(s: Seq<u8>)
    requires
        canonically_escaped(s),
    ensures
        dequote_bytes(s) is Some,
        0 < dequote_bytes(s)->Some_0.1 <= s.len(),
        all_text(dequote_bytes(s)->Some_0.0),
        escape_bytes(dequote_bytes(s)->Some_0.0) + seq![QUOTE] == s.take(
            dequote_bytes(s)->Some_0.1 as int,
        ),
    decreases s.len(),
{
    if s[0] == QUOTE {
        assert(dequote_bytes(s) == Some((Seq::<u8>::empty(), 1nat)));
        assert(escape_bytes(Seq::<u8>::empty()) + seq![QUOTE] =~= s.take(1));
    } else if s[0] == BACKSLASH {
        lemma_escape_dequote(s.skip(2));
        let p = dequote_bytes(s.skip(2))->Some_0;
        let t = seq![s[1]] + p.0;
        let n: int = p.1 as int;
        assert(dequote_bytes(s) == Some((t, (p.1 + 2) as nat)));
        assert(t[0] == s[1]);
        assert(t.skip(1) =~= p.0);
        assert(is_text_byte(s[1]));
        assert(all_text(t));
        assert(escape_bytes(t) =~= seq![BACKSLASH, s[1]] + escape_bytes(p.0));
        assert(s.skip(2).take(n) =~= s.take(n + 2).skip(2));
        assert(escape_bytes(t) + seq![QUOTE] =~= seq![BACKSLASH, s[1]] + (escape_bytes(p.0)
            + seq![QUOTE]));
        assert(seq![BACKSLASH, s[1]] + s.take(n + 2).skip(2) =~= s.take(n + 2));
        assert(escape_bytes(t) + seq![QUOTE] =~= s.take(n + 2));
    } else {
        lemma_escape_dequote(s.skip(1));
        let p = dequote_bytes(s.skip(1))->Some_0;
        let t = seq![s[0]] + p.0;
        let n: int = p.1 as int;
        assert(dequote_bytes(s) == Some((t, (p.1 + 1) as nat)));
        assert(t[0] == s[0]);
        assert(t.skip(1) =~= p.0);
        assert(all_text(t));
        assert(escape_bytes(t) =~= seq![s[0]] + escape_bytes(p.0));
        assert(s.skip(1).take(n) =~= s.take(n + 1).skip(1));
        assert(escape_bytes(t) + seq![QUOTE] =~= seq![s[0]] + (escape_bytes(p.0) + seq![QUOTE]));
        assert(seq![s[0]] + s.take(n + 1).skip(1) =~= s.take(n + 1));
        assert(escape_bytes(t) + seq![QUOTE] =~= s.take(n + 1));
    }
}

/// The index of the first CRLF pair in `s`, if any.
pub open spec fn crlf_pos(s: Seq<u8>) -> Option<nat>
    decreases s.len(),
{
    if s.len() < 2 {
        None
    } else if s[0] == CR && s[1] == LF {
        Some(0nat)
    } else {
        match crlf_pos(s.skip(1)) {
            Some(n) => Some(n + 1),
            None => None,
        }
    }
}

/// A found CRLF pair lies wholly inside the sequence.
pub proof fn lemma_crlf_pos_bound(s: Seq<u8>)
    ensures
        crlf_pos(s) is Some ==> crlf_pos(s)->Some_0 + 2 <= s.len(),
    decreases s.len(),
{
    if s.len() < 2 {
    } else if s[0] == CR && s[1] == LF {
    } else {
        lemma_crlf_pos_bound(s.skip(1));
    }
}

/// A CRLF pair at `k` with none before it pins down [`crlf_pos`].
pub proof fn lemma_crlf_pos_at(s: Seq<u8>, k: nat)
    requires
        k + 2 <= s.len(),
        s[k as int] == CR,
        s[k as int + 1] == LF,
        forall|j: int| 0 <= j < k ==> !(#[trigger] s[j] == CR && s[j + 1] == LF),
    ensures
        crlf_pos(s) == Some(k),
    decreases k,
{
    if k == 0 {
    } else {
        assert(!(s[0] == CR && s[1] == LF));
        assert forall|j: int| 0 <= j < k - 1 implies !(#[trigger] s.skip(1)[j] == CR && s.skip(1)[j
            + 1] == LF) by {
            assert(s.skip(1)[j] == s[j + 1]);
            assert(s.skip(1)[j + 1] == s[j + 2]);
        }
        assert(s.skip(1)[k - 1] == s[k as int]);
        assert(s.skip(1)[k as int] == s[k as int + 1]);
        lemma_crlf_pos_at(s.skip(1), (k - 1) as nat);
    }
}

/// With no CRLF pair anywhere, [`crlf_pos`] finds none.
pub proof fn lemma_crlf_pos_none(s: Seq<u8>)
    requires
        forall|j: int| 0 <= j < s.len() - 1 ==> !(#[trigger] s[j] == CR && s[j + 1] == LF),
    ensures
        crlf_pos(s) is None,
    decreases s.len(),
{
    if s.len() < 2 {
    } else {
        assert(!(s[0] == CR && s[1] == LF));
        assert forall|j: int| 0 <= j < s.skip(1).len() - 1 implies !(#[trigger] s.skip(1)[j] == CR
            && s.skip(1)[j + 1] == LF) by {
            assert(s.skip(1)[j] == s[j + 1]);
            assert(s.skip(1)[j + 1] == s[j + 2]);
        }
        lemma_crlf_pos_none(s.skip(1));
    }
}

/// Finds the first CRLF pair at or after `from`, as an absolute index.
#[verifier::loop_isolation(false)]
pub fn find_crlf(data: &Vec<u8>, from: usize) -> (r: Option<usize>)
    requires
        from <= data@.len(),
    ensures
        match crlf_pos(data@.skip(from as int)) {
            Some(k) => r == Some((from + k) as usize) && from + k + 2 <= data@.len() && data@[from
                + k] == CR && data@[from + k + 1] == LF,
            None => r is None,
        },
{
    let ghost s = data@.skip(from as int);
    let mut i: usize = from;
    loop
        invariant
            from <= i,
            i <= data@.len(),
            s == data@.skip(from as int),
            from <= data@.len(),
            forall|j: int| 0 <= j < i - from ==> !(#[trigger] s[j] == CR && s[j + 1] == LF),
        decreases data@.len() - i,
    {
        if data.len() - i < 2 {
            proof {
                lemma_crlf_pos_none(s);
            }
            return None;
        }
        if data[i] == CR && data[i + 1] == LF {
            proof {
                assert(s[i - from] == CR);
                assert(s[i - from + 1] == LF);
                lemma_crlf_pos_at(s, (i - from) as nat);
            }
            return Some(i);
        }
        proof {
            assert(s[i - from] == data@[i as int]);
            assert(s[i - from + 1] == data@[i + 1]);
        }
        i += 1;
    }
}

/// Appends the full wire form of a quoted string for `t` onto `s`.
pub fn push_quoted_string(s: Vec<u8>, t: &Vec<u8>) -> (r: Vec<u8>)
    ensures
        r@ == s@ + quoted_wire(t@),
{
    let mut out = s;
    out.push(QUOTE);
    let ghost done = Seq::<u8>::empty();
    let mut i: usize = 0;
    while i < t.len()
        invariant
            i <= t@.len(),
            out@ == s@ + seq![QUOTE] + escape_bytes(t@.take(i as int)),
        decreases t@.len() - i,
    {
        let b = t[i];
        proof {
            lemma_escape_snoc(t@.take(i as int), b);
            assert(t@.take(i + 1) =~= t@.take(i as int).push(b));
        }
        if b == QUOTE || b == BACKSLASH {
            out.push(BACKSLASH);
            out.push(b);
        } else {
            out.push(b);
        }
        i += 1;
    }
    out.push(QUOTE);
    proof {
        assert(t@.take(t@.len() as int) =~= t@);
        assert(out@ =~= s@ + quoted_wire(t@));
    }
    out
}

/// Serializing one more byte appends its escape to the serialized prefix.
proof fn lemma_escape_snoc(s: Seq<u8>, b: u8)
    ensures
        escape_bytes(s.push(b)) == escape_bytes(s) + (if b == QUOTE || b == BACKSLASH {
            seq![BACKSLASH, b]
        } else {
            seq![b]
        }),
    decreases s.len(),
{
    let e = if b == QUOTE || b == BACKSLASH {
        seq![BACKSLASH, b]
    } else {
        seq![b]
    };
    if s.len() == 0 {
        assert(s.push(b)[0] == b);
        assert(s.push(b).skip(1) =~= Seq::<u8>::empty());
        assert(escape_bytes(s.push(b).skip(1)) == Seq::<u8>::empty());
        assert(escape_bytes(s.push(b)) =~= e + Seq::<u8>::empty());
        assert(e + Seq::<u8>::empty() =~= e);
        assert(escape_bytes(s) + e =~= e);
    } else {
        lemma_escape_snoc(s.skip(1), b);
        assert(s.push(b)[0] == s[0]);
        assert(s.push(b).skip(1) =~= s.skip(1).push(b));
        let h = if s[0] == QUOTE || s[0] == BACKSLASH {
            seq![BACKSLASH, s[0]]
        } else {
            seq![s[0]]
        };
        assert(escape_bytes(s.push(b)) =~= h + escape_bytes(s.skip(1).push(b)));
        assert(escape_bytes(s.push(b)) =~= escape_bytes(s) + e);
    }
}

/// The full wire form of a quoted string for `t`, on its own.
pub fn quoted_string(t: &Vec<u8>) -> (r: Vec<u8>)
    ensures
        r@ == quoted_wire(t@),
{
    let out = push_quoted_string(Vec::new(), t);
    proof {
        assert(out@ =~= quoted_wire(t@));
    }
    out
}

} // verus!
