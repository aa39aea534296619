//! Digests and quoted text from outside crates and the standard library.

use sha2::Digest;
use vstd::prelude::*;

use crate::text::{hex_digits, hex_text, lower_hex};

verus! {

/// The SHA-256 digest of a byte string.
pub uninterp spec fn sha256_digest(bytes: Seq<u8>) -> Seq<u8>;

/// What the `Debug` format of the standard library gives for a string: the
/// text in double quotes with its special characters escaped.
pub uninterp spec fn debug_quoted(s: Seq<char>) -> Seq<char>;

/// `sha2::Sha256::digest`: 32 bytes that depend on the input alone.
#[verifier::external_body]
pub(crate) fn sha256(bytes: &[u8]) -> (d: Vec<u8>)
    ensures
        d@ == sha256_digest(bytes@),
        d@.len() == 32,
{
    sha2::Sha256::digest(bytes).to_vec()
}

/// `serde_json::to_string` on a string slice, which cannot fail: double quotes
/// round the text, a backslash escape for a quote, a backslash and every
/// control character below the space, and everything else as it is.
#[verifier::external_body]
pub(crate) fn quote_json(s: &str) -> (r: String)
    ensures
        r@ == json_quoted(s@),
{
    serde_json::to_string(s).expect("a string always serializes")
}

/// `format!("{:?}", s)` on a string slice.
#[verifier::external_body]
pub(crate) fn quote_debug(s: &str) -> (r: String)
    ensures
        r@ == debug_quoted(s@),
{
    format!("{:?}", s)
}

/// A character inside a JSON string literal.
pub open spec fn json_escape(c: char) -> Seq<char> {
    if c == '"' || c == '\\' {
        seq!['\\', c]
    } else if c == '\u{8}' {
        seq!['\\', 'b']
    } else if c == '\t' {
        seq!['\\', 't']
    } else if c == '\n' {
        seq!['\\', 'n']
    } else if c == '\u{c}' {
        seq!['\\', 'f']
    } else if c == '\r' {
        seq!['\\', 'r']
    } else if (c as nat) < 0x20 {
        seq!['\\', 'u', '0', '0'] + hex_digits(c as nat, 2, false)
    } else {
        seq![c]
    }
}

pub open spec fn json_escaped(s: Seq<char>) -> Seq<char>
    decreases s.len(),
{
    if s.len() == 0 {
        Seq::empty()
    } else {
        json_escape(s[0]) + json_escaped(s.skip(1))
    }
}

/// The JSON string literal of a text.
pub open spec fn json_quoted(s: Seq<char>) -> Seq<char> {
    seq!['"'] + json_escaped(s) + seq!['"']
}

/// The two hexadecimal digits of a byte tell which byte it is.
proof fn lemma_hex_pair(m: nat, n: nat)
    requires
        m < 256,
        n < 256,
        hex_digits(m, 2, false) == hex_digits(n, 2, false),
    ensures
        m == n,
{
    reveal_with_fuel(hex_digits, 3);
    let a = hex_digits(m, 2, false);
    let b = hex_digits(n, 2, false);
    let h = hex_digits(m / 16, 1, false);
    let k = hex_digits(n / 16, 1, false);
    assert(a == h.push(crate::text::digit_char(m % 16, false)));
    assert(b == k.push(crate::text::digit_char(n % 16, false)));
    assert(h =~= seq![crate::text::digit_char((m / 16) % 16, false)]);
    assert(k =~= seq![crate::text::digit_char((n / 16) % 16, false)]);
    assert(a[1] == b[1]);
    assert(a[0] == b[0]);
    assert(m % 16 == n % 16);
    assert((m / 16) % 16 == (n / 16) % 16);
}

proof fn lemma_escape_shape(c: char)
    ensures
        json_escape(c).len() > 0,
        json_escape(c)[0] != '"',
        json_escape(c)[0] == '\\' ==> json_escape(c).len() >= 2,
        json_escape(c)[0] != '\\' ==> json_escape(c) == seq![c],
        json_escape(c)[0] == '\\' && json_escape(c)[1] == 'u' ==> json_escape(c)
            == seq!['\\', 'u', '0', '0'] + hex_digits(c as nat, 2, false) && (c as nat) < 0x20
            && json_escape(c).len() == 6,
        json_escape(c)[0] == '\\' && json_escape(c)[1] != 'u' ==> json_escape(c).len() == 2,
{
    crate::text::lemma_hex_digits(c as nat, 2);
}

/// No escape is the beginning of another.
proof fn lemma_escape_unique(a: char, x: Seq<char>, b: char, y: Seq<char>)
    requires
        json_escape(a) + x == json_escape(b) + y,
    ensures
        a == b,
        x == y,
{
    lemma_escape_shape(a);
    lemma_escape_shape(b);
    let s = json_escape(a) + x;
    let t = json_escape(b) + y;
    assert(s[0] == json_escape(a)[0]);
    assert(t[0] == json_escape(b)[0]);
    if s[0] == '\\' {
        assert(s[1] == json_escape(a)[1]);
        assert(t[1] == json_escape(b)[1]);
        if s[1] == 'u' {
            let h = hex_digits(a as nat, 2, false);
            let k = hex_digits(b as nat, 2, false);
            crate::text::lemma_hex_digits(a as nat, 2);
            crate::text::lemma_hex_digits(b as nat, 2);
            assert(s[4] == h[0] && s[5] == h[1]);
            assert(t[4] == k[0] && t[5] == k[1]);
            assert(h =~= k);
            lemma_hex_pair(a as nat, b as nat);
        }
    }
    assert(a == b);
    let n = json_escape(a).len() as int;
    assert(s.skip(n) =~= x);
    assert(t.skip(n) =~= y);
}

proof fn lemma_escaped_unique(a: Seq<char>, x: Seq<char>, b: Seq<char>, y: Seq<char>)
    requires
        json_escaped(a) + (seq!['"'] + x) == json_escaped(b) + (seq!['"'] + y),
    ensures
        a == b,
        x == y,
    decreases a.len(),
{
    let s = json_escaped(a) + (seq!['"'] + x);
    let t = json_escaped(b) + (seq!['"'] + y);
    if a.len() == 0 {
        assert(s[0] == '"');
        if b.len() > 0 {
            lemma_escape_shape(b[0]);
            assert(t[0] == json_escape(b[0])[0]);
        }
        assert(a =~= b);
        assert(s.skip(1) =~= x);
        assert(t.skip(1) =~= y);
    } else if b.len() == 0 {
        lemma_escape_shape(a[0]);
        assert(s[0] == json_escape(a[0])[0]);
        assert(t[0] == '"');
    } else {
        let p = json_escaped(a.skip(1)) + (seq!['"'] + x);
        let q = json_escaped(b.skip(1)) + (seq!['"'] + y);
        assert(s =~= json_escape(a[0]) + p);
        assert(t =~= json_escape(b[0]) + q);
        lemma_escape_unique(a[0], p, b[0], q);
        lemma_escaped_unique(a.skip(1), x, b.skip(1), y);
        assert(a =~= seq![a[0]] + a.skip(1));
        assert(b =~= seq![b[0]] + b.skip(1));
    }
}

/// A JSON string literal tells where it ends and which text it holds.
pub proof fn lemma_json_quoted_unique(a: Seq<char>, x: Seq<char>, b: Seq<char>, y: Seq<char>)
    requires
        json_quoted(a) + x == json_quoted(b) + y,
    ensures
        a == b,
        x == y,
{
    let s = json_quoted(a) + x;
    let t = json_quoted(b) + y;
    assert(s.skip(1) =~= json_escaped(a) + (seq!['"'] + x));
    assert(t.skip(1) =~= json_escaped(b) + (seq!['"'] + y));
    lemma_escaped_unique(a, x, b, y);
}

/// Two lower-case hexadecimal digits per byte.
pub open spec fn hex_bytes(s: Seq<u8>) -> Seq<char>
    decreases s.len(),
{
    if s.len() == 0 {
        Seq::empty()
    } else {
        hex_bytes(s.drop_last()) + hex_digits(s.last() as nat, 2, false)
    }
}

/// Two digits for every byte, all of them lower-case.
pub proof fn lemma_hex_bytes(s: Seq<u8>)
    ensures
        hex_bytes(s).len() == 2 * s.len(),
        forall|i: int| 0 <= i < hex_bytes(s).len() ==> lower_hex(#[trigger] hex_bytes(s)[i]),
    decreases s.len(),
{
    if s.len() > 0 {
        let d = s.drop_last();
        lemma_hex_bytes(d);
        let pair = hex_digits(s.last() as nat, 2, false);
        crate::text::lemma_hex_digits(s.last() as nat, 2);
        let h = hex_bytes(s);
        assert forall|i: int| 0 <= i < h.len() implies lower_hex(#[trigger] h[i]) by {
            if i < hex_bytes(d).len() {
                assert(h[i] == hex_bytes(d)[i]);
            } else {
                assert(h[i] == pair[i - hex_bytes(d).len()]);
            }
        }
    }
}

/// Hexadecimal digits tell which bytes they were made from.
pub proof fn lemma_hex_bytes_unique(a: Seq<u8>, b: Seq<u8>)
    requires
        hex_bytes(a) == hex_bytes(b),
    ensures
        a == b,
    decreases a.len(),
{
    if a.len() > 0 {
        crate::text::lemma_hex_digits(a.last() as nat, 2);
        assert(hex_bytes(a).len() >= 2);
    }
    if b.len() > 0 {
        crate::text::lemma_hex_digits(b.last() as nat, 2);
        assert(hex_bytes(b).len() >= 2);
    }
    if a.len() == 0 || b.len() == 0 {
        assert(a =~= b);
    } else {
        let s = hex_bytes(a);
        let t = hex_bytes(b);
        let p = hex_bytes(a.drop_last());
        let q = hex_bytes(b.drop_last());
        assert(s.take(s.len() - 2) =~= p);
        assert(t.take(t.len() - 2) =~= q);
        lemma_hex_bytes_unique(a.drop_last(), b.drop_last());
        assert(s.skip(s.len() - 2) =~= hex_digits(a.last() as nat, 2, false));
        assert(t.skip(t.len() - 2) =~= hex_digits(b.last() as nat, 2, false));
        lemma_hex_pair(a.last() as nat, b.last() as nat);
        assert(a =~= a.drop_last().push(a.last()));
        assert(b =~= b.drop_last().push(b.last()));
    }
}

pub fn hex_of(bytes: &Vec<u8>) -> (r: String)
    ensures
        r@ == hex_bytes(bytes@),
{
    let mut r = String::new();
    let mut i: usize = 0;
    assert(bytes@.take(0) =~= Seq::<u8>::empty());
    while i < bytes.len()
        invariant
            i <= bytes@.len(),
            r@ == hex_bytes(bytes@.take(i as int)),
        decreases bytes@.len() - i,
    {
        let ghost t = bytes@.take(i + 1);
        assert(t.drop_last() =~= bytes@.take(i as int));
        let pair = hex_text(bytes[i] as u64, 2, false);
        r.append(pair.as_str());
        i = i + 1;
    }
    assert(bytes@.take(bytes@.len() as int) =~= bytes@);
    r
}

/// Append a text.
pub fn say(s: &mut String, text: &str)
    ensures
        final(s)@ == old(s)@ + text@,
{
    s.append(text);
}

/// Append a text in its `Debug` form.
pub fn say_quoted(s: &mut String, text: &str)
    ensures
        final(s)@ == old(s)@ + debug_quoted(text@),
{
    let q = quote_debug(text);
    s.append(q.as_str());
}

} // verus!
