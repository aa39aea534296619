//! Text helpers: every string is viewed as its sequence of characters.

use vstd::prelude::*;

verus! {

/// `String::push` appends one character to the end of the string.
pub assume_specification[ String::push ](s: &mut String, c: char)
    ensures
        final(s)@ == old(s)@.push(c),
;

/// The character sequences of a list of strings.
pub open spec fn texts(v: Seq<String>) -> Seq<Seq<char>> {
    v.map_values(|s: String| s@)
}

/// The character sequence of an optional string.
pub open spec fn opt_text(o: Option<String>) -> Option<Seq<char>> {
    match o {
        Some(s) => Some(s@),
        None => None,
    }
}

/// The character sequence of an optional string slice.
pub open spec fn opt_str(o: Option<&str>) -> Option<Seq<char>> {
    match o {
        Some(s) => Some(s@),
        None => None,
    }
}

/// Copy a list of strings.
pub fn copy_texts(v: &Vec<String>) -> (r: Vec<String>)
    ensures
        texts(r@) == texts(v@),
        r@.len() == v@.len(),
{
    let mut r: Vec<String> = Vec::new();
    let mut i: usize = 0;
    while i < v.len()
        invariant
            i <= v@.len(),
            r@.len() == i,
            forall|j: int| 0 <= j < i ==> (#[trigger] r@[j])@ == v@[j]@,
        decreases v@.len() - i,
    {
        r.push(v[i].clone());
        i = i + 1;
    }
    assert(texts(r@) =~= texts(v@));
    r
}

/// Copy an optional string.
pub fn copy_opt(o: &Option<String>) -> (r: Option<String>)
    ensures
        opt_text(r) == opt_text(*o),
{
    match o {
        Some(s) => Some(s.clone()),
        None => None,
    }
}

/// Borrow an optional string.
pub fn borrow_opt(o: &Option<String>) -> (r: Option<&str>)
    ensures
        opt_str(r) == opt_text(*o),
{
    match o {
        Some(s) => Some(s.as_str()),
        None => None,
    }
}

/// The character sequences of an optional list of strings.
pub open spec fn opt_texts(o: Option<Vec<String>>) -> Option<Seq<Seq<char>>> {
    match o {
        Some(v) => Some(texts(v@)),
        None => None,
    }
}

/// Is `s` one of the listed texts?
pub fn listed(v: &Vec<String>, s: &str) -> (r: bool)
    ensures
        r == texts(v@).contains(s@),
{
    let mut i: usize = 0;
    while i < v.len()
        invariant
            i <= v@.len(),
            forall|j: int| 0 <= j < i ==> #[trigger] texts(v@)[j] != s@,
        decreases v@.len() - i,
    {
        assert(texts(v@)[i as int] == v@[i as int]@);
        if same(v[i].as_str(), s) {
            return true;
        }
        i = i + 1;
    }
    false
}

/// The characters of a string.
pub fn chars_of(s: &str) -> (v: Vec<char>)
    ensures
        v@ == s@,
{
    let mut v: Vec<char> = Vec::new();
    for c in it: s.chars()
        invariant
            v@ == it.seq().take(it.index()),
            it.seq() == s@,
    {
        proof {
            assert(it.seq().take(it.index() + 1) =~= it.seq().take(it.index()).push(c));
        }
        v.push(c);
    }
    assert(s@.take(s@.len() as int) =~= s@);
    v
}

/// The string made of the characters from `from` up to `to`.
pub fn string_of(chars: &Vec<char>, from: usize, to: usize) -> (s: String)
    requires
        from <= to <= chars@.len(),
    ensures
        s@ == chars@.subrange(from as int, to as int),
{
    let mut s = String::new();
    let mut i: usize = from;
    while i < to
        invariant
            from <= i <= to <= chars@.len(),
            s@ == chars@.subrange(from as int, i as int),
        decreases to - i,
    {
        s.push(chars[i]);
        i = i + 1;
        assert(chars@.subrange(from as int, i as int) =~= chars@.subrange(from as int, i - 1).push(chars@[i - 1]));
    }
    s
}

/// Text equality.
pub fn same(a: &str, b: &str) -> (r: bool)
    ensures
        r == (a@ == b@),
{
    a.to_owned() == b.to_owned()
}

/// Equality of two optional texts.
pub fn same_opt(a: Option<&str>, b: Option<&str>) -> (r: bool)
    ensures
        r == (opt_str(a) == opt_str(b)),
{
    match (a, b) {
        (Some(x), Some(y)) => same(x, y),
        (None, None) => true,
        _ => false,
    }
}


// ---------------------------------------------------------------------------
// Character classes
// ---------------------------------------------------------------------------

/// Unicode `White_Space`.
pub open spec fn white(c: char) -> bool {
    let n = c as int;
    ||| 9 <= n <= 13
    ||| n == 0x20
    ||| n == 0x85
    ||| n == 0xa0
    ||| n == 0x1680
    ||| 0x2000 <= n <= 0x200a
    ||| n == 0x2028
    ||| n == 0x2029
    ||| n == 0x202f
    ||| n == 0x205f
    ||| n == 0x3000
}

/// Unicode general category `Cc`.
pub open spec fn control(c: char) -> bool {
    let n = c as int;
    n <= 0x1f || 0x7f <= n <= 0x9f
}

pub open spec fn ascii_digit(c: char) -> bool {
    '0' <= c && c <= '9'
}

pub open spec fn ascii_alphanumeric(c: char) -> bool {
    ascii_digit(c) || ('a' <= c && c <= 'z') || ('A' <= c && c <= 'Z')
}

/// A digit or one of the letters `a` to `f`.
pub open spec fn lower_hex(c: char) -> bool {
    ascii_digit(c) || ('a' <= c && c <= 'f')
}

pub fn is_whitespace(c: char) -> (r: bool)
    ensures
        r == white(c),
{
    let n: u32 = c as u32;
    (9 <= n && n <= 13) || n == 0x20 || n == 0x85 || n == 0xa0 || n == 0x1680 || (0x2000 <= n && n
        <= 0x200a) || n == 0x2028 || n == 0x2029 || n == 0x202f || n == 0x205f || n == 0x3000
}

pub fn is_control(c: char) -> (r: bool)
    ensures
        r == control(c),
{
    let n: u32 = c as u32;
    n <= 0x1f || (0x7f <= n && n <= 0x9f)
}

pub fn is_ascii_digit(c: char) -> (r: bool)
    ensures
        r == ascii_digit(c),
{
    '0' <= c && c <= '9'
}

pub fn is_ascii_alphanumeric(c: char) -> (r: bool)
    ensures
        r == ascii_alphanumeric(c),
{
    is_ascii_digit(c) || ('a' <= c && c <= 'z') || ('A' <= c && c <= 'Z')
}

pub fn is_lower_hex(c: char) -> (r: bool)
    ensures
        r == lower_hex(c),
{
    is_ascii_digit(c) || ('a' <= c && c <= 'f')
}

/// A character that neither a URL nor a connect target may hold.
pub open spec fn blank_or_control(c: char) -> bool {
    white(c) || control(c)
}

/// Does any character count as white space or as a control character?
pub fn has_blank_or_control(v: &Vec<char>) -> (r: bool)
    ensures
        r == exists|i: int| 0 <= i < v@.len() && blank_or_control(#[trigger] v@[i]),
{
    let mut i: usize = 0;
    while i < v.len()
        invariant
            i <= v@.len(),
            forall|j: int| 0 <= j < i ==> !blank_or_control(#[trigger] v@[j]),
        decreases v@.len() - i,
    {
        if is_whitespace(v[i]) || is_control(v[i]) {
            assert(blank_or_control(v@[i as int]));
            return true;
        }
        i = i + 1;
    }
    false
}

/// ASCII lower case; every other character stays as it is.
pub open spec fn lowered(c: char) -> char {
    if 'A' <= c && c <= 'Z' {
        ((c as u32) + 32) as char
    } else {
        c
    }
}

pub open spec fn ascii_lowercase(s: Seq<char>) -> Seq<char> {
    s.map_values(|c: char| lowered(c))
}

fn lower_char(c: char) -> (r: char)
    ensures
        r == lowered(c),
{
    if 'A' <= c && c <= 'Z' {
        let b: u8 = c as u8;
        (b + 32) as char
    } else {
        c
    }
}

pub fn to_ascii_lowercase(s: &str) -> (r: String)
    ensures
        r@ == ascii_lowercase(s@),
{
    let v = chars_of(s);
    let mut r = String::new();
    let mut i: usize = 0;
    while i < v.len()
        invariant
            i <= v@.len(),
            v@ == s@,
            r@ == ascii_lowercase(s@).take(i as int),
        decreases v@.len() - i,
    {
        r.push(lower_char(v[i]));
        i = i + 1;
        assert(ascii_lowercase(s@).take(i as int) =~= ascii_lowercase(s@).take(i - 1).push(lowered(s@[i - 1])));
    }
    assert(ascii_lowercase(s@).take(s@.len() as int) =~= ascii_lowercase(s@));
    r
}

// ---------------------------------------------------------------------------
// Searching
// ---------------------------------------------------------------------------

/// The first index that holds `a` or `b`, or the length.
pub open spec fn position2(s: Seq<char>, a: char, b: char) -> nat
    decreases s.len(),
{
    if s.len() == 0 || s[0] == a || s[0] == b {
        0
    } else {
        1 + position2(s.skip(1), a, b)
    }
}

/// The first index that holds `a`, or the length.
pub open spec fn position(s: Seq<char>, a: char) -> nat {
    position2(s, a, a)
}

/// The last index that holds `a`, or -1.
pub open spec fn last_position(s: Seq<char>, a: char) -> int
    decreases s.len(),
{
    if s.len() == 0 {
        -1
    } else if s.last() == a {
        s.len() - 1
    } else {
        last_position(s.drop_last(), a)
    }
}

/// What `position2` gives is the first match.
pub proof fn lemma_position2(s: Seq<char>, a: char, b: char)
    ensures
        position2(s, a, b) <= s.len(),
        position2(s, a, b) < s.len() ==> (s[position2(s, a, b) as int] == a || s[position2(
            s,
            a,
            b,
        ) as int] == b),
        forall|j: int| 0 <= j < position2(s, a, b) ==> #[trigger] s[j] != a && s[j] != b,
    decreases s.len(),
{
    if s.len() == 0 || s[0] == a || s[0] == b {
    } else {
        lemma_position2(s.skip(1), a, b);
        assert forall|j: int| 0 <= j < position2(s, a, b) implies #[trigger] s[j] != a && s[j]
            != b by {
            if j > 0 {
                assert(s.skip(1)[j - 1] == s[j]);
            }
        }
        if position2(s, a, b) < s.len() {
            assert(s.skip(1)[position2(s.skip(1), a, b) as int] == s[position2(s, a, b) as int]);
        }
    }
}

/// A first match is what `position2` gives.
pub proof fn lemma_position2_is(s: Seq<char>, a: char, b: char, i: int)
    requires
        0 <= i <= s.len(),
        i < s.len() ==> s[i] == a || s[i] == b,
        forall|j: int| 0 <= j < i ==> #[trigger] s[j] != a && s[j] != b,
    ensures
        position2(s, a, b) == i,
{
    lemma_position2(s, a, b);
    let p = position2(s, a, b) as int;
    if p < i {
        assert(s[p] != a && s[p] != b);
    }
    if i < p {
        assert(s[i] != a && s[i] != b);
    }
}

/// What `last_position` gives is the last match.
pub proof fn lemma_last_position(s: Seq<char>, a: char)
    ensures
        -1 <= last_position(s, a) < s.len(),
        last_position(s, a) >= 0 ==> s[last_position(s, a)] == a,
        forall|j: int| last_position(s, a) < j < s.len() ==> #[trigger] s[j] != a,
    decreases s.len(),
{
    if s.len() == 0 || s.last() == a {
    } else {
        lemma_last_position(s.drop_last(), a);
        assert forall|j: int| last_position(s, a) < j < s.len() implies #[trigger] s[j] != a by {
            if j < s.len() - 1 {
                assert(s.drop_last()[j] == s[j]);
            }
        }
    }
}

pub fn find2(v: &Vec<char>, a: char, b: char) -> (r: usize)
    ensures
        r == position2(v@, a, b),
        r <= v@.len(),
{
    let mut i: usize = 0;
    while i < v.len() && v[i] != a && v[i] != b
        invariant
            i <= v@.len(),
            forall|j: int| 0 <= j < i ==> #[trigger] v@[j] != a && v@[j] != b,
        decreases v@.len() - i,
    {
        i = i + 1;
    }
    proof {
        lemma_position2_is(v@, a, b, i as int);
    }
    i
}

pub fn find(v: &Vec<char>, a: char) -> (r: usize)
    ensures
        r == position(v@, a),
        r <= v@.len(),
{
    find2(v, a, a)
}

pub fn rfind(v: &Vec<char>, a: char) -> (r: Option<usize>)
    ensures
        match r {
            Some(i) => i == last_position(v@, a) && i < v@.len(),
            None => last_position(v@, a) == -1,
        },
{
    let mut i: usize = v.len();
    while i > 0 && v[i - 1] != a
        invariant
            i <= v@.len(),
            forall|j: int| i <= j < v@.len() ==> #[trigger] v@[j] != a,
        decreases i,
    {
        i = i - 1;
    }
    proof {
        lemma_last_position(v@, a);
        let p = last_position(v@, a);
        if p >= i {
            assert(v@[p] != a);
        }
        if i > 0 && p < i - 1 {
            assert(v@[i - 1] != a);
        }
    }
    if i > 0 {
        Some(i - 1)
    } else {
        None
    }
}

pub fn contains_char(v: &Vec<char>, a: char) -> (r: bool)
    ensures
        r == v@.contains(a),
{
    let i: usize = find(v, a);
    proof {
        lemma_position2(v@, a, a);
        if i < v@.len() {
            assert(v@[i as int] == a);
        } else {
            assert forall|j: int| 0 <= j < v@.len() implies v@[j] != a by {}
        }
    }
    i < v.len()
}

/// Does `part` stand in `s` at `i`?
pub open spec fn matches_at(s: Seq<char>, part: Seq<char>, i: int) -> bool {
    0 <= i && i + part.len() <= s.len() && s.subrange(i, i + part.len()) == part
}

/// Does `part` stand anywhere in `s`?
pub open spec fn holds(s: Seq<char>, part: Seq<char>) -> bool {
    exists|i: int| #[trigger] matches_at(s, part, i)
}

/// `s` begins with `p`.
pub open spec fn begins(s: Seq<char>, p: Seq<char>) -> bool {
    matches_at(s, p, 0)
}

/// Compare `part` with the characters of `v` from `at` on.
pub fn match_at(v: &Vec<char>, part: &Vec<char>, at: usize) -> (r: bool)
    requires
        at <= v@.len(),
    ensures
        r == matches_at(v@, part@, at as int),
{
    if v.len() - at < part.len() {
        return false;
    }
    let mut i: usize = 0;
    while i < part.len()
        invariant
            i <= part@.len(),
            at + part@.len() <= v.len(),
            forall|j: int| 0 <= j < i ==> v@[at + j] == #[trigger] part@[j],
        decreases part@.len() - i,
    {
        if v[at + i] != part[i] {
            assert(v@.subrange(at as int, at + part@.len())[i as int] != part@[i as int]);
            return false;
        }
        i = i + 1;
    }
    assert(v@.subrange(at as int, at + part@.len()) =~= part@);
    true
}

pub fn starts_with(s: &str, p: &str) -> (r: bool)
    ensures
        r == begins(s@, p@),
{
    let v = chars_of(s);
    let w = chars_of(p);
    match_at(&v, &w, 0)
}

pub fn contains_str(s: &str, part: &str) -> (r: bool)
    ensures
        r == holds(s@, part@),
{
    let v = chars_of(s);
    let w = chars_of(part);
    let mut i: usize = 0;
    while i < v.len()
        invariant
            i <= v@.len(),
            v@ == s@,
            w@ == part@,
            forall|j: int| 0 <= j < i ==> !#[trigger] matches_at(s@, part@, j),
        decreases v@.len() - i,
    {
        if match_at(&v, &w, i) {
            assert(matches_at(s@, part@, i as int));
            return true;
        }
        i = i + 1;
    }
    let r = match_at(&v, &w, i);
    proof {
        if !r {
            assert forall|j: int| !#[trigger] matches_at(s@, part@, j) by {}
        } else {
            assert(matches_at(s@, part@, i as int));
        }
    }
    r
}

/// What follows the prefix `p`, if `s` begins with it.
pub open spec fn after_prefix(s: Seq<char>, p: Seq<char>) -> Option<Seq<char>> {
    if begins(s, p) {
        Some(s.skip(p.len() as int))
    } else {
        None
    }
}

pub fn strip_prefix(s: &str, p: &str) -> (r: Option<String>)
    ensures
        opt_text(r) == after_prefix(s@, p@),
{
    let v = chars_of(s);
    let w = chars_of(p);
    if match_at(&v, &w, 0) {
        let rest = string_of(&v, w.len(), v.len());
        assert(rest@ =~= s@.skip(p@.len() as int));
        Some(rest)
    } else {
        None
    }
}

/// What precedes the suffix `p`, if `s` ends with it.
pub open spec fn before_suffix(s: Seq<char>, p: Seq<char>) -> Option<Seq<char>> {
    if matches_at(s, p, s.len() - p.len()) {
        Some(s.take(s.len() - p.len()))
    } else {
        None
    }
}

pub fn strip_suffix(s: &str, p: &str) -> (r: Option<String>)
    ensures
        opt_text(r) == before_suffix(s@, p@),
{
    let v = chars_of(s);
    let w = chars_of(p);
    if w.len() <= v.len() && match_at(&v, &w, v.len() - w.len()) {
        let rest = string_of(&v, 0, v.len() - w.len());
        assert(rest@ =~= s@.take(s@.len() - p@.len()));
        Some(rest)
    } else {
        None
    }
}

// ---------------------------------------------------------------------------
// Splitting
// ---------------------------------------------------------------------------

/// What stands before and after the first `c`.
pub open spec fn halves(s: Seq<char>, c: char) -> Option<(Seq<char>, Seq<char>)> {
    let p = position(s, c) as int;
    if p < s.len() {
        Some((s.take(p), s.skip(p + 1)))
    } else {
        None
    }
}

pub fn split_once(s: &str, c: char) -> (r: Option<(String, String)>)
    ensures
        match r {
            Some(h) => halves(s@, c) == Some((h.0@, h.1@)),
            None => halves(s@, c) is None,
        },
{
    let v = chars_of(s);
    let p = find(&v, c);
    if p < v.len() {
        let a = string_of(&v, 0, p);
        let b = string_of(&v, p + 1, v.len());
        assert(a@ =~= s@.take(p as int));
        assert(b@ =~= s@.skip(p + 1));
        Some((a, b))
    } else {
        None
    }
}

/// Splitting undoes joining around a character that the front does not hold.
pub proof fn lemma_halves(a: Seq<char>, c: char, b: Seq<char>)
    requires
        forall|i: int| 0 <= i < a.len() ==> #[trigger] a[i] != c,
    ensures
        halves(a + seq![c] + b, c) == Some((a, b)),
{
    let s = a + seq![c] + b;
    assert forall|j: int| 0 <= j < a.len() implies #[trigger] s[j] != c by {
        assert(s[j] == a[j]);
    }
    lemma_position2_is(s, c, c, a.len() as int);
    assert(s.take(a.len() as int) =~= a);
    assert(s.skip(a.len() as int + 1) =~= b);
}

/// A prefix comes off what it was put on.
pub proof fn lemma_after_prefix(p: Seq<char>, t: Seq<char>)
    ensures
        after_prefix(p + t, p) == Some(t),
{
    assert((p + t).subrange(0, p.len() as int) =~= p);
    assert((p + t).skip(p.len() as int) =~= t);
}

/// How many characters at the front are not white space.
pub open spec fn word_len(s: Seq<char>) -> nat
    decreases s.len(),
{
    if s.len() == 0 || white(s[0]) {
        0
    } else {
        1 + word_len(s.skip(1))
    }
}

/// The maximal runs of characters that are not white space.
pub open spec fn words(s: Seq<char>) -> Seq<Seq<char>>
    decreases s.len(),
{
    if s.len() == 0 {
        Seq::empty()
    } else if white(s[0]) {
        words(s.skip(1))
    } else {
        proof {
            lemma_word_len_bound(s);
        }
        seq![s.take(word_len(s) as int)] + words(s.skip(word_len(s) as int))
    }
}

pub proof fn lemma_word_len_bound(s: Seq<char>)
    ensures
        word_len(s) <= s.len(),
        s.len() > 0 && !white(s[0]) ==> word_len(s) > 0,
    decreases s.len(),
{
    if s.len() > 0 && !white(s[0]) {
        lemma_word_len_bound(s.skip(1));
    }
}

proof fn lemma_word_len(s: Seq<char>, n: int)
    requires
        0 <= n <= s.len(),
        forall|j: int| 0 <= j < n ==> !white(#[trigger] s[j]),
        n < s.len() ==> white(s[n]),
    ensures
        word_len(s) == n,
    decreases s.len(),
{
    if n > 0 {
        assert(!white(s[0]));
        assert forall|j: int| 0 <= j < n - 1 implies !white(#[trigger] s.skip(1)[j]) by {
            assert(s.skip(1)[j] == s[j + 1]);
        }
        if n < s.len() {
            assert(s.skip(1)[n - 1] == s[n]);
        }
        lemma_word_len(s.skip(1), n - 1);
    }
}

/// The words of a text, as `str::split_whitespace` yields them.
pub fn split_whitespace(s: &str) -> (r: Vec<String>)
    ensures
        texts(r@) == words(s@),
{
    let v = chars_of(s);
    let mut out: Vec<String> = Vec::new();
    let mut i: usize = 0;
    assert(s@.skip(0) =~= s@);
    while i < v.len()
        invariant
            i <= v@.len(),
            v@ == s@,
            texts(out@) + words(s@.skip(i as int)) == words(s@),
        decreases v@.len() - i,
    {
        let ghost rest = s@.skip(i as int);
        assert(rest[0] == s@[i as int]);
        if is_whitespace(v[i]) {
            i = i + 1;
            assert(rest.skip(1) =~= s@.skip(i as int));
        } else {
            let start: usize = i;
            while i < v.len() && !is_whitespace(v[i])
                invariant
                    start <= i <= v@.len(),
                    v@ == s@,
                    forall|j: int| start <= j < i ==> !white(#[trigger] s@[j]),
                decreases v@.len() - i,
            {
                i = i + 1;
            }
            proof {
                assert forall|j: int| 0 <= j < i - start implies !white(#[trigger] rest[j]) by {
                    assert(rest[j] == s@[start + j]);
                }
                if i < v@.len() {
                    assert(rest[i - start] == s@[i as int]);
                }
                lemma_word_len(rest, i - start);
            }
            let word = string_of(&v, start, i);
            let ghost before = texts(out@);
            proof {
                assert(word@ =~= rest.take(i - start));
                assert(rest.skip(i - start) =~= s@.skip(i as int));
                assert(!white(rest[0]));
                assert(words(rest) == seq![word@] + words(s@.skip(i as int)));
            }
            out.push(word);
            proof {
                assert(texts(out@) =~= before + seq![word@]);
                assert(before + (seq![word@] + words(s@.skip(i as int))) =~= texts(out@) + words(
                    s@.skip(i as int),
                ));
            }
        }
    }
    assert(s@.skip(s@.len() as int) =~= Seq::<char>::empty());
    assert(texts(out@) + Seq::<Seq<char>>::empty() =~= texts(out@));
    out
}

/// One line without its terminator: a line feed, or a carriage return before it.
pub open spec fn line_body(s: Seq<char>, n: int) -> Seq<char> {
    if n < s.len() && n > 0 && s[n - 1] == '\r' {
        s.take(n - 1)
    } else {
        s.take(n)
    }
}

/// The lines of a text, as `str::lines` yields them.
pub open spec fn line_seq(s: Seq<char>) -> Seq<Seq<char>>
    decreases s.len(),
{
    if s.len() == 0 {
        Seq::empty()
    } else {
        let n = position(s, '\n') as int;
        if n >= s.len() {
            seq![s]
        } else {
            seq![line_body(s, n)] + line_seq(s.skip(n + 1))
        }
    }
}

pub fn lines(s: &str) -> (r: Vec<String>)
    ensures
        texts(r@) == line_seq(s@),
{
    let v = chars_of(s);
    let mut out: Vec<String> = Vec::new();
    let mut start: usize = 0;
    assert(s@.skip(0) =~= s@);
    while start < v.len()
        invariant
            start <= v@.len(),
            v@ == s@,
            texts(out@) + line_seq(s@.skip(start as int)) == line_seq(s@),
        decreases v@.len() - start,
    {
        let ghost rest = s@.skip(start as int);
        let mut i: usize = start;
        while i < v.len() && v[i] != '\n'
            invariant
                start <= i <= v@.len(),
                v@ == s@,
                forall|j: int| start <= j < i ==> #[trigger] s@[j] != '\n',
            decreases v@.len() - i,
        {
            i = i + 1;
        }
        proof {
            assert forall|j: int| 0 <= j < i - start implies #[trigger] rest[j] != '\n' by {
                assert(rest[j] == s@[start + j]);
            }
            if i < v@.len() {
                assert(rest[i - start] == s@[i as int]);
            }
            lemma_position2_is(rest, '\n', '\n', i - start);
        }
        let ghost before = texts(out@);
        if i < v.len() {
            let line = if i > start && v[i - 1] == '\r' {
                assert(rest[i - start - 1] == s@[i - 1]);
                string_of(&v, start, i - 1)
            } else {
                if i > start {
                    assert(rest[i - start - 1] == s@[i - 1]);
                }
                string_of(&v, start, i)
            };
            proof {
                assert(line@ =~= line_body(rest, i - start));
                assert(rest.skip(i - start + 1) =~= s@.skip(i + 1));
                assert(line_seq(rest) == seq![line@] + line_seq(s@.skip(i + 1)));
            }
            out.push(line);
            start = i + 1;
            proof {
                assert(texts(out@) =~= before + seq![line@]);
                assert(before + (seq![line@] + line_seq(s@.skip(start as int))) =~= texts(out@)
                    + line_seq(s@.skip(start as int)));
            }
        } else {
            let line = string_of(&v, start, i);
            proof {
                assert(line@ =~= rest);
                assert(line_seq(rest) == seq![line@]);
            }
            out.push(line);
            start = i;
            proof {
                assert(texts(out@) =~= before + seq![line@]);
                assert(s@.skip(start as int) =~= Seq::<char>::empty());
                assert(texts(out@) + Seq::<Seq<char>>::empty() =~= texts(out@));
            }
        }
    }
    assert(s@.skip(s@.len() as int) =~= Seq::<char>::empty());
    assert(texts(out@) + Seq::<Seq<char>>::empty() =~= texts(out@));
    out
}

/// `s` without the white space at its front.
pub open spec fn trim_front(s: Seq<char>) -> Seq<char>
    decreases s.len(),
{
    if s.len() > 0 && white(s[0]) {
        trim_front(s.skip(1))
    } else {
        s
    }
}

/// `s` without the white space at its end.
pub open spec fn trim_back(s: Seq<char>) -> Seq<char>
    decreases s.len(),
{
    if s.len() > 0 && white(s.last()) {
        trim_back(s.drop_last())
    } else {
        s
    }
}

/// `s` without the white space around it, as `str::trim` gives it.
pub open spec fn trimmed(s: Seq<char>) -> Seq<char> {
    trim_back(trim_front(s))
}

pub fn trim(s: &str) -> (r: String)
    ensures
        r@ == trimmed(s@),
{
    let v = chars_of(s);
    let mut a: usize = 0;
    assert(s@.skip(0) =~= s@);
    while a < v.len() && is_whitespace(v[a])
        invariant
            a <= v@.len(),
            v@ == s@,
            trim_front(s@.skip(a as int)) == trim_front(s@),
        decreases v@.len() - a,
    {
        assert(s@.skip(a as int)[0] == s@[a as int]);
        a = a + 1;
        assert(s@.skip(a - 1).skip(1) =~= s@.skip(a as int));
    }
    assert(a < v@.len() ==> s@.skip(a as int)[0] == s@[a as int]);
    let ghost mid = s@.skip(a as int);
    assert(trim_front(s@) == mid);
    let mut b: usize = v.len();
    assert(mid.take(b - a) =~= mid);
    while b > a && is_whitespace(v[b - 1])
        invariant
            a <= b <= v@.len(),
            v@ == s@,
            mid == s@.skip(a as int),
            trim_back(mid.take(b - a)) == trim_back(mid),
        decreases b,
    {
        assert(mid.take(b - a).last() == s@[b - 1]);
        b = b - 1;
        assert(mid.take(b + 1 - a).drop_last() =~= mid.take(b - a));
    }
    assert(b > a ==> mid.take(b - a).last() == s@[b - 1]);
    let r = string_of(&v, a, b);
    assert(r@ =~= mid.take(b - a));
    r
}

// ---------------------------------------------------------------------------
// Numerals
// ---------------------------------------------------------------------------

/// The value of a hexadecimal digit of either case.
pub open spec fn digit_value(c: char) -> nat {
    if '0' <= c && c <= '9' {
        (c as u32 - '0' as u32) as nat
    } else if 'a' <= c && c <= 'f' {
        (c as u32 - 'a' as u32 + 10) as nat
    } else if 'A' <= c && c <= 'F' {
        (c as u32 - 'A' as u32 + 10) as nat
    } else {
        16
    }
}

/// The number that a digit string stands for.
pub open spec fn numeral_value(s: Seq<char>, radix: nat) -> nat
    decreases s.len(),
{
    if s.len() == 0 {
        0
    } else {
        numeral_value(s.drop_last(), radix) * radix + digit_value(s.last())
    }
}

/// At least one digit, and nothing but digits.
pub open spec fn numeral(s: Seq<char>, radix: nat) -> bool {
    s.len() > 0 && forall|i: int| 0 <= i < s.len() ==> digit_value(#[trigger] s[i]) < radix
}

/// `s` without one leading plus sign.
pub open spec fn unsigned_body(s: Seq<char>) -> Seq<char> {
    if s.len() > 0 && s[0] == '+' {
        s.skip(1)
    } else {
        s
    }
}

/// The unsigned number at most `max` that `s` spells, as the integer parsers
/// of the standard library read it: digits, one plus sign allowed before them.
pub open spec fn parsed(s: Seq<char>, radix: nat, max: nat) -> Option<nat> {
    if numeral(unsigned_body(s), radix) && numeral_value(unsigned_body(s), radix) <= max {
        Some(numeral_value(unsigned_body(s), radix))
    } else {
        None
    }
}

fn digit_of(c: char) -> (d: u64)
    ensures
        d == digit_value(c),
        d <= 16,
{
    let n: u64 = c as u64;
    if 48 <= n && n <= 57 {
        n - 48
    } else if 97 <= n && n <= 102 {
        n - 87
    } else if 65 <= n && n <= 70 {
        n - 55
    } else {
        16
    }
}

/// Read an unsigned number in base 10 or 16.
pub fn parse_number(s: &str, radix: u64, max: u64) -> (r: Option<u64>)
    requires
        radix == 10 || radix == 16,
    ensures
        match r {
            Some(n) => parsed(s@, radix as nat, max as nat) == Some(n as nat),
            None => parsed(s@, radix as nat, max as nat) is None,
        },
{
    let v = chars_of(s);
    let start: usize = if v.len() > 0 && v[0] == '+' {
        1
    } else {
        0
    };
    let ghost body = unsigned_body(s@);
    assert(body =~= s@.skip(start as int));
    if start >= v.len() {
        return None;
    }
    let mut acc: u64 = 0;
    let mut over: bool = false;
    let mut i: usize = start;
    while i < v.len()
        invariant
            start <= i <= v@.len(),
            start <= 1,
            v@ == s@,
            radix == 10 || radix == 16,
            body == s@.skip(start as int),
            body == unsigned_body(s@),
            forall|j: int| 0 <= j < i - start ==> digit_value(#[trigger] body[j]) < radix,
            !over ==> acc == numeral_value(body.take(i - start), radix as nat) && acc <= max,
            over ==> numeral_value(body.take(i - start), radix as nat) > max,
        decreases v@.len() - i,
    {
        let d: u64 = digit_of(v[i]);
        let ghost pre = body.take(i - start);
        let ghost post = body.take(i + 1 - start);
        proof {
            assert(body[i - start] == s@[i as int]);
            assert(post.drop_last() =~= pre);
            assert(post.last() == s@[i as int]);
            assert(numeral_value(post, radix as nat) == numeral_value(pre, radix as nat) * (
            radix as nat) + d);
            let w = numeral_value(pre, radix as nat);
            let r = radix as nat;
            assert(w * r >= w && (r == 10 ==> w * r == w * 10) && (r == 16 ==> w * r == w * 16))
                by (nonlinear_arith)
                requires
                    r == 10 || r == 16,
            ;
        }
        if d >= radix {
            assert(!(digit_value(body[i - start]) < radix));
            assert(!numeral(body, radix as nat));
            return None;
        }
        if !over {
            let base: u128 = acc as u128;
            assert(base * 16 <= 0xf_ffff_ffff_ffff_fff0);
            let wide: u128 = if radix == 10 {
                base * 10 + d as u128
            } else {
                base * 16 + d as u128
            };
            assert(wide == numeral_value(post, radix as nat));
            if wide > max as u128 {
                over = true;
            } else {
                acc = wide as u64;
            }
        }
        i = i + 1;
    }
    assert(body.take(v@.len() - start) =~= body);
    if over {
        None
    } else {
        Some(acc)
    }
}

/// The digit character of a value below sixteen.
pub open spec fn digit_char(d: nat, upper: bool) -> char {
    if d < 10 {
        (48 + d) as char
    } else if upper {
        (55 + d) as char
    } else {
        (87 + d) as char
    }
}

/// Decimal digits without leading zeros.
pub open spec fn decimal(n: nat) -> Seq<char>
    decreases n,
{
    if n < 10 {
        seq![digit_char(n, false)]
    } else {
        decimal(n / 10).push(digit_char(n % 10, false))
    }
}

/// The last `width` hexadecimal digits of a number.
pub open spec fn hex_digits(n: nat, width: nat, upper: bool) -> Seq<char>
    decreases width,
{
    if width == 0 {
        Seq::empty()
    } else {
        hex_digits(n / 16, (width - 1) as nat, upper).push(digit_char(n % 16, upper))
    }
}

fn make_digit(d: u8, upper: bool) -> (c: char)
    requires
        d < 16,
    ensures
        c == digit_char(d as nat, upper),
{
    let code: u8 = if d < 10 {
        48 + d
    } else if upper {
        55 + d
    } else {
        87 + d
    };
    code as char
}

pub fn decimal_text(n: u64) -> (s: String)
    ensures
        s@ == decimal(n as nat),
    decreases n,
{
    if n < 10 {
        let mut s = String::new();
        s.push(make_digit(n as u8, false));
        assert(s@ =~= decimal(n as nat));
        s
    } else {
        let mut s = decimal_text(n / 10);
        s.push(make_digit((n % 10) as u8, false));
        s
    }
}

pub fn hex_text(n: u64, width: usize, upper: bool) -> (s: String)
    ensures
        s@ == hex_digits(n as nat, width as nat, upper),
    decreases width,
{
    if width == 0 {
        String::new()
    } else {
        let mut s = hex_text(n / 16, width - 1, upper);
        s.push(make_digit((n % 16) as u8, upper));
        s
    }
}

/// Decimal digits spell the number they were made from.
pub proof fn lemma_decimal(n: nat)
    ensures
        decimal(n).len() > 0,
        forall|i: int| 0 <= i < decimal(n).len() ==> ascii_digit(#[trigger] decimal(n)[i]),
        numeral(decimal(n), 10),
        numeral_value(decimal(n), 10) == n,
    decreases n,
{
    reveal_with_fuel(numeral_value, 2);
    let d = decimal(n);
    if n < 10 {
        assert(d.drop_last() =~= Seq::empty());
        assert(d[0] as int == 48 + n);
        assert(ascii_digit(d[0]));
        assert(numeral_value(d, 10) == numeral_value(d.drop_last(), 10) * 10 + digit_value(d[0]));
    } else {
        lemma_decimal(n / 10);
        let p = decimal(n / 10);
        assert(d == p.push(digit_char(n % 10, false)));
        assert(d.drop_last() =~= p);
        assert(d.last() as int == 48 + n % 10);
        assert forall|i: int| 0 <= i < d.len() implies ascii_digit(#[trigger] d[i]) && digit_value(
            d[i],
        ) < 10 by {
            if i < p.len() {
                assert(d[i] == p[i]);
            }
        }
        assert(numeral_value(d, 10) == numeral_value(p, 10) * 10 + digit_value(d.last()));
    }
}

/// Reading a number back from its decimal digits.
pub proof fn lemma_decimal_parses(n: nat, max: nat)
    ensures
        parsed(decimal(n), 10, max) == (if n <= max {
            Some(n)
        } else {
            None
        }),
{
    lemma_decimal(n);
    assert(ascii_digit(decimal(n)[0]));
    assert(unsigned_body(decimal(n)) == decimal(n));
}

/// Padded lower-case hexadecimal digits have exactly the width asked for.
pub proof fn lemma_hex_digits(n: nat, width: nat)
    ensures
        hex_digits(n, width, false).len() == width,
        forall|i: int|
            0 <= i < width ==> lower_hex(#[trigger] hex_digits(n, width, false)[i]),
    decreases width,
{
    if width > 0 {
        lemma_hex_digits(n / 16, (width - 1) as nat);
        let p = hex_digits(n / 16, (width - 1) as nat, false);
        let h = hex_digits(n, width, false);
        let d = n % 16;
        assert(h == p.push(digit_char(d, false)));
        assert(d < 10 ==> h.last() as int == 48 + d);
        assert(d >= 10 ==> h.last() as int == 87 + d);
        assert forall|i: int| 0 <= i < width implies lower_hex(#[trigger] h[i]) by {
            if i < p.len() {
                assert(h[i] == p[i]);
            }
        }
    }
}

/// Numbers with the same decimal digits are the same number, and reading the
/// digits back gives it.
pub proof fn law_decimal_tells_numbers_apart(a: nat, b: nat)
    ensures
        decimal(a) == decimal(b) <==> a == b,
        numeral_value(decimal(a), 10) == a,
{
    lemma_decimal(a);
    lemma_decimal(b);
}

/// A decimal number has no blanks around it.
pub proof fn lemma_decimal_is_trimmed(n: nat)
    ensures
        trimmed(decimal(n)) == decimal(n),
{
    lemma_decimal(n);
    let d = decimal(n);
    assert(ascii_digit(d[0]));
    assert(ascii_digit(d[d.len() - 1]));
}

/// Trimming takes blanks from both ends and nothing else: what is left is a
/// part of the text, begins and ends with no blank, and all that went was
/// blank.
pub proof fn law_trimming_takes_blanks_only(s: Seq<char>)
    ensures
        exists|a: int, b: int|
            #![trigger s.subrange(a, b)]
            0 <= a <= b <= s.len() && trimmed(s) == s.subrange(a, b) && (forall|i: int|
                (0 <= i < a || b <= i < s.len()) ==> white(#[trigger] s[i])),
        trimmed(s).len() > 0 ==> !white(trimmed(s)[0]) && !white(trimmed(s).last()),
{
    let a = lemma_trim_front(s);
    let t = trim_front(s);
    let n = lemma_trim_back(t);
    let b = a + n;
    assert(trimmed(s) =~= s.subrange(a, b));
    assert forall|i: int| (0 <= i < a || b <= i < s.len()) implies white(#[trigger] s[i]) by {
        if i >= b {
            assert(t[i - a] == s[i]);
        }
    }
    if trimmed(s).len() > 0 {
        assert(trimmed(s)[0] == t[0]);
    }
}

proof fn lemma_trim_front(s: Seq<char>) -> (a: int)
    ensures
        0 <= a <= s.len(),
        trim_front(s) == s.skip(a),
        forall|i: int| 0 <= i < a ==> white(#[trigger] s[i]),
        trim_front(s).len() > 0 ==> !white(trim_front(s)[0]),
    decreases s.len(),
{
    if s.len() > 0 && white(s[0]) {
        let a = lemma_trim_front(s.skip(1));
        assert(s.skip(1).skip(a) =~= s.skip(a + 1));
        assert forall|i: int| 0 <= i < a + 1 implies white(#[trigger] s[i]) by {
            if i > 0 {
                assert(s.skip(1)[i - 1] == s[i]);
            }
        }
        a + 1
    } else {
        assert(s.skip(0) =~= s);
        0
    }
}

proof fn lemma_trim_back(s: Seq<char>) -> (n: int)
    ensures
        0 <= n <= s.len(),
        trim_back(s) == s.take(n),
        forall|i: int| n <= i < s.len() ==> white(#[trigger] s[i]),
        trim_back(s).len() > 0 ==> !white(trim_back(s).last()),
    decreases s.len(),
{
    if s.len() > 0 && white(s.last()) {
        let n = lemma_trim_back(s.drop_last());
        assert(s.drop_last().take(n) =~= s.take(n));
        assert forall|i: int| n <= i < s.len() implies white(#[trigger] s[i]) by {
            if i < s.len() - 1 {
                assert(s.drop_last()[i] == s[i]);
            }
        }
        n
    } else {
        assert(s.take(s.len() as int) =~= s);
        s.len() as int
    }
}

/// How many numbers a given number of hexadecimal digits can tell apart.
pub open spec fn hex_room(width: nat) -> nat
    decreases width,
{
    if width == 0 {
        1
    } else {
        16 * hex_room((width - 1) as nat)
    }
}

/// Numbers that fit have the same hexadecimal digits only where they are the
/// same number.
pub proof fn law_hex_tells_numbers_apart(a: nat, b: nat, width: nat, upper: bool)
    requires
        a < hex_room(width),
        b < hex_room(width),
    ensures
        hex_digits(a, width, upper).len() == width,
        hex_digits(a, width, upper) == hex_digits(b, width, upper) <==> a == b,
    decreases width,
{
    if width > 0 {
        let w = (width - 1) as nat;
        law_hex_tells_numbers_apart(a / 16, b / 16, w, upper);
        let x = hex_digits(a, width, upper);
        let y = hex_digits(b, width, upper);
        if x == y {
            assert(x.last() == y.last());
            assert(x.drop_last() =~= hex_digits(a / 16, w, upper));
            assert(y.drop_last() =~= hex_digits(b / 16, w, upper));
            assert(a % 16 == b % 16);
        }
    }
}

/// The words of a text are what stands between its blanks: a run without
/// blanks is a word, and a blank ends one and is part of none.
pub proof fn law_words_stand_between_blanks(w: Seq<char>, c: char, rest: Seq<char>)
    requires
        w.len() > 0,
        forall|i: int| 0 <= i < w.len() ==> !white(#[trigger] w[i]),
        white(c),
    ensures
        words(w) == seq![w],
        words(w + seq![c] + rest) == seq![w] + words(rest),
        words(seq![c] + rest) == words(rest),
{
    lemma_word_len(w, w.len() as int);
    assert(w.take(w.len() as int) =~= w);
    assert(w.skip(w.len() as int) =~= Seq::<char>::empty());
    assert(!white(w[0]));
    let none = Seq::<char>::empty();
    assert(words(none) =~= Seq::<Seq<char>>::empty());
    assert(w.skip(word_len(w) as int) == none);
    assert(words(w) == seq![w.take(word_len(w) as int)] + words(none));
    assert(words(w) =~= seq![w]);
    let tail = seq![c] + rest;
    assert(tail[0] == c);
    assert(tail.skip(1) =~= rest);
    assert(words(tail) == words(rest));
    let all = w + seq![c] + rest;
    assert forall|j: int| 0 <= j < w.len() implies !white(#[trigger] all[j]) by {
        assert(all[j] == w[j]);
    }
    assert(all[w.len() as int] == c);
    lemma_word_len(all, w.len() as int);
    assert(all.take(w.len() as int) =~= w);
    assert(all.skip(w.len() as int) =~= tail);
    assert(!white(all[0]));
    assert(words(all) == seq![all.take(word_len(all) as int)] + words(
        all.skip(word_len(all) as int),
    ));
}

/// The lines of a text end with line feeds, which are part of none, nor is a
/// carriage return right before one; a last line needs no end.
pub proof fn law_lines_end_with_line_feeds(line: Seq<char>, rest: Seq<char>)
    requires
        forall|i: int| 0 <= i < line.len() ==> #[trigger] line[i] != '\n',
    ensures
        line.len() > 0 ==> line_seq(line) == seq![line],
        line_seq(line + seq!['\n'] + rest) == seq![
            if line.len() > 0 && line.last() == '\r' {
                line.drop_last()
            } else {
                line
            },
        ] + line_seq(rest),
        line_seq(Seq::empty()) == Seq::<Seq<char>>::empty(),
{
    lemma_position2_is(line, '\n', '\n', line.len() as int);
    let all = line + seq!['\n'] + rest;
    let n = line.len() as int;
    assert forall|j: int| 0 <= j < n implies #[trigger] all[j] != '\n' && all[j] != '\n' by {
        assert(all[j] == line[j]);
    }
    assert(all[n] == '\n');
    lemma_position2_is(all, '\n', '\n', n);
    assert(all.skip(n + 1) =~= rest);
    assert(all.take(n) =~= line);
    if line.len() > 0 {
        assert(all[n - 1] == line.last());
        assert(all.take(n - 1) =~= line.drop_last());
    }
}

/// Lower case changes the letters `A` to `Z` into `a` to `z` and nothing else.
pub proof fn law_lower_case(s: Seq<char>, i: int)
    requires
        0 <= i < s.len(),
    ensures
        ascii_lowercase(s).len() == s.len(),
        'A' <= s[i] <= 'Z' ==> ascii_lowercase(s)[i] as int == s[i] as int + 32,
        !('A' <= s[i] <= 'Z') ==> ascii_lowercase(s)[i] == s[i],
        ascii_lowercase(ascii_lowercase(s)) == ascii_lowercase(s),
{
    assert(ascii_lowercase(ascii_lowercase(s)) =~= ascii_lowercase(s));
}

/// A number that fits is read back from its hexadecimal digits, in either
/// case.
pub proof fn law_hex_reads_back(n: nat, width: nat, upper: bool)
    requires
        n < hex_room(width),
    ensures
        hex_digits(n, width, upper).len() == width,
        forall|i: int|
            0 <= i < width ==> digit_value(#[trigger] hex_digits(n, width, upper)[i]) < 16,
        numeral_value(hex_digits(n, width, upper), 16) == n,
    decreases width,
{
    if width > 0 {
        let w = (width - 1) as nat;
        law_hex_reads_back(n / 16, w, upper);
        let p = hex_digits(n / 16, w, upper);
        let h = hex_digits(n, width, upper);
        let d = n % 16;
        assert(h == p.push(digit_char(d, upper)));
        assert(h.drop_last() =~= p);
        assert(d < 10 ==> h.last() as int == 48 + d);
        assert(d >= 10 && upper ==> h.last() as int == 55 + d);
        assert(d >= 10 && !upper ==> h.last() as int == 87 + d);
        assert(digit_value(h.last()) == d);
        assert forall|i: int| 0 <= i < width implies digit_value(#[trigger] h[i]) < 16 by {
            if i < p.len() {
                assert(h[i] == p[i]);
            }
        }
    }
}

} // verus!
