//! Slash-separated paths as text.
//!
//! The functions give what `std::path` gives on Unix: separators may repeat,
//! `.` counts only as the first component of a relative path, and trailing
//! separators are not part of the last component.

use vstd::prelude::*;

use crate::text::{
    chars_of, last_position, lemma_last_position, position, rfind, same, string_of, texts,
};

verus! {

/// Is the path absolute?
pub open spec fn rooted(p: Seq<char>) -> bool {
    p.len() > 0 && p[0] == '/'
}

/// The length that remains once trailing separators and trailing `.`
/// components are taken off.
pub open spec fn body_end(p: Seq<char>) -> nat
    decreases p.len(),
{
    if p.len() == 0 {
        0
    } else if p.last() == '/' || (p.len() >= 2 && p.last() == '.' && p[p.len() - 2] == '/') {
        body_end(p.drop_last())
    } else {
        p.len()
    }
}

pub open spec fn trimmed_path(p: Seq<char>) -> Seq<char> {
    p.take(body_end(p) as int)
}

/// Where the last component starts.
pub open spec fn last_start(p: Seq<char>) -> int {
    last_position(trimmed_path(p), '/') + 1
}

/// The last component.
pub open spec fn last_component(p: Seq<char>) -> Seq<char> {
    trimmed_path(p).skip(last_start(p))
}

/// `Path::file_name`: the last component, unless it is `.` or `..` or there
/// is none.
pub open spec fn file_name_of(p: Seq<char>) -> Option<Seq<char>> {
    let c = last_component(p);
    if body_end(p) == 0 || c == seq!['.'] || c == seq!['.', '.'] {
        None
    } else {
        Some(c)
    }
}

/// `Path::parent`: what precedes the last component.
pub open spec fn parent_of(p: Seq<char>) -> Option<Seq<char>> {
    if body_end(p) == 0 {
        None
    } else {
        let q = p.take(last_start(p));
        if body_end(q) > 0 {
            Some(trimmed_path(q))
        } else if rooted(p) {
            Some(seq!['/'])
        } else {
            Some(Seq::empty())
        }
    }
}

/// `Path::join`.
pub open spec fn joined(base: Seq<char>, rel: Seq<char>) -> Seq<char> {
    if rooted(rel) {
        rel
    } else if base.len() == 0 || base.last() == '/' {
        base + rel
    } else {
        base.push('/') + rel
    }
}

/// `Path::with_extension` for an extension that is not empty.
pub open spec fn with_extension_of(p: Seq<char>, ext: Seq<char>) -> Seq<char> {
    match file_name_of(p) {
        None => p,
        Some(name) => {
            let dot = last_position(name, '.');
            let stem = if dot > 0 {
                name.take(dot)
            } else {
                name
            };
            p.take(last_start(p)) + stem.push('.') + ext
        },
    }
}

pub proof fn lemma_body_end(p: Seq<char>)
    ensures
        body_end(p) <= p.len(),
    decreases p.len(),
{
    if p.len() > 0 {
        lemma_body_end(p.drop_last());
    }
}

/// The body end of the first `n` characters.
fn find_body_end(v: &Vec<char>, n: usize) -> (e: usize)
    requires
        n <= v@.len(),
    ensures
        e == body_end(v@.take(n as int)),
        e <= n,
{
    let mut e: usize = n;
    while e > 0 && (v[e - 1] == '/' || (e >= 2 && v[e - 1] == '.' && v[e - 2] == '/'))
        invariant
            e <= n <= v@.len(),
            body_end(v@.take(e as int)) == body_end(v@.take(n as int)),
        decreases e,
    {
        assert(v@.take(e as int).last() == v@[e - 1]);
        assert(v@.take(e as int).drop_last() =~= v@.take(e - 1));
        e = e - 1;
    }
    assert(e > 0 ==> v@.take(e as int).last() == v@[e - 1]);
    e
}

/// The body end and the start of the last component.
fn find_last(v: &Vec<char>) -> (r: (usize, usize))
    ensures
        r.0 == body_end(v@),
        r.1 == last_start(v@),
        r.1 <= r.0 <= v@.len(),
{
    assert(v@.take(v@.len() as int) =~= v@);
    let e: usize = find_body_end(v, v.len());
    let mut i: usize = e;
    let ghost t = v@.take(e as int);
    while i > 0 && v[i - 1] != '/'
        invariant
            i <= e <= v@.len(),
            t == v@.take(e as int),
            forall|j: int| i <= j < e ==> #[trigger] t[j] != '/',
        decreases i,
    {
        assert(t[i - 1] == v@[i - 1]);
        i = i - 1;
    }
    proof {
        lemma_last_position(t, '/');
        let p = last_position(t, '/');
        if p >= i {
            assert(t[p] != '/');
        }
        if i > 0 && p < i - 1 {
            assert(t[i - 1] == v@[i - 1]);
            assert(t[i - 1] != '/');
        }
    }
    (e, i)
}

pub fn is_absolute(p: &str) -> (b: bool)
    ensures
        b == rooted(p@),
{
    let v = chars_of(p);
    v.len() > 0 && v[0] == '/'
}

pub fn file_name(p: &str) -> (r: Option<String>)
    ensures
        crate::text::opt_text(r) == file_name_of(p@),
{
    let v = chars_of(p);
    let (e, s) = find_last(&v);
    if e == 0 {
        return None;
    }
    let name = string_of(&v, s, e);
    assert(name@ =~= last_component(p@));
    proof {
        reveal_strlit(".");
        reveal_strlit("..");
        assert("."@ =~= seq!['.']);
        assert(".."@ =~= seq!['.', '.']);
    }
    if same(name.as_str(), ".") || same(name.as_str(), "..") {
        None
    } else {
        Some(name)
    }
}

pub fn parent(p: &str) -> (r: Option<String>)
    ensures
        crate::text::opt_text(r) == parent_of(p@),
{
    let v = chars_of(p);
    let (e, s) = find_last(&v);
    if e == 0 {
        return None;
    }
    let q: usize = find_body_end(&v, s);
    if q > 0 {
        let r = string_of(&v, 0, q);
        assert(r@ =~= trimmed_path(p@.take(last_start(p@))));
        Some(r)
    } else if v[0] == '/' {
        let mut r = String::new();
        r.push('/');
        assert(r@ =~= seq!['/']);
        Some(r)
    } else {
        Some(String::new())
    }
}

pub fn join(base: &str, rel: &str) -> (r: String)
    ensures
        r@ == joined(base@, rel@),
{
    let v = chars_of(base);
    let w = chars_of(rel);
    if w.len() > 0 && w[0] == '/' {
        return rel.to_owned();
    }
    let mut r = base.to_owned();
    if v.len() > 0 && v[v.len() - 1] != '/' {
        r.push('/');
    }
    r.append(rel);
    r
}

pub fn with_extension(p: &str, ext: &str) -> (r: String)
    ensures
        r@ == with_extension_of(p@, ext@),
{
    match file_name(p) {
        None => p.to_owned(),
        Some(name) => {
            let v = chars_of(p);
            let (e, s) = find_last(&v);
            let n = chars_of(name.as_str());
            let stem: usize = match rfind(&n, '.') {
                Some(d) => if d > 0 {
                    d
                } else {
                    n.len()
                },
                None => n.len(),
            };
            proof {
                lemma_last_position(n@, '.');
            }
            let mut r = string_of(&v, 0, s);
            let mut stem_text = string_of(&n, 0, stem);
            proof {
                assert(r@ =~= p@.take(last_start(p@)));
                let dot = last_position(name@, '.');
                assert(stem_text@ =~= (if dot > 0 {
                    name@.take(dot)
                } else {
                    name@
                }));
            }
            stem_text.push('.');
            r.append(stem_text.as_str());
            r.append(ext);
            r
        },
    }
}

/// `Path::with_file_name` on a path that names a file.
pub open spec fn with_file_name_of(p: Seq<char>, name: Seq<char>) -> Seq<char> {
    joined(
        match parent_of(p) {
            Some(d) => d,
            None => Seq::empty(),
        },
        name,
    )
}

pub fn with_file_name(p: &str, name: &str) -> (r: String)
    requires
        file_name_of(p@) is Some,
    ensures
        r@ == with_file_name_of(p@, name@),
{
    match parent(p) {
        Some(d) => join(d.as_str(), name),
        None => join("", name),
    }
}

// ---------------------------------------------------------------------------
// Components
// ---------------------------------------------------------------------------

/// The texts between separators.
pub open spec fn segments(p: Seq<char>) -> Seq<Seq<char>>
    decreases p.len(),
{
    let n = position(p, '/') as int;
    if n >= p.len() {
        seq![p]
    } else {
        seq![p.take(n)] + segments(p.skip(n + 1))
    }
}

/// Segments that are components: not empty and not `.`.
pub open spec fn plain_segments(s: Seq<Seq<char>>) -> Seq<Seq<char>>
    decreases s.len(),
{
    if s.len() == 0 {
        s
    } else {
        let rest = plain_segments(s.drop_last());
        if s.last().len() == 0 || s.last() == seq!['.'] {
            rest
        } else {
            rest.push(s.last())
        }
    }
}

/// The components of a path: the root as `/`, a leading `.` of a relative
/// path, and every other segment that is neither empty nor `.`.
pub open spec fn components_of(p: Seq<char>) -> Seq<Seq<char>> {
    let head = if rooted(p) {
        seq![seq!['/']]
    } else if segments(p)[0] == seq!['.'] {
        seq![seq!['.']]
    } else {
        Seq::empty()
    };
    head + plain_segments(segments(p))
}

fn split_segments(p: &str) -> (r: Vec<String>)
    ensures
        texts(r@) == segments(p@),
        r@.len() > 0,
{
    let v = chars_of(p);
    let mut out: Vec<String> = Vec::new();
    let mut start: usize = 0;
    assert(p@.skip(0) =~= p@);
    loop
        invariant
            start <= v@.len(),
            v@ == p@,
            texts(out@) + segments(p@.skip(start as int)) == segments(p@),
        decreases v@.len() - start,
    {
        let ghost rest = p@.skip(start as int);
        let mut i: usize = start;
        while i < v.len() && v[i] != '/'
            invariant
                start <= i <= v@.len(),
                v@ == p@,
                forall|j: int| start <= j < i ==> #[trigger] p@[j] != '/',
            decreases v@.len() - i,
        {
            i = i + 1;
        }
        proof {
            assert forall|j: int| 0 <= j < i - start implies #[trigger] rest[j] != '/' by {
                assert(rest[j] == p@[start + j]);
            }
            if i < v@.len() {
                assert(rest[i - start] == p@[i as int]);
            }
            crate::text::lemma_position2_is(rest, '/', '/', i - start);
        }
        let piece = string_of(&v, start, i);
        let ghost before = texts(out@);
        out.push(piece);
        assert(texts(out@) =~= before + seq![piece@]);
        if i >= v.len() {
            assert(piece@ =~= rest);
            return out;
        }
        proof {
            assert(piece@ =~= rest.take(i - start));
            assert(rest.skip(i - start + 1) =~= p@.skip(i + 1));
            assert(before + (seq![piece@] + segments(p@.skip(i + 1))) =~= texts(out@) + segments(
                p@.skip(i + 1),
            ));
        }
        start = i + 1;
    }
}

pub fn components(p: &str) -> (r: Vec<String>)
    ensures
        texts(r@) == components_of(p@),
{
    let segs = split_segments(p);
    let mut out: Vec<String> = Vec::new();
    proof {
        reveal_strlit(".");
        assert("."@ =~= seq!['.']);
        assert(texts(segs@)[0] == segs@[0]@);
    }
    if is_absolute(p) {
        let mut root = String::new();
        root.push('/');
        assert(root@ =~= seq!['/']);
        out.push(root);
    } else if same(segs[0].as_str(), ".") {
        out.push(segs[0].clone());
    }
    let ghost head = texts(out@);
    assert(head =~= (if rooted(p@) {
        seq![seq!['/']]
    } else if segments(p@)[0] == seq!['.'] {
        seq![seq!['.']]
    } else {
        Seq::empty()
    }));
    let mut i: usize = 0;
    assert(texts(out@) =~= head + plain_segments(texts(segs@).take(0)));
    while i < segs.len()
        invariant
            i <= segs@.len(),
            "."@ == seq!['.'],
            texts(out@) == head + plain_segments(texts(segs@).take(i as int)),
        decreases segs@.len() - i,
    {
        let ghost t = texts(segs@).take(i + 1);
        assert(t.drop_last() =~= texts(segs@).take(i as int));
        assert(t.last() == segs@[i as int]@);
        let ghost before = texts(out@);
        if !(segs[i].as_str().is_empty() || same(segs[i].as_str(), ".")) {
            out.push(segs[i].clone());
            assert(texts(out@) =~= before.push(segs@[i as int]@));
            assert(texts(out@) =~= head + plain_segments(t));
        }
        i = i + 1;
    }
    assert(texts(segs@).take(segs@.len() as int) =~= texts(segs@));
    out
}

/// Does the path hold a `..` component?
pub open spec fn climbs(p: Seq<char>) -> bool {
    components_of(p).contains(seq!['.', '.'])
}

pub fn has_parent_dir(p: &str) -> (b: bool)
    ensures
        b == climbs(p@),
{
    let c = components(p);
    proof {
        reveal_strlit("..");
        assert(".."@ =~= seq!['.', '.']);
    }
    let mut i: usize = 0;
    while i < c.len()
        invariant
            i <= c@.len(),
            texts(c@) == components_of(p@),
            ".."@ == seq!['.', '.'],
            forall|j: int| 0 <= j < i ==> #[trigger] texts(c@)[j] != seq!['.', '.'],
        decreases c@.len() - i,
    {
        assert(texts(c@)[i as int] == c@[i as int]@);
        if same(c[i].as_str(), "..") {
            assert(components_of(p@)[i as int] == seq!['.', '.']);
            return true;
        }
        i = i + 1;
    }
    false
}

/// Component-wise prefix: `p` is `base` or lies below it.
pub open spec fn within(p: Seq<char>, base: Seq<char>) -> bool {
    let a = components_of(p);
    let b = components_of(base);
    b.len() <= a.len() && a.take(b.len() as int) == b
}

/// Component-wise equality.
pub open spec fn same_path(a: Seq<char>, b: Seq<char>) -> bool {
    components_of(a) == components_of(b)
}

fn prefix_of(b: &Vec<String>, a: &Vec<String>) -> (r: bool)
    ensures
        r == (b@.len() <= a@.len() && texts(a@).take(b@.len() as int) == texts(b@)),
{
    if b.len() > a.len() {
        return false;
    }
    let mut i: usize = 0;
    while i < b.len()
        invariant
            i <= b@.len() <= a@.len(),
            forall|j: int| 0 <= j < i ==> #[trigger] texts(a@)[j] == texts(b@)[j],
        decreases b@.len() - i,
    {
        assert(texts(a@)[i as int] == a@[i as int]@);
        assert(texts(b@)[i as int] == b@[i as int]@);
        if !same(a[i].as_str(), b[i].as_str()) {
            assert(texts(a@).take(b@.len() as int)[i as int] != texts(b@)[i as int]);
            return false;
        }
        i = i + 1;
    }
    assert(texts(a@).take(b@.len() as int) =~= texts(b@));
    true
}

/// `Path::starts_with`.
pub fn path_starts_with(p: &str, base: &str) -> (r: bool)
    ensures
        r == within(p@, base@),
{
    let a = components(p);
    let b = components(base);
    prefix_of(&b, &a)
}

/// Path equality.
pub fn paths_equal(p: &str, q: &str) -> (r: bool)
    ensures
        r == same_path(p@, q@),
{
    let a = components(p);
    let b = components(q);
    let r = a.len() == b.len() && prefix_of(&b, &a);
    proof {
        if a@.len() == b@.len() {
            assert(texts(a@).take(b@.len() as int) =~= texts(a@));
        } else {
            assert(texts(a@).len() != texts(b@).len());
        }
    }
    r
}

/// Lying within is a partial order up to path equality.
pub proof fn law_within_order(a: Seq<char>, b: Seq<char>, c: Seq<char>)
    ensures
        within(a, a),
        within(a, b) && within(b, a) ==> same_path(a, b),
        within(a, b) && within(b, c) ==> within(a, c),
{
    assert(components_of(a).take(components_of(a).len() as int) =~= components_of(a));
    if within(a, b) && within(b, a) {
        assert(components_of(a).take(components_of(b).len() as int) =~= components_of(a));
    }
    if within(a, b) && within(b, c) {
        let n = components_of(c).len() as int;
        assert(components_of(a).take(components_of(b).len() as int).take(n)
            =~= components_of(a).take(n));
    }
}

// ---------------------------------------------------------------------------
// Canonical forms
// ---------------------------------------------------------------------------

/// What a look at a path finds, symlinks not followed.
#[derive(Debug, Clone, Copy, PartialEq, Eq, Structural)]
pub enum Standing {
    There,
    Missing,
    Unreadable,
}

/// Where the search for the nearest existing ancestor goes on.
#[derive(Debug, PartialEq, Eq)]
pub enum AncestorStep<T = String> {
    /// This is the one.
    Stop,
    Up(T),
    Fail,
}

pub open spec fn step_view(s: AncestorStep) -> AncestorStep<Seq<char>> {
    match s {
        AncestorStep::Stop => AncestorStep::Stop,
        AncestorStep::Up(p) => AncestorStep::Up(p@),
        AncestorStep::Fail => AncestorStep::Fail,
    }
}

pub open spec fn ancestor_after(candidate: Seq<char>, standing: Standing) -> AncestorStep<
    Seq<char>,
> {
    match standing {
        Standing::There => AncestorStep::Stop,
        Standing::Unreadable => AncestorStep::Fail,
        Standing::Missing => match parent_of(candidate) {
            Some(up) => AncestorStep::Up(up),
            None => AncestorStep::Fail,
        },
    }
}

/// One step of the search, which starts at the path itself.
pub fn ancestor_step(candidate: &str, standing: Standing) -> (r: AncestorStep)
    ensures
        step_view(r) == ancestor_after(candidate@, standing),
{
    match standing {
        Standing::There => AncestorStep::Stop,
        Standing::Unreadable => AncestorStep::Fail,
        Standing::Missing => match parent(candidate) {
            Some(up) => AncestorStep::Up(up),
            None => AncestorStep::Fail,
        },
    }
}

/// The search for an ancestor ends: it only ever goes to shorter paths.
pub proof fn law_ancestors_get_shorter(candidate: Seq<char>, standing: Standing)
    ensures
        ancestor_after(candidate, standing) matches AncestorStep::Up(up) ==> up.len()
            < candidate.len(),
{
    lemma_body_end(candidate);
    lemma_last_position(trimmed_path(candidate), '/');
    lemma_body_end_is_body(candidate);
    let s = last_start(candidate);
    lemma_body_end(candidate.take(s));
}

proof fn lemma_body_end_is_body(p: Seq<char>)
    ensures
        body_end(p) > 0 ==> p[body_end(p) - 1] != '/',
        body_end(p) <= p.len(),
    decreases p.len(),
{
    if p.len() > 0 {
        lemma_body_end_is_body(p.drop_last());
    }
}

/// Follow components below an existing directory: `.` stays, `..` climbs,
/// a name descends.
pub open spec fn followed(base: Seq<char>, parts: Seq<Seq<char>>) -> Seq<char>
    decreases parts.len(),
{
    if parts.len() == 0 {
        base
    } else {
        let dir = followed(base, parts.drop_last());
        let c = parts.last();
        if c == seq!['.'] {
            dir
        } else if c == seq!['.', '.'] {
            match parent_of(dir) {
                Some(up) => up,
                None => dir,
            }
        } else {
            joined(dir, c)
        }
    }
}

/// The canonical form of a path whose nearest existing ancestor has the
/// canonical form `base`: what is missing is followed lexically.
pub open spec fn canonical_below(
    base: Seq<char>,
    path: Seq<char>,
    existing: Seq<char>,
) -> Option<Seq<char>> {
    if within(path, existing) && rooted(path) == rooted(existing) {
        Some(followed(base, components_of(path).skip(components_of(existing).len() as int)))
    } else {
        None
    }
}

pub fn resolve_below(base: &str, path: &str, existing: &str) -> (r: Option<String>)
    ensures
        crate::text::opt_text(r) == canonical_below(base@, path@, existing@),
{
    let parts = components(path);
    let known = components(existing);
    if !prefix_of(&known, &parts) || is_absolute(path) != is_absolute(existing) {
        return None;
    }
    let from: usize = known.len();
    let ghost rest = texts(parts@).skip(from as int);
    let mut dir = base.to_owned();
    let mut i: usize = from;
    proof {
        reveal_strlit(".");
        reveal_strlit("..");
        assert("."@ =~= seq!['.']);
        assert(".."@ =~= seq!['.', '.']);
        assert(rest.take(0) =~= Seq::<Seq<char>>::empty());
    }
    while i < parts.len()
        invariant
            from <= i <= parts@.len(),
            "."@ == seq!['.'],
            ".."@ == seq!['.', '.'],
            rest == texts(parts@).skip(from as int),
            dir@ == followed(base@, rest.take(i - from)),
        decreases parts@.len() - i,
    {
        let ghost t = rest.take(i - from + 1);
        assert(t.drop_last() =~= rest.take(i - from));
        assert(t.last() == parts@[i as int]@);
        if same(parts[i].as_str(), ".") {
        } else if same(parts[i].as_str(), "..") {
            match parent(dir.as_str()) {
                Some(up) => {
                    dir = up;
                },
                None => {},
            }
        } else {
            dir = join(dir.as_str(), parts[i].as_str());
        }
        i = i + 1;
    }
    assert(rest.take(parts@.len() - from) =~= rest);
    Some(dir)
}

// ---------------------------------------------------------------------------
// How paths are put together and taken apart
// ---------------------------------------------------------------------------

/// A name of one component that is neither of the dots.
pub open spec fn plain_name(n: Seq<char>) -> bool {
    n.len() > 0 && (forall|i: int| 0 <= i < n.len() ==> #[trigger] n[i] != '/') && n != seq!['.'] && n
        != seq!['.', '.']
}

/// A directory written without a slash or a lone dot at its end.
pub open spec fn clean_dir(d: Seq<char>) -> bool {
    d.len() > 0 && d.last() != '/' && !(d.len() >= 2 && d.last() == '.' && d[d.len() - 2] == '/')
}

/// A name joined to a directory is the file name of the path, and the
/// directory is its parent; another file name in its place is the other name
/// joined to the same directory.
pub proof fn law_join_and_take_apart(d: Seq<char>, n: Seq<char>, m: Seq<char>)
    requires
        clean_dir(d),
        plain_name(n),
        plain_name(m),
    ensures
        joined(d, n) == d + seq!['/'] + n,
        file_name_of(joined(d, n)) == Some(n),
        parent_of(joined(d, n)) == Some(d),
        with_file_name_of(joined(d, n), m) == joined(d, m),
        joined(d, n) == joined(d, m) <==> n == m,
{
    lemma_joined(d, n);
    lemma_joined(d, m);
    let j = joined(d, n);
    let q = j.take(last_start(j));
    assert(q =~= d.push('/'));
    assert(q.drop_last() =~= d);
    assert(body_end(d) == d.len());
    assert(q.last() == '/');
    assert(body_end(q) == d.len());
    assert(trimmed_path(q) =~= d);
    if joined(d, n) == joined(d, m) {
        assert(n =~= j.skip((d.len() + 1) as int));
        assert(m =~= joined(d, m).skip((d.len() + 1) as int));
    }
}

proof fn lemma_joined(d: Seq<char>, n: Seq<char>)
    requires
        clean_dir(d),
        plain_name(n),
    ensures
        joined(d, n) == d + seq!['/'] + n,
        body_end(joined(d, n)) == joined(d, n).len(),
        last_start(joined(d, n)) == d.len() + 1,
        last_component(joined(d, n)) == n,
        file_name_of(joined(d, n)) == Some(n),
{
    let j = joined(d, n);
    assert(n[0] != '/');
    assert(d.push('/') + n =~= d + seq!['/'] + n);
    assert(j.last() == n.last());
    assert(n[n.len() - 1] != '/');
    assert(!(j.last() == '.' && j[j.len() - 2] == '/')) by {
        if j.last() == '.' && j[j.len() - 2] == '/' {
            if n.len() > 1 {
                assert(j[j.len() - 2] == n[n.len() - 2]);
            } else {
                assert(n =~= seq!['.']);
            }
        }
    }
    assert(trimmed_path(j) =~= j);
    lemma_last_position(j, '/');
    let p = last_position(j, '/');
    assert(j[d.len() as int] == '/');
    assert(p == d.len()) by {
        if p > d.len() {
            assert(j[p] == n[p - d.len() - 1]);
        }
    }
    assert(j.skip((d.len() + 1) as int) =~= n);
}

/// An extension replaces the last one of the file name; a name without one
/// gets it, and so does a name that is nothing but what follows its first dot.
pub proof fn law_extension_is_replaced(
    d: Seq<char>,
    stem: Seq<char>,
    old_ext: Seq<char>,
    ext: Seq<char>,
)
    requires
        clean_dir(d),
        stem.len() > 0,
        forall|i: int| 0 <= i < stem.len() ==> #[trigger] stem[i] != '/',
        forall|i: int|
            0 <= i < old_ext.len() ==> #[trigger] old_ext[i] != '/' && old_ext[i] != '.',
        old_ext.len() > 0,
    ensures
        with_extension_of(joined(d, stem.push('.') + old_ext), ext) == d + seq!['/'] + stem.push(
            '.',
        ) + ext,
        plain_name(old_ext) ==> with_extension_of(joined(d, old_ext), ext) == d + seq!['/']
            + old_ext.push('.') + ext,
        with_extension_of(joined(d, seq!['.'] + old_ext), ext) == d + seq!['/'] + (seq!['.']
            + old_ext).push('.') + ext,
{
    let name = stem.push('.') + old_ext;
    assert forall|i: int| 0 <= i < name.len() implies #[trigger] name[i] != '/' by {
        if i < stem.len() {
            assert(name[i] == stem[i]);
        } else if i > stem.len() {
            assert(name[i] == old_ext[i - stem.len() - 1]);
        }
    }
    assert(name.len() >= 3);
    assert(plain_name(name));
    lemma_joined(d, name);
    lemma_last_position(name, '.');
    let dot = last_position(name, '.');
    assert(name[stem.len() as int] == '.');
    assert(dot == stem.len()) by {
        if dot > stem.len() {
            assert(name[dot] == old_ext[dot - stem.len() - 1]);
        }
    }
    assert(name.take(dot) =~= stem);
    let j = joined(d, name);
    assert(j.take(last_start(j)) =~= d + seq!['/']);
    assert(with_extension_of(j, ext) == d + seq!['/'] + stem.push('.') + ext);
    if plain_name(old_ext) {
        lemma_joined(d, old_ext);
        lemma_last_position(old_ext, '.');
        let k = joined(d, old_ext);
        let at = last_position(old_ext, '.');
        if at >= 0 {
            assert(old_ext[at] == '.');
        }
        assert(k.take(last_start(k)) =~= d + seq!['/']);
    }
    let hidden = seq!['.'] + old_ext;
    assert forall|i: int| 0 <= i < hidden.len() implies #[trigger] hidden[i] != '/' by {
        if i > 0 {
            assert(hidden[i] == old_ext[i - 1]);
        }
    }
    assert(hidden.len() >= 2);
    assert(hidden[1] == old_ext[0]);
    assert(hidden != seq!['.', '.']) by {
        if hidden == seq!['.', '.'] {
            assert(hidden[1] == '.');
        }
    }
    assert(hidden != seq!['.']);
    assert(plain_name(hidden));
    lemma_joined(d, hidden);
    lemma_last_position(hidden, '.');
    let h = last_position(hidden, '.');
    assert(hidden[0] == '.');
    assert(h == 0) by {
        if h > 0 {
            assert(hidden[h] == old_ext[h - 1]);
        }
    }
    let x = joined(d, hidden);
    assert(x.take(last_start(x)) =~= d + seq!['/']);
}

/// The parts of a path on both sides of a slash are the parts of the path.
proof fn lemma_segments_add(a: Seq<char>, b: Seq<char>)
    ensures
        segments(a + seq!['/'] + b) == segments(a) + segments(b),
        segments(a).len() > 0,
    decreases a.len(),
{
    let all = a + seq!['/'] + b;
    crate::text::lemma_position2(a, '/', '/');
    let n = position(a, '/') as int;
    assert forall|j: int| 0 <= j < n implies #[trigger] all[j] != '/' && all[j] != '/' by {
        assert(all[j] == a[j]);
    }
    if n >= a.len() {
        assert(all[a.len() as int] == '/');
        crate::text::lemma_position2_is(all, '/', '/', a.len() as int);
        assert(all.take(a.len() as int) =~= a);
        assert(all.skip((a.len() + 1) as int) =~= b);
    } else {
        assert(all[n] == a[n]);
        crate::text::lemma_position2_is(all, '/', '/', n);
        assert(all.take(n) =~= a.take(n));
        assert(all.skip(n + 1) =~= a.skip(n + 1) + seq!['/'] + b);
        lemma_segments_add(a.skip(n + 1), b);
        assert(segments(all) =~= segments(a) + segments(b));
    }
}

proof fn lemma_plain_add(a: Seq<Seq<char>>, b: Seq<Seq<char>>)
    ensures
        plain_segments(a + b) == plain_segments(a) + plain_segments(b),
    decreases b.len(),
{
    if b.len() == 0 {
        assert(a + b =~= a);
        assert(plain_segments(a) + plain_segments(b) =~= plain_segments(a));
    } else {
        assert((a + b).drop_last() =~= a + b.drop_last());
        assert((a + b).last() == b.last());
        lemma_plain_add(a, b.drop_last());
        assert(plain_segments(a + b) =~= plain_segments(a) + plain_segments(b));
    }
}

proof fn lemma_one_segment(n: Seq<char>)
    requires
        forall|i: int| 0 <= i < n.len() ==> #[trigger] n[i] != '/',
    ensures
        segments(n) == seq![n],
        n.len() > 0 && n != seq!['.'] ==> plain_segments(segments(n)) == seq![n],
        n == seq!['.'] ==> plain_segments(segments(n)) == Seq::<Seq<char>>::empty(),
{
    crate::text::lemma_position2_is(n, '/', '/', n.len() as int);
    let s = seq![n];
    assert(s.drop_last() =~= Seq::<Seq<char>>::empty());
    assert(plain_segments(Seq::<Seq<char>>::empty()) == Seq::<Seq<char>>::empty());
    assert(plain_segments(s.drop_last()).push(n) =~= seq![n]);
}

/// A path below a directory has the components of the directory and then those
/// that were added; a lone dot and a doubled slash add none.
pub proof fn law_components_add_up(d: Seq<char>, n: Seq<char>)
    requires
        d.len() > 0,
        n.len() > 0,
        forall|i: int| 0 <= i < n.len() ==> #[trigger] n[i] != '/',
    ensures
        n != seq!['.'] ==> components_of(d + seq!['/'] + n) == components_of(d).push(n),
        components_of(d + seq!['/', '.']) == components_of(d),
        components_of(d + seq!['/']) == components_of(d),
        components_of(d + seq!['/', '/'] + n) == components_of(d + seq!['/'] + n),
{
    lemma_components_add(d, n);
    lemma_components_add(d, seq!['.']);
    lemma_components_add(d, Seq::empty());
    lemma_one_segment(n);
    lemma_one_segment(seq!['.']);
    lemma_one_segment(Seq::empty());
    assert(d + seq!['/'] + seq!['.'] =~= d + seq!['/', '.']);
    assert(d + seq!['/'] + Seq::<char>::empty() =~= d + seq!['/']);
    let none = Seq::<Seq<char>>::empty();
    assert(components_of(d) + none =~= components_of(d));
    assert(components_of(d) + seq![n] =~= components_of(d).push(n));
    let blank = seq![Seq::<char>::empty()];
    assert(blank.drop_last() =~= none);
    assert(plain_segments(none) == none);
    assert(blank.last().len() == 0);
    assert(plain_segments(blank) == none);
    let slashed = d + seq!['/'];
    lemma_components_add(slashed, n);
    assert(slashed + seq!['/'] + n =~= d + seq!['/', '/'] + n);
}

proof fn lemma_components_add(d: Seq<char>, n: Seq<char>)
    requires
        d.len() > 0,
    ensures
        components_of(d + seq!['/'] + n) == components_of(d) + plain_segments(segments(n)),
{
    let all = d + seq!['/'] + n;
    lemma_segments_add(d, n);
    lemma_plain_add(segments(d), segments(n));
    assert(all[0] == d[0]);
    assert(segments(all)[0] == segments(d)[0]);
    assert(components_of(all) =~= components_of(d) + plain_segments(segments(n)));
}

/// A path made by joining a name to a directory lies within the directory; two
/// different names give paths neither of which lies within the other.
pub proof fn law_joined_paths_lie_within(d: Seq<char>, n: Seq<char>, m: Seq<char>)
    requires
        clean_dir(d),
        plain_name(n),
        plain_name(m),
    ensures
        within(joined(d, n), d),
        !within(d, joined(d, n)),
        same_path(joined(d, n), joined(d, m)) <==> n == m,
        within(joined(d, n), joined(d, m)) <==> n == m,
        same_path(d + seq!['/'], d),
{
    lemma_joined(d, n);
    lemma_joined(d, m);
    law_components_add_up(d, n);
    law_components_add_up(d, m);
    let c = components_of(d);
    assert(c.push(n).take(c.len() as int) =~= c);
    assert(c.push(n).take((c.len() + 1) as int) =~= c.push(n));
    assert(c.push(n).last() == n && c.push(m).last() == m);
}

/// A path climbs exactly where one of its parts is two dots, whatever stands
/// around it.
pub proof fn law_climbing_is_seen_anywhere(a: Seq<char>, b: Seq<char>, n: Seq<char>)
    requires
        a.len() > 0,
        plain_name(n),
    ensures
        climbs(a + seq!['/'] + (seq!['.', '.'] + seq!['/'] + b)),
        climbs(a + seq!['/'] + seq!['.', '.']),
        climbs(a + seq!['/'] + n) <==> climbs(a),
        !climbs(n),
{
    let dots = seq!['.', '.'];
    lemma_one_segment(dots);
    lemma_components_add(a, dots + seq!['/'] + b);
    lemma_segments_add(dots, b);
    lemma_plain_add(segments(dots), segments(b));
    let c = components_of(a);
    let tail = plain_segments(segments(dots + seq!['/'] + b));
    assert(tail[0] == dots);
    assert(components_of(a + seq!['/'] + (dots + seq!['/'] + b))[c.len() as int] == dots);
    law_components_add_up(a, dots);
    assert(c.push(dots)[c.len() as int] == dots);
    law_components_add_up(a, n);
    if climbs(a) {
        let k = c.index_of(dots);
        assert(c.push(n)[k] == dots);
    }
    if c.push(n).contains(dots) {
        let k = c.push(n).index_of(dots);
        assert(k < c.len());
        assert(c[k] == dots);
    }
    lemma_one_segment(n);
    assert(n[0] != '/');
    assert(components_of(n) =~= seq![n]);
    if components_of(n).contains(dots) {
        let k = components_of(n).index_of(dots);
        assert(components_of(n)[k] == n);
    }
}

/// A name below a directory that was resolved is that name below what the
/// directory resolved to; a path that does not lie within it is not resolved
/// by it.
pub proof fn law_resolved_names_stay_below(
    base: Seq<char>,
    existing: Seq<char>,
    n: Seq<char>,
    path: Seq<char>,
)
    requires
        clean_dir(existing),
        plain_name(n),
    ensures
        canonical_below(base, joined(existing, n), existing) == Some(joined(base, n)),
        canonical_below(base, existing, existing) == Some(base),
        !within(path, existing) ==> canonical_below(base, path, existing) is None,
{
    lemma_joined(existing, n);
    law_components_add_up(existing, n);
    law_joined_paths_lie_within(existing, n, n);
    law_within_order(existing, existing, existing);
    let c = components_of(existing);
    let path_parts = components_of(joined(existing, n));
    assert(path_parts.skip(c.len() as int) =~= seq![n]);
    assert(c.skip(c.len() as int) =~= Seq::<Seq<char>>::empty());
    assert(joined(existing, n)[0] == existing[0]);
    let one = seq![n];
    assert(one.drop_last() =~= Seq::<Seq<char>>::empty());
    assert(followed(base, one.drop_last()) == base);
    assert(followed(base, one) == joined(base, n));
}

} // verus!
