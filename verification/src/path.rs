//! POSIX paths held as strings: joining, splitting into components
//! the way `std::path::Path` does on Unix, and component-wise
//! equality.
use vstd::prelude::*;
use crate::text::{concat2, concat3, ends_with_char, find_char, lemma_find_props, spec_find, starts_with_char, str_eq, substr};

verus! {

broadcast use vstd::seq_lib::group_seq_properties;

/// `a` joined with `b`: an absolute `b` replaces `a`; otherwise a
/// separator is inserted unless `a` is empty or already ends with one.
pub open spec fn spec_join(a: Seq<char>, b: Seq<char>) -> Seq<char> {
    if b.len() > 0 && b[0] == '/' {
        b
    } else if a.len() == 0 {
        b
    } else if a.last() == '/' {
        a + b
    } else {
        a + "/"@ + b
    }
}

/// Join two paths (`Path::join`).
pub fn join(a: &str, b: &str) -> (r: String)
    ensures
        r@ == spec_join(a@, b@),
{
    proof {
        reveal_strlit("/");
    }
    if starts_with_char(b, '/') {
        b.to_owned()
    } else if a.unicode_len() == 0 {
        b.to_owned()
    } else if ends_with_char(a, '/') {
        concat2(a, b)
    } else {
        concat3(a, "/", b)
    }
}

/// The pieces of `s` between `/` separators (empty pieces included).
pub open spec fn spec_split(s: Seq<char>) -> Seq<Seq<char>>
    decreases s.len(),
{
    match spec_find(s, '/', 0) {
        None => seq![s],
        Some(i) => if 0 <= i < s.len() {
            seq![s.take(i)] + spec_split(s.skip(i + 1))
        } else {
            seq![s]
        },
    }
}

/// A piece that names a component: not empty and not `.`.
pub open spec fn is_named(piece: Seq<char>) -> bool {
    piece.len() > 0 && piece != "."@
}

/// The components of a path as `std::path::Path` yields them on Unix:
/// a leading `/` is the root component (written `/`), a leading `.` of
/// a relative path is kept, and empty pieces and other `.` pieces are
/// dropped.
pub open spec fn spec_components(p: Seq<char>) -> Seq<Seq<char>> {
    let pieces = spec_split(p);
    if p.len() > 0 && p[0] == '/' {
        seq!["/"@] + pieces.filter(|x: Seq<char>| is_named(x))
    } else if pieces.len() > 0 && pieces[0] == "."@ {
        seq!["."@] + pieces.drop_first().filter(|x: Seq<char>| is_named(x))
    } else {
        pieces.filter(|x: Seq<char>| is_named(x))
    }
}

proof fn lemma_find_skip(s: Seq<char>, c: char, from: int)
    requires
        0 <= from <= s.len(),
    ensures
        spec_find(s, c, from) == (match spec_find(s.skip(from), c, 0) {
            Some(i) => Some(i + from),
            None => None,
        }),
    decreases s.len() - from,
{
    if from < s.len() {
        assert(s.skip(from)[0] == s[from]);
        if s[from] != c {
            lemma_find_skip(s, c, from + 1);
            lemma_find_skip_shift(s.skip(from), c, 1);
            assert(s.skip(from).skip(1) =~= s.skip(from + 1));
        }
    }
}

proof fn lemma_find_skip_shift(t: Seq<char>, c: char, k: int)
    requires
        0 <= k <= t.len(),
        forall|j: int| 0 <= j < k ==> t[j] != c,
    ensures
        spec_find(t, c, 0) == (match spec_find(t.skip(k), c, 0) {
            Some(i) => Some(i + k),
            None => None,
        }),
    decreases k,
{
    if k > 0 {
        lemma_find_skip_shift(t, c, k - 1);
        let u = t.skip(k - 1);
        assert(u[0] == t[k - 1]);
        assert(u.skip(1) =~= t.skip(k));
        lemma_find_from_one(u, c);
    }
}

proof fn lemma_find_from_one(u: Seq<char>, c: char)
    requires
        u.len() >= 1,
        u[0] != c,
    ensures
        spec_find(u, c, 0) == (match spec_find(u.skip(1), c, 0) {
            Some(i) => Some(i + 1),
            None => None,
        }),
    decreases u.len(),
{
    lemma_find_shift_general(u, c, 1);
}

proof fn lemma_find_shift_general(u: Seq<char>, c: char, from: int)
    requires
        1 <= from <= u.len(),
        forall|j: int| 0 <= j < from ==> u[j] != c,
    ensures
        spec_find(u, c, 0) == spec_find(u, c, from),
        spec_find(u, c, from) == (match spec_find(u.skip(1), c, from - 1) {
            Some(i) => Some(i + 1),
            None => None,
        }),
    decreases u.len() - from,
{
    lemma_find_prefix(u, c, 0, from);
    lemma_find_tail(u, c, from);
}

proof fn lemma_find_prefix(u: Seq<char>, c: char, a: int, b: int)
    requires
        0 <= a <= b <= u.len(),
        forall|j: int| a <= j < b ==> u[j] != c,
    ensures
        spec_find(u, c, a) == spec_find(u, c, b),
    decreases b - a,
{
    if a < b {
        lemma_find_prefix(u, c, a + 1, b);
    }
}

proof fn lemma_find_tail(u: Seq<char>, c: char, from: int)
    requires
        1 <= from <= u.len(),
    ensures
        spec_find(u, c, from) == (match spec_find(u.skip(1), c, from - 1) {
            Some(i) => Some(i + 1),
            None => None,
        }),
    decreases u.len() - from,
{
    if from < u.len() {
        assert(u.skip(1)[from - 1] == u[from]);
        if u[from] != c {
            lemma_find_tail(u, c, from + 1);
        }
    }
}

/// Split `p` at every `/`.
pub fn split_path(p: &str) -> (r: Vec<String>)
    ensures
        crate::text::views_of(r@) == spec_split(p@),
{
    let n = p.unicode_len();
    let mut out: Vec<String> = Vec::new();
    let mut pos: usize = 0;
    assert(p@.skip(0) =~= p@);
    loop
        invariant
            n == p@.len(),
            pos <= n,
            spec_split(p@) == crate::text::views_of(out@) + spec_split(p@.skip(pos as int)),
        decreases n - pos,
    {
        let found = find_char(p, '/', pos);
        proof {
            lemma_find_skip(p@, '/', pos as int);
            lemma_find_props(p@, '/', pos as int);
        }
        let ghost rest = p@.skip(pos as int);
        match found {
            None => {
                let piece = substr(p, pos, n);
                assert(piece@ =~= rest);
                let ghost before = crate::text::views_of(out@);
                out.push(piece);
                assert(crate::text::views_of(out@) =~= before + seq![rest]);
                return out;
            },
            Some(i) => {
                let piece = substr(p, pos, i);
                assert(piece@ =~= rest.take(i - pos));
                assert(rest.skip(i - pos + 1) =~= p@.skip(i + 1));
                let ghost before = crate::text::views_of(out@);
                out.push(piece);
                assert(crate::text::views_of(out@) =~= before.push(rest.take(i - pos)));
                assert(seq![rest.take(i - pos)] + spec_split(p@.skip(i + 1)) == spec_split(rest));
                assert(before + spec_split(rest) =~= before.push(rest.take(i - pos)) + spec_split(p@.skip(i + 1)));
                pos = i + 1;
            },
        }
    }
}

} // verus!

verus! {

/// The kept pieces of `pieces`: those that name a component.
fn named_pieces(pieces: &Vec<String>, from: usize) -> (r: Vec<String>)
    requires
        from <= pieces@.len(),
    ensures
        crate::text::views_of(r@) == crate::text::views_of(pieces@).skip(from as int).filter(|x: Seq<char>| is_named(x)),
{
    let mut out: Vec<String> = Vec::new();
    let mut i: usize = from;
    let ghost v = crate::text::views_of(pieces@);
    assert(v.skip(from as int).take(0) =~= Seq::<Seq<char>>::empty());
    while i < pieces.len()
        invariant
            from <= i <= pieces@.len(),
            v == crate::text::views_of(pieces@),
            crate::text::views_of(out@) == v.skip(from as int).take(i - from).filter(|x: Seq<char>| is_named(x)),
        decreases pieces.len() - i,
    {
        proof {
            reveal_strlit(".");
        }
        let p = &pieces[i];
        let ghost before = v.skip(from as int).take(i - from);
        assert(v.skip(from as int).take(i - from + 1) =~= before.push(p@));
        proof {
            before.lemma_filter_push(p@, |x: Seq<char>| is_named(x));
        }
        if p.unicode_len() > 0 && !str_eq(p.as_str(), ".") {
            let ghost b = crate::text::views_of(out@);
            out.push(p.clone());
            assert(crate::text::views_of(out@) =~= b.push(p@));
        }
        i = i + 1;
    }
    assert(v.skip(from as int).take(pieces@.len() - from) =~= v.skip(from as int));
    out
}

/// The components of a path, as `std::path::Path::components` gives them
/// on Unix (the root written `/`).
pub fn path_components(p: &str) -> (r: Vec<String>)
    ensures
        crate::text::views_of(r@) == spec_components(p@),
{
    proof {
        reveal_strlit("/");
        reveal_strlit(".");
    }
    let pieces = split_path(p);
    let ghost v = crate::text::views_of(pieces@);
    assert(v.skip(0) =~= v);
    assert(v.drop_first() =~= v.skip(1));
    if starts_with_char(p, '/') {
        let mut out: Vec<String> = Vec::new();
        out.push("/".to_owned());
        let mut rest = named_pieces(&pieces, 0);
        let ghost r = crate::text::views_of(rest@);
        out.append(&mut rest);
        assert(crate::text::views_of(out@) =~= seq!["/"@] + r);
        out
    } else if pieces.len() > 0 && str_eq(pieces[0].as_str(), ".") {
        let mut out: Vec<String> = Vec::new();
        out.push(".".to_owned());
        let mut rest = named_pieces(&pieces, 1);
        let ghost r = crate::text::views_of(rest@);
        out.append(&mut rest);
        assert(crate::text::views_of(out@) =~= seq!["."@] + r);
        out
    } else {
        named_pieces(&pieces, 0)
    }
}

/// Component-wise path equality (`Path == Path`): `/a/b/`, `/a//b` and
/// `/a/./b` all equal `/a/b`.
pub fn paths_equal(a: &str, b: &str) -> (r: bool)
    ensures
        r == (spec_components(a@) == spec_components(b@)),
{
    let ca = path_components(a);
    let cb = path_components(b);
    if ca.len() != cb.len() {
        assert(crate::text::views_of(ca@).len() != crate::text::views_of(cb@).len());
        return false;
    }
    let mut i: usize = 0;
    while i < ca.len()
        invariant
            crate::text::views_of(ca@) == spec_components(a@),
            crate::text::views_of(cb@) == spec_components(b@),
            ca@.len() == cb@.len(),
            i <= ca@.len(),
            forall|j: int| 0 <= j < i ==> ca@[j]@ == cb@[j]@,
        decreases ca.len() - i,
    {
        if !str_eq(ca[i].as_str(), cb[i].as_str()) {
            assert(crate::text::views_of(ca@)[i as int] == ca@[i as int]@);
            assert(crate::text::views_of(cb@)[i as int] == cb@[i as int]@);
            assert(crate::text::views_of(ca@)[i as int] != crate::text::views_of(cb@)[i as int]);
            assert(spec_components(a@)[i as int] != spec_components(b@)[i as int]);
            return false;
        }
        i = i + 1;
    }
    assert(crate::text::views_of(ca@) =~= crate::text::views_of(cb@));
    true
}

} // verus!
