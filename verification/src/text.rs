use vstd::prelude::*;

verus! {

/// Index of the first `c` in `s` at or after `from`.
pub open spec fn spec_find(s: Seq<char>, c: char, from: int) -> Option<int>
    decreases s.len() - from,
{
    if from < 0 || from >= s.len() {
        None
    } else if s[from] == c {
        Some(from)
    } else {
        spec_find(s, c, from + 1)
    }
}

/// Index of the last `c` in `s`.
pub open spec fn spec_rfind(s: Seq<char>, c: char) -> Option<int>
    decreases s.len(),
{
    if s.len() == 0 {
        None
    } else if s.last() == c {
        Some(s.len() - 1)
    } else {
        spec_rfind(s.drop_last(), c)
    }
}

/// What `spec_find` returns, stated by quantifiers.
pub proof fn lemma_find_props(s: Seq<char>, c: char, from: int)
    requires
        0 <= from,
    ensures
        match spec_find(s, c, from) {
            Some(i) => from <= i < s.len() && s[i] == c && forall|j: int| from <= j < i ==> s[j] != c,
            None => forall|j: int| from <= j < s.len() ==> s[j] != c,
        },
    decreases s.len() - from,
{
    if from < s.len() && s[from] != c {
        lemma_find_props(s, c, from + 1);
    }
}

/// What `spec_rfind` returns, stated by quantifiers.
pub proof fn lemma_rfind_props(s: Seq<char>, c: char)
    ensures
        match spec_rfind(s, c) {
            Some(i) => 0 <= i < s.len() && s[i] == c && forall|j: int| i < j < s.len() ==> s[j] != c,
            None => forall|j: int| 0 <= j < s.len() ==> s[j] != c,
        },
    decreases s.len(),
{
    if s.len() > 0 && s.last() != c {
        let t = s.drop_last();
        lemma_rfind_props(t, c);
        assert forall|j: int| 0 <= j < t.len() implies t[j] == s[j] by {}
    }
}

/// Character-wise string equality.
pub fn str_eq(a: &str, b: &str) -> (r: bool)
    ensures
        r == (a@ == b@),
{
    let n = a.unicode_len();
    let m = b.unicode_len();
    if n != m {
        return false;
    }
    let mut i: usize = 0;
    while i < n
        invariant
            n == a@.len(),
            m == b@.len(),
            n == m,
            i <= n,
            forall|j: int| 0 <= j < i ==> a@[j] == b@[j],
        decreases n - i,
    {
        if a.get_char(i) != b.get_char(i) {
            return false;
        }
        i = i + 1;
    }
    assert(a@ =~= b@);
    true
}

/// Index of the first `c` in `s` at or after `from`.
pub fn find_char(s: &str, c: char, from: usize) -> (r: Option<usize>)
    ensures
        r matches Some(i) ==> spec_find(s@, c, from as int) == Some(i as int),
        r is None ==> spec_find(s@, c, from as int) is None,
{
    let n = s.unicode_len();
    let mut i = from;
    while i < n
        invariant
            n == s@.len(),
            from <= i,
            spec_find(s@, c, from as int) == spec_find(s@, c, i as int),
        decreases n - i,
    {
        if s.get_char(i) == c {
            return Some(i);
        }
        i = i + 1;
    }
    None
}

/// Index of the last `c` in `s`.
pub fn rfind_char(s: &str, c: char) -> (r: Option<usize>)
    ensures
        r matches Some(i) ==> spec_rfind(s@, c) == Some(i as int),
        r is None ==> spec_rfind(s@, c) is None,
{
    let n = s.unicode_len();
    let mut i = n;
    assert(s@.take(n as int) =~= s@);
    while i > 0
        invariant
            n == s@.len(),
            i <= n,
            spec_rfind(s@, c) == spec_rfind(s@.take(i as int), c),
        decreases i,
    {
        assert(s@.take(i as int).last() == s@[i - 1]);
        if s.get_char(i - 1) == c {
            return Some(i - 1);
        }
        assert(s@.take(i as int).drop_last() =~= s@.take(i - 1));
        i = i - 1;
    }
    None
}

/// The characters of `s` in `[from, to)` as an owned string.
pub fn substr(s: &str, from: usize, to: usize) -> (r: String)
    requires
        from <= to <= s@.len(),
    ensures
        r@ == s@.subrange(from as int, to as int),
{
    s.substring_char(from, to).to_owned()
}

/// `s` with every `from` replaced by the single character of `to`.
pub open spec fn spec_replace(s: Seq<char>, from: char, to: char) -> Seq<char> {
    Seq::new(s.len(), |i: int| if s[i] == from { to } else { s[i] })
}

/// Replace every occurrence of `from` in `s` by `to` (a one-character
/// string).
pub fn replace_char(s: &str, from: char, to: &str) -> (r: String)
    requires
        to@.len() == 1,
    ensures
        r@ == spec_replace(s@, from, to@[0]),
{
    let n = s.unicode_len();
    let mut out = String::new();
    let mut i: usize = 0;
    while i < n
        invariant
            n == s@.len(),
            to@.len() == 1,
            i <= n,
            out@ =~= spec_replace(s@, from, to@[0]).take(i as int),
        decreases n - i,
    {
        if s.get_char(i) == from {
            out.append(to);
        } else {
            let one = s.substring_char(i, i + 1);
            out.append(one);
        }
        i = i + 1;
    }
    assert(spec_replace(s@, from, to@[0]).take(n as int) =~= spec_replace(s@, from, to@[0]));
    out
}

/// Whether `s` starts with `c`.
pub fn starts_with_char(s: &str, c: char) -> (r: bool)
    ensures
        r == (s@.len() > 0 && s@[0] == c),
{
    s.unicode_len() > 0 && s.get_char(0) == c
}

/// Whether `s` ends with `c`.
pub fn ends_with_char(s: &str, c: char) -> (r: bool)
    ensures
        r == (s@.len() > 0 && s@.last() == c),
{
    let n = s.unicode_len();
    n > 0 && s.get_char(n - 1) == c
}

/// `a` followed by `b`.
pub fn concat2(a: &str, b: &str) -> (r: String)
    ensures
        r@ == a@ + b@,
{
    let mut out = a.to_owned();
    out.append(b);
    out
}

/// `a`, `b`, `c` in order.
pub fn concat3(a: &str, b: &str, c: &str) -> (r: String)
    ensures
        r@ == a@ + b@ + c@,
{
    let mut out = a.to_owned();
    out.append(b);
    out.append(c);
    out
}

/// Lexicographic order on character sequences (code-point order, the
/// order of Rust's `str` comparison).
pub open spec fn seq_lt(a: Seq<char>, b: Seq<char>) -> bool
    decreases a.len(),
{
    if a.len() == 0 {
        b.len() > 0
    } else if b.len() == 0 {
        false
    } else if a[0] != b[0] {
        (a[0] as int) < (b[0] as int)
    } else {
        seq_lt(a.drop_first(), b.drop_first())
    }
}

/// Lexicographic "less than" of two strings.
pub fn str_lt(a: &str, b: &str) -> (r: bool)
    ensures
        r == seq_lt(a@, b@),
{
    let n = a.unicode_len();
    let m = b.unicode_len();
    let mut i: usize = 0;
    assert(a@.skip(0) =~= a@);
    assert(b@.skip(0) =~= b@);
    while i < n && i < m
        invariant
            n == a@.len(),
            m == b@.len(),
            i <= n,
            i <= m,
            seq_lt(a@, b@) == seq_lt(a@.skip(i as int), b@.skip(i as int)),
        decreases n - i,
    {
        let x = a.get_char(i);
        let y = b.get_char(i);
        assert(a@.skip(i as int)[0] == x);
        assert(b@.skip(i as int)[0] == y);
        if x != y {
            return (x as u32) < (y as u32);
        }
        assert(a@.skip(i as int).drop_first() =~= a@.skip(i + 1));
        assert(b@.skip(i as int).drop_first() =~= b@.skip(i + 1));
        i = i + 1;
    }
    assert(i == n ==> a@.skip(i as int).len() == 0);
    assert(i == m ==> b@.skip(i as int).len() == 0);
    i == n && i < m
}

} // verus!

verus! {

/// `seq_lt` never holds of equal sequences.
pub proof fn lemma_seq_lt_irreflexive(a: Seq<char>)
    ensures
        !seq_lt(a, a),
    decreases a.len(),
{
    if a.len() > 0 {
        lemma_seq_lt_irreflexive(a.drop_first());
    }
}

/// `seq_lt` is transitive.
pub proof fn lemma_seq_lt_transitive(a: Seq<char>, b: Seq<char>, c: Seq<char>)
    requires
        seq_lt(a, b),
        seq_lt(b, c),
    ensures
        seq_lt(a, c),
    decreases a.len(),
{
    if a.len() > 0 && b.len() > 0 && c.len() > 0 {
        if a[0] == b[0] && b[0] == c[0] {
            lemma_seq_lt_transitive(a.drop_first(), b.drop_first(), c.drop_first());
        }
    }
}

/// Two distinct sequences are ordered one way or the other.
pub proof fn lemma_seq_lt_total(a: Seq<char>, b: Seq<char>)
    requires
        a != b,
    ensures
        seq_lt(a, b) || seq_lt(b, a),
    decreases a.len(),
{
    if a.len() > 0 && b.len() > 0 && a[0] == b[0] {
        if a.drop_first() == b.drop_first() {
            assert(a =~= seq![a[0]] + a.drop_first());
            assert(b =~= seq![b[0]] + b.drop_first());
        }
        lemma_seq_lt_total(a.drop_first(), b.drop_first());
    } else if a.len() > 0 && b.len() > 0 {
    } else if a.len() == 0 && b.len() == 0 {
        assert(a =~= b);
    }
}

/// A sequence of strings in nondecreasing lexicographic order.
pub open spec fn is_sorted(s: Seq<Seq<char>>) -> bool {
    forall|i: int, j: int| 0 <= i < j < s.len() ==> !seq_lt(#[trigger] s[j], #[trigger] s[i])
}

/// The views of a sequence of strings.
pub open spec fn views_of(s: Seq<String>) -> Seq<Seq<char>> {
    s.map_values(|x: String| x@)
}

/// Where insertion sort puts `x` into `r`: before the first element
/// that `x` precedes.
pub open spec fn insert_pos(r: Seq<Seq<char>>, x: Seq<char>, from: int) -> int
    decreases r.len() - from,
{
    if from < 0 || from >= r.len() {
        r.len() as int
    } else if seq_lt(x, r[from]) {
        from
    } else {
        insert_pos(r, x, from + 1)
    }
}

/// Lexicographic sort of a sequence of strings (stable insertion sort:
/// equal strings keep their relative order).
pub open spec fn spec_sort(s: Seq<Seq<char>>) -> Seq<Seq<char>>
    decreases s.len(),
{
    if s.len() == 0 {
        s
    } else {
        let r = spec_sort(s.drop_last());
        r.insert(insert_pos(r, s.last(), 0), s.last())
    }
}

/// Sort strings in lexicographic order.
pub fn sort_strings(v: Vec<String>) -> (r: Vec<String>)
    ensures
        views_of(r@) == spec_sort(views_of(v@)),
        is_sorted(views_of(r@)),
        views_of(r@).to_multiset() == views_of(v@).to_multiset(),
{
    broadcast use vstd::seq_lib::to_multiset_insert;
    let mut r: Vec<String> = Vec::new();
    let mut k: usize = 0;
    assert(views_of(v@).take(0) =~= Seq::<Seq<char>>::empty());
    assert(views_of(r@) =~= Seq::<Seq<char>>::empty());
    while k < v.len()
        invariant
            k <= v@.len(),
            is_sorted(views_of(r@)),
            views_of(r@).to_multiset() == views_of(v@).take(k as int).to_multiset(),
            views_of(r@) == spec_sort(views_of(v@).take(k as int)),
        decreases v.len() - k,
    {
        let x = v[k].clone();
        assert(views_of(r@) == spec_sort(views_of(v@).take(k as int)));
        let mut pos: usize = 0;
        while pos < r.len() && !str_lt(x.as_str(), r[pos].as_str())
            invariant
                pos <= r@.len(),
                forall|j: int| 0 <= j < pos ==> !seq_lt(x@, #[trigger] r@[j]@),
                insert_pos(views_of(r@), x@, 0) == insert_pos(views_of(r@), x@, pos as int),
                x@ == v@[k as int]@,
            decreases r.len() - pos,
        {
            pos = pos + 1;
        }
        let ghost old_views = views_of(r@);
        assert(views_of(v@).take(k + 1).drop_last() =~= views_of(v@).take(k as int));
        assert(views_of(v@).take(k + 1).last() == v@[k as int]@);
        r.insert(pos, x);
        let ghost new_views = views_of(r@);
        assert(new_views =~= old_views.insert(pos as int, v@[k as int]@));
        assert forall|i: int, j: int| 0 <= i < j < new_views.len() implies !seq_lt(
            #[trigger] new_views[j],
            #[trigger] new_views[i],
        ) by {
            if i < pos && j == pos {
                assert(!seq_lt(x@, r@[i]@));
            } else if i == pos && j > pos {
                if pos < old_views.len() {
                    assert(seq_lt(x@, old_views[pos as int]));
                    if seq_lt(new_views[j], x@) {
                        lemma_seq_lt_transitive(new_views[j], x@, old_views[pos as int]);
                        if j - 1 > pos {
                            assert(!seq_lt(old_views[j - 1], old_views[pos as int]));
                        } else {
                            lemma_seq_lt_irreflexive(old_views[pos as int]);
                        }
                    }
                }
            } else if i < pos && j > pos {
                assert(!seq_lt(old_views[j - 1], old_views[i]));
            } else if i > pos {
                assert(!seq_lt(old_views[j - 1], old_views[i - 1]));
            } else {
                assert(!seq_lt(old_views[j], old_views[i]));
            }
        }
        assert(views_of(v@).take(k + 1) =~= views_of(v@).take(k as int).push(v@[k as int]@));
        assert(views_of(v@).take(k as int).push(v@[k as int]@) =~= views_of(v@).take(k as int).insert(
            k as int,
            v@[k as int]@,
        ));
        proof {
            vstd::seq_lib::to_multiset_insert(old_views, pos as int, v@[k as int]@);
            vstd::seq_lib::to_multiset_insert(views_of(v@).take(k as int), k as int, v@[k as int]@);
        }
        k = k + 1;
    }
    assert(views_of(v@).take(v.len() as int) =~= views_of(v@));
    r
}

} // verus!
