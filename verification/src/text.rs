//! Splitting a string at every dot and joining the pieces back: the
//! grammar that both the query tokens and the stored snapshot names use.

use vstd::prelude::*;

verus! {

/// The views of a sequence of strings, as sequences of characters.
pub open spec fn views_of(v: Seq<String>) -> Seq<Seq<char>> {
    v.map_values(|x: String| x@)
}

/// Index of the last `.` of the string, or `-1` where it has none.
pub open spec fn last_dot(s: Seq<char>) -> int
    decreases s.len(),
{
    if s.len() == 0 {
        -1
    } else if s.last() == '.' {
        s.len() - 1
    } else {
        last_dot(s.drop_last())
    }
}

/// The pieces of the string between its dots, in order. A string without
/// a dot is one piece; every dot separates two (possibly empty) pieces.
pub open spec fn split_dots(s: Seq<char>) -> Seq<Seq<char>>
    decreases s.len(),
{
    let j = last_dot(s);
    if j < 0 || j >= s.len() {
        seq![s]
    } else {
        split_dots(s.subrange(0, j)) + seq![s.subrange(j + 1, s.len() as int)]
    }
}

/// The pieces joined back with a dot between each neighbouring pair.
pub open spec fn join_dots(ps: Seq<Seq<char>>) -> Seq<char>
    decreases ps.len(),
{
    if ps.len() == 0 {
        Seq::<char>::empty()
    } else if ps.len() == 1 {
        ps[0]
    } else {
        join_dots(ps.drop_last()) + seq!['.'] + ps.last()
    }
}

pub proof fn lemma_last_dot_bounds(s: Seq<char>)
    ensures
        -1 <= last_dot(s) < s.len(),
    decreases s.len(),
{
    if s.len() > 0 && s.last() != '.' {
        lemma_last_dot_bounds(s.drop_last());
    }
}

pub proof fn lemma_last_dot_is_dot(s: Seq<char>)
    ensures
        last_dot(s) >= 0 ==> s[last_dot(s)] == '.',
    decreases s.len(),
{
    if s.len() > 0 && s.last() != '.' {
        lemma_last_dot_is_dot(s.drop_last());
        lemma_last_dot_bounds(s.drop_last());
    }
}

pub proof fn lemma_last_dot_none(s: Seq<char>)
    requires
        forall|i: int| 0 <= i < s.len() ==> s[i] != '.',
    ensures
        last_dot(s) == -1,
    decreases s.len(),
{
    if s.len() > 0 {
        assert(s.last() != '.');
        lemma_last_dot_none(s.drop_last());
    }
}

/// A string without a dot splits into that one piece.
pub proof fn lemma_split_singleton(s: Seq<char>)
    requires
        forall|i: int| 0 <= i < s.len() ==> s[i] != '.',
    ensures
        split_dots(s) == seq![s],
{
    lemma_last_dot_none(s);
}

pub proof fn lemma_split_nonempty(s: Seq<char>)
    ensures
        split_dots(s).len() >= 1,
{
    lemma_last_dot_bounds(s);
}

/// Appending an ordinary character extends the last piece.
pub proof fn lemma_split_push_char(s: Seq<char>, c: char)
    requires
        c != '.',
    ensures
        split_dots(s.push(c)) == split_dots(s).drop_last() + seq![split_dots(s).last().push(c)],
    decreases s.len(),
{
    lemma_split_nonempty(s);
    lemma_last_dot_bounds(s);
    let t = s.push(c);
    assert(t.last() == c);
    assert(t.drop_last() =~= s);
    assert(last_dot(t) == last_dot(s));
    let j = last_dot(s);
    if j < 0 {
        assert(split_dots(s) == seq![s]);
        assert(split_dots(t) == seq![t]);
        assert(split_dots(t) =~~= split_dots(s).drop_last() + seq![split_dots(s).last().push(c)]);
    } else {
        assert(t.subrange(0, j) =~= s.subrange(0, j));
        assert(t.subrange(j + 1, t.len() as int) =~= s.subrange(j + 1, s.len() as int).push(c));
        assert(split_dots(t) =~~= split_dots(s).drop_last() + seq![split_dots(s).last().push(c)]);
    }
}

/// Appending a dot closes the last piece and opens an empty one.
pub proof fn lemma_split_push_dot(s: Seq<char>)
    ensures
        split_dots(s.push('.')) == split_dots(s) + seq![Seq::<char>::empty()],
{
    let t = s.push('.');
    assert(t.last() == '.');
    assert(last_dot(t) == t.len() - 1);
    assert(t.subrange(0, s.len() as int) =~= s);
    assert(t.subrange(s.len() as int + 1, t.len() as int) =~= Seq::<char>::empty());
    assert(split_dots(t) =~~= split_dots(s) + seq![Seq::<char>::empty()]);
}

pub proof fn lemma_last_dot_concat(a: Seq<char>, b: Seq<char>)
    ensures
        last_dot(a + seq!['.'] + b) == if last_dot(b) >= 0 {
            a.len() + 1 + last_dot(b)
        } else {
            a.len() as int
        },
    decreases b.len(),
{
    let w = a + seq!['.'] + b;
    if b.len() == 0 {
        assert(w.last() == '.');
        assert(last_dot(w) == w.len() - 1);
    } else {
        assert(w.last() == b.last());
        if b.last() == '.' {
            assert(last_dot(w) == w.len() - 1);
            assert(last_dot(b) == b.len() - 1);
        } else {
            assert(w.drop_last() =~= a + seq!['.'] + b.drop_last());
            lemma_last_dot_concat(a, b.drop_last());
            assert(last_dot(w) == last_dot(w.drop_last()));
            assert(last_dot(b) == last_dot(b.drop_last()));
        }
    }
}

/// Splitting distributes over a dot that joins two strings.
pub proof fn lemma_split_concat(a: Seq<char>, b: Seq<char>)
    ensures
        split_dots(a + seq!['.'] + b) == split_dots(a) + split_dots(b),
    decreases b.len(),
{
    let w = a + seq!['.'] + b;
    lemma_last_dot_concat(a, b);
    lemma_last_dot_bounds(b);
    let jb = last_dot(b);
    if jb < 0 {
        let j = a.len() as int;
        assert(last_dot(w) == j);
        assert(w.subrange(0, j) =~= a);
        assert(w.subrange(j + 1, w.len() as int) =~= b);
        assert(split_dots(b) == seq![b]);
        assert(split_dots(w) =~~= split_dots(a) + split_dots(b));
    } else {
        let j = a.len() + 1 + jb;
        assert(last_dot(w) == j);
        let b0 = b.subrange(0, jb);
        let b1 = b.subrange(jb + 1, b.len() as int);
        assert(w.subrange(0, j) =~= a + seq!['.'] + b0);
        assert(w.subrange(j + 1, w.len() as int) =~= b1);
        lemma_split_concat(a, b0);
        assert(split_dots(w) =~~= split_dots(a) + split_dots(b0) + seq![b1]);
        assert(split_dots(b) =~~= split_dots(b0) + seq![b1]);
    }
}

/// Joining the pieces of a string recovers the string.
pub proof fn lemma_join_split(s: Seq<char>)
    ensures
        join_dots(split_dots(s)) == s,
    decreases s.len(),
{
    lemma_last_dot_bounds(s);
    lemma_last_dot_is_dot(s);
    let j = last_dot(s);
    if j < 0 {
        assert(join_dots(seq![s]) == s);
    } else {
        let s0 = s.subrange(0, j);
        let s1 = s.subrange(j + 1, s.len() as int);
        lemma_join_split(s0);
        lemma_split_nonempty(s0);
        let ps = split_dots(s0) + seq![s1];
        assert(ps.drop_last() =~= split_dots(s0));
        assert(ps.last() == s1);
        assert(join_dots(ps) == s0 + seq!['.'] + s1);
        assert(s0 + seq!['.'] + s1 =~= s);
    }
}

/// The pieces of the string between its dots, in order.
pub fn split_dots_exec(s: &str) -> (r: Vec<String>)
    ensures
        views_of(r@) == split_dots(s@),
{
    let len = s.unicode_len();
    let mut r: Vec<String> = Vec::new();
    let mut cur: String = String::new();
    let mut i: usize = 0;
    proof {
        assert(s@.subrange(0, 0) =~= Seq::<char>::empty());
        assert(split_dots(Seq::<char>::empty()) == seq![Seq::<char>::empty()]);
        assert(views_of(r@) + seq![cur@] =~~= seq![Seq::<char>::empty()]);
    }
    while i < len
        invariant
            0 <= i <= len,
            len == s@.len(),
            split_dots(s@.subrange(0, i as int)) == views_of(r@) + seq![cur@],
        decreases len - i,
    {
        let ghost prefix = s@.subrange(0, i as int);
        let c = s.get_char(i);
        proof {
            assert(s@.subrange(0, i + 1) =~= prefix.push(c));
            lemma_split_nonempty(prefix);
        }
        if c == '.' {
            proof {
                lemma_split_push_dot(prefix);
            }
            r.push(cur);
            cur = String::new();
            proof {
                assert(views_of(r@) + seq![cur@] =~~= split_dots(s@.subrange(0, i + 1)));
            }
        } else {
            proof {
                lemma_split_push_char(prefix, c);
            }
            cur.append(s.substring_char(i, i + 1));
            proof {
                assert(s@.subrange(i as int, i + 1) =~= seq![c]);
                assert(views_of(r@) + seq![cur@] =~~= split_dots(s@.subrange(0, i + 1)));
            }
        }
        i = i + 1;
    }
    proof {
        assert(s@.subrange(0, len as int) =~= s@);
    }
    r.push(cur);
    proof {
        assert(views_of(r@) =~~= split_dots(s@));
    }
    r
}

/// The pieces from position `from` on, joined back with dots.
pub fn join_dots_from(pieces: &Vec<String>, from: usize) -> (r: String)
    requires
        from <= pieces@.len(),
    ensures
        r@ == join_dots(views_of(pieces@).subrange(from as int, pieces@.len() as int)),
{
    let mut r = String::new();
    let mut k: usize = from;
    proof {
        assert(views_of(pieces@).subrange(from as int, from as int) =~= Seq::<Seq<char>>::empty());
    }
    while k < pieces.len()
        invariant
            from <= k <= pieces@.len(),
            r@ == join_dots(views_of(pieces@).subrange(from as int, k as int)),
        decreases pieces@.len() - k,
    {
        let ghost all = views_of(pieces@);
        if k > from {
            proof {
                reveal_strlit(".");
            }
            r.append(".");
        }
        r.append(pieces[k].as_str());
        proof {
            let cur = all.subrange(from as int, k + 1);
            assert(cur.drop_last() =~= all.subrange(from as int, k as int));
            assert(cur.last() == all[k as int]);
            assert(all[k as int] == pieces@[k as int]@);
            if k == from {
                assert(r@ == join_dots(cur));
            } else {
                assert(r@ == join_dots(cur));
            }
        }
        k = k + 1;
    }
    r
}

/// `suffix` stands at the very end of `s`.
pub open spec fn ends_with_spec(s: Seq<char>, suffix: Seq<char>) -> bool {
    suffix.len() <= s.len() && s.subrange(s.len() - suffix.len(), s.len() as int) == suffix
}

/// Whether the string ends with the given suffix, character for character.
pub fn str_ends_with(s: &str, suffix: &str) -> (r: bool)
    ensures
        r == ends_with_spec(s@, suffix@),
{
    let n = s.unicode_len();
    let m = suffix.unicode_len();
    if m > n {
        return false;
    }
    let mut k: usize = 0;
    while k < m
        invariant
            0 <= k <= m <= n,
            n == s@.len(),
            m == suffix@.len(),
            forall|j: int| 0 <= j < k ==> s@[n - m + j] == suffix@[j],
        decreases m - k,
    {
        if s.get_char(n - m + k) != suffix.get_char(k) {
            proof {
                assert(s@.subrange(n - m, n as int)[k as int] != suffix@[k as int]);
            }
            return false;
        }
        k = k + 1;
    }
    proof {
        assert(s@.subrange(n - m, n as int) =~= suffix@);
    }
    true
}

} // verus!
