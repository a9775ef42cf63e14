//! Character-sequence utilities: conversion between strings and character
//! vectors, and verified splitting/joining on a separator character.

use vstd::prelude::*;

verus! {

/// Collect the characters of a string slice into a vector.
pub fn to_chars(s: &str) -> (r: Vec<char>)
    ensures
        r@ == s@,
{
    let n = s.unicode_len();
    let mut r: Vec<char> = Vec::new();
    let mut i: usize = 0;
    while i < n
        invariant
            n == s@.len(),
            i <= n,
            r@ == s@.subrange(0, i as int),
        decreases n - i,
    {
        r.push(s.get_char(i));
        i = i + 1;
        proof {
            assert(r@ =~= s@.subrange(0, i as int));
        }
    }
    proof {
        assert(r@ =~= s@);
    }
    r
}

/// Relies on `String`'s `FromIterator<char>`: collecting characters yields the
/// string made of exactly those characters in order.
#[verifier::external_body]
pub fn string_from_chars(v: &Vec<char>) -> (r: String)
    ensures
        r@ == v@,
{
    v.iter().collect()
}

/// Compare two character vectors for equality of their contents.
pub fn chars_eq(a: &Vec<char>, b: &Vec<char>) -> (r: bool)
    ensures
        r == (a@ == b@),
{
    if a.len() != b.len() {
        return false;
    }
    let mut i: usize = 0;
    while i < a.len()
        invariant
            i <= a.len(),
            a@.len() == b@.len(),
            forall|j: int| 0 <= j < i ==> a@[j] == b@[j],
        decreases a.len() - i,
    {
        if a[i] != b[i] {
            return false;
        }
        i = i + 1;
    }
    proof {
        assert(a@ =~= b@);
    }
    true
}

/// Copy a character vector.
pub fn clone_chars(v: &Vec<char>) -> (r: Vec<char>)
    ensures
        r@ == v@,
{
    let mut r: Vec<char> = Vec::new();
    let mut i: usize = 0;
    while i < v.len()
        invariant
            i <= v.len(),
            r@ == v@.subrange(0, i as int),
        decreases v.len() - i,
    {
        r.push(v[i]);
        i = i + 1;
        proof {
            assert(r@ =~= v@.subrange(0, i as int));
        }
    }
    proof {
        assert(r@ =~= v@);
    }
    r
}

/// The characters of `v` from `a` (inclusive) to `b` (exclusive).
pub fn sub_chars(v: &Vec<char>, a: usize, b: usize) -> (r: Vec<char>)
    requires
        a <= b <= v@.len(),
    ensures
        r@ == v@.subrange(a as int, b as int),
{
    let mut r: Vec<char> = Vec::new();
    let mut i: usize = a;
    while i < b
        invariant
            a <= i <= b <= v@.len(),
            r@ == v@.subrange(a as int, i as int),
        decreases b - i,
    {
        r.push(v[i]);
        i = i + 1;
        proof {
            assert(r@ =~= v@.subrange(a as int, i as int));
        }
    }
    r
}

/// Append the characters of `src` to `dst`.
pub fn append_chars(dst: &mut Vec<char>, src: &Vec<char>)
    ensures
        final(dst)@ == old(dst)@ + src@,
{
    let mut i: usize = 0;
    while i < src.len()
        invariant
            i <= src@.len(),
            dst@ == old(dst)@ + src@.subrange(0, i as int),
        decreases src@.len() - i,
    {
        dst.push(src[i]);
        i = i + 1;
        proof {
            assert(old(dst)@ + src@.subrange(0, i - 1) + seq![src@[i - 1]] =~= old(dst)@
                + src@.subrange(0, i as int));
        }
    }
    proof {
        assert(old(dst)@ + src@.subrange(0, src@.len() as int) =~= old(dst)@ + src@);
    }
}

/// The deep view of a vector of character vectors indexes to the views of its
/// elements.
pub proof fn lemma_deep_view_index(v: Vec<Vec<char>>)
    ensures
        v.deep_view().len() == v@.len(),
        forall|i: int| 0 <= i < v@.len() ==> #[trigger] v.deep_view()[i] == v@[i]@,
{
    assert forall|i: int| 0 <= i < v@.len() implies #[trigger] v.deep_view()[i] == v@[i]@ by {
        assert(v.deep_view()[i] =~= v@[i]@);
    }
}

/// The deep view of a vector of strings indexes to the views of its
/// elements.
pub proof fn lemma_deep_view_index_str(v: Vec<String>)
    ensures
        v.deep_view().len() == v@.len(),
        forall|i: int| 0 <= i < v@.len() ==> #[trigger] v.deep_view()[i] == v@[i]@,
{
    assert forall|i: int| 0 <= i < v@.len() implies #[trigger] v.deep_view()[i] == v@[i]@ by {
        assert(v.deep_view()[i] =~= v@[i]@);
    }
}

/// The segments of `s` delimited by `sep`: splitting the empty string gives one
/// empty segment, and every occurrence of `sep` ends a segment.
pub open spec fn split_on(s: Seq<char>, sep: char) -> Seq<Seq<char>>
    decreases s.len(),
{
    if s.len() == 0 {
        seq![Seq::<char>::empty()]
    } else if s[0] == sep {
        seq![Seq::<char>::empty()] + split_on(s.drop_first(), sep)
    } else {
        let rest = split_on(s.drop_first(), sep);
        seq![seq![s[0]] + rest[0]] + rest.drop_first()
    }
}

/// The segments of `ps` concatenated with a single `sep` between neighbours.
pub open spec fn join_with(ps: Seq<Seq<char>>, sep: char) -> Seq<char>
    decreases ps.len(),
{
    if ps.len() == 0 {
        Seq::<char>::empty()
    } else if ps.len() == 1 {
        ps[0]
    } else {
        ps[0] + seq![sep] + join_with(ps.drop_first(), sep)
    }
}

pub proof fn lemma_split_on_nonempty(s: Seq<char>, sep: char)
    ensures
        split_on(s, sep).len() >= 1,
    decreases s.len(),
{
    if s.len() == 0 {
    } else if s[0] == sep {
        lemma_split_on_nonempty(s.drop_first(), sep);
    } else {
        lemma_split_on_nonempty(s.drop_first(), sep);
    }
}

/// No segment produced by splitting contains the separator.
pub proof fn lemma_split_on_no_sep(s: Seq<char>, sep: char)
    ensures
        forall|i: int|
            0 <= i < split_on(s, sep).len() ==> !(#[trigger] split_on(s, sep)[i]).contains(sep),
    decreases s.len(),
{
    if s.len() == 0 {
        assert forall|i: int| 0 <= i < split_on(s, sep).len() implies !(#[trigger] split_on(
            s,
            sep,
        )[i]).contains(sep) by {
            assert(split_on(s, sep)[i] =~= Seq::<char>::empty());
        }
    } else if s[0] == sep {
        lemma_split_on_no_sep(s.drop_first(), sep);
        let r = split_on(s, sep);
        let rest = split_on(s.drop_first(), sep);
        assert forall|i: int| 0 <= i < r.len() implies !(#[trigger] r[i]).contains(sep) by {
            if i == 0 {
                assert(r[0] =~= Seq::<char>::empty());
            } else {
                assert(r[i] == rest[i - 1]);
            }
        }
    } else {
        lemma_split_on_no_sep(s.drop_first(), sep);
        lemma_split_on_nonempty(s.drop_first(), sep);
        let r = split_on(s, sep);
        let rest = split_on(s.drop_first(), sep);
        assert forall|i: int| 0 <= i < r.len() implies !(#[trigger] r[i]).contains(sep) by {
            if i == 0 {
                assert(r[0] == seq![s[0]] + rest[0]);
                assert(!rest[0].contains(sep));
                assert forall|j: int| 0 <= j < r[0].len() implies r[0][j] != sep by {
                    if j == 0 {
                    } else {
                        assert(r[0][j] == rest[0][j - 1]);
                        assert(rest[0].contains(rest[0][j - 1]));
                    }
                }
            } else {
                assert(r[i] == rest.drop_first()[i - 1]);
                assert(rest.drop_first()[i - 1] == rest[i]);
            }
        }
    }
}

/// A string without the separator splits into itself as the one segment.
pub proof fn lemma_split_on_whole(s: Seq<char>, sep: char)
    requires
        !s.contains(sep),
    ensures
        split_on(s, sep) == seq![s],
    decreases s.len(),
{
    if s.len() == 0 {
        assert(split_on(s, sep) =~~= seq![s]);
    } else {
        assert(s.contains(s[0]));
        assert(s[0] != sep);
        assert forall|j: int| 0 <= j < s.drop_first().len() implies s.drop_first()[j] != sep by {
            assert(s.contains(s[j + 1]));
        }
        assert(!s.drop_first().contains(sep));
        lemma_split_on_whole(s.drop_first(), sep);
        assert(split_on(s, sep) =~~= seq![s]);
    }
}

/// Splitting `a ++ sep ++ b`, with `a` separator-free, yields `a` followed by
/// the segments of `b`.
pub proof fn lemma_split_on_concat(a: Seq<char>, b: Seq<char>, sep: char)
    requires
        !a.contains(sep),
    ensures
        split_on(a + seq![sep] + b, sep) == seq![a] + split_on(b, sep),
    decreases a.len(),
{
    let s = a + seq![sep] + b;
    if a.len() == 0 {
        assert(s[0] == sep);
        assert(s.drop_first() =~= b);
        assert(split_on(s, sep) =~~= seq![a] + split_on(b, sep));
    } else {
        assert(a.contains(a[0]));
        assert(s[0] == a[0]);
        assert(s[0] != sep);
        assert forall|j: int| 0 <= j < a.drop_first().len() implies a.drop_first()[j] != sep by {
            assert(a.contains(a[j + 1]));
        }
        assert(!a.drop_first().contains(sep));
        lemma_split_on_concat(a.drop_first(), b, sep);
        assert(s.drop_first() =~= a.drop_first() + seq![sep] + b);
        lemma_split_on_nonempty(b, sep);
        assert(split_on(s, sep) =~~= seq![a] + split_on(b, sep));
    }
}

/// Splitting is a left inverse of joining separator-free segments.
pub proof fn lemma_split_join(ps: Seq<Seq<char>>, sep: char)
    requires
        ps.len() >= 1,
        forall|i: int| 0 <= i < ps.len() ==> !(#[trigger] ps[i]).contains(sep),
    ensures
        split_on(join_with(ps, sep), sep) == ps,
    decreases ps.len(),
{
    if ps.len() == 1 {
        lemma_split_on_whole(ps[0], sep);
        assert(split_on(join_with(ps, sep), sep) =~~= ps);
    } else {
        lemma_split_join(ps.drop_first(), sep);
        lemma_split_on_concat(ps[0], join_with(ps.drop_first(), sep), sep);
        assert(split_on(join_with(ps, sep), sep) =~~= ps);
    }
}

pub proof fn lemma_join_push(ps: Seq<Seq<char>>, x: Seq<char>, sep: char)
    ensures
        ps.len() == 0 ==> join_with(ps.push(x), sep) == x,
        ps.len() >= 1 ==> join_with(ps.push(x), sep) == join_with(ps, sep) + seq![sep] + x,
    decreases ps.len(),
{
    if ps.len() == 0 {
        assert(join_with(ps.push(x), sep) == ps.push(x)[0]);
        assert(ps.push(x)[0] == x);
    } else if ps.len() == 1 {
        assert(ps.push(x).drop_first() =~~= seq![x]);
        assert(ps.push(x).len() == 2);
        assert(ps.push(x)[0] == ps[0]);
        assert(seq![x][0] == x);
        assert(join_with(seq![x], sep) == x);
        assert(join_with(ps.push(x), sep) =~= ps[0] + seq![sep] + x);
    } else {
        lemma_join_push(ps.drop_first(), x, sep);
        assert(ps.push(x).drop_first() =~~= ps.drop_first().push(x));
        assert(join_with(ps.push(x), sep) =~= ps[0] + seq![sep] + join_with(
            ps.drop_first().push(x),
            sep,
        ));
        assert(join_with(ps, sep) + seq![sep] + x =~= ps[0] + seq![sep] + (join_with(
            ps.drop_first(),
            sep,
        ) + seq![sep] + x));
    }
}

/// Split a character vector at every occurrence of `sep`.
pub fn split_chars(v: &Vec<char>, sep: char) -> (r: Vec<Vec<char>>)
    ensures
        r.deep_view() == split_on(v@, sep),
{
    let mut parts: Vec<Vec<char>> = Vec::new();
    let mut cur: Vec<char> = Vec::new();
    let mut i: usize = 0;
    proof {
        lemma_split_on_nonempty(v@, sep);
        lemma_deep_view_index(parts);
        assert(v@.skip(0) =~= v@);
        assert(parts.deep_view() + seq![cur@ + split_on(v@, sep)[0]] + split_on(
            v@,
            sep,
        ).drop_first() =~~= split_on(v@, sep));
    }
    while i < v.len()
        invariant
            i <= v.len(),
            split_on(v@, sep) =~~= parts.deep_view() + seq![cur@ + split_on(
                v@.skip(i as int),
                sep,
            )[0]] + split_on(v@.skip(i as int), sep).drop_first(),
        decreases v.len() - i,
    {
        proof {
            lemma_split_on_nonempty(v@.skip(i as int + 1), sep);
            assert(v@.skip(i as int)[0] == v@[i as int]);
            assert(v@.skip(i as int).drop_first() =~= v@.skip(i as int + 1));
        }
        let ghost old_parts = parts.deep_view();
        let ghost old_cur = cur@;
        if v[i] == sep {
            parts.push(cur);
            cur = Vec::new();
            proof {
                lemma_deep_view_index(parts);
                assert(parts.deep_view() =~~= old_parts.push(old_cur));
                assert(split_on(v@.skip(i as int), sep) == seq![Seq::<char>::empty()] + split_on(
                    v@.skip(i as int + 1),
                    sep,
                ));
                assert(split_on(v@, sep) =~~= parts.deep_view() + seq![cur@ + split_on(
                    v@.skip(i as int + 1),
                    sep,
                )[0]] + split_on(v@.skip(i as int + 1), sep).drop_first());
            }
        } else {
            cur.push(v[i]);
            proof {
                let rest = split_on(v@.skip(i as int + 1), sep);
                assert(split_on(v@.skip(i as int), sep) == seq![seq![v@[i as int]] + rest[0]]
                    + rest.drop_first());
                assert(old_cur + (seq![v@[i as int]] + rest[0]) =~= cur@ + rest[0]);
                assert(split_on(v@, sep) =~~= parts.deep_view() + seq![cur@ + rest[0]]
                    + rest.drop_first());
            }
        }
        i = i + 1;
    }
    proof {
        assert(v@.skip(v.len() as int) =~= Seq::<char>::empty());
        assert(split_on(v@.skip(v.len() as int), sep) == seq![Seq::<char>::empty()]);
    }
    let ghost old_parts = parts.deep_view();
    let ghost old_cur = cur@;
    parts.push(cur);
    proof {
        lemma_deep_view_index(parts);
        assert(parts.deep_view() =~~= old_parts.push(old_cur));
        assert(split_on(v@, sep) =~~= parts.deep_view());
    }
    parts
}

/// Join character-vector segments with a single `sep` between neighbours.
pub fn join_chars(parts: &Vec<Vec<char>>, sep: char) -> (r: Vec<char>)
    ensures
        r@ == join_with(parts.deep_view(), sep),
{
    let mut out: Vec<char> = Vec::new();
    let mut i: usize = 0;
    while i < parts.len()
        invariant
            i <= parts.len(),
            out@ == join_with(parts.deep_view().take(i as int), sep),
        decreases parts.len() - i,
    {
        proof {
            lemma_deep_view_index(*parts);
        }
        let ghost pre = parts.deep_view().take(i as int);
        if i > 0 {
            out.push(sep);
        }
        let mut j: usize = 0;
        let part_len = parts[i].len();
        while j < part_len
            invariant
                j <= part_len,
                i < parts.len(),
                part_len == parts@[i as int]@.len(),
                parts.deep_view()[i as int] == parts@[i as int]@,
                pre == parts.deep_view().take(i as int),
                out@ == (if i == 0 {
                    Seq::<char>::empty()
                } else {
                    join_with(pre, sep) + seq![sep]
                }) + parts@[i as int]@.take(j as int),
            decreases part_len - j,
        {
            out.push(parts[i][j]);
            j = j + 1;
            proof {
                let p = parts@[i as int]@;
                assert(p.take(j - 1).push(p[j - 1]) =~= p.take(j as int));
                assert(out@ =~= (if i == 0 {
                    Seq::<char>::empty()
                } else {
                    join_with(pre, sep) + seq![sep]
                }) + p.take(j as int));
            }
        }
        i = i + 1;
        proof {
            let p = parts@[i - 1]@;
            assert(p.take(p.len() as int) =~= p);
            lemma_join_push(pre, p, sep);
            assert(pre.push(p) =~= parts.deep_view().take(i as int));
            if i - 1 == 0 {
                assert(out@ =~= p);
                assert(out@ == join_with(parts.deep_view().take(i as int), sep));
            } else {
                assert(out@ =~= join_with(pre, sep) + seq![sep] + p);
                assert(out@ == join_with(parts.deep_view().take(i as int), sep));
            }
        }
    }
    proof {
        assert(parts.deep_view().take(parts.len() as int) =~= parts.deep_view());
    }
    out
}

} // verus!
