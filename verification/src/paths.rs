//! Path normalization: every maximal run of consecutive recursive-wildcard
//! (`**`) segments in a slash-delimited path is collapsed to a single one.

use vstd::prelude::*;

use crate::chars::{
    chars_eq, clone_chars, join_chars, join_with, lemma_deep_view_index, lemma_split_join,
    lemma_split_on_no_sep, lemma_split_on_nonempty, split_chars, split_on, string_from_chars,
    to_chars,
};

verus! {

/// The recursive-wildcard path segment.
pub open spec fn globstar() -> Seq<char> {
    seq!['*', '*']
}

/// Drop every wildcard segment that immediately follows another wildcard
/// segment, so each run of them collapses to one.
pub open spec fn coalesce_globstars(ps: Seq<Seq<char>>) -> Seq<Seq<char>>
    decreases ps.len(),
{
    if ps.len() < 2 {
        ps
    } else if ps[0] == globstar() && ps[1] == globstar() {
        coalesce_globstars(ps.drop_first())
    } else {
        seq![ps[0]] + coalesce_globstars(ps.drop_first())
    }
}

/// The normalized form of a slash-delimited path.
pub open spec fn normalize_path(s: Seq<char>) -> Seq<char> {
    join_with(coalesce_globstars(split_on(s, '/')), '/')
}

pub proof fn lemma_coalesce_len(ps: Seq<Seq<char>>)
    ensures
        coalesce_globstars(ps).len() <= ps.len(),
        ps.len() >= 1 ==> coalesce_globstars(ps).len() >= 1,
    decreases ps.len(),
{
    if ps.len() < 2 {
    } else {
        lemma_coalesce_len(ps.drop_first());
    }
}

/// Coalescing keeps the last segment.
pub proof fn lemma_coalesce_last(ps: Seq<Seq<char>>)
    requires
        ps.len() >= 1,
    ensures
        coalesce_globstars(ps).len() >= 1,
        coalesce_globstars(ps).last() == ps.last(),
    decreases ps.len(),
{
    if ps.len() < 2 {
    } else {
        lemma_coalesce_last(ps.drop_first());
        assert(ps.drop_first().last() == ps.last());
    }
}

/// Coalescing keeps the first segment, up to it being a wildcard.
pub proof fn lemma_coalesce_first(ps: Seq<Seq<char>>)
    requires
        ps.len() >= 1,
    ensures
        coalesce_globstars(ps).len() >= 1,
        (coalesce_globstars(ps)[0] == globstar()) <==> (ps[0] == globstar()),
    decreases ps.len(),
{
    lemma_coalesce_len(ps);
    if ps.len() < 2 {
    } else if ps[0] == globstar() && ps[1] == globstar() {
        lemma_coalesce_first(ps.drop_first());
    } else {
        lemma_coalesce_len(ps.drop_first());
        assert(coalesce_globstars(ps)[0] == ps[0]);
    }
}

/// How coalescing grows when one segment is appended on the right.
pub proof fn lemma_coalesce_push(ps: Seq<Seq<char>>, x: Seq<char>)
    ensures
        ps.len() >= 1 && ps.last() == globstar() && x == globstar() ==> coalesce_globstars(
            ps.push(x),
        ) == coalesce_globstars(ps),
        !(ps.len() >= 1 && ps.last() == globstar() && x == globstar()) ==> coalesce_globstars(
            ps.push(x),
        ) == coalesce_globstars(ps).push(x),
    decreases ps.len(),
{
    let q = ps.push(x);
    if ps.len() == 0 {
        assert(coalesce_globstars(q) =~~= coalesce_globstars(ps).push(x));
    } else if ps.len() == 1 {
        assert(q.len() == 2);
        assert(q[0] == ps[0]);
        assert(q[1] == x);
        assert(q.drop_first() =~~= seq![x]);
        if ps[0] == globstar() && x == globstar() {
            assert(coalesce_globstars(q) == coalesce_globstars(seq![x]));
            assert(coalesce_globstars(seq![x]) =~~= seq![x]);
            assert(coalesce_globstars(ps) =~~= seq![x]);
        } else {
            assert(coalesce_globstars(q) == seq![q[0]] + coalesce_globstars(seq![x]));
            assert(coalesce_globstars(seq![x]) =~~= seq![x]);
            assert(coalesce_globstars(q) =~~= coalesce_globstars(ps).push(x));
        }
    } else {
        lemma_coalesce_push(ps.drop_first(), x);
        assert(q.drop_first() =~~= ps.drop_first().push(x));
        assert(q[0] == ps[0]);
        assert(q[1] == ps[1]);
        assert(ps.drop_first().last() == ps.last());
        if ps[0] == globstar() && ps[1] == globstar() {
            assert(coalesce_globstars(q) == coalesce_globstars(ps.drop_first().push(x)));
            assert(coalesce_globstars(ps) == coalesce_globstars(ps.drop_first()));
        } else {
            assert(coalesce_globstars(q) == seq![ps[0]] + coalesce_globstars(
                ps.drop_first().push(x),
            ));
            if ps.last() == globstar() && x == globstar() {
                assert(coalesce_globstars(q) =~~= coalesce_globstars(ps));
            } else {
                assert(seq![ps[0]] + coalesce_globstars(ps.drop_first()).push(x)
                    =~~= coalesce_globstars(ps).push(x));
            }
        }
    }
}

/// After coalescing, no two consecutive segments are both wildcards.
pub proof fn lemma_coalesce_no_adjacent(ps: Seq<Seq<char>>)
    ensures
        forall|i: int|
            0 <= i && i + 1 < coalesce_globstars(ps).len() ==> !((#[trigger] coalesce_globstars(ps)[i])
                == globstar() && coalesce_globstars(ps)[i + 1] == globstar()),
    decreases ps.len(),
{
    let r = coalesce_globstars(ps);
    if ps.len() < 2 {
    } else if ps[0] == globstar() && ps[1] == globstar() {
        lemma_coalesce_no_adjacent(ps.drop_first());
    } else {
        lemma_coalesce_no_adjacent(ps.drop_first());
        lemma_coalesce_first(ps.drop_first());
        let rest = coalesce_globstars(ps.drop_first());
        assert forall|i: int| 0 <= i && i + 1 < r.len() implies !((#[trigger] r[i]) == globstar() && r[i
            + 1] == globstar()) by {
            if i == 0 {
                assert(r[0] == ps[0]);
                assert(r[1] == rest[0]);
                if ps[0] == globstar() {
                    assert(ps[1] != globstar());
                    assert(ps.drop_first()[0] != globstar());
                    assert(rest[0] != globstar());
                }
            } else {
                assert(r[i] == rest[i - 1]);
                assert(r[i + 1] == rest[i]);
            }
        }
    }
}

/// Coalescing a sequence with no adjacent wildcard segments changes nothing.
pub proof fn lemma_coalesce_identity(ps: Seq<Seq<char>>)
    requires
        forall|i: int|
            0 <= i && i + 1 < ps.len() ==> !((#[trigger] ps[i]) == globstar() && ps[i + 1]
                == globstar()),
    ensures
        coalesce_globstars(ps) == ps,
    decreases ps.len(),
{
    if ps.len() < 2 {
    } else {
        assert(!(ps[0] == globstar() && ps[1] == globstar()));
        assert forall|i: int|
            0 <= i && i + 1 < ps.drop_first().len() implies !((#[trigger] ps.drop_first()[i])
            == globstar() && ps.drop_first()[i + 1] == globstar()) by {
            assert(ps.drop_first()[i] == ps[i + 1]);
            assert(ps.drop_first()[i + 1] == ps[i + 2]);
        }
        lemma_coalesce_identity(ps.drop_first());
        assert(coalesce_globstars(ps) =~~= ps);
    }
}

/// Coalescing is idempotent.
pub proof fn lemma_coalesce_idempotent(ps: Seq<Seq<char>>)
    ensures
        coalesce_globstars(coalesce_globstars(ps)) == coalesce_globstars(ps),
{
    lemma_coalesce_no_adjacent(ps);
    lemma_coalesce_identity(coalesce_globstars(ps));
}

/// Coalescing keeps every non-wildcard segment, in order.
pub proof fn lemma_coalesce_filter(ps: Seq<Seq<char>>)
    ensures
        coalesce_globstars(ps).filter(|p: Seq<char>| p != globstar()) == ps.filter(
            |p: Seq<char>| p != globstar(),
        ),
    decreases ps.len(),
{
    broadcast use Seq::filter_distributes_over_add;

    let f = |p: Seq<char>| p != globstar();
    reveal_with_fuel(Seq::<_>::filter, 3);
    if ps.len() < 2 {
    } else if ps[0] == globstar() && ps[1] == globstar() {
        lemma_coalesce_filter(ps.drop_first());
        assert(ps =~~= seq![ps[0]] + ps.drop_first());
        assert(seq![ps[0]].drop_last() =~~= Seq::<Seq<char>>::empty());
        assert(seq![ps[0]].filter(f) =~~= Seq::<Seq<char>>::empty());
        assert(ps.filter(f) == seq![ps[0]].filter(f) + ps.drop_first().filter(f));
        assert(ps.filter(f) =~~= coalesce_globstars(ps).filter(f));
    } else {
        lemma_coalesce_filter(ps.drop_first());
        assert(ps =~~= seq![ps[0]] + ps.drop_first());
        assert(ps.filter(f) == seq![ps[0]].filter(f) + ps.drop_first().filter(f));
        assert(coalesce_globstars(ps).filter(f) == seq![ps[0]].filter(f) + coalesce_globstars(
            ps.drop_first(),
        ).filter(f));
    }
}

/// Coalescing slash-free segments leaves them slash-free.
pub proof fn lemma_coalesce_no_sep(ps: Seq<Seq<char>>)
    requires
        forall|i: int| 0 <= i < ps.len() ==> !(#[trigger] ps[i]).contains('/'),
    ensures
        forall|i: int|
            0 <= i < coalesce_globstars(ps).len() ==> !(#[trigger] coalesce_globstars(
                ps,
            )[i]).contains('/'),
    decreases ps.len(),
{
    let r = coalesce_globstars(ps);
    if ps.len() < 2 {
    } else {
        assert forall|i: int|
            0 <= i < ps.drop_first().len() implies !(#[trigger] ps.drop_first()[i]).contains(
            '/',
        ) by {
            assert(ps.drop_first()[i] == ps[i + 1]);
        }
        lemma_coalesce_no_sep(ps.drop_first());
        if ps[0] == globstar() && ps[1] == globstar() {
        } else {
            let rest = coalesce_globstars(ps.drop_first());
            assert forall|i: int| 0 <= i < r.len() implies !(#[trigger] r[i]).contains('/') by {
                if i == 0 {
                    assert(r[0] == ps[0]);
                } else {
                    assert(r[i] == rest[i - 1]);
                }
            }
        }
    }
}

/// Splitting a normalized path recovers exactly the coalesced segments.
pub proof fn lemma_split_normalize(s: Seq<char>)
    ensures
        split_on(normalize_path(s), '/') == coalesce_globstars(split_on(s, '/')),
{
    lemma_split_on_no_sep(s, '/');
    lemma_split_on_nonempty(s, '/');
    lemma_coalesce_len(split_on(s, '/'));
    lemma_coalesce_no_sep(split_on(s, '/'));
    lemma_split_join(coalesce_globstars(split_on(s, '/')), '/');
}

/// Law: a normalized path has no two consecutive recursive-wildcard segments.
pub proof fn lemma_normalize_no_adjacent_globstars(s: Seq<char>)
    ensures
        forall|i: int|
            0 <= i && i + 1 < split_on(normalize_path(s), '/').len() ==> !((#[trigger] split_on(
                normalize_path(s),
                '/',
            )[i]) == globstar() && split_on(normalize_path(s), '/')[i + 1] == globstar()),
{
    lemma_split_normalize(s);
    lemma_coalesce_no_adjacent(split_on(s, '/'));
}

/// Law: normalization is idempotent.
pub proof fn lemma_normalize_idempotent(s: Seq<char>)
    ensures
        normalize_path(normalize_path(s)) == normalize_path(s),
{
    lemma_split_normalize(s);
    lemma_coalesce_idempotent(split_on(s, '/'));
}

/// Law: normalization keeps every non-wildcard segment, in their order.
pub proof fn lemma_normalize_preserves_segments(s: Seq<char>)
    ensures
        split_on(normalize_path(s), '/').filter(|p: Seq<char>| p != globstar()) == split_on(
            s,
            '/',
        ).filter(|p: Seq<char>| p != globstar()),
{
    lemma_split_normalize(s);
    lemma_coalesce_filter(split_on(s, '/'));
}

/// Coalesce consecutive recursive-wildcard segments of a slash-delimited path
/// into a single one, leaving all other segments exactly as they were.
pub fn reduce_globstars(path: &str) -> (r: String)
    ensures
        r@ == normalize_path(path@),
{
    let chars = to_chars(path);
    let normalized = normalize_chars(&chars);
    string_from_chars(&normalized)
}

/// `reduce_globstars` on a character vector.
pub fn normalize_chars(chars: &Vec<char>) -> (r: Vec<char>)
    ensures
        r@ == normalize_path(chars@),
{
    let parts = split_chars(chars, '/');
    let mut gs: Vec<char> = Vec::new();
    gs.push('*');
    gs.push('*');
    proof {
        assert(gs@ =~= globstar());
    }
    let mut out: Vec<Vec<char>> = Vec::new();
    let mut i: usize = 0;
    proof {
        assert(parts.deep_view().take(0) =~~= Seq::<Seq<char>>::empty());
        assert(out.deep_view() =~~= coalesce_globstars(parts.deep_view().take(0)));
    }
    while i < parts.len()
        invariant
            i <= parts.len(),
            parts.deep_view().len() == parts@.len(),
            gs@ == globstar(),
            out.deep_view() == coalesce_globstars(parts.deep_view().take(i as int)),
        decreases parts.len() - i,
    {
        let ghost tk = parts.deep_view().take(i as int);
        let ghost x = parts.deep_view()[i as int];
        let ghost old_out = out.deep_view();
        proof {
            lemma_deep_view_index(parts);
            lemma_deep_view_index(out);
            lemma_coalesce_len(tk);
            if i > 0 {
                lemma_coalesce_last(tk);
            }
            assert(tk.push(x) =~~= parts.deep_view().take(i + 1));
            lemma_coalesce_push(tk, x);
        }
        let dup = out.len() > 0 && chars_eq(&parts[i], &gs) && chars_eq(&out[out.len() - 1], &gs);
        if dup {
            proof {
                assert(old_out[old_out.len() - 1] == globstar());
                assert(tk.len() >= 1);
                assert(tk.last() == globstar());
                assert(x == globstar());
                assert(coalesce_globstars(tk.push(x)) == old_out);
            }
        } else {
            let p = clone_chars(&parts[i]);
            out.push(p);
            proof {
                lemma_deep_view_index(out);
                if tk.len() >= 1 && tk.last() == globstar() && x == globstar() {
                    assert(old_out.len() >= 1);
                    assert(old_out[old_out.len() - 1] == tk.last());
                    assert(false);
                }
                assert(coalesce_globstars(tk.push(x)) == coalesce_globstars(tk).push(x));
                assert(out.deep_view() =~~= old_out.push(x));
            }
        }
        i = i + 1;
    }
    proof {
        assert(parts.deep_view().take(parts@.len() as int) =~~= parts.deep_view());
    }
    join_chars(&out, '/')
}

} // verus!
