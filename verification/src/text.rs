//! Verified text searching: substring tests, removal of every occurrence of a
//! pattern, and whitespace trimming.

use vstd::prelude::*;

verus! {

/// The pattern `n` occurs in `h` at position `i`.
pub open spec fn is_match_at(h: Seq<char>, n: Seq<char>, i: int) -> bool {
    0 <= i && i + n.len() <= h.len() && h.subrange(i, i + n.len()) == n
}

/// The pattern `n` occurs somewhere in `h`.
pub open spec fn contains_seq(h: Seq<char>, n: Seq<char>) -> bool {
    exists|i: int| is_match_at(h, n, i)
}

/// `h` with every occurrence of `p` removed, scanning left to right and
/// skipping past each match, as `str::replace` with an empty replacement does.
pub open spec fn remove_all(h: Seq<char>, p: Seq<char>) -> Seq<char>
    decreases h.len(),
{
    if p.len() == 0 {
        h
    } else if h.len() < p.len() {
        h
    } else if h.subrange(0, p.len() as int) == p {
        remove_all(h.skip(p.len() as int), p)
    } else {
        seq![h[0]] + remove_all(h.drop_first(), p)
    }
}

/// Does `n` occur in `h` starting at `i`?
pub fn match_at(h: &Vec<char>, n: &Vec<char>, i: usize) -> (r: bool)
    requires
        i + n@.len() <= h@.len(),
    ensures
        r == is_match_at(h@, n@, i as int),
{
    let hl = h.len();
    let mut j: usize = 0;
    while j < n.len()
        invariant
            j <= n@.len(),
            hl == h@.len(),
            i + n@.len() <= h@.len(),
            forall|k: int| 0 <= k < j ==> h@[i + k] == n@[k],
        decreases n@.len() - j,
    {
        if h[i + j] != n[j] {
            proof {
                assert(h@.subrange(i as int, i + n@.len())[j as int] == h@[i + j]);
            }
            return false;
        }
        j = j + 1;
    }
    proof {
        assert(h@.subrange(i as int, i + n@.len()) =~= n@);
    }
    true
}

/// Does `n` occur anywhere in `h`?
pub fn contains_chars(h: &Vec<char>, n: &Vec<char>) -> (r: bool)
    ensures
        r == contains_seq(h@, n@),
{
    if n.len() == 0 {
        proof {
            assert(h@.subrange(0, 0) =~= n@);
            assert(is_match_at(h@, n@, 0));
        }
        return true;
    }
    if n.len() > h.len() {
        proof {
            assert(forall|i: int| !is_match_at(h@, n@, i));
        }
        return false;
    }
    let bound = h.len() - n.len();
    let mut i: usize = 0;
    while i <= bound
        invariant
            bound == h@.len() - n@.len(),
            n@.len() >= 1,
            h@.len() <= usize::MAX,
            i <= bound + 1,
            forall|k: int| 0 <= k < i ==> !is_match_at(h@, n@, k),
        decreases bound + 1 - i,
    {
        if match_at(h, n, i) {
            return true;
        }
        i = i + 1;
    }
    proof {
        assert(forall|k: int| is_match_at(h@, n@, k) ==> 0 <= k <= bound);
    }
    false
}

/// Remove every occurrence of `p` from `h`, scanning left to right.
pub fn remove_chars(h: &Vec<char>, p: &Vec<char>) -> (r: Vec<char>)
    ensures
        r@ == remove_all(h@, p@),
{
    let mut out: Vec<char> = Vec::new();
    if p.len() == 0 {
        let r = crate::chars::clone_chars(h);
        return r;
    }
    let mut i: usize = 0;
    proof {
        assert(h@.skip(0) =~= h@);
    }
    while i < h.len()
        invariant
            i <= h@.len(),
            p@.len() >= 1,
            remove_all(h@, p@) == out@ + remove_all(h@.skip(i as int), p@),
        decreases h@.len() - i,
    {
        let ghost rem = h@.skip(i as int);
        if p.len() <= h.len() - i && match_at(h, p, i) {
            proof {
                assert(rem.subrange(0, p@.len() as int) =~= h@.subrange(i as int, i + p@.len()));
                assert(rem.skip(p@.len() as int) =~= h@.skip(i + p@.len()));
                assert(remove_all(rem, p@) == remove_all(h@.skip(i + p@.len()), p@));
            }
            i = i + p.len();
        } else {
            proof {
                if rem.len() >= p@.len() {
                    assert(rem.subrange(0, p@.len() as int) =~= h@.subrange(
                        i as int,
                        i + p@.len(),
                    ));
                    assert(rem.subrange(0, p@.len() as int) != p@);
                    assert(rem.drop_first() =~= h@.skip(i + 1));
                    assert(remove_all(rem, p@) == seq![rem[0]] + remove_all(h@.skip(i + 1), p@));
                } else {
                    assert(remove_all(rem, p@) == rem);
                    assert(remove_all(h@.skip(i + 1), p@) == h@.skip(i + 1));
                    assert(rem =~= seq![rem[0]] + h@.skip(i + 1));
                }
                assert(rem[0] == h@[i as int]);
                assert(out@ + (seq![h@[i as int]] + remove_all(h@.skip(i + 1), p@)) =~= out@.push(
                    h@[i as int],
                ) + remove_all(h@.skip(i + 1), p@));
            }
            out.push(h[i]);
            i = i + 1;
        }
    }
    proof {
        assert(h@.skip(h@.len() as int) =~= Seq::<char>::empty());
        assert(remove_all(Seq::<char>::empty(), p@) == Seq::<char>::empty());
        assert(out@ + Seq::<char>::empty() =~= out@);
    }
    out
}

/// The ASCII whitespace characters.
pub open spec fn is_ascii_ws(c: char) -> bool {
    c == ' ' || c == '\t' || c == '\n' || c == '\x0C' || c == '\r'
}

pub open spec fn trim_start_ws(s: Seq<char>) -> Seq<char>
    decreases s.len(),
{
    if s.len() > 0 && is_ascii_ws(s[0]) {
        trim_start_ws(s.drop_first())
    } else {
        s
    }
}

pub open spec fn trim_end_ws(s: Seq<char>) -> Seq<char>
    decreases s.len(),
{
    if s.len() > 0 && is_ascii_ws(s.last()) {
        trim_end_ws(s.drop_last())
    } else {
        s
    }
}

/// `s` without leading and trailing ASCII whitespace.
pub open spec fn trim_ws(s: Seq<char>) -> Seq<char> {
    trim_end_ws(trim_start_ws(s))
}

fn is_ws_char(c: char) -> (r: bool)
    ensures
        r == is_ascii_ws(c),
{
    c == ' ' || c == '\t' || c == '\n' || c == '\x0C' || c == '\r'
}

/// The trimmed characters of `v`: leading and trailing ASCII whitespace
/// removed.
pub fn trim_chars(v: &Vec<char>) -> (r: Vec<char>)
    ensures
        r@ == trim_ws(v@),
{
    let n = v.len();
    let mut a: usize = 0;
    proof {
        assert(v@.skip(0) =~= v@);
    }
    while a < n && is_ws_char(v[a])
        invariant
            a <= n,
            n == v@.len(),
            trim_start_ws(v@) == trim_start_ws(v@.skip(a as int)),
        decreases n - a,
    {
        proof {
            assert(v@.skip(a as int)[0] == v@[a as int]);
            assert(v@.skip(a as int).drop_first() =~= v@.skip(a + 1));
        }
        a = a + 1;
    }
    proof {
        if a == n {
            assert(v@.skip(a as int) =~= Seq::<char>::empty());
        }
        assert(trim_start_ws(v@.skip(a as int)) == v@.skip(a as int));
    }
    let ghost u = v@.skip(a as int);
    let mut b: usize = n;
    proof {
        assert(u.take(n - a) =~= u);
    }
    while b > a && is_ws_char(v[b - 1])
        invariant
            a <= b <= n,
            n == v@.len(),
            u == v@.skip(a as int),
            trim_start_ws(v@) == u,
            trim_end_ws(u) == trim_end_ws(u.take(b - a)),
        decreases b,
    {
        proof {
            assert(u.take(b - a).last() == v@[b - 1]);
            assert(u.take(b - a).drop_last() =~= u.take(b - 1 - a));
        }
        b = b - 1;
    }
    proof {
        if b == a {
            assert(u.take(0) =~= Seq::<char>::empty());
            assert(trim_end_ws(u.take(b - a)) == u.take(b - a));
        } else {
            assert(u.take(b - a).last() == v@[b - 1]);
            assert(trim_end_ws(u.take(b - a)) == u.take(b - a));
        }
    }
    let mut r: Vec<char> = Vec::new();
    let mut i: usize = a;
    while i < b
        invariant
            a <= i <= b <= n,
            n == v@.len(),
            r@ == v@.subrange(a as int, i as int),
        decreases b - i,
    {
        r.push(v[i]);
        i = i + 1;
        proof {
            assert(r@ =~= v@.subrange(a as int, i as int));
        }
    }
    proof {
        assert(r@ =~= u.take(b - a));
    }
    r
}

} // verus!
