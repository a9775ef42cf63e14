//! Fuzzy matching of a requested template name against the catalog: the
//! candidate with the highest normalized edit-distance similarity wins, ties
//! keeping the earliest candidate in catalog order. The similarity comparison
//! is done exactly, on cross-multiplied integers.

use vstd::prelude::*;

use crate::catalog::Catalog;
use crate::chars::to_chars;
use crate::text::{trim_chars, trim_ws};

verus! {

pub open spec fn nat_min(a: nat, b: nat) -> nat {
    if a <= b {
        a
    } else {
        b
    }
}

pub open spec fn nat_max(a: nat, b: nat) -> nat {
    if a >= b {
        a
    } else {
        b
    }
}

/// The Levenshtein edit distance: the least number of character insertions,
/// deletions and substitutions turning `a` into `b`.
pub open spec fn lev(a: Seq<char>, b: Seq<char>) -> nat
    decreases a.len(), b.len(),
{
    if a.len() == 0 {
        b.len()
    } else if b.len() == 0 {
        a.len()
    } else {
        let del = lev(a.drop_last(), b) + 1;
        let ins = lev(a, b.drop_last()) + 1;
        let sub = lev(a.drop_last(), b.drop_last()) + (if a.last() == b.last() {
            0nat
        } else {
            1nat
        });
        nat_min(nat_min(del, ins), sub)
    }
}

/// The edit distance never exceeds the longer length.
pub proof fn lemma_lev_le_max(a: Seq<char>, b: Seq<char>)
    ensures
        lev(a, b) <= nat_max(a.len(), b.len()),
    decreases a.len(), b.len(),
{
    if a.len() == 0 {
    } else if b.len() == 0 {
    } else {
        lemma_lev_le_max(a.drop_last(), b.drop_last());
    }
}

/// Relies on `strsim::levenshtein`: the character-level Levenshtein edit
/// distance between the two strings.
#[verifier::external_body]
fn lev_dist(a: &str, b: &str) -> (r: usize)
    ensures
        r as nat == lev(a@, b@),
{
    strsim::levenshtein(a, b)
}

/// Numerator of the normalized similarity `1 - lev/max(len)`, written over a
/// common denominator; two empty strings count as identical.
pub open spec fn sim_num(q: Seq<char>, c: Seq<char>) -> int {
    if q.len() == 0 && c.len() == 0 {
        1
    } else {
        nat_max(q.len(), c.len()) - lev(q, c)
    }
}

/// Denominator of the normalized similarity.
pub open spec fn sim_den(q: Seq<char>, c: Seq<char>) -> int {
    if q.len() == 0 && c.len() == 0 {
        1
    } else {
        nat_max(q.len(), c.len()) as int
    }
}

/// Is `a` strictly more similar to `q` than `b` is?
pub open spec fn sim_gt(q: Seq<char>, a: Seq<char>, b: Seq<char>) -> bool {
    sim_num(q, a) * sim_den(q, b) > sim_num(q, b) * sim_den(q, a)
}

/// The names of the catalog entries, in catalog order.
pub open spec fn spec_keys(s: Seq<(Seq<char>, Seq<char>)>) -> Seq<Seq<char>> {
    Seq::new(s.len(), |i: int| s[i].0)
}

/// Position `i` holds the first candidate attaining the highest similarity.
pub open spec fn is_first_best(q: Seq<char>, keys: Seq<Seq<char>>, i: int) -> bool {
    &&& 0 <= i < keys.len()
    &&& forall|j: int| 0 <= j < i ==> sim_gt(q, keys[i], #[trigger] keys[j])
    &&& forall|j: int| i <= j < keys.len() ==> !sim_gt(q, #[trigger] keys[j], keys[i])
}

proof fn lemma_frac_gt_ge_trans(n1: int, d1: int, n2: int, d2: int, n3: int, d3: int)
    by (nonlinear_arith)
    requires
        d1 >= 1,
        d2 >= 1,
        d3 >= 1,
        n1 * d2 > n2 * d1,
        n2 * d3 >= n3 * d2,
    ensures
        n1 * d3 > n3 * d1,
{
}

/// Exact comparison of two non-negative fractions by cross-multiplication.
fn frac_gt(n1: usize, d1: usize, n2: usize, d2: usize) -> (r: bool)
    ensures
        r == ((n1 as int) * (d2 as int) > (n2 as int) * (d1 as int)),
{
    proof {
        vstd::arithmetic::mul::lemma_mul_upper_bound(
            n1 as int,
            u64::MAX as int,
            d2 as int,
            u64::MAX as int,
        );
        vstd::arithmetic::mul::lemma_mul_upper_bound(
            n2 as int,
            u64::MAX as int,
            d1 as int,
            u64::MAX as int,
        );
        vstd::arithmetic::mul::lemma_mul_nonnegative(n1 as int, d2 as int);
        vstd::arithmetic::mul::lemma_mul_nonnegative(n2 as int, d1 as int);
    }
    let p1: u128 = (n1 as u128) * (d2 as u128);
    let p2: u128 = (n2 as u128) * (d1 as u128);
    p1 > p2
}

/// The similarity of `cand` to `query` as an exact fraction.
fn sim_parts(query: &str, cand: &str) -> (r: (usize, usize))
    ensures
        r.0 as int == sim_num(query@, cand@),
        r.1 as int == sim_den(query@, cand@),
        r.1 >= 1,
{
    let d = lev_dist(query, cand);
    let ql = query.unicode_len();
    let cl = cand.unicode_len();
    proof {
        lemma_lev_le_max(query@, cand@);
    }
    if ql == 0 && cl == 0 {
        (1, 1)
    } else {
        let m = if ql >= cl {
            ql
        } else {
            cl
        };
        (m - d, m)
    }
}

/// The name in the catalog most similar to `query`: the first candidate, in
/// catalog order, attaining the strictly highest similarity score; no
/// suggestion when the catalog is empty.
pub fn best_match(file_map: &Catalog, query: &str) -> (r: Option<String>)
    ensures
        (r is Some) <==> file_map@.len() > 0,
        match r {
            Option::Some(s) => exists|i: int|
                #[trigger]
                is_first_best(query@, spec_keys(file_map@), i) && s@ == spec_keys(file_map@)[i],
            Option::None => file_map@.len() == 0,
        },
{
    let n = file_map.len();
    if n == 0 {
        return None;
    }
    let ghost keys = spec_keys(file_map@);
    let mut best_i: usize = 0;
    let first = sim_parts(query, file_map.key_at(0).as_str());
    let mut bn = first.0;
    let mut bd = first.1;
    let mut j: usize = 1;
    while j < n
        invariant
            n == file_map@.len(),
            keys == spec_keys(file_map@),
            1 <= j <= n,
            best_i < j,
            bn as int == sim_num(query@, keys[best_i as int]),
            bd as int == sim_den(query@, keys[best_i as int]),
            bd >= 1,
            forall|l: int| 0 <= l < best_i ==> sim_gt(query@, keys[best_i as int], #[trigger] keys[l]),
            forall|l: int|
                best_i <= l < j ==> !sim_gt(query@, #[trigger] keys[l], keys[best_i as int]),
        decreases n - j,
    {
        let cand = sim_parts(query, file_map.key_at(j).as_str());
        let cn = cand.0;
        let cd = cand.1;
        let gt = frac_gt(cn, cd, bn, bd);
        if gt {
            proof {
                let q = query@;
                let ob = best_i as int;
                assert forall|l: int| 0 <= l < j implies sim_gt(q, keys[j as int], #[trigger] keys[l]) by {
                    if l < ob {
                        lemma_frac_gt_ge_trans(
                            sim_num(q, keys[j as int]),
                            sim_den(q, keys[j as int]),
                            sim_num(q, keys[ob]),
                            sim_den(q, keys[ob]),
                            sim_num(q, keys[l]),
                            sim_den(q, keys[l]),
                        );
                    } else if l > ob {
                        lemma_frac_gt_ge_trans(
                            sim_num(q, keys[j as int]),
                            sim_den(q, keys[j as int]),
                            sim_num(q, keys[ob]),
                            sim_den(q, keys[ob]),
                            sim_num(q, keys[l]),
                            sim_den(q, keys[l]),
                        );
                    }
                }
            }
            best_i = j;
            bn = cn;
            bd = cd;
        }
        j = j + 1;
    }
    proof {
        assert(is_first_best(query@, keys, best_i as int));
    }
    Some(file_map.key_at(best_i).clone())
}

/// Is the confirmation answer an acceptance: exactly `y`, case-insensitively,
/// once surrounding whitespace is trimmed?
pub fn is_affirmative(choice: &str) -> (r: bool)
    ensures
        r == (trim_ws(choice@) == seq!['y'] || trim_ws(choice@) == seq!['Y']),
{
    let c = to_chars(choice);
    let t = trim_chars(&c);
    if t.len() == 1 {
        let ch = t[0];
        let res = ch == 'y' || ch == 'Y';
        proof {
            if ch == 'y' {
                assert(t@ =~= seq!['y']);
            } else if ch == 'Y' {
                assert(t@ =~= seq!['Y']);
            } else {
                assert(t@[0] != 'y');
                assert(t@ != seq!['y']);
                assert(t@ != seq!['Y']);
            }
        }
        res
    } else {
        proof {
            assert(t@.len() != 1);
            assert(t@ != seq!['y']);
            assert(t@ != seq!['Y']);
        }
        false
    }
}

/// What the confirmation prompt for a failed lookup says.
pub open spec fn prompt_text(typo: Seq<char>, sugg: Seq<char>) -> Seq<char> {
    "Couldn't generate template for "@ + typo + ", did you mean "@ + sugg + "? [y/N]: "@
}

/// Build the confirmation prompt naming the query and the suggestion.
pub fn confirmation_prompt(typo: &str, suggestion: &str) -> (r: String)
    ensures
        r@ == prompt_text(typo@, suggestion@),
{
    let mut out = String::new();
    out.append("Couldn't generate template for ");
    out.append(typo);
    out.append(", did you mean ");
    out.append(suggestion);
    out.append("? [y/N]: ");
    proof {
        assert(out@ =~= prompt_text(typo@, suggestion@));
    }
    out
}

/// The full suggestion exchange, decided on a given answer line: the best
/// catalog match is returned exactly when one exists and the answer accepts
/// it; otherwise no template name is suggested.
pub fn suggest_most_similar(typo: &str, file_map: &Catalog, answer: &str) -> (r: Option<String>)
    ensures
        match r {
            Option::Some(s) => file_map@.len() > 0 && (trim_ws(answer@) == seq!['y'] || trim_ws(
                answer@,
            ) == seq!['Y']) && exists|i: int|
                #[trigger]
                is_first_best(typo@, spec_keys(file_map@), i) && s@ == spec_keys(file_map@)[i],
            Option::None => file_map@.len() == 0 || !(trim_ws(answer@) == seq!['y'] || trim_ws(
                answer@,
            ) == seq!['Y']),
        },
{
    match best_match(file_map, typo) {
        Some(best) => {
            if is_affirmative(answer) {
                Some(best)
            } else {
                None
            }
        },
        None => None,
    }
}

} // verus!
