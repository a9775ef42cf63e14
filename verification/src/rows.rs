//! The template listing: the catalog's names sorted lexicographically and
//! arranged into table rows of four.

use vstd::prelude::*;

use crate::catalog::Catalog;
use crate::chars::to_chars;
use crate::fuzzy::spec_keys;

verus! {

/// Lexicographic order on character sequences, by code point.
pub open spec fn lex_le(a: Seq<char>, b: Seq<char>) -> bool
    decreases a.len(),
{
    if a.len() == 0 {
        true
    } else if b.len() == 0 {
        false
    } else if (a[0] as u32) < (b[0] as u32) {
        true
    } else if (a[0] as u32) > (b[0] as u32) {
        false
    } else {
        lex_le(a.drop_first(), b.drop_first())
    }
}

/// The order is total.
pub proof fn lemma_lex_le_total(a: Seq<char>, b: Seq<char>)
    ensures
        lex_le(a, b) || lex_le(b, a),
    decreases a.len(),
{
    if a.len() == 0 {
    } else if b.len() == 0 {
    } else if (a[0] as u32) == (b[0] as u32) {
        lemma_lex_le_total(a.drop_first(), b.drop_first());
    }
}

/// The order is transitive.
pub proof fn lemma_lex_le_trans(a: Seq<char>, b: Seq<char>, c: Seq<char>)
    requires
        lex_le(a, b),
        lex_le(b, c),
    ensures
        lex_le(a, c),
    decreases a.len(),
{
    if a.len() == 0 {
    } else if b.len() == 0 {
    } else if c.len() == 0 {
    } else {
        if (a[0] as u32) == (b[0] as u32) && (b[0] as u32) == (c[0] as u32) {
            lemma_lex_le_trans(a.drop_first(), b.drop_first(), c.drop_first());
        }
    }
}

/// Compare two character vectors lexicographically.
pub fn chars_le(a: &Vec<char>, b: &Vec<char>) -> (r: bool)
    ensures
        r == lex_le(a@, b@),
{
    let mut i: usize = 0;
    proof {
        assert(a@.skip(0) =~= a@);
        assert(b@.skip(0) =~= b@);
    }
    while i < a.len() && i < b.len()
        invariant
            i <= a@.len(),
            i <= b@.len(),
            lex_le(a@, b@) == lex_le(a@.skip(i as int), b@.skip(i as int)),
        decreases a@.len() - i,
    {
        proof {
            assert(a@.skip(i as int)[0] == a@[i as int]);
            assert(b@.skip(i as int)[0] == b@[i as int]);
            assert(a@.skip(i as int).drop_first() =~= a@.skip(i + 1));
            assert(b@.skip(i as int).drop_first() =~= b@.skip(i + 1));
        }
        let ca = a[i] as u32;
        let cb = b[i] as u32;
        if ca < cb {
            return true;
        }
        if ca > cb {
            return false;
        }
        i = i + 1;
    }
    proof {
        if i >= a@.len() {
            assert(a@.skip(i as int) =~= Seq::<char>::empty());
        } else {
            assert(b@.skip(i as int) =~= Seq::<char>::empty());
            assert(a@.skip(i as int).len() > 0);
        }
    }
    i >= a.len()
}

/// The position where a name may be inserted to keep the list sorted.
fn insert_pos(out: &Vec<String>, key_chars: &Vec<char>) -> (pos: usize)
    ensures
        pos <= out@.len(),
        out@.len() == out.deep_view().len(),
        forall|l: int| 0 <= l < pos ==> lex_le(#[trigger] out.deep_view()[l], key_chars@),
        pos < out@.len() ==> !lex_le(out.deep_view()[pos as int], key_chars@),
{
    let mut pos: usize = 0;
    proof {
        crate::chars::lemma_deep_view_index_str(*out);
    }
    while pos < out.len()
        invariant
            pos <= out@.len(),
            out@.len() == out.deep_view().len(),
            forall|l: int| 0 <= l < out@.len() ==> #[trigger] out.deep_view()[l] == out@[l]@,
            forall|l: int| 0 <= l < pos ==> lex_le(#[trigger] out.deep_view()[l], key_chars@),
        decreases out@.len() - pos,
    {
        let oc = to_chars(out[pos].as_str());
        if !chars_le(&oc, key_chars) {
            return pos;
        }
        pos = pos + 1;
    }
    pos
}

/// The catalog's names, sorted lexicographically.
pub fn sorted_keys(file_map: &Catalog) -> (r: Vec<String>)
    ensures
        r.deep_view().to_multiset() == spec_keys(file_map@).to_multiset(),
        forall|i: int, j: int|
            0 <= i < j < r.deep_view().len() ==> lex_le(
                #[trigger] r.deep_view()[i],
                #[trigger] r.deep_view()[j],
            ),
{
    broadcast use vstd::seq_lib::group_to_multiset_ensures;

    let n = file_map.len();
    let mut out: Vec<String> = Vec::new();
    let mut k: usize = 0;
    proof {
        crate::chars::lemma_deep_view_index_str(out);
        assert(spec_keys(file_map@).take(0) =~= Seq::<Seq<char>>::empty());
        assert(out.deep_view().to_multiset() =~= spec_keys(file_map@).take(0).to_multiset());
    }
    while k < n
        invariant
            k <= n,
            n == file_map@.len(),
            out.deep_view().len() == k,
            out.deep_view().to_multiset() == spec_keys(file_map@).take(k as int).to_multiset(),
            forall|i: int, j: int|
                0 <= i < j < out.deep_view().len() ==> lex_le(
                    #[trigger] out.deep_view()[i],
                    #[trigger] out.deep_view()[j],
                ),
        decreases n - k,
    {
        let key = file_map.key_at(k).clone();
        let key_chars = to_chars(key.as_str());
        let pos = insert_pos(&out, &key_chars);
        proof {
            crate::chars::lemma_deep_view_index_str(out);
            if pos < out@.len() {
                lemma_lex_le_total(out.deep_view()[pos as int], key@);
                assert(lex_le(key@, out.deep_view()[pos as int]));
            }
        }
        let ghost pre = out.deep_view();
        let ghost pre_v = out@;
        out.insert(pos, key);
        k = k + 1;
        proof {
            crate::chars::lemma_deep_view_index_str(out);
            assert(out@ == pre_v.insert(pos as int, key));
            assert(out.deep_view() =~~= pre.insert(pos as int, key@));
            // inserting somewhere in the list is inserting into the multiset
            vstd::seq_lib::to_multiset_insert(pre, pos as int, key@);
            assert(out.deep_view().to_multiset() == pre.to_multiset().insert(key@));
            assert(spec_keys(file_map@).take(k as int) =~= spec_keys(file_map@).take(
                k - 1,
            ).push(spec_keys(file_map@)[k - 1]));
            vstd::seq_lib::to_multiset_build(
                spec_keys(file_map@).take(k - 1),
                spec_keys(file_map@)[k - 1],
            );
            assert(key@ == spec_keys(file_map@)[k - 1]);
            assert(out.deep_view().to_multiset() =~= spec_keys(file_map@).take(
                k as int,
            ).to_multiset());
            // sortedness
            assert forall|i: int, j: int|
                0 <= i < j < out.deep_view().len() implies lex_le(
                #[trigger] out.deep_view()[i],
                #[trigger] out.deep_view()[j],
            ) by {
                let d = out.deep_view();
                if j < pos {
                    assert(d[i] == pre[i] && d[j] == pre[j]);
                } else if i > pos {
                    assert(d[i] == pre[i - 1] && d[j] == pre[j - 1]);
                } else if i < pos && j == pos {
                    assert(d[i] == pre[i] && d[j] == key@);
                } else if i == pos && j > pos {
                    assert(d[i] == key@ && d[j] == pre[j - 1]);
                    if pos < pre.len() {
                        assert(lex_le(key@, pre[pos as int]));
                        if j - 1 > pos {
                            assert(lex_le(pre[pos as int], pre[j - 1]));
                            lemma_lex_le_trans(key@, pre[pos as int], pre[j - 1]);
                        }
                    }
                } else if i < pos && j > pos {
                    assert(d[i] == pre[i] && d[j] == pre[j - 1]);
                    assert(lex_le(pre[i], key@));
                    assert(lex_le(key@, pre[pos as int]));
                    if j - 1 == pos {
                        lemma_lex_le_trans(pre[i], key@, pre[j - 1]);
                    } else {
                        assert(lex_le(pre[pos as int], pre[j - 1]));
                        lemma_lex_le_trans(key@, pre[pos as int], pre[j - 1]);
                        lemma_lex_le_trans(pre[i], key@, pre[j - 1]);
                    }
                }
            }
        }
    }
    proof {
        assert(spec_keys(file_map@).take(n as int) =~= spec_keys(file_map@));
    }
    out
}

/// The concatenation of table rows back into one name list.
pub open spec fn concat_rows(rs: Seq<Seq<Seq<char>>>) -> Seq<Seq<char>>
    decreases rs.len(),
{
    if rs.len() == 0 {
        Seq::<Seq<char>>::empty()
    } else {
        rs.first() + concat_rows(rs.drop_first())
    }
}

pub proof fn lemma_concat_rows_push(rs: Seq<Seq<Seq<char>>>, row: Seq<Seq<char>>)
    ensures
        concat_rows(rs.push(row)) == concat_rows(rs) + row,
    decreases rs.len(),
{
    if rs.len() == 0 {
        assert(rs.push(row).drop_first() =~~= Seq::<Seq<Seq<char>>>::empty());
        assert(rs.push(row).first() == row);
        assert(concat_rows(rs.push(row)) == rs.push(row).first() + concat_rows(
            rs.push(row).drop_first(),
        ));
        assert(concat_rows(Seq::<Seq<Seq<char>>>::empty()) =~~= Seq::<Seq<char>>::empty());
        assert(concat_rows(rs.push(row)) =~~= concat_rows(rs) + row);
    } else {
        lemma_concat_rows_push(rs.drop_first(), row);
        assert(rs.push(row).drop_first() =~~= rs.drop_first().push(row));
        assert(rs.push(row).first() == rs.first());
        assert(rs.first() + (concat_rows(rs.drop_first()) + row) =~~= (rs.first() + concat_rows(
            rs.drop_first(),
        )) + row);
    }
}

/// The catalog's names, sorted, arranged into table rows of four: every row
/// but the last is full, and the rows concatenate back to the sorted list.
pub fn template_rows(file_map: &Catalog) -> (r: Vec<Vec<String>>)
    ensures
        concat_rows(r.deep_view()).to_multiset() == spec_keys(file_map@).to_multiset(),
        forall|i: int, j: int|
            0 <= i < j < concat_rows(r.deep_view()).len() ==> lex_le(
                #[trigger] concat_rows(r.deep_view())[i],
                #[trigger] concat_rows(r.deep_view())[j],
            ),
        forall|i: int|
            0 <= i < r.deep_view().len() - 1 ==> (#[trigger] r.deep_view()[i]).len() == 4,
        forall|i: int|
            0 <= i < r.deep_view().len() ==> 1 <= (#[trigger] r.deep_view()[i]).len() <= 4,
{
    let ks = sorted_keys(file_map);
    let n = ks.len();
    let mut rows: Vec<Vec<String>> = Vec::new();
    let mut i: usize = 0;
    proof {
        lemma_deep_view_rows(rows);
        assert(concat_rows(rows.deep_view()) =~~= ks.deep_view().take(0));
    }
    while i < n
        invariant
            i <= n,
            n == ks.deep_view().len(),
            n == ks@.len(),
            concat_rows(rows.deep_view()) == ks.deep_view().take(i as int),
            i == n || i % 4 == 0,
            i < n ==> (forall|l: int|
                0 <= l < rows.deep_view().len() ==> (#[trigger] rows.deep_view()[l]).len() == 4),
            forall|l: int|
                0 <= l < rows.deep_view().len() - 1 ==> (#[trigger] rows.deep_view()[l]).len()
                    == 4,
            forall|l: int|
                0 <= l < rows.deep_view().len() ==> 1 <= (#[trigger] rows.deep_view()[l]).len()
                    <= 4,
        decreases n - i,
    {
        let mut row: Vec<String> = Vec::new();
        let mut j: usize = i;
        proof {
            crate::chars::lemma_deep_view_index_str(row);
            assert(row.deep_view() =~~= ks.deep_view().subrange(i as int, i as int));
        }
        while j < n && j - i < 4
            invariant
                i <= j <= n,
                j <= i + 4,
                n == ks.deep_view().len(),
                n == ks@.len(),
                row.deep_view() == ks.deep_view().subrange(i as int, j as int),
            decreases n - j,
        {
            proof {
                crate::chars::lemma_deep_view_index_str(ks);
                crate::chars::lemma_deep_view_index_str(row);
            }
            let ghost pre_row = row.deep_view();
            row.push(ks[j].clone());
            j = j + 1;
            proof {
                crate::chars::lemma_deep_view_index_str(row);
                assert(row.deep_view() =~~= pre_row.push(ks.deep_view()[j - 1]));
                assert(pre_row.push(ks.deep_view()[j - 1]) =~~= ks.deep_view().subrange(
                    i as int,
                    j as int,
                ));
            }
        }
        let ghost pre_rows = rows.deep_view();
        let ghost row_v = row.deep_view();
        proof {
            lemma_deep_view_rows(rows);
        }
        let full = row.len() == 4;
        rows.push(row);
        proof {
            lemma_deep_view_rows(rows);
            assert(rows.deep_view() =~~= pre_rows.push(row_v));
            lemma_concat_rows_push(pre_rows, row_v);
            assert(ks.deep_view().take(i as int) + ks.deep_view().subrange(i as int, j as int)
                =~= ks.deep_view().take(j as int));
        }
        let old_i = i;
        i = j;
        proof {
            if i < n {
                assert(j == old_i + 4);
            } else {
                assert(row_v.len() >= 1);
            }
        }
    }
    proof {
        assert(ks.deep_view().take(n as int) =~= ks.deep_view());
    }
    rows
}

/// The deep view of a vector of rows indexes to the deep views of the rows.
pub proof fn lemma_deep_view_rows(v: Vec<Vec<String>>)
    ensures
        v.deep_view().len() == v@.len(),
        forall|i: int| 0 <= i < v@.len() ==> #[trigger] v.deep_view()[i] == v@[i].deep_view(),
{
    assert forall|i: int|
        0 <= i < v@.len() implies #[trigger] v.deep_view()[i] == v@[i].deep_view() by {
        assert(v.deep_view()[i] =~~= v@[i].deep_view());
    }
}

} // verus!
