//! The exact deduplicator: removes every row that is element-wise equal
//! to an earlier row, keeping the first occurrences in their relative
//! order. A total function over any dataset, with no error states.

use vstd::prelude::*;
use crate::similarity::lemma_no_dup_push;

verus! {

/// The exact deduplication of a dataset: one copy of each distinct row,
/// in order of first occurrence.
pub open spec fn exact_dedup(s: Seq<Seq<Seq<char>>>) -> Seq<Seq<Seq<char>>>
    decreases s.len(),
{
    if s.len() == 0 {
        Seq::empty()
    } else {
        let prefix = exact_dedup(s.drop_last());
        if prefix.contains(s.last()) {
            prefix
        } else {
            prefix.push(s.last())
        }
    }
}

/// Whether two rows are equal field for field.
pub fn rows_equal(a: &Vec<String>, b: &Vec<String>) -> (r: bool)
    ensures
        r == (a.deep_view() == b.deep_view()),
{
    if a.len() != b.len() {
        assert(a.deep_view().len() != b.deep_view().len());
        return false;
    }
    let mut i: usize = 0;
    while i < a.len()
        invariant
            i <= a.len(),
            a.len() == b.len(),
            forall|j: int| 0 <= j < i ==> a.deep_view()[j] == b.deep_view()[j],
        decreases a.len() - i,
    {
        if !(a[i] == b[i]) {
            assert(a.deep_view()[i as int] != b.deep_view()[i as int]);
            return false;
        }
        i += 1;
    }
    proof {
        assert(a.deep_view() =~= b.deep_view());
    }
    true
}

/// Whether the dataset already holds a row equal to `row`.
pub fn contains_row(rows: &Vec<Vec<String>>, row: &Vec<String>) -> (r: bool)
    ensures
        r == rows.deep_view().contains(row.deep_view()),
{
    let mut i: usize = 0;
    while i < rows.len()
        invariant
            i <= rows.len(),
            forall|j: int| 0 <= j < i ==> rows.deep_view()[j] != row.deep_view(),
        decreases rows.len() - i,
    {
        if rows_equal(&rows[i], row) {
            assert(rows.deep_view()[i as int] == row.deep_view());
            return true;
        }
        i += 1;
    }
    false
}

/// A fresh copy of a row, equal to it field for field.
pub(crate) fn clone_row(row: &Vec<String>) -> (r: Vec<String>)
    ensures
        r.deep_view() == row.deep_view(),
{
    let mut out: Vec<String> = Vec::new();
    let mut i: usize = 0;
    while i < row.len()
        invariant
            i <= row.len(),
            out@.len() == i,
            forall|j: int| 0 <= j < i ==> out@[j] == row@[j],
        decreases row.len() - i,
    {
        out.push(row[i].clone());
        i += 1;
    }
    proof {
        assert(out.deep_view() =~= row.deep_view());
    }
    out
}

/// Removes every row that is element-wise equal to an earlier row; the
/// first occurrences survive, in their relative order. The input is
/// drained, as its rows move on through the pipeline by value.
pub fn exact_match_dedup(data: &mut Vec<Vec<String>>) -> (r: Vec<Vec<String>>)
    ensures
        r.deep_view() == exact_dedup(old(data).deep_view()),
        final(data)@.len() == 0,
{
    let ghost dv = old(data).deep_view();
    let mut out: Vec<Vec<String>> = Vec::new();
    proof {
        assert(dv.take(0) =~= Seq::<Seq<Seq<char>>>::empty());
        assert(out.deep_view() =~= exact_dedup(dv.take(0)));
    }
    let mut i: usize = 0;
    while i < data.len()
        invariant
            i <= data.len(),
            data@ == old(data)@,
            data.deep_view() == dv,
            out.deep_view() == exact_dedup(dv.take(i as int)),
        decreases data.len() - i,
    {
        proof {
            assert(dv.take(i + 1).drop_last() =~= dv.take(i as int));
            assert(dv.take(i + 1).last() == dv[i as int]);
        }
        let seen = contains_row(&out, &data[i]);
        if !seen {
            let ghost pre = out.deep_view();
            let copy = clone_row(&data[i]);
            out.push(copy);
            proof {
                assert(out.deep_view() =~= pre.push(dv[i as int]));
            }
        }
        i += 1;
    }
    proof {
        assert(dv.take(data.len() as int) =~= dv);
    }
    data.clear();
    out
}

/// Deduplication neither invents nor loses rows: a row stands in the
/// output exactly when it stands in the input.
pub proof fn lemma_exact_dedup_membership(s: Seq<Seq<Seq<char>>>, x: Seq<Seq<char>>)
    ensures
        exact_dedup(s).contains(x) <==> s.contains(x),
    decreases s.len(),
{
    broadcast use vstd::seq_lib::group_seq_properties;

    if s.len() == 0 {
    } else {
        lemma_exact_dedup_membership(s.drop_last(), x);
        lemma_exact_dedup_membership(s.drop_last(), s.last());
        assert(s =~= s.drop_last().push(s.last()));
        assert(s.contains(x) == (s.drop_last().contains(x) || x == s.last()));
    }
}

/// Cardinality invariant: the output of exact deduplication has no two
/// element-wise-equal rows.
pub proof fn lemma_exact_dedup_no_duplicates(s: Seq<Seq<Seq<char>>>)
    ensures
        exact_dedup(s).no_duplicates(),
    decreases s.len(),
{
    if s.len() > 0 {
        lemma_exact_dedup_no_duplicates(s.drop_last());
        let prefix = exact_dedup(s.drop_last());
        if !prefix.contains(s.last()) {
            lemma_no_dup_push(prefix, s.last());
        }
    }
}

/// A dataset without duplicate rows passes through exact deduplication
/// unchanged.
pub proof fn lemma_exact_dedup_of_distinct(s: Seq<Seq<Seq<char>>>)
    requires
        s.no_duplicates(),
    ensures
        exact_dedup(s) == s,
    decreases s.len(),
{
    broadcast use vstd::seq_lib::group_seq_properties;

    if s.len() > 0 {
        assert(s.drop_last().no_duplicates());
        lemma_exact_dedup_of_distinct(s.drop_last());
        assert(!s.drop_last().contains(s.last())) by {
            if s.drop_last().contains(s.last()) {
                let j = choose|j: int|
                    0 <= j < s.drop_last().len() && s.drop_last()[j] == s.last();
                assert(s[j] == s[s.len() - 1]);
            }
        }
        assert(exact_dedup(s) =~= s);
    }
}

/// Idempotence: deduplicating twice yields the same result as once.
pub proof fn lemma_exact_dedup_idempotent(s: Seq<Seq<Seq<char>>>)
    ensures
        exact_dedup(exact_dedup(s)) == exact_dedup(s),
{
    lemma_exact_dedup_no_duplicates(s);
    lemma_exact_dedup_of_distinct(exact_dedup(s));
}

/// The position of the first occurrence of `x` in `s` (meaningful when
/// `s` contains `x`).
pub open spec fn first_index(s: Seq<Seq<Seq<char>>>, x: Seq<Seq<char>>) -> int
    decreases s.len(),
{
    if s.len() == 0 {
        0
    } else if s.first() == x {
        0
    } else {
        1 + first_index(s.drop_first(), x)
    }
}

/// `first_index` indeed points at the first occurrence.
pub proof fn lemma_first_index_is_first(s: Seq<Seq<Seq<char>>>, x: Seq<Seq<char>>)
    requires
        s.contains(x),
    ensures
        0 <= first_index(s, x) < s.len(),
        s[first_index(s, x)] == x,
        forall|j: int| 0 <= j < first_index(s, x) ==> s[j] != x,
    decreases s.len(),
{
    broadcast use vstd::seq_lib::group_seq_properties;

    if s.first() == x {
    } else {
        assert(s.drop_first().contains(x)) by {
            let j = choose|j: int| 0 <= j < s.len() && s[j] == x;
            assert(s.drop_first()[j - 1] == x);
        }
        lemma_first_index_is_first(s.drop_first(), x);
        let f = first_index(s.drop_first(), x);
        assert(s[1 + f] == s.drop_first()[f]);
        assert forall|j: int| 0 <= j < 1 + f implies s[j] != x by {
            if j > 0 {
                assert(s.drop_first()[j - 1] == s[j]);
            }
        }
    }
}

/// Appending a row does not move the first occurrence of any row already
/// present, and gives an absent row its first occurrence at the end.
proof fn lemma_first_index_push(t: Seq<Seq<Seq<char>>>, y: Seq<Seq<char>>, x: Seq<Seq<char>>)
    ensures
        t.contains(x) ==> first_index(t.push(y), x) == first_index(t, x),
        !t.contains(x) && x == y ==> first_index(t.push(y), x) == t.len(),
    decreases t.len(),
{
    broadcast use vstd::seq_lib::group_seq_properties;

    if t.len() == 0 {
        assert(t.push(y).first() == y);
        if x == y {
            assert(first_index(t.push(y), x) == 0);
        }
    } else {
        assert(t.push(y).first() == t.first());
        assert(t.push(y).drop_first() =~= t.drop_first().push(y));
        if t.first() == x {
        } else {
            lemma_first_index_push(t.drop_first(), y, x);
            assert(t.contains(x) ==> t.drop_first().contains(x)) by {
                if t.contains(x) {
                    let j = choose|j: int| 0 <= j < t.len() && t[j] == x;
                    assert(j != 0);
                    assert(t.drop_first()[j - 1] == x);
                }
            }
            assert(t.drop_first().contains(x) ==> t.contains(x)) by {
                if t.drop_first().contains(x) {
                    let j = choose|j: int|
                        0 <= j < t.drop_first().len() && t.drop_first()[j] == x;
                    assert(t[j + 1] == x);
                }
            }
        }
    }
}

/// Order preservation: the survivors of exact deduplication stand in the
/// order of their first occurrences in the input, and each survivor is an
/// input row.
pub proof fn lemma_exact_dedup_order(s: Seq<Seq<Seq<char>>>)
    ensures
        forall|p: int| 0 <= p < exact_dedup(s).len() ==> s.contains(#[trigger] exact_dedup(s)[p]),
        forall|p: int, q: int|
            0 <= p < q < exact_dedup(s).len() ==> first_index(s, #[trigger] exact_dedup(s)[p])
                < first_index(s, #[trigger] exact_dedup(s)[q]),
    decreases s.len(),
{
    broadcast use vstd::seq_lib::group_seq_properties;

    if s.len() == 0 {
    } else {
        let t = s.drop_last();
        let d = exact_dedup(s);
        let dp = exact_dedup(t);
        lemma_exact_dedup_order(t);
        lemma_exact_dedup_membership(t, s.last());
        assert(s =~= t.push(s.last()));
        assert forall|p: int| 0 <= p < dp.len() implies t.contains(dp[p]) && s.contains(dp[p])
            && first_index(s, dp[p]) == first_index(t, dp[p]) && first_index(t, dp[p])
            < t.len() by {
            assert(dp[p] == exact_dedup(t)[p]);
            lemma_first_index_push(t, s.last(), dp[p]);
            lemma_first_index_is_first(t, dp[p]);
        }
        if dp.contains(s.last()) {
            assert(d == dp);
        } else {
            assert(d == dp.push(s.last()));
            assert(!t.contains(s.last()));
            lemma_first_index_push(t, s.last(), s.last());
            assert(first_index(s, s.last()) == t.len());
            assert(s.contains(s.last())) by {
                assert(s[s.len() - 1] == s.last());
            }
            assert forall|p: int, q: int| 0 <= p < q < d.len() implies first_index(s, d[p])
                < first_index(s, d[q]) by {
                if q < dp.len() {
                    assert(d[p] == dp[p] && d[q] == dp[q]);
                } else {
                    assert(d[q] == s.last());
                    assert(d[p] == dp[p]);
                }
            }
        }
    }
}

} // verus!
