//! The similarity deduplicator: greedy, order-sensitive clustering of the
//! exact-dedup survivors. Candidates are taken strictly in input order;
//! each is compared against every row already accepted, and admitted only
//! when no accepted row reaches the similarity threshold. Only the inner
//! scan of one candidate against the accepted rows fans out across
//! threads; the accepted set is read-only during that scan and the append
//! is committed sequentially afterwards, so the result is deterministic.

use vstd::prelude::*;
use crate::similarity::{sim_ge, inter_count, union_count, Threshold, jaccard_similarity,
    lemma_similarity_bounds};
use crate::exact::clone_row;
use rayon::iter::IntoParallelRefIterator;
use rayon::iter::ParallelIterator;

verus! {

/// Whether some accepted row reaches the threshold against the candidate.
pub open spec fn matches_any(
    acc: Seq<Seq<Seq<char>>>,
    cand: Seq<Seq<char>>,
    num: nat,
    den: nat,
) -> bool {
    exists|i: int| 0 <= i < acc.len() && sim_ge(#[trigger] acc[i], cand, num, den)
}

/// The greedy similarity deduplication of a dataset at threshold
/// `num / den`: a row survives exactly when no earlier survivor has a
/// similarity of at least the threshold with it.
pub open spec fn prob_dedup(s: Seq<Seq<Seq<char>>>, num: nat, den: nat) -> Seq<Seq<Seq<char>>>
    decreases s.len(),
{
    if s.len() == 0 {
        Seq::empty()
    } else {
        let acc = prob_dedup(s.drop_last(), num, den);
        if matches_any(acc, s.last(), num, den) {
            acc
        } else {
            acc.push(s.last())
        }
    }
}

/// Whether the similarity of the two rows reaches the threshold. The
/// product comparison is the exact rational comparison
/// `inter / union >= num / den`, with the empty 0/0 similarity read as 0.
pub fn row_matches(a: &Vec<String>, b: &Vec<String>, threshold: &Threshold) -> (r: bool)
    ensures
        r == sim_ge(a.deep_view(), b.deep_view(), threshold.num as nat, threshold.den as nat),
{
    let (inter, uni) = jaccard_similarity(a, b);
    if uni == 0 {
        threshold.num == 0
    } else {
        proof {
            vstd::arithmetic::mul::lemma_mul_upper_bound(
                inter as int,
                u64::MAX as int,
                threshold.den as int,
                u64::MAX as int,
            );
            vstd::arithmetic::mul::lemma_mul_upper_bound(
                threshold.num as int,
                u64::MAX as int,
                uni as int,
                u64::MAX as int,
            );
            lemma_similarity_bounds(a.deep_view(), b.deep_view());
        }
        (inter as u128) * (threshold.den as u128) >= (threshold.num as u128) * (uni as u128)
    }
}

/// Decides whether any accepted row matches the candidate, fanning the
/// comparisons out across a worker pool. The accepted set is only read
/// here; the caller appends to it afterwards. Relies on
/// rayon::iter::ParallelIterator::any: it returns true exactly when the
/// predicate — here the verified `row_matches` — holds of some item, a
/// deterministic disjunction whatever the thread scheduling.
#[verifier::external_body]
fn any_row_matches(accepted: &Vec<Vec<String>>, cand: &Vec<String>, threshold: &Threshold) -> (r: bool)
    ensures
        r == matches_any(accepted.deep_view(), cand.deep_view(), threshold.num as nat, threshold.den as nat),
{
    accepted.par_iter().any(|row| row_matches(row, cand, threshold))
}

/// Removes every row whose similarity with an already-accepted row
/// reaches the threshold; candidates are taken strictly in input order,
/// so each similarity cluster keeps its first-seen member.
pub fn probabilistic_match_dedup(data: &Vec<Vec<String>>, threshold: &Threshold) -> (r: Vec<
    Vec<String>,
>)
    requires
        threshold.wf(),
    ensures
        r.deep_view() == prob_dedup(
            data.deep_view(),
            threshold.num as nat,
            threshold.den as nat,
        ),
{
    let ghost dv = data.deep_view();
    let ghost num = threshold.num as nat;
    let ghost den = threshold.den as nat;
    let mut out: Vec<Vec<String>> = Vec::new();
    proof {
        assert(dv.take(0) =~= Seq::<Seq<Seq<char>>>::empty());
        assert(out.deep_view() =~= prob_dedup(dv.take(0), num, den));
    }
    let mut i: usize = 0;
    while i < data.len()
        invariant
            i <= data.len(),
            data.deep_view() == dv,
            num == threshold.num as nat,
            den == threshold.den as nat,
            out.deep_view() == prob_dedup(dv.take(i as int), num, den),
        decreases data.len() - i,
    {
        proof {
            assert(dv.take(i + 1).drop_last() =~= dv.take(i as int));
            assert(dv.take(i + 1).last() == dv[i as int]);
        }
        let matched = any_row_matches(&out, &data[i], threshold);
        if !matched {
            let ghost pre = out.deep_view();
            let copy = clone_row(&data[i]);
            out.push(copy);
            proof {
                assert(out.deep_view() =~= pre.push(dv[i as int]));
            }
        }
        i += 1;
    }
    proof {
        assert(dv.take(data.len() as int) =~= dv);
    }
    out
}

/// The invariant of the similarity stage: no output row reaches the
/// threshold against a row accepted before it.
pub proof fn lemma_prob_dedup_pairwise(s: Seq<Seq<Seq<char>>>, num: nat, den: nat)
    ensures
        forall|j: int, k: int|
            0 <= j < k < prob_dedup(s, num, den).len() ==> !sim_ge(
                #[trigger] prob_dedup(s, num, den)[j],
                #[trigger] prob_dedup(s, num, den)[k],
                num,
                den,
            ),
    decreases s.len(),
{
    if s.len() > 0 {
        lemma_prob_dedup_pairwise(s.drop_last(), num, den);
        let acc = prob_dedup(s.drop_last(), num, den);
        let d = prob_dedup(s, num, den);
        if !matches_any(acc, s.last(), num, den) {
            assert(d == acc.push(s.last()));
            assert forall|j: int, k: int| 0 <= j < k < d.len() implies !sim_ge(
                d[j],
                d[k],
                num,
                den,
            ) by {
                if k < acc.len() {
                    assert(d[j] == acc[j] && d[k] == acc[k]);
                } else {
                    assert(d[k] == s.last());
                    assert(d[j] == acc[j]);
                    assert(!sim_ge(acc[j], s.last(), num, den));
                }
            }
        }
    }
}

/// The invariant in both orientations: by symmetry of the metric, no two
/// distinct output rows reach the threshold against each other.
pub proof fn lemma_prob_dedup_pairwise_distinct(s: Seq<Seq<Seq<char>>>, num: nat, den: nat)
    ensures
        forall|j: int, k: int|
            0 <= j < prob_dedup(s, num, den).len() && 0 <= k < prob_dedup(s, num, den).len() && j
                != k ==> !sim_ge(
                #[trigger] prob_dedup(s, num, den)[j],
                #[trigger] prob_dedup(s, num, den)[k],
                num,
                den,
            ),
{
    lemma_prob_dedup_pairwise(s, num, den);
    let d = prob_dedup(s, num, den);
    assert forall|j: int, k: int| 0 <= j < d.len() && 0 <= k < d.len() && j != k implies !sim_ge(
        d[j],
        d[k],
        num,
        den,
    ) by {
        if k < j {
            crate::similarity::lemma_similarity_symmetric(d[j], d[k]);
        }
    }
}

/// The survivor count sits between 1 and the input size: no candidate is
/// invented, and the first row of a nonempty input is always accepted.
/// With the two threshold-endpoint lemmas below this brackets the output
/// size at every threshold between its size at 0 and its size above 1.
pub proof fn lemma_prob_dedup_len_bounds(s: Seq<Seq<Seq<char>>>, num: nat, den: nat)
    ensures
        prob_dedup(s, num, den).len() <= s.len(),
        s.len() > 0 ==> prob_dedup(s, num, den).len() >= 1,
    decreases s.len(),
{
    if s.len() > 0 {
        lemma_prob_dedup_len_bounds(s.drop_last(), num, den);
    }
}

/// At threshold 0 every candidate matches the first survivor, so a
/// nonempty input keeps exactly its first row.
pub proof fn lemma_prob_dedup_threshold_zero(s: Seq<Seq<Seq<char>>>, den: nat)
    requires
        den >= 1,
        s.len() > 0,
    ensures
        prob_dedup(s, 0, den) == seq![s[0]],
    decreases s.len(),
{
    broadcast use vstd::seq_lib::group_seq_properties;

    if s.len() == 1 {
        assert(prob_dedup(s.drop_last(), 0, den) == Seq::<Seq<Seq<char>>>::empty());
        assert(prob_dedup(s, 0, den) =~= seq![s[0]]);
    } else {
        lemma_prob_dedup_threshold_zero(s.drop_last(), den);
        let acc = prob_dedup(s.drop_last(), 0, den);
        assert(acc == seq![s.drop_last()[0]]);
        assert(s.drop_last()[0] == s[0]);
        assert(sim_ge(acc[0], s.last(), 0, den)) by {
            let u = union_count(acc[0], s.last());
            if u != 0 {
                vstd::arithmetic::mul::lemma_mul_basics(u as int);
            }
        }
        assert(prob_dedup(s, 0, den) == acc);
    }
}

/// A threshold strictly above 1 merges nothing: no similarity can reach
/// it, so the input passes through unchanged.
pub proof fn lemma_prob_dedup_threshold_above_one(s: Seq<Seq<Seq<char>>>, num: nat, den: nat)
    requires
        den >= 1,
        num > den,
    ensures
        prob_dedup(s, num, den) == s,
    decreases s.len(),
{
    if s.len() > 0 {
        lemma_prob_dedup_threshold_above_one(s.drop_last(), num, den);
        let acc = prob_dedup(s.drop_last(), num, den);
        assert forall|i: int| 0 <= i < acc.len() implies !sim_ge(
            #[trigger] acc[i],
            s.last(),
            num,
            den,
        ) by {
            lemma_sim_never_reaches_above_one(acc[i], s.last(), num, den);
        }
        assert(prob_dedup(s, num, den) =~= s);
    }
}

/// No pair of rows has a similarity reaching a threshold above 1, since
/// the similarity is at most 1.
proof fn lemma_sim_never_reaches_above_one(
    a: Seq<Seq<char>>,
    b: Seq<Seq<char>>,
    num: nat,
    den: nat,
)
    requires
        den >= 1,
        num > den,
    ensures
        !sim_ge(a, b, num, den),
{
    lemma_similarity_bounds(a, b);
    let i = inter_count(a, b);
    let u = union_count(a, b);
    if u != 0 {
        vstd::arithmetic::mul::lemma_mul_inequality(i as int, u as int, den as int);
        vstd::arithmetic::mul::lemma_mul_strict_inequality(den as int, num as int, u as int);
        vstd::arithmetic::mul::lemma_mul_is_commutative(u as int, den as int);
        vstd::arithmetic::mul::lemma_mul_is_commutative(u as int, num as int);
    }
}

} // verus!
