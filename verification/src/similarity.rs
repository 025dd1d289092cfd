//! The similarity metric: Jaccard overlap of two rows' field sets, and the
//! threshold against which the similarity deduplicator compares it.
//!
//! A similarity score is the rational `|A ∩ B| / |A ∪ B|` where `A` and `B`
//! are the rows' field sets. To keep all arithmetic exact, the metric is
//! handed around as the integer pair (intersection size, union size) and a
//! threshold as an integer fraction; no score is ever rounded.

use vstd::prelude::*;
use crate::errors::DedupeError;

verus! {

/// The fields of a row, read as a set: duplicate values collapse and field
/// position is discarded. This is how the similarity metric sees a row.
pub open spec fn field_set(r: Seq<Seq<char>>) -> Set<Seq<char>> {
    r.to_set()
}

/// Size of the intersection of two rows' field sets.
pub open spec fn inter_count(a: Seq<Seq<char>>, b: Seq<Seq<char>>) -> nat {
    field_set(a).intersect(field_set(b)).len()
}

/// Size of the union of two rows' field sets.
pub open spec fn union_count(a: Seq<Seq<char>>, b: Seq<Seq<char>>) -> nat {
    field_set(a).union(field_set(b)).len()
}

/// "similarity(a, b) >= num / den", stated over integers so that the
/// comparison is exact. The similarity is `inter / union`; when both rows
/// have an empty field set (union empty) the similarity is defined as 0,
/// so only a threshold of 0 classifies such rows as duplicates.
pub open spec fn sim_ge(a: Seq<Seq<char>>, b: Seq<Seq<char>>, num: nat, den: nat) -> bool {
    if union_count(a, b) == 0 {
        num == 0
    } else {
        inter_count(a, b) * den >= num * union_count(a, b)
    }
}

/// A similarity threshold, held as the exact fraction `num / den`.
/// Two rows whose similarity is at least this fraction are classified as
/// duplicates of one another.
#[derive(Clone, Copy, PartialEq, Eq, Structural, Debug)]
pub struct Threshold {
    pub num: u64,
    pub den: u64,
}

impl Threshold {
    /// A threshold is well formed when its denominator is positive, so
    /// that it denotes a fraction at all.
    pub open spec fn wf(self) -> bool {
        self.den >= 1
    }

    /// Validates a caller-supplied fraction at the system boundary:
    /// accepted exactly when it denotes a value in [0, 1].
    pub fn new(num: u64, den: u64) -> (r: Result<Threshold, DedupeError>)
        ensures
            r is Ok <==> den >= 1 && num <= den,
            r matches Ok(t) ==> t.num == num && t.den == den && t.wf(),
            r matches Err(e) ==> e == DedupeError::InvalidThreshold,
    {
        if den >= 1 && num <= den {
            Ok(Threshold { num, den })
        } else {
            Err(DedupeError::InvalidThreshold)
        }
    }
}

/// Whether one of the fields holds the value `x`.
fn field_contains(fields: &Vec<String>, x: &String) -> (r: bool)
    ensures
        r == fields.deep_view().contains(x@),
{
    let mut i: usize = 0;
    while i < fields.len()
        invariant
            i <= fields.len(),
            forall|j: int| 0 <= j < i ==> fields.deep_view()[j] != x@,
        decreases fields.len() - i,
    {
        if fields[i] == *x {
            assert(fields.deep_view()[i as int] == x@);
            return true;
        }
        i += 1;
    }
    false
}

/// Appending an element to a sequence inserts it into the sequence's set.
proof fn lemma_to_set_push<A>(s: Seq<A>, x: A)
    ensures
        s.push(x).to_set() == s.to_set().insert(x),
{
    broadcast use vstd::seq_lib::group_seq_properties;

    assert(s.push(x).to_set() =~= s.to_set().insert(x));
}

/// Appending a fresh element keeps a sequence duplicate-free.
pub(crate) proof fn lemma_no_dup_push<A>(s: Seq<A>, x: A)
    requires
        s.no_duplicates(),
        !s.contains(x),
    ensures
        s.push(x).no_duplicates(),
{
    assert forall|p: int, q: int|
        0 <= p < s.push(x).len() && 0 <= q < s.push(x).len() && p != q implies s.push(x)[p]
        != s.push(x)[q] by {
        if p < s.len() && q < s.len() {
            assert(s[p] != s[q]);
        } else if q == s.len() && s.push(x)[p] == x {
            assert(s[p] == x);
            assert(s.contains(x));
        } else if p == s.len() && s.push(x)[q] == x {
            assert(s[q] == x);
            assert(s.contains(x));
        }
    }
}

/// Gathers the distinct fields of `a` and then of `b` into `uniq`, so that
/// afterwards `uniq` is a duplicate-free enumeration of `extra ∪ fields(src)`.
fn push_distinct_fields(uniq: &mut Vec<String>, src: &Vec<String>)
    requires
        old(uniq).deep_view().no_duplicates(),
    ensures
        final(uniq).deep_view().no_duplicates(),
        final(uniq).deep_view().to_set() == old(uniq).deep_view().to_set().union(
            field_set(src.deep_view()),
        ),
{
    let ghost base = old(uniq).deep_view().to_set();
    let ghost sv = src.deep_view();
    let mut i: usize = 0;
    while i < src.len()
        invariant
            i <= src.len(),
            src.deep_view() == sv,
            base == old(uniq).deep_view().to_set(),
            uniq.deep_view().no_duplicates(),
            uniq.deep_view().to_set() == base.union(sv.take(i as int).to_set()),
        decreases src.len() - i,
    {
        broadcast use vstd::seq_lib::group_seq_properties;

        let ghost pre = uniq.deep_view();
        proof {
            assert(sv.take(i + 1) =~= sv.take(i as int).push(sv[i as int]));
            lemma_to_set_push(sv.take(i as int), sv[i as int]);
        }
        let present = field_contains(uniq, &src[i]);
        if !present {
            let x = src[i].clone();
            uniq.push(x);
            proof {
                assert(uniq.deep_view() =~= pre.push(sv[i as int]));
                lemma_to_set_push(pre, sv[i as int]);
                lemma_no_dup_push(pre, sv[i as int]);
                assert(uniq.deep_view().to_set() =~= base.union(sv.take(i + 1).to_set()));
            }
        } else {
            proof {
                assert(pre.to_set().contains(sv[i as int]));
                assert(uniq.deep_view().to_set() =~= base.union(sv.take(i + 1).to_set()));
            }
        }
        i += 1;
    }
    proof {
        assert(sv.take(src.len() as int) =~= sv);
    }
}

/// Jaccard similarity of two rows, returned as the exact pair
/// (intersection size, union size) of their field sets. The similarity
/// score is the rational `r.0 / r.1`, with the empty 0/0 case read as 0.
pub fn jaccard_similarity(a: &Vec<String>, b: &Vec<String>) -> (r: (usize, usize))
    ensures
        r.0 == inter_count(a.deep_view(), b.deep_view()),
        r.1 == union_count(a.deep_view(), b.deep_view()),
{
    let ghost av = a.deep_view();
    let ghost bv = b.deep_view();
    let ghost inter_set = field_set(av).intersect(field_set(bv));

    let mut uniq: Vec<String> = Vec::new();
    proof {
        assert(uniq.deep_view().to_set() =~= Set::<Seq<char>>::empty());
    }
    push_distinct_fields(&mut uniq, a);
    proof {
        assert(uniq.deep_view().to_set() =~= field_set(av));
    }
    push_distinct_fields(&mut uniq, b);
    proof {
        assert(uniq.deep_view().to_set() =~= field_set(av).union(field_set(bv)));
        uniq.deep_view().unique_seq_to_set();
    }
    let union_size = uniq.len();

    let ghost uv = uniq.deep_view();
    proof {
        assert(uv.take(0).to_set() =~= Set::<Seq<char>>::empty());
        assert(inter_set.intersect(uv.take(0).to_set()) =~= Set::<Seq<char>>::empty());
    }
    let mut inter: usize = 0;
    let mut k: usize = 0;
    while k < uniq.len()
        invariant
            k <= uniq.len(),
            inter <= k,
            uniq.deep_view() == uv,
            a.deep_view() == av,
            b.deep_view() == bv,
            uv.no_duplicates(),
            inter_set == field_set(av).intersect(field_set(bv)),
            inter == inter_set.intersect(uv.take(k as int).to_set()).len(),
        decreases uniq.len() - k,
    {
        broadcast use vstd::seq_lib::group_seq_properties;
        broadcast use vstd::seq_lib::seq_to_set_is_finite;

        let ghost x = uv[k as int];
        proof {
            assert(uv.take(k + 1) =~= uv.take(k as int).push(x));
            lemma_to_set_push(uv.take(k as int), x);
            // x is fresh among the first k elements, since uniq has no duplicates
            assert(!uv.take(k as int).to_set().contains(x)) by {
                if uv.take(k as int).contains(x) {
                    let j = choose|j: int| 0 <= j < k && uv.take(k as int)[j] == x;
                    assert(uv[j] == uv[k as int]);
                }
            }
        }
        let in_a = field_contains(a, &uniq[k]);
        let in_b = field_contains(b, &uniq[k]);
        if in_a && in_b {
            proof {
                assert(inter_set.contains(x));
                assert(inter_set.intersect(uv.take(k + 1).to_set()) =~= inter_set.intersect(
                    uv.take(k as int).to_set(),
                ).insert(x));
                assert(!inter_set.intersect(uv.take(k as int).to_set()).contains(x));
            }
            inter = inter + 1;
        } else {
            proof {
                assert(!inter_set.contains(x));
                assert(inter_set.intersect(uv.take(k + 1).to_set()) =~= inter_set.intersect(
                    uv.take(k as int).to_set(),
                ));
            }
        }
        k += 1;
    }
    proof {
        broadcast use vstd::seq_lib::seq_to_set_is_finite;

        assert(uv.take(uniq.len() as int) =~= uv);
        assert(inter_set.intersect(uv.to_set()) =~= inter_set);
    }
    (inter, union_size)
}

/// The similarity metric is symmetric: both counts are unchanged when the
/// two rows are swapped, so similarity(a, b) == similarity(b, a).
pub proof fn lemma_similarity_symmetric(a: Seq<Seq<char>>, b: Seq<Seq<char>>)
    ensures
        inter_count(a, b) == inter_count(b, a),
        union_count(a, b) == union_count(b, a),
        forall|num: nat, den: nat| sim_ge(a, b, num, den) == sim_ge(b, a, num, den),
{
    assert(field_set(a).intersect(field_set(b)) =~= field_set(b).intersect(field_set(a)));
    assert(field_set(a).union(field_set(b)) =~= field_set(b).union(field_set(a)));
}

/// The similarity metric is bounded by [0, 1]: the intersection is never
/// larger than the union. A row compared with itself has intersection
/// equal to union, and both are nonempty when the row has a field, so
/// similarity(a, a) == 1 for any nonempty row.
pub proof fn lemma_similarity_bounds(a: Seq<Seq<char>>, b: Seq<Seq<char>>)
    ensures
        inter_count(a, b) <= union_count(a, b),
        inter_count(a, a) == union_count(a, a),
        a.len() > 0 ==> union_count(a, a) > 0,
{
    broadcast use vstd::seq_lib::seq_to_set_is_finite;

    let i = field_set(a).intersect(field_set(b));
    let u = field_set(a).union(field_set(b));
    vstd::set_lib::lemma_len_subset(i, u);
    assert(field_set(a).intersect(field_set(a)) =~= field_set(a).union(field_set(a)));
    if a.len() > 0 {
        a.lemma_cardinality_of_empty_set_is_0();
        assert(field_set(a).union(field_set(a)) =~= field_set(a));
    }
}

/// A nonempty row always matches itself at any threshold that denotes a
/// fraction not above 1: its self-similarity is exactly 1.
pub proof fn lemma_self_similar(a: Seq<Seq<char>>, num: nat, den: nat)
    requires
        1 <= den,
        num <= den,
        a.len() > 0,
    ensures
        sim_ge(a, a, num, den),
{
    lemma_similarity_bounds(a, a);
    let u = union_count(a, a);
    vstd::arithmetic::mul::lemma_mul_inequality(num as int, den as int, u as int);
    vstd::arithmetic::mul::lemma_mul_is_commutative(num as int, u as int);
    vstd::arithmetic::mul::lemma_mul_is_commutative(den as int, u as int);
}

} // verus!
