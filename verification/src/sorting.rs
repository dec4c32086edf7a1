//! Deterministic orders used by the ordering strategies, with verified
//! insertion sorts whose results equal the specification-level sorts.

use vstd::prelude::*;
use vstd::relations::{sorted_by, total_ordering};
use vstd::seq_lib::lemma_sorted_unique;

verus! {

/// Numeric order on identifiers.
pub open spec fn id_leq() -> spec_fn(u64, u64) -> bool {
    |a: u64, b: u64| a <= b
}

/// Lexicographic order on identifier pairs: by first component, then by
/// second.
pub open spec fn pair_leq() -> spec_fn((u64, u64), (u64, u64)) -> bool {
    |a: (u64, u64), b: (u64, u64)| a.0 < b.0 || (a.0 == b.0 && a.1 <= b.1)
}

pub proof fn lemma_id_leq_total()
    ensures
        total_ordering(id_leq()),
{
}

pub proof fn lemma_pair_leq_total()
    ensures
        total_ordering(pair_leq()),
{
    assert forall|a: (u64, u64), b: (u64, u64)|
        #[trigger] pair_leq()(a, b) && #[trigger] pair_leq()(b, a) implies a == b by {
        assert(a.0 == b.0 && a.1 == b.1);
    }
}

/// Sorts identifiers into numeric order; the result is exactly the
/// specification-level sort of the input.
pub fn sort_ids(v: &Vec<u64>) -> (r: Vec<u64>)
    ensures
        r@ == v@.sort_by(id_leq()),
        sorted_by(r@, id_leq()),
{
    let mut r: Vec<u64> = Vec::new();
    let mut i: usize = 0;
    proof {
        assert(v@.take(0) =~= r@);
    }
    while i < v.len()
        invariant
            i <= v@.len(),
            sorted_by(r@, id_leq()),
            r@.to_multiset() == v@.take(i as int).to_multiset(),
        decreases v@.len() - i,
    {
        let x = v[i];
        let mut j: usize = 0;
        while j < r.len() && r[j] <= x
            invariant
                j <= r@.len(),
                forall|k: int| 0 <= k < j ==> r@[k] <= x,
            decreases r@.len() - j,
        {
            j += 1;
        }
        let ghost old_r = r@;
        r.insert(j, x);
        proof {
            old_r.insert_ensures(j as int, x);
            assert(sorted_by(r@, id_leq())) by {
                assert forall|p: int, q: int|
                    0 <= p < q < r@.len() implies #[trigger] id_leq()(r@[p], r@[q]) by {
                    if q < j {
                    } else if p < j && q == j {
                        assert(r@[p] == old_r[p] && r@[q] == x);
                    } else if p < j && q > j {
                        assert(r@[p] == old_r[p] && r@[q] == old_r[q - 1]);
                        if q - 1 >= j {
                            if j < old_r.len() {
                                assert(!(old_r[j as int] <= x));
                            }
                        }
                    } else if p == j {
                        assert(r@[p] == x && r@[q] == old_r[q - 1]);
                        assert(!(old_r[j as int] <= x));
                        assert(id_leq()(old_r[j as int], old_r[q - 1]) || q - 1 == j);
                    } else {
                        assert(r@[p] == old_r[p - 1] && r@[q] == old_r[q - 1]);
                    }
                }
            }
            vstd::seq_lib::to_multiset_insert(old_r, j as int, x);
            assert(v@.take(i + 1) =~= v@.take(i as int).push(x));
            vstd::seq_lib::to_multiset_build(v@.take(i as int), x);
        }
        i += 1;
    }
    proof {
        assert(v@.take(v@.len() as int) =~= v@);
        lemma_id_leq_total();
        v@.lemma_sort_by_ensures(id_leq());
        lemma_sorted_unique(r@, v@.sort_by(id_leq()), id_leq());
    }
    r
}

/// Sorts identifier pairs into lexicographic order; the result is exactly
/// the specification-level sort of the input.
pub fn sort_pairs(v: &Vec<(u64, u64)>) -> (r: Vec<(u64, u64)>)
    ensures
        r@ == v@.sort_by(pair_leq()),
        sorted_by(r@, pair_leq()),
{
    let mut r: Vec<(u64, u64)> = Vec::new();
    let mut i: usize = 0;
    proof {
        assert(v@.take(0) =~= r@);
    }
    while i < v.len()
        invariant
            i <= v@.len(),
            sorted_by(r@, pair_leq()),
            r@.to_multiset() == v@.take(i as int).to_multiset(),
        decreases v@.len() - i,
    {
        let x = v[i];
        let mut j: usize = 0;
        while j < r.len() && (r[j].0 < x.0 || (r[j].0 == x.0 && r[j].1 <= x.1))
            invariant
                j <= r@.len(),
                forall|k: int| 0 <= k < j ==> #[trigger] pair_leq()(r@[k], x),
            decreases r@.len() - j,
        {
            j += 1;
        }
        let ghost old_r = r@;
        proof {
            if j < r@.len() {
                assert(!pair_leq()(r@[j as int], x));
            }
        }
        r.insert(j, x);
        proof {
            lemma_pair_leq_total();
            old_r.insert_ensures(j as int, x);
            assert(sorted_by(r@, pair_leq())) by {
                assert forall|p: int, q: int|
                    0 <= p < q < r@.len() implies #[trigger] pair_leq()(r@[p], r@[q]) by {
                    if q < j {
                    } else if p < j && q == j {
                        assert(r@[p] == old_r[p] && r@[q] == x);
                    } else if p < j && q > j {
                        assert(r@[p] == old_r[p] && r@[q] == old_r[q - 1]);
                        if q - 1 == j {
                            assert(!pair_leq()(old_r[j as int], x));
                            assert(pair_leq()(x, old_r[j as int]));
                            assert(pair_leq()(r@[p], x));
                        }
                    } else if p == j {
                        assert(r@[p] == x && r@[q] == old_r[q - 1]);
                        assert(!pair_leq()(old_r[j as int], x));
                        assert(pair_leq()(x, old_r[j as int]));
                        if q - 1 > j {
                            assert(pair_leq()(old_r[j as int], old_r[q - 1]));
                        }
                    } else {
                        assert(r@[p] == old_r[p - 1] && r@[q] == old_r[q - 1]);
                    }
                }
            }
            vstd::seq_lib::to_multiset_insert(old_r, j as int, x);
            assert(v@.take(i + 1) =~= v@.take(i as int).push(x));
            vstd::seq_lib::to_multiset_build(v@.take(i as int), x);
        }
        i += 1;
    }
    proof {
        assert(v@.take(v@.len() as int) =~= v@);
        lemma_pair_leq_total();
        v@.lemma_sort_by_ensures(pair_leq());
        lemma_sorted_unique(r@, v@.sort_by(pair_leq()), pair_leq());
    }
    r
}

} // verus!
