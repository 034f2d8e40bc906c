//! Order statistics on prices and mileages.
use vstd::prelude::*;
use vstd::relations::sorted_by;

verus! {

broadcast use vstd::seq_lib::group_to_multiset_ensures;

pub open spec fn leq_u32() -> spec_fn(u32, u32) -> bool {
    |a: u32, b: u32| a <= b
}

/// The median: the element at position `len / 2`
/// of the values in ascending order (the upper median for even lengths).
pub open spec fn median_of(s: Seq<u32>) -> u32 {
    s.sort_by(leq_u32())[(s.len() / 2) as int]
}

/// The values of `v` in ascending order.
pub fn sorted_copy(v: &Vec<u32>) -> (r: Vec<u32>)
    ensures
        r@ == v@.sort_by(leq_u32()),
{
    let mut out: Vec<u32> = Vec::new();
    let mut i: usize = 0;
    while i < v.len()
        invariant
            i <= v.len(),
            out.len() == i,
            sorted_by(out@, leq_u32()),
            out@.to_multiset() == v@.take(i as int).to_multiset(),
        decreases v.len() - i,
    {
        let x = v[i];
        let mut p: usize = 0;
        while p < out.len() && out[p] <= x
            invariant
                p <= out.len(),
                forall|q: int| 0 <= q < p ==> out@[q] <= x,
            decreases out.len() - p,
        {
            p = p + 1;
        }
        let ghost before = out@;
        out.insert(p, x);
        proof {
            assert(out@ == before.insert(p as int, x));
            assert forall|a: int, b: int| 0 <= a < b < out@.len() implies #[trigger] (leq_u32())(out@[a], out@[b]) by {
                if b < p {
                } else if b == p {
                } else if a < p {
                    assert(out@[b] == before[b - 1]);
                    if a < b - 1 {
                        assert((leq_u32())(before[a], before[b - 1]));
                    }
                } else if a == p {
                    assert(out@[b] == before[b - 1]);
                    assert(p < before.len());
                    assert(before[p as int] > x);
                    if p < b - 1 {
                        assert((leq_u32())(before[p as int], before[b - 1]));
                    }
                } else {
                    assert(out@[a] == before[a - 1]);
                    assert(out@[b] == before[b - 1]);
                    assert((leq_u32())(before[a - 1], before[b - 1]));
                }
            }
            assert(v@.take(i + 1) =~= v@.take(i as int).push(x));
        }
        i = i + 1;
    }
    proof {
        assert(v@.take(v.len() as int) =~= v@);
        v@.lemma_sort_by_ensures(leq_u32());
        vstd::seq_lib::lemma_sorted_unique(out@, v@.sort_by(leq_u32()), leq_u32());
    }
    out
}

/// The median of a non-empty list of values.
pub fn median(values: &Vec<u32>) -> (r: u32)
    requires
        values.len() > 0,
    ensures
        r == median_of(values@),
{
    let sorted = sorted_copy(values);
    proof {
        values@.lemma_sort_by_ensures(leq_u32());
        assert(sorted@.to_multiset().len() == values@.to_multiset().len());
    }
    sorted[sorted.len() / 2]
}

/// Law: the median depends only on which values there are, not on their order.
pub proof fn law_median_ignores_order(a: Seq<u32>, b: Seq<u32>)
    requires
        a.to_multiset() == b.to_multiset(),
    ensures
        median_of(a) == median_of(b),
{
    a.lemma_sort_by_ensures(leq_u32());
    b.lemma_sort_by_ensures(leq_u32());
    vstd::seq_lib::lemma_sorted_unique(a.sort_by(leq_u32()), b.sort_by(leq_u32()), leq_u32());
    assert(a.len() == a.to_multiset().len());
    assert(b.len() == b.to_multiset().len());
}

} // verus!
