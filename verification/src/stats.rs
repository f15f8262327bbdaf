use vstd::prelude::*;

verus! {

/// Sum of all samples, as an unbounded integer.
pub open spec fn sum_of(s: Seq<u64>) -> int
    decreases s.len(),
{
    if s.len() == 0 {
        0
    } else {
        sum_of(s.drop_last()) + s.last()
    }
}

/// Smallest sample of a non-empty sample set.
pub open spec fn min_of(s: Seq<u64>) -> u64
    recommends
        s.len() > 0,
    decreases s.len(),
{
    if s.len() <= 1 {
        s.last()
    } else if s.last() < min_of(s.drop_last()) {
        s.last()
    } else {
        min_of(s.drop_last())
    }
}

/// Largest sample of a non-empty sample set.
pub open spec fn max_of(s: Seq<u64>) -> u64
    recommends
        s.len() > 0,
    decreases s.len(),
{
    if s.len() <= 1 {
        s.last()
    } else if s.last() > max_of(s.drop_last()) {
        s.last()
    } else {
        max_of(s.drop_last())
    }
}

/// The minimum is attained by some sample and bounds every sample from
/// below; the maximum is attained and bounds every sample from above.
pub proof fn lemma_min_max_of(s: Seq<u64>)
    requires
        s.len() > 0,
    ensures
        s.contains(min_of(s)),
        s.contains(max_of(s)),
        forall|i: int| 0 <= i < s.len() ==> min_of(s) <= #[trigger] s[i] <= max_of(s),
    decreases s.len(),
{
    if s.len() == 1 {
        assert(s[0] == s.last());
    } else {
        let d = s.drop_last();
        lemma_min_max_of(d);
        assert(forall|i: int| 0 <= i < d.len() ==> d[i] == s[i]);
        let j = choose|j: int| 0 <= j < d.len() && d[j] == min_of(d);
        let k = choose|k: int| 0 <= k < d.len() && d[k] == max_of(d);
        if s.last() < min_of(d) {
            assert(s[s.len() - 1] == min_of(s));
        } else {
            assert(s[j] == min_of(s));
        }
        if s.last() > max_of(d) {
            assert(s[s.len() - 1] == max_of(s));
        } else {
            assert(s[k] == max_of(s));
        }
    }
}

/// The sum of a sample set lies between `len * lo` and `len * hi` for any
/// bounds `lo`, `hi` that enclose every sample.
pub proof fn lemma_sum_of_bounds(s: Seq<u64>, lo: int, hi: int)
    requires
        forall|i: int| 0 <= i < s.len() ==> lo <= #[trigger] s[i] <= hi,
    ensures
        s.len() * lo <= sum_of(s) <= s.len() * hi,
    decreases s.len(),
{
    if s.len() == 0 {
    } else {
        let d = s.drop_last();
        assert(forall|i: int| 0 <= i < d.len() ==> lo <= #[trigger] d[i] <= hi) by {
            assert(forall|i: int| 0 <= i < d.len() ==> d[i] == s[i]);
        }
        lemma_sum_of_bounds(d, lo, hi);
        assert(lo <= s[s.len() - 1] <= hi);
        assert(d.len() * lo + lo == s.len() * lo) by (nonlinear_arith)
            requires
                d.len() == s.len() - 1,
        ;
        assert(d.len() * hi + hi == s.len() * hi) by (nonlinear_arith)
            requires
                d.len() == s.len() - 1,
        ;
    }
}

/// Removing the sample at index `i` lowers the sum by exactly that sample.
pub proof fn lemma_sum_of_remove(s: Seq<u64>, i: int)
    requires
        0 <= i < s.len(),
    ensures
        sum_of(s.remove(i)) == sum_of(s) - s[i],
    decreases s.len(),
{
    if i == s.len() - 1 {
        assert(s.remove(i) =~= s.drop_last());
    } else {
        let d = s.drop_last();
        assert(s.remove(i).drop_last() =~= d.remove(i));
        assert(s.remove(i).last() == s.last());
        lemma_sum_of_remove(d, i);
        assert(d[i] == s[i]);
    }
}

/// The sum of a sample set depends only on which samples occur how often,
/// not on their order: two sample sets with equal multisets have equal
/// sums (and equal lengths).
pub proof fn lemma_sum_of_reorder(a: Seq<u64>, b: Seq<u64>)
    requires
        a.to_multiset() == b.to_multiset(),
    ensures
        a.len() == b.len(),
        sum_of(a) == sum_of(b),
    decreases a.len(),
{
    broadcast use vstd::seq_lib::group_to_multiset_ensures;

    if a.len() == 0 {
        assert(b.to_multiset().len() == 0);
    } else {
        let x = a.last();
        let i = a.len() - 1;
        assert(a[i] == x);
        assert(a.to_multiset().count(x) > 0);
        assert(b.contains(x));
        let j = choose|j: int| 0 <= j < b.len() && b[j] == x;
        assert(a.remove(i).to_multiset() == a.to_multiset().remove(x));
        assert(b.remove(j).to_multiset() == b.to_multiset().remove(x));
        assert(a.remove(i) =~= a.drop_last());
        lemma_sum_of_reorder(a.drop_last(), b.remove(j));
        lemma_sum_of_remove(b, j);
    }
}

} // verus!
