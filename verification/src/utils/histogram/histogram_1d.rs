use vstd::prelude::*;

use crate::utils::order_key::{
    find_bin, first_bin, in_bin, lemma_first_bin_from_range, lemma_first_bin_sorted,
    strictly_increasing, OrderKey,
};

verus! {

/// How many of `data` fall first into bin `b` of the edges `bins`.
pub open spec fn bin_count(data: Seq<OrderKey>, bins: Seq<OrderKey>, b: int) -> nat
    decreases data.len(),
{
    if data.len() == 0 {
        0
    } else {
        bin_count(data.drop_last(), bins, b) + if first_bin(data.last(), bins) == Some(b) {
            1nat
        } else {
            0nat
        }
    }
}

/// How many of `data` fall into some bin of the edges `bins`.
pub open spec fn binned_count(data: Seq<OrderKey>, bins: Seq<OrderKey>) -> nat
    decreases data.len(),
{
    if data.len() == 0 {
        0
    } else {
        binned_count(data.drop_last(), bins) + if first_bin(data.last(), bins) is Some {
            1nat
        } else {
            0nat
        }
    }
}

/// The counts of `data` in the right-open bins `[bins[i], bins[i + 1])`,
/// each value counted in the first bin that holds it.
pub fn bin_counts(data: &Vec<OrderKey>, bins: &Vec<OrderKey>) -> (r: Vec<usize>)
    requires
        bins@.len() >= 1,
    ensures
        r@.len() == bins@.len() - 1,
        forall|b: int| 0 <= b < r@.len() ==> #[trigger] r@[b] == bin_count(data@, bins@, b),
{
    let nb = bins.len() - 1;
    let mut counts: Vec<usize> = Vec::new();
    while counts.len() < nb
        invariant
            counts@.len() <= nb,
            forall|b: int| 0 <= b < counts@.len() ==> #[trigger] counts@[b] == 0,
        decreases nb - counts@.len(),
    {
        counts.push(0);
    }
    let mut k: usize = 0;
    while k < data.len()
        invariant
            k <= data@.len(),
            nb + 1 == bins@.len(),
            counts@.len() == nb,
            forall|b: int|
                0 <= b < nb ==> #[trigger] counts@[b] == bin_count(data@.take(k as int), bins@, b),
        decreases data@.len() - k,
    {
        let ghost pre = data@.take(k as int);
        let ghost post = data@.take(k + 1);
        assert(post.drop_last() =~= pre);
        match find_bin(data[k], bins) {
            Some(i) => {
                proof {
                    lemma_first_bin_from_range(data@[k as int], bins@, 0);
                    lemma_bin_count_le_len(pre, bins@, i as int);
                }
                let c = counts[i];
                counts.set(i, c + 1);
            },
            None => {},
        }
        k = k + 1;
    }
    assert(data@.take(data@.len() as int) =~= data@);
    counts
}

/// The counts of `data` in the right-open bins `[bins[i], bins[i + 1])`, each
/// value counted in the first bin that holds it; values in no bin (below,
/// above, or NaN) are not counted. Gives the edges back beside the counts.
pub fn histogram_1d(data: Vec<OrderKey>, bins: Vec<OrderKey>) -> (r: (Vec<usize>, Vec<OrderKey>))
    requires
        bins@.len() >= 1,
    ensures
        r.0@.len() == bins@.len() - 1,
        forall|b: int| 0 <= b < r.0@.len() ==> #[trigger] r.0@[b] == bin_count(data@, bins@, b),
        r.1@ == bins@,
{
    let counts = bin_counts(&data, &bins);
    (counts, bins)
}

pub proof fn lemma_bin_count_le(data: Seq<OrderKey>, bins: Seq<OrderKey>)
    ensures
        forall|b: int| #[trigger] bin_count(data, bins, b) <= data.len(),
    decreases data.len(),
{
    if data.len() > 0 {
        lemma_bin_count_le(data.drop_last(), bins);
        assert forall|b: int| #[trigger] bin_count(data, bins, b) <= data.len() by {
            assert(bin_count(data.drop_last(), bins, b) <= data.drop_last().len());
        }
    }
}

pub proof fn lemma_bin_count_le_len(data: Seq<OrderKey>, bins: Seq<OrderKey>, b: int)
    ensures
        bin_count(data, bins, b) <= data.len(),
{
    lemma_bin_count_le(data, bins);
}

/// The sum of the counts of the first `n` bins.
pub open spec fn count_sum(data: Seq<OrderKey>, bins: Seq<OrderKey>, n: int) -> nat
    decreases n,
{
    if n <= 0 {
        0
    } else {
        count_sum(data, bins, n - 1) + bin_count(data, bins, n - 1)
    }
}

/// How many of `data` lie in bin `b`, by its bounds alone.
pub open spec fn in_bin_count(data: Seq<OrderKey>, bins: Seq<OrderKey>, b: int) -> nat
    decreases data.len(),
{
    if data.len() == 0 {
        0
    } else {
        in_bin_count(data.drop_last(), bins, b) + if in_bin(data.last(), bins, b) {
            1nat
        } else {
            0nat
        }
    }
}

/// Counting is additive: the counts of two runs of data together are the
/// sums of their counts. (So data gathered from several frames may be
/// counted frame by frame.)
pub proof fn lemma_histogram_additive(a: Seq<OrderKey>, b: Seq<OrderKey>, bins: Seq<OrderKey>, k: int)
    ensures
        bin_count(a + b, bins, k) == bin_count(a, bins, k) + bin_count(b, bins, k),
    decreases b.len(),
{
    if b.len() == 0 {
        assert(a + b =~= a);
    } else {
        assert((a + b).drop_last() =~= a + b.drop_last());
        assert((a + b).last() == b.last());
        lemma_histogram_additive(a, b.drop_last(), bins, k);
    }
}

proof fn lemma_indicator_sum(x: OrderKey, data: Seq<OrderKey>, bins: Seq<OrderKey>, n: int)
    requires
        data.len() > 0,
        x == data.last(),
    ensures
        count_sum(data, bins, n) == count_sum(data.drop_last(), bins, n) + if first_bin(x, bins) matches Some(b) && b < n {
            1nat
        } else {
            0nat
        },
    decreases n,
{
    if n > 0 {
        lemma_indicator_sum(x, data, bins, n - 1);
    } else {
        lemma_first_bin_from_range(x, bins, 0);
    }
}

/// Every value is counted at most once: the counts add up to the number of
/// values that fall into some bin, which is at most the number of values.
pub proof fn lemma_counts_sum(data: Seq<OrderKey>, bins: Seq<OrderKey>)
    requires
        bins.len() >= 1,
    ensures
        count_sum(data, bins, bins.len() - 1) == binned_count(data, bins),
        binned_count(data, bins) <= data.len(),
    decreases data.len(),
{
    if data.len() > 0 {
        lemma_counts_sum(data.drop_last(), bins);
        lemma_indicator_sum(data.last(), data, bins, bins.len() - 1);
        lemma_first_bin_from_range(data.last(), bins, 0);
    } else {
        lemma_count_sum_empty(data, bins, bins.len() - 1);
    }
}

proof fn lemma_count_sum_empty(data: Seq<OrderKey>, bins: Seq<OrderKey>, n: int)
    requires
        data.len() == 0,
    ensures
        count_sum(data, bins, n) == 0,
    decreases n,
{
    if n > 0 {
        lemma_count_sum_empty(data, bins, n - 1);
    }
}

/// With strictly rising edges, a bin counts exactly the values between its
/// bounds.
pub proof fn lemma_counts_sorted_bins(data: Seq<OrderKey>, bins: Seq<OrderKey>, b: int)
    requires
        strictly_increasing(bins),
        0 <= b && b + 1 < bins.len(),
    ensures
        bin_count(data, bins, b) == in_bin_count(data, bins, b),
    decreases data.len(),
{
    if data.len() > 0 {
        lemma_counts_sorted_bins(data.drop_last(), bins, b);
        lemma_first_bin_sorted(data.last(), bins, b);
    }
}

} // verus!
