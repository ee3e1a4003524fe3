//! Real numbers as far as their order goes. A bin edge, a height or an angle
//! enters the library as an order key: `None` for a value that compares false
//! with everything (NaN), otherwise an integer that orders as the value does.
use vstd::prelude::*;

verus! {

/// A value as far as `<` and `<=` go.
pub type OrderKey = Option<i64>;

/// `a <= b` of the values the keys stand for.
pub open spec fn key_le(a: OrderKey, b: OrderKey) -> bool {
    match (a, b) {
        (Some(x), Some(y)) => x <= y,
        _ => false,
    }
}

/// `a < b` of the values the keys stand for.
pub open spec fn key_lt(a: OrderKey, b: OrderKey) -> bool {
    match (a, b) {
        (Some(x), Some(y)) => x < y,
        _ => false,
    }
}

/// `a <= b` of the values the keys stand for.
pub fn le(a: OrderKey, b: OrderKey) -> (r: bool)
    ensures
        r == key_le(a, b),
{
    match (a, b) {
        (Some(x), Some(y)) => x <= y,
        _ => false,
    }
}

/// `a < b` of the values the keys stand for.
pub fn lt(a: OrderKey, b: OrderKey) -> (r: bool)
    ensures
        r == key_lt(a, b),
{
    match (a, b) {
        (Some(x), Some(y)) => x < y,
        _ => false,
    }
}

/// Whether `v` lies in the right-open bin `[bins[i], bins[i + 1])`.
pub open spec fn in_bin(v: OrderKey, bins: Seq<OrderKey>, i: int) -> bool {
    key_le(bins[i], v) && key_lt(v, bins[i + 1])
}

/// The first bin from `from` on that holds `v`, among the `bins.len() - 1`
/// bins that the edges `bins` bound.
pub open spec fn first_bin_from(v: OrderKey, bins: Seq<OrderKey>, from: int) -> Option<int>
    decreases bins.len() - from,
{
    if from < 0 || from + 1 >= bins.len() {
        None
    } else if in_bin(v, bins, from) {
        Some(from)
    } else {
        first_bin_from(v, bins, from + 1)
    }
}

/// The first bin that holds `v`.
pub open spec fn first_bin(v: OrderKey, bins: Seq<OrderKey>) -> Option<int> {
    first_bin_from(v, bins, 0)
}

/// Whether the edges rise strictly.
pub open spec fn strictly_increasing(bins: Seq<OrderKey>) -> bool {
    &&& forall|i: int| 0 <= i < bins.len() ==> bins[i] is Some
    &&& forall|i: int, j: int| 0 <= i < j < bins.len() ==> key_lt(bins[i], bins[j])
}

pub proof fn lemma_first_bin_from_range(v: OrderKey, bins: Seq<OrderKey>, from: int)
    ensures
        first_bin_from(v, bins, from) matches Some(i) ==> from <= i && i + 1 < bins.len()
            && in_bin(v, bins, i) && forall|j: int| from <= j < i ==> !in_bin(v, bins, j),
        first_bin_from(v, bins, from) is None ==> forall|j: int|
            0 <= from <= j && j + 1 < bins.len() ==> !in_bin(v, bins, j),
    decreases bins.len() - from,
{
    if from < 0 || from + 1 >= bins.len() {
    } else if in_bin(v, bins, from) {
    } else {
        lemma_first_bin_from_range(v, bins, from + 1);
    }
}

/// Between strictly rising edges the bins do not overlap: the first bin that
/// holds a value is the one bin whose bounds enclose it.
pub proof fn lemma_first_bin_sorted(v: OrderKey, bins: Seq<OrderKey>, i: int)
    requires
        strictly_increasing(bins),
        0 <= i && i + 1 < bins.len(),
    ensures
        first_bin(v, bins) == Some(i) <==> in_bin(v, bins, i),
{
    lemma_first_bin_from_range(v, bins, 0);
    if in_bin(v, bins, i) {
        match first_bin(v, bins) {
            Some(j) => {
                if j < i {
                    assert(key_lt(bins[j + 1], bins[i]) || j + 1 == i);
                } else if j > i {
                    assert(key_lt(bins[i + 1], bins[j]) || i + 1 == j);
                }
            },
            None => {},
        }
    }
}

/// The bin that holds `v`, the first of those that do.
pub fn find_bin(v: OrderKey, bins: &Vec<OrderKey>) -> (r: Option<usize>)
    ensures
        match r {
            Some(i) => first_bin(v, bins@) == Some(i as int),
            None => first_bin(v, bins@) is None,
        },
{
    let n = bins.len();
    if n == 0 {
        return None;
    }
    let mut i: usize = 0;
    while i + 1 < n
        invariant
            i < n == bins@.len(),
            first_bin(v, bins@) == first_bin_from(v, bins@, i as int),
        decreases n - i,
    {
        if le(bins[i], v) && lt(v, bins[i + 1]) {
            return Some(i);
        }
        i = i + 1;
    }
    None
}

} // verus!
