//! Grouping per-molecule values by the height bin of the molecule's oxygen,
//! and counting angle pairs in a grid for chosen height ranges.
use vstd::prelude::*;

use crate::utils::order_key::{find_bin, first_bin, key_le, key_lt, le, lt, OrderKey};

verus! {

/// The payloads of `items` (an oxygen index and a payload each), in order,
/// whose oxygen height `z[o]` falls first into bin `b` of the edges `bins`.
pub open spec fn grouped<T>(items: Seq<(i32, T)>, z: Seq<OrderKey>, bins: Seq<OrderKey>, b: int) -> Seq<
    T,
>
    decreases items.len(),
{
    if items.len() == 0 {
        seq![]
    } else {
        let before = grouped(items.drop_last(), z, bins, b);
        let (o, p) = items.last();
        if first_bin(z[o as int], bins) == Some(b) {
            before.push(p)
        } else {
            before
        }
    }
}

/// Whether every oxygen index of `items` points into `z`.
pub open spec fn indices_in_range<T>(items: Seq<(i32, T)>, z: Seq<OrderKey>) -> bool {
    forall|i: int| 0 <= i < items.len() ==> 0 <= (#[trigger] items[i]).0 < z.len()
}

/// Whether every item that falls into a bin falls into one of the first
/// `n` bins.
pub open spec fn bins_fit<T>(items: Seq<(i32, T)>, z: Seq<OrderKey>, bins: Seq<OrderKey>, n: int) -> bool {
    forall|i: int|
        0 <= i < items.len() ==> (first_bin(z[(#[trigger] items[i]).0 as int], bins) matches Some(b)
            ==> b < n)
}

/// What grouping gives: `n_out` groups, group `b` the payloads that fall
/// into bin `b`; no groups filled where the heights are unknown.
pub open spec fn grouping<T>(
    z: Option<Seq<OrderKey>>,
    items: Seq<(i32, T)>,
    bins: Seq<OrderKey>,
    n_out: int,
) -> Seq<Seq<T>> {
    Seq::new(
        n_out as nat,
        |b: int|
            match z {
                Some(zs) => grouped(items, zs, bins, b),
                None => seq![],
            },
    )
}

/// Whether grouping `items` indexes within the heights and the groups and
/// the edges.
pub open spec fn grouping_defined<T>(
    z: Option<Seq<OrderKey>>,
    items: Seq<(i32, T)>,
    bins: Seq<OrderKey>,
    n_out: int,
) -> bool {
    z matches Some(zs) ==> {
        &&& indices_in_range(items, zs)
        &&& items.len() > 0 ==> bins.len() >= 1
        &&& bins_fit(items, zs, bins, n_out)
    }
}

/// Groups the payloads of `items` by the first bin of `bins` that their
/// oxygen's height falls into; `n_out` groups.
pub fn group_by_bin<T: Copy>(
    z: &Option<Vec<OrderKey>>,
    items: &Vec<(i32, T)>,
    bins: &Vec<OrderKey>,
    n_out: usize,
) -> (r: Vec<Vec<T>>)
    requires
        grouping_defined(
            match z {
                Some(v) => Some(v@),
                None => None,
            },
            items@,
            bins@,
            n_out as int,
        ),
    ensures
        r@.len() == n_out,
        forall|b: int|
            0 <= b < n_out ==> (#[trigger] r@[b])@ == grouping(
                match z {
                    Some(v) => Some(v@),
                    None => None,
                },
                items@,
                bins@,
                n_out as int,
            )[b],
{
    let mut out: Vec<Vec<T>> = Vec::new();
    while out.len() < n_out
        invariant
            out@.len() <= n_out,
            forall|b: int| 0 <= b < out@.len() ==> (#[trigger] out@[b])@ == Seq::<T>::empty(),
        decreases n_out - out@.len(),
    {
        out.push(Vec::new());
    }
    match z {
        None => {},
        Some(zs) => {
            let mut k: usize = 0;
            while k < items.len()
                invariant
                    k <= items@.len(),
                    out@.len() == n_out,
                    indices_in_range(items@, zs@),
                    items@.len() > 0 ==> bins@.len() >= 1,
                    bins_fit(items@, zs@, bins@, n_out as int),
                    forall|b: int|
                        0 <= b < n_out ==> (#[trigger] out@[b])@ == grouped(
                            items@.take(k as int),
                            zs@,
                            bins@,
                            b,
                        ),
                decreases items@.len() - k,
            {
                let (o, p) = items[k];
                let ghost pre = items@.take(k as int);
                let ghost post = items@.take(k + 1);
                assert(post.drop_last() =~= pre);
                assert(post.last() == items@[k as int]);
                assert(0 <= items@[k as int].0 < zs@.len());
                let zo = zs[o as usize];
                match find_bin(zo, bins) {
                    Some(b) => {
                        assert(b < n_out);
                        let ghost before = out@;
                        out[b].push(p);
                        assert forall|c: int| 0 <= c < n_out implies (#[trigger] out@[c])@ == grouped(
                            post,
                            zs@,
                            bins@,
                            c,
                        ) by {
                            if c != b {
                                assert(out@[c] == before[c]);
                            }
                        }
                    },
                    None => {},
                }
                k = k + 1;
            }
            assert(items@.take(items@.len() as int) =~= items@);
        },
    }
    out
}


/// The (oxygen index, angle) items of OH angle records `(o, h, angle)`.
pub open spec fn oh_items<T>(angles: Seq<(i32, i32, T)>) -> Seq<(i32, T)> {
    angles.map_values(|a: (i32, i32, T)| (a.0, a.2))
}

/// The (oxygen index, angle) items of water records `(o, h1, h2, angle)`.
pub open spec fn water_items<T>(angles: Seq<(i32, i32, i32, T)>) -> Seq<(i32, T)> {
    angles.map_values(|a: (i32, i32, i32, T)| (a.0, a.3))
}

/// The (oxygen index, angle pair) items of water records
/// `(o, h1, h2, dipole, hh)`.
pub open spec fn pair_items<T>(angles: Seq<(i32, i32, i32, T, T)>) -> Seq<(i32, (T, T))> {
    angles.map_values(|a: (i32, i32, i32, T, T)| (a.0, (a.3, a.4)))
}

pub open spec fn opt_view(z: &Option<Vec<OrderKey>>) -> Option<Seq<OrderKey>> {
    match z {
        Some(v) => Some(v@),
        None => None,
    }
}

fn oh_pairs<T: Copy>(angles: &Vec<(i32, i32, T)>) -> (r: Vec<(i32, T)>)
    ensures
        r@ == oh_items(angles@),
{
    let mut r: Vec<(i32, T)> = Vec::new();
    let mut k: usize = 0;
    while k < angles.len()
        invariant
            k <= angles@.len(),
            r@ == oh_items(angles@.take(k as int)),
        decreases angles@.len() - k,
    {
        let a = angles[k];
        r.push((a.0, a.2));
        assert(oh_items(angles@.take(k + 1)) =~= oh_items(angles@.take(k as int)).push((a.0, a.2)));
        k = k + 1;
    }
    assert(angles@.take(angles@.len() as int) =~= angles@);
    r
}

fn water_pairs<T: Copy>(angles: &Vec<(i32, i32, i32, T)>) -> (r: Vec<(i32, T)>)
    ensures
        r@ == water_items(angles@),
{
    let mut r: Vec<(i32, T)> = Vec::new();
    let mut k: usize = 0;
    while k < angles.len()
        invariant
            k <= angles@.len(),
            r@ == water_items(angles@.take(k as int)),
        decreases angles@.len() - k,
    {
        let a = angles[k];
        r.push((a.0, a.3));
        assert(water_items(angles@.take(k + 1)) =~= water_items(angles@.take(k as int)).push(
            (a.0, a.3),
        ));
        k = k + 1;
    }
    assert(angles@.take(angles@.len() as int) =~= angles@);
    r
}

fn angle_pairs<T: Copy>(angles: &Vec<(i32, i32, i32, T, T)>) -> (r: Vec<(i32, (T, T))>)
    ensures
        r@ == pair_items(angles@),
{
    let mut r: Vec<(i32, (T, T))> = Vec::new();
    let mut k: usize = 0;
    while k < angles.len()
        invariant
            k <= angles@.len(),
            r@ == pair_items(angles@.take(k as int)),
        decreases angles@.len() - k,
    {
        let a = angles[k];
        r.push((a.0, (a.3, a.4)));
        assert(pair_items(angles@.take(k + 1)) =~= pair_items(angles@.take(k as int)).push(
            (a.0, (a.3, a.4)),
        ));
        k = k + 1;
    }
    assert(angles@.take(angles@.len() as int) =~= angles@);
    r
}

/// Groups OH angles `(o, h, angle)` by the height bin of their oxygen:
/// `centers_normal_len` groups, group `b` the angles, in order, whose
/// oxygen lies first in `[bins_normal[b], bins_normal[b + 1])`. Heights
/// `z[i]` are those of the atoms; with none, every group is empty.
pub fn generate_angle_bins_along_normal<T: Copy>(
    z: &Option<Vec<OrderKey>>,
    angles: &Vec<(i32, i32, T)>,
    bins_normal: &Vec<OrderKey>,
    centers_normal_len: usize,
) -> (r: Vec<Vec<T>>)
    requires
        grouping_defined(opt_view(z), oh_items(angles@), bins_normal@, centers_normal_len as int),
    ensures
        r@.len() == centers_normal_len,
        forall|b: int|
            0 <= b < centers_normal_len ==> (#[trigger] r@[b])@ == grouping(
                opt_view(z),
                oh_items(angles@),
                bins_normal@,
                centers_normal_len as int,
            )[b],
{
    let items = oh_pairs(angles);
    group_by_bin(z, &items, bins_normal, centers_normal_len)
}

/// Groups OH angles by the height bin of their oxygen, as
/// `generate_angle_bins_along_normal` does.
pub fn generate_oh_angle_bins_along_normal<T: Copy>(
    z: &Option<Vec<OrderKey>>,
    angles: &Vec<(i32, i32, T)>,
    bins_normal: &Vec<OrderKey>,
    centers_normal_len: usize,
) -> (r: Vec<Vec<T>>)
    requires
        grouping_defined(opt_view(z), oh_items(angles@), bins_normal@, centers_normal_len as int),
    ensures
        r@.len() == centers_normal_len,
        forall|b: int|
            0 <= b < centers_normal_len ==> (#[trigger] r@[b])@ == grouping(
                opt_view(z),
                oh_items(angles@),
                bins_normal@,
                centers_normal_len as int,
            )[b],
{
    let items = oh_pairs(angles);
    group_by_bin(z, &items, bins_normal, centers_normal_len)
}

/// Groups dipole angles `(o, h1, h2, angle)` by the height bin of their
/// oxygen.
pub fn generate_dipole_angle_bins_along_normal<T: Copy>(
    z: &Option<Vec<OrderKey>>,
    angles: &Vec<(i32, i32, i32, T)>,
    bins_normal: &Vec<OrderKey>,
    centers_normal_len: usize,
) -> (r: Vec<Vec<T>>)
    requires
        grouping_defined(opt_view(z), water_items(angles@), bins_normal@, centers_normal_len as int),
    ensures
        r@.len() == centers_normal_len,
        forall|b: int|
            0 <= b < centers_normal_len ==> (#[trigger] r@[b])@ == grouping(
                opt_view(z),
                water_items(angles@),
                bins_normal@,
                centers_normal_len as int,
            )[b],
{
    let items = water_pairs(angles);
    group_by_bin(z, &items, bins_normal, centers_normal_len)
}

/// Groups the angle pairs `(dipole, hh)` of water records
/// `(o, h1, h2, dipole, hh)` by the height bin of their oxygen; one group per
/// bin of `bins_normal`.
pub fn generate_angle_pair_bins_along_normal<T: Copy>(
    z: &Option<Vec<OrderKey>>,
    angles: &Vec<(i32, i32, i32, T, T)>,
    bins_normal: &Vec<OrderKey>,
) -> (r: Vec<Vec<(T, T)>>)
    requires
        bins_normal@.len() >= 1,
        grouping_defined(opt_view(z), pair_items(angles@), bins_normal@, bins_normal@.len() - 1),
    ensures
        r@.len() == bins_normal@.len() - 1,
        forall|b: int|
            0 <= b < r@.len() ==> (#[trigger] r@[b])@ == grouping(
                opt_view(z),
                pair_items(angles@),
                bins_normal@,
                bins_normal@.len() - 1,
            )[b],
{
    let items = angle_pairs(angles);
    group_by_bin(z, &items, bins_normal, bins_normal.len() - 1)
}

/// Whether `v` lies in one of the right-open ranges `[lo, hi)`.
pub open spec fn in_any_range(v: OrderKey, ranges: Seq<[OrderKey; 2]>) -> bool {
    exists|i: int| 0 <= i < ranges.len() && key_le(ranges[i][0], v) && key_lt(v, ranges[i][1])
}

/// How many records `(o, h1, h2, dipole, hh)` have their oxygen in one of
/// `ranges`, their dipole angle first in bin `ix` of `bins_dipole` and their
/// HH angle first in bin `iy` of `bins_hh`.
pub open spec fn pair_count(
    angles: Seq<(i32, i32, i32, OrderKey, OrderKey)>,
    z: Seq<OrderKey>,
    ranges: Seq<[OrderKey; 2]>,
    bins_dipole: Seq<OrderKey>,
    bins_hh: Seq<OrderKey>,
    ix: int,
    iy: int,
) -> nat
    decreases angles.len(),
{
    if angles.len() == 0 {
        0
    } else {
        let a = angles.last();
        pair_count(angles.drop_last(), z, ranges, bins_dipole, bins_hh, ix, iy) + if in_any_range(
            z[a.0 as int],
            ranges,
        ) && first_bin(a.3, bins_dipole) == Some(ix) && first_bin(a.4, bins_hh) == Some(iy) {
            1nat
        } else {
            0nat
        }
    }
}

pub proof fn lemma_pair_count_le(
    angles: Seq<(i32, i32, i32, OrderKey, OrderKey)>,
    z: Seq<OrderKey>,
    ranges: Seq<[OrderKey; 2]>,
    bins_dipole: Seq<OrderKey>,
    bins_hh: Seq<OrderKey>,
    ix: int,
    iy: int,
)
    ensures
        pair_count(angles, z, ranges, bins_dipole, bins_hh, ix, iy) <= angles.len(),
    decreases angles.len(),
{
    if angles.len() > 0 {
        lemma_pair_count_le(angles.drop_last(), z, ranges, bins_dipole, bins_hh, ix, iy);
    }
}

/// Whether `v` lies in one of `ranges`.
fn in_ranges(v: OrderKey, ranges: &Vec<[OrderKey; 2]>) -> (r: bool)
    ensures
        r == in_any_range(v, ranges@),
{
    let mut i: usize = 0;
    while i < ranges.len()
        invariant
            i <= ranges@.len(),
            forall|j: int|
                0 <= j < i ==> !(key_le(ranges@[j][0], v) && key_lt(v, ranges@[j][1])),
        decreases ranges@.len() - i,
    {
        let range = ranges[i];
        if le(range[0], v) && lt(v, range[1]) {
            return true;
        }
        i = i + 1;
    }
    false
}

/// Counts water records `(o, h1, h2, dipole, hh)` whose oxygen height lies
/// in any of the ranges `z_range` on a grid of angle bins: row `iy` for the HH
/// bins, column `ix` for the dipole bins. Heights `z[i]` are those of the
/// atoms; with none, all counts are 0.
pub fn generate_angle_pair_bins_for_normal_range(
    z: &Option<Vec<OrderKey>>,
    angles: &Vec<(i32, i32, i32, OrderKey, OrderKey)>,
    z_range: &Vec<[OrderKey; 2]>,
    bins_dipole: &Vec<OrderKey>,
    bins_hh: &Vec<OrderKey>,
) -> (r: Vec<Vec<usize>>)
    requires
        z matches Some(zs) ==> forall|i: int|
            0 <= i < angles@.len() ==> 0 <= (#[trigger] angles@[i]).0 < zs@.len(),
    ensures
        r@.len() == if bins_hh@.len() >= 1 {
            bins_hh@.len() - 1
        } else {
            0
        },
        forall|iy: int|
            0 <= iy < r@.len() ==> (#[trigger] r@[iy])@.len() == if bins_dipole@.len() >= 1 {
                bins_dipole@.len() - 1
            } else {
                0
            },
        forall|iy: int, ix: int|
            0 <= iy < r@.len() && 0 <= ix < r@[iy]@.len() ==> #[trigger] r@[iy]@[ix] == match z {
                Some(zs) => pair_count(angles@, zs@, z_range@, bins_dipole@, bins_hh@, ix, iy),
                None => 0,
            },
{
    let n_x = if bins_dipole.len() >= 1 {
        bins_dipole.len() - 1
    } else {
        0
    };
    let n_y = if bins_hh.len() >= 1 {
        bins_hh.len() - 1
    } else {
        0
    };
    let mut grid: Vec<Vec<usize>> = Vec::new();
    while grid.len() < n_y
        invariant
            grid@.len() <= n_y,
            forall|iy: int|
                0 <= iy < grid@.len() ==> (#[trigger] grid@[iy])@.len() == n_x && forall|ix: int|
                    0 <= ix < n_x ==> grid@[iy]@[ix] == 0,
        decreases n_y - grid@.len(),
    {
        let mut row: Vec<usize> = Vec::new();
        while row.len() < n_x
            invariant
                row@.len() <= n_x,
                forall|ix: int| 0 <= ix < row@.len() ==> row@[ix] == 0,
            decreases n_x - row@.len(),
        {
            row.push(0);
        }
        grid.push(row);
    }
    match z {
        None => {},
        Some(zs) => {
            let mut k: usize = 0;
            while k < angles.len()
                invariant
                    k <= angles@.len(),
                    grid@.len() == n_y,
                    n_x == if bins_dipole@.len() >= 1 {
                        bins_dipole@.len() - 1
                    } else {
                        0
                    },
                    n_y == if bins_hh@.len() >= 1 {
                        bins_hh@.len() - 1
                    } else {
                        0
                    },
                    forall|i: int| 0 <= i < angles@.len() ==> 0 <= (#[trigger] angles@[i]).0 < zs@.len(),
                    forall|iy: int| 0 <= iy < n_y ==> (#[trigger] grid@[iy])@.len() == n_x,
                    forall|iy: int, ix: int|
                        0 <= iy < n_y && 0 <= ix < n_x ==> #[trigger] grid@[iy]@[ix] == pair_count(
                            angles@.take(k as int),
                            zs@,
                            z_range@,
                            bins_dipole@,
                            bins_hh@,
                            ix,
                            iy,
                        ),
                decreases angles@.len() - k,
            {
                let a = angles[k];
                let ghost pre = angles@.take(k as int);
                let ghost post = angles@.take(k + 1);
                assert(post.drop_last() =~= pre);
                assert(post.last() == a);
                proof {
                    assert forall|iy: int, ix: int| 0 <= iy < n_y && 0 <= ix < n_x implies pair_count(
                        pre,
                        zs@,
                        z_range@,
                        bins_dipole@,
                        bins_hh@,
                        ix,
                        iy,
                    ) <= k by {
                        lemma_pair_count_le(pre, zs@, z_range@, bins_dipole@, bins_hh@, ix, iy);
                    }
                }
                let zo = zs[a.0 as usize];
                if in_ranges(zo, z_range) {
                    let xb = find_bin(a.3, bins_dipole);
                    let yb = find_bin(a.4, bins_hh);
                    match (xb, yb) {
                        (Some(ix), Some(iy)) => {
                            proof {
                                crate::utils::order_key::lemma_first_bin_from_range(a.3, bins_dipole@, 0);
                                crate::utils::order_key::lemma_first_bin_from_range(a.4, bins_hh@, 0);
                            }
                            let ghost before = grid@;
                            assert(grid@[iy as int]@[ix as int] <= k);
                            let c = grid[iy][ix];
                            grid[iy].set(ix, c + 1);
                            assert forall|y: int, x: int|
                                0 <= y < n_y && 0 <= x < n_x implies #[trigger] grid@[y]@[x] == pair_count(
                                post,
                                zs@,
                                z_range@,
                                bins_dipole@,
                                bins_hh@,
                                x,
                                y,
                            ) by {
                                if y != iy {
                                    assert(grid@[y] == before[y]);
                                }
                            }
                        },
                        _ => {},
                    }
                }
                k = k + 1;
            }
            assert(angles@.take(angles@.len() as int) =~= angles@);
        },
    }
    grid
}

} // verus!
