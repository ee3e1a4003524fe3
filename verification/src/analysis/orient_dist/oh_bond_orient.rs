//! Accumulating per-frame angle histograms along the surface normal.
use vstd::prelude::*;

use crate::utils::histogram::histogram_1d::{bin_count, bin_counts, lemma_bin_count_le_len, lemma_histogram_additive};
use crate::utils::order_key::OrderKey;

verus! {

/// The number of values a frame's groups hold.
pub open spec fn frame_values(groups: Seq<Vec<OrderKey>>) -> nat
    decreases groups.len(),
{
    if groups.len() == 0 {
        0
    } else {
        frame_values(groups.drop_last()) + groups.last()@.len()
    }
}

/// The number of values all frames hold.
pub open spec fn all_values(frames: Seq<Vec<Vec<OrderKey>>>) -> nat
    decreases frames.len(),
{
    if frames.len() == 0 {
        0
    } else {
        all_values(frames.drop_last()) + frame_values(frames.last()@)
    }
}

/// The count of angle bin `j` in normal bin `i`, summed over the frames:
/// each frame's group `i` counted into the angle bins `bins`.
pub open spec fn accumulated(frames: Seq<Vec<Vec<OrderKey>>>, bins: Seq<OrderKey>, i: int, j: int) -> nat
    decreases frames.len(),
{
    if frames.len() == 0 {
        0
    } else {
        accumulated(frames.drop_last(), bins, i, j) + if 0 <= i < frames.last()@.len() && 0 <= j
            < bins.len() - 1 {
            bin_count(frames.last()@[i]@, bins, j)
        } else {
            0
        }
    }
}

/// What frame `frame` adds to entry `[i][j]` of the accumulation.
pub open spec fn frame_count(frame: Vec<Vec<OrderKey>>, bins: Seq<OrderKey>, i: int, j: int) -> nat {
    if 0 <= i < frame@.len() && 0 <= j < bins.len() - 1 {
        bin_count(frame@[i]@, bins, j)
    } else {
        0
    }
}

proof fn lemma_accumulated_remove(frames: Seq<Vec<Vec<OrderKey>>>, bins: Seq<OrderKey>, i: int, j: int, k: int)
    requires
        0 <= k < frames.len(),
    ensures
        accumulated(frames, bins, i, j) == accumulated(frames.remove(k), bins, i, j) + frame_count(
            frames[k],
            bins,
            i,
            j,
        ),
    decreases frames.len(),
{
    if k == frames.len() - 1 {
        assert(frames.remove(k) =~= frames.drop_last());
    } else {
        assert(frames.remove(k).drop_last() =~= frames.drop_last().remove(k));
        assert(frames.remove(k).last() == frames.last());
        lemma_accumulated_remove(frames.drop_last(), bins, i, j, k);
    }
}

/// The order of the frames does not matter: any reordering of the same
/// frames accumulates the same counts.
pub proof fn lemma_accumulated_frame_order(
    frames: Seq<Vec<Vec<OrderKey>>>,
    frames2: Seq<Vec<Vec<OrderKey>>>,
    bins: Seq<OrderKey>,
    i: int,
    j: int,
)
    requires
        frames2.to_multiset() == frames.to_multiset(),
    ensures
        accumulated(frames2, bins, i, j) == accumulated(frames, bins, i, j),
    decreases frames.len(),
{
    broadcast use vstd::seq_lib::group_to_multiset_ensures;

    if frames.len() == 0 {
        assert(frames2.to_multiset().len() == frames2.len());
        assert(frames.to_multiset().len() == frames.len());
        assert(frames2 =~= frames);
    } else {
        let n = frames.len() - 1;
        let x = frames.last();
        assert(frames.contains(x)) by {
            assert(frames[n] == x);
        }
        assert(frames2.to_multiset().count(x) > 0);
        assert(frames2.contains(x));
        let k = choose|k: int| 0 <= k < frames2.len() && frames2[k] == x;
        assert(frames.remove(n) =~= frames.drop_last());
        assert(frames2.remove(k).to_multiset() == frames.drop_last().to_multiset());
        lemma_accumulated_frame_order(frames.drop_last(), frames2.remove(k), bins, i, j);
        lemma_accumulated_remove(frames2, bins, i, j, k);
    }
}

/// Whether accumulating indexes within the result: where a group holds
/// values there is at least one angle edge, and where the edges bound any
/// bin the group is one of the first `n_normal` and the bins are at most
/// `n_angles`.
pub open spec fn accumulation_defined(
    frames: Seq<Vec<Vec<OrderKey>>>,
    n_normal: int,
    bins: Seq<OrderKey>,
    n_angles: int,
) -> bool {
    forall|f: int|
        0 <= f < frames.len() ==> forall|i: int|
            0 <= i < (#[trigger] frames[f])@.len() && frames[f]@[i]@.len() > 0 ==> 1 <= bins.len() && (
            bins.len() >= 2 ==> i < n_normal && bins.len() <= n_angles + 1)
}

proof fn lemma_accumulated_step(
    post: Seq<Vec<Vec<OrderKey>>>,
    bins: Seq<OrderKey>,
    i: int,
    j: int,
)
    requires
        post.len() > 0,
    ensures
        accumulated(post, bins, i, j) == accumulated(post.drop_last(), bins, i, j) + if 0 <= i
            < post.last()@.len() && 0 <= j < bins.len() - 1 {
            bin_count(post.last()@[i]@, bins, j)
        } else {
            0
        },
{
}

proof fn lemma_group_le_frame(groups: Seq<Vec<OrderKey>>, i: int)
    requires
        0 <= i < groups.len(),
    ensures
        groups[i]@.len() <= frame_values(groups),
    decreases groups.len(),
{
    if i < groups.len() - 1 {
        lemma_group_le_frame(groups.drop_last(), i);
        assert(groups.drop_last()[i] == groups[i]);
    }
}

proof fn lemma_accumulated_le(frames: Seq<Vec<Vec<OrderKey>>>, bins: Seq<OrderKey>, i: int, j: int)
    ensures
        accumulated(frames, bins, i, j) <= all_values(frames),
    decreases frames.len(),
{
    if frames.len() > 0 {
        lemma_accumulated_le(frames.drop_last(), bins, i, j);
        if 0 <= i < frames.last()@.len() && 0 <= j < bins.len() - 1 {
            lemma_bin_count_le_len(frames.last()@[i]@, bins, j);
            lemma_group_le_frame(frames.last()@, i);
        }
    }
}

proof fn lemma_all_values_prefix(frames: Seq<Vec<Vec<OrderKey>>>, f: int)
    requires
        0 <= f <= frames.len(),
    ensures
        all_values(frames.take(f)) <= all_values(frames),
    decreases frames.len() - f,
{
    if f < frames.len() {
        lemma_all_values_prefix(frames, f + 1);
        assert(frames.take(f + 1).drop_last() =~= frames.take(f));
    } else {
        assert(frames.take(f) =~= frames);
    }
}

/// Adds up, over the frames, the angle histograms of each normal bin: entry
/// `[i][j]` counts the angles of group `i` of every frame that fall first
/// into angle bin `j` of `bins_angles` (right-open bins). The result has
/// `centers_normal_len` rows of `centers_angles_len` entries, and it is the
/// same for every order of the frames.
pub fn accumulate_angle_bins_along_normal(
    all_angles_bins: Vec<Vec<Vec<OrderKey>>>,
    centers_normal_len: usize,
    bins_angles: Vec<OrderKey>,
    centers_angles_len: usize,
) -> (r: Vec<Vec<usize>>)
    requires
        accumulation_defined(
            all_angles_bins@,
            centers_normal_len as int,
            bins_angles@,
            centers_angles_len as int,
        ),
        all_values(all_angles_bins@) <= usize::MAX,
    ensures
        r@.len() == centers_normal_len,
        forall|i: int| 0 <= i < r@.len() ==> (#[trigger] r@[i])@.len() == centers_angles_len,
        forall|i: int, j: int|
            0 <= i < centers_normal_len && 0 <= j < centers_angles_len ==> #[trigger] r@[i]@[j]
                == accumulated(all_angles_bins@, bins_angles@, i, j),
        forall|reordered: Seq<Vec<Vec<OrderKey>>>, i: int, j: int|
            reordered.to_multiset() == all_angles_bins@.to_multiset() && 0 <= i < centers_normal_len && 0
                <= j < centers_angles_len ==> r@[i]@[j] == #[trigger] accumulated(reordered, bins_angles@, i, j),
{
    let ghost frames = all_angles_bins@;
    let mut acc: Vec<Vec<usize>> = Vec::new();
    while acc.len() < centers_normal_len
        invariant
            acc@.len() <= centers_normal_len,
            forall|i: int|
                0 <= i < acc@.len() ==> (#[trigger] acc@[i])@.len() == centers_angles_len && forall|j: int|
                    0 <= j < centers_angles_len ==> acc@[i]@[j] == 0,
        decreases centers_normal_len - acc@.len(),
    {
        let mut row: Vec<usize> = Vec::new();
        while row.len() < centers_angles_len
            invariant
                row@.len() <= centers_angles_len,
                forall|j: int| 0 <= j < row@.len() ==> row@[j] == 0,
            decreases centers_angles_len - row@.len(),
        {
            row.push(0);
        }
        acc.push(row);
    }
    let mut f: usize = 0;
    while f < all_angles_bins.len()
        invariant
            f <= frames.len(),
            frames == all_angles_bins@,
            accumulation_defined(frames, centers_normal_len as int, bins_angles@, centers_angles_len as int),
            all_values(frames) <= usize::MAX,
            acc@.len() == centers_normal_len,
            forall|i: int| 0 <= i < centers_normal_len ==> (#[trigger] acc@[i])@.len() == centers_angles_len,
            forall|i: int, j: int|
                0 <= i < centers_normal_len && 0 <= j < centers_angles_len ==> #[trigger] acc@[i]@[j]
                    == accumulated(frames.take(f as int), bins_angles@, i, j),
        decreases frames.len() - f,
    {
        let frame = &all_angles_bins[f];
        let ghost pre = frames.take(f as int);
        let ghost post = frames.take(f + 1);
        assert(post.drop_last() =~= pre);
        assert(post.last() == frames[f as int]);
        proof {
            lemma_all_values_prefix(frames, f + 1);
        }
        let mut i: usize = 0;
        while i < frame.len()
            invariant
                i <= frame@.len(),
                *frame == frames[f as int],
                post == frames.take(f + 1),
                pre == frames.take(f as int),
                post.drop_last() == pre,
                post.len() > 0,
                post.last() == frames[f as int],
                all_values(post) <= usize::MAX,
                forall|k: int|
                    0 <= k < frame@.len() && frame@[k]@.len() > 0 ==> 1 <= bins_angles@.len() && (
                    bins_angles@.len() >= 2 ==> k < centers_normal_len && bins_angles@.len()
                        <= centers_angles_len + 1),
                acc@.len() == centers_normal_len,
                forall|k: int| 0 <= k < centers_normal_len ==> (#[trigger] acc@[k])@.len() == centers_angles_len,
                forall|k: int, j: int|
                    0 <= k < centers_normal_len && 0 <= j < centers_angles_len ==> #[trigger] acc@[k]@[j]
                        == if k < i {
                        accumulated(post, bins_angles@, k, j)
                    } else {
                        accumulated(pre, bins_angles@, k, j)
                    },
            decreases frame@.len() - i,
        {
            let group = &frame[i];
            if group.len() > 0 && bins_angles.len() >= 2 {
                let counts = bin_counts(group, &bins_angles);
                let mut j: usize = 0;
                while j < counts.len()
                    invariant
                        j <= counts@.len() == bins_angles@.len() - 1 <= centers_angles_len,
                        i < frame@.len(),
                        i < centers_normal_len,
                        *group == frame@[i as int],
                        *frame == frames[f as int],
                        post == frames.take(f + 1),
                        pre == frames.take(f as int),
                        post.drop_last() == pre,
                        post.len() > 0,
                        post.last() == frames[f as int],
                        all_values(post) <= usize::MAX,
                        forall|b: int| 0 <= b < counts@.len() ==> #[trigger] counts@[b] == bin_count(group@, bins_angles@, b),
                        acc@.len() == centers_normal_len,
                        forall|k: int| 0 <= k < centers_normal_len ==> (#[trigger] acc@[k])@.len() == centers_angles_len,
                        forall|k: int, jj: int|
                            0 <= k < centers_normal_len && 0 <= jj < centers_angles_len ==> #[trigger] acc@[k]@[jj]
                                == if k < i || (k == i && jj < j) {
                                accumulated(post, bins_angles@, k, jj)
                            } else {
                                accumulated(pre, bins_angles@, k, jj)
                            },
                    decreases counts@.len() - j,
                {
                    proof {
                        lemma_accumulated_le(post, bins_angles@, i as int, j as int);
                        lemma_accumulated_step(post, bins_angles@, i as int, j as int);
                    }
                    let before = acc[i][j];
                    let ghost snapshot = acc@;
                    acc[i].set(j, before + counts[j]);
                    assert forall|k: int, jj: int|
                        0 <= k < centers_normal_len && 0 <= jj < centers_angles_len implies #[trigger] acc@[k]@[jj]
                            == if k < i || (k == i && jj < j + 1) {
                            accumulated(post, bins_angles@, k, jj)
                        } else {
                            accumulated(pre, bins_angles@, k, jj)
                        } by {
                        if k != i {
                            assert(acc@[k] == snapshot[k]);
                        } else if jj != j {
                            assert(acc@[k]@[jj] == snapshot[k]@[jj]);
                        }
                    }
                    j = j + 1;
                }
                assert forall|k: int, jj: int|
                    0 <= k < centers_normal_len && 0 <= jj < centers_angles_len implies #[trigger] acc@[k]@[jj]
                        == if k < i + 1 {
                        accumulated(post, bins_angles@, k, jj)
                    } else {
                        accumulated(pre, bins_angles@, k, jj)
                    } by {
                    if k == i && jj >= j {
                        lemma_accumulated_step(post, bins_angles@, k, jj);
                    }
                }
            } else {
                assert forall|k: int, jj: int|
                    0 <= k < centers_normal_len && 0 <= jj < centers_angles_len implies #[trigger] acc@[k]@[jj]
                        == if k < i + 1 {
                        accumulated(post, bins_angles@, k, jj)
                    } else {
                        accumulated(pre, bins_angles@, k, jj)
                    } by {
                    if k == i {
                        lemma_accumulated_step(post, bins_angles@, k, jj);
                        if group@.len() == 0 {
                            assert(bin_count(group@, bins_angles@, jj) == 0);
                        }
                    }
                }
            }
            i = i + 1;
        }
        assert forall|k: int, jj: int|
            0 <= k < centers_normal_len && 0 <= jj < centers_angles_len implies #[trigger] acc@[k]@[jj]
                == accumulated(post, bins_angles@, k, jj) by {
            if k >= frame@.len() {
                lemma_accumulated_step(post, bins_angles@, k, jj);
            }
        }
        f = f + 1;
    }
    assert(frames.take(frames.len() as int) =~= frames);
    assert forall|reordered: Seq<Vec<Vec<OrderKey>>>, i: int, j: int|
        reordered.to_multiset() == frames.to_multiset() && 0 <= i < centers_normal_len && 0 <= j
            < centers_angles_len implies acc@[i]@[j] == #[trigger] accumulated(reordered, bins_angles@, i, j) by {
        lemma_accumulated_frame_order(frames, reordered, bins_angles@, i, j);
    }
    acc
}

/// The values of group `i` of every frame, frame after frame (a frame with
/// no group `i` adds none).
pub open spec fn group_values(frames: Seq<Vec<Vec<OrderKey>>>, i: int) -> Seq<OrderKey>
    decreases frames.len(),
{
    if frames.len() == 0 {
        seq![]
    } else {
        group_values(frames.drop_last(), i) + if 0 <= i < frames.last()@.len() {
            frames.last()@[i]@
        } else {
            seq![]
        }
    }
}

/// Accumulating frame by frame counts what one histogram of all frames'
/// values of a group counts: entry `[i][j]` is the count, in angle bin `j`,
/// of group `i`'s values from every frame together.
pub proof fn lemma_accumulated_is_histogram(frames: Seq<Vec<Vec<OrderKey>>>, bins: Seq<OrderKey>, i: int, j: int)
    requires
        0 <= j < bins.len() - 1,
    ensures
        accumulated(frames, bins, i, j) == bin_count(group_values(frames, i), bins, j),
    decreases frames.len(),
{
    if frames.len() > 0 {
        let before = group_values(frames.drop_last(), i);
        let last: Seq<OrderKey> = if 0 <= i < frames.last()@.len() {
            frames.last()@[i]@
        } else {
            seq![]
        };
        lemma_accumulated_is_histogram(frames.drop_last(), bins, i, j);
        lemma_histogram_additive(before, last, bins, j);
    }
}

} // verus!
