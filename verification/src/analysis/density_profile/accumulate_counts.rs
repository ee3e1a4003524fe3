//! Density profiles: which saved frames a profile reads, and which atoms of
//! a frame it counts.
use vstd::prelude::*;

use crate::io::reader::{frames_selected, timestep_of, timestep_of_name};
use crate::text::{same_text, views};

verus! {

/// The names among `names`, in the order given, of saved frames
/// `timestep_<N>.bin` with `lo <= N <= hi`.
pub open spec fn names_in_range(names: Seq<Seq<char>>, lo: int, hi: int) -> Seq<Seq<char>>
    decreases names.len(),
{
    if names.len() == 0 {
        seq![]
    } else {
        let before = names_in_range(names.drop_last(), lo, hi);
        match timestep_of(names.last()) {
            Some(t) => if lo <= t <= hi {
                before.push(names.last())
            } else {
                before
            },
            None => before,
        }
    }
}

/// The lower bound of a profile's frames: `start`, or 1 where none is given.
pub open spec fn range_start(start: Option<usize>) -> int {
    match start {
        Some(s) => s as int,
        None => 1,
    }
}

/// The upper bound of a profile's frames: `end`, or the largest `usize`
/// where none is given.
pub open spec fn range_end(end: Option<usize>) -> int {
    match end {
        Some(e) => e as int,
        None => usize::MAX as int,
    }
}

/// The saved frames among the file names `names` that a density profile
/// reads: `timestep_<N>.bin` with `N` between `start` (1 by default) and
/// `end` (no bound by default), both included, in the order given.
pub fn timestep_files_in_range(names: &Vec<String>, start: Option<usize>, end: Option<usize>) -> (r:
    Vec<String>)
    ensures
        views(r@) == names_in_range(views(names@), range_start(start), range_end(end)),
{
    let lo: usize = match start {
        Some(s) => s,
        None => 1,
    };
    let hi: usize = match end {
        Some(e) => e,
        None => usize::MAX,
    };
    let ghost all = views(names@);
    let mut out: Vec<String> = Vec::new();
    let mut k: usize = 0;
    while k < names.len()
        invariant
            k <= names@.len(),
            all == views(names@),
            lo == range_start(start),
            hi == range_end(end),
            views(out@) == names_in_range(all.take(k as int), lo as int, hi as int),
        decreases names@.len() - k,
    {
        let ghost post = all.take(k + 1);
        assert(post.drop_last() =~= all.take(k as int));
        assert(post.last() == names@[k as int]@);
        let name = &names[k];
        match timestep_of_name(name.as_str()) {
            Some(t) => {
                if lo <= t && t <= hi {
                    let ghost before = out@;
                    out.push(name.clone());
                    assert(views(out@) =~= views(before).push(name@));
                }
            },
            None => {},
        }
        k = k + 1;
    }
    assert(all.take(names@.len() as int) =~= all);
    out
}

/// A density profile reads the frames that the other analyses select with
/// an interval of 1, in the order the names come: the same frame numbers
/// from `lo` to `hi`, both included.
pub proof fn lemma_range_is_interval_one(names: Seq<Seq<char>>, lo: int, hi: int)
    ensures
        names_in_range(names, lo, hi) == frames_selected(names, lo, hi, 1).map_values(
            |e: (int, Seq<char>)| e.1,
        ),
    decreases names.len(),
{
    if names.len() > 0 {
        lemma_range_is_interval_one(names.drop_last(), lo, hi);
        let before = frames_selected(names.drop_last(), lo, hi, 1);
        match timestep_of(names.last()) {
            Some(t) => {
                if lo <= t <= hi {
                    assert((t - lo) % 1 == 0);
                    assert(before.push((t, names.last())).map_values(|e: (int, Seq<char>)| e.1)
                        =~= before.map_values(|e: (int, Seq<char>)| e.1).push(names.last()));
                }
            },
            None => {},
        }
    } else {
        assert(frames_selected(names, lo, hi, 1).map_values(|e: (int, Seq<char>)| e.1) =~= Seq::<Seq<char>>::empty());
    }
}

/// Whether `v` holds `x`.
pub fn holds_index(v: &Vec<i32>, x: i32) -> (r: bool)
    ensures
        r == v@.contains(x),
{
    let mut i: usize = 0;
    while i < v.len()
        invariant
            i <= v@.len(),
            forall|j: int| 0 <= j < i ==> v@[j] != x,
        decreases v@.len() - i,
    {
        if v[i] == x {
            assert(v@[i as int] == x);
            return true;
        }
        i = i + 1;
    }
    false
}

/// The atom numbers a frame is read with: those it carries, or, where it
/// carries none, `1, 2, ...` up to the number of its symbols (as `i32`).
pub open spec fn frame_indices(indices: Option<Seq<i32>>, n_symbols: nat) -> Seq<i32> {
    match indices {
        Some(v) => if v.len() > 0 {
            v
        } else {
            Seq::new(n_symbols, |k: int| (k + 1) as i32)
        },
        None => Seq::new(n_symbols, |k: int| (k + 1) as i32),
    }
}

/// How many atoms a frame yields: its atom numbers, symbols and positions
/// are read side by side up to the shortest of them.
pub open spec fn zipped_len(a: nat, b: nat, c: nat) -> nat {
    if a <= b && a <= c {
        a
    } else if b <= c {
        b
    } else {
        c
    }
}

/// Whether an atom with number `idx` and symbol `sym` is counted: its
/// symbol is the target, and either no whitelist is given or the
/// whitelist holds `idx - 1`.
pub open spec fn atom_counted(idx: i32, sym: Seq<char>, target_symbol: Seq<char>, target_index: Seq<i32>) -> bool {
    sym == target_symbol && (target_index.len() == 0 || target_index.contains((idx - 1) as i32))
}

/// Whether working out `idx - 1` for an atom stays within `i32`: it is
/// only worked out for atoms of the target symbol under a whitelist.
pub open spec fn index_shift_fits(idx: i32, sym: Seq<char>, target_symbol: Seq<char>, target_index: Seq<i32>) -> bool {
    (sym == target_symbol && target_index.len() > 0) ==> idx > i32::MIN
}

/// The positions, among the first `m` atoms, of those counted, in order.
pub open spec fn counted_atoms(
    idx: Seq<i32>,
    syms: Seq<Seq<char>>,
    target_symbol: Seq<char>,
    target_index: Seq<i32>,
    m: int,
) -> Seq<int>
    decreases m,
{
    if m <= 0 {
        seq![]
    } else {
        let before = counted_atoms(idx, syms, target_symbol, target_index, m - 1);
        if atom_counted(idx[m - 1], syms[m - 1], target_symbol, target_index) {
            before.push(m - 1)
        } else {
            before
        }
    }
}

/// The atom numbers a frame carries, by value.
pub open spec fn given_indices(indices: &Option<Vec<i32>>) -> Option<Seq<i32>> {
    match indices {
        Some(v) => Some(v@),
        None => None,
    }
}

/// Whether `idx - 1` stays within `i32` for every atom read side by side
/// whose number it is worked out for.
pub open spec fn shifts_fit(
    given: Option<Seq<i32>>,
    syms: Seq<Seq<char>>,
    n_positions: nat,
    target_symbol: Seq<char>,
    target_index: Seq<i32>,
) -> bool {
    let idx = frame_indices(given, syms.len());
    forall|k: int|
        0 <= k < zipped_len(idx.len(), syms.len(), n_positions) ==> index_shift_fits(
            #[trigger] idx[k],
            syms[k],
            target_symbol,
            target_index,
        )
}

pub open spec fn positions_view(v: Seq<usize>) -> Seq<int> {
    v.map_values(|k: usize| k as int)
}

/// The atoms of a frame whose heights a density profile counts, as
/// positions in the frame's lists: atoms whose symbol is `target_symbol`
/// and, where `target_index` is not empty, whose number less one it holds.
/// Atom numbers are the frame's own, or `1..=n` where it has none; the
/// numbers, `symbols` and the `n_positions` positions are read side by
/// side up to the shortest.
pub fn select_target_atoms(
    indices: &Option<Vec<i32>>,
    symbols: &Vec<String>,
    n_positions: usize,
    target_symbol: &str,
    target_index: &Vec<i32>,
) -> (r: Vec<usize>)
    requires
        shifts_fit(given_indices(indices), views(symbols@), n_positions as nat, target_symbol@, target_index@),
    ensures
        positions_view(r@) == counted_atoms(
            frame_indices(given_indices(indices), symbols@.len()),
            views(symbols@),
            target_symbol@,
            target_index@,
            zipped_len(
                frame_indices(given_indices(indices), symbols@.len()).len(),
                symbols@.len(),
                n_positions as nat,
            ) as int,
        ),
{
    let ghost given = given_indices(indices);
    let mut idx: Vec<i32> = Vec::new();
    let mut use_default = true;
    match indices {
        Some(v) => {
            if v.len() > 0 {
                idx = v.clone();
                use_default = false;
            }
        },
        None => {},
    }
    if use_default {
        let mut i: usize = 0;
        while i < symbols.len()
            invariant
                i <= symbols@.len(),
                idx@.len() == i,
                forall|j: int| 0 <= j < i ==> #[trigger] idx@[j] == (j + 1) as i32,
            decreases symbols@.len() - i,
        {
            idx.push((i + 1) as i32);
            i = i + 1;
        }
    }
    assert(idx@ =~= frame_indices(given, symbols@.len()));
    let ghost syms = views(symbols@);
    let mut m: usize = idx.len();
    if symbols.len() < m {
        m = symbols.len();
    }
    if n_positions < m {
        m = n_positions;
    }
    assert(m == zipped_len(idx@.len(), symbols@.len(), n_positions as nat));
    assert forall|j: int| 0 <= j < m implies index_shift_fits(
        #[trigger] idx@[j],
        symbols@[j]@,
        target_symbol@,
        target_index@,
    ) by {
        let fi = frame_indices(given, symbols@.len());
        assert(idx@ == fi);
        assert(0 <= j < zipped_len(fi.len(), views(symbols@).len(), n_positions as nat));
        assert(index_shift_fits(fi[j], views(symbols@)[j], target_symbol@, target_index@));
        assert(views(symbols@)[j] == symbols@[j]@);
    }
    let mut out: Vec<usize> = Vec::new();
    let mut k: usize = 0;
    while k < m
        invariant
            k <= m,
            m <= idx@.len(),
            m <= symbols@.len(),
            syms == views(symbols@),
            forall|j: int|
                0 <= j < m ==> index_shift_fits(
                    #[trigger] idx@[j],
                    symbols@[j]@,
                    target_symbol@,
                    target_index@,
                ),
            positions_view(out@) == counted_atoms(idx@, syms, target_symbol@, target_index@, k as int),
        decreases m - k,
    {
        let a = idx[k];
        assert(index_shift_fits(idx@[k as int], symbols@[k as int]@, target_symbol@, target_index@));
        assert(syms[k as int] == symbols@[k as int]@);
        let counted = if same_text(symbols[k].as_str(), target_symbol) {
            if target_index.len() == 0 {
                true
            } else {
                holds_index(target_index, a - 1)
            }
        } else {
            false
        };
        if counted {
            let ghost before = out@;
            out.push(k);
            assert(positions_view(out@) =~= positions_view(before).push(k as int));
        }
        k = k + 1;
    }
    out
}

} // verus!
