//! The hydrogen-bond search of a frame: the search's conditions, the cell
//! list that finds the oxygens near a donor, and how the bonds found are
//! attached to their molecules.
use vstd::prelude::*;

use crate::analysis::hbond::statistics::opt_str_view;
use crate::analysis::types::enums::HBondKind;
use crate::analysis::types::molecule::HydrogenBondPartner;

verus! {

/// Why the conditions of a hydrogen-bond search are refused.
#[derive(Debug, Clone, Copy, PartialEq, Eq, Structural)]
pub enum HbConditionsError {
    /// The conditions are not the three `[rOO_max, rHO_max, ang_max]`.
    WrongLength,
}

/// The three conditions of a search, `[rOO_max, rHO_max, ang_max]`; any
/// other number of them is refused.
pub fn hb_conditions_of<T: Copy>(conditions: &Vec<T>) -> (r: Result<(T, T, T), HbConditionsError>)
    ensures
        conditions@.len() == 3 <==> r is Ok,
        r matches Ok(c) ==> c == (conditions@[0], conditions@[1], conditions@[2]),
{
    if conditions.len() != 3 {
        return Err(HbConditionsError::WrongLength);
    }
    Ok((conditions[0], conditions[1], conditions[2]))
}

/// A cell of the search grid, by its three integer coordinates.
pub type CellKey = (i32, i32, i32);

/// `x % g` as integer `%` computes it: the remainder takes the sign of `x`.
pub open spec fn rem_toward_zero(x: int, g: int) -> int {
    let m = if g < 0 {
        -g
    } else {
        g
    };
    if x >= 0 {
        x % m
    } else {
        -((-x) % m)
    }
}

/// The offset `d` from coordinate `c` on a periodic axis of `g` cells:
/// `(c + d + g) % g`.
pub open spec fn wrapped(c: int, d: int, g: int) -> int {
    rem_toward_zero(c + d + g, g)
}

/// Whether stepping by `-1, 0, 1` from coordinate `c` on an axis of `g`
/// cells stays within `i32`: `g` is not zero, `c + d` and `c + d + g` fit,
/// and the remainder does not overflow (`i32::MIN % -1`).
pub open spec fn axis_searchable(c: int, g: int) -> bool {
    &&& g != 0
    &&& i32::MIN <= c - 1
    &&& c + 1 <= i32::MAX
    &&& i32::MIN <= c + g - 1
    &&& c + g + 1 <= i32::MAX
    &&& g == -1 ==> c + g - 1 > i32::MIN
}

/// Whether a cell and grid can be searched around on every axis.
pub open spec fn searchable(cell: CellKey, dims: [i32; 3]) -> bool {
    &&& axis_searchable(cell.0 as int, dims[0] as int)
    &&& axis_searchable(cell.1 as int, dims[1] as int)
    &&& axis_searchable(cell.2 as int, dims[2] as int)
}

/// The 27 cells around `cell` (itself among them) on a periodic grid of
/// `dims` cells, offsets `-1, 0, 1` on the first axis slowest and the last
/// fastest; on a grid fewer than three cells wide a cell comes more than
/// once.
pub open spec fn neighbor_cell(cell: CellKey, dims: [i32; 3], n: int) -> CellKey {
    let dx = n / 9 - 1;
    let dy = (n / 3) % 3 - 1;
    let dz = n % 3 - 1;
    (
        wrapped(cell.0 as int, dx, dims[0] as int) as i32,
        wrapped(cell.1 as int, dy, dims[1] as int) as i32,
        wrapped(cell.2 as int, dz, dims[2] as int) as i32,
    )
}

fn wrap(c: i32, d: i32, g: i32) -> (r: i32)
    requires
        axis_searchable(c as int, g as int),
        -1 <= d <= 1,
    ensures
        r == wrapped(c as int, d as int, g as int),
{
    let s: i64 = c as i64 + d as i64 + g as i64;
    let m: i64 = if g < 0 {
        -(g as i64)
    } else {
        g as i64
    };
    let r: i64 = if s >= 0 {
        s % m
    } else {
        -((-s) % m)
    };
    assert(-m < r < m);
    r as i32
}

/// The cells searched for the acceptors of a donor in `cell`.
pub fn neighbor_cells(cell: CellKey, dims: [i32; 3]) -> (r: Vec<CellKey>)
    requires
        searchable(cell, dims),
    ensures
        r@.len() == 27,
        forall|n: int| 0 <= n < 27 ==> #[trigger] r@[n] == neighbor_cell(cell, dims, n),
{
    let mut out: Vec<CellKey> = Vec::new();
    let mut dx: i32 = -1;
    while dx <= 1
        invariant
            -1 <= dx <= 2,
            searchable(cell, dims),
            out@.len() == (dx + 1) * 9,
            forall|n: int| 0 <= n < out@.len() ==> #[trigger] out@[n] == neighbor_cell(cell, dims, n),
        decreases 2 - dx,
    {
        let mut dy: i32 = -1;
        while dy <= 1
            invariant
                -1 <= dx <= 1,
                -1 <= dy <= 2,
                searchable(cell, dims),
                out@.len() == (dx + 1) * 9 + (dy + 1) * 3,
                forall|n: int| 0 <= n < out@.len() ==> #[trigger] out@[n] == neighbor_cell(cell, dims, n),
            decreases 2 - dy,
        {
            let mut dz: i32 = -1;
            while dz <= 1
                invariant
                    -1 <= dx <= 1,
                    -1 <= dy <= 1,
                    -1 <= dz <= 2,
                    searchable(cell, dims),
                    out@.len() == (dx + 1) * 9 + (dy + 1) * 3 + (dz + 1),
                    forall|n: int|
                        0 <= n < out@.len() ==> #[trigger] out@[n] == neighbor_cell(cell, dims, n),
                decreases 2 - dz,
            {
                let key = (wrap(cell.0, dx, dims[0]), wrap(cell.1, dy, dims[1]), wrap(cell.2, dz, dims[2]));
                let ghost n = out@.len() as int;
                assert(n / 9 - 1 == dx && (n / 3) % 3 - 1 == dy && n % 3 - 1 == dz) by (nonlinear_arith)
                    requires
                        n == (dx + 1) * 9 + (dy + 1) * 3 + (dz + 1),
                        -1 <= dx <= 1,
                        -1 <= dy <= 1,
                        -1 <= dz <= 1,
                ;
                out.push(key);
                dz = dz + 1;
            }
            dy = dy + 1;
        }
        dx = dx + 1;
    }
    out
}

fn same_cell(a: CellKey, b: CellKey) -> (r: bool)
    ensures
        r == (a == b),
{
    a.0 == b.0 && a.1 == b.1 && a.2 == b.2
}

/// The molecules in cell `key`: the positions in `keys` that hold it, in
/// order.
pub open spec fn members(keys: Seq<CellKey>, key: CellKey, n: int) -> Seq<int>
    decreases n,
{
    if n <= 0 {
        seq![]
    } else if keys[n - 1] == key {
        members(keys, key, n - 1).push(n - 1)
    } else {
        members(keys, key, n - 1)
    }
}

pub open spec fn usizes_view(v: Seq<usize>) -> Seq<int> {
    v.map_values(|j: usize| j as int)
}

/// Whether `cells` lists the molecules of `keys`: no cell twice, every
/// cell of `keys` listed with exactly its members, and no other cell.
pub open spec fn lists_hold(cells: Seq<(CellKey, Vec<usize>)>, keys: Seq<CellKey>) -> bool {
    &&& forall|a: int, b: int| 0 <= a < b < cells.len() ==> #[trigger] cells[a].0 != #[trigger] cells[b].0
    &&& forall|a: int|
        0 <= a < cells.len() ==> usizes_view(#[trigger] cells[a].1@) == members(keys, cells[a].0, keys.len() as int)
    &&& forall|a: int| 0 <= a < cells.len() ==> members(keys, #[trigger] cells[a].0, keys.len() as int).len() > 0
    &&& forall|i: int|
        0 <= i < keys.len() ==> exists|a: int| 0 <= a < cells.len() && #[trigger] cells[a].0 == #[trigger] keys[i]
}

/// The cell list of a frame: each occupied cell once, with the molecules
/// in it, in order.
pub struct CellLists {
    pub cells: Vec<(CellKey, Vec<usize>)>,
    /// The cells of the molecules, in order of the molecules.
    pub keys: Ghost<Seq<CellKey>>,
}

impl CellLists {
    /// Whether the lists hold the molecules of their cells `keys`.
    pub open spec fn wf(&self) -> bool {
        lists_hold(self.cells@, self.keys@)
    }

    /// The cell list of molecules in cells `keys`.
    pub fn build(keys: &Vec<CellKey>) -> (r: CellLists)
        ensures
            r.wf(),
            r.keys@ == keys@,
    {
        let mut cells: Vec<(CellKey, Vec<usize>)> = Vec::new();
        let mut i: usize = 0;
        while i < keys.len()
            invariant
                i <= keys@.len(),
                lists_hold(cells@, keys@.take(i as int)),
            decreases keys@.len() - i,
        {
            let ghost pre = keys@.take(i as int);
            let ghost post = keys@.take(i + 1);
            assert(post.drop_last() =~= pre);
            let key = keys[i];
            assert(post.last() == key);
            proof {
                lemma_members_extend(keys@, i as int);
            }
            let mut a: usize = 0;
            let mut at: Option<usize> = None;
            while a < cells.len()
                invariant
                    a <= cells@.len(),
                    at matches Some(x) ==> x < a && cells@[x as int].0 == key,
                    at is None ==> forall|b: int| 0 <= b < a ==> cells@[b].0 != key,
                decreases cells@.len() - a,
            {
                if at.is_none() && same_cell(cells[a].0, key) {
                    at = Some(a);
                }
                a = a + 1;
            }
            let ghost old_cells = cells@;
            match at {
                Some(x) => {
                    let mut entry = cells.remove(x);
                    entry.1.push(i);
                    cells.insert(x, entry);
                    assert forall|b: int| 0 <= b < cells@.len() && b != x implies #[trigger] cells@[b] == old_cells[b] by {}
                    assert(usizes_view(cells@[x as int].1@) =~= usizes_view(old_cells[x as int].1@).push(i as int));
                    assert forall|b: int| 0 <= b < cells@.len() implies usizes_view(#[trigger] cells@[b].1@)
                        == members(post, cells@[b].0, post.len() as int) by {
                        assert(members(keys@.take(i + 1), cells@[b].0, i + 1) == if keys@[i as int] == cells@[b].0 {
                            members(keys@.take(i as int), cells@[b].0, i as int).push(i as int)
                        } else {
                            members(keys@.take(i as int), cells@[b].0, i as int)
                        });
                        assert(usizes_view(old_cells[b].1@) == members(pre, old_cells[b].0, pre.len() as int));
                        if b != x {
                            assert(cells@[b] == old_cells[b]);
                            if b < x {
                                assert(old_cells[b].0 != old_cells[x as int].0);
                            } else {
                                assert(old_cells[x as int].0 != old_cells[b].0);
                            }
                        }
                    }
                },
                None => {
                    let mut list: Vec<usize> = Vec::new();
                    list.push(i);
                    cells.push((key, list));
                    assert forall|c: int| 0 <= c < i implies pre[c] != key by {
                        let b = choose|b: int| 0 <= b < old_cells.len() && #[trigger] old_cells[b].0 == #[trigger] pre[c];
                        assert(old_cells[b].0 != key);
                    }
                    proof {
                        lemma_members_absent(pre, key, i as int);
                    }
                    assert(usizes_view(cells@[old_cells.len() as int].1@) =~= seq![i as int]);
                    assert forall|b: int| 0 <= b < cells@.len() implies usizes_view(#[trigger] cells@[b].1@)
                        == members(post, cells@[b].0, post.len() as int) by {
                        assert(members(keys@.take(i + 1), cells@[b].0, i + 1) == if keys@[i as int] == cells@[b].0 {
                            members(keys@.take(i as int), cells@[b].0, i as int).push(i as int)
                        } else {
                            members(keys@.take(i as int), cells@[b].0, i as int)
                        });
                        if b < old_cells.len() {
                            assert(cells@[b] == old_cells[b]);
                            assert(usizes_view(old_cells[b].1@) == members(pre, old_cells[b].0, pre.len() as int));
                        }
                    }
                },
            }
            assert(forall|b: int| 0 <= b < old_cells.len() ==> #[trigger] cells@[b].0 == old_cells[b].0);
            assert(exists|b: int| 0 <= b < cells@.len() && cells@[b].0 == key);
            assert forall|c: int| 0 <= c < post.len() implies exists|b: int|
                0 <= b < cells@.len() && #[trigger] cells@[b].0 == #[trigger] post[c] by {
                if c < i {
                    assert(post[c] == pre[c]);
                    let b = choose|b: int| 0 <= b < old_cells.len() && #[trigger] old_cells[b].0 == #[trigger] pre[c];
                    assert(cells@[b].0 == post[c]);
                } else {
                    let b = choose|b: int| 0 <= b < cells@.len() && cells@[b].0 == key;
                    assert(cells@[b].0 == post[c]);
                }
            }
            i = i + 1;
        }
        assert(keys@.take(keys@.len() as int) =~= keys@);
        CellLists { cells, keys: Ghost(keys@) }
    }

    /// The molecules in cell `key`, in order.
    pub fn members_of(&self, key: CellKey) -> (r: Vec<usize>)
        requires
            self.wf(),
        ensures
            usizes_view(r@) == members(self.keys@, key, self.keys@.len() as int),
    {
        let ghost keys = self.keys@;
        let mut a: usize = 0;
        while a < self.cells.len()
            invariant
                a <= self.cells@.len(),
                self.wf(),
                keys == self.keys@,
                forall|b: int| 0 <= b < a ==> self.cells@[b].0 != key,
            decreases self.cells@.len() - a,
        {
            if same_cell(self.cells[a].0, key) {
                let list = self.cells[a].1.clone();
                assert(list@ == self.cells@[a as int].1@);
                return list;
            }
            a = a + 1;
        }
        proof {
            lemma_members_absent(keys, key, keys.len() as int);
        }
        Vec::new()
    }
}

/// The molecules of `m` other than `i`, in order.
pub open spec fn others(m: Seq<int>, i: int) -> Seq<int>
    decreases m.len(),
{
    if m.len() == 0 {
        seq![]
    } else if m.last() == i {
        others(m.drop_last(), i)
    } else {
        others(m.drop_last(), i).push(m.last())
    }
}

/// The acceptors tried for donor `i` in cell `cell`: the molecules of the
/// first `n` neighbor cells, in the order of the cells, but `i` itself.
pub open spec fn candidates(keys: Seq<CellKey>, cell: CellKey, dims: [i32; 3], i: int, n: int) -> Seq<int>
    decreases n,
{
    if n <= 0 {
        seq![]
    } else {
        candidates(keys, cell, dims, i, n - 1) + others(
            members(keys, neighbor_cell(cell, dims, n - 1), keys.len() as int),
            i,
        )
    }
}

/// The acceptors tried for donor `i`, whose oxygen lies in `cell`: every
/// molecule other than `i` in the 27 cells around it, cell by cell (a
/// molecule comes once per time its cell comes).
pub fn hbond_candidates(lists: &CellLists, i: usize, cell: CellKey, dims: [i32; 3]) -> (r: Vec<usize>)
    requires
        lists.wf(),
        searchable(cell, dims),
    ensures
        usizes_view(r@) == candidates(lists.keys@, cell, dims, i as int, 27),
{
    let around = neighbor_cells(cell, dims);
    let mut out: Vec<usize> = Vec::new();
    let mut n: usize = 0;
    while n < 27
        invariant
            n <= 27,
            lists.wf(),
            around@.len() == 27,
            forall|k: int| 0 <= k < 27 ==> #[trigger] around@[k] == neighbor_cell(cell, dims, k),
            usizes_view(out@) == candidates(lists.keys@, cell, dims, i as int, n as int),
        decreases 27 - n,
    {
        let here = lists.members_of(around[n]);
        let ghost before = usizes_view(out@);
        let mut k: usize = 0;
        while k < here.len()
            invariant
                k <= here@.len(),
                usizes_view(out@) == before + others(usizes_view(here@).take(k as int), i as int),
            decreases here@.len() - k,
        {
            let ghost pre = usizes_view(here@).take(k as int);
            let ghost post = usizes_view(here@).take(k + 1);
            assert(post.drop_last() =~= pre);
            assert(post.last() == here@[k as int] as int);
            if here[k] != i {
                let ghost o = usizes_view(out@);
                out.push(here[k]);
                assert(usizes_view(out@) =~= o.push(here@[k as int] as int));
            }
            k = k + 1;
        }
        assert(usizes_view(here@).take(here@.len() as int) =~= usizes_view(here@));
        n = n + 1;
    }
    out
}

pub open spec fn opt_seq<P>(o: Option<Vec<P>>) -> Option<Seq<P>> {
    match o {
        Some(v) => Some(v@),
        None => None,
    }
}

/// The bonds among `updates` for molecule `m`, in order.
pub open spec fn updates_for(updates: Seq<(usize, HydrogenBondPartner)>, m: int) -> Seq<HydrogenBondPartner>
    decreases updates.len(),
{
    if updates.len() == 0 {
        seq![]
    } else if updates.last().0 == m {
        updates_for(updates.drop_last(), m).push(updates.last().1)
    } else {
        updates_for(updates.drop_last(), m)
    }
}

/// A molecule's bonds once `adds` are attached: unchanged where there are
/// none; otherwise those it had (none where it had no list) followed by
/// `adds`.
pub open spec fn attached(had: Option<Seq<HydrogenBondPartner>>, adds: Seq<HydrogenBondPartner>) -> Option<
    Seq<HydrogenBondPartner>,
> {
    if adds.len() == 0 {
        had
    } else {
        match had {
            Some(s) => Some(s + adds),
            None => Some(adds),
        }
    }
}

/// Attaches each bond of `updates` to its molecule, in order: the bond
/// lists of molecules, by position, grow by the bonds found for them.
pub fn attach_partners(
    partners: &mut Vec<Option<Vec<HydrogenBondPartner>>>,
    updates: Vec<(usize, HydrogenBondPartner)>,
)
    requires
        forall|k: int| 0 <= k < updates@.len() ==> (#[trigger] updates@[k]).0 < old(partners)@.len(),
    ensures
        final(partners)@.len() == old(partners)@.len(),
        forall|m: int|
            0 <= m < final(partners)@.len() ==> opt_seq(#[trigger] final(partners)@[m]) == attached(
                opt_seq(old(partners)@[m]),
                updates_for(updates@, m),
            ),
{
    let ghost all = updates@;
    let ghost start = partners@;
    let total = updates.len();
    assert(all.len() == total);
    let mut rest = updates;
    let mut done: usize = 0;
    while rest.len() > 0
        invariant
            done + rest@.len() == all.len(),
            all.len() <= usize::MAX,
            rest@ == all.skip(done as int),
            forall|k: int| 0 <= k < all.len() ==> (#[trigger] all[k]).0 < start.len(),
            partners@.len() == start.len(),
            forall|m: int|
                0 <= m < partners@.len() ==> opt_seq(#[trigger] partners@[m]) == attached(
                    opt_seq(start[m]),
                    updates_for(all.take(done as int), m),
                ),
        decreases rest@.len(),
    {
        let ghost pre = all.take(done as int);
        let ghost post = all.take(done + 1);
        assert(post.drop_last() =~= pre);
        assert(rest@[0] == all[done as int]);
        let (idx, p) = rest.remove(0);
        assert(post.last() == (idx, p));
        assert(idx < partners@.len());
        let ghost before = partners@;
        let mut list = match partners[idx].take() {
            Some(v) => v,
            None => Vec::new(),
        };
        list.push(p);
        partners.set(idx, Some(list));
        assert forall|m: int| 0 <= m < partners@.len() implies opt_seq(#[trigger] partners@[m]) == attached(
            opt_seq(start[m]),
            updates_for(post, m),
        ) by {
            if m != idx {
                assert(partners@[m] == before[m]);
            } else {
                assert(updates_for(post, m) == updates_for(pre, m).push(p));
            }
        }
        assert(rest@ =~= all.skip(done + 1));
        done = done + 1;
    }
    assert(all.take(all.len() as int) =~= all);
}

/// What a bond record copies of the molecule at its other end: the
/// molecule's oxygen and type.
pub struct BondEnd {
    pub o_idx: i32,
    pub mol_type: Option<String>,
}

/// A bond record by value: the partner's oxygen, the partner's type, and
/// the side taken.
pub open spec fn partner_view(p: HydrogenBondPartner) -> (i32, Option<Seq<char>>, HBondKind) {
    (p.partner_o_idx, opt_str_view(p.partner_moltype), p.h_bond_type)
}

/// The record of a bond with molecule `m` at its other end, taken as `kind`.
pub open spec fn record_of(m: BondEnd, kind: HBondKind) -> (i32, Option<Seq<char>>, HBondKind) {
    (m.o_idx, opt_str_view(m.mol_type), kind)
}

fn bond_record(m: &BondEnd, kind: HBondKind) -> (r: HydrogenBondPartner)
    ensures
        partner_view(r) == record_of(*m, kind),
{
    let t = match &m.mol_type {
        Some(s) => Some(s.clone()),
        None => None,
    };
    HydrogenBondPartner { partner_o_idx: m.o_idx, partner_moltype: t, h_bond_type: kind }
}

/// Whether `out` holds the updates of the first `n` accepted acceptors of
/// donor `i`, two per acceptor.
pub open spec fn updates_hold(
    out: Seq<(usize, HydrogenBondPartner)>,
    molecules: Seq<BondEnd>,
    i: usize,
    accepted: Seq<usize>,
    n: int,
) -> bool {
    &&& out.len() == 2 * n
    &&& forall|k: int|
        0 <= k < n ==> {
            &&& (#[trigger] out[2 * k]).0 == i
            &&& partner_view(out[2 * k].1) == record_of(molecules[accepted[k] as int], HBondKind::Donor)
            &&& out[2 * k + 1].0 == accepted[k]
            &&& partner_view(out[2 * k + 1].1) == record_of(molecules[i as int], HBondKind::Acceptor)
        }
}

/// The updates for the bonds that donor `i` makes, one per accepted
/// acceptor in `accepted` (in order, an acceptor once per hydrogen that
/// bonds to it): donor `i` records the acceptor as a partner it donates to,
/// directly followed by the acceptor recording `i` as one it accepts from.
pub fn bond_updates(molecules: &Vec<BondEnd>, i: usize, accepted: &Vec<usize>) -> (r: Vec<(usize, HydrogenBondPartner)>)
    requires
        i < molecules@.len(),
        forall|k: int| 0 <= k < accepted@.len() ==> #[trigger] accepted@[k] < molecules@.len(),
    ensures
        updates_hold(r@, molecules@, i, accepted@, accepted@.len() as int),
{
    let mut out: Vec<(usize, HydrogenBondPartner)> = Vec::new();
    let mut k: usize = 0;
    while k < accepted.len()
        invariant
            k <= accepted@.len(),
            i < molecules@.len(),
            forall|q: int| 0 <= q < accepted@.len() ==> #[trigger] accepted@[q] < molecules@.len(),
            updates_hold(out@, molecules@, i, accepted@, k as int),
        decreases accepted@.len() - k,
    {
        let j = accepted[k];
        assert(j < molecules@.len());
        let to = bond_record(&molecules[j], HBondKind::Donor);
        let from = bond_record(&molecules[i], HBondKind::Acceptor);
        let ghost before = out@;
        out.push((i, to));
        out.push((j, from));
        assert(out@[2 * (k as int)] == (i, to));
        assert(out@[2 * (k as int) + 1] == (j, from));
        assert forall|q: int| 0 <= q < k + 1 implies {
            &&& (#[trigger] out@[2 * q]).0 == i
            &&& partner_view(out@[2 * q].1) == record_of(molecules@[accepted@[q] as int], HBondKind::Donor)
            &&& out@[2 * q + 1].0 == accepted@[q]
            &&& partner_view(out@[2 * q + 1].1) == record_of(molecules@[i as int], HBondKind::Acceptor)
        } by {
            if q < k {
                assert(out@[2 * q] == before[2 * q]);
                assert(out@[2 * q + 1] == before[2 * q + 1]);
            }
        }
        k = k + 1;
    }
    out
}

/// The bonds of a frame in the order they are found: for each donor `i` in
/// turn, `(i, j)` for each acceptor `j` in the donor's list `accepted[i]`.
pub open spec fn accepted_bonds(accepted: Seq<Vec<usize>>) -> Seq<(usize, usize)>
    decreases accepted.len(),
{
    if accepted.len() == 0 {
        Seq::empty()
    } else {
        let i = (accepted.len() - 1) as usize;
        accepted_bonds(accepted.drop_last()) + accepted.last()@.map_values(|j: usize| (i, j))
    }
}

/// Whether `out` records the bonds `bonds` two entries each: for bond
/// `(i, j)`, donor `i` recording `j` as a molecule it donates to, directly
/// followed by acceptor `j` recording `i` as one it accepts from.
pub open spec fn bonds_hold(
    out: Seq<(usize, HydrogenBondPartner)>,
    molecules: Seq<BondEnd>,
    bonds: Seq<(usize, usize)>,
) -> bool {
    &&& out.len() == 2 * bonds.len()
    &&& forall|k: int|
        0 <= k < bonds.len() ==> {
            &&& (#[trigger] out[2 * k]).0 == bonds[k].0
            &&& partner_view(out[2 * k].1) == record_of(molecules[bonds[k].1 as int], HBondKind::Donor)
            &&& out[2 * k + 1].0 == bonds[k].1
            &&& partner_view(out[2 * k + 1].1) == record_of(molecules[bonds[k].0 as int], HBondKind::Acceptor)
        }
}

/// Each bond of a frame comes from a donor's list, and each entry of a
/// donor's list is a bond of the frame.
pub proof fn lemma_accepted_bonds_members(accepted: Seq<Vec<usize>>)
    requires
        accepted.len() <= usize::MAX,
    ensures
        forall|b: int|
            0 <= b < accepted_bonds(accepted).len() ==> {
                let (i, j) = #[trigger] accepted_bonds(accepted)[b];
                i < accepted.len() && accepted[i as int]@.contains(j)
            },
        forall|i: int, k: int|
            0 <= i < accepted.len() && 0 <= k < accepted[i]@.len() ==> accepted_bonds(accepted).contains(
                (i as usize, #[trigger] accepted[i]@[k]),
            ),
    decreases accepted.len(),
{
    if accepted.len() > 0 {
        let n = accepted.len() - 1;
        let front = accepted.drop_last();
        lemma_accepted_bonds_members(front);
        let head = accepted_bonds(front);
        let tail = accepted.last()@.map_values(|j: usize| (n as usize, j));
        assert(accepted_bonds(accepted) == head + tail);
        assert forall|b: int| 0 <= b < accepted_bonds(accepted).len() implies {
            let (i, j) = #[trigger] accepted_bonds(accepted)[b];
            i < accepted.len() && accepted[i as int]@.contains(j)
        } by {
            let pair = accepted_bonds(accepted)[b];
            if b < head.len() {
                assert(pair == head[b]);
                assert(pair.0 < front.len() && front[pair.0 as int]@.contains(pair.1));
                assert(front[pair.0 as int] == accepted[pair.0 as int]);
            } else {
                let q = b - head.len();
                assert(pair == tail[q]);
                assert(accepted.last() == accepted[n]);
                assert(accepted[n]@[q] == pair.1);
                assert(pair.0 == n);
            }
        }
        assert forall|i: int, k: int|
            0 <= i < accepted.len() && 0 <= k < accepted[i]@.len() implies accepted_bonds(accepted).contains(
                (i as usize, #[trigger] accepted[i]@[k]),
            ) by {
            let pair = (i as usize, accepted[i]@[k]);
            if i < n {
                assert(front[i] == accepted[i]);
                assert(head.contains(pair));
                let b = choose|b: int| 0 <= b < head.len() && head[b] == pair;
                assert(accepted_bonds(accepted)[b] == pair);
            } else {
                assert(tail[k] == pair);
                assert(accepted_bonds(accepted)[head.len() + k] == pair);
            }
        }
    }
}

/// The updates for all the bonds of a frame: `accepted[i]` lists the
/// acceptors that donor `i` bonds to (an acceptor once per hydrogen that
/// bonds to it), and the updates come donor after donor, in list order,
/// each bond as a donor entry directly followed by its acceptor entry.
pub fn frame_bond_updates(molecules: &Vec<BondEnd>, accepted: &Vec<Vec<usize>>) -> (r: Vec<(usize, HydrogenBondPartner)>)
    requires
        accepted@.len() <= molecules@.len(),
        forall|i: int, k: int|
            0 <= i < accepted@.len() && 0 <= k < accepted@[i]@.len() ==> #[trigger] accepted@[i]@[k]
                < molecules@.len(),
    ensures
        bonds_hold(r@, molecules@, accepted_bonds(accepted@)),
{
    let mut out: Vec<(usize, HydrogenBondPartner)> = Vec::new();
    let mut i: usize = 0;
    assert(accepted@.take(0) =~= Seq::<Vec<usize>>::empty());
    while i < accepted.len()
        invariant
            i <= accepted@.len() <= molecules@.len(),
            forall|d: int, k: int|
                0 <= d < accepted@.len() && 0 <= k < accepted@[d]@.len() ==> #[trigger] accepted@[d]@[k]
                    < molecules@.len(),
            bonds_hold(out@, molecules@, accepted_bonds(accepted@.take(i as int))),
        decreases accepted@.len() - i,
    {
        let list = &accepted[i];
        assert forall|k: int| 0 <= k < list@.len() implies #[trigger] list@[k] < molecules@.len() by {
            assert(list@[k] == accepted@[i as int]@[k]);
        }
        let mut part = bond_updates(molecules, i, list);
        let ghost before = out@;
        let ghost added = part@;
        let ghost old_bonds = accepted_bonds(accepted@.take(i as int));
        let ghost new_bonds = list@.map_values(|j: usize| (i, j));
        let ghost next = accepted@.take(i + 1);
        assert(next.drop_last() =~= accepted@.take(i as int));
        assert(next.last() == *list);
        assert(accepted_bonds(next) == old_bonds + new_bonds);
        out.append(&mut part);
        assert forall|k: int| 0 <= k < old_bonds.len() + new_bonds.len() implies {
            &&& (#[trigger] out@[2 * k]).0 == (old_bonds + new_bonds)[k].0
            &&& partner_view(out@[2 * k].1) == record_of(
                molecules@[(old_bonds + new_bonds)[k].1 as int],
                HBondKind::Donor,
            )
            &&& out@[2 * k + 1].0 == (old_bonds + new_bonds)[k].1
            &&& partner_view(out@[2 * k + 1].1) == record_of(
                molecules@[(old_bonds + new_bonds)[k].0 as int],
                HBondKind::Acceptor,
            )
        } by {
            if k < old_bonds.len() {
                assert(out@[2 * k] == before[2 * k]);
                assert(out@[2 * k + 1] == before[2 * k + 1]);
                assert((old_bonds + new_bonds)[k] == old_bonds[k]);
            } else {
                let q = k - old_bonds.len();
                assert(out@[2 * k] == added[2 * q]) by {
                    assert(2 * k == before.len() + 2 * q);
                }
                assert(out@[2 * k + 1] == added[2 * q + 1]) by {
                    assert(2 * k + 1 == before.len() + 2 * q + 1);
                }
                assert((old_bonds + new_bonds)[k] == new_bonds[q]);
            }
        }
        i = i + 1;
    }
    assert(accepted@.take(accepted@.len() as int) =~= accepted@);
    out
}

proof fn lemma_members_extend(keys: Seq<CellKey>, i: int)
    requires
        0 <= i < keys.len(),
    ensures
        forall|key: CellKey|
            #[trigger] members(keys.take(i + 1), key, i + 1) == if keys[i] == key {
                members(keys.take(i), key, i).push(i)
            } else {
                members(keys.take(i), key, i)
            },
{
    assert forall|key: CellKey|
        #[trigger] members(keys.take(i + 1), key, i + 1) == if keys[i] == key {
            members(keys.take(i), key, i).push(i)
        } else {
            members(keys.take(i), key, i)
        } by {
        lemma_members_prefix(keys.take(i + 1), keys.take(i), key, i);
    }
}

proof fn lemma_members_prefix(a: Seq<CellKey>, b: Seq<CellKey>, key: CellKey, n: int)
    requires
        0 <= n <= b.len(),
        n <= a.len(),
        forall|j: int| 0 <= j < n ==> a[j] == b[j],
    ensures
        members(a, key, n) == members(b, key, n),
    decreases n,
{
    if n > 0 {
        lemma_members_prefix(a, b, key, n - 1);
    }
}

proof fn lemma_members_absent(keys: Seq<CellKey>, key: CellKey, n: int)
    requires
        0 <= n <= keys.len(),
        forall|j: int| 0 <= j < n ==> keys[j] != key,
    ensures
        members(keys, key, n) == Seq::<int>::empty(),
    decreases n,
{
    if n > 0 {
        lemma_members_absent(keys, key, n - 1);
    }
}

} // verus!
