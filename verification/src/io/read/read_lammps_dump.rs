//! LAMMPS dump trajectories: frames of `ITEM:` sections, read into the text
//! of the per-atom values and of the box bounds.
use vstd::prelude::*;

use crate::text::{
    chars_of, contains_seq, fields, occurs_at, parse_i32, spec_parse_i32, split_fields, str_contains,
    str_starts_with, trimmed, trim, views, IntErrorKind,
};

verus! {

/// What a column of the `ITEM: ATOMS` line holds. `Slot(k)` are the per-atom
/// vector components: `x y z` (0..3), `xu yu zu` (3..6), `vx vy vz` (6..9),
/// `fx fy fz` (9..12).
#[derive(Debug, Clone, Copy, PartialEq, Eq, Structural)]
pub enum Column {
    Id,
    Element,
    Mass,
    Charge,
    Slot(usize),
    Other,
}

/// The column that the attribute name `name` stands for.
pub open spec fn column_of(name: Seq<char>) -> Column {
    if name == seq!['i', 'd'] {
        Column::Id
    } else if name == seq!['e', 'l', 'e', 'm', 'e', 'n', 't'] {
        Column::Element
    } else if name == seq!['m', 'a', 's', 's'] {
        Column::Mass
    } else if name == seq!['c', 'h', 'a', 'r', 'g', 'e'] {
        Column::Charge
    } else if name == seq!['x'] {
        Column::Slot(0)
    } else if name == seq!['y'] {
        Column::Slot(1)
    } else if name == seq!['z'] {
        Column::Slot(2)
    } else if name == seq!['x', 'u'] {
        Column::Slot(3)
    } else if name == seq!['y', 'u'] {
        Column::Slot(4)
    } else if name == seq!['z', 'u'] {
        Column::Slot(5)
    } else if name == seq!['v', 'x'] {
        Column::Slot(6)
    } else if name == seq!['v', 'y'] {
        Column::Slot(7)
    } else if name == seq!['v', 'z'] {
        Column::Slot(8)
    } else if name == seq!['f', 'x'] {
        Column::Slot(9)
    } else if name == seq!['f', 'y'] {
        Column::Slot(10)
    } else if name == seq!['f', 'z'] {
        Column::Slot(11)
    } else {
        Column::Other
    }
}

/// Whether `v` spells `w`.
fn same_chars(v: &Vec<char>, w: &Vec<char>) -> (r: bool)
    ensures
        r == (v@ == w@),
{
    if v.len() != w.len() {
        return false;
    }
    let mut i: usize = 0;
    while i < v.len()
        invariant
            i <= v@.len() == w@.len(),
            forall|j: int| 0 <= j < i ==> v@[j] == w@[j],
        decreases v@.len() - i,
    {
        if v[i] != w[i] {
            return false;
        }
        i = i + 1;
    }
    assert(v@ =~= w@);
    true
}

/// The column that the attribute name `name` stands for.
pub fn column_of_name(name: &str) -> (c: Column)
    ensures
        c == column_of(name@),
{
    let v = chars_of(name);
    let names: Vec<Vec<char>> = vec![
        vec!['i', 'd'],
        vec!['e', 'l', 'e', 'm', 'e', 'n', 't'],
        vec!['m', 'a', 's', 's'],
        vec!['c', 'h', 'a', 'r', 'g', 'e'],
        vec!['x'],
        vec!['y'],
        vec!['z'],
        vec!['x', 'u'],
        vec!['y', 'u'],
        vec!['z', 'u'],
        vec!['v', 'x'],
        vec!['v', 'y'],
        vec!['v', 'z'],
        vec!['f', 'x'],
        vec!['f', 'y'],
        vec!['f', 'z'],
    ];
    assert(names@[0]@ =~= seq!['i', 'd']);
    assert(names@[1]@ =~= seq!['e', 'l', 'e', 'm', 'e', 'n', 't']);
    assert(names@[2]@ =~= seq!['m', 'a', 's', 's']);
    assert(names@[3]@ =~= seq!['c', 'h', 'a', 'r', 'g', 'e']);
    assert(names@[4]@ =~= seq!['x']);
    assert(names@[5]@ =~= seq!['y']);
    assert(names@[6]@ =~= seq!['z']);
    assert(names@[7]@ =~= seq!['x', 'u']);
    assert(names@[8]@ =~= seq!['y', 'u']);
    assert(names@[9]@ =~= seq!['z', 'u']);
    assert(names@[10]@ =~= seq!['v', 'x']);
    assert(names@[11]@ =~= seq!['v', 'y']);
    assert(names@[12]@ =~= seq!['v', 'z']);
    assert(names@[13]@ =~= seq!['f', 'x']);
    assert(names@[14]@ =~= seq!['f', 'y']);
    assert(names@[15]@ =~= seq!['f', 'z']);
    let ghost nv = names@.map_values(|w: Vec<char>| w@);
    assert(nv =~= column_names());
    let cols = [
        Column::Id,
        Column::Element,
        Column::Mass,
        Column::Charge,
        Column::Slot(0),
        Column::Slot(1),
        Column::Slot(2),
        Column::Slot(3),
        Column::Slot(4),
        Column::Slot(5),
        Column::Slot(6),
        Column::Slot(7),
        Column::Slot(8),
        Column::Slot(9),
        Column::Slot(10),
        Column::Slot(11),
    ];
    let mut k: usize = 0;
    while k < 16
        invariant
            k <= 16,
            names@.len() == 16,
            names@[0]@ == seq!['i', 'd'],
            names@[1]@ == seq!['e', 'l', 'e', 'm', 'e', 'n', 't'],
            names@[2]@ == seq!['m', 'a', 's', 's'],
            names@[3]@ == seq!['c', 'h', 'a', 'r', 'g', 'e'],
            names@[4]@ == seq!['x'],
            names@[5]@ == seq!['y'],
            names@[6]@ == seq!['z'],
            names@[7]@ == seq!['x', 'u'],
            names@[8]@ == seq!['y', 'u'],
            names@[9]@ == seq!['z', 'u'],
            names@[10]@ == seq!['v', 'x'],
            names@[11]@ == seq!['v', 'y'],
            names@[12]@ == seq!['v', 'z'],
            names@[13]@ == seq!['f', 'x'],
            names@[14]@ == seq!['f', 'y'],
            names@[15]@ == seq!['f', 'z'],
            cols@ == seq![
                Column::Id,
                Column::Element,
                Column::Mass,
                Column::Charge,
                Column::Slot(0),
                Column::Slot(1),
                Column::Slot(2),
                Column::Slot(3),
                Column::Slot(4),
                Column::Slot(5),
                Column::Slot(6),
                Column::Slot(7),
                Column::Slot(8),
                Column::Slot(9),
                Column::Slot(10),
                Column::Slot(11),
            ],
            v@ == name@,
            nv == column_names(),
            nv == names@.map_values(|w: Vec<char>| w@),
            forall|j: int| 0 <= j < k ==> v@ != (#[trigger] names@[j])@,
        decreases 16 - k,
    {
        if same_chars(&v, &names[k]) {
            proof {
                assert(nv[k as int] == names@[k as int]@);
                assert forall|j: int| 0 <= j < k implies v@ != #[trigger] column_names()[j] by {
                    assert(nv[j] == names@[j]@);
                }
                lemma_column_of_table(v@, k as int);
            }
            return cols[k];
        }
        k = k + 1;
    }
    proof {
        assert forall|j: int| 0 <= j < 16 implies v@ != #[trigger] nv[j] by {
            assert(nv[j] == names@[j]@);
        }
        lemma_column_of_other(v@, nv);
    }
    Column::Other
}

/// The attribute names in the order of `column_of`, with their columns.
pub open spec fn column_names() -> Seq<Seq<char>> {
    seq![
        seq!['i', 'd'],
        seq!['e', 'l', 'e', 'm', 'e', 'n', 't'],
        seq!['m', 'a', 's', 's'],
        seq!['c', 'h', 'a', 'r', 'g', 'e'],
        seq!['x'],
        seq!['y'],
        seq!['z'],
        seq!['x', 'u'],
        seq!['y', 'u'],
        seq!['z', 'u'],
        seq!['v', 'x'],
        seq!['v', 'y'],
        seq!['v', 'z'],
        seq!['f', 'x'],
        seq!['f', 'y'],
        seq!['f', 'z'],
    ]
}

proof fn lemma_column_of_table(s: Seq<char>, k: int)
    requires
        0 <= k < 16,
        s == column_names()[k],
        forall|j: int| 0 <= j < k ==> s != #[trigger] column_names()[j],
    ensures
        column_of(s) == seq![
            Column::Id,
            Column::Element,
            Column::Mass,
            Column::Charge,
            Column::Slot(0),
            Column::Slot(1),
            Column::Slot(2),
            Column::Slot(3),
            Column::Slot(4),
            Column::Slot(5),
            Column::Slot(6),
            Column::Slot(7),
            Column::Slot(8),
            Column::Slot(9),
            Column::Slot(10),
            Column::Slot(11),
        ][k],
{
    assert(0 <= 0 < k ==> s != column_names()[0]);
    assert(0 <= 1 < k ==> s != column_names()[1]);
    assert(0 <= 2 < k ==> s != column_names()[2]);
    assert(0 <= 3 < k ==> s != column_names()[3]);
    assert(0 <= 4 < k ==> s != column_names()[4]);
    assert(0 <= 5 < k ==> s != column_names()[5]);
    assert(0 <= 6 < k ==> s != column_names()[6]);
    assert(0 <= 7 < k ==> s != column_names()[7]);
    assert(0 <= 8 < k ==> s != column_names()[8]);
    assert(0 <= 9 < k ==> s != column_names()[9]);
    assert(0 <= 10 < k ==> s != column_names()[10]);
    assert(0 <= 11 < k ==> s != column_names()[11]);
    assert(0 <= 12 < k ==> s != column_names()[12]);
    assert(0 <= 13 < k ==> s != column_names()[13]);
    assert(0 <= 14 < k ==> s != column_names()[14]);
}

proof fn lemma_column_of_other(s: Seq<char>, names: Seq<Seq<char>>)
    requires
        names == column_names(),
        forall|j: int| 0 <= j < 16 ==> s != #[trigger] names[j],
    ensures
        column_of(s) == Column::Other,
{
    assert(s != names[0] && s != names[1] && s != names[2] && s != names[3]);
    assert(s != names[4] && s != names[5] && s != names[6] && s != names[7]);
    assert(s != names[8] && s != names[9] && s != names[10] && s != names[11]);
    assert(s != names[12] && s != names[13] && s != names[14] && s != names[15]);
}


// ---------------------------------------------------------------------------
// One atom line
// ---------------------------------------------------------------------------

/// The value of an `id` field: the integer it spells, 0 where it spells none.
pub open spec fn id_value(tok: Seq<char>) -> i32 {
    match spec_parse_i32(tok) {
        Ok(v) => v as i32,
        Err(_) => 0,
    }
}

/// The ids of an atom line, one per `id` column, in column order.
pub open spec fn ids_in(cols: Seq<Column>, vals: Seq<Seq<char>>) -> Seq<i32>
    decreases cols.len(),
{
    if cols.len() == 0 {
        seq![]
    } else {
        let before = ids_in(cols.drop_last(), vals);
        if cols.last() == Column::Id {
            before.push(id_value(vals[cols.len() - 1]))
        } else {
            before
        }
    }
}

/// The fields of an atom line under the columns `c`, in column order.
pub open spec fn texts_in(cols: Seq<Column>, vals: Seq<Seq<char>>, c: Column) -> Seq<Seq<char>>
    decreases cols.len(),
{
    if cols.len() == 0 {
        seq![]
    } else {
        let before = texts_in(cols.drop_last(), vals, c);
        if cols.last() == c {
            before.push(vals[cols.len() - 1])
        } else {
            before
        }
    }
}

/// The field of an atom line under the last column `c`, if there is one.
pub open spec fn last_in(cols: Seq<Column>, vals: Seq<Seq<char>>, c: Column) -> Option<Seq<char>>
    decreases cols.len(),
{
    if cols.len() == 0 {
        None
    } else if cols.last() == c {
        Some(vals[cols.len() - 1])
    } else {
        last_in(cols.drop_last(), vals, c)
    }
}

/// Whether a known column lies past the fields of the atom line.
/// The first column from `i` on that names a known attribute but has no
/// value among `vals` (`cols.len()` where there is none).
pub open spec fn first_missing_from(cols: Seq<Column>, vals: Seq<Seq<char>>, i: int) -> int
    decreases cols.len() - i,
{
    if i < 0 || i >= cols.len() {
        cols.len() as int
    } else if cols[i] != Column::Other && i >= vals.len() {
        i
    } else {
        first_missing_from(cols, vals, i + 1)
    }
}

proof fn lemma_first_missing(cols: Seq<Column>, vals: Seq<Seq<char>>, i: int, c: int)
    requires
        0 <= i <= c < cols.len(),
        cols[c] != Column::Other && c >= vals.len(),
        forall|j: int| i <= j < c ==> cols[j] != Column::Other ==> j < vals.len(),
    ensures
        first_missing_from(cols, vals, i) == c,
    decreases c - i,
{
    if i < c {
        lemma_first_missing(cols, vals, i + 1, c);
    }
}

pub open spec fn values_missing(cols: Seq<Column>, vals: Seq<Seq<char>>) -> bool {
    exists|i: int| 0 <= i < cols.len() && cols[i] != Column::Other && i >= vals.len()
}

/// The text of one atom's values: its charge, and the twelve vector
/// components (`Slot` order), each where the line gives it.
pub struct AtomText {
    pub charge: Option<String>,
    pub slots: Vec<Option<String>>,
}

pub struct AtomTextView {
    pub charge: Option<Seq<char>>,
    pub slots: Seq<Option<Seq<char>>>,
}

pub open spec fn opt_view(o: Option<String>) -> Option<Seq<char>> {
    match o {
        Some(s) => Some(s@),
        None => None,
    }
}

impl AtomText {
    pub open spec fn view(&self) -> AtomTextView {
        AtomTextView { charge: opt_view(self.charge), slots: self.slots@.map_values(|o: Option<String>| opt_view(o)) }
    }
}

/// The values of one atom line under the columns `cols`.
pub open spec fn atom_text(cols: Seq<Column>, vals: Seq<Seq<char>>) -> AtomTextView {
    AtomTextView {
        charge: last_in(cols, vals, Column::Charge),
        slots: Seq::new(12, |k: int| last_in(cols, vals, Column::Slot(k as usize))),
    }
}

// ---------------------------------------------------------------------------
// A whole frame
// ---------------------------------------------------------------------------

/// One of the three lines after `ITEM: BOX BOUNDS`: `lo hi`, `lo hi tilt`, or
/// anything else (or no line), which sets nothing.
pub enum BoundsLine {
    Unset,
    Pair(String, String),
    Triple(String, String, String),
}

pub enum BoundsLineView {
    Unset,
    Pair(Seq<char>, Seq<char>),
    Triple(Seq<char>, Seq<char>, Seq<char>),
}

impl BoundsLine {
    pub open spec fn view(&self) -> BoundsLineView {
        match self {
            BoundsLine::Unset => BoundsLineView::Unset,
            BoundsLine::Pair(a, b) => BoundsLineView::Pair(a@, b@),
            BoundsLine::Triple(a, b, c) => BoundsLineView::Triple(a@, b@, c@),
        }
    }
}

/// What a bounds line with fields `f` sets.
pub open spec fn bounds_line(f: Seq<Seq<char>>) -> BoundsLineView {
    if f.len() == 2 {
        BoundsLineView::Pair(f[0], f[1])
    } else if f.len() == 3 {
        BoundsLineView::Triple(f[0], f[1], f[2])
    } else {
        BoundsLineView::Unset
    }
}

/// The periodic flags that an `ITEM: BOX BOUNDS` line names: the first of
/// `pp pp pp`, `pp pp ff`, `pp ff pp`, `ff pp pp`, `pp ff ff`, `ff pp ff`,
/// `ff ff pp` that it contains, else none periodic.
pub open spec fn pbc_of(line: Seq<char>) -> [bool; 3] {
    if contains_seq(line, "pp pp pp"@) {
        [true, true, true]
    } else if contains_seq(line, "pp pp ff"@) {
        [true, true, false]
    } else if contains_seq(line, "pp ff pp"@) {
        [true, false, true]
    } else if contains_seq(line, "ff pp pp"@) {
        [false, true, true]
    } else if contains_seq(line, "pp ff ff"@) {
        [true, false, false]
    } else if contains_seq(line, "ff pp ff"@) {
        [false, true, false]
    } else if contains_seq(line, "ff ff pp"@) {
        [false, false, true]
    } else {
        [false, false, false]
    }
}

/// The field that names one axis in a `BOX BOUNDS` line: `pp` where the
/// axis is periodic, `ff` where it is not.
pub open spec fn axis_field(periodic: bool) -> Seq<char> {
    if periodic {
        "pp"@
    } else {
        "ff"@
    }
}

/// The three axis fields, space separated.
pub open spec fn axis_fields(x: bool, y: bool, z: bool) -> Seq<char> {
    axis_field(x) + " "@ + axis_field(y) + " "@ + axis_field(z)
}

/// The `BOX BOUNDS` line of a box periodic along the axes given.
pub open spec fn box_bounds_line(x: bool, y: bool, z: bool) -> Seq<char> {
    "ITEM: BOX BOUNDS "@ + axis_fields(x, y, z)
}

proof fn lemma_axis_fields_chars(x: bool, y: bool, z: bool)
    ensures
        axis_fields(x, y, z).len() == 8,
        axis_fields(x, y, z)[0] == (if x { 'p' } else { 'f' }),
        axis_fields(x, y, z)[1] == (if x { 'p' } else { 'f' }),
        axis_fields(x, y, z)[2] == ' ',
        axis_fields(x, y, z)[3] == (if y { 'p' } else { 'f' }),
        axis_fields(x, y, z)[4] == (if y { 'p' } else { 'f' }),
        axis_fields(x, y, z)[5] == ' ',
        axis_fields(x, y, z)[6] == (if z { 'p' } else { 'f' }),
        axis_fields(x, y, z)[7] == (if z { 'p' } else { 'f' }),
{
    reveal_strlit("pp");
    reveal_strlit("ff");
    reveal_strlit(" ");
}

/// In the `BOX BOUNDS` line of a box, the only axis fields that occur are
/// the box's own.
proof fn lemma_box_line_holds_only_its_fields(x: bool, y: bool, z: bool, p: bool, q: bool, r: bool)
    ensures
        contains_seq(box_bounds_line(x, y, z), axis_fields(p, q, r)) <==> (p == x && q == y && r == z),
{
    reveal_strlit("ITEM: BOX BOUNDS ");
    let head = "ITEM: BOX BOUNDS "@;
    let line = box_bounds_line(x, y, z);
    let t = axis_fields(p, q, r);
    lemma_axis_fields_chars(x, y, z);
    lemma_axis_fields_chars(p, q, r);
    assert(head.len() == 17);
    assert(line.len() == 25);
    assert forall|i: int| 0 <= i < 17 implies line[i] != 'p' && line[i] != 'f' by {
        assert(line[i] == head[i]);
    }
    assert forall|k: int| 0 <= k < 8 implies line[17 + k] == axis_fields(x, y, z)[k] by {}
    if p == x && q == y && r == z {
        assert(line.subrange(17, 25) =~= t);
        assert(occurs_at(line, t, 17));
    }
    if contains_seq(line, t) {
        let at = choose|at: int| occurs_at(line, t, at);
        assert(line.subrange(at, at + 8)[0] == t[0]);
        assert(line[at] == t[0]);
        assert(at == 17);
        assert(line.subrange(at, at + 8)[0] == line[17]);
        assert(line.subrange(at, at + 8)[3] == line[20]);
        assert(line.subrange(at, at + 8)[6] == line[23]);
    }
}

/// The literal fields that the flags are read by.
proof fn lemma_axis_field_literals()
    ensures
        "pp pp pp"@ == axis_fields(true, true, true),
        "pp pp ff"@ == axis_fields(true, true, false),
        "pp ff pp"@ == axis_fields(true, false, true),
        "ff pp pp"@ == axis_fields(false, true, true),
        "pp ff ff"@ == axis_fields(true, false, false),
        "ff pp ff"@ == axis_fields(false, true, false),
        "ff ff pp"@ == axis_fields(false, false, true),
        "ff ff ff"@ == axis_fields(false, false, false),
{
    reveal_strlit("pp pp pp");
    reveal_strlit("pp pp ff");
    reveal_strlit("pp ff pp");
    reveal_strlit("ff pp pp");
    reveal_strlit("pp ff ff");
    reveal_strlit("ff pp ff");
    reveal_strlit("ff ff pp");
    reveal_strlit("ff ff ff");
    reveal_strlit("pp");
    reveal_strlit("ff");
    reveal_strlit(" ");
    assert("pp pp pp"@ =~= axis_fields(true, true, true));
    assert("pp pp ff"@ =~= axis_fields(true, true, false));
    assert("pp ff pp"@ =~= axis_fields(true, false, true));
    assert("ff pp pp"@ =~= axis_fields(false, true, true));
    assert("pp ff ff"@ =~= axis_fields(true, false, false));
    assert("ff pp ff"@ =~= axis_fields(false, true, false));
    assert("ff ff pp"@ =~= axis_fields(false, false, true));
    assert("ff ff ff"@ =~= axis_fields(false, false, false));
}

/// Each axis of a box is periodic exactly when its field in the box's
/// `BOX BOUNDS` line is `pp`.
pub proof fn lemma_pbc_of_box_line(x: bool, y: bool, z: bool)
    ensures
        pbc_of(box_bounds_line(x, y, z)) == [x, y, z],
{
    lemma_axis_field_literals();
    lemma_box_line_holds_only_its_fields(x, y, z, true, true, true);
    lemma_box_line_holds_only_its_fields(x, y, z, true, true, false);
    lemma_box_line_holds_only_its_fields(x, y, z, true, false, true);
    lemma_box_line_holds_only_its_fields(x, y, z, false, true, true);
    lemma_box_line_holds_only_its_fields(x, y, z, true, false, false);
    lemma_box_line_holds_only_its_fields(x, y, z, false, true, false);
    lemma_box_line_holds_only_its_fields(x, y, z, false, false, true);
    let r = pbc_of(box_bounds_line(x, y, z));
    assert(r =~= [x, y, z]);
}

/// Flags that are not all off are those of axis fields the line holds; a
/// line holding `pp pp pp` is periodic along every axis.
pub proof fn lemma_pbc_of_names_fields(line: Seq<char>)
    ensures
        pbc_of(line) != [false, false, false] ==> contains_seq(
            line,
            axis_fields(pbc_of(line)[0], pbc_of(line)[1], pbc_of(line)[2]),
        ),
        contains_seq(line, axis_fields(true, true, true)) ==> pbc_of(line) == [true, true, true],
{
    lemma_axis_field_literals();
}

/// The text of one frame: the atom ids, symbols and masses in the order the
/// atom lines give them, each atom's other values, the box bounds lines and
/// the periodic flags of the last `ITEM: BOX BOUNDS`.
pub struct LammpsFrame {
    pub indices: Vec<i32>,
    pub symbols: Vec<String>,
    pub masses: Vec<String>,
    pub atoms: Vec<AtomText>,
    pub bounds: Option<Vec<BoundsLine>>,
    pub pbc: Option<[bool; 3]>,
}

/// A frame read so far, in the terms of the specification, with the atom
/// count last read.
pub struct LammpsState {
    pub n_atoms: i32,
    pub indices: Seq<i32>,
    pub symbols: Seq<Seq<char>>,
    pub masses: Seq<Seq<char>>,
    pub atoms: Seq<AtomTextView>,
    pub bounds: Option<Seq<BoundsLineView>>,
    pub pbc: Option<[bool; 3]>,
}

/// Why a frame could not be read.
pub enum LammpsError {
    /// The line after `ITEM: NUMBER OF ATOMS` is no `i32`.
    AtomCount(IntErrorKind),
    /// Atom line `line` (counted in the frame) has no field for column
    /// `column` of its `ITEM: ATOMS` line.
    MissingValue { line: usize, column: usize },
}

/// Why a frame could not be read, in the terms of the specification.
pub enum LammpsFault {
    AtomCount(IntErrorKind),
    MissingValue { line: int, column: int },
}

pub open spec fn bounds_view(b: Option<Vec<BoundsLine>>) -> Option<Seq<BoundsLineView>> {
    match b {
        Some(b) => Some(b@.map_values(|l: BoundsLine| l.view())),
        None => None,
    }
}

impl LammpsFrame {
    pub open spec fn view(&self) -> LammpsState {
        LammpsState {
            n_atoms: 0,
            indices: self.indices@,
            symbols: views(self.symbols@),
            masses: views(self.masses@),
            atoms: self.atoms@.map_values(|a: AtomText| a.view()),
            bounds: bounds_view(self.bounds),
            pbc: self.pbc,
        }
    }
}

pub open spec fn empty_state() -> LammpsState {
    LammpsState {
        n_atoms: 0,
        indices: seq![],
        symbols: seq![],
        masses: seq![],
        atoms: seq![],
        bounds: None,
        pbc: None,
    }
}

/// `st` after one more atom line with fields `vals` under the columns `cols`.
pub open spec fn add_atom(st: LammpsState, cols: Seq<Column>, vals: Seq<Seq<char>>) -> LammpsState {
    LammpsState {
        indices: st.indices + ids_in(cols, vals),
        symbols: st.symbols + texts_in(cols, vals, Column::Element),
        masses: st.masses + texts_in(cols, vals, Column::Mass),
        atoms: st.atoms.push(atom_text(cols, vals)),
        ..st
    }
}

/// `st` after the `k` atom lines from line `from`.
pub open spec fn atoms_fold(
    lines: Seq<Seq<char>>,
    from: int,
    k: int,
    cols: Seq<Column>,
    st: LammpsState,
) -> Result<LammpsState, LammpsFault>
    decreases k,
{
    if k <= 0 {
        Ok(st)
    } else if values_missing(cols, fields(lines[from])) {
        Err(LammpsFault::MissingValue { line: from, column: first_missing_from(cols, fields(lines[from]), 0) })
    } else {
        atoms_fold(lines, from + 1, k - 1, cols, add_atom(st, cols, fields(lines[from])))
    }
}

/// The columns that an `ITEM: ATOMS` line names after its first two fields.
pub open spec fn columns_of_line(line: Seq<char>) -> Seq<Column> {
    let f = fields(line);
    if f.len() <= 2 {
        seq![]
    } else {
        f.skip(2).map_values(|name: Seq<char>| column_of(name))
    }
}

pub open spec fn min_int(a: int, b: int) -> int {
    if a <= b {
        a
    } else {
        b
    }
}

/// `st` after the lines from `pos` on. An `ITEM: NUMBER OF ATOMS` line sets
/// the atom count from the next line; an `ITEM: BOX BOUNDS` line sets the
/// periodic flags and takes up to three bounds lines; an `ITEM: ATOMS` line
/// takes up to that many atom lines; other lines are passed over.
pub open spec fn scan_from(lines: Seq<Seq<char>>, pos: int, st: LammpsState) -> Result<
    LammpsState,
    LammpsFault,
>
    decreases lines.len() - pos,
{
    if pos < 0 || pos >= lines.len() {
        Ok(st)
    } else {
        let line = lines[pos];
        let avail = lines.len() - pos - 1;
        if line.take(("ITEM: NUMBER OF ATOMS"@).len() as int) == "ITEM: NUMBER OF ATOMS"@
            && ("ITEM: NUMBER OF ATOMS"@).len() <= line.len() {
            if avail > 0 {
                match spec_parse_i32(trim(lines[pos + 1])) {
                    Err(e) => Err(LammpsFault::AtomCount(e)),
                    Ok(n) => scan_from(lines, pos + 2, LammpsState { n_atoms: n as i32, ..st }),
                }
            } else {
                Ok(st)
            }
        } else if line.take(("ITEM: BOX BOUNDS"@).len() as int) == "ITEM: BOX BOUNDS"@
            && ("ITEM: BOX BOUNDS"@).len() <= line.len() {
            let k = min_int(3, avail);
            let b = Seq::new(
                3,
                |i: int|
                    if i < k {
                        bounds_line(fields(lines[pos + 1 + i]))
                    } else {
                        BoundsLineView::Unset
                    },
            );
            scan_from(lines, pos + 1 + k, LammpsState { bounds: Some(b), pbc: Some(pbc_of(line)), ..st })
        } else if line.take(("ITEM: ATOMS"@).len() as int) == "ITEM: ATOMS"@ && ("ITEM: ATOMS"@).len()
            <= line.len() {
            let k = min_int(if st.n_atoms > 0 { st.n_atoms as int } else { 0 }, avail);
            match atoms_fold(lines, pos + 1, k, columns_of_line(line), st) {
                Err(f) => Err(f),
                Ok(st2) => scan_from(lines, pos + 1 + k, st2),
            }
        } else {
            scan_from(lines, pos + 1, st)
        }
    }
}

/// What reading one LAMMPS frame from its lines gives.
pub open spec fn spec_lammps_frame(lines: Seq<Seq<char>>) -> Result<LammpsState, LammpsFault> {
    match scan_from(lines, 0, empty_state()) {
        Ok(st) => Ok(LammpsState { n_atoms: 0, ..st }),
        Err(f) => Err(f),
    }
}

pub open spec fn lammps_error_view(e: LammpsError) -> LammpsFault {
    match e {
        LammpsError::AtomCount(k) => LammpsFault::AtomCount(k),
        LammpsError::MissingValue { line, column } => LammpsFault::MissingValue {
            line: line as int,
            column: column as int,
        },
    }
}

/// Whether `line` opens a new LAMMPS frame: it begins with `ITEM: TIMESTEP`.
pub open spec fn is_lammps_header(line: Seq<char>) -> bool {
    ("ITEM: TIMESTEP"@).len() <= line.len() && line.take(("ITEM: TIMESTEP"@).len() as int)
        == "ITEM: TIMESTEP"@
}

/// Whether `line` opens a new LAMMPS frame.
pub fn is_header(line: &str) -> (r: bool)
    ensures
        r == is_lammps_header(line@),
{
    str_starts_with(line, "ITEM: TIMESTEP")
}

/// Whether every vector column of `cols` is one of the twelve.
pub open spec fn valid_columns(cols: Seq<Column>) -> bool {
    forall|i: int| 0 <= i < cols.len() ==> (#[trigger] cols[i] matches Column::Slot(k) ==> k < 12)
}

/// The columns that an `ITEM: ATOMS` line names after its first two fields.
pub fn columns_of(line: &str) -> (r: Vec<Column>)
    ensures
        r@ == columns_of_line(line@),
        valid_columns(r@),
{
    let f = split_fields(line);
    let mut out: Vec<Column> = Vec::new();
    let mut i: usize = 2;
    while i < f.len()
        invariant
            2 <= i,
            views(f@) == fields(line@),
            i <= f@.len() || f@.len() <= 2,
            f@.len() <= 2 ==> i == 2,
            out@.len() == i - 2,
            forall|j: int| 0 <= j < out@.len() ==> #[trigger] out@[j] == column_of(f@[j + 2]@),
            valid_columns(out@),
        decreases f@.len() - i,
    {
        let c = column_of_name(f[i].as_str());
        out.push(c);
        i = i + 1;
    }
    proof {
        if f@.len() > 2 {
            assert(views(f@)[0] == f@[0]@);
            assert(out@ =~= fields(line@).skip(2).map_values(|name: Seq<char>| column_of(name))) by {
                assert forall|j: int| 0 <= j < out@.len() implies out@[j] == fields(line@).skip(2).map_values(|name: Seq<char>| column_of(name))[j] by {
                    assert(views(f@)[j + 2] == f@[j + 2]@);
                }
            }
        } else {
            assert(out@ =~= Seq::<Column>::empty());
        }
    }
    out
}

/// Reads one atom line under the columns `cols`: adds its ids, symbols and
/// masses and gives its other values; `Err(c)` names the first known column
/// `c` past the line's fields.
fn read_atom_line(
    cols: &Vec<Column>,
    line: &str,
    indices: &mut Vec<i32>,
    symbols: &mut Vec<String>,
    masses: &mut Vec<String>,
) -> (r: Result<AtomText, usize>)
    requires
        valid_columns(cols@),
    ensures
        r matches Ok(a) ==> {
            &&& !values_missing(cols@, fields(line@))
            &&& a.view() == atom_text(cols@, fields(line@))
            &&& final(indices)@ == old(indices)@ + ids_in(cols@, fields(line@))
            &&& views(final(symbols)@) == views(old(symbols)@) + texts_in(
                cols@,
                fields(line@),
                Column::Element,
            )
            &&& views(final(masses)@) == views(old(masses)@) + texts_in(
                cols@,
                fields(line@),
                Column::Mass,
            )
        },
        r matches Err(c) ==> values_missing(cols@, fields(line@)) && c < cols@.len() && c
            == first_missing_from(cols@, fields(line@), 0),
{
    let values = split_fields(line);
    let ghost vals = fields(line@);
    let mut charge: Option<String> = None;
    let mut slots: Vec<Option<String>> = vec![None, None, None, None, None, None, None, None, None, None, None, None];
    let ghost ind0 = indices@;
    let ghost sym0 = views(symbols@);
    let ghost mas0 = views(masses@);
    let mut i: usize = 0;
    assert(cols@.take(0) =~= Seq::<Column>::empty());
    while i < cols.len()
        invariant
            i <= cols@.len(),
            valid_columns(cols@),
            views(values@) == vals,
            vals == fields(line@),
            slots@.len() == 12,
            forall|j: int| 0 <= j < i ==> cols@[j] != Column::Other ==> j < vals.len(),
            indices@ == ind0 + ids_in(cols@.take(i as int), vals),
            views(symbols@) == sym0 + texts_in(cols@.take(i as int), vals, Column::Element),
            views(masses@) == mas0 + texts_in(cols@.take(i as int), vals, Column::Mass),
            opt_view(charge) == last_in(cols@.take(i as int), vals, Column::Charge),
            forall|k: int|
                0 <= k < 12 ==> opt_view(#[trigger] slots@[k]) == last_in(
                    cols@.take(i as int),
                    vals,
                    Column::Slot(k as usize),
                ),
        decreases cols@.len() - i,
    {
        let c = cols[i];
        let ghost pre = cols@.take(i as int);
        let ghost post = cols@.take(i + 1);
        assert(post.drop_last() =~= pre);
        assert(post.last() == c);
        if c != Column::Other && i >= values.len() {
            assert(views(values@).len() == values@.len());
            assert(0 <= i < cols@.len() && cols@[i as int] != Column::Other && i >= vals.len());
            assert(values_missing(cols@, vals));
            proof {
                lemma_first_missing(cols@, vals, 0, i as int);
            }
            return Err(i);
        }
        match c {
            Column::Other => {},
            Column::Id => {
                let v = match parse_i32(values[i].as_str()) {
                    Ok(v) => v,
                    Err(_) => 0,
                };
                assert(views(values@)[i as int] == values@[i as int]@);
                indices.push(v);
                assert(indices@ =~= ind0 + ids_in(post, vals));
            },
            Column::Element => {
                assert(views(values@)[i as int] == values@[i as int]@);
                let ghost old_sym = symbols@;
                let t = values[i].clone();
                symbols.push(t);
                assert(views(symbols@) =~= views(old_sym).push(t@));
                assert(views(symbols@) =~= sym0 + texts_in(post, vals, Column::Element));
            },
            Column::Mass => {
                assert(views(values@)[i as int] == values@[i as int]@);
                let ghost old_mas = masses@;
                let t = values[i].clone();
                masses.push(t);
                assert(views(masses@) =~= views(old_mas).push(t@));
                assert(views(masses@) =~= mas0 + texts_in(post, vals, Column::Mass));
            },
            Column::Charge => {
                assert(views(values@)[i as int] == values@[i as int]@);
                charge = Some(values[i].clone());
            },
            Column::Slot(k) => {
                assert(views(values@)[i as int] == values@[i as int]@);
                assert(cols@[i as int] == c);
                slots.set(k, Some(values[i].clone()));
            },
        }
        proof {
            if c != Column::Id {
                assert(ids_in(post, vals) == ids_in(pre, vals));
            }
            if c != Column::Element {
                assert(texts_in(post, vals, Column::Element) == texts_in(pre, vals, Column::Element));
            }
            if c != Column::Mass {
                assert(texts_in(post, vals, Column::Mass) == texts_in(pre, vals, Column::Mass));
            }
            assert forall|k: int|
                0 <= k < 12 implies opt_view(#[trigger] slots@[k]) == last_in(
                post,
                vals,
                Column::Slot(k as usize),
            ) by {
                assert(last_in(post, vals, Column::Slot(k as usize)) == if c == Column::Slot(k as usize) {
                    Some(vals[i as int])
                } else {
                    last_in(pre, vals, Column::Slot(k as usize))
                });
            }
        }
        i = i + 1;
    }
    assert(cols@.take(cols@.len() as int) =~= cols@);
    let a = AtomText { charge, slots };
    assert(a.view().slots =~= atom_text(cols@, vals).slots);
    Ok(a)
}

/// The periodic flags that an `ITEM: BOX BOUNDS` line names.
pub fn pbc_of_line(line: &str) -> (r: [bool; 3])
    ensures
        r == pbc_of(line@),
{
    if str_contains(line, "pp pp pp") {
        [true, true, true]
    } else if str_contains(line, "pp pp ff") {
        [true, true, false]
    } else if str_contains(line, "pp ff pp") {
        [true, false, true]
    } else if str_contains(line, "ff pp pp") {
        [false, true, true]
    } else if str_contains(line, "pp ff ff") {
        [true, false, false]
    } else if str_contains(line, "ff pp ff") {
        [false, true, false]
    } else if str_contains(line, "ff ff pp") {
        [false, false, true]
    } else {
        [false, false, false]
    }
}

/// What a bounds line sets.
pub fn bounds_line_of(line: &str) -> (r: BoundsLine)
    ensures
        r.view() == bounds_line(fields(line@)),
{
    let f = split_fields(line);
    assert(views(f@).len() == f@.len());
    if f.len() == 2 {
        assert(views(f@)[0] == f@[0]@ && views(f@)[1] == f@[1]@);
        BoundsLine::Pair(f[0].clone(), f[1].clone())
    } else if f.len() == 3 {
        assert(views(f@)[0] == f@[0]@ && views(f@)[1] == f@[1]@ && views(f@)[2] == f@[2]@);
        BoundsLine::Triple(f[0].clone(), f[1].clone(), f[2].clone())
    } else {
        BoundsLine::Unset
    }
}

/// Reads one LAMMPS dump frame from its lines: the atom count after
/// `ITEM: NUMBER OF ATOMS`, the box after `ITEM: BOX BOUNDS`, and the atom
/// lines after `ITEM: ATOMS`, each value under the column that the
/// `ITEM: ATOMS` line names. Fails where the atom count is no `i32`, and where
/// an atom line lacks a value for a known column.
pub fn parse_timestep(lines: &Vec<String>) -> (r: Result<LammpsFrame, LammpsError>)
    ensures
        match r {
            Ok(f) => spec_lammps_frame(views(lines@)) == Ok::<LammpsState, LammpsFault>(f.view()),
            Err(e) => spec_lammps_frame(views(lines@)) == Err::<LammpsState, LammpsFault>(
                lammps_error_view(e),
            ),
        },
{
    let ghost ls = views(lines@);
    let n_lines = lines.len();
    let mut n_atoms: i32 = 0;
    let mut indices: Vec<i32> = Vec::new();
    let mut symbols: Vec<String> = Vec::new();
    let mut masses: Vec<String> = Vec::new();
    let mut atoms: Vec<AtomText> = Vec::new();
    let mut bounds: Option<Vec<BoundsLine>> = None;
    let mut pbc: Option<[bool; 3]> = None;
    let mut pos: usize = 0;
    proof {
        let st = LammpsState {
            n_atoms,
            indices: indices@,
            symbols: views(symbols@),
            masses: views(masses@),
            atoms: atoms@.map_values(|a: AtomText| a.view()),
            bounds: None,
            pbc,
        };
        assert(st == empty_state()) by {
            assert(views(symbols@) =~= Seq::<Seq<char>>::empty());
            assert(views(masses@) =~= Seq::<Seq<char>>::empty());
            assert(atoms@.map_values(|a: AtomText| a.view()) =~= Seq::<AtomTextView>::empty());
        }
    }
    while pos < n_lines
        invariant
            pos <= n_lines == lines@.len(),
            ls == views(lines@),
            scan_from(ls, 0, empty_state()) == scan_from(
                ls,
                pos as int,
                LammpsState {
                    n_atoms,
                    indices: indices@,
                    symbols: views(symbols@),
                    masses: views(masses@),
                    atoms: atoms@.map_values(|a: AtomText| a.view()),
                    bounds: bounds_view(bounds),
                    pbc,
                },
            ),
        decreases n_lines - pos,
    {
        let ghost st = LammpsState {
            n_atoms,
            indices: indices@,
            symbols: views(symbols@),
            masses: views(masses@),
            atoms: atoms@.map_values(|a: AtomText| a.view()),
            bounds: bounds_view(bounds),
            pbc,
        };
        let line = lines[pos].as_str();
        assert(ls[pos as int] == line@);
        if str_starts_with(line, "ITEM: NUMBER OF ATOMS") {
            if pos + 1 < n_lines {
                assert(ls[pos + 1] == lines@[pos + 1]@);
                let t = trimmed(lines[pos + 1].as_str());
                match parse_i32(t.as_str()) {
                    Ok(n) => {
                        n_atoms = n;
                        pos = pos + 2;
                    },
                    Err(e) => {
                        return Err(LammpsError::AtomCount(e));
                    },
                }
            } else {
                pos = n_lines;
            }
        } else if str_starts_with(line, "ITEM: BOX BOUNDS") {
            let flags = pbc_of_line(line);
            let avail = n_lines - pos - 1;
            let k: usize = if avail < 3 {
                avail
            } else {
                3
            };
            let mut b: Vec<BoundsLine> = Vec::new();
            let mut i: usize = 0;
            while i < 3
                invariant
                    i <= 3,
                    k <= 3,
                    pos + 1 + k <= n_lines == lines@.len(),
                    ls == views(lines@),
                    b@.len() == i,
                    forall|j: int|
                        0 <= j < i ==> (#[trigger] b@[j]).view() == if j < k {
                            bounds_line(fields(ls[pos + 1 + j]))
                        } else {
                            BoundsLineView::Unset
                        },
                decreases 3 - i,
            {
                if i < k {
                    assert(ls[pos + 1 + i] == lines@[pos + 1 + i]@);
                    b.push(bounds_line_of(lines[pos + 1 + i].as_str()));
                } else {
                    b.push(BoundsLine::Unset);
                }
                i = i + 1;
            }
            assert(b@.map_values(|l: BoundsLine| l.view()) =~= Seq::new(
                3,
                |j: int|
                    if j < k {
                        bounds_line(fields(ls[pos + 1 + j]))
                    } else {
                        BoundsLineView::Unset
                    },
            ));
            bounds = Some(b);
            pbc = Some(flags);
            pos = pos + 1 + k;
        } else if str_starts_with(line, "ITEM: ATOMS") {
            let cols = columns_of(line);
            let avail = n_lines - pos - 1;
            let want: usize = if n_atoms > 0 {
                n_atoms as usize
            } else {
                0
            };
            let k: usize = if want < avail {
                want
            } else {
                avail
            };
            let ghost c = cols@;
            assert(scan_from(ls, pos as int, st) == match atoms_fold(ls, pos + 1, k as int, c, st) {
                Err(f) => Err(f),
                Ok(st2) => scan_from(ls, pos + 1 + k, st2),
            });
            let mut j: usize = 0;
            while j < k
                invariant
                    j <= k,
                    scan_from(ls, 0, empty_state()) == match atoms_fold(ls, pos + 1, k as int, c, st) {
                        Err(f) => Err(f),
                        Ok(st2) => scan_from(ls, pos + 1 + k, st2),
                    },
                    pos + 1 + k <= n_lines == lines@.len(),
                    ls == views(lines@),
                    c == cols@,
                    valid_columns(c),
                    atoms_fold(ls, pos + 1, k as int, c, st) == atoms_fold(
                        ls,
                        pos + 1 + j,
                        k - j,
                        c,
                        LammpsState {
                            n_atoms,
                            indices: indices@,
                            symbols: views(symbols@),
                            masses: views(masses@),
                            atoms: atoms@.map_values(|a: AtomText| a.view()),
                            bounds: bounds_view(bounds),
                            pbc,
                        },
                    ),
                decreases k - j,
            {
                assert(ls[pos + 1 + j] == lines@[pos + 1 + j]@);
                let ghost old_atoms = atoms@;
                match read_atom_line(
                    &cols,
                    lines[pos + 1 + j].as_str(),
                    &mut indices,
                    &mut symbols,
                    &mut masses,
                ) {
                    Ok(a) => {
                        atoms.push(a);
                        assert(atoms@.map_values(|x: AtomText| x.view()) =~= old_atoms.map_values(
                            |x: AtomText| x.view(),
                        ).push(a.view()));
                    },
                    Err(col) => {
                        assert(atoms_fold(ls, pos + 1 + j, k - j, c, LammpsState {
                            n_atoms,
                            indices: indices@,
                            symbols: views(symbols@),
                            masses: views(masses@),
                            atoms: atoms@.map_values(|a: AtomText| a.view()),
                            bounds: bounds_view(bounds),
                            pbc,
                        }) is Err);
                        return Err(LammpsError::MissingValue { line: pos + 1 + j, column: col });
                    },
                }
                j = j + 1;
            }
            pos = pos + 1 + k;
        } else {
            pos = pos + 1;
        }
    }
    let frame = LammpsFrame { indices, symbols, masses, atoms, bounds, pbc };
    Ok(frame)
}

} // verus!
