//! Preparing a frame for spectroscopy: which atoms are oxygens of waters
//! and silanols, how a silanol's oxygen finds its hydrogen, the layer and
//! state labels of molecules, and how the O-H bonds of a frame are laid out.
use vstd::prelude::*;
use vstd::string::StringExecFns;

use std::collections::HashMap;

use crate::analysis::density_profile::accumulate_counts::holds_index;
use crate::text::{digit_char, has_char, same_text, views};
use crate::utils::order_key::{OrderKey, key_le, key_lt, le, lt};

verus! {

broadcast use vstd::std_specs::hash::group_hash_axioms;

// ---------------------------------------------------------------------------
// Roles of atoms
// ---------------------------------------------------------------------------

/// What a frame's atoms are sorted into before its molecules are built.
pub enum AtomRole {
    /// Any oxygen.
    Oxygen,
    /// An oxygen listed among the silanol atoms.
    SilanolOxygen,
    /// A hydrogen listed among the silanol atoms.
    SilanolHydrogen,
    /// An oxygen listed among the water atoms.
    WaterOxygen,
}

/// Whether atom `i`, of symbol `s`, plays `role`, given the atoms listed as
/// silanol (`silanol`) and as water (`water`) by their position as `i32`.
pub open spec fn plays(role: AtomRole, i: int, s: Seq<char>, silanol: Seq<i32>, water: Seq<i32>) -> bool {
    match role {
        AtomRole::Oxygen => s == "O"@,
        AtomRole::SilanolOxygen => s == "O"@ && silanol.contains(i as i32),
        AtomRole::SilanolHydrogen => s == "H"@ && silanol.contains(i as i32),
        AtomRole::WaterOxygen => s == "O"@ && water.contains(i as i32),
    }
}

/// The positions (as `i32`, in order) of the first `n` atoms that play
/// `role`.
pub open spec fn picked(
    syms: Seq<Seq<char>>,
    role: AtomRole,
    silanol: Seq<i32>,
    water: Seq<i32>,
    n: int,
) -> Seq<i32>
    decreases n,
{
    if n <= 0 {
        seq![]
    } else {
        let before = picked(syms, role, silanol, water, n - 1);
        if plays(role, n - 1, syms[n - 1], silanol, water) {
            before.push((n - 1) as i32)
        } else {
            before
        }
    }
}

/// The atoms of a frame by role, as positions in `symbols`: all oxygens;
/// oxygens and hydrogens listed in `index_silanol`; oxygens listed in
/// `index_water`.
pub fn precompute_indices(symbols: &Vec<String>, index_silanol: &Vec<i32>, index_water: &Vec<i32>) -> (r: (
    Vec<i32>,
    Vec<i32>,
    Vec<i32>,
    Vec<i32>,
))
    ensures
        r.0@ == picked(views(symbols@), AtomRole::Oxygen, index_silanol@, index_water@, symbols@.len() as int),
        r.1@ == picked(
            views(symbols@),
            AtomRole::SilanolOxygen,
            index_silanol@,
            index_water@,
            symbols@.len() as int,
        ),
        r.2@ == picked(
            views(symbols@),
            AtomRole::SilanolHydrogen,
            index_silanol@,
            index_water@,
            symbols@.len() as int,
        ),
        r.3@ == picked(
            views(symbols@),
            AtomRole::WaterOxygen,
            index_silanol@,
            index_water@,
            symbols@.len() as int,
        ),
{
    let ghost syms = views(symbols@);
    let mut oxygens: Vec<i32> = Vec::new();
    let mut silanol_o: Vec<i32> = Vec::new();
    let mut silanol_h: Vec<i32> = Vec::new();
    let mut water_o: Vec<i32> = Vec::new();
    let mut i: usize = 0;
    while i < symbols.len()
        invariant
            i <= symbols@.len(),
            syms == views(symbols@),
            oxygens@ == picked(syms, AtomRole::Oxygen, index_silanol@, index_water@, i as int),
            silanol_o@ == picked(syms, AtomRole::SilanolOxygen, index_silanol@, index_water@, i as int),
            silanol_h@ == picked(syms, AtomRole::SilanolHydrogen, index_silanol@, index_water@, i as int),
            water_o@ == picked(syms, AtomRole::WaterOxygen, index_silanol@, index_water@, i as int),
        decreases symbols@.len() - i,
    {
        let s = symbols[i].as_str();
        assert(syms[i as int] == s@);
        let at = i as i32;
        let is_o = same_text(s, "O");
        let is_h = same_text(s, "H");
        let in_silanol = holds_index(index_silanol, at);
        let in_water = holds_index(index_water, at);
        if is_o {
            oxygens.push(at);
        }
        if is_o && in_silanol {
            silanol_o.push(at);
        }
        if is_h && in_silanol {
            silanol_h.push(at);
        }
        if is_o && in_water {
            water_o.push(at);
        }
        i = i + 1;
    }
    (oxygens, silanol_o, silanol_h, water_o)
}

// ---------------------------------------------------------------------------
// Silanol oxygen to hydrogen
// ---------------------------------------------------------------------------

/// The map from the first `n` silanol oxygens to the hydrogens paired with
/// them side by side; a later pair for the same oxygen replaces an earlier.
pub open spec fn pairs_map(o: Seq<i32>, h: Seq<i32>, n: int) -> Map<i32, i32>
    decreases n,
{
    if n <= 0 {
        Map::empty()
    } else {
        pairs_map(o, h, n - 1).insert(o[n - 1], h[n - 1])
    }
}

/// The shorter of two lengths.
pub open spec fn shorter(a: nat, b: nat) -> nat {
    if a <= b {
        a
    } else {
        b
    }
}

/// Pairs silanol oxygens with silanol hydrogens side by side, up to the
/// shorter list: the hydrogen of each oxygen.
pub fn silanol_pairs(oxygens: &Vec<i32>, hydrogens: &Vec<i32>) -> (m: HashMap<i32, i32>)
    ensures
        m@ == pairs_map(oxygens@, hydrogens@, shorter(oxygens@.len(), hydrogens@.len()) as int),
{
    let n: usize = if oxygens.len() <= hydrogens.len() {
        oxygens.len()
    } else {
        hydrogens.len()
    };
    let mut m: HashMap<i32, i32> = HashMap::new();
    let mut k: usize = 0;
    while k < n
        invariant
            k <= n,
            n == shorter(oxygens@.len(), hydrogens@.len()),
            m@ == pairs_map(oxygens@, hydrogens@, k as int),
        decreases n - k,
    {
        m.insert(oxygens[k], hydrogens[k]);
        k = k + 1;
    }
    m
}

/// The hydrogen paired with silanol oxygen `o`, if any.
pub fn paired_hydrogen(pairs: &HashMap<i32, i32>, o: i32) -> (r: Option<i32>)
    ensures
        r == (if pairs@.contains_key(o) {
            Some(pairs@[o])
        } else {
            None
        }),
{
    match pairs.get(&o) {
        Some(h) => Some(*h),
        None => None,
    }
}

// ---------------------------------------------------------------------------
// Layers and labels
// ---------------------------------------------------------------------------

/// Whether height `z` lies in the right-open layer `[lo, hi)`.
pub open spec fn in_layer(z: OrderKey, layer: [OrderKey; 2]) -> bool {
    key_le(layer[0], z) && key_lt(z, layer[1])
}

/// The first of `layers` from `from` on that holds `z`.
pub open spec fn first_layer_from(z: OrderKey, layers: Seq<[OrderKey; 2]>, from: int) -> Option<int>
    decreases layers.len() - from,
{
    if from < 0 || from >= layers.len() {
        None
    } else if in_layer(z, layers[from]) {
        Some(from)
    } else {
        first_layer_from(z, layers, from + 1)
    }
}

/// The first of the water layers `layers` that holds height `z`.
pub fn first_layer(z: OrderKey, layers: &Vec<[OrderKey; 2]>) -> (r: Option<usize>)
    ensures
        match r {
            Some(i) => first_layer_from(z, layers@, 0) == Some(i as int),
            None => first_layer_from(z, layers@, 0) is None,
        },
{
    let mut i: usize = layers.len();
    let mut found: Option<usize> = None;
    while i > 0
        invariant
            i <= layers@.len(),
            match found {
                Some(j) => first_layer_from(z, layers@, i as int) == Some(j as int),
                None => first_layer_from(z, layers@, i as int) is None,
            },
        decreases i,
    {
        i = i - 1;
        let layer = layers[i];
        if le(layer[0], z) && lt(z, layer[1]) {
            found = Some(i);
        }
    }
    found
}

/// The orientation state of a water molecule, from its HH and dipole
/// angles to the surface normal.
#[derive(Debug, Clone, Copy, PartialEq, Eq, Structural)]
pub enum WaterState {
    S2,
    S1,
    SB,
    P,
    B1,
    B2,
    NA,
}

/// The orientation state of a silanol: donating, accepting, or neither.
#[derive(Debug, Clone, Copy, PartialEq, Eq, Structural)]
pub enum SilanolState {
    D,
    A,
    NA,
}

/// The name of a water state in labels.
pub open spec fn water_state_text(s: WaterState) -> Seq<char> {
    match s {
        WaterState::S2 => "S2"@,
        WaterState::S1 => "S1"@,
        WaterState::SB => "SB"@,
        WaterState::P => "P"@,
        WaterState::B1 => "B1"@,
        WaterState::B2 => "B2"@,
        WaterState::NA => "NA"@,
    }
}

/// The name of a silanol state in labels.
pub open spec fn silanol_state_text(s: SilanolState) -> Seq<char> {
    match s {
        SilanolState::D => "D"@,
        SilanolState::A => "A"@,
        SilanolState::NA => "NA"@,
    }
}

/// The name of water layer `layer`, counted from the lower surface; in the
/// layers next to a surface, `near_surface` tells the inner part (`1a`)
/// from the outer (`1b`).
pub open spec fn water_layer_text(layer: int, near_surface: bool) -> Seq<char> {
    if layer == 0 {
        if near_surface {
            "W-1a-L"@
        } else {
            "W-1b-L"@
        }
    } else if layer == 1 {
        "W-2-L"@
    } else if layer == 2 {
        "W-3-L"@
    } else if layer == 3 {
        "W-B"@
    } else if layer == 4 {
        "W-3-U"@
    } else if layer == 5 {
        "W-2-U"@
    } else if layer == 6 {
        if near_surface {
            "W-1a-U"@
        } else {
            "W-1b-U"@
        }
    } else {
        "W"@
    }
}

/// The type label of a water molecule: `W` where it lies in no layer, else
/// the layer's name, a hyphen and the state's.
pub open spec fn water_type_text(layer: Option<usize>, near_surface: bool, state: WaterState) -> Seq<char> {
    match layer {
        None => "W"@,
        Some(i) => water_layer_text(i as int, near_surface) + seq!['-'] + water_state_text(state),
    }
}

/// How the layers of water are named from the two surfaces inward: the
/// layer next to the lower surface (`0`) is `W-1a-L` or `W-1b-L`, layer `i`
/// for `1 <= i <= 2` is `W-(i+1)-L`, the middle layer (`3`) is `W-B`, layer
/// `6 - i` is `W-(i+1)-U` for `1 <= i <= 2`, and the layer next to the upper
/// surface (`6`) is `W-1a-U` or `W-1b-U`.
pub proof fn lemma_water_layer_names(i: int, near_surface: bool)
    ensures
        1 <= i <= 2 ==> water_layer_text(i, near_surface) == "W-"@ + seq![digit_char(i + 1)] + "-L"@,
        1 <= i <= 2 ==> water_layer_text(6 - i, near_surface) == "W-"@ + seq![digit_char(i + 1)] + "-U"@,
        water_layer_text(0, near_surface) == "W-1"@ + seq![if near_surface { 'a' } else { 'b' }] + "-L"@,
        water_layer_text(6, near_surface) == "W-1"@ + seq![if near_surface { 'a' } else { 'b' }] + "-U"@,
        water_layer_text(3, near_surface) == "W-B"@,
{
    reveal_strlit("W-");
    reveal_strlit("-L");
    reveal_strlit("-U");
    reveal_strlit("W-1");
    reveal_strlit("W-1a-L");
    reveal_strlit("W-1b-L");
    reveal_strlit("W-2-L");
    reveal_strlit("W-3-L");
    reveal_strlit("W-3-U");
    reveal_strlit("W-2-U");
    reveal_strlit("W-1a-U");
    reveal_strlit("W-1b-U");
    if i == 1 {
        assert(water_layer_text(i, near_surface) =~= "W-"@ + seq![digit_char(i + 1)] + "-L"@);
        assert(water_layer_text(6 - i, near_surface) =~= "W-"@ + seq![digit_char(i + 1)] + "-U"@);
    } else if i == 2 {
        assert(water_layer_text(i, near_surface) =~= "W-"@ + seq![digit_char(i + 1)] + "-L"@);
        assert(water_layer_text(6 - i, near_surface) =~= "W-"@ + seq![digit_char(i + 1)] + "-U"@);
    }
    assert(water_layer_text(0, near_surface) =~= "W-1"@ + seq![if near_surface { 'a' } else { 'b' }] + "-L"@);
    assert(water_layer_text(6, near_surface) =~= "W-1"@ + seq![if near_surface { 'a' } else { 'b' }] + "-U"@);
}

/// The length, third character and last character of a layer's name.
proof fn lemma_water_layer_shape(i: int, near_surface: bool)
    requires
        0 <= i <= 6,
    ensures
        ({
            let t = water_layer_text(i, near_surface);
            &&& t.len() == (if i == 0 || i == 6 { 6int } else if i == 3 { 3int } else { 5int })
            &&& t[2] == (if i == 0 || i == 6 { '1' } else if i == 1 || i == 5 { '2' } else if i == 3 { 'B' } else { '3' })
            &&& t[t.len() - 1] == (if i < 3 { 'L' } else if i == 3 { 'B' } else { 'U' })
            &&& (i == 0 || i == 6) ==> t[3] == (if near_surface { 'a' } else { 'b' })
        }),
{
    reveal_strlit("W-1a-L");
    reveal_strlit("W-1b-L");
    reveal_strlit("W-2-L");
    reveal_strlit("W-3-L");
    reveal_strlit("W-B");
    reveal_strlit("W-3-U");
    reveal_strlit("W-2-U");
    reveal_strlit("W-1a-U");
    reveal_strlit("W-1b-U");
}

/// Different layers get different names, and the two parts of a layer next
/// to a surface get different names.
pub proof fn lemma_water_layer_names_distinct(i: int, near_i: bool, j: int, near_j: bool)
    requires
        0 <= i <= 6,
        0 <= j <= 6,
        i != j || ((i == 0 || i == 6) && near_i != near_j),
    ensures
        water_layer_text(i, near_i) != water_layer_text(j, near_j),
{
    lemma_water_layer_shape(i, near_i);
    lemma_water_layer_shape(j, near_j);
    let a = water_layer_text(i, near_i);
    let b = water_layer_text(j, near_j);
    if a == b {
        assert(a.len() == b.len());
        assert(a[2] == b[2]);
        assert(a[a.len() - 1] == b[b.len() - 1]);
        if i == j {
            assert(a[3] == b[3]);
        }
    }
}

/// The type label of a silanol: `S` where no substrate center is given,
/// else `S-U` (above it) or `S-L`, a hyphen and the state's name.
pub open spec fn silanol_type_text(above: Option<bool>, state: SilanolState) -> Seq<char> {
    match above {
        None => "S"@,
        Some(true) => "S-U"@ + seq!['-'] + silanol_state_text(state),
        Some(false) => "S-L"@ + seq!['-'] + silanol_state_text(state),
    }
}

/// `a`, a hyphen, then `b`.
fn hyphenated(a: &str, b: &str) -> (r: String)
    ensures
        r@ == a@ + seq!['-'] + b@,
{
    let mut r = a.to_owned();
    r.append("-");
    proof {
        reveal_strlit("-");
    }
    r.append(b);
    r
}

fn water_state_name(s: WaterState) -> (r: &'static str)
    ensures
        r@ == water_state_text(s),
{
    match s {
        WaterState::S2 => "S2",
        WaterState::S1 => "S1",
        WaterState::SB => "SB",
        WaterState::P => "P",
        WaterState::B1 => "B1",
        WaterState::B2 => "B2",
        WaterState::NA => "NA",
    }
}

fn silanol_state_name(s: SilanolState) -> (r: &'static str)
    ensures
        r@ == silanol_state_text(s),
{
    match s {
        SilanolState::D => "D",
        SilanolState::A => "A",
        SilanolState::NA => "NA",
    }
}

/// The type label of a water molecule in layer `layer` (none where it lies
/// in no layer or no layers are given).
pub fn water_mol_type(layer: Option<usize>, near_surface: bool, state: WaterState) -> (r: String)
    ensures
        r@ == water_type_text(layer, near_surface, state),
{
    match layer {
        None => "W".to_owned(),
        Some(i) => {
            let base: &str = if i == 0 {
                if near_surface {
                    "W-1a-L"
                } else {
                    "W-1b-L"
                }
            } else if i == 1 {
                "W-2-L"
            } else if i == 2 {
                "W-3-L"
            } else if i == 3 {
                "W-B"
            } else if i == 4 {
                "W-3-U"
            } else if i == 5 {
                "W-2-U"
            } else if i == 6 {
                if near_surface {
                    "W-1a-U"
                } else {
                    "W-1b-U"
                }
            } else {
                "W"
            };
            hyphenated(base, water_state_name(state))
        },
    }
}

/// The type label of a silanol whose oxygen lies above the substrate
/// center (`Some(true)`), below or at it (`Some(false)`), or where no
/// center is given (`None`).
pub fn silanol_mol_type(above: Option<bool>, state: SilanolState) -> (r: String)
    ensures
        r@ == silanol_type_text(above, state),
{
    match above {
        None => "S".to_owned(),
        Some(true) => hyphenated("S-U", silanol_state_name(state)),
        Some(false) => hyphenated("S-L", silanol_state_name(state)),
    }
}

// ---------------------------------------------------------------------------
// Modes
// ---------------------------------------------------------------------------

/// What a frame is read for.
#[derive(Debug, Clone, Copy, PartialEq, Eq, Structural)]
pub enum ReadMode {
    Spectrum,
    CrossCorr,
}

/// The mode a name asks for: `spectrum` or `crosscorr`; any other name asks
/// for none, and is handed back.
pub fn read_mode_of(mode: &str) -> (r: Result<ReadMode, String>)
    ensures
        mode@ == "spectrum"@ ==> r == Ok::<ReadMode, String>(ReadMode::Spectrum),
        mode@ != "spectrum"@ && mode@ == "crosscorr"@ ==> r == Ok::<ReadMode, String>(ReadMode::CrossCorr),
        mode@ != "spectrum"@ && mode@ != "crosscorr"@ ==> (r matches Err(s) && s@ == mode@),
{
    if same_text(mode, "spectrum") {
        Ok(ReadMode::Spectrum)
    } else if same_text(mode, "crosscorr") {
        Ok(ReadMode::CrossCorr)
    } else {
        Err(mode.to_owned())
    }
}

// ---------------------------------------------------------------------------
// The O-H bonds of a frame
// ---------------------------------------------------------------------------

/// What the layout of a frame's O-H bonds reads of a molecule.
pub struct MoleculeSummary {
    pub o_idx: i32,
    pub h1_idx: Option<i32>,
    pub h2_idx: Option<i32>,
    pub mol_type: Option<String>,
}

/// One O-H bond of a frame: the molecule it belongs to (its position among
/// the frame's molecules) and its two atoms.
#[derive(Debug, Clone, Copy, PartialEq, Eq, Structural)]
pub struct OhBond {
    pub molecule: usize,
    pub o_idx: i32,
    pub h_idx: i32,
}

/// Whether a molecule's type names a water: it holds a `W`.
pub open spec fn is_water_type(m: MoleculeSummary) -> bool {
    m.mol_type matches Some(s) && s@.contains('W')
}

/// Whether a molecule's type names a silanol: it holds no `W` but an `S`.
pub open spec fn is_silanol_type(m: MoleculeSummary) -> bool {
    &&& !is_water_type(m)
    &&& m.mol_type matches Some(s) && s@.contains('S')
}

/// Whether a molecule carries the hydrogens its type asks for: both for a
/// water, the first for a silanol.
pub open spec fn hydrogens_given(m: MoleculeSummary) -> bool {
    &&& is_water_type(m) ==> m.h1_idx is Some && m.h2_idx is Some
    &&& is_silanol_type(m) ==> m.h1_idx is Some
}

/// The O-H bonds of molecules `ms`, in order: two per water (to its first
/// and second hydrogen), one per silanol, none for others.
pub open spec fn oh_layout(ms: Seq<MoleculeSummary>) -> Seq<(int, i32, i32)>
    decreases ms.len(),
{
    if ms.len() == 0 {
        seq![]
    } else {
        let before = oh_layout(ms.drop_last());
        let k = ms.len() - 1;
        let m = ms.last();
        if is_water_type(m) {
            before.push((k, m.o_idx, m.h1_idx->0)).push((k, m.o_idx, m.h2_idx->0))
        } else if is_silanol_type(m) {
            before.push((k, m.o_idx, m.h1_idx->0))
        } else {
            before
        }
    }
}

pub open spec fn bonds_view(v: Seq<OhBond>) -> Seq<(int, i32, i32)> {
    v.map_values(|b: OhBond| (b.molecule as int, b.o_idx, b.h_idx))
}

proof fn lemma_oh_layout_prefix(ms: Seq<MoleculeSummary>, k: int)
    requires
        0 <= k <= ms.len(),
    ensures
        oh_layout(ms.take(k)).len() <= oh_layout(ms).len(),
    decreases ms.len() - k,
{
    if k < ms.len() {
        lemma_oh_layout_prefix(ms, k + 1);
        assert(ms.take(k + 1).drop_last() =~= ms.take(k));
    } else {
        assert(ms.take(k) =~= ms);
    }
}

/// Whether some character of a molecule's type is `letter`.
pub open spec fn type_has_letter(m: MoleculeSummary, letter: char) -> bool {
    m.mol_type matches Some(s) && exists|c: int| 0 <= c < s@.len() && #[trigger] s@[c] == letter
}

/// Whether a laid-out bond belongs to molecule `k`.
pub open spec fn of_molecule(k: int) -> spec_fn((int, i32, i32)) -> bool {
    |e: (int, i32, i32)| e.0 == k
}

/// The bonds that a molecule at position `k` adds: both its O-H bonds
/// where its type has a `W` (whatever else it has), else the bond to its
/// first hydrogen where its type has an `S`, else none.
pub open spec fn molecule_bonds(m: MoleculeSummary, k: int) -> Seq<(int, i32, i32)> {
    if type_has_letter(m, 'W') {
        seq![(k, m.o_idx, m.h1_idx->0), (k, m.o_idx, m.h2_idx->0)]
    } else if type_has_letter(m, 'S') {
        seq![(k, m.o_idx, m.h1_idx->0)]
    } else {
        seq![]
    }
}

proof fn lemma_oh_layout_molecules(ms: Seq<MoleculeSummary>)
    ensures
        forall|b: int| 0 <= b < oh_layout(ms).len() ==> 0 <= (#[trigger] oh_layout(ms)[b]).0 < ms.len(),
    decreases ms.len(),
{
    if ms.len() > 0 {
        let prev = oh_layout(ms.drop_last());
        lemma_oh_layout_molecules(ms.drop_last());
        assert forall|b: int| 0 <= b < oh_layout(ms).len() implies 0 <= (#[trigger] oh_layout(ms)[b]).0
            < ms.len() by {
            if b < prev.len() {
                assert(oh_layout(ms)[b] == prev[b]);
            }
        }
    }
}

/// The layout lists, for each molecule, exactly the bonds that its type
/// calls for, in order: two for a type with a `W`, one for a type with an
/// `S` but no `W`, none otherwise.
pub proof fn lemma_oh_layout_per_molecule(ms: Seq<MoleculeSummary>, k: int)
    requires
        0 <= k < ms.len(),
    ensures
        oh_layout(ms).filter(of_molecule(k)) == molecule_bonds(ms[k], k),
    decreases ms.len(),
{
    broadcast use vstd::seq_lib::group_filter_ensures;

    let n = ms.len() - 1;
    let front = ms.drop_last();
    let m = ms.last();
    let head = oh_layout(front);
    let extra = molecule_bonds(m, n);
    let pred = of_molecule(k);
    assert(is_water_type(m) == type_has_letter(m, 'W'));
    assert(m.mol_type matches Some(s) && s@.contains('S') <==> type_has_letter(m, 'S'));
    assert(oh_layout(ms) =~= head + extra);
    Seq::filter_distributes_over_add(head, extra, pred);
    reveal_with_fuel(Seq::filter, 3);
    if k == n {
        lemma_oh_layout_molecules(front);
        assert forall|b: int| 0 <= b < head.len() implies !pred(#[trigger] head[b]) by {}
        if head.filter(pred).len() > 0 {
            let e = head.filter(pred)[0];
            assert(pred(e));
            assert(head.filter(pred).contains(e));
            head.lemma_filter_contains_rev(pred, e);
            let b = choose|b: int| 0 <= b < head.len() && head[b] == e;
            assert(!pred(head[b]));
        }
        assert(head.filter(pred) =~= Seq::<(int, i32, i32)>::empty());
        assert(extra.filter(pred) =~= extra);
    } else {
        lemma_oh_layout_per_molecule(front, k);
        assert(front[k] == ms[k]);
        assert(extra.filter(pred) =~= Seq::<(int, i32, i32)>::empty());
    }
}

/// The O-H bonds of a frame's molecules for a spectrum: each bond in
/// order, how many there are, and the map from each bond's number to its
/// oxygen and hydrogen.
pub fn spectrum_oh_bonds(molecules: &Vec<MoleculeSummary>) -> (r: (i32, Vec<OhBond>, HashMap<i32, Vec<i32>>))
    requires
        forall|k: int| 0 <= k < molecules@.len() ==> hydrogens_given(#[trigger] molecules@[k]),
        oh_layout(molecules@).len() <= i32::MAX,
    ensures
        bonds_view(r.1@) == oh_layout(molecules@),
        r.0 == oh_layout(molecules@).len(),
        r.2@.dom() == Set::new(|n: i32| 0 <= n < r.0),
        forall|n: i32|
            0 <= n < r.0 ==> (#[trigger] r.2@[n])@ == seq![
                oh_layout(molecules@)[n as int].1,
                oh_layout(molecules@)[n as int].2,
            ],
{
    let mut n_ohs: i32 = 0;
    let mut bonds: Vec<OhBond> = Vec::new();
    let mut atoms: HashMap<i32, Vec<i32>> = HashMap::new();
    let mut k: usize = 0;
    while k < molecules.len()
        invariant
            k <= molecules@.len(),
            forall|j: int| 0 <= j < molecules@.len() ==> hydrogens_given(#[trigger] molecules@[j]),
            oh_layout(molecules@).len() <= i32::MAX,
            bonds_view(bonds@) == oh_layout(molecules@.take(k as int)),
            n_ohs == bonds@.len(),
            atoms@.dom() == Set::new(|n: i32| 0 <= n < n_ohs),
            forall|n: i32|
                0 <= n < n_ohs ==> (#[trigger] atoms@[n])@ == seq![
                    bonds_view(bonds@)[n as int].1,
                    bonds_view(bonds@)[n as int].2,
                ],
        decreases molecules@.len() - k,
    {
        let ghost post = molecules@.take(k + 1);
        assert(post.drop_last() =~= molecules@.take(k as int));
        proof {
            lemma_oh_layout_prefix(molecules@, k + 1);
        }
        let m = &molecules[k];
        assert(post.last() == *m);
        assert(hydrogens_given(molecules@[k as int]));
        let water = match &m.mol_type {
            Some(s) => has_char(s.as_str(), 'W'),
            None => false,
        };
        let silanol = !water && match &m.mol_type {
            Some(s) => has_char(s.as_str(), 'S'),
            None => false,
        };
        let ghost before = bonds_view(bonds@);
        if water {
            let h1 = m.h1_idx.unwrap();
            let h2 = m.h2_idx.unwrap();
            atoms.insert(n_ohs, vec![m.o_idx, h1]);
            bonds.push(OhBond { molecule: k, o_idx: m.o_idx, h_idx: h1 });
            n_ohs = n_ohs + 1;
            atoms.insert(n_ohs, vec![m.o_idx, h2]);
            bonds.push(OhBond { molecule: k, o_idx: m.o_idx, h_idx: h2 });
            n_ohs = n_ohs + 1;
            assert(bonds_view(bonds@) =~= before.push((k as int, m.o_idx, h1)).push((k as int, m.o_idx, h2)));
        } else if silanol {
            let h1 = m.h1_idx.unwrap();
            atoms.insert(n_ohs, vec![m.o_idx, h1]);
            bonds.push(OhBond { molecule: k, o_idx: m.o_idx, h_idx: h1 });
            n_ohs = n_ohs + 1;
            assert(bonds_view(bonds@) =~= before.push((k as int, m.o_idx, h1)));
        }
        assert(atoms@.dom() =~= Set::new(|n: i32| 0 <= n < n_ohs));
        k = k + 1;
    }
    assert(molecules@.take(molecules@.len() as int) =~= molecules@);
    (n_ohs, bonds, atoms)
}

} // verus!
