//! Velocity correlations for spectra: the kind of spectrum asked for, the
//! files a correlation reads, which O-H bonds it follows with which sign,
//! and which other bonds each one is correlated with.
use vstd::prelude::*;
use vstd::string::StringExecFns;

use crate::analysis::hbond::statistics::{filter_view, matches_target_type, passes_filter};
use crate::text::{decimal, decimal_text, has_char, same_text};

verus! {

/// The spectra that can be computed.
#[derive(Debug, Clone, Copy, PartialEq, Eq, Structural)]
pub enum SpectrumKind {
    Ir,
    Sfg,
}

/// The spectrum a name asks for: `IR` where no name is given; the names
/// are `IR` and `SFG`, in capitals.
pub open spec fn spectrum_named(name: Option<Seq<char>>) -> Option<SpectrumKind> {
    match name {
        None => Some(SpectrumKind::Ir),
        Some(n) => if n == "IR"@ {
            Some(SpectrumKind::Ir)
        } else if n == "SFG"@ {
            Some(SpectrumKind::Sfg)
        } else {
            None
        },
    }
}

/// The spectrum that `spectrum` asks for, or `None` where it names none.
pub fn spectrum_kind(spectrum: &Option<String>) -> (r: Option<SpectrumKind>)
    ensures
        r == spectrum_named(
            match spectrum {
                Some(s) => Some(s@),
                None => None,
            },
        ),
{
    match spectrum {
        None => Some(SpectrumKind::Ir),
        Some(s) => {
            if same_text(s.as_str(), "IR") {
                Some(SpectrumKind::Ir)
            } else if same_text(s.as_str(), "SFG") {
                Some(SpectrumKind::Sfg)
            } else {
                None
            }
        },
    }
}

/// The path of the file holding the dipole and polarizability terms of
/// frame `t`: `<dir>/dipole_polar_<t>.bin`.
pub fn dipole_file_path(dir: &str, t: usize) -> (r: String)
    ensures
        r@ == dir@ + "/dipole_polar_"@ + decimal(t as nat) + ".bin"@,
{
    let mut r = dir.to_owned();
    r.append("/dipole_polar_");
    let d = decimal_text(t);
    r.append(d.as_str());
    r.append(".bin");
    r
}

/// The type a correlation reads off a bond: its own, or the empty text.
pub open spec fn type_text(t: Option<String>) -> Seq<char> {
    match t {
        Some(s) => s@,
        None => seq![],
    }
}

/// How a correlation treats a bond of type `t`: not at all where the type
/// fails the filter, else with a positive sign where the type holds an `L`
/// (a bond of the lower surface) and a negative sign otherwise.
pub open spec fn bond_treatment(t: Seq<char>, filter: Option<Seq<Seq<char>>>) -> Option<bool> {
    if passes_filter(t, filter) {
        Some(t.contains('L'))
    } else {
        None
    }
}

/// A correlation follows a bond exactly when its type passes the filter,
/// and then with a positive sign exactly when some character of the type is
/// `L`: a bond whose type has no `L` (bulk, upper surface, or none) is
/// followed with a negative sign.
pub proof fn lemma_bond_treatment_sign(t: Seq<char>, filter: Option<Seq<Seq<char>>>)
    ensures
        bond_treatment(t, filter) is Some <==> passes_filter(t, filter),
        bond_treatment(t, filter) == Some(true) <==> passes_filter(t, filter) && exists|k: int|
            0 <= k < t.len() && #[trigger] t[k] == 'L',
        bond_treatment(t, filter) == Some(false) <==> passes_filter(t, filter) && forall|k: int|
            0 <= k < t.len() ==> #[trigger] t[k] != 'L',
{
}

/// For each bond, by its type at the time origin: whether the correlation
/// follows it (`Some`) and with a positive sign (`Some(true)`).
pub fn correlated_bonds(oh_types: &Vec<Option<String>>, filter: &Option<Vec<String>>) -> (r: Vec<
    Option<bool>,
>)
    ensures
        r@.len() == oh_types@.len(),
        forall|i: int|
            0 <= i < r@.len() ==> r@[i] == bond_treatment(
                type_text(#[trigger] oh_types@[i]),
                filter_view(filter),
            ),
{
    let mut out: Vec<Option<bool>> = Vec::new();
    let mut i: usize = 0;
    while i < oh_types.len()
        invariant
            i <= oh_types@.len(),
            out@.len() == i,
            forall|j: int|
                0 <= j < i ==> out@[j] == bond_treatment(
                    type_text(#[trigger] oh_types@[j]),
                    filter_view(filter),
                ),
        decreases oh_types@.len() - i,
    {
        let empty = String::new();
        let t: &str = match &oh_types[i] {
            Some(s) => s.as_str(),
            None => empty.as_str(),
        };
        assert(t@ == type_text(oh_types@[i as int]));
        let treat = if matches_target_type(t, filter) {
            Some(has_char(t, 'L'))
        } else {
            None
        };
        out.push(treat);
        i = i + 1;
    }
    out
}

/// The bonds correlated with bond `i` besides itself: those on the same
/// oxygen (`.0`, the intramolecular terms) and those on another oxygen
/// (`.1`, the candidates for the intermolecular terms), each in order.
pub open spec fn partners_of(o: Seq<i32>, i: int, same: bool, n: int) -> Seq<int>
    decreases n,
{
    if n <= 0 {
        seq![]
    } else {
        let before = partners_of(o, i, same, n - 1);
        let j = n - 1;
        if j != i && (o[j] == o[i]) == same {
            before.push(j)
        } else {
            before
        }
    }
}

pub open spec fn usizes_view(v: Seq<usize>) -> Seq<int> {
    v.map_values(|j: usize| j as int)
}

/// The bonds correlated with bond `i`, by the oxygen of each bond: the
/// other bonds on its oxygen, and the bonds on other oxygens.
pub fn correlation_partners(o_indices: &Vec<i32>, i: usize) -> (r: (Vec<usize>, Vec<usize>))
    requires
        i < o_indices@.len(),
    ensures
        usizes_view(r.0@) == partners_of(o_indices@, i as int, true, o_indices@.len() as int),
        usizes_view(r.1@) == partners_of(o_indices@, i as int, false, o_indices@.len() as int),
{
    let mut intra: Vec<usize> = Vec::new();
    let mut inter: Vec<usize> = Vec::new();
    let oi = o_indices[i];
    let mut j: usize = 0;
    while j < o_indices.len()
        invariant
            j <= o_indices@.len(),
            i < o_indices@.len(),
            oi == o_indices@[i as int],
            usizes_view(intra@) == partners_of(o_indices@, i as int, true, j as int),
            usizes_view(inter@) == partners_of(o_indices@, i as int, false, j as int),
        decreases o_indices@.len() - j,
    {
        if j != i {
            if o_indices[j] == oi {
                let ghost before = intra@;
                intra.push(j);
                assert(usizes_view(intra@) =~= usizes_view(before).push(j as int));
            } else {
                let ghost before = inter@;
                inter.push(j);
                assert(usizes_view(inter@) =~= usizes_view(before).push(j as int));
            }
        }
        j = j + 1;
    }
    (intra, inter)
}

} // verus!
