//! Hydrogen-bond statistics: which molecules a survey counts, and the bonds
//! they donate to and accept from silanols and waters.
use vstd::prelude::*;

use crate::analysis::types::enums::HBondKind;
use crate::analysis::types::molecule::HydrogenBondPartner;
use crate::text::{chars_of, contains_seq, str_contains, views};

verus! {

/// Whether a molecule type passes a filter: no filter, or every token of
/// the filter occurs in the type.
pub open spec fn passes_filter(mol_type: Seq<char>, filter: Option<Seq<Seq<char>>>) -> bool {
    match filter {
        None => true,
        Some(tokens) => all_occur(mol_type, tokens),
    }
}

/// Whether every one of `tokens` occurs in `mol_type`.
pub open spec fn all_occur(mol_type: Seq<char>, tokens: Seq<Seq<char>>) -> bool {
    forall|i: int| 0 <= i < tokens.len() ==> contains_seq(mol_type, #[trigger] tokens[i])
}

pub open spec fn filter_view(filter: &Option<Vec<String>>) -> Option<Seq<Seq<char>>> {
    match filter {
        Some(v) => Some(views(v@)),
        None => None,
    }
}

/// Whether `mol_type` passes `filter`: with no filter, or an empty one,
/// every type passes; otherwise every token must occur in the type.
pub fn matches_target_type(mol_type: &str, filter: &Option<Vec<String>>) -> (r: bool)
    ensures
        r == passes_filter(mol_type@, filter_view(filter)),
{
    match filter {
        None => true,
        Some(tokens) => {
            let mut i: usize = 0;
            while i < tokens.len()
                invariant
                    i <= tokens@.len(),
                    filter_view(filter) == Some(views(tokens@)),
                    views(tokens@).len() == tokens@.len(),
                    forall|j: int| 0 <= j < i ==> contains_seq(mol_type@, #[trigger] views(tokens@)[j]),
                decreases tokens@.len() - i,
            {
                assert(views(tokens@)[i as int] == tokens@[i as int]@);
                if !str_contains(mol_type, tokens[i].as_str()) {
                    assert(!contains_seq(mol_type@, views(tokens@)[i as int]));
                    assert(!all_occur(mol_type@, views(tokens@)));
                    return false;
                }
                i = i + 1;
            }
            true
        },
    }
}

/// Whether a molecule type is present and begins with `c`.
pub open spec fn type_begins(t: Option<Seq<char>>, c: char) -> bool {
    t matches Some(s) && s.len() > 0 && s[0] == c
}

pub open spec fn opt_str_view(o: Option<String>) -> Option<Seq<char>> {
    match o {
        Some(s) => Some(s@),
        None => None,
    }
}

/// What a survey reads of a molecule: its type and its bonds.
pub struct MoleculeBonds {
    pub mol_type: Option<String>,
    pub partners: Option<Vec<HydrogenBondPartner>>,
}

/// The bonds that the counted molecules of a frame donate to silanols,
/// accept from silanols, donate to waters and accept from waters, and the
/// number of molecules counted.
#[derive(Debug, Clone, Copy, PartialEq, Eq, Structural)]
pub struct HBondCounts {
    pub donated_to_silanol: usize,
    pub accepted_from_silanol: usize,
    pub donated_to_water: usize,
    pub accepted_from_water: usize,
    pub target_molecules: usize,
}

/// The counts of one bond: which of the four tallies it adds to, by its
/// kind and by the partner's type (silanol `S...` before water `W...`).
pub open spec fn bond_tally(p: HydrogenBondPartner) -> (nat, nat, nat, nat) {
    let t = opt_str_view(p.partner_moltype);
    let is_s = type_begins(t, 'S');
    let is_w = type_begins(t, 'W');
    match p.h_bond_type {
        HBondKind::Donor => if is_s {
            (1, 0, 0, 0)
        } else if is_w {
            (0, 0, 1, 0)
        } else {
            (0, 0, 0, 0)
        },
        HBondKind::Acceptor => if is_s {
            (0, 1, 0, 0)
        } else if is_w {
            (0, 0, 0, 1)
        } else {
            (0, 0, 0, 0)
        },
    }
}

/// A bond counts toward silanols exactly when its partner's type begins
/// with `S`, and toward waters exactly when it begins with `W`; a donated
/// bond goes to the donated tallies, an accepted one to the accepted
/// tallies, and each bond adds at most one.
pub proof fn lemma_bond_tally_by_initial(p: HydrogenBondPartner)
    ensures
        bond_tally(p).0 == (if p.h_bond_type is Donor && (p.partner_moltype matches Some(s) && s@.len() > 0
            && s@[0] == 'S') {
            1int
        } else {
            0int
        }),
        bond_tally(p).1 == (if p.h_bond_type is Acceptor && (p.partner_moltype matches Some(s) && s@.len()
            > 0 && s@[0] == 'S') {
            1int
        } else {
            0int
        }),
        bond_tally(p).2 == (if p.h_bond_type is Donor && (p.partner_moltype matches Some(s) && s@.len() > 0
            && s@[0] == 'W') {
            1int
        } else {
            0int
        }),
        bond_tally(p).3 == (if p.h_bond_type is Acceptor && (p.partner_moltype matches Some(s) && s@.len()
            > 0 && s@[0] == 'W') {
            1int
        } else {
            0int
        }),
{
}

pub open spec fn add4(a: (nat, nat, nat, nat), b: (nat, nat, nat, nat)) -> (nat, nat, nat, nat) {
    (a.0 + b.0, a.1 + b.1, a.2 + b.2, a.3 + b.3)
}

/// The tallies of a list of bonds.
pub open spec fn bonds_tally(ps: Seq<HydrogenBondPartner>) -> (nat, nat, nat, nat)
    decreases ps.len(),
{
    if ps.len() == 0 {
        (0, 0, 0, 0)
    } else {
        add4(bonds_tally(ps.drop_last()), bond_tally(ps.last()))
    }
}

/// Whether a survey counts a molecule: its type, or the empty text where it
/// has none, passes the filter.
pub open spec fn counted(m: MoleculeBonds, filter: Option<Seq<Seq<char>>>) -> bool {
    passes_filter(
        match opt_str_view(m.mol_type) {
            Some(s) => s,
            None => Seq::empty(),
        },
        filter,
    )
}

/// The tallies of a frame's counted molecules, and how many they are.
pub open spec fn frame_tally(ms: Seq<MoleculeBonds>, filter: Option<Seq<Seq<char>>>) -> (
    nat,
    nat,
    nat,
    nat,
    nat,
)
    decreases ms.len(),
{
    if ms.len() == 0 {
        (0, 0, 0, 0, 0)
    } else {
        let b = frame_tally(ms.drop_last(), filter);
        let m = ms.last();
        if counted(m, filter) {
            let t = match m.partners {
                Some(ps) => bonds_tally(ps@),
                None => (0, 0, 0, 0),
            };
            (b.0 + t.0, b.1 + t.1, b.2 + t.2, b.3 + t.3, b.4 + 1)
        } else {
            b
        }
    }
}

/// The number of bonds the molecules list.
pub open spec fn bonds_listed(ms: Seq<MoleculeBonds>) -> nat
    decreases ms.len(),
{
    if ms.len() == 0 {
        0
    } else {
        bonds_listed(ms.drop_last()) + match ms.last().partners {
            Some(ps) => ps@.len(),
            None => 0,
        }
    }
}

/// The bonds a molecule's list adds to the four counts are at most the
/// bonds it lists.
pub proof fn lemma_bonds_tally_le(ps: Seq<HydrogenBondPartner>)
    ensures
        bonds_tally(ps).0 + bonds_tally(ps).1 + bonds_tally(ps).2 + bonds_tally(ps).3 <= ps.len(),
    decreases ps.len(),
{
    if ps.len() > 0 {
        lemma_bonds_tally_le(ps.drop_last());
    }
}

/// A frame's tallies never exceed what it lists: the four bond counts
/// together are at most the bonds its molecules list, and the molecules
/// counted at most its molecules.
pub proof fn lemma_frame_tally_le(ms: Seq<MoleculeBonds>, filter: Option<Seq<Seq<char>>>)
    ensures
        frame_tally(ms, filter).0 + frame_tally(ms, filter).1 + frame_tally(ms, filter).2
            + frame_tally(ms, filter).3 <= bonds_listed(ms),
        frame_tally(ms, filter).4 <= ms.len(),
    decreases ms.len(),
{
    if ms.len() > 0 {
        lemma_frame_tally_le(ms.drop_last(), filter);
        match ms.last().partners {
            Some(ps) => lemma_bonds_tally_le(ps@),
            None => {},
        }
    }
}

/// Whether a molecule type is present and begins with `c`.
fn begins_with(t: &Option<String>, c: char) -> (r: bool)
    ensures
        r == type_begins(opt_str_view(*t), c),
{
    match t {
        Some(s) => {
            let v = chars_of(s.as_str());
            v.len() > 0 && v[0] == c
        },
        None => false,
    }
}

/// Counts the hydrogen bonds of one frame's molecules that pass
/// `target_type`: bonds donated to and accepted from silanols (partner type
/// beginning `S`) and waters (beginning `W`), and the molecules counted.
pub fn count_frame_hbonds(molecules: &Vec<MoleculeBonds>, target_type: &Option<Vec<String>>) -> (r: HBondCounts)
    requires
        bonds_listed(molecules@) <= usize::MAX,
    ensures
        (
            r.donated_to_silanol as nat,
            r.accepted_from_silanol as nat,
            r.donated_to_water as nat,
            r.accepted_from_water as nat,
            r.target_molecules as nat,
        ) == frame_tally(molecules@, filter_view(target_type)),
{
    let ghost f = filter_view(target_type);
    let mut c = HBondCounts {
        donated_to_silanol: 0,
        accepted_from_silanol: 0,
        donated_to_water: 0,
        accepted_from_water: 0,
        target_molecules: 0,
    };
    let mut k: usize = 0;
    while k < molecules.len()
        invariant
            k <= molecules@.len(),
            f == filter_view(target_type),
            bonds_listed(molecules@) <= usize::MAX,
            (
                c.donated_to_silanol as nat,
                c.accepted_from_silanol as nat,
                c.donated_to_water as nat,
                c.accepted_from_water as nat,
                c.target_molecules as nat,
            ) == frame_tally(molecules@.take(k as int), f),
        decreases molecules@.len() - k,
    {
        let ghost pre = molecules@.take(k as int);
        let ghost post = molecules@.take(k + 1);
        assert(post.drop_last() =~= pre);
        let m = &molecules[k];
        assert(post.last() == *m);
        proof {
            lemma_frame_tally_le(post, f);
            lemma_bonds_listed_prefix(molecules@, k + 1);
        }
        let passes = match &m.mol_type {
            Some(s) => matches_target_type(s.as_str(), target_type),
            None => {
                let empty = String::new();
                matches_target_type(empty.as_str(), target_type)
            },
        };
        if passes {
            c.target_molecules = c.target_molecules + 1;
            match &m.partners {
                Some(ps) => {
                    let mut i: usize = 0;
                    let ghost base = c;
                    while i < ps.len()
                        invariant
                            i <= ps@.len(),
                            c.target_molecules == base.target_molecules,
                            (
                                (c.donated_to_silanol - base.donated_to_silanol) as nat,
                                (c.accepted_from_silanol - base.accepted_from_silanol) as nat,
                                (c.donated_to_water - base.donated_to_water) as nat,
                                (c.accepted_from_water - base.accepted_from_water) as nat,
                            ) == bonds_tally(ps@.take(i as int)),
                            c.donated_to_silanol >= base.donated_to_silanol,
                            c.accepted_from_silanol >= base.accepted_from_silanol,
                            c.donated_to_water >= base.donated_to_water,
                            c.accepted_from_water >= base.accepted_from_water,
                            base.donated_to_silanol + base.accepted_from_silanol + base.donated_to_water
                                + base.accepted_from_water + bonds_tally(ps@).0 + bonds_tally(ps@).1
                                + bonds_tally(ps@).2 + bonds_tally(ps@).3 <= usize::MAX,
                        decreases ps@.len() - i,
                    {
                        let ghost ppre = ps@.take(i as int);
                        let ghost ppost = ps@.take(i + 1);
                        assert(ppost.drop_last() =~= ppre);
                        proof {
                            lemma_bonds_tally_prefix(ps@, i + 1);
                        }
                        let p = &ps[i];
                        assert(ppost.last() == *p);
                        let is_s = begins_with(&p.partner_moltype, 'S');
                        let is_w = begins_with(&p.partner_moltype, 'W');
                        match p.h_bond_type {
                            HBondKind::Donor => {
                                if is_s {
                                    c.donated_to_silanol = c.donated_to_silanol + 1;
                                } else if is_w {
                                    c.donated_to_water = c.donated_to_water + 1;
                                }
                            },
                            HBondKind::Acceptor => {
                                if is_s {
                                    c.accepted_from_silanol = c.accepted_from_silanol + 1;
                                } else if is_w {
                                    c.accepted_from_water = c.accepted_from_water + 1;
                                }
                            },
                        }
                        i = i + 1;
                    }
                    assert(ps@.take(ps@.len() as int) =~= ps@);
                },
                None => {},
            }
        }
        k = k + 1;
    }
    assert(molecules@.take(molecules@.len() as int) =~= molecules@);
    c
}

proof fn lemma_bonds_listed_prefix(ms: Seq<MoleculeBonds>, k: int)
    requires
        0 <= k <= ms.len(),
    ensures
        bonds_listed(ms.take(k)) <= bonds_listed(ms),
    decreases ms.len() - k,
{
    if k < ms.len() {
        lemma_bonds_listed_prefix(ms, k + 1);
        assert(ms.take(k + 1).drop_last() =~= ms.take(k));
    } else {
        assert(ms.take(k) =~= ms);
    }
}

proof fn lemma_bonds_tally_prefix(ps: Seq<HydrogenBondPartner>, k: int)
    requires
        0 <= k <= ps.len(),
    ensures
        bonds_tally(ps.take(k)).0 <= bonds_tally(ps).0,
        bonds_tally(ps.take(k)).1 <= bonds_tally(ps).1,
        bonds_tally(ps.take(k)).2 <= bonds_tally(ps).2,
        bonds_tally(ps.take(k)).3 <= bonds_tally(ps).3,
    decreases ps.len() - k,
{
    if k < ps.len() {
        lemma_bonds_tally_prefix(ps, k + 1);
        assert(ps.take(k + 1).drop_last() =~= ps.take(k));
    } else {
        assert(ps.take(k) =~= ps);
    }
}

/// The counts of a run of frames, summed field by field.
pub open spec fn counts_sum(fs: Seq<HBondCounts>) -> (nat, nat, nat, nat, nat)
    decreases fs.len(),
{
    if fs.len() == 0 {
        (0, 0, 0, 0, 0)
    } else {
        let b = counts_sum(fs.drop_last());
        let c = fs.last();
        (
            b.0 + c.donated_to_silanol as nat,
            b.1 + c.accepted_from_silanol as nat,
            b.2 + c.donated_to_water as nat,
            b.3 + c.accepted_from_water as nat,
            b.4 + c.target_molecules as nat,
        )
    }
}

proof fn lemma_counts_sum_prefix(fs: Seq<HBondCounts>, k: int)
    requires
        0 <= k <= fs.len(),
    ensures
        counts_sum(fs.take(k)).0 <= counts_sum(fs).0,
        counts_sum(fs.take(k)).1 <= counts_sum(fs).1,
        counts_sum(fs.take(k)).2 <= counts_sum(fs).2,
        counts_sum(fs.take(k)).3 <= counts_sum(fs).3,
        counts_sum(fs.take(k)).4 <= counts_sum(fs).4,
    decreases fs.len() - k,
{
    if k < fs.len() {
        lemma_counts_sum_prefix(fs, k + 1);
        assert(fs.take(k + 1).drop_last() =~= fs.take(k));
    } else {
        assert(fs.take(k) =~= fs);
    }
}

/// The totals of a survey: each count summed over its frames.
pub fn sum_hbond_counts(frames: &Vec<HBondCounts>) -> (r: HBondCounts)
    requires
        counts_sum(frames@).0 <= usize::MAX,
        counts_sum(frames@).1 <= usize::MAX,
        counts_sum(frames@).2 <= usize::MAX,
        counts_sum(frames@).3 <= usize::MAX,
        counts_sum(frames@).4 <= usize::MAX,
    ensures
        (
            r.donated_to_silanol as nat,
            r.accepted_from_silanol as nat,
            r.donated_to_water as nat,
            r.accepted_from_water as nat,
            r.target_molecules as nat,
        ) == counts_sum(frames@),
{
    let mut t = HBondCounts {
        donated_to_silanol: 0,
        accepted_from_silanol: 0,
        donated_to_water: 0,
        accepted_from_water: 0,
        target_molecules: 0,
    };
    let mut k: usize = 0;
    while k < frames.len()
        invariant
            k <= frames@.len(),
            counts_sum(frames@).0 <= usize::MAX,
            counts_sum(frames@).1 <= usize::MAX,
            counts_sum(frames@).2 <= usize::MAX,
            counts_sum(frames@).3 <= usize::MAX,
            counts_sum(frames@).4 <= usize::MAX,
            (
                t.donated_to_silanol as nat,
                t.accepted_from_silanol as nat,
                t.donated_to_water as nat,
                t.accepted_from_water as nat,
                t.target_molecules as nat,
            ) == counts_sum(frames@.take(k as int)),
        decreases frames@.len() - k,
    {
        let ghost post = frames@.take(k + 1);
        assert(post.drop_last() =~= frames@.take(k as int));
        proof {
            lemma_counts_sum_prefix(frames@, k + 1);
        }
        let c = frames[k];
        assert(post.last() == c);
        t.donated_to_silanol = t.donated_to_silanol + c.donated_to_silanol;
        t.accepted_from_silanol = t.accepted_from_silanol + c.accepted_from_silanol;
        t.donated_to_water = t.donated_to_water + c.donated_to_water;
        t.accepted_from_water = t.accepted_from_water + c.accepted_from_water;
        t.target_molecules = t.target_molecules + c.target_molecules;
        k = k + 1;
    }
    assert(frames@.take(frames@.len() as int) =~= frames@);
    t
}

/// The frames among `fs`, in order, that counted at least one molecule:
/// those that enter the average of per-frame means.
pub open spec fn frames_with_targets(fs: Seq<HBondCounts>) -> Seq<HBondCounts>
    decreases fs.len(),
{
    if fs.len() == 0 {
        seq![]
    } else if fs.last().target_molecules > 0 {
        frames_with_targets(fs.drop_last()).push(fs.last())
    } else {
        frames_with_targets(fs.drop_last())
    }
}

/// The frames that counted at least one molecule, in order.
pub fn counted_frames(frames: &Vec<HBondCounts>) -> (r: Vec<HBondCounts>)
    ensures
        r@ == frames_with_targets(frames@),
{
    let mut out: Vec<HBondCounts> = Vec::new();
    let mut k: usize = 0;
    while k < frames.len()
        invariant
            k <= frames@.len(),
            out@ == frames_with_targets(frames@.take(k as int)),
        decreases frames@.len() - k,
    {
        let ghost post = frames@.take(k + 1);
        assert(post.drop_last() =~= frames@.take(k as int));
        let c = frames[k];
        assert(post.last() == c);
        if c.target_molecules > 0 {
            out.push(c);
        }
        k = k + 1;
    }
    assert(frames@.take(frames@.len() as int) =~= frames@);
    out
}

} // verus!
