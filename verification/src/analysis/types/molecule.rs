//! What a molecule's hydrogen bonds are recorded as.
use vstd::prelude::*;

use crate::analysis::types::enums::HBondKind;

verus! {

/// A hydrogen bond seen from one molecule: the partner's oxygen, the
/// partner's molecule type, and whether this molecule donates or accepts.
#[derive(Debug, Clone)]
pub struct HydrogenBondPartner {
    pub partner_o_idx: i32,
    pub partner_moltype: Option<String>,
    pub h_bond_type: HBondKind,
}

} // verus!
