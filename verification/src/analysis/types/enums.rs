//! Kinds of molecules and of hydrogen bonds.
use vstd::prelude::*;

verus! {

/// The kind of a molecule: water, silanol, or another, named.
#[derive(Debug, Clone)]
pub enum MolKind {
    W,
    S,
    Other(String),
}

/// The side a molecule takes in a hydrogen bond.
#[derive(Debug, Clone, Copy, PartialEq, Eq, Structural)]
pub enum HBondKind {
    Donor,
    Acceptor,
}

} // verus!
