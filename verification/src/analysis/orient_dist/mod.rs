pub mod oh_bond_orient;
