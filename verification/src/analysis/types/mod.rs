pub mod enums;
pub mod molecule;
