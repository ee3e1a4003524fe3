//! Physical data of the elements.
pub mod atomic_data;
