//! Histograms over ordered values and tables of physical data.
pub mod histogram;
pub mod order_key;
pub mod physchem;
