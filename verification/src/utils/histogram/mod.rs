//! Counting values into bins, and grouping per-molecule values by the bin
//! their oxygen's height falls in.
pub mod generate_bins;
pub mod histogram_1d;
