//! Analysis of hydration layers at solid/water interfaces: reading
//! trajectory files into frames, choosing the frames an analysis visits,
//! counting heights and angles into bins, finding and counting hydrogen
//! bonds, labeling molecules, and laying out the O-H bonds that velocity
//! correlations follow. Real numbers enter as order keys (see
//! `utils::order_key`); floating-point geometry is left to callers.
pub mod analysis;
pub mod io;
pub mod text;
pub mod utils;
