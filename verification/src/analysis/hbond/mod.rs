pub mod hb_find;
pub mod statistics;
