//! The analyses: density profiles, orientation distributions, hydrogen-bond
//! statistics, reorientation dynamics and spectroscopy. What they decide and
//! count stands here; the geometry in floating point stays with the caller.
pub mod density_profile;
pub mod hbond;
pub mod orient_dist;
pub mod reorient_dynamics;
pub mod schedule;
pub mod spectroscopy;
pub mod types;
