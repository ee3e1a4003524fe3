pub mod pre_process;
pub mod vvacf;
