//! Upper MAC of the base station.
pub mod bs_defrag;
