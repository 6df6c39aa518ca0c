//! Mobility management of the base station: registration, group attachment and energy
//! saving of the mobile stations.
pub mod messages;
pub mod mm_bs;
