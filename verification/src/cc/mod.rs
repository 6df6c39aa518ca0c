//! Call control of the base station: the timer-driven decisions on group and individual
//! calls.
pub mod timers;
pub mod tick;
