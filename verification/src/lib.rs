//! Verified core of a software TETRA base station: subscriber bookkeeping, mobility
//! management and short-data decisions, the Brew backhaul bridge, uplink defragmentation
//! and the small parsers around them.
pub mod registry;
pub mod brew;
pub mod mm;
pub mod tdma;
pub mod bits;
pub mod umac;
pub mod cc;
pub mod text;
pub mod text_ops;
pub mod chars;
pub mod telemetry;
pub mod radioid;
pub mod websocket;
pub mod sds;
