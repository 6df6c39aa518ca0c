//! Brew backhaul bridge: the call/session bookkeeping of the entity that connects the cell to
//! a remote switching network, and of the worker that speaks the wire protocol.
//!
//! Everything here is decision logic over plain values. Sessions are identified by their
//! 128-bit UUID value; channels, threads and the transport live around the library.
pub mod entity;
pub mod voice;
pub mod worker;
