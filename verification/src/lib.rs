//! A tick-driven network multiplexer core.
//!
//! Bridges typed application events to an unreliable, address-keyed packet
//! transport. Once per host tick the dispatch loop forwards buffered outgoing
//! events for every known connection, drains inbound raw packets under a
//! bounded per-tick budget, matches packets to existing connections, and
//! creates new connections for unknown senders.

pub mod codec;
pub mod dispatch;
pub mod laws;
pub mod registry;
pub mod types;
pub mod worker;
