//! Lavish: a schema-driven RPC toolkit whose payloads travel as MessagePack.
//!
//! This crate holds the verified core: the MessagePack framing primitives
//! (`msgpack`), the `Factual` encoding of values with translation tables
//! (`facts`), and the sample service's data types and handler logic.

pub mod msgpack;
pub mod facts;
pub mod services;
pub mod server;
pub mod client;
pub mod demo;
