//! Node-query protocol layer of a blockchain full node.
//!
//! The crate has three parts: a protocol responder that maps a closed set of
//! typed requests onto an abstract node capability ([`server`]), the
//! partial-block reconstruction algorithm that filters a block down to a
//! requested transaction subset ([`filter`]), and a durable trust-anchor
//! store that remembers, per network, the highest block a client has
//! validated ([`store`], with its file format in [`codec`]).

pub mod codec;
pub mod filter;
pub mod hash;
pub mod server;
pub mod store;
pub mod vocab;
