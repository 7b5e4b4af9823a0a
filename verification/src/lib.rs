//! Bootstrap and message-exchange core of a routing node in a distributed hash table.
//!
//! The crate holds the node's state and life cycle, the wire frame of the messages that
//! nodes exchange, and the bookkeeping of connections, liveness and group membership. Every
//! function carries a contract that Verus proves; the few calls into other crates stand
//! behind declarations whose contracts are taken on trust and say so.

pub mod caches;
pub mod codec;
pub mod connection_cache;
pub mod connection_index;
pub mod crypto;
pub mod error;
pub mod expiry;
pub mod messages;
pub mod name_map;
pub mod node_interface;
pub mod pairs;
pub mod public_id_cache;
pub mod random;
pub mod relay;
pub mod routing_membrane;
pub mod routing_node;
pub mod routing_table;
pub mod types;
pub mod wire;
