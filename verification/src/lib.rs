//! Nodes for the Maelstrom distributed-systems workbench: message
//! envelopes, the init handshake, and the echo, unique-id and broadcast
//! nodes, each written as a pure step from state and input to next state
//! and outgoing messages.

pub mod animals;
pub mod ownership;
pub mod message;
pub mod decimal;
pub mod uniq_ids;
pub mod echo;
pub mod standalone;
pub mod collections;
pub mod single_node_broadcast;
pub mod broadcast;
