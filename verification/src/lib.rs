//! Node logic for a small message-passing cluster: a gossiping broadcast
//! node, a per-topic append-only log, and a generator of unique ids.
//!
//! Every node is a plain state machine: a request goes in together with the
//! node's state, and the reply comes out together with the work that the
//! caller has to carry out on the network.

pub mod broadcast;
pub mod kafka;
pub mod unique_id;
