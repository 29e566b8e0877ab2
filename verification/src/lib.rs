//! Peer registry and wire codec of a peer-to-peer node.
//!
//! Two sibling subsystems live here: a registry of known peers kept in two
//! indices of a key-value store (by address and by recency), and the binary
//! frames that nodes exchange to list and fetch data blobs and to report
//! errors. Every function carries a contract over byte sequences and maps,
//! and the laws that tie the functions together are stated as proof functions.

pub mod errors;
pub mod encoding;
pub mod network;
pub mod digest;
pub mod data;
pub mod time;
pub mod store;
pub mod models;
