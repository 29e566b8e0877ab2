//! The entities that a node keeps.

pub mod output;
pub mod peer;
pub mod peer_laws;
pub mod wallet;
