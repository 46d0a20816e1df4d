//! A validated table of minimum transaction fees per token, with a cached
//! digest of its contents that can be appended to a node's responder id.

pub mod digest;
pub mod fee_map;
pub mod laws;
pub mod listing;
pub mod token;
