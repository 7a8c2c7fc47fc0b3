//! Verified core of the Linkora social contract: profiles, posts, the follow
//! graph, blocks, likes, tips with a treasury fee, and multi-signature pools.
//!
//! The contract state is a plain value ([`state::Linkora`]); every operation is
//! a step from the old state to a new state together with the token transfers
//! and events that the host must carry out.

pub mod fee;
pub mod types;
pub mod spec;
pub mod state;
pub mod laws;
pub mod parts;
pub mod history;
pub mod behaviour;
