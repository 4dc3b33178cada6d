//! Corvus: the decision core of an autonomous coding agent.

pub mod cli;
pub mod engine;
pub mod events;
pub mod filter;
pub mod ident;
pub mod laws;
pub mod message;
pub mod operations;
pub mod pairing;
pub mod pipeline;
pub mod provider_error;
pub mod render;
pub mod sandbox;
pub mod search;
pub mod session;
pub mod text;
pub mod tool;
