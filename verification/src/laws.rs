//! What holds of the library as a whole.

pub mod approval;
pub mod compaction;
pub mod engine;
pub mod execution;
pub mod facts;
pub mod recovery;
pub mod rendering;
pub mod requests;
pub mod sandbox;
pub mod session;
pub mod terminal;
pub mod text;
pub mod transcript;
pub mod upstream;
pub mod views;
