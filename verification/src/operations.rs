//! The operations of the pipeline.

pub mod compaction;
pub mod inference;
pub mod tool_approval;
pub mod tool_exec;
