//! Per-key token-bucket admission gate with idle-key eviction.

pub mod bucket;
pub mod cli;
pub mod laws;
pub mod registry;
