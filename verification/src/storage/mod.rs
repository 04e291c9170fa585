//! What the tool's installs and caches take on disk, and what may go.

pub mod command;
pub mod downloads;
pub mod measure;
pub mod prune;
pub mod report;
pub mod retention;
