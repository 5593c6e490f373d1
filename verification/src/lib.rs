//! Reconstructs a structured changelog from a repository's tag history: for
//! every minor release line, the sequence of patch releases, and for each
//! patch release the commits that landed, the pull-request number each came
//! from, and the top-level packages it touched.

pub mod bytes;
pub mod graph;
pub mod health;
pub mod packages;
pub mod pr_id;
pub mod repo;
pub mod report;
pub mod walker;
